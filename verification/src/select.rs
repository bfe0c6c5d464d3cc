//! Target selection: least found, random tie-break, team-aware.
//!
//! Questions already found by the requester's team are excluded; if that
//! leaves nothing, the full set is served again (end-of-game fallback).
//! Among the remaining candidates the ones with the fewest crediting teams
//! tie, and the tie is broken by the caller-supplied random draw, taken
//! modulo the number of tied questions, so a uniformly distributed draw picks
//! every tied question equally often.  Selection is stateless: it only reads
//! the current cache snapshot.

use vstd::prelude::*;

verus! {

use crate::question::QuestionCache;
use crate::question::QuestionView;

/// Whether the requesting team has already been credited with a question.
/// A requester with no team has found nothing.
pub open spec fn found_by_team(q: QuestionView, team_id: Option<u64>) -> bool {
    match team_id {
        Some(t) => q.found_by.contains(t),
        None => false,
    }
}

/// Keeps the questions the requesting team has not found yet.
pub open spec fn not_found_pred(team_id: Option<u64>) -> spec_fn(QuestionView) -> bool {
    |q: QuestionView| !found_by_team(q, team_id)
}

/// Keeps the questions whose crediting-team count is exactly `m`.
pub open spec fn cov_pred(m: int) -> spec_fn(QuestionView) -> bool {
    |q: QuestionView| q.found_by.len() as int == m
}

/// The candidate set: the questions the team has not found, or the whole set
/// when the team has found everything.
pub open spec fn spec_candidates(qs: Seq<QuestionView>, team_id: Option<u64>) -> Seq<
    QuestionView,
> {
    let unfound = qs.filter(not_found_pred(team_id));
    if unfound.len() > 0 {
        unfound
    } else {
        qs
    }
}

/// The least crediting-team count over a question sequence.
pub open spec fn min_cov(qs: Seq<QuestionView>) -> int
    decreases qs.len(),
{
    if qs.len() == 0 {
        0
    } else if qs.len() == 1 {
        qs[0].found_by.len() as int
    } else {
        let m = min_cov(qs.drop_last());
        let c = qs.last().found_by.len() as int;
        if c < m {
            c
        } else {
            m
        }
    }
}

/// The candidates tying at the least crediting-team count.
pub open spec fn spec_ties(qs: Seq<QuestionView>, team_id: Option<u64>) -> Seq<QuestionView> {
    let cands = spec_candidates(qs, team_id);
    cands.filter(cov_pred(min_cov(cands)))
}

/// The question the selector hands out for a given random draw.
pub open spec fn spec_chosen(qs: Seq<QuestionView>, team_id: Option<u64>, rnd: u64) -> QuestionView {
    let t = spec_ties(qs, team_id);
    t[rnd as int % t.len() as int]
}

/// The selected question identifier: nothing when the cache is empty.
pub open spec fn spec_select(qs: Seq<QuestionView>, team_id: Option<u64>, rnd: u64) -> Option<
    u128,
> {
    if qs.len() == 0 {
        None
    } else {
        Some(spec_chosen(qs, team_id, rnd).id)
    }
}

/// The views a sequence of positions picks out of the cache.
pub open spec fn views_of(qs: Seq<QuestionView>, idx: Seq<usize>) -> Seq<QuestionView> {
    idx.map_values(|i: usize| qs[i as int])
}

/// The least crediting-team count is attained and is a lower bound.
proof fn lemma_min_cov_attained(qs: Seq<QuestionView>)
    requires
        qs.len() > 0,
    ensures
        exists|i: int| 0 <= i < qs.len() && (#[trigger] qs[i]).found_by.len() as int == min_cov(qs),
        forall|i: int| 0 <= i < qs.len() ==> min_cov(qs) <= (#[trigger] qs[i]).found_by.len(),
    decreases qs.len(),
{
    if qs.len() == 1 {
        assert(qs[0].found_by.len() as int == min_cov(qs));
    } else {
        let rest = qs.drop_last();
        lemma_min_cov_attained(rest);
        let c = qs.last().found_by.len() as int;
        if c < min_cov(rest) {
            assert(qs[qs.len() - 1].found_by.len() as int == min_cov(qs));
        } else {
            let w = choose|i: int|
                0 <= i < rest.len() && (#[trigger] rest[i]).found_by.len() as int == min_cov(rest);
            assert(qs[w].found_by.len() as int == min_cov(qs));
        }
        assert forall|i: int| 0 <= i < qs.len() implies min_cov(qs) <= (#[trigger] qs[i]).found_by.len() by {
            if i < qs.len() - 1 {
                assert(rest[i] == qs[i]);
            }
        }
    }
}

/// Pick the next question for a team: among the candidates the team has not
/// found (or all questions, when it has found every one), the questions with
/// the fewest crediting teams tie, and the draw `rnd` picks one of them by
/// its remainder.  Returns `None` exactly when the cache is empty.
pub fn select_target(cache: &QuestionCache, team_id: Option<u64>, rnd: u64) -> (r: Option<u128>)
    ensures
        r == spec_select(cache@, team_id, rnd),
{
    let n: usize = cache.len();
    if n == 0 {
        return None;
    }
    let ghost pred = not_found_pred(team_id);
    let mut cand: Vec<usize> = Vec::new();
    let mut k: usize = 0;
    while k < n
        invariant
            0 <= k <= n,
            n == cache@.len(),
            forall|m: int| 0 <= m < cand@.len() ==> (#[trigger] cand@[m]) < k,
            views_of(cache@, cand@) == cache@.take(k as int).filter(pred),
            pred == not_found_pred(team_id),
        decreases n - k,
    {
        let f: bool = match team_id {
            Some(t) => cache.found_contains(k, t),
            None => false,
        };
        proof {
            assert(cache@.take(k + 1) =~= cache@.take(k as int).push(cache@[k as int]));
            cache@.take(k as int).lemma_filter_push(cache@[k as int], pred);
        }
        if !f {
            let ghost old_cand = cand@;
            cand.push(k);
            proof {
                assert(views_of(cache@, cand@) =~= views_of(cache@, old_cand).push(
                    cache@[k as int],
                ));
            }
        }
        k = k + 1;
    }
    proof {
        assert(cache@.take(n as int) =~= cache@);
    }
    if cand.len() == 0 {
        let mut j: usize = 0;
        while j < n
            invariant
                0 <= j <= n,
                n == cache@.len(),
                cand@.len() == j,
                forall|m: int| 0 <= m < j ==> (#[trigger] cand@[m]) == m,
            decreases n - j,
        {
            cand.push(j);
            j = j + 1;
        }
        proof {
            assert(views_of(cache@, cand@) =~= cache@);
        }
    }
    let ghost cv = spec_candidates(cache@, team_id);
    proof {
        assert(views_of(cache@, cand@) == cv);
        assert(cv.len() == cand@.len());
    }
    let cn: usize = cand.len();
    let c0: usize = cand[0];
    let mut mincov: usize = cache.found_count(c0);
    proof {
        assert(cv.take(1) =~= seq![cv[0]]);
        assert(cv.take(1)[0] == cv[0]);
        assert(mincov as int == min_cov(cv.take(1)));
    }
    let mut k2: usize = 1;
    while k2 < cn
        invariant
            1 <= k2 <= cn,
            cn == cand@.len(),
            cn == cv.len(),
            n == cache@.len(),
            forall|m: int| 0 <= m < cand@.len() ==> (#[trigger] cand@[m]) < n,
            views_of(cache@, cand@) == cv,
            mincov as int == min_cov(cv.take(k2 as int)),
        decreases cn - k2,
    {
        let ci: usize = cand[k2];
        let c: usize = cache.found_count(ci);
        proof {
            assert(cv[k2 as int] == cache@[ci as int]);
            assert(cv.take(k2 + 1).drop_last() =~= cv.take(k2 as int));
            assert(cv.take(k2 + 1).last() == cv[k2 as int]);
        }
        if c < mincov {
            mincov = c;
        }
        k2 = k2 + 1;
    }
    proof {
        assert(cv.take(cn as int) =~= cv);
    }
    let ghost mpred = cov_pred(mincov as int);
    let mut tie: Vec<usize> = Vec::new();
    let mut k3: usize = 0;
    while k3 < cn
        invariant
            0 <= k3 <= cn,
            cn == cand@.len(),
            cn == cv.len(),
            n == cache@.len(),
            forall|m: int| 0 <= m < cand@.len() ==> (#[trigger] cand@[m]) < n,
            views_of(cache@, cand@) == cv,
            forall|m: int| 0 <= m < tie@.len() ==> (#[trigger] tie@[m]) < n,
            views_of(cache@, tie@) == cv.take(k3 as int).filter(mpred),
            mpred == cov_pred(mincov as int),
        decreases cn - k3,
    {
        let ci: usize = cand[k3];
        let c: usize = cache.found_count(ci);
        proof {
            assert(cv[k3 as int] == cache@[ci as int]);
            assert(cv.take(k3 + 1) =~= cv.take(k3 as int).push(cv[k3 as int]));
            cv.take(k3 as int).lemma_filter_push(cv[k3 as int], mpred);
        }
        if c == mincov {
            let ghost old_tie = tie@;
            tie.push(ci);
            proof {
                assert(views_of(cache@, tie@) =~= views_of(cache@, old_tie).push(
                    cache@[ci as int],
                ));
            }
        }
        k3 = k3 + 1;
    }
    proof {
        assert(cv.take(cn as int) =~= cv);
        lemma_min_cov_attained(cv);
        let w = choose|i: int|
            0 <= i < cv.len() && (#[trigger] cv[i]).found_by.len() as int == min_cov(cv);
        cv.lemma_filter_contains(mpred, w);
        assert(views_of(cache@, tie@).len() > 0);
    }
    let tn: usize = tie.len();
    let pick: usize = (rnd % (tn as u64)) as usize;
    let ti: usize = tie[pick];
    proof {
        assert(views_of(cache@, tie@) == spec_ties(cache@, team_id));
        assert(cache@[ti as int] == spec_ties(cache@, team_id)[pick as int]);
        assert(pick as int == rnd as int % spec_ties(cache@, team_id).len() as int);
    }
    Some(cache.question_id(ti))
}

/// The selector never hands a team a question it has already found, as long
/// as some question remains unfound by that team.
pub proof fn lemma_selector_respects_found(qs: Seq<QuestionView>, team_id: Option<u64>, rnd: u64)
    requires
        exists|i: int| 0 <= i < qs.len() && !found_by_team(#[trigger] qs[i], team_id),
    ensures
        spec_select(qs, team_id, rnd) == Some(spec_chosen(qs, team_id, rnd).id),
        !found_by_team(spec_chosen(qs, team_id, rnd), team_id),
        exists|i: int| 0 <= i < qs.len() && #[trigger] qs[i] == spec_chosen(qs, team_id, rnd),
{
    let pred = not_found_pred(team_id);
    let w = choose|i: int| 0 <= i < qs.len() && !found_by_team(#[trigger] qs[i], team_id);
    assert(pred(qs[w]));
    qs.lemma_filter_contains(pred, w);
    let unfound = qs.filter(pred);
    assert(unfound.len() > 0);
    assert(spec_candidates(qs, team_id) == unfound);
    lemma_min_cov_attained(unfound);
    let mpred = cov_pred(min_cov(unfound));
    let w2 = choose|i: int|
        0 <= i < unfound.len() && (#[trigger] unfound[i]).found_by.len() as int == min_cov(unfound);
    unfound.lemma_filter_contains(mpred, w2);
    let ties = spec_ties(qs, team_id);
    assert(ties.len() > 0);
    let pick = rnd as int % ties.len() as int;
    let ch = spec_chosen(qs, team_id, rnd);
    assert(0 <= pick < ties.len());
    assert(ties.contains(ch));
    unfound.lemma_filter_contains_rev(mpred, ch);
    assert(unfound.contains(ch));
    let m = choose|i: int| 0 <= i < unfound.len() && unfound[i] == ch;
    qs.lemma_filter_pred(pred, m);
    assert(!found_by_team(ch, team_id));
    qs.lemma_filter_contains_rev(pred, ch);
    let m2 = choose|i: int| 0 <= i < qs.len() && qs[i] == ch;
    assert(qs[m2] == ch);
}

} // verus!
