//! The in-memory question set: a process-wide snapshot of every active
//! question, loaded once at startup and mutated only through `record_found`.
//!
//! A question's `found_by` set of team identifiers only grows, a team appears
//! in it at most once, and crediting a team that is already present changes
//! nothing.  Question identifiers are unique across the cache and every
//! question carries a valid coordinate, so the geofence check is always
//! defined on cached questions.

use vstd::prelude::*;

verus! {

use crate::geo::Coordinate;
use crate::text::copy_bytes;

/// One scavenger-hunt question.
pub struct Question {
    /// Stable unique identifier (the 128-bit value of its textual UUID).
    pub id: u128,
    /// Display text, carried as opaque bytes.
    pub prompt: Vec<u8>,
    /// Reference answer, compared after normalization.
    pub canonical_answer: Vec<u8>,
    /// Where the question is physically placed.
    pub location: Coordinate,
    /// Identifiers of the teams credited with this question so far.
    pub found_by: Vec<u64>,
}

/// The mathematical shape of a question.
pub struct QuestionView {
    pub id: u128,
    pub prompt: Seq<u8>,
    pub canonical_answer: Seq<u8>,
    pub location: Coordinate,
    pub found_by: Seq<u64>,
}

impl View for Question {
    type V = QuestionView;

    open spec fn view(&self) -> QuestionView {
        QuestionView {
            id: self.id,
            prompt: self.prompt@,
            canonical_answer: self.canonical_answer@,
            location: self.location,
            found_by: self.found_by@,
        }
    }
}

/// No team identifier occurs twice.
pub open spec fn teams_unique(s: Seq<u64>) -> bool {
    forall|i: int, j: int| 0 <= i < j < s.len() ==> s[i] != s[j]
}

/// Crediting one team on one question: a no-op when the team is already
/// present, otherwise the team is appended to the found set.
pub open spec fn add_team(q: QuestionView, team_id: u64) -> QuestionView {
    if q.found_by.contains(team_id) {
        q
    } else {
        QuestionView {
            id: q.id,
            prompt: q.prompt,
            canonical_answer: q.canonical_answer,
            location: q.location,
            found_by: q.found_by.push(team_id),
        }
    }
}

/// The whole cache after crediting `team_id` on the question with identifier
/// `id`: that question is updated, every other question is untouched.
pub open spec fn record_spec(qs: Seq<QuestionView>, id: u128, team_id: u64) -> Seq<QuestionView> {
    Seq::new(
        qs.len(),
        |i: int|
            if qs[i].id == id {
                add_team(qs[i], team_id)
            } else {
                qs[i]
            },
    )
}

/// Crediting a team twice is the same as crediting it once: the second pass
/// finds the team already present and changes nothing.
pub proof fn lemma_record_found_idempotent(qs: Seq<QuestionView>, id: u128, team_id: u64)
    ensures
        record_spec(record_spec(qs, id, team_id), id, team_id) == record_spec(qs, id, team_id),
{
    let once = record_spec(qs, id, team_id);
    assert forall|i: int| 0 <= i < qs.len() implies record_spec(once, id, team_id)[i] == once[i] by {
        if qs[i].id == id {
            assert(once[i] == add_team(qs[i], team_id));
            assert(once[i].found_by.contains(team_id)) by {
                if !qs[i].found_by.contains(team_id) {
                    assert(once[i].found_by[qs[i].found_by.len() as int] == team_id);
                }
            }
        }
    }
    assert(record_spec(once, id, team_id) =~= once);
}

/// A credit never removes a team: every team present before `record_found`
/// is still present after it, on every question.
pub proof fn lemma_record_found_grows(qs: Seq<QuestionView>, id: u128, team_id: u64, i: int, t: u64)
    requires
        0 <= i < qs.len(),
        qs[i].found_by.contains(t),
    ensures
        record_spec(qs, id, team_id)[i].found_by.contains(t),
{
    let k = choose|k: int| 0 <= k < qs[i].found_by.len() && qs[i].found_by[k] == t;
    assert(record_spec(qs, id, team_id)[i].found_by[k] == t);
}

/// A fresh vector of team identifiers with the same contents.
fn copy_teams(v: &Vec<u64>) -> (r: Vec<u64>)
    ensures
        r@ == v@,
{
    let n: usize = v.len();
    let mut out: Vec<u64> = Vec::new();
    let mut k: usize = 0;
    while k < n
        invariant
            0 <= k <= n,
            n == v@.len(),
            out@.len() == k,
            forall|m: int| 0 <= m < k ==> out@[m] == v@[m],
        decreases n - k,
    {
        let c: u64 = v[k];
        out.push(c);
        k = k + 1;
    }
    proof {
        assert(out@ =~= v@);
    }
    out
}

/// Whether a team identifier is present in a found set.
fn contains_team(v: &Vec<u64>, team_id: u64) -> (r: bool)
    ensures
        r == v@.contains(team_id),
{
    let n: usize = v.len();
    let mut k: usize = 0;
    while k < n
        invariant
            0 <= k <= n,
            n == v@.len(),
            forall|m: int| 0 <= m < k ==> v@[m] != team_id,
        decreases n - k,
    {
        if v[k] == team_id {
            return true;
        }
        k = k + 1;
    }
    false
}

/// Whether a found set repeats a team identifier.
fn teams_have_dup(v: &Vec<u64>) -> (r: bool)
    ensures
        r == !teams_unique(v@),
{
    let n: usize = v.len();
    let mut k: usize = 0;
    while k < n
        invariant
            0 <= k <= n,
            n == v@.len(),
            forall|i: int, j: int| 0 <= i < j < k ==> v@[i] != v@[j],
        decreases n - k,
    {
        let mut m: usize = 0;
        while m < k
            invariant
                0 <= m <= k < n,
                n == v@.len(),
                forall|i: int| 0 <= i < m ==> v@[i] != v@[k as int],
            decreases k - m,
        {
            if v[m] == v[k] {
                return true;
            }
            m = m + 1;
        }
        k = k + 1;
    }
    false
}

/// A deep copy of a question.
pub fn clone_question(q: &Question) -> (r: Question)
    ensures
        r@ == q@,
{
    Question {
        id: q.id,
        prompt: copy_bytes(&q.prompt),
        canonical_answer: copy_bytes(&q.canonical_answer),
        location: q.location,
        found_by: copy_teams(&q.found_by),
    }
}

/// The process-wide question set, behind a narrow read/write interface:
/// every mutation goes through `record_found`.
pub struct QuestionCache {
    questions: Vec<Question>,
}

impl View for QuestionCache {
    type V = Seq<QuestionView>;

    closed spec fn view(&self) -> Seq<QuestionView> {
        self.questions@.map_values(|q: Question| q@)
    }
}

impl QuestionCache {
    /// Identifiers are unique, every location is a valid coordinate, and no
    /// found set repeats a team.
    pub open spec fn wf(self) -> bool {
        &&& forall|i: int, j: int|
            #![trigger self@[i].id, self@[j].id]
            0 <= i < j < self@.len() ==> self@[i].id != self@[j].id
        &&& forall|i: int| 0 <= i < self@.len() ==> (#[trigger] self@[i]).location.valid()
        &&& forall|i: int| 0 <= i < self@.len() ==> teams_unique((#[trigger] self@[i]).found_by)
    }

    /// An empty cache.
    pub fn new() -> (r: Self)
        ensures
            r@ =~= Seq::<QuestionView>::empty(),
            r.wf(),
    {
        QuestionCache { questions: Vec::new() }
    }

    /// How many questions are cached.
    pub fn len(&self) -> (r: usize)
        ensures
            r == self@.len(),
    {
        self.questions.len()
    }

    /// The identifier of the question at a position.
    pub fn question_id(&self, i: usize) -> (r: u128)
        requires
            i < self@.len(),
        ensures
            r == self@[i as int].id,
    {
        self.questions[i].id
    }

    /// How many teams have been credited with the question at a position.
    pub fn found_count(&self, i: usize) -> (r: usize)
        requires
            i < self@.len(),
        ensures
            r == self@[i as int].found_by.len(),
    {
        self.questions[i].found_by.len()
    }

    /// Whether the team has been credited with the question at a position.
    pub fn found_contains(&self, i: usize, team_id: u64) -> (r: bool)
        requires
            i < self@.len(),
        ensures
            r == self@[i as int].found_by.contains(team_id),
    {
        contains_team(&self.questions[i].found_by, team_id)
    }

    /// The reference answer of the question at a position.
    pub fn canonical_answer_of(&self, i: usize) -> (r: &Vec<u8>)
        requires
            i < self@.len(),
        ensures
            r@ == self@[i as int].canonical_answer,
    {
        &self.questions[i].canonical_answer
    }

    /// The location of the question at a position.
    pub fn location_of(&self, i: usize) -> (r: Coordinate)
        requires
            i < self@.len(),
        ensures
            r == self@[i as int].location,
    {
        self.questions[i].location
    }

    /// The full snapshot, for read-only scans.  Every mutation still goes
    /// through `record_found`.
    pub fn all(&self) -> (r: &Vec<Question>)
        ensures
            r@.map_values(|q: Question| q@) == self@,
    {
        &self.questions
    }

    /// The position of the question with the given identifier, if any.
    pub fn get_index(&self, id: u128) -> (r: Option<usize>)
        ensures
            match r {
                Some(i) => i < self@.len() && self@[i as int].id == id,
                None => forall|i: int|
                    0 <= i < self@.len() ==> (#[trigger] self@[i]).id != id,
            },
    {
        let n: usize = self.questions.len();
        let mut k: usize = 0;
        while k < n
            invariant
                0 <= k <= n,
                n == self@.len(),
                forall|i: int| 0 <= i < k ==> (#[trigger] self@[i]).id != id,
            decreases n - k,
        {
            if self.questions[k].id == id {
                return Some(k);
            }
            k = k + 1;
        }
        None
    }

    /// A copy of the question with the given identifier, or `None` when the
    /// identifier is unknown.
    pub fn get(&self, id: u128) -> (r: Option<Question>)
        ensures
            match r {
                Some(q) => q@.id == id && exists|i: int|
                    0 <= i < self@.len() && #[trigger] self@[i] == q@,
                None => forall|i: int|
                    0 <= i < self@.len() ==> (#[trigger] self@[i]).id != id,
            },
    {
        match self.get_index(id) {
            Some(i) => Some(clone_question(&self.questions[i])),
            None => None,
        }
    }

    /// Load one question into the cache.  The question is refused (and the
    /// cache unchanged) when its identifier is already present, its location
    /// is out of range, or its found set repeats a team.
    pub fn add_question(&mut self, q: Question) -> (r: bool)
        requires
            old(self).wf(),
        ensures
            final(self).wf(),
            r == ({
                &&& q@.location.valid()
                &&& teams_unique(q@.found_by)
                &&& forall|i: int|
                    0 <= i < old(self)@.len() ==> (#[trigger] old(self)@[i]).id != q@.id
            }),
            r ==> final(self)@ == old(self)@.push(q@),
            !r ==> final(self)@ == old(self)@,
    {
        let ok_loc: bool = -90000000 <= q.location.lat_udeg && q.location.lat_udeg <= 90000000
            && -180000000 <= q.location.lng_udeg && q.location.lng_udeg <= 180000000;
        let fresh: bool = match self.get_index(q.id) {
            Some(_) => false,
            None => true,
        };
        let no_dup: bool = !teams_have_dup(&q.found_by);
        if ok_loc && fresh && no_dup {
            let ghost before = self@;
            self.questions.push(q);
            proof {
                assert(self@ =~= before.push(q@));
            }
            true
        } else {
            false
        }
    }

    /// Credit a team with a question: the team is added to the question's
    /// found set unless it is already there, and the updated question is
    /// returned.  `None` signals that the identifier is unknown, in which
    /// case nothing changes.
    pub fn record_found(&mut self, id: u128, team_id: u64) -> (r: Option<Question>)
        requires
            old(self).wf(),
        ensures
            final(self).wf(),
            final(self)@ == record_spec(old(self)@, id, team_id),
            match r {
                Some(q) => exists|i: int|
                    0 <= i < old(self)@.len() && (#[trigger] old(self)@[i]).id == id && q@
                        == add_team(old(self)@[i], team_id),
                None => (forall|i: int|
                    0 <= i < old(self)@.len() ==> (#[trigger] old(self)@[i]).id != id)
                    && final(self)@ == old(self)@,
            },
    {
        let idx = self.get_index(id);
        match idx {
            None => {
                proof {
                    assert(record_spec(self@, id, team_id) =~= self@);
                }
                None
            },
            Some(i) => {
                let ghost before = self@;
                let mut q: Question = self.questions.remove(i);
                proof {
                    assert(q@ == before[i as int]);
                }
                if !contains_team(&q.found_by, team_id) {
                    q.found_by.push(team_id);
                }
                proof {
                    assert(q@ == add_team(before[i as int], team_id));
                }
                let ret: Question = clone_question(&q);
                self.questions.insert(i, q);
                proof {
                    assert(self@ =~= before.update(i as int, add_team(before[i as int], team_id)));
                    assert(self@ =~= record_spec(before, id, team_id));
                    assert forall|a: int, b: int|
                        0 <= a < b < self@.len() implies self@[a].id != self@[b].id by {}
                    assert forall|a: int| 0 <= a < self@.len() implies teams_unique(
                        self@[a].found_by,
                    ) by {
                        if a == i as int && !before[a].found_by.contains(team_id) {
                            assert(forall|m: int|
                                0 <= m < before[a].found_by.len() ==> before[a].found_by[m]
                                    != team_id);
                        }
                    }
                }
                Some(ret)
            },
        }
    }
}

} // verus!
