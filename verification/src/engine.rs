//! Answer verification and target polling.
//!
//! `check_answer` walks the submission through its gates in order: the
//! question identifier must parse and be cached, the normalized answer text
//! must match the question's canonical answer, the submitted position must
//! lie within the geofence, and the submitter must belong to a team.  Only
//! when every gate passes is the team credited — the single mutation — and a
//! next target selected; every failure leaves the cache untouched.
//! `get_target` resolves the requester's team (no team is a valid state
//! there) and selects the next question to surface.

use vstd::prelude::*;

verus! {

use crate::geo::Coordinate;
use crate::geo::spec_within_geofence;
use crate::geo::within_geofence;
use crate::question::QuestionCache;
use crate::question::Question;
use crate::question::add_team;
use crate::question::record_spec;
use crate::select::select_target;
use crate::select::spec_select;
use crate::team::TeamDirectory;
use crate::team::team_of_spec;
use crate::text::bytes_eq;
use crate::text::normalize;
use crate::text::spec_normalize;

/// What `uuid::Uuid::parse_str` accepts and yields on a given text: the
/// 128-bit value of the identifier, or nothing when the text is not a valid
/// textual UUID.  Parsing is a pure function of the text.
pub uninterp spec fn spec_uuid_parse(s: Seq<char>) -> Option<u128>;

/// Relies on uuid::Uuid::parse_str, which parses a UUID from a string of
/// hexadecimal digits with optional hyphens and depends only on that string,
/// and on uuid::Uuid::as_u128, which returns the 128-bit value of the parsed
/// identifier.
#[verifier::external_body]
fn parse_question_id(s: &str) -> (r: Option<u128>)
    ensures
        r == spec_uuid_parse(s@),
{
    match uuid::Uuid::parse_str(s) {
        Ok(u) => Some(u.as_u128()),
        Err(_) => None,
    }
}

/// The payload of a successful submission: the question with its updated
/// found set, and the next target selected for the submitter's team.
pub struct CheckAnswerResponse {
    pub question: Question,
    pub next_target: Option<u128>,
}

/// The payload of a successful poll: the identifier of the next question the
/// requester should pursue.
pub struct GetTargetResponse {
    pub question: u128,
}

/// Every outcome a submission can have.  The boundary maps these to status
/// codes; only `Correct` mutates the cache.
pub enum CheckAnswerOutcome {
    /// The question identifier does not parse: a client error.
    MalformedRequest,
    /// The identifier parses but no cached question carries it.
    QuestionNotFound,
    /// The normalized answer text differs from the canonical answer: a normal
    /// game outcome.
    WrongAnswer,
    /// Right answer, but the submitted position is outside the geofence.
    TooFar,
    /// Right answer in range, but the submitter belongs to no team, so nobody
    /// can be credited.
    NoTeam,
    /// The team was credited; the updated question and a next target.
    Correct(CheckAnswerResponse),
}

/// Verify a submitted answer and credit the submitter's team.
///
/// The gates run in order — identifier, cached question, answer text,
/// geofence, team — and the first failing gate names the outcome.  The cache
/// changes exactly on `Correct`, and then precisely by `record_spec`: the
/// submitter's team is added to the found set of the one question whose
/// identifier matched.
pub fn check_answer(
    cache: &mut QuestionCache,
    dir: &TeamDirectory,
    question_id: &str,
    answer: &Vec<u8>,
    position: Coordinate,
    radius_m: u64,
    user: &Vec<u8>,
    rnd: u64,
) -> (r: CheckAnswerOutcome)
    requires
        old(cache).wf(),
        position.valid(),
    ensures
        final(cache).wf(),
        !(r matches CheckAnswerOutcome::Correct(_)) ==> final(cache)@ == old(cache)@,
        match r {
            CheckAnswerOutcome::MalformedRequest => spec_uuid_parse(question_id@) is None,
            CheckAnswerOutcome::QuestionNotFound => {
                &&& spec_uuid_parse(question_id@) is Some
                &&& forall|i: int|
                    0 <= i < old(cache)@.len() ==> (#[trigger] old(cache)@[i]).id
                        != spec_uuid_parse(question_id@).unwrap()
            },
            CheckAnswerOutcome::WrongAnswer => exists|i: int|
                {
                    &&& 0 <= i < old(cache)@.len()
                    &&& (#[trigger] old(cache)@[i]).id == spec_uuid_parse(question_id@).unwrap()
                    &&& spec_normalize(answer@) != spec_normalize(old(cache)@[i].canonical_answer)
                },
            CheckAnswerOutcome::TooFar => exists|i: int|
                {
                    &&& 0 <= i < old(cache)@.len()
                    &&& (#[trigger] old(cache)@[i]).id == spec_uuid_parse(question_id@).unwrap()
                    &&& spec_normalize(answer@) == spec_normalize(old(cache)@[i].canonical_answer)
                    &&& !spec_within_geofence(position, old(cache)@[i].location, radius_m)
                },
            CheckAnswerOutcome::NoTeam => {
                &&& team_of_spec(dir@, user@) is None
                &&& exists|i: int|
                    {
                        &&& 0 <= i < old(cache)@.len()
                        &&& (#[trigger] old(cache)@[i]).id == spec_uuid_parse(
                            question_id@,
                        ).unwrap()
                        &&& spec_normalize(answer@) == spec_normalize(
                            old(cache)@[i].canonical_answer,
                        )
                        &&& spec_within_geofence(position, old(cache)@[i].location, radius_m)
                    }
            },
            CheckAnswerOutcome::Correct(resp) => {
                &&& team_of_spec(dir@, user@) is Some
                &&& final(cache)@ == record_spec(
                    old(cache)@,
                    spec_uuid_parse(question_id@).unwrap(),
                    team_of_spec(dir@, user@).unwrap(),
                )
                &&& resp.next_target == spec_select(
                    final(cache)@,
                    team_of_spec(dir@, user@),
                    rnd,
                )
                &&& exists|i: int|
                    {
                        &&& 0 <= i < old(cache)@.len()
                        &&& (#[trigger] old(cache)@[i]).id == spec_uuid_parse(
                            question_id@,
                        ).unwrap()
                        &&& spec_normalize(answer@) == spec_normalize(
                            old(cache)@[i].canonical_answer,
                        )
                        &&& spec_within_geofence(position, old(cache)@[i].location, radius_m)
                        &&& resp.question@ == add_team(
                            old(cache)@[i],
                            team_of_spec(dir@, user@).unwrap(),
                        )
                    }
            },
        },
{
    let parsed: Option<u128> = parse_question_id(question_id);
    let qid: u128 = match parsed {
        None => {
            return CheckAnswerOutcome::MalformedRequest;
        },
        Some(v) => v,
    };
    let idx: Option<usize> = cache.get_index(qid);
    let i: usize = match idx {
        None => {
            return CheckAnswerOutcome::QuestionNotFound;
        },
        Some(v) => v,
    };
    let normalized_submitted: Vec<u8> = normalize(answer);
    let normalized_canonical: Vec<u8> = normalize(cache.canonical_answer_of(i));
    if !bytes_eq(&normalized_submitted, &normalized_canonical) {
        return CheckAnswerOutcome::WrongAnswer;
    }
    let location: Coordinate = cache.location_of(i);
    if !within_geofence(&position, &location, radius_m) {
        return CheckAnswerOutcome::TooFar;
    }
    let team_id: u64 = match dir.team_of(user) {
        None => {
            return CheckAnswerOutcome::NoTeam;
        },
        Some(t) => t,
    };
    let recorded: Option<Question> = cache.record_found(qid, team_id);
    match recorded {
        None => {
            proof {
                assert(false);
            }
            CheckAnswerOutcome::QuestionNotFound
        },
        Some(updated) => {
            let next: Option<u128> = select_target(cache, Some(team_id), rnd);
            CheckAnswerOutcome::Correct(
                CheckAnswerResponse { question: updated, next_target: next },
            )
        },
    }
}

/// Pick the next question for a polling player.  A requester with no team is
/// served from the full set; `None` comes back only when no question is
/// cached at all.
pub fn get_target(cache: &QuestionCache, dir: &TeamDirectory, user: &Vec<u8>, rnd: u64) -> (r:
    Option<GetTargetResponse>)
    ensures
        match r {
            Some(resp) => Some(resp.question) == spec_select(
                cache@,
                team_of_spec(dir@, user@),
                rnd,
            ),
            None => cache@.len() == 0,
        },
{
    let team_id: Option<u64> = dir.team_of(user);
    match select_target(cache, team_id, rnd) {
        Some(id) => Some(GetTargetResponse { question: id }),
        None => None,
    }
}

} // verus!
