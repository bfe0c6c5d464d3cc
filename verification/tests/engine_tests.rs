use hunt_engine::engine::{check_answer, get_target, CheckAnswerOutcome};
use hunt_engine::geo::Coordinate;
use hunt_engine::question::{Question, QuestionCache};
use hunt_engine::team::{Team, TeamDirectory};

const QID_STR: &str = "11112222-3333-4444-5555-666677778888";
const QID: u128 = 0x11112222333344445555666677778888;

fn seeded_cache() -> QuestionCache {
    let mut cache = QuestionCache::new();
    let q = Question {
        id: QID,
        prompt: b"what stands at the center of the park?".to_vec(),
        canonical_answer: b"The Grand Fountain".to_vec(),
        location: Coordinate { lat_udeg: 0, lng_udeg: 0 },
        found_by: Vec::new(),
    };
    assert!(cache.add_question(q));
    cache
}

fn roster() -> TeamDirectory {
    let mut dir = TeamDirectory::new();
    dir.add_team_entry(Team {
        id: 7,
        member_user_ids: vec![b"alice".to_vec(), b"bob".to_vec()],
    });
    dir.add_team_entry(Team { id: 8, member_user_ids: vec![b"carol".to_vec()] });
    dir
}

fn found_count(cache: &QuestionCache) -> usize {
    cache.get(QID).expect("question is cached").found_by.len()
}

#[test]
fn uuid_text_matches_its_128_bit_value() {
    let parsed = uuid::Uuid::parse_str(QID_STR).expect("valid uuid");
    assert_eq!(parsed.as_u128(), QID);
}

#[test]
fn correct_in_range_credits_team_and_is_idempotent() {
    let mut cache = seeded_cache();
    let dir = roster();
    let near = Coordinate { lat_udeg: 90, lng_udeg: 0 };  // ten meters away
    let out = check_answer(
        &mut cache,
        &dir,
        QID_STR,
        &b"  the grand fountain ".to_vec(),
        near,
        50,
        &b"alice".to_vec(),
        3,
    );
    match out {
        CheckAnswerOutcome::Correct(resp) => {
            assert_eq!(resp.question.id, QID);
            assert_eq!(resp.question.found_by, vec![7]);
            // The only question is now found by team 7; the fallback still
            // serves it as the next target.
            assert_eq!(resp.next_target, Some(QID));
        }
        other => panic!("expected Correct, got {}", outcome_name(&other)),
    }
    assert_eq!(found_count(&cache), 1);
    // A teammate answers the same question: the credit does not duplicate.
    let again = check_answer(
        &mut cache,
        &dir,
        QID_STR,
        &b"The Grand Fountain".to_vec(),
        near,
        50,
        &b"bob".to_vec(),
        4,
    );
    assert!(matches!(again, CheckAnswerOutcome::Correct(_)));
    assert_eq!(found_count(&cache), 1);
}

#[test]
fn correct_but_too_far_mutates_nothing() {
    let mut cache = seeded_cache();
    let dir = roster();
    let far = Coordinate { lat_udeg: 1798, lng_udeg: 0 };  // two hundred meters
    let out = check_answer(
        &mut cache,
        &dir,
        QID_STR,
        &b"the grand fountain".to_vec(),
        far,
        50,
        &b"alice".to_vec(),
        0,
    );
    assert!(matches!(out, CheckAnswerOutcome::TooFar));
    assert_eq!(found_count(&cache), 0);
}

#[test]
fn wrong_answer_text_mutates_nothing() {
    let mut cache = seeded_cache();
    let dir = roster();
    let near = Coordinate { lat_udeg: 90, lng_udeg: 0 };
    let out = check_answer(
        &mut cache,
        &dir,
        QID_STR,
        &b"the small fountain".to_vec(),
        near,
        50,
        &b"alice".to_vec(),
        0,
    );
    assert!(matches!(out, CheckAnswerOutcome::WrongAnswer));
    assert_eq!(found_count(&cache), 0);
}

#[test]
fn unknown_question_id_is_not_found() {
    let mut cache = seeded_cache();
    let dir = roster();
    let near = Coordinate { lat_udeg: 90, lng_udeg: 0 };
    let out = check_answer(
        &mut cache,
        &dir,
        "99999999-9999-4999-9999-999999999999",
        &b"the grand fountain".to_vec(),
        near,
        50,
        &b"alice".to_vec(),
        0,
    );
    assert!(matches!(out, CheckAnswerOutcome::QuestionNotFound));
    assert_eq!(found_count(&cache), 0);
}

#[test]
fn malformed_question_id_is_a_client_error() {
    let mut cache = seeded_cache();
    let dir = roster();
    let near = Coordinate { lat_udeg: 90, lng_udeg: 0 };
    for bad in ["not-a-uuid", "", "11112222-3333-4444-5555-66667777888", "zzzz"] {
        let out = check_answer(
            &mut cache,
            &dir,
            bad,
            &b"the grand fountain".to_vec(),
            near,
            50,
            &b"alice".to_vec(),
            0,
        );
        assert!(
            matches!(out, CheckAnswerOutcome::MalformedRequest),
            "{bad:?} should be malformed"
        );
    }
    assert_eq!(found_count(&cache), 0);
}

#[test]
fn user_without_team_gets_no_team_and_no_credit() {
    let mut cache = seeded_cache();
    let dir = roster();
    let near = Coordinate { lat_udeg: 90, lng_udeg: 0 };
    let out = check_answer(
        &mut cache,
        &dir,
        QID_STR,
        &b"the grand fountain".to_vec(),
        near,
        50,
        &b"mallory".to_vec(),
        0,
    );
    assert!(matches!(out, CheckAnswerOutcome::NoTeam));
    assert_eq!(found_count(&cache), 0);
}

#[test]
fn get_target_serves_the_least_found_question() {
    let mut cache = seeded_cache();
    let other = Question {
        id: 5,
        prompt: b"second question".to_vec(),
        canonical_answer: b"x".to_vec(),
        location: Coordinate { lat_udeg: 1000, lng_udeg: 1000 },
        found_by: vec![8],
    };
    assert!(cache.add_question(other));
    let dir = roster();
    // Carol's team (8) already found question 5, so she is pointed at QID.
    let resp = get_target(&cache, &dir, &b"carol".to_vec(), 11).expect("a target exists");
    assert_eq!(resp.question, QID);
    // An unaffiliated user is served globally: QID has fewer credits.
    let solo = get_target(&cache, &dir, &b"mallory".to_vec(), 11).expect("a target exists");
    assert_eq!(solo.question, QID);
    // An empty cache has no target at all.
    let empty = QuestionCache::new();
    assert!(get_target(&empty, &dir, &b"alice".to_vec(), 0).is_none());
}

fn outcome_name(out: &CheckAnswerOutcome) -> &'static str {
    match out {
        CheckAnswerOutcome::MalformedRequest => "MalformedRequest",
        CheckAnswerOutcome::QuestionNotFound => "QuestionNotFound",
        CheckAnswerOutcome::WrongAnswer => "WrongAnswer",
        CheckAnswerOutcome::TooFar => "TooFar",
        CheckAnswerOutcome::NoTeam => "NoTeam",
        CheckAnswerOutcome::Correct(_) => "Correct",
    }
}
