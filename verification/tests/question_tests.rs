use hunt_engine::geo::Coordinate;
use hunt_engine::question::{Question, QuestionCache};

fn sample_question(id: u128, lat_udeg: i64, lng_udeg: i64) -> Question {
    Question {
        id,
        prompt: b"where is it?".to_vec(),
        canonical_answer: b"Fountain".to_vec(),
        location: Coordinate { lat_udeg, lng_udeg },
        found_by: Vec::new(),
    }
}

#[test]
fn add_and_get_round_trip() {
    let mut cache = QuestionCache::new();
    assert!(cache.add_question(sample_question(1, 10, 20)));
    assert!(cache.add_question(sample_question(2, 30, 40)));
    assert_eq!(cache.len(), 2);
    let q = cache.get(2).expect("question 2 is cached");
    assert_eq!(q.id, 2);
    assert_eq!(q.location.lat_udeg, 30);
    assert!(cache.get(3).is_none());
}

#[test]
fn duplicate_or_invalid_questions_are_refused() {
    let mut cache = QuestionCache::new();
    assert!(cache.add_question(sample_question(1, 0, 0)));
    // Same identifier again.
    assert!(!cache.add_question(sample_question(1, 5, 5)));
    // Latitude beyond ninety degrees.
    assert!(!cache.add_question(sample_question(2, 90000001, 0)));
    // A found set that repeats a team.
    let mut q = sample_question(3, 0, 0);
    q.found_by = vec![7, 7];
    assert!(!cache.add_question(q));
    assert_eq!(cache.len(), 1);
}

#[test]
fn record_found_adds_the_team_once() {
    let mut cache = QuestionCache::new();
    assert!(cache.add_question(sample_question(9, 0, 0)));
    let first = cache.record_found(9, 42).expect("question 9 is cached");
    assert_eq!(first.found_by, vec![42]);
    // Crediting the same team again is a no-op.
    let second = cache.record_found(9, 42).expect("question 9 is cached");
    assert_eq!(second.found_by, vec![42]);
    let stored = cache.get(9).expect("question 9 is cached");
    assert_eq!(stored.found_by, vec![42]);
}

#[test]
fn record_found_grows_across_teams() {
    let mut cache = QuestionCache::new();
    assert!(cache.add_question(sample_question(9, 0, 0)));
    cache.record_found(9, 1).unwrap();
    cache.record_found(9, 2).unwrap();
    cache.record_found(9, 1).unwrap();
    let stored = cache.get(9).expect("question 9 is cached");
    assert_eq!(stored.found_by, vec![1, 2]);
}

#[test]
fn record_found_on_unknown_id_changes_nothing() {
    let mut cache = QuestionCache::new();
    assert!(cache.add_question(sample_question(9, 0, 0)));
    assert!(cache.record_found(8, 42).is_none());
    let stored = cache.get(9).expect("question 9 is cached");
    assert!(stored.found_by.is_empty());
}
