use hunt_engine::geo::Coordinate;
use hunt_engine::question::{Question, QuestionCache};
use hunt_engine::select::select_target;

fn question_with_founds(id: u128, found_by: Vec<u64>) -> Question {
    Question {
        id,
        prompt: b"?".to_vec(),
        canonical_answer: b"a".to_vec(),
        location: Coordinate { lat_udeg: 0, lng_udeg: 0 },
        found_by,
    }
}

#[test]
fn empty_cache_selects_nothing() {
    let cache = QuestionCache::new();
    assert!(select_target(&cache, Some(1), 0).is_none());
    assert!(select_target(&cache, None, 0).is_none());
}

#[test]
fn never_reserves_a_found_question() {
    let mut cache = QuestionCache::new();
    assert!(cache.add_question(question_with_founds(1, vec![7])));
    assert!(cache.add_question(question_with_founds(2, vec![])));
    for rnd in 0..32u64 {
        // Question 1 is already found by team 7, so team 7 always gets 2.
        assert_eq!(select_target(&cache, Some(7), rnd), Some(2));
    }
}

#[test]
fn least_found_question_wins() {
    let mut cache = QuestionCache::new();
    assert!(cache.add_question(question_with_founds(1, vec![3, 4])));
    assert!(cache.add_question(question_with_founds(2, vec![3])));
    assert!(cache.add_question(question_with_founds(3, vec![3, 4, 5])));
    for rnd in 0..32u64 {
        // Team 9 has found nothing; question 2 has the fewest credits.
        assert_eq!(select_target(&cache, Some(9), rnd), Some(2));
    }
}

#[test]
fn requester_without_team_is_served_globally() {
    let mut cache = QuestionCache::new();
    assert!(cache.add_question(question_with_founds(1, vec![7])));
    assert!(cache.add_question(question_with_founds(2, vec![])));
    // With no team nothing is excluded; question 2 is least found.
    assert_eq!(select_target(&cache, None, 5), Some(2));
}

#[test]
fn full_set_serves_again_when_everything_is_found() {
    let mut cache = QuestionCache::new();
    assert!(cache.add_question(question_with_founds(1, vec![7])));
    assert!(cache.add_question(question_with_founds(2, vec![7, 8])));
    // Team 7 has found both; fall back to the full set, least found first.
    assert_eq!(select_target(&cache, Some(7), 0), Some(1));
}

#[test]
fn tie_break_is_uniform_over_the_draw() {
    let mut cache = QuestionCache::new();
    assert!(cache.add_question(question_with_founds(10, vec![])));
    assert!(cache.add_question(question_with_founds(11, vec![])));
    assert!(cache.add_question(question_with_founds(12, vec![])));
    let mut counts = [0u32; 3];
    for rnd in 0..300u64 {
        match select_target(&cache, Some(1), rnd) {
            Some(10) => counts[0] += 1,
            Some(11) => counts[1] += 1,
            Some(12) => counts[2] += 1,
            other => panic!("unexpected selection {:?}", other),
        }
    }
    // A uniform draw hits each of the three tied questions equally often.
    assert_eq!(counts, [100, 100, 100]);
}
