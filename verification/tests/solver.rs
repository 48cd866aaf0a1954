use dev_ranking::rankings::Ranking;
use dev_ranking::solver::{compute_score, find_ranking};

#[test]
fn test_compute_score() {
    assert_eq!(compute_score(&Ranking::alphabetical()), 2);
}

#[test]
fn test_find_ranking_in_10000_attempts() {
    let result = find_ranking(10000);
    match result {
        Err(_) => panic!("No solution found"),
        Ok(ranking) => {
            assert_eq!(
                &ranking.to_display_string(),
                "Sarah (best) -> John -> Jessie -> Evan -> Matt (worst)"
            );
        }
    }
}

#[test]
fn test_score_is_bounded_and_pure() {
    for _ in 0..20 {
        let ranking = Ranking::random();
        let score = compute_score(&ranking);
        assert!(score <= 6);
        assert_eq!(compute_score(&ranking), score);
    }
}

#[test]
fn test_found_ranking_scores_zero() {
    if let Ok(ranking) = find_ranking(10000) {
        assert_eq!(compute_score(&ranking), 0);
    } else {
        panic!("No solution found");
    }
}

#[test]
fn test_find_ranking_zero_budget() {
    let mut saw_failure = false;
    for _ in 0..10 {
        match find_ranking(0) {
            Ok(ranking) => {
                assert_eq!(compute_score(&ranking), 0);
            }
            Err(failure) => {
                saw_failure = true;
                assert_eq!(failure.max_attempts, 0);
                assert!(failure.best_score > 0);
                assert_eq!(compute_score(&failure.best_ranking), failure.best_score);
            }
        }
    }
    // A single random ranking almost never satisfies every constraint, so a
    // zero budget gives up on its one scoring pass essentially always.
    assert!(saw_failure);
}
