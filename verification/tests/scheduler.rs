//! Tests of the memory model: first reviews, retrievability, rating
//! monotonicity, lapses, difficulty bounds, and the SM-2 interface.

use engram_core::fixed::SC;
use engram_core::review::ReviewRating;
use engram_core::scheduler::{
    calculate_fsrs, calculate_sm2, next_difficulty, retrievability, FSRSParameters, FSRSState,
    MAX_DIFFICULTY, MIN_STABILITY,
};

const NOW: i64 = 1_700_000_000;
const DAY_SECS: i64 = 86_400;

#[test]
fn test_first_review_good() {
    let state = FSRSState::default();
    let out = calculate_fsrs(&state, ReviewRating::Good, None, NOW);

    assert!(out.interval_days >= 1);
    assert!(out.state.stability > 0);
    assert!(out.state.difficulty >= SC && out.state.difficulty <= 10 * SC);
    assert_eq!(out.state.reps, 1);
    assert_eq!(out.state.lapses, 0);
}

#[test]
fn test_first_review_again_creates_lapse() {
    let state = FSRSState::default();
    let out = calculate_fsrs(&state, ReviewRating::Again, None, NOW);

    assert_eq!(out.state.reps, 1);
    assert_eq!(out.state.lapses, 1);
}

#[test]
fn test_first_review_exact_values() {
    // the default weights give Good an initial stability of 2.4 days,
    // which rounds to a 2-day interval
    let state = FSRSState::default();
    let out = calculate_fsrs(&state, ReviewRating::Good, None, NOW);
    assert_eq!(out.state.stability, 2_400_000);
    assert_eq!(out.interval_days, 2);
    assert_eq!(out.next_review, NOW + 2 * DAY_SECS);

    let easy = calculate_fsrs(&state, ReviewRating::Easy, None, NOW);
    assert_eq!(easy.state.stability, 5_800_000);
    assert_eq!(easy.interval_days, 6);
}

#[test]
fn test_retrievability_decreases_over_time() {
    let stability = 10 * SC; // 10 days

    let r_day1 = retrievability(1 * SC, stability);
    let r_day5 = retrievability(5 * SC, stability);
    let r_day10 = retrievability(10 * SC, stability);

    assert!(r_day1 > r_day5);
    assert!(r_day5 > r_day10);
    // At stability days, retrievability should be ~90%
    assert!((r_day10 as i64 - 900_000).abs() < 50_000);
}

#[test]
fn test_retrievability_at_stability_is_exact() {
    // elapsed == stability solves to exactly 0.9 in the fixed-point model
    assert_eq!(retrievability(10 * SC, 10 * SC), 900_000);
    assert_eq!(retrievability(123 * SC, 123 * SC), 900_000);
}

#[test]
fn test_easy_rating_increases_stability_more() {
    let state = FSRSState {
        stability: 5 * SC,
        difficulty: 5 * SC,
        reps: 2,
        lapses: 0,
        last_review: Some(NOW - 5 * DAY_SECS),
    };

    let easy = calculate_fsrs(&state, ReviewRating::Easy, None, NOW);
    let good = calculate_fsrs(&state, ReviewRating::Good, None, NOW);

    assert!(easy.state.stability > good.state.stability);
}

#[test]
fn test_rating_orders_stability() {
    let state = FSRSState {
        stability: 5 * SC,
        difficulty: 5 * SC,
        reps: 2,
        lapses: 0,
        last_review: Some(NOW - 5 * DAY_SECS),
    };
    let hard = calculate_fsrs(&state, ReviewRating::Hard, None, NOW);
    let good = calculate_fsrs(&state, ReviewRating::Good, None, NOW);
    let easy = calculate_fsrs(&state, ReviewRating::Easy, None, NOW);
    assert!(hard.state.stability <= good.state.stability);
    assert!(good.state.stability <= easy.state.stability);
}

#[test]
fn test_again_rating_resets_stability() {
    let state = FSRSState {
        stability: 30 * SC,
        difficulty: 5 * SC,
        reps: 5,
        lapses: 0,
        last_review: Some(NOW - 30 * DAY_SECS),
    };

    let out = calculate_fsrs(&state, ReviewRating::Again, None, NOW);

    assert!(out.state.stability < state.stability);
    assert!(out.interval_days < 30);
    assert_eq!(out.state.lapses, 1);
}

#[test]
fn test_difficulty_bounded() {
    let params = FSRSParameters::default();

    // Many easy ratings should not push difficulty below 1
    let mut d = 5 * SC;
    for _ in 0..20 {
        d = next_difficulty(&params, d, 3);
    }
    assert!(d >= SC);

    // Many again ratings should not push difficulty above 10
    d = 5 * SC;
    for _ in 0..20 {
        d = next_difficulty(&params, d, 0);
    }
    assert!(d <= MAX_DIFFICULTY);
}

#[test]
fn test_interval_bounds_for_all_ratings() {
    let reviewed = FSRSState {
        stability: 7 * SC,
        difficulty: 6 * SC,
        reps: 3,
        lapses: 1,
        last_review: Some(NOW - 9 * DAY_SECS),
    };
    for state in [FSRSState::default(), reviewed] {
        for rating in [
            ReviewRating::Again,
            ReviewRating::Hard,
            ReviewRating::Good,
            ReviewRating::Easy,
        ] {
            let out = calculate_fsrs(&state, rating, None, NOW);
            assert!(out.interval_days >= 1);
            assert!(out.interval_days <= 36_500);
            assert!(out.next_review > NOW);
            assert!(out.state.stability >= MIN_STABILITY);
        }
    }
}

#[test]
fn test_backward_compatible_sm2_interface() {
    // Test that the backward-compatible interface works
    let (interval, ease, reps, _) = calculate_sm2(0, 2_500_000, 0, ReviewRating::Good, NOW);

    assert!(interval >= 1);
    assert!(ease >= 1_300_000 && ease <= 3_000_000);
    assert_eq!(reps, 1);
}

#[test]
fn test_easy_longer_intervals_compat() {
    let (easy_interval, _, _, _) = calculate_sm2(6, 2_500_000, 2, ReviewRating::Easy, NOW);
    let (good_interval, _, _, _) = calculate_sm2(6, 2_500_000, 2, ReviewRating::Good, NOW);

    assert!(easy_interval >= good_interval);
}

#[test]
fn test_retrievability_at_zero_elapsed() {
    // fresh recall probability is exactly 1, strictly above the 0.9 reached
    // after one stability of elapsed time
    assert_eq!(retrievability(0, 10 * SC), 1_000_000);
    assert!(retrievability(0, 10 * SC) > retrievability(10 * SC, 10 * SC));
}
