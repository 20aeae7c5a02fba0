use mcts_chess::score::{isqrt, log2_floor, score_gt, uct_milli, Score};

#[test]
fn isqrt_small_values() {
    assert_eq!(isqrt(0), 0);
    assert_eq!(isqrt(1), 1);
    assert_eq!(isqrt(2), 1);
    assert_eq!(isqrt(3), 1);
    assert_eq!(isqrt(4), 2);
    assert_eq!(isqrt(15), 3);
    assert_eq!(isqrt(16), 4);
    assert_eq!(isqrt(1_000_000), 1000);
}

#[test]
fn isqrt_large_values() {
    assert_eq!(isqrt(u64::MAX), 4_294_967_295);
    assert_eq!(isqrt(1 << 62), 1 << 31);
}

#[test]
fn log2_floor_values() {
    assert_eq!(log2_floor(1), 0);
    assert_eq!(log2_floor(2), 1);
    assert_eq!(log2_floor(3), 1);
    assert_eq!(log2_floor(4), 2);
    assert_eq!(log2_floor(1024), 10);
    assert_eq!(log2_floor(u64::MAX), 63);
}

#[test]
fn score_ordering() {
    assert!(score_gt(Score::Infinite, Score::Finite(i64::MAX)));
    assert!(!score_gt(Score::Infinite, Score::Infinite));
    assert!(!score_gt(Score::Finite(5), Score::Infinite));
    assert!(score_gt(Score::Finite(5), Score::Finite(4)));
    assert!(!score_gt(Score::Finite(4), Score::Finite(4)));
}

#[test]
fn uct_of_sure_win_once_visited() {
    // One visit worth +1, parent visited once: mean 1.000, no exploration
    // term since ln(1) == 0.
    assert_eq!(uct_milli(1, 1, 1), 1000);
}

#[test]
fn uct_exploration_term() {
    // Mean 0; parent 2 gives floor(log2) == 1, so the term under the root
    // is 2 * 1000 * 693 / 1 and the score is isqrt(1386000) == 1177.
    assert_eq!(uct_milli(0, 1, 2), 1177);
    // Two visits halve the term under the root: isqrt(693000) == 832.
    assert_eq!(uct_milli(0, 2, 2), 832);
}

#[test]
fn uct_negative_mean() {
    // Two visits worth -1 together: mean -500, plus the same 832.
    assert_eq!(uct_milli(-1, 2, 2), 332);
}

#[test]
fn uct_parent_floored_at_one() {
    // A parent count of 0 is treated as 1, avoiding ln(0).
    assert_eq!(uct_milli(0, 1, 0), uct_milli(0, 1, 1));
}
