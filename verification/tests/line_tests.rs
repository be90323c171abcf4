//! Tests of line derivation: the distance cutoff, the graded attributes, and
//! the integer square root behind them.

use particle_mesh::geometry::{distance_fp, isqrt, Position};
use particle_mesh::line::{Line, LINE_WEIGHT, MAX_LINE_LENGTH, MIN_LINE_WIDTH};

#[test]
fn isqrt_small_values() {
    assert_eq!(isqrt(0), 0);
    assert_eq!(isqrt(1), 1);
    assert_eq!(isqrt(2), 1);
    assert_eq!(isqrt(3), 1);
    assert_eq!(isqrt(4), 2);
    assert_eq!(isqrt(99), 9);
    assert_eq!(isqrt(100), 10);
}

#[test]
fn isqrt_large_values() {
    assert_eq!(isqrt(u64::MAX), 4_294_967_295);
    assert_eq!(isqrt(4_294_967_295 * 4_294_967_295), 4_294_967_295);
    assert_eq!(isqrt(1_000_000_000_000), 1_000_000);
}

#[test]
fn distance_of_pythagorean_pair() {
    let p = Position::new(0, 0);
    let q = Position::new(30_000, 40_000);
    assert_eq!(distance_fp(p, q), 50_000);
}

#[test]
fn distance_rounds_down() {
    let p = Position::new(0, 0);
    let q = Position::new(1, 1);
    assert_eq!(distance_fp(p, q), 1);
}

#[test]
fn no_line_at_the_cutoff() {
    let p = Position::new(0, 0);
    let q = Position::new(MAX_LINE_LENGTH, 0);
    assert_eq!(Line::from_positions(p, q), None);
}

#[test]
fn no_line_beyond_the_cutoff() {
    let p = Position::new(0, 0);
    let q = Position::new(300_000, 400_000);
    assert_eq!(Line::from_positions(p, q), None);
}

#[test]
fn no_line_between_coincident_positions() {
    let p = Position::new(12_345, -6_789);
    assert_eq!(Line::from_positions(p, p), None);
    let origin = Position::new(0, 0);
    assert_eq!(Line::from_positions(origin, origin), None);
}

#[test]
fn line_at_half_the_cutoff() {
    let p = Position::new(0, 0);
    let q = Position::new(100_000, 0);
    let line = Line::from_positions(p, q).unwrap();
    assert_eq!(line.start, p);
    assert_eq!(line.end, q);
    assert_eq!(line.a, 127);
    assert_eq!(line.w, 800);
}

#[test]
fn line_at_a_quarter_of_the_cutoff() {
    let p = Position::new(0, 0);
    let q = Position::new(30_000, 40_000);
    let line = Line::from_positions(p, q).unwrap();
    assert_eq!(line.a, 191);
    assert_eq!(line.w, 1_150);
}

#[test]
fn nearest_distinct_pair_is_almost_fully_graded() {
    let p = Position::new(0, 0);
    let q = Position::new(1, 0);
    let line = Line::from_positions(p, q).unwrap();
    assert_eq!(line.a, 254);
    assert_eq!(line.w, LINE_WEIGHT - 1);
}

#[test]
fn last_visible_distance_before_the_alpha_cutoff() {
    let p = Position::new(0, 0);
    let line = Line::from_positions(p, Position::new(199_215, 0)).unwrap();
    assert_eq!(line.a, 1);
    assert!(line.w >= MIN_LINE_WIDTH);
}

#[test]
fn zero_alpha_yields_no_line_within_the_cutoff() {
    let p = Position::new(0, 0);
    assert_eq!(Line::from_positions(p, Position::new(199_216, 0)), None);
    assert_eq!(Line::from_positions(p, Position::new(199_999, 0)), None);
}

#[test]
fn closer_pairs_fade_less() {
    let p = Position::new(0, 0);
    let near = Line::from_positions(p, Position::new(50_000, 0)).unwrap();
    let far = Line::from_positions(p, Position::new(150_000, 0)).unwrap();
    assert!(near.a >= far.a);
    assert!(near.w >= far.w);
}

#[test]
fn width_never_falls_under_its_floor() {
    let p = Position::new(0, 0);
    for d in [1, 1_000, 100_000, 199_000, 199_215] {
        let line = Line::from_positions(p, Position::new(d, 0)).unwrap();
        assert!(line.w >= MIN_LINE_WIDTH);
        assert!(line.w < LINE_WEIGHT);
    }
}

#[test]
fn derivation_is_deterministic() {
    let p = Position::new(-5_000, 77_000);
    let q = Position::new(60_000, -2_000);
    assert_eq!(Line::from_positions(p, q), Line::from_positions(p, q));
    assert_eq!(Line::from_positions(q, p), Line::from_positions(q, p));
}

#[test]
fn endpoint_assignment_is_positional() {
    let p = Position::new(0, 0);
    let q = Position::new(1_000, 0);
    let forward = Line::from_positions(p, q).unwrap();
    let backward = Line::from_positions(q, p).unwrap();
    assert_eq!(forward.start, p);
    assert_eq!(forward.end, q);
    assert_eq!(backward.start, q);
    assert_eq!(backward.end, p);
    assert_eq!(forward.a, backward.a);
    assert_eq!(forward.w, backward.w);
}
