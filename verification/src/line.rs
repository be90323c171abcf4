//! The lines of the mesh: an ephemeral visual edge between two nearby
//! particles, with opacity and stroke width graded by their distance.

use crate::geometry::{dist2, dist_fp, distance_fp, lemma_sqrt_floor_bounds, sqrt_floor, Position};
use vstd::arithmetic::div_mod::{
    lemma_div_is_ordered, lemma_div_multiples_vanish, lemma_div_pos_is_pos,
    lemma_fundamental_div_mod_converse_div,
};
use vstd::prelude::*;

verus! {

/// Two positions at this distance or more are not connected by a line.
/// `200` length units, in fixed-point sub-units.
pub const MAX_LINE_LENGTH: i64 = 200_000;

/// The stroke width of a line between coincident positions would be this:
/// `1.5` length units, the thick end of the width gradient.
pub const LINE_WEIGHT: i64 = 1_500;

/// The thin end of the width gradient, reached as the distance approaches
/// [`MAX_LINE_LENGTH`]: `0.1` length units.
pub const MIN_LINE_WIDTH: i64 = 100;

/// The data needed to draw a line between two particles.
#[derive(Clone, Copy, PartialEq, Eq, Structural, Debug)]
pub struct Line {
    /// first point
    pub start: Position,
    /// second point
    pub end: Position,
    /// opacity, `0` transparent to `255` opaque
    pub a: u8,
    /// stroke width, in fixed-point sub-units
    pub w: i64,
}

/// The opacity for a line of length `d`: `d` mapped linearly from
/// `[0, MAX_LINE_LENGTH]` onto `[255, 0]`, rounded down. Closer is more
/// opaque.
pub open spec fn alpha_for(d: int) -> int {
    255 * (MAX_LINE_LENGTH - d) / (MAX_LINE_LENGTH as int)
}

/// The stroke width for a line of length `d`: `d` mapped linearly from
/// `[0, MAX_LINE_LENGTH]` onto `[LINE_WEIGHT, MIN_LINE_WIDTH]`, rounded down.
/// Closer is thicker.
pub open spec fn width_for(d: int) -> int {
    (LINE_WEIGHT * (MAX_LINE_LENGTH - d) + MIN_LINE_WIDTH * d) / (MAX_LINE_LENGTH as int)
}

/// What connecting two positions yields: no line when the positions coincide,
/// when they are [`MAX_LINE_LENGTH`] or farther apart, or when the graded
/// opacity or width comes out zero; otherwise the line with its graded
/// attributes.
pub open spec fn line_between(start: Position, end: Position) -> Option<Line> {
    if start == end {
        None
    } else {
        let d = dist_fp(start, end);
        if d >= MAX_LINE_LENGTH {
            None
        } else if alpha_for(d) == 0 {
            None
        } else if width_for(d) == 0 {
            None
        } else {
            Some(Line { start, end, a: alpha_for(d) as u8, w: width_for(d) as i64 })
        }
    }
}

impl Line {
    /// Creates a new line.
    fn new(start: Position, end: Position, a: u8, w: i64) -> (l: Line)
        ensures
            l == (Line { start, end, a, w }),
    {
        Line { start, end, a, w }
    }

    /// Creates a new line between the given points, or `None` exactly as
    /// [`line_between`] says.
    pub fn from_positions(start: Position, end: Position) -> (r: Option<Line>)
        requires
            start.bounded(),
            end.bounded(),
        ensures
            r == line_between(start, end),
    {
        if start == end {
            return None;
        }
        let distance: u64 = distance_fp(start, end);
        proof {
            lemma_positive_dist(start, end);
        }
        if distance >= (MAX_LINE_LENGTH as u64) {
            return None;
        }
        let max: u64 = MAX_LINE_LENGTH as u64;
        let a64: u64 = 255 * (max - distance) / max;
        proof {
            lemma_div_is_ordered(255 * (MAX_LINE_LENGTH - distance), 255 * (
            MAX_LINE_LENGTH as int), MAX_LINE_LENGTH as int);
            lemma_div_multiples_vanish(255, MAX_LINE_LENGTH as int);
        }
        if a64 == 0 {
            return None;
        }
        let w64: u64 = ((LINE_WEIGHT as u64) * (max - distance) + (MIN_LINE_WIDTH as u64)
            * distance) / max;
        proof {
            lemma_div_is_ordered(
                LINE_WEIGHT * (MAX_LINE_LENGTH - distance) + MIN_LINE_WIDTH * (distance as int),
                LINE_WEIGHT * (MAX_LINE_LENGTH as int),
                MAX_LINE_LENGTH as int,
            );
            lemma_div_multiples_vanish(LINE_WEIGHT as int, MAX_LINE_LENGTH as int);
        }
        if w64 == 0 {
            return None;
        }
        Some(Line::new(start, end, a64 as u8, w64 as i64))
    }
}

/// Distinct positions are at least one sub-unit apart.
pub proof fn lemma_positive_dist(p: Position, q: Position)
    requires
        p != q,
    ensures
        dist2(p, q) >= 1,
        dist_fp(p, q) >= 1,
{
    assert(dist2(p, q) >= 1) by (nonlinear_arith)
        requires
            p.x != q.x || p.y != q.y,
    ;
    lemma_sqrt_floor_bounds(dist2(p, q) as nat);
    let s = sqrt_floor(dist2(p, q) as nat);
    if s == 0 {
        assert((s + 1) * (s + 1) == 1) by (nonlinear_arith)
            requires
                s == 0,
        ;
        assert(false);
    }
}

/// Positions whose distance reaches the cutoff are never connected: if the
/// squared distance is at least `MAX_LINE_LENGTH` squared, no line is derived.
pub proof fn lemma_distance_threshold(p: Position, q: Position)
    requires
        dist2(p, q) >= MAX_LINE_LENGTH * MAX_LINE_LENGTH,
    ensures
        line_between(p, q) is None,
{
    lemma_sqrt_floor_bounds(dist2(p, q) as nat);
    let s = sqrt_floor(dist2(p, q) as nat);
    if s < MAX_LINE_LENGTH {
        assert((s + 1) * (s + 1) <= MAX_LINE_LENGTH * MAX_LINE_LENGTH) by (nonlinear_arith)
            requires
                0 <= s && s + 1 <= MAX_LINE_LENGTH,
        ;
        assert(false);
    }
}

/// A position is never connected to itself.
pub proof fn lemma_coincident(p: Position)
    ensures
        line_between(p, p) is None,
{
}

/// Monotonic fade: of two pairs of distinct positions within the cutoff, the
/// closer pair's graded opacity and width are at least the farther pair's,
/// and wherever the farther pair still gets a line, so does the closer one.
pub proof fn lemma_monotonic_fade(p1: Position, q1: Position, p2: Position, q2: Position)
    requires
        p1 != q1,
        p2 != q2,
        dist_fp(p1, q1) < dist_fp(p2, q2) < MAX_LINE_LENGTH,
    ensures
        alpha_for(dist_fp(p1, q1)) >= alpha_for(dist_fp(p2, q2)),
        width_for(dist_fp(p1, q1)) >= width_for(dist_fp(p2, q2)),
        line_between(p2, q2) is Some ==> line_between(p1, q1) is Some,
        (match (line_between(p1, q1), line_between(p2, q2)) {
            (Some(l1), Some(l2)) => l1.a >= l2.a && l1.w >= l2.w,
            _ => true,
        }),
{
    let d1 = dist_fp(p1, q1);
    let d2 = dist_fp(p2, q2);
    let m = MAX_LINE_LENGTH as int;
    lemma_positive_dist(p1, q1);
    lemma_positive_dist(p2, q2);
    lemma_div_is_ordered(255 * (m - d2), 255 * (m - d1), m);
    lemma_div_is_ordered(
        LINE_WEIGHT * (m - d2) + MIN_LINE_WIDTH * d2,
        LINE_WEIGHT * (m - d1) + MIN_LINE_WIDTH * d1,
        m,
    );
    lemma_div_pos_is_pos(255 * (m - d2), m);
    lemma_div_pos_is_pos(LINE_WEIGHT * (m - d2) + MIN_LINE_WIDTH * d2, m);
    lemma_div_is_ordered(255 * (m - d1), 255 * m, m);
    lemma_div_multiples_vanish(255, m);
    lemma_div_is_ordered(
        LINE_WEIGHT * (m - d1) + MIN_LINE_WIDTH * d1,
        LINE_WEIGHT * m,
        m,
    );
    lemma_div_multiples_vanish(LINE_WEIGHT as int, m);
}

/// Symmetry: the order of the two positions affects only which endpoint is
/// called the start, never whether a line is derived nor its graded
/// attributes.
pub proof fn lemma_symmetric_attributes(p: Position, q: Position)
    ensures
        dist2(p, q) == dist2(q, p),
        line_between(p, q) is Some <==> line_between(q, p) is Some,
        (match (line_between(p, q), line_between(q, p)) {
            (Some(l1), Some(l2)) => l1.a == l2.a && l1.w == l2.w && l1.start == l2.end && l1.end
                == l2.start,
            _ => true,
        }),
{
    assert(dist2(p, q) == dist2(q, p)) by (nonlinear_arith);
}

/// The ends of the gradient: at the smallest positive distance the opacity is
/// one rounding step under full and the width one step under [`LINE_WEIGHT`];
/// approaching the cutoff the opacity reaches zero and the width its
/// [`MIN_LINE_WIDTH`] floor; every distance in between stays within those
/// ends.
pub proof fn lemma_fade_endpoints(d: int)
    requires
        1 <= d < MAX_LINE_LENGTH,
    ensures
        alpha_for(1) == 254,
        width_for(1) == 1499,
        alpha_for(MAX_LINE_LENGTH - 1) == 0,
        width_for(MAX_LINE_LENGTH - 1) == MIN_LINE_WIDTH,
        0 <= alpha_for(d) <= 254,
        MIN_LINE_WIDTH <= width_for(d) <= 1499,
{
    let m = MAX_LINE_LENGTH as int;
    lemma_fundamental_div_mod_converse_div(255 * (m - 1), m, 254, 199_745);
    lemma_fundamental_div_mod_converse_div(
        LINE_WEIGHT * (m - 1) + MIN_LINE_WIDTH * 1,
        m,
        1_499,
        198_600,
    );
    lemma_fundamental_div_mod_converse_div(255 * (m - (m - 1)), m, 0, 255);
    lemma_fundamental_div_mod_converse_div(
        LINE_WEIGHT * (m - (m - 1)) + MIN_LINE_WIDTH * (m - 1),
        m,
        100,
        1_400,
    );
    lemma_div_pos_is_pos(255 * (m - d), m);
    lemma_div_is_ordered(255 * (m - d), 255 * (m - 1), m);
    lemma_div_is_ordered(
        LINE_WEIGHT * (m - d) + MIN_LINE_WIDTH * d,
        LINE_WEIGHT * (m - 1) + MIN_LINE_WIDTH * 1,
        m,
    );
    lemma_div_is_ordered(
        LINE_WEIGHT * (m - (m - 1)) + MIN_LINE_WIDTH * (m - 1),
        LINE_WEIGHT * (m - d) + MIN_LINE_WIDTH * d,
        m,
    );
}

} // verus!
