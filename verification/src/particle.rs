//! The particles of the mesh: moving points with a radius, a speed and a
//! direction.

use crate::geometry::{Boundary, Position, SCALE};
use vstd::prelude::*;

verus! {

/// Largest speed the library accepts. A machine limit, not a behavioural one:
/// it keeps the per-tick displacement within 64 bits.
pub const SPEED_LIMIT: i64 = 1_000_000_000;

/// A movement direction. The components are fixed-point fractions of a unit:
/// `(1_000, -1_000)` points one unit right and one unit up the axis. They are
/// sampled independently and not normalised, so the vector's magnitude varies
/// from particle to particle, on purpose.
#[derive(Clone, Copy, PartialEq, Eq, Structural, Debug)]
pub struct Direction {
    pub x: i64,
    pub y: i64,
}

/// The data needed to move and draw a particle.
#[derive(Clone, Copy, PartialEq, Eq, Structural, Debug)]
pub struct Particle {
    /// The particle's center point
    pub center: Position,
    /// The radius of the particle, in fixed-point sub-units
    pub radius: i64,
    /// The movement speed, in fixed-point sub-units per tick
    pub speed: i64,
    /// The direction to move to
    pub direction: Direction,
}

impl Particle {
    /// The particle sits inside the boundary, its direction components are
    /// unit fractions, and its speed is non-negative and within the machine
    /// limit.
    pub open spec fn wf(self, b: Boundary) -> bool {
        &&& b.contains(self.center)
        &&& -SCALE <= self.direction.x <= SCALE
        &&& -SCALE <= self.direction.y <= SCALE
        &&& 0 <= self.speed <= SPEED_LIMIT
    }

    /// Creates a new particle from the given parameters. Nothing is
    /// validated: the caller owns the ranges of its values.
    pub fn new(x: i64, y: i64, radius: i64, speed: i64, direction_x: i64, direction_y: i64) -> (p:
        Particle)
        ensures
            p == (Particle {
                center: Position { x, y },
                radius,
                speed,
                direction: Direction { x: direction_x, y: direction_y },
            }),
    {
        Particle {
            center: Position { x, y },
            radius,
            speed,
            direction: Direction { x: direction_x, y: direction_y },
        }
    }

    /// Replaces the particle's center coordinates.
    pub fn set_center(&mut self, x: i64, y: i64)
        ensures
            *final(self) == (Particle { center: Position { x, y }, ..*old(self) }),
    {
        self.center.x = x;
        self.center.y = y;
    }
}

} // verus!
