//! Fixed-point plane geometry: positions, the boundary rectangle, and the
//! integer square root that turns squared distances into distances.

use vstd::prelude::*;

verus! {

/// Fixed-point sub-units per length unit. A coordinate of `1_000` is one
/// length unit; `2_500` is two and a half.
pub const SCALE: i64 = 1_000;

/// Largest coordinate magnitude the library accepts. A machine limit, not a
/// behavioural one: it keeps every squared distance within 64 bits.
pub const COORD_LIMIT: i64 = 1_000_000_000;

/// A point of the plane, in fixed-point sub-units.
#[derive(Clone, Copy, PartialEq, Eq, Structural, Debug)]
pub struct Position {
    pub x: i64,
    pub y: i64,
}

impl Position {
    /// Both coordinates are within [`COORD_LIMIT`].
    pub open spec fn bounded(self) -> bool {
        &&& -COORD_LIMIT <= self.x <= COORD_LIMIT
        &&& -COORD_LIMIT <= self.y <= COORD_LIMIT
    }

    pub fn new(x: i64, y: i64) -> (p: Position)
        ensures
            p == (Position { x, y }),
    {
        Position { x, y }
    }
}

/// The squared Euclidean distance between two positions.
pub open spec fn dist2(p: Position, q: Position) -> int {
    (q.x - p.x) * (q.x - p.x) + (q.y - p.y) * (q.y - p.y)
}

/// The floor of the square root of `n`: the unique `r` with
/// `r * r <= n < (r + 1) * (r + 1)`.
pub open spec fn sqrt_floor(n: nat) -> nat
    decreases n,
{
    if n == 0 {
        0
    } else {
        let r = sqrt_floor((n - 1) as nat);
        if (r + 1) * (r + 1) <= n {
            (r + 1) as nat
        } else {
            r
        }
    }
}

/// The distance between two positions, rounded down to a whole number of
/// fixed-point sub-units.
pub open spec fn dist_fp(p: Position, q: Position) -> int {
    sqrt_floor(dist2(p, q) as nat) as int
}

/// `sqrt_floor(n)` really is the floor of the square root of `n`.
pub proof fn lemma_sqrt_floor_bounds(n: nat)
    ensures
        sqrt_floor(n) * sqrt_floor(n) <= n,
        n < (sqrt_floor(n) + 1) * (sqrt_floor(n) + 1),
    decreases n,
{
    if n == 0 {
        assert(n < (sqrt_floor(n) + 1) * (sqrt_floor(n) + 1)) by (nonlinear_arith)
            requires
                n == 0 && sqrt_floor(n) == 0,
        ;
    } else {
        lemma_sqrt_floor_bounds((n - 1) as nat);
        let r = sqrt_floor((n - 1) as nat);
        if (r + 1) * (r + 1) <= n {
            assert(sqrt_floor(n) == r + 1);
            assert(n <= (r + 1) * (r + 1));
            assert((r + 1) * (r + 1) < (r + 2) * (r + 2)) by (nonlinear_arith);
        } else {
            assert(sqrt_floor(n) == r);
            assert(r * r <= n - 1);
        }
    }
}

/// No number other than `sqrt_floor(n)` sits between the two squares.
pub proof fn lemma_sqrt_floor_unique(n: nat, k: nat)
    requires
        k * k <= n,
        n < (k + 1) * (k + 1),
    ensures
        k == sqrt_floor(n),
{
    lemma_sqrt_floor_bounds(n);
    let s = sqrt_floor(n);
    if k < s {
        assert((k + 1) * (k + 1) <= s * s) by (nonlinear_arith)
            requires
                k + 1 <= s,
        ;
        assert(false);
    }
    if s < k {
        assert((s + 1) * (s + 1) <= k * k) by (nonlinear_arith)
            requires
                s + 1 <= k,
        ;
        assert(false);
    }
}

/// Integer square root by binary search.
pub fn isqrt(n: u64) -> (r: u64)
    ensures
        r == sqrt_floor(n as nat),
{
    let mut lo: u64 = 0;
    let mut hi: u64 = if n < 0xFFFF_FFFF {
        n
    } else {
        0xFFFF_FFFF
    };
    proof {
        if n < 0xFFFF_FFFF {
            assert(n < (n + 1) * (n + 1)) by (nonlinear_arith);
        }
    }
    while lo < hi
        invariant
            lo <= hi <= 0xFFFF_FFFF,
            lo * lo <= n,
            n < (hi + 1) * (hi + 1),
        decreases hi - lo,
    {
        let mid = lo + (hi - lo + 1) / 2;
        proof {
            assert(mid * mid <= 0xFFFF_FFFFu64 * 0xFFFF_FFFFu64) by (nonlinear_arith)
                requires
                    0 <= mid <= 0xFFFF_FFFFu64,
            ;
        }
        if mid * mid <= n {
            lo = mid;
        } else {
            hi = mid - 1;
        }
    }
    proof {
        lemma_sqrt_floor_unique(n as nat, lo as nat);
    }
    lo
}

/// The fixed-point distance between two bounded positions.
pub fn distance_fp(p: Position, q: Position) -> (d: u64)
    requires
        p.bounded(),
        q.bounded(),
    ensures
        d == dist_fp(p, q),
{
    let dx: i64 = q.x - p.x;
    let dy: i64 = q.y - p.y;
    proof {
        assert(0 <= dx * dx <= 4_000_000_000_000_000_000 && 0 <= dy * dy
            <= 4_000_000_000_000_000_000) by (nonlinear_arith)
            requires
                -2_000_000_000 <= dx <= 2_000_000_000 && -2_000_000_000 <= dy <= 2_000_000_000,
        ;
    }
    let d2: i64 = dx * dx + dy * dy;
    isqrt(d2 as u64)
}

/// The rectangle that confines the particles. `top < bottom`: the vertical
/// axis grows downward, as on a window surface.
#[derive(Clone, Copy, PartialEq, Eq, Structural, Debug)]
pub struct Boundary {
    pub left: i64,
    pub top: i64,
    pub right: i64,
    pub bottom: i64,
}

impl Boundary {
    /// The rectangle sits within [`COORD_LIMIT`] and is at least one length
    /// unit wide and tall, so the one-unit wrap and bounce offsets land inside.
    pub open spec fn wf(self) -> bool {
        &&& -COORD_LIMIT <= self.left
        &&& self.right <= COORD_LIMIT
        &&& -COORD_LIMIT <= self.top
        &&& self.bottom <= COORD_LIMIT
        &&& self.left + SCALE <= self.right
        &&& self.top + SCALE <= self.bottom
    }

    /// The position lies inside or on the rectangle.
    pub open spec fn contains(self, p: Position) -> bool {
        &&& self.left <= p.x <= self.right
        &&& self.top <= p.y <= self.bottom
    }

    pub fn new(left: i64, top: i64, right: i64, bottom: i64) -> (b: Boundary)
        ensures
            b == (Boundary { left, top, right, bottom }),
    {
        Boundary { left, top, right, bottom }
    }
}

} // verus!
