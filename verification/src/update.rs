//! The per-tick update pipeline: move every particle with the boundary policy
//! applied, then rebuild the mesh of lines from the new positions.

use crate::geometry::{Boundary, Position, SCALE};
use crate::line::{line_between, Line};
use crate::model::Model;
use crate::particle::{Particle, SPEED_LIMIT};
use vstd::arithmetic::div_mod::{lemma_div_is_ordered, lemma_div_multiples_vanish};
use vstd::prelude::*;

verus! {

/// The signed displacement along one axis for one tick: the direction
/// component times the speed, scaled back to sub-units, rounded toward zero.
pub open spec fn velocity_component(dir: int, speed: int) -> int {
    if dir >= 0 {
        dir * speed / (SCALE as int)
    } else {
        -((-dir) * speed / (SCALE as int))
    }
}

/// Computes [`velocity_component`]. The result never exceeds the speed in
/// magnitude, since a direction component never exceeds one unit.
fn velocity(dir: i64, speed: i64) -> (v: i64)
    requires
        -SCALE <= dir <= SCALE,
        0 <= speed <= SPEED_LIMIT,
    ensures
        v == velocity_component(dir as int, speed as int),
        -speed <= v <= speed,
{
    proof {
        let d: int = if dir >= 0 {
            dir as int
        } else {
            -dir as int
        };
        assert(0 <= d * speed <= SCALE * speed) by (nonlinear_arith)
            requires
                0 <= d <= SCALE && 0 <= speed,
        ;
        lemma_div_is_ordered(d * speed, SCALE * speed, SCALE as int);
        lemma_div_multiples_vanish(speed as int, SCALE as int);
    }
    if dir >= 0 {
        (((dir as u64) * (speed as u64)) / (SCALE as u64)) as i64
    } else {
        -(((((-dir) as u64) * (speed as u64)) / (SCALE as u64)) as i64)
    }
}

/// Where a tentative coordinate `t` lands under the wrap policy: past either
/// edge of `[lo, hi]` it reappears one unit inside the opposite edge.
pub open spec fn wrap_coord(t: int, lo: int, hi: int) -> int {
    if t < lo {
        hi - SCALE
    } else if t > hi {
        lo + SCALE
    } else {
        t
    }
}

/// Where a tentative coordinate `t` lands under the bounce policy: past
/// either edge of `[lo, hi]` it is set one unit inside that same edge.
pub open spec fn bounce_coord(t: int, lo: int, hi: int) -> int {
    if t < lo {
        lo + SCALE
    } else if t > hi {
        hi - SCALE
    } else {
        t
    }
}

/// Whether a tentative coordinate is past either edge of `[lo, hi]`, so that
/// the bounce policy reflects the direction component of that axis.
pub open spec fn reflects(t: int, lo: int, hi: int) -> bool {
    t < lo || t > hi
}

/// The particle after one tick: the tentative position is the center moved by
/// the velocity, and the boundary policy corrects each axis independently.
/// Under wrap the direction is unchanged; under bounce each violated axis has
/// its direction component negated.
pub open spec fn stepped_particle(p: Particle, b: Boundary, wrap_around: bool) -> Particle {
    let tx = p.center.x + velocity_component(p.direction.x as int, p.speed as int);
    let ty = p.center.y + velocity_component(p.direction.y as int, p.speed as int);
    if wrap_around {
        Particle {
            center: Position {
                x: wrap_coord(tx, b.left as int, b.right as int) as i64,
                y: wrap_coord(ty, b.top as int, b.bottom as int) as i64,
            },
            ..p
        }
    } else {
        Particle {
            center: Position {
                x: bounce_coord(tx, b.left as int, b.right as int) as i64,
                y: bounce_coord(ty, b.top as int, b.bottom as int) as i64,
            },
            direction: crate::particle::Direction {
                x: if reflects(tx, b.left as int, b.right as int) {
                    (-p.direction.x) as i64
                } else {
                    p.direction.x
                },
                y: if reflects(ty, b.top as int, b.bottom as int) {
                    (-p.direction.y) as i64
                } else {
                    p.direction.y
                },
            },
            ..p
        }
    }
}

/// Moves one particle one tick, exactly as [`stepped_particle`] says. The
/// particle ends inside the boundary whatever tentative position the motion
/// reached.
pub fn step_particle(p: &mut Particle, b: &Boundary, wrap_around: bool)
    requires
        b.wf(),
        old(p).wf(*b),
    ensures
        *final(p) == stepped_particle(*old(p), *b, wrap_around),
        final(p).wf(*b),
{
    let vx = velocity(p.direction.x, p.speed);
    let vy = velocity(p.direction.y, p.speed);
    let mut x = p.center.x + vx;
    let mut y = p.center.y + vy;
    if wrap_around {
        // to get the "screen wrap" effect, the particle reappears at the
        // other side of the boundary
        if x < b.left {
            x = b.right - SCALE;
        } else if x > b.right {
            x = b.left + SCALE;
        }
        if y < b.top {
            y = b.bottom - SCALE;
        } else if y > b.bottom {
            y = b.top + SCALE;
        }
    } else {
        // to get the "bouncing" effect, the violated axis of the direction
        // is reflected without messing up the angle
        if x < b.left {
            x = b.left + SCALE;
            p.direction.x = -p.direction.x;
        } else if x > b.right {
            x = b.right - SCALE;
            p.direction.x = -p.direction.x;
        }
        if y < b.top {
            y = b.top + SCALE;
            p.direction.y = -p.direction.y;
        } else if y > b.bottom {
            y = b.bottom - SCALE;
            p.direction.y = -p.direction.y;
        }
    }
    p.set_center(x, y);
}

/// The centers of a particle sequence, in order.
pub open spec fn positions_of(ps: Seq<Particle>) -> Seq<Position> {
    ps.map_values(|p: Particle| p.center)
}

/// A derived line as a sequence: empty where no line was derived.
pub open spec fn link_seq(o: Option<Line>) -> Seq<Line> {
    match o {
        Some(l) => seq![l],
        None => Seq::empty(),
    }
}

/// The lines of one row of the pairwise scan: first index `i`, second index
/// running over `i + 1, ..., j - 1` in ascending order.
pub open spec fn row_upto(ps: Seq<Position>, i: nat, j: nat) -> Seq<Line>
    decreases j,
{
    if j <= i + 1 {
        Seq::empty()
    } else {
        row_upto(ps, i, (j - 1) as nat) + link_seq(line_between(ps[i as int], ps[j - 1]))
    }
}

/// The rows of the pairwise scan for first indices `0, ..., i - 1`,
/// concatenated in order.
pub open spec fn mesh_upto(ps: Seq<Position>, i: nat) -> Seq<Line>
    decreases i,
{
    if i == 0 {
        Seq::empty()
    } else {
        mesh_upto(ps, (i - 1) as nat) + row_upto(ps, (i - 1) as nat, ps.len())
    }
}

/// The full mesh over a sequence of positions: every unordered pair of
/// distinct indices `(i, j)` with `i < j` visited exactly once, `i` ascending
/// and then `j` ascending, each contributing its derived line if any.
pub open spec fn mesh(ps: Seq<Position>) -> Seq<Line> {
    mesh_upto(ps, ps.len())
}

/// Discards the model's lines and rebuilds them from the current particle
/// positions, exactly as [`mesh`] says. Everything else is left unchanged.
pub fn rebuild_links(m: &mut Model)
    requires
        old(m).wf(),
    ensures
        final(m).particles == old(m).particles,
        final(m).wrap_around == old(m).wrap_around,
        final(m).boundary == old(m).boundary,
        final(m).color_bg == old(m).color_bg,
        final(m).color_fg == old(m).color_fg,
        final(m).lines@ == mesh(positions_of(old(m).particles@)),
{
    let ghost ps = positions_of(old(m).particles@);
    m.lines.clear();
    let n = m.particles.len();
    let mut i: usize = 0;
    while i < n
        invariant
            i <= n,
            n == m.particles@.len(),
            m.particles == old(m).particles,
            m.wrap_around == old(m).wrap_around,
            m.boundary == old(m).boundary,
            m.color_bg == old(m).color_bg,
            m.color_fg == old(m).color_fg,
            old(m).wf(),
            ps == positions_of(old(m).particles@),
            m.lines@ == mesh_upto(ps, i as nat),
        decreases n - i,
    {
        let mut j: usize = i + 1;
        while j < n
            invariant
                i < j <= n,
                i < n,
                n == m.particles@.len(),
                m.particles == old(m).particles,
                m.wrap_around == old(m).wrap_around,
                m.boundary == old(m).boundary,
                m.color_bg == old(m).color_bg,
                m.color_fg == old(m).color_fg,
                old(m).wf(),
                ps == positions_of(old(m).particles@),
                m.lines@ == mesh_upto(ps, i as nat) + row_upto(ps, i as nat, j as nat),
            decreases n - j,
        {
            proof {
                assert(old(m).particles@[i as int].wf(old(m).boundary));
                assert(old(m).particles@[j as int].wf(old(m).boundary));
            }
            let p1 = m.particles[i];
            let p2 = m.particles[j];
            match Line::from_positions(p1.center, p2.center) {
                Some(line) => m.lines.push(line),
                None => {},
            }
            proof {
                assert(row_upto(ps, i as nat, (j + 1) as nat) == row_upto(ps, i as nat, j as nat)
                    + link_seq(line_between(ps[i as int], ps[j as int])));
                assert(m.lines@ =~= mesh_upto(ps, i as nat) + row_upto(ps, i as nat, (j + 1) as nat));
            }
            j += 1;
        }
        proof {
            assert(mesh_upto(ps, (i + 1) as nat) == mesh_upto(ps, i as nat) + row_upto(
                ps,
                i as nat,
                ps.len(),
            ));
        }
        i += 1;
    }
}

/// Advances the simulation one tick: every particle moves with the boundary
/// policy applied, then the mesh is rebuilt from the new positions. The
/// population, the boundary, the policy and the colors never change.
pub fn advance(m: &mut Model)
    requires
        old(m).wf(),
    ensures
        final(m).wf(),
        final(m).particles@.len() == old(m).particles@.len(),
        final(m).particles@ == old(m).particles@.map_values(
            |p: Particle| stepped_particle(p, old(m).boundary, old(m).wrap_around),
        ),
        final(m).lines@ == mesh(positions_of(final(m).particles@)),
        final(m).wrap_around == old(m).wrap_around,
        final(m).boundary == old(m).boundary,
        final(m).color_bg == old(m).color_bg,
        final(m).color_fg == old(m).color_fg,
{
    let wrap_around = m.wrap_around;
    let boundary = m.boundary;
    let n = m.particles.len();
    let mut i: usize = 0;
    while i < n
        invariant
            i <= n,
            n == m.particles@.len(),
            m.particles@.len() == old(m).particles@.len(),
            boundary == old(m).boundary,
            wrap_around == old(m).wrap_around,
            m.boundary == old(m).boundary,
            m.wrap_around == old(m).wrap_around,
            m.lines == old(m).lines,
            m.color_bg == old(m).color_bg,
            m.color_fg == old(m).color_fg,
            old(m).wf(),
            forall|k: int|
                0 <= k < i ==> #[trigger] m.particles@[k] == stepped_particle(
                    old(m).particles@[k],
                    old(m).boundary,
                    old(m).wrap_around,
                ),
            forall|k: int| 0 <= k < i ==> (#[trigger] m.particles@[k]).wf(old(m).boundary),
            forall|k: int| i <= k < n ==> #[trigger] m.particles@[k] == old(m).particles@[k],
        decreases n - i,
    {
        proof {
            assert(old(m).particles@[i as int].wf(old(m).boundary));
        }
        let mut p = m.particles[i];
        step_particle(&mut p, &boundary, wrap_around);
        m.particles[i] = p;
        i += 1;
    }
    proof {
        assert(m.particles@ =~= old(m).particles@.map_values(
            |p: Particle| stepped_particle(p, old(m).boundary, old(m).wrap_around),
        ));
        assert(m.wf());
    }
    rebuild_links(m);
}

/// Pair enumeration: one row of the scan yields at most one line per partner
/// index.
proof fn lemma_row_upto_len(ps: Seq<Position>, i: nat, j: nat)
    requires
        i < j,
    ensures
        row_upto(ps, i, j).len() <= j - i - 1,
    decreases j,
{
    if j <= i + 1 {
    } else {
        lemma_row_upto_len(ps, i, (j - 1) as nat);
    }
}

/// Pair enumeration: the rows for first indices below `i` yield at most one
/// line per pair, `i * (2 * n - i - 1) / 2` pairs in all.
proof fn lemma_mesh_upto_len(ps: Seq<Position>, i: nat)
    requires
        i <= ps.len(),
    ensures
        2 * mesh_upto(ps, i).len() <= i * (2 * ps.len() - i - 1),
    decreases i,
{
    let n = ps.len() as int;
    if i == 0 {
    } else {
        lemma_mesh_upto_len(ps, (i - 1) as nat);
        lemma_row_upto_len(ps, (i - 1) as nat, ps.len());
        let ii = i as int;
        assert((ii - 1) * (2 * n - (ii - 1) - 1) + 2 * (n - ii) == ii * (2 * n - ii - 1))
            by (nonlinear_arith);
    }
}

/// Pair enumeration: a full rebuild produces at most `n * (n - 1) / 2` lines
/// for `n` particles, one for each unordered pair of distinct indices at most.
pub proof fn lemma_mesh_pair_bound(ps: Seq<Position>)
    ensures
        2 * mesh(ps).len() <= ps.len() * (ps.len() - 1),
{
    lemma_mesh_upto_len(ps, ps.len());
}

proof fn lemma_row_upto_member(ps: Seq<Position>, i: nat, j: nat, k: int)
    requires
        i < j <= ps.len(),
        0 <= k < row_upto(ps, i, j).len(),
    ensures
        exists|jj: int|
            i < jj < j && line_between(ps[i as int], ps[jj]) == Some(row_upto(ps, i, j)[k]),
    decreases j,
{
    if j <= i + 1 {
    } else {
        let prefix = row_upto(ps, i, (j - 1) as nat);
        if k < prefix.len() {
            lemma_row_upto_member(ps, i, (j - 1) as nat, k);
            let jj = choose|jj: int|
                i < jj < j - 1 && line_between(ps[i as int], ps[jj]) == Some(prefix[k]);
            assert(i < jj < j && line_between(ps[i as int], ps[jj]) == Some(
                row_upto(ps, i, j)[k],
            ));
        } else {
            let jj = j - 1;
            assert(line_between(ps[i as int], ps[jj]) == Some(row_upto(ps, i, j)[k]));
        }
    }
}

proof fn lemma_mesh_upto_member(ps: Seq<Position>, i: nat, k: int)
    requires
        i <= ps.len(),
        0 <= k < mesh_upto(ps, i).len(),
    ensures
        exists|a: int, b: int|
            0 <= a < b < ps.len() && line_between(ps[a], ps[b]) == Some(mesh_upto(ps, i)[k]),
    decreases i,
{
    if i == 0 {
    } else {
        let prefix = mesh_upto(ps, (i - 1) as nat);
        if k < prefix.len() {
            lemma_mesh_upto_member(ps, (i - 1) as nat, k);
            let (a, b) = choose|a: int, b: int|
                0 <= a < b < ps.len() && line_between(ps[a], ps[b]) == Some(prefix[k]);
            assert(0 <= a < b < ps.len() && line_between(ps[a], ps[b]) == Some(
                mesh_upto(ps, i)[k],
            ));
        } else {
            let row = row_upto(ps, (i - 1) as nat, ps.len());
            lemma_row_upto_member(ps, (i - 1) as nat, ps.len(), k - prefix.len());
            let jj = choose|jj: int|
                i - 1 < jj < ps.len() && #[trigger] line_between(ps[i - 1], ps[jj]) == Some(
                    row[k - prefix.len()],
                );
            assert(0 <= i - 1 < jj < ps.len() && line_between(ps[i - 1], ps[jj]) == Some(
                mesh_upto(ps, i)[k],
            ));
        }
    }
}

/// Pair enumeration: every line of the mesh is the one derived from some pair
/// of distinct particle indices `a < b`.
pub proof fn lemma_mesh_links_from_pairs(ps: Seq<Position>, k: int)
    requires
        0 <= k < mesh(ps).len(),
    ensures
        exists|a: int, b: int|
            0 <= a < b < ps.len() && line_between(ps[a], ps[b]) == Some(mesh(ps)[k]),
{
    lemma_mesh_upto_member(ps, ps.len(), k);
}

} // verus!
