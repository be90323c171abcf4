//! The shared state of the simulation: the particle population, the derived
//! mesh of lines, the boundary rectangle and the boundary policy.

use crate::geometry::Boundary;
use crate::line::Line;
use crate::particle::Particle;
use vstd::prelude::*;

verus! {

/// An RGBA color, opaque to the simulation and handed through to whatever
/// draws the mesh.
#[derive(Clone, Copy, PartialEq, Eq, Structural, Debug)]
pub struct Rgba {
    pub r: u8,
    pub g: u8,
    pub b: u8,
    pub a: u8,
}

/// The data needed to run and draw the particle mesh.
pub struct Model {
    /// All particles. The population is fixed: no tick adds or removes one.
    pub particles: Vec<Particle>,
    /// The lines derived from the current particle positions. Rebuilt from
    /// scratch every tick; no line outlives one frame.
    pub lines: Vec<Line>,
    /// `true`: particles wrap to the opposite edge; `false`: they bounce off.
    /// Fixed for the lifetime of a run.
    pub wrap_around: bool,
    /// The background color used
    pub color_bg: Rgba,
    /// The foreground color used to draw the lines and particles
    pub color_fg: Rgba,
    /// The rectangle the particles are confined to
    pub boundary: Boundary,
}

impl Model {
    /// The boundary is well formed and every particle is well formed within
    /// it.
    pub open spec fn wf(self) -> bool {
        &&& self.boundary.wf()
        &&& forall|i: int|
            0 <= i < self.particles@.len() ==> (#[trigger] self.particles@[i]).wf(self.boundary)
    }

    /// Creates the initial state: the given particles, no lines yet, and the
    /// fixed presentation colors (dark orchid on orchid).
    pub fn new(boundary: Boundary, particles: Vec<Particle>, wrap_around: bool) -> (m: Model)
        ensures
            m.boundary == boundary,
            m.particles == particles,
            m.lines@ == Seq::<Line>::empty(),
            m.wrap_around == wrap_around,
            m.color_bg == (Rgba { r: 153, g: 50, b: 204, a: 255 }),
            m.color_fg == (Rgba { r: 218, g: 112, b: 214, a: 255 }),
    {
        Model {
            boundary,
            particles,
            lines: Vec::new(),
            wrap_around,
            color_bg: Rgba { r: 153, g: 50, b: 204, a: 255 },
            color_fg: Rgba { r: 218, g: 112, b: 214, a: 255 },
        }
    }
}

} // verus!
