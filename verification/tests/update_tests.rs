//! Tests of the per-tick pipeline: boundary policies, population invariance,
//! and the pairwise mesh rebuild.

use particle_mesh::geometry::{Boundary, Position};
use particle_mesh::model::{Model, Rgba};
use particle_mesh::particle::Particle;
use particle_mesh::update::{advance, rebuild_links, step_particle};

fn hundred_unit_box() -> Boundary {
    Boundary::new(0, 0, 100_000, 100_000)
}

#[test]
fn particle_construction_sets_every_field() {
    let p = Particle::new(7, -8, 2_500, 900, -1_000, 350);
    assert_eq!(p.center, Position::new(7, -8));
    assert_eq!(p.radius, 2_500);
    assert_eq!(p.speed, 900);
    assert_eq!(p.direction.x, -1_000);
    assert_eq!(p.direction.y, 350);
}

#[test]
fn set_center_replaces_only_the_center() {
    let mut p = Particle::new(0, 0, 2_500, 900, 10, 20);
    p.set_center(4_000, -4_000);
    assert_eq!(p.center, Position::new(4_000, -4_000));
    assert_eq!(p.radius, 2_500);
    assert_eq!(p.speed, 900);
    assert_eq!(p.direction.x, 10);
}

#[test]
fn wrap_relocates_past_the_right_edge() {
    // tentative x: 99 + 1 * 5 = 104 units, past the right edge at 100
    let mut p = Particle::new(99_000, 50_000, 2_500, 5_000, 1_000, 0);
    step_particle(&mut p, &hundred_unit_box(), true);
    assert_eq!(p.center, Position::new(1_000, 50_000));
    assert_eq!(p.direction.x, 1_000);
}

#[test]
fn wrap_relocates_past_the_left_edge() {
    let mut p = Particle::new(0, 50_000, 2_500, 5_000, -1_000, 0);
    step_particle(&mut p, &hundred_unit_box(), true);
    assert_eq!(p.center, Position::new(99_000, 50_000));
    assert_eq!(p.direction.x, -1_000);
}

#[test]
fn bounce_reflects_off_the_right_edge() {
    let mut p = Particle::new(99_000, 50_000, 2_500, 5_000, 1_000, 0);
    step_particle(&mut p, &hundred_unit_box(), false);
    assert_eq!(p.center, Position::new(99_000, 50_000));
    assert_eq!(p.direction.x, -1_000);
}

#[test]
fn bounce_reflects_off_the_left_edge() {
    let mut p = Particle::new(0, 50_000, 2_500, 5_000, -1_000, 0);
    step_particle(&mut p, &hundred_unit_box(), false);
    assert_eq!(p.center, Position::new(1_000, 50_000));
    assert_eq!(p.direction.x, 1_000);
}

#[test]
fn vertical_edges_use_the_same_policies() {
    let b = hundred_unit_box();
    let mut wrapped = Particle::new(50_000, 99_000, 2_500, 5_000, 0, 1_000);
    step_particle(&mut wrapped, &b, true);
    assert_eq!(wrapped.center, Position::new(50_000, 1_000));
    let mut bounced = Particle::new(50_000, 99_000, 2_500, 5_000, 0, 1_000);
    step_particle(&mut bounced, &b, false);
    assert_eq!(bounced.center, Position::new(50_000, 99_000));
    assert_eq!(bounced.direction.y, -1_000);
}

#[test]
fn corner_bounce_reflects_both_axes() {
    let mut p = Particle::new(99_000, 99_000, 2_500, 5_000, 1_000, 1_000);
    step_particle(&mut p, &hundred_unit_box(), false);
    assert_eq!(p.center, Position::new(99_000, 99_000));
    assert_eq!(p.direction.x, -1_000);
    assert_eq!(p.direction.y, -1_000);
}

#[test]
fn motion_inside_the_boundary_adds_the_scaled_velocity() {
    // 0.35 direction at speed 2.0: 0.7 units per tick
    let mut p = Particle::new(50_000, 50_000, 2_500, 2_000, 350, -350);
    step_particle(&mut p, &hundred_unit_box(), true);
    assert_eq!(p.center, Position::new(50_700, 49_300));
}

#[test]
fn model_construction_sets_the_orchid_colors() {
    let m = Model::new(hundred_unit_box(), Vec::new(), true);
    assert!(m.wrap_around);
    assert_eq!(m.particles.len(), 0);
    assert_eq!(m.lines.len(), 0);
    assert_eq!(m.color_bg, Rgba { r: 153, g: 50, b: 204, a: 255 });
    assert_eq!(m.color_fg, Rgba { r: 218, g: 112, b: 214, a: 255 });
}

fn still_particle(x: i64, y: i64) -> Particle {
    Particle::new(x, y, 2_500, 0, 0, 0)
}

#[test]
fn rebuild_links_visits_each_pair_once() {
    let wide = Boundary::new(0, 0, 1_000_000, 1_000_000);
    // three mutual neighbours and one particle too far from everyone
    let particles = vec![
        still_particle(0, 0),
        still_particle(1_000, 0),
        still_particle(0, 1_000),
        still_particle(900_000, 900_000),
    ];
    let mut m = Model::new(wide, particles, true);
    rebuild_links(&mut m);
    assert_eq!(m.lines.len(), 3);
    // encounter order: (0,1), (0,2), (1,2)
    assert_eq!(m.lines[0].start, Position::new(0, 0));
    assert_eq!(m.lines[0].end, Position::new(1_000, 0));
    assert_eq!(m.lines[1].start, Position::new(0, 0));
    assert_eq!(m.lines[1].end, Position::new(0, 1_000));
    assert_eq!(m.lines[2].start, Position::new(1_000, 0));
    assert_eq!(m.lines[2].end, Position::new(0, 1_000));
    let n = m.particles.len();
    assert!(m.lines.len() <= n * (n - 1) / 2);
}

#[test]
fn rebuild_links_discards_the_previous_mesh() {
    let particles = vec![still_particle(0, 0), still_particle(1_000, 0)];
    let mut m = Model::new(hundred_unit_box(), particles, true);
    rebuild_links(&mut m);
    assert_eq!(m.lines.len(), 1);
    rebuild_links(&mut m);
    rebuild_links(&mut m);
    assert_eq!(m.lines.len(), 1);
}

#[test]
fn empty_population_yields_an_empty_mesh() {
    let mut m = Model::new(hundred_unit_box(), Vec::new(), false);
    advance(&mut m);
    assert_eq!(m.particles.len(), 0);
    assert_eq!(m.lines.len(), 0);
}

#[test]
fn advance_keeps_the_population() {
    let particles = vec![
        Particle::new(10_000, 10_000, 2_500, 1_500, 800, -600),
        Particle::new(20_000, 90_000, 2_500, 300, -1_000, 1_000),
        Particle::new(99_500, 500, 2_500, 2_000, 1_000, -1_000),
    ];
    let mut m = Model::new(hundred_unit_box(), particles, true);
    for _ in 0..25 {
        advance(&mut m);
        assert_eq!(m.particles.len(), 3);
    }
    let mut bouncing = Model::new(hundred_unit_box(), m.particles.clone(), false);
    for _ in 0..25 {
        advance(&mut bouncing);
        assert_eq!(bouncing.particles.len(), 3);
    }
}

#[test]
fn advance_links_the_current_positions() {
    // two particles a unit apart, drifting right in step
    let particles = vec![
        Particle::new(10_000, 50_000, 2_500, 1_000, 1_000, 0),
        Particle::new(11_000, 50_000, 2_500, 1_000, 1_000, 0),
    ];
    let mut m = Model::new(hundred_unit_box(), particles, true);
    advance(&mut m);
    assert_eq!(m.particles[0].center, Position::new(11_000, 50_000));
    assert_eq!(m.particles[1].center, Position::new(12_000, 50_000));
    assert_eq!(m.lines.len(), 1);
    assert_eq!(m.lines[0].start, Position::new(11_000, 50_000));
    assert_eq!(m.lines[0].end, Position::new(12_000, 50_000));
}

#[test]
fn advance_keeps_every_particle_inside_the_boundary() {
    let b = hundred_unit_box();
    let particles = vec![
        Particle::new(500, 500, 2_500, 2_000, -1_000, -1_000),
        Particle::new(99_500, 99_500, 2_500, 2_000, 1_000, 1_000),
    ];
    let mut m = Model::new(b, particles.clone(), true);
    let mut bouncing = Model::new(b, particles, false);
    for _ in 0..200 {
        advance(&mut m);
        advance(&mut bouncing);
        for p in m.particles.iter().chain(bouncing.particles.iter()) {
            assert!(b.left <= p.center.x && p.center.x <= b.right);
            assert!(b.top <= p.center.y && p.center.y <= b.bottom);
        }
    }
}
