//! End-to-end simulation behaviour: the tick pipeline, the locked
//! invariant, boundary reflection, settling, and the overflow sweep.

use verlet_sim::modify::ModificationTarget;
use verlet_sim::params::SimulationPlayStateRequest;
use verlet_sim::particle::Point;
use verlet_sim::solver::clamp_point;
use verlet_sim::solver::relax_pair_exec;
use verlet_sim::spawn::SpawnRequest;
use verlet_sim::vec3::Vec3;
use verlet_sim::world::World;

const DT: i64 = 16_667;

fn free_point(x: i64, y: i64, z: i64) -> Point {
    Point::new(Vec3::new(x, y, z), Vec3::new(x, y, z), false)
}

#[test]
fn locked_particle_never_moves() {
    let mut w = World::new();
    w.points.push(Point::new(
        Vec3::new(100_000, 500_000, 0),
        Vec3::new(100_000, 500_000, 0),
        true,
    ));
    w.ids.push(w.next_id);
    w.next_id += 1;
    w.points.push(free_point(100_000, 400_000, 0));
    w.ids.push(w.next_id);
    w.next_id += 1;
    w.sticks.push(verlet_sim::particle::Stick::new(0, 1, 50_000));
    for _ in 0..50 {
        w.tick(DT);
        let _ = w.render_view();
    }
    assert_eq!(w.points[0].position, Vec3::new(100_000, 500_000, 0));
    assert!(w.points[0].locked);
    // the free partner did move under gravity and the stick
    assert_ne!(w.points[1].position, Vec3::new(100_000, 400_000, 0));
}

#[test]
fn stick_relaxation_restores_rest_length_exactly() {
    // Axis-aligned, both free, even gap: one pass lands exactly on the
    // rest length.
    let p1 = free_point(0, 0, 0);
    let p2 = free_point(1_000_000, 0, 0);
    let (q1, q2) = relax_pair_exec(p1, p2, 500_000);
    assert_eq!(q2.position.x - q1.position.x, 500_000);
    assert_eq!(q1.position.x, 250_000);
    assert_eq!(q2.position.x, 750_000);
}

#[test]
fn stick_relaxation_converges_generally() {
    // A diagonal stick: fifteen substeps bring the distance within a few
    // micro-units of the rest length.
    let mut w = World::new();
    w.settings.gravity = 0;
    w.settings.jerk_damping = 0;
    w.settings.converge_iterations = 15;
    w.points.push(free_point(0, 700_000, 0));
    w.ids.push(0);
    w.points.push(free_point(300_000, 1_100_000, 0));
    w.ids.push(1);
    w.next_id = 2;
    w.sticks.push(verlet_sim::particle::Stick::new(0, 1, 250_000));
    w.tick(DT);
    let a = w.points[0].position;
    let b = w.points[1].position;
    let dx = (b.x - a.x) as i128;
    let dy = (b.y - a.y) as i128;
    let d2 = dx * dx + dy * dy;
    let target = 250_000i128 * 250_000;
    let tol = 5_000i128 * 5_000 + 2 * 250_000 * 5_000;
    assert!((d2 - target).abs() <= tol, "distance^2 {} vs {}", d2, target);
}

#[test]
fn floor_bounce_keeps_restitution_fraction() {
    let w = World::new();
    // falling: previous position above, current below the floor
    let p = Point::new(Vec3::new(0, -10_000, 0), Vec3::new(0, 10_000, 0), false);
    let r = clamp_point(p, &w.settings);
    assert_eq!(r.position.y, 0);
    // incoming downward speed 20_000; restitution 950/1000
    let upward = r.position.y - r.prev_position.y;
    assert_eq!(upward, 19_000);
    assert!(upward < 20_000);
}

#[test]
fn resting_world_goes_quiet_and_stays_quiet() {
    let mut w = World::new();
    w.settings.gravity = 0;
    w.points.push(free_point(0, 0, 0));
    w.ids.push(0);
    w.next_id = 1;
    w.tick(DT);
    assert!(!w.frame.changed);
    for _ in 0..50 {
        w.tick(DT);
        assert!(!w.frame.changed);
        assert_eq!(w.points[0].position, Vec3::new(0, 0, 0));
    }
}

#[test]
fn unchanged_frames_force_a_refresh() {
    let mut w = World::new();
    w.settings.gravity = 0;
    w.settings.max_unchanged_frames = 5;
    w.points.push(free_point(0, 0, 0));
    w.ids.push(0);
    w.next_id = 1;
    let mut refreshes = 0;
    for _ in 0..14 {
        w.tick(DT);
        if w.frame.changed {
            refreshes += 1;
        }
    }
    // after 6 quiet frames the counter passes 5 and one refresh fires
    assert!(refreshes >= 1);
}

#[test]
fn rope_hangs_inside_the_walls_with_anchor_fixed() {
    let mut w = World::new();
    let half_w = w.settings.simulation_bounds.x.1 / 2;
    let anchor = Vec3::new(0, 500_000, 0);
    let network = verlet_sim::shapes::spawn_rope(
        verlet_sim::spawn::MaterialType::Color(1_000_000, 1_000_000, 1_000_000, 1_000_000),
        verlet_sim::spawn::MaterialType::Color(1_000_000, 0, 0, 1_000_000),
        verlet_sim::spawn::MaterialType::Color(1_000_000, 1_000_000, 1_000_000, 500_000),
        half_w,
        anchor,
        w.settings.default_geometry_point_size,
        w.settings.default_geometry_stick_size,
    );
    assert_eq!(network.len(), 61);
    w.buffer_spawn(SpawnRequest::new(network));
    let results = w.tick(DT);
    assert_eq!(results.len(), 1);
    assert!(results[0].is_ok());
    assert_eq!(w.points.len(), 61);
    assert_eq!(w.sticks.len(), 60);
    for _ in 0..2500 {
        w.tick(DT);
        let _ = w.render_view();
    }
    // the anchor has not moved
    assert_eq!(w.points[0].position, anchor);
    assert!(w.points[0].locked);
    // the chain hangs without touching the x walls
    for p in w.points.iter() {
        assert!(p.position.x.abs() < half_w, "x = {}", p.position.x);
    }
}

#[test]
fn overflow_sweep_removes_far_particles_and_their_partners() {
    let mut w = World::new();
    w.points.push(free_point(6_000_000_000, 0, 0)); // 6000 units out
    w.ids.push(0);
    w.points.push(free_point(0, 100_000, 0)); // partner in bounds
    w.ids.push(1);
    w.points.push(free_point(0, 200_000, 0)); // unrelated survivor
    w.ids.push(2);
    w.next_id = 3;
    w.sticks.push(verlet_sim::particle::Stick::new(0, 1, 100_000));
    w.despawn_overflows();
    assert_eq!(w.points.len(), 1);
    assert_eq!(w.ids[0], 2);
}

#[test]
fn pause_gates_simulation_and_reset_clears_it() {
    let mut w = World::new();
    w.points.push(free_point(0, 500_000, 0));
    w.ids.push(0);
    w.next_id = 1;
    w.handle_play_state_request(SimulationPlayStateRequest::Pause);
    w.tick(DT);
    assert_eq!(w.points[0].position, Vec3::new(0, 500_000, 0));
    w.handle_play_state_request(SimulationPlayStateRequest::Play);
    w.tick(DT);
    assert_ne!(w.points[0].position, Vec3::new(0, 500_000, 0));
    w.handle_play_state_request(SimulationPlayStateRequest::Reset);
    assert_eq!(w.points.len(), 0);
    assert_eq!(w.sticks.len(), 0);
}

#[test]
fn telemetry_roundtrip_reports_and_overrides() {
    let mut w = World::new();
    w.points.push(Point::new(
        Vec3::new(10_000, 20_000, 0),
        Vec3::new(9_000, 20_000, 0),
        false,
    ));
    w.ids.push(7);
    w.next_id = 8;
    let info = w.point_info(7).unwrap();
    assert_eq!(info.position, Vec3::new(10_000, 20_000, 0));
    assert_eq!(info.velocity, Vec3::new(1_000, 0, 0));
    assert!(w.point_info(99).is_none());
    w.set_point_info(
        7,
        verlet_sim::world::SetPointInfo {
            position: Vec3::new(0, 50_000, 0),
            velocity: Vec3::new(0, -2_000, 0),
        },
    );
    assert_eq!(w.points[0].position, Vec3::new(0, 50_000, 0));
    assert_eq!(w.points[0].prev_position, Vec3::new(0, 52_000, 0));
}

#[test]
fn resize_rescales_the_x_extent() {
    let mut w = World::new();
    let y_extent = w.settings.simulation_bounds.y.1;
    w.settings.apply_resize(800, 400);
    assert_eq!(w.settings.simulation_bounds.x.1, y_extent * 2);
    assert_eq!(w.settings.simulation_bounds.y.1, y_extent);
}

#[test]
fn free_point_drops_under_gravity_only() {
    let mut w = World::new();
    let _ = w.handle_modification_event(
        ModificationTarget::Point,
        verlet_sim::modify::ModifyEventType::Left(Vec3::new(0, 1_000_000, 0)),
        &mut verlet_sim::modify::LineConnections { p0: None, p1: None },
    );
    assert_eq!(w.points.len(), 1);
    let y0 = w.points[0].position.y;
    w.tick(DT);
    assert!(w.points[0].position.y < y0);
    assert_eq!(w.points[0].position.x, 0);
}
