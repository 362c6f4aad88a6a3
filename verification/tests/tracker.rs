//! The attachment bookkeeping and the interaction flows added around the
//! core: anchor gathering by tag, pruning, target changes, nearest-point
//! selection, and the shape topologies as they reach the simulation.

use verlet_sim::attach::{
    gather_anchors, prune_stale_attachments, reposition_models, AttachedAsset, MeshOffset,
};
use verlet_sim::modify::{LineConnections, ModificationTarget, ModifyEventType};
use verlet_sim::params::SimulationPlayState;
use verlet_sim::particle::Point;
use verlet_sim::quat::Quat;
use verlet_sim::spawn::MaterialType;
use verlet_sim::vec3::Vec3;
use verlet_sim::world::World;

fn asset_with(id: u64) -> AttachedAsset {
    AttachedAsset {
        id,
        offset: MeshOffset {
            translation: Vec3::new(0, 0, 0),
            rotation: Quat::identity(),
            anchor0: Vec3::new(0, 0, 0),
            anchor1: Vec3::new(0, 0, 0),
            anchor2: Vec3::new(0, 0, 0),
        },
        initialized: false,
        translation: Vec3::new(0, 0, 0),
        rotation: Quat::identity(),
    }
}

fn free_point(x: i64, y: i64) -> Point {
    Point::new(Vec3::new(x, y, 0), Vec3::new(x, y, 0), false)
}

#[test]
fn anchors_gather_by_tag_in_identity_order() {
    let points = vec![free_point(1, 0), free_point(2, 0), free_point(3, 0)];
    let ids = vec![10u64, 11, 12];
    let tags = vec![(10u64, 7u64), (12u64, 7u64), (11u64, 8u64)];
    let anchors = gather_anchors(&points, &ids, &tags, 7);
    assert_eq!(anchors.len(), 2);
    assert_eq!(anchors[0], Vec3::new(1, 0, 0));
    assert_eq!(anchors[1], Vec3::new(3, 0, 0));
    assert_eq!(gather_anchors(&points, &ids, &tags, 9).len(), 0);
}

#[test]
fn reposition_pass_drives_each_asset_and_prunes_stale_ones() {
    let points = vec![free_point(100_000, 0)];
    let ids = vec![5u64];
    let tags = vec![(5u64, 1u64)];
    let mut assets = vec![asset_with(1), asset_with(2)];
    // first pass initializes the single-anchor asset; the tagless one waits
    reposition_models(&mut assets, &points, &ids, &tags, true);
    assert!(assets[0].initialized);
    assert!(!assets[1].initialized);
    // second pass tracks: asset follows its anchor
    reposition_models(&mut assets, &points, &ids, &tags, true);
    assert_eq!(assets[0].translation, Vec3::new(100_000, 0, 0));
    // pruning drops the asset with no live particle
    prune_stale_attachments(&mut assets, &points, &ids, &tags);
    assert_eq!(assets.len(), 1);
    assert_eq!(assets[0].id, 1);
}

#[test]
fn two_anchor_sighting_does_not_capture_a_reference() {
    let mut a = asset_with(1);
    let live = vec![Vec3::new(5, 5, 5), Vec3::new(6, 6, 6)];
    verlet_sim::attach::update_attachment(&mut a, &live, true);
    assert!(!a.initialized);
    // the expected count arriving later still captures cleanly
    let three = vec![
        Vec3::new(0, 0, 0),
        Vec3::new(1_000_000, 0, 0),
        Vec3::new(0, 1_000_000, 0),
    ];
    verlet_sim::attach::update_attachment(&mut a, &three, true);
    assert!(a.initialized);
    assert_eq!(a.offset.anchor1, Vec3::new(1_000_000, 0, 0));
}

#[test]
fn target_change_pauses_and_purges_the_line() {
    let mut w = World::new();
    let mut line = LineConnections { p0: Some(3), p1: None };
    let t = w.handle_target_change(&mut line, ModificationTarget::Line);
    assert_eq!(t, ModificationTarget::Line);
    assert_eq!(w.play_state, SimulationPlayState::Paused);
    assert!(line.p0.is_none() && line.p1.is_none());
    let mut w2 = World::new();
    let t2 = w2.handle_target_change(&mut line, ModificationTarget::Inactive);
    assert_eq!(t2, ModificationTarget::Inactive);
    assert_eq!(w2.play_state, SimulationPlayState::Running);
}

#[test]
fn selection_picks_the_nearest_particle() {
    let mut w = World::new();
    w.settings.interaction_radius = 100_000;
    w.points.push(free_point(60_000, 0));
    w.ids.push(0);
    w.points.push(free_point(20_000, 0));
    w.ids.push(1);
    w.next_id = 2;
    assert_eq!(w.select_point(Vec3::new(0, 0, 0)), Some(1));
    assert_eq!(w.select_point(Vec3::new(900_000, 0, 0)), None);
}

#[test]
fn corrupted_line_click_is_the_only_dispatcher_error() {
    let mut w = World::new();
    w.points.push(free_point(0, 0));
    w.ids.push(0);
    w.next_id = 1;
    let mut full = LineConnections { p0: Some(0), p1: Some(0) };
    let r = w.handle_modification_event(
        ModificationTarget::Line,
        ModifyEventType::Left(Vec3::new(0, 0, 0)),
        &mut full,
    );
    assert!(r.is_err());
    assert_eq!(w.points.len(), 1);
    assert_eq!(w.sticks.len(), 0);
    // the same click far from any particle is no error
    let r2 = w.handle_modification_event(
        ModificationTarget::Line,
        ModifyEventType::Left(Vec3::new(5_000_000, 0, 0)),
        &mut full,
    );
    assert!(r2.is_ok());
}

#[test]
fn rope_click_outside_the_walls_still_spawns_a_clamped_chain() {
    let mut w = World::new();
    let half_w = w.settings.simulation_bounds.x.1 / 2;
    let mut line = LineConnections { p0: None, p1: None };
    let r = w.handle_modification_event(
        ModificationTarget::SpawnRope,
        ModifyEventType::Left(Vec3::new(-half_w - 500_000, 800_000, 0)),
        &mut line,
    );
    assert!(r.is_ok());
    assert_eq!(w.spawn_buffer.len(), 1);
    let network = &w.spawn_buffer[0].mesh_network;
    assert_eq!(network.len(), 61);
    // every chained point was clamped just inside the left wall
    for node in network.iter().skip(1) {
        assert!(node.point.position.x > -half_w);
        assert!(node.point.position.x < half_w);
    }
}

#[test]
fn shape_clicks_buffer_their_full_topology() {
    let mut w = World::new();
    let mut line = LineConnections { p0: None, p1: None };
    let _ = w.handle_modification_event(
        ModificationTarget::SpawnCube,
        ModifyEventType::Left(Vec3::new(0, 1_000_000, 0)),
        &mut line,
    );
    let results = w.tick(16_667);
    assert!(results[0].is_ok());
    assert_eq!(w.points.len(), 8);
    assert_eq!(w.sticks.len(), 18);
}

#[test]
fn square_network_carries_five_edges() {
    let mut w = World::new();
    let network = verlet_sim::shapes::spawn_square(
        MaterialType::Color(1_000_000, 1_000_000, 1_000_000, 1_000_000),
        MaterialType::Color(1_000_000, 0, 0, 1_000_000),
        MaterialType::Color(1_000_000, 1_000_000, 1_000_000, 500_000),
        Vec3::new(0, 1_000_000, 0),
        25_000,
        10_000,
    );
    let plan = w.apply_spawn(&network).unwrap();
    assert_eq!(plan.points.len(), 4);
    assert_eq!(plan.sticks.len(), 5);
}

#[test]
fn cloth_network_ties_the_grid_rightward_and_downward() {
    let mut w = World::new();
    let network = verlet_sim::shapes::spawn_cloth(
        MaterialType::Color(1_000_000, 1_000_000, 1_000_000, 1_000_000),
        MaterialType::Color(1_000_000, 0, 0, 1_000_000),
        MaterialType::Color(1_000_000, 1_000_000, 1_000_000, 500_000),
        300_000,
        625_000,
        25_000,
        10_000,
    );
    // 3 columns, 3 rows
    assert_eq!(network.len(), 9);
    let plan = w.apply_spawn(&network).unwrap();
    // 3*2 horizontal + 2*3 vertical sticks
    assert_eq!(plan.sticks.len(), 12);
}

#[test]
fn rope_anchor_is_drawn_with_the_locked_material() {
    let red = MaterialType::Color(1_000_000, 0, 0, 1_000_000);
    let white = MaterialType::Color(1_000_000, 1_000_000, 1_000_000, 1_000_000);
    let network = verlet_sim::shapes::spawn_rope(
        white,
        red,
        MaterialType::Color(1_000_000, 1_000_000, 1_000_000, 500_000),
        1_656_854,
        Vec3::new(0, 500_000, 0),
        25_000,
        10_000,
    );
    assert_eq!(network[0].point_material, red);
    assert_eq!(network[1].point_material, white);
}

#[test]
fn seeded_shuffle_is_a_reproducible_permutation() {
    let a = verlet_sim::solver::shuffled_indices(20, 42);
    let b = verlet_sim::solver::shuffled_indices(20, 42);
    let c = verlet_sim::solver::shuffled_indices(20, 43);
    assert_eq!(a, b);
    assert_ne!(a, c);
    let mut seen = vec![false; 20];
    for &v in &a {
        assert!(v < 20);
        assert!(!seen[v]);
        seen[v] = true;
    }
}
