//! The spawn graph builder and interactive modification: resource
//! deduplication, duplicate-edge suppression, the cut gesture, the line
//! connection, lock toggling and the tag hash.

use verlet_sim::modify::LineConnections;
use verlet_sim::particle::Point;
use verlet_sim::spawn::{hash_tag, MaterialType, MeshType, SpawnError, SpawnNode};
use verlet_sim::vec3::Vec3;
use verlet_sim::world::World;

fn node_at(x: i64, y: i64, neighbors: Vec<Vec3>) -> SpawnNode {
    let n = neighbors.len();
    SpawnNode {
        point: Point::new(Vec3::new(x, y, 0), Vec3::new(x, y, 0), false),
        connection: Some(neighbors),
        connection_material: Some(vec![MaterialType::Color(1_000_000, 0, 0, 1_000_000); n]),
        connection_mesh: Some(vec![MeshType::Cuboid; n]),
        connection_size: Some(vec![10_000; n]),
        ..Default::default()
    }
}

#[test]
fn identical_descriptors_share_one_resource() {
    let mut w = World::new();
    let nodes = vec![
        node_at(0, 0, vec![]),
        node_at(100_000, 0, vec![]),
        node_at(200_000, 0, vec![]),
    ];
    let plan = w.apply_spawn(&nodes).unwrap();
    // three nodes without connections: one shared sphere mesh and one
    // shared white material, not three of each
    assert_eq!(w.resources.meshes.len(), 1);
    assert_eq!(w.resources.materials.len(), 1);
    assert_eq!(plan.points.len(), 3);
    assert_eq!(plan.points[0].mesh, plan.points[1].mesh);
    assert_eq!(plan.points[0].material, plan.points[2].material);
}

#[test]
fn symmetric_square_yields_four_sticks_not_eight() {
    let mut w = World::new();
    let c = [
        Vec3::new(0, 0, 0),
        Vec3::new(100_000, 0, 0),
        Vec3::new(100_000, 100_000, 0),
        Vec3::new(0, 100_000, 0),
    ];
    let nodes = vec![
        node_at(0, 0, vec![c[1], c[3]]),
        node_at(100_000, 0, vec![c[0], c[2]]),
        node_at(100_000, 100_000, vec![c[1], c[3]]),
        node_at(0, 100_000, vec![c[2], c[0]]),
    ];
    let plan = w.apply_spawn(&nodes).unwrap();
    assert_eq!(plan.sticks.len(), 4);
    assert_eq!(w.sticks.len(), 4);
    assert_eq!(w.points.len(), 4);
}

#[test]
fn mismatched_descriptor_lengths_refuse_the_batch() {
    let mut w = World::new();
    let mut bad = node_at(0, 0, vec![Vec3::new(100_000, 0, 0)]);
    bad.connection_size = Some(vec![10_000, 20_000]);
    let nodes = vec![bad, node_at(100_000, 0, vec![Vec3::new(0, 0, 0)])];
    let r = w.apply_spawn(&nodes);
    assert_eq!(r.unwrap_err(), SpawnError::DescriptorMismatch { node: 0 });
    assert_eq!(w.points.len(), 0);
}

#[test]
fn unknown_neighbor_position_refuses_the_batch() {
    let mut w = World::new();
    let nodes = vec![node_at(0, 0, vec![Vec3::new(777, 777, 777)])];
    let r = w.apply_spawn(&nodes);
    assert_eq!(
        r.unwrap_err(),
        SpawnError::UnknownNeighbor { node: 0, connection: 0 }
    );
}

#[test]
fn exhausted_id_space_is_reported() {
    let mut w = World::new();
    w.next_id = u64::MAX;
    w.buffer_spawn(verlet_sim::spawn::SpawnRequest::new(vec![
        node_at(0, 0, vec![]),
        node_at(100_000, 0, vec![]),
    ]));
    let results = w.flush_spawns();
    assert_eq!(results.len(), 1);
    assert_eq!(results[0].as_ref().unwrap_err(), &SpawnError::IdsExhausted);
}

#[test]
fn attachment_tags_hash_stably() {
    let a = hash_tag(&b"model.glb".to_vec());
    let b = hash_tag(&b"model.glb".to_vec());
    let c = hash_tag(&b"other.glb".to_vec());
    assert_eq!(a, b);
    assert_ne!(a, c);
    // 64-bit FNV-1a of "abc"
    assert_eq!(hash_tag(&b"abc".to_vec()), 0xe71fa2190541574b);
}

#[test]
fn cut_gesture_removes_exactly_the_crossed_stick() {
    let mut w = World::new();
    let a = Vec3::new(0, 500_000, 0);
    let b = Vec3::new(1_000_000, 500_000, 0);
    let c = Vec3::new(0, 900_000, 0);
    let d = Vec3::new(1_000_000, 900_000, 0);
    let nodes = vec![
        node_at(0, 500_000, vec![b]),
        node_at(1_000_000, 500_000, vec![a]),
        node_at(0, 900_000, vec![d]),
        node_at(1_000_000, 900_000, vec![c]),
    ];
    w.apply_spawn(&nodes).unwrap();
    assert_eq!(w.sticks.len(), 2);
    // drag across the lower stick's midpoint, within the radius
    w.cut_sticks(Vec3::new(500_000, 510_000, 0));
    assert_eq!(w.sticks.len(), 1);
    assert_eq!(w.points.len(), 4);
    // both endpoints of the cut stick are intact
    assert_eq!(w.points[0].position, a);
    assert_eq!(w.points[1].position, b);
}

#[test]
fn two_clicks_connect_a_line() {
    let mut w = World::new();
    w.apply_spawn(&vec![node_at(0, 0, vec![]), node_at(400_000, 300_000, vec![])])
        .unwrap();
    let mut line = LineConnections { p0: None, p1: None };
    w.spawn_stick(&mut line, Vec3::new(0, 0, 0)).unwrap();
    assert!(line.p0.is_some() && line.p1.is_none());
    w.spawn_stick(&mut line, Vec3::new(400_000, 300_000, 0)).unwrap();
    assert!(line.p0.is_none() && line.p1.is_none());
    assert_eq!(w.sticks.len(), 1);
    // rest length is the live 3-4-5 distance
    assert_eq!(w.sticks[0].length, 500_000);
}

#[test]
fn corrupted_line_connection_is_reported() {
    let mut w = World::new();
    w.apply_spawn(&vec![node_at(0, 0, vec![])]).unwrap();
    let mut line = LineConnections { p0: Some(0), p1: Some(0) };
    assert!(w.spawn_stick(&mut line, Vec3::new(0, 0, 0)).is_err());
    assert_eq!(w.sticks.len(), 0);
}

#[test]
fn lock_toggles_points_under_the_cursor() {
    let mut w = World::new();
    w.apply_spawn(&vec![node_at(0, 0, vec![]), node_at(500_000, 0, vec![])])
        .unwrap();
    w.lock_affected_points(Vec3::new(10_000, 0, 0));
    assert!(w.points[0].locked);
    assert!(!w.points[1].locked);
    w.lock_affected_points(Vec3::new(10_000, 0, 0));
    assert!(!w.points[0].locked);
}

#[test]
fn samples_run_along_the_line() {
    let samples = verlet_sim::modify::sample_points_along_line(
        Vec3::new(0, 0, 0),
        Vec3::new(100_000, 0, 0),
        30_000,
    );
    assert_eq!(samples.len(), 5);
    assert_eq!(samples[0], Vec3::new(0, 0, 0));
    assert_eq!(samples[1], Vec3::new(30_000, 0, 0));
    assert_eq!(samples[4], Vec3::new(100_000, 0, 0));
    let degenerate = verlet_sim::modify::sample_points_along_line(
        Vec3::new(5, 5, 5),
        Vec3::new(5, 5, 5),
        30_000,
    );
    assert_eq!(degenerate.len(), 1);
}

#[test]
fn render_view_skips_clean_frames() {
    let mut w = World::new();
    w.apply_spawn(&vec![node_at(0, 500_000, vec![])]).unwrap();
    w.frame.changed = false;
    assert!(w.render_view().is_none());
    w.frame.changed = true;
    let (points, sticks) = w.render_view().unwrap();
    assert_eq!(points.len(), 1);
    assert_eq!(sticks.len(), 0);
    assert_eq!(w.points[0].rendered_position, w.points[0].position);
}
