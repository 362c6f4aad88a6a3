//! The rigid-attachment tracker: anchor capture, single-anchor
//! translation, and rigid reproduction of a transform by three anchors.

use verlet_sim::attach::{
    compute_rigid_transform, update_attachment, AttachedAsset, MeshOffset,
};
use verlet_sim::quat::{quat_rotate, Quat};
use verlet_sim::vec3::Vec3;

fn fresh_asset() -> AttachedAsset {
    AttachedAsset {
        id: 1,
        offset: MeshOffset {
            translation: Vec3::new(0, 0, 0),
            rotation: Quat::identity(),
            anchor0: Vec3::new(0, 0, 0),
            anchor1: Vec3::new(0, 0, 0),
            anchor2: Vec3::new(0, 0, 0),
        },
        initialized: false,
        translation: Vec3::new(0, 0, 0),
        rotation: Quat::identity(),
    }
}

#[test]
fn anchors_are_captured_once_when_three_appear() {
    let mut a = fresh_asset();
    let live = vec![
        Vec3::new(0, 0, 0),
        Vec3::new(1_000_000, 0, 0),
        Vec3::new(0, 1_000_000, 0),
    ];
    update_attachment(&mut a, &live, true);
    assert!(a.initialized);
    assert_eq!(a.offset.anchor1, Vec3::new(1_000_000, 0, 0));
    // a later, different triangle does not recapture the reference
    let moved = vec![
        Vec3::new(9, 9, 9),
        Vec3::new(1_000_009, 9, 9),
        Vec3::new(9, 1_000_009, 9),
    ];
    update_attachment(&mut a, &moved, true);
    assert_eq!(a.offset.anchor1, Vec3::new(1_000_000, 0, 0));
}

#[test]
fn single_anchor_translates_the_asset_exactly() {
    let mut a = fresh_asset();
    a.offset.translation = Vec3::new(50_000, 0, 0);
    // first sighting initializes (one anchor needs no reference triangle)
    update_attachment(&mut a, &vec![Vec3::new(0, 0, 0)], true);
    assert!(a.initialized);
    update_attachment(&mut a, &vec![Vec3::new(100_000, 200_000, 0)], true);
    let before = a.translation;
    let rot_before = a.rotation;
    let delta = Vec3::new(30_000, -40_000, 10_000);
    update_attachment(
        &mut a,
        &vec![Vec3::new(100_000 + delta.x, 200_000 + delta.y, delta.z)],
        true,
    );
    assert_eq!(a.translation.x - before.x, delta.x);
    assert_eq!(a.translation.y - before.y, delta.y);
    assert_eq!(a.translation.z - before.z, delta.z);
    assert_eq!(a.rotation, rot_before);
}

#[test]
fn unexpected_anchor_count_reverts_to_the_offset_pose() {
    let mut a = fresh_asset();
    a.offset.translation = Vec3::new(11_000, 22_000, 33_000);
    update_attachment(&mut a, &vec![Vec3::new(0, 0, 0)], true);
    update_attachment(&mut a, &vec![Vec3::new(5, 5, 5), Vec3::new(6, 6, 6)], true);
    assert_eq!(a.translation, Vec3::new(11_000, 22_000, 33_000));
    assert_eq!(a.rotation, Quat::identity());
}

#[test]
fn rigid_translation_of_three_anchors_is_reproduced_exactly() {
    let s0 = Vec3::new(0, 0, 0);
    let s1 = Vec3::new(1_000_000, 0, 0);
    let s2 = Vec3::new(0, 1_000_000, 0);
    let d = Vec3::new(123_456, -654_321, 42_000);
    let (rot, trans) = compute_rigid_transform(
        s0,
        s1,
        s2,
        Vec3::new(s0.x + d.x, s0.y + d.y, s0.z + d.z),
        Vec3::new(s1.x + d.x, s1.y + d.y, s1.z + d.z),
        Vec3::new(s2.x + d.x, s2.y + d.y, s2.z + d.z),
    );
    assert_eq!(rot, Quat::identity());
    assert_eq!(trans, d);
}

#[test]
fn rigid_rotation_of_three_anchors_is_reproduced_within_tolerance() {
    // rotate the reference triangle a quarter turn about z
    let s = [
        Vec3::new(1_000_000, 0, 0),
        Vec3::new(2_000_000, 0, 0),
        Vec3::new(1_000_000, 1_000_000, 0),
    ];
    let dst = [
        Vec3::new(0, 1_000_000, 0),
        Vec3::new(0, 2_000_000, 0),
        Vec3::new(-1_000_000, 1_000_000, 0),
    ];
    let (rot, trans) = compute_rigid_transform(s[0], s[1], s[2], dst[0], dst[1], dst[2]);
    // applying the result to each source point lands near its target
    for i in 0..3 {
        let r = quat_rotate(rot, s[i]);
        let px = r.x + trans.x;
        let py = r.y + trans.y;
        let pz = r.z + trans.z;
        assert!((px - dst[i].x).abs() < 6_000, "x {} vs {}", px, dst[i].x);
        assert!((py - dst[i].y).abs() < 6_000, "y {} vs {}", py, dst[i].y);
        assert!((pz - dst[i].z).abs() < 6_000, "z {} vs {}", pz, dst[i].z);
    }
}
