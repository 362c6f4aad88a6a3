//! The rigid-attachment tracker: an externally attached asset follows one
//! or three tagged anchor particles. Three anchors fix a full rigid
//! transform against a reference triangle captured when the anchors first
//! appear; one anchor translates the asset; any other live count reverts
//! it to its static offset pose.

use vstd::prelude::*;

use crate::SCALE;
use crate::fixed::{comb2_div, lemma_tdiv_quotient_bound, mul_div, sqrt_floor, tdiv};
use crate::particle::PART_BOUND;
use crate::quat::{Quat, lemma_mul_identity, lemma_rotate_identity, quat_identity, quat_mul,
    quat_mul_spec, quat_normalize, quat_normalize_spec, quat_rotate, quat_rotate_spec};
use crate::vec3::{Vec3};

verus! {

/// A vector rescaled to unit length (norm `SCALE`); the zero vector stays
/// zero (a degenerate direction is left undefined rather than guessed).
pub open spec fn normalize_vec_spec(v: Vec3) -> Vec3 {
    let n = sqrt_floor(v.x * v.x + v.y * v.y + v.z * v.z);
    if n == 0 {
        Vec3 { x: 0i64, y: 0i64, z: 0i64 }
    } else {
        Vec3 {
            x: tdiv(v.x * SCALE, n) as i64,
            y: tdiv(v.y * SCALE, n) as i64,
            z: tdiv(v.z * SCALE, n) as i64,
        }
    }
}

/// Rescale a vector to unit length; see `normalize_vec_spec`.
pub fn normalize_vec(v: Vec3) -> (r: Vec3)
    requires
        v.in_bound(0x400_0000_0000_0000),
    ensures
        r == normalize_vec_spec(v),
        r.in_bound(SCALE as int),
{
    proof {
        crate::vec3::lemma_sq_bound(v.x as int, 0x400_0000_0000_0000);
        crate::vec3::lemma_sq_bound(v.y as int, 0x400_0000_0000_0000);
        crate::vec3::lemma_sq_bound(v.z as int, 0x400_0000_0000_0000);
        assert((0x400_0000_0000_0000int) * (0x400_0000_0000_0000int)
            == 0x10_0000_0000_0000_0000_0000_0000_0000int) by (nonlinear_arith);
    }
    let n2: i128 = (v.x as i128) * (v.x as i128) + (v.y as i128) * (v.y as i128) + (v.z as i128)
        * (v.z as i128);
    let n: u128 = crate::fixed::isqrt(n2 as u128);
    if n == 0 {
        proof {
            crate::fixed::lemma_sqrt_floor(n2 as int);
        }
        return Vec3 { x: 0, y: 0, z: 0 };
    }
    proof {
        let nn = n as int;
        assert(-nn <= v.x <= nn && -nn <= v.y <= nn && -nn <= v.z <= nn) by (nonlinear_arith)
            requires
                nn >= 0,
                v.x * v.x <= n2,
                v.y * v.y <= n2,
                v.z * v.z <= n2,
                n2 < (nn + 1) * (nn + 1),
        ;
        crate::quat::lemma_component_scaled_bound(v.x as int, nn);
        crate::quat::lemma_component_scaled_bound(v.y as int, nn);
        crate::quat::lemma_component_scaled_bound(v.z as int, nn);
        assert(n <= 0x800_0000_0000_0000u128) by (nonlinear_arith)
            requires
                n * n <= n2,
                n2 <= 3 * 0x10_0000_0000_0000_0000_0000_0000_0000int,
                n >= 0,
        ;
    }
    Vec3 {
        x: mul_div(v.x, SCALE, n as i64),
        y: mul_div(v.y, SCALE, n as i64),
        z: mul_div(v.z, SCALE, n as i64),
    }
}

/// The cross product of a unit-scaled vector with a raw difference,
/// rescaled down by `SCALE`.
pub open spec fn cross_scaled_spec(a: Vec3, b: Vec3) -> Vec3 {
    Vec3 {
        x: tdiv(a.y * b.z + (-a.z) * b.y, SCALE as int) as i64,
        y: tdiv(a.z * b.x + (-a.x) * b.z, SCALE as int) as i64,
        z: tdiv(a.x * b.y + (-a.y) * b.x, SCALE as int) as i64,
    }
}

/// The scaled cross product; see `cross_scaled_spec`.
pub fn cross_scaled(a: Vec3, b: Vec3) -> (r: Vec3)
    requires
        a.in_bound(SCALE as int),
        b.in_bound(2 * PART_BOUND as int),
    ensures
        r == cross_scaled_spec(a, b),
        r.in_bound(4 * PART_BOUND as int),
{
    proof {
        crate::quat::lemma_comb2_quotient(
            a.y as int,
            b.z as int,
            -a.z,
            b.y as int,
            SCALE as int,
            2 * PART_BOUND as int,
            4 * PART_BOUND as int,
        );
        crate::quat::lemma_comb2_quotient(
            a.z as int,
            b.x as int,
            -a.x,
            b.z as int,
            SCALE as int,
            2 * PART_BOUND as int,
            4 * PART_BOUND as int,
        );
        crate::quat::lemma_comb2_quotient(
            a.x as int,
            b.y as int,
            -a.y,
            b.x as int,
            SCALE as int,
            2 * PART_BOUND as int,
            4 * PART_BOUND as int,
        );
    }
    Vec3 {
        x: comb2_div(a.y, b.z, -a.z, b.y, SCALE),
        y: comb2_div(a.z, b.x, -a.x, b.z, SCALE),
        z: comb2_div(a.x, b.y, -a.y, b.x, SCALE),
    }
}

/// The rotation aligning unit direction `f` to unit direction `t`: the
/// quaternion with vector part their cross product and scalar part one
/// plus their dot product, normalized. Equal directions give exactly the
/// identity.
pub open spec fn rotation_arc_spec(f: Vec3, t: Vec3) -> Quat {
    if f == t {
        quat_identity()
    } else {
        quat_normalize_spec(
            Quat {
                x: tdiv(f.y * t.z + (-f.z) * t.y, SCALE as int) as i64,
                y: tdiv(f.z * t.x + (-f.x) * t.z, SCALE as int) as i64,
                z: tdiv(f.x * t.y + (-f.y) * t.x, SCALE as int) as i64,
                w: (SCALE + tdiv(f.x * t.x + f.y * t.y, SCALE as int) + tdiv(
                    f.z * t.z,
                    SCALE as int,
                )) as i64,
            },
        )
    }
}

/// The rotation aligning `f` to `t`; see `rotation_arc_spec`.
pub fn from_rotation_arc(f: Vec3, t: Vec3) -> (r: Quat)
    requires
        f.in_bound(64_000_000),
        t.in_bound(64_000_000),
    ensures
        r == rotation_arc_spec(f, t),
        r.in_q(SCALE as int),
{
    if f.x == t.x && f.y == t.y && f.z == t.z {
        return Quat { x: 0, y: 0, z: 0, w: SCALE };
    }
    proof {
        crate::quat::lemma_comb2_quotient(
            f.y as int,
            t.z as int,
            -f.z,
            t.y as int,
            64_000_000,
            64_000_000,
            8_200_000_000,
        );
        crate::quat::lemma_comb2_quotient(
            f.z as int,
            t.x as int,
            -f.x,
            t.z as int,
            64_000_000,
            64_000_000,
            8_200_000_000,
        );
        crate::quat::lemma_comb2_quotient(
            f.x as int,
            t.y as int,
            -f.y,
            t.x as int,
            64_000_000,
            64_000_000,
            8_200_000_000,
        );
        crate::quat::lemma_comb2_quotient(
            f.x as int,
            t.x as int,
            f.y as int,
            t.y as int,
            64_000_000,
            64_000_000,
            8_200_000_000,
        );
        crate::quat::lemma_comb2_quotient(
            f.z as int,
            t.z as int,
            0,
            0,
            64_000_000,
            64_000_000,
            8_200_000_000,
        );
    }
    let qx: i64 = comb2_div(f.y, t.z, -f.z, t.y, SCALE);
    let qy: i64 = comb2_div(f.z, t.x, -f.x, t.z, SCALE);
    let qz: i64 = comb2_div(f.x, t.y, -f.y, t.x, SCALE);
    let qw: i64 = SCALE + comb2_div(f.x, t.x, f.y, t.y, SCALE) + mul_div(f.z, t.z, SCALE);
    quat_normalize(Quat { x: qx, y: qy, z: qz, w: qw })
}

/// The static pose and captured reference anchors of an attached asset.
#[derive(Clone, Copy, Debug, PartialEq, Eq, Structural)]
pub struct MeshOffset {
    /// The asset's own translation relative to its anchors.
    pub translation: Vec3,
    /// The asset's own orientation.
    pub rotation: Quat,
    /// The reference triangle, captured once, in stable-identity order.
    pub anchor0: Vec3,
    pub anchor1: Vec3,
    pub anchor2: Vec3,
}

/// One tracked external asset: its tag, its offset pose, whether its
/// anchors have been captured, and its live transform.
#[derive(Clone, Copy, Debug, PartialEq, Eq, Structural)]
pub struct AttachedAsset {
    /// The stable 64-bit id of the attachment tag.
    pub id: u64,
    pub offset: MeshOffset,
    /// Whether the reference anchors have been looked for already.
    pub initialized: bool,
    /// The live translation applied to the asset.
    pub translation: Vec3,
    /// The live orientation applied to the asset.
    pub rotation: Quat,
}

/// The centroid of a triangle, componentwise floor division by three.
pub open spec fn centroid_spec(a: Vec3, b: Vec3, c: Vec3) -> Vec3 {
    Vec3 {
        x: ((a.x + b.x + c.x) / 3) as i64,
        y: ((a.y + b.y + c.y) / 3) as i64,
        z: ((a.z + b.z + c.z) / 3) as i64,
    }
}

/// The centroid of a triangle of in-cap points.
pub fn centroid(a: Vec3, b: Vec3, c: Vec3) -> (r: Vec3)
    requires
        a.in_bound(PART_BOUND as int),
        b.in_bound(PART_BOUND as int),
        c.in_bound(PART_BOUND as int),
    ensures
        r == centroid_spec(a, b, c),
        r.in_bound(PART_BOUND as int),
{
    let rx: i64 = match (a.x + b.x + c.x).checked_div_euclid(3) {
        Some(v) => v,
        None => 0,
    };
    let ry: i64 = match (a.y + b.y + c.y).checked_div_euclid(3) {
        Some(v) => v,
        None => 0,
    };
    let rz: i64 = match (a.z + b.z + c.z).checked_div_euclid(3) {
        Some(v) => v,
        None => 0,
    };
    proof {
        lemma_div3_bound(a.x + b.x + c.x);
        lemma_div3_bound(a.y + b.y + c.y);
        lemma_div3_bound(a.z + b.z + c.z);
    }
    Vec3 { x: rx, y: ry, z: rz }
}

/// Floor division by three keeps the coordinate cap.
pub proof fn lemma_div3_bound(s: int)
    requires
        -3 * PART_BOUND <= s <= 3 * PART_BOUND,
    ensures
        -PART_BOUND <= s / 3 <= PART_BOUND,
        i64::MIN <= s / 3 <= i64::MAX,
{
    vstd::arithmetic::div_mod::lemma_div_is_ordered(s, 3 * PART_BOUND as int, 3);
    vstd::arithmetic::div_mod::lemma_div_is_ordered(-3 * PART_BOUND as int, s, 3);
    vstd::arithmetic::div_mod::lemma_div_multiples_vanish(PART_BOUND as int, 3);
    vstd::arithmetic::div_mod::lemma_div_multiples_vanish(-PART_BOUND as int, 3);
}

/// The rigid transform aligning a reference triangle to a live one: the
/// planes are aligned by rotating normal onto normal, the in-plane roll by
/// rotating edge onto edge, and the centroids fix the translation.
pub open spec fn rigid_transform_spec(s0: Vec3, s1: Vec3, s2: Vec3, d0: Vec3, d1: Vec3, d2: Vec3)
    -> (Quat, Vec3) {
    let from_edge = normalize_vec_spec(
        Vec3 { x: (s1.x - s0.x) as i64, y: (s1.y - s0.y) as i64, z: (s1.z - s0.z) as i64 },
    );
    let from_normal = normalize_vec_spec(
        cross_scaled_spec(
            from_edge,
            Vec3 { x: (s2.x - s0.x) as i64, y: (s2.y - s0.y) as i64, z: (s2.z - s0.z) as i64 },
        ),
    );
    let to_edge = normalize_vec_spec(
        Vec3 { x: (d1.x - d0.x) as i64, y: (d1.y - d0.y) as i64, z: (d1.z - d0.z) as i64 },
    );
    let to_normal = normalize_vec_spec(
        cross_scaled_spec(
            to_edge,
            Vec3 { x: (d2.x - d0.x) as i64, y: (d2.y - d0.y) as i64, z: (d2.z - d0.z) as i64 },
        ),
    );
    let align_normals = rotation_arc_spec(from_normal, to_normal);
    let rotated_from_edge = quat_rotate_spec(align_normals, from_edge);
    let align_edges = rotation_arc_spec(rotated_from_edge, to_edge);
    let rotation = quat_mul_spec(align_edges, align_normals);
    let sc = centroid_spec(s0, s1, s2);
    let dc = centroid_spec(d0, d1, d2);
    let rsc = quat_rotate_spec(rotation, sc);
    (
        rotation,
        Vec3 { x: (dc.x - rsc.x) as i64, y: (dc.y - rsc.y) as i64, z: (dc.z - rsc.z) as i64 },
    )
}

/// Compute the rigid transform; see `rigid_transform_spec`.
pub fn compute_rigid_transform(s0: Vec3, s1: Vec3, s2: Vec3, d0: Vec3, d1: Vec3, d2: Vec3) -> (r: (
    Quat,
    Vec3,
))
    requires
        s0.in_bound(PART_BOUND as int),
        s1.in_bound(PART_BOUND as int),
        s2.in_bound(PART_BOUND as int),
        d0.in_bound(PART_BOUND as int),
        d1.in_bound(PART_BOUND as int),
        d2.in_bound(PART_BOUND as int),
    ensures
        r == rigid_transform_spec(s0, s1, s2, d0, d1, d2),
        r.0.in_q(4_000_000),
        r.1.in_bound(0x400 * PART_BOUND as int),
{
    let from_edge: Vec3 = normalize_vec(
        Vec3 { x: s1.x - s0.x, y: s1.y - s0.y, z: s1.z - s0.z },
    );
    let from_normal: Vec3 = normalize_vec(
        cross_scaled(from_edge, Vec3 { x: s2.x - s0.x, y: s2.y - s0.y, z: s2.z - s0.z }),
    );
    let to_edge: Vec3 = normalize_vec(Vec3 { x: d1.x - d0.x, y: d1.y - d0.y, z: d1.z - d0.z });
    let to_normal: Vec3 = normalize_vec(
        cross_scaled(to_edge, Vec3 { x: d2.x - d0.x, y: d2.y - d0.y, z: d2.z - d0.z }),
    );
    let align_normals: Quat = from_rotation_arc(from_normal, to_normal);
    let rotated_from_edge: Vec3 = quat_rotate(align_normals, from_edge);
    proof {
        lemma_rotate_small(align_normals, from_edge);
    }
    let align_edges: Quat = from_rotation_arc(rotated_from_edge, to_edge);
    let rotation: Quat = quat_mul(align_edges, align_normals);
    let sc: Vec3 = centroid(s0, s1, s2);
    let dc: Vec3 = centroid(d0, d1, d2);
    proof {
        assert(rotation.in_q(4_000_000)) by {
            crate::quat::lemma_quat_mul_bounds(align_edges, align_normals);
            lemma_unit_product_small(align_edges, align_normals);
        }
    }
    let rsc: Vec3 = quat_rotate(rotation, sc);
    (rotation, Vec3 { x: dc.x - rsc.x, y: dc.y - rsc.y, z: dc.z - rsc.z })
}

/// Rotating a unit-scaled vector by a unit-scaled quaternion stays small.
pub proof fn lemma_rotate_small(q: Quat, v: Vec3)
    requires
        q.in_q(SCALE as int),
        v.in_bound(SCALE as int),
    ensures
        quat_rotate_spec(q, v).in_bound(25_000_000),
{
    crate::quat::lemma_comb2_quotient(2 * q.y, v.z as int, -(2 * q.z), v.y as int, 2_000_000, 1_000_000, 4_000_000);
    crate::quat::lemma_comb2_quotient(2 * q.z, v.x as int, -(2 * q.x), v.z as int, 2_000_000, 1_000_000, 4_000_000);
    crate::quat::lemma_comb2_quotient(2 * q.x, v.y as int, -(2 * q.y), v.x as int, 2_000_000, 1_000_000, 4_000_000);
    let tx = tdiv((2 * q.y) * v.z + (-(2 * q.z)) * v.y, SCALE as int);
    let ty = tdiv((2 * q.z) * v.x + (-(2 * q.x)) * v.z, SCALE as int);
    let tz = tdiv((2 * q.x) * v.y + (-(2 * q.y)) * v.x, SCALE as int);
    crate::quat::lemma_comb2_quotient(q.w as int, tx, 0, 0, 1_000_000, 4_000_000, 8_000_000);
    crate::quat::lemma_comb2_quotient(q.w as int, ty, 0, 0, 1_000_000, 4_000_000, 8_000_000);
    crate::quat::lemma_comb2_quotient(q.w as int, tz, 0, 0, 1_000_000, 4_000_000, 8_000_000);
    crate::quat::lemma_comb2_quotient(q.y as int, tz, -q.z, ty, 1_000_000, 4_000_000, 8_000_000);
    crate::quat::lemma_comb2_quotient(q.z as int, tx, -q.x, tz, 1_000_000, 4_000_000, 8_000_000);
    crate::quat::lemma_comb2_quotient(q.x as int, ty, -q.y, tx, 1_000_000, 4_000_000, 8_000_000);
}

/// The product of two unit-scaled quaternions stays small.
pub proof fn lemma_unit_product_small(a: Quat, b: Quat)
    requires
        a.in_q(SCALE as int),
        b.in_q(SCALE as int),
    ensures
        quat_mul_spec(a, b).in_q(4_000_000),
{
    assert forall|p: int, q: int, u: int, v: int, m: int, n: int, s: int, t: int|
        -SCALE <= p <= SCALE && -SCALE <= q <= SCALE && -SCALE <= u <= SCALE && -SCALE <= v
            <= SCALE && -SCALE <= m <= SCALE && -SCALE <= n <= SCALE && -SCALE <= s <= SCALE
            && -SCALE <= t <= SCALE implies -(SCALE * 4_000_000) <= #[trigger] (p * q + u * v + m
            * n + s * t) <= SCALE * 4_000_000 by {
        assert(-(SCALE * 4_000_000) <= p * q + u * v + m * n + s * t <= SCALE * 4_000_000)
            by (nonlinear_arith)
            requires
                -SCALE <= p <= SCALE,
                -SCALE <= q <= SCALE,
                -SCALE <= u <= SCALE,
                -SCALE <= v <= SCALE,
                -SCALE <= m <= SCALE,
                -SCALE <= n <= SCALE,
                -SCALE <= s <= SCALE,
                -SCALE <= t <= SCALE,
                SCALE == 1_000_000,
        ;
    }
    lemma_tdiv_quotient_bound(
        a.w * b.x + a.x * b.w + a.y * b.z + (-a.z) * b.y,
        SCALE as int,
        4_000_000,
    );
    lemma_tdiv_quotient_bound(
        a.w * b.y + a.y * b.w + a.z * b.x + (-a.x) * b.z,
        SCALE as int,
        4_000_000,
    );
    lemma_tdiv_quotient_bound(
        a.w * b.z + a.z * b.w + a.x * b.y + (-a.y) * b.x,
        SCALE as int,
        4_000_000,
    );
    lemma_tdiv_quotient_bound(
        a.w * b.w + (-a.x) * b.x + (-a.y) * b.y + (-a.z) * b.z,
        SCALE as int,
        4_000_000,
    );
}


/// Where a single tracked anchor puts the asset: the anchor position plus
/// the rotated local offset; the orientation is the offset's own.
pub open spec fn single_anchor_pose(anchor: Vec3, off: MeshOffset) -> (Vec3, Quat) {
    let ot = quat_rotate_spec(off.rotation, off.translation);
    (
        Vec3 {
            x: (anchor.x + ot.x) as i64,
            y: (anchor.y + ot.y) as i64,
            z: (anchor.z + ot.z) as i64,
        },
        off.rotation,
    )
}

/// What one tracker step does to an asset, given the live anchor
/// positions of its tag (in stable-identity order) and whether the frame
/// changed. Anchoring waits until the expected count is first observed:
/// exactly three anchors capture the reference triangle, exactly one
/// starts single-point tracking directly, and any other count leaves the
/// asset waiting. Once anchored, each dirty tick recomputes the pose:
/// three anchors give a full rigid transform composed with the offset
/// pose, one anchor translates the asset, and any other count reverts it
/// to the static offset pose.
pub open spec fn update_attachment_spec(a: AttachedAsset, live: Seq<Vec3>, changed: bool)
    -> AttachedAsset {
    if !a.initialized {
        if live.len() == 3 {
            AttachedAsset {
                initialized: true,
                offset: MeshOffset {
                    anchor0: live[0],
                    anchor1: live[1],
                    anchor2: live[2],
                    ..a.offset
                },
                ..a
            }
        } else if live.len() == 1 {
            AttachedAsset { initialized: true, ..a }
        } else {
            a
        }
    } else if changed {
        if live.len() == 3 {
            let d = rigid_transform_spec(
                a.offset.anchor0,
                a.offset.anchor1,
                a.offset.anchor2,
                live[0],
                live[1],
                live[2],
            );
            let new_rot = quat_normalize_spec(quat_mul_spec(d.0, a.offset.rotation));
            let ot = quat_rotate_spec(new_rot, a.offset.translation);
            AttachedAsset {
                rotation: new_rot,
                translation: Vec3 {
                    x: (d.1.x + ot.x) as i64,
                    y: (d.1.y + ot.y) as i64,
                    z: (d.1.z + ot.z) as i64,
                },
                ..a
            }
        } else if live.len() == 1 {
            let p = single_anchor_pose(live[0], a.offset);
            AttachedAsset { translation: p.0, rotation: p.1, ..a }
        } else {
            AttachedAsset { translation: a.offset.translation, rotation: a.offset.rotation, ..a }
        }
    } else {
        a
    }
}

/// An asset's stored vectors and rotation stay within working bounds.
pub open spec fn wf_asset(a: AttachedAsset) -> bool {
    &&& a.offset.translation.in_bound(PART_BOUND as int)
    &&& a.offset.rotation.in_q(SCALE as int)
    &&& a.offset.anchor0.in_bound(PART_BOUND as int)
    &&& a.offset.anchor1.in_bound(PART_BOUND as int)
    &&& a.offset.anchor2.in_bound(PART_BOUND as int)
}

/// One tracker step; see `update_attachment_spec`.
pub fn update_attachment(a: &mut AttachedAsset, live: &Vec<Vec3>, changed: bool)
    requires
        wf_asset(*old(a)),
        forall|i: int| 0 <= i < live@.len() ==> (#[trigger] live@[i]).in_bound(PART_BOUND as int),
    ensures
        *final(a) == update_attachment_spec(*old(a), live@, changed),
        wf_asset(*final(a)),
{
    if !a.initialized {
        if live.len() == 3 {
            a.offset.anchor0 = live[0];
            a.offset.anchor1 = live[1];
            a.offset.anchor2 = live[2];
            a.initialized = true;
        } else if live.len() == 1 {
            a.initialized = true;
        }
    } else if changed {
        if live.len() == 3 {
            let d: (Quat, Vec3) = compute_rigid_transform(
                a.offset.anchor0,
                a.offset.anchor1,
                a.offset.anchor2,
                live[0],
                live[1],
                live[2],
            );
            let m: Quat = quat_mul(d.0, a.offset.rotation);
            let new_rot: Quat = quat_normalize(m);
            let ot: Vec3 = quat_rotate(new_rot, a.offset.translation);
            a.rotation = new_rot;
            a.translation = Vec3 { x: d.1.x + ot.x, y: d.1.y + ot.y, z: d.1.z + ot.z };
        } else if live.len() == 1 {
            let ot: Vec3 = quat_rotate(a.offset.rotation, a.offset.translation);
            a.translation = Vec3 {
                x: live[0].x + ot.x,
                y: live[0].y + ot.y,
                z: live[0].z + ot.z,
            };
            a.rotation = a.offset.rotation;
        } else {
            a.translation = a.offset.translation;
            a.rotation = a.offset.rotation;
        }
    }
}

/// A single tracked anchor moving by some vector moves the asset by
/// exactly that vector, with its orientation unchanged.
pub proof fn lemma_single_anchor_translates(anchor: Vec3, delta: Vec3, off: MeshOffset)
    requires
        anchor.in_bound(PART_BOUND as int),
        delta.in_bound(PART_BOUND as int),
        off.rotation.in_q(4_000_000),
        off.translation.in_bound(PART_BOUND as int),
    ensures
        ({
            let moved = Vec3 {
                x: (anchor.x + delta.x) as i64,
                y: (anchor.y + delta.y) as i64,
                z: (anchor.z + delta.z) as i64,
            };
            let before = single_anchor_pose(anchor, off);
            let after = single_anchor_pose(moved, off);
            &&& after.0.x - before.0.x == delta.x
            &&& after.0.y - before.0.y == delta.y
            &&& after.0.z - before.0.z == delta.z
            &&& after.1 == before.1
        }),
{
    crate::quat::lemma_rotate_bounds(off.rotation, off.translation);
}

/// Floor division by three absorbs whole multiples.
pub proof fn lemma_div3_shift(s: int, d: int)
    ensures
        (s + 3 * d) / 3 == s / 3 + d,
{
    vstd::arithmetic::div_mod::lemma_fundamental_div_mod(s, 3);
    vstd::arithmetic::div_mod::lemma_fundamental_div_mod_converse(
        s + 3 * d,
        3,
        s / 3 + d,
        s % 3,
    );
}

/// Translating all three anchors rigidly by one vector reproduces exactly
/// that translation on the asset: the rotation part of the rigid
/// transform is exactly the identity and the translation part exactly the
/// vector. (The rotational counterpart holds only up to fixed-point
/// rounding and is exercised by tests instead.)
pub proof fn lemma_rigid_translation(s0: Vec3, s1: Vec3, s2: Vec3, delta: Vec3)
    requires
        s0.in_bound(PART_BOUND as int),
        s1.in_bound(PART_BOUND as int),
        s2.in_bound(PART_BOUND as int),
        delta.in_bound(PART_BOUND as int),
    ensures
        ({
            let d0 = Vec3 {
                x: (s0.x + delta.x) as i64,
                y: (s0.y + delta.y) as i64,
                z: (s0.z + delta.z) as i64,
            };
            let d1 = Vec3 {
                x: (s1.x + delta.x) as i64,
                y: (s1.y + delta.y) as i64,
                z: (s1.z + delta.z) as i64,
            };
            let d2 = Vec3 {
                x: (s2.x + delta.x) as i64,
                y: (s2.y + delta.y) as i64,
                z: (s2.z + delta.z) as i64,
            };
            let r = rigid_transform_spec(s0, s1, s2, d0, d1, d2);
            r.0 == quat_identity() && r.1 == delta
        }),
{
    let d0 = Vec3 {
        x: (s0.x + delta.x) as i64,
        y: (s0.y + delta.y) as i64,
        z: (s0.z + delta.z) as i64,
    };
    let d1 = Vec3 {
        x: (s1.x + delta.x) as i64,
        y: (s1.y + delta.y) as i64,
        z: (s1.z + delta.z) as i64,
    };
    let d2 = Vec3 {
        x: (s2.x + delta.x) as i64,
        y: (s2.y + delta.y) as i64,
        z: (s2.z + delta.z) as i64,
    };
    let from_edge = normalize_vec_spec(
        Vec3 { x: (s1.x - s0.x) as i64, y: (s1.y - s0.y) as i64, z: (s1.z - s0.z) as i64 },
    );
    let to_edge = normalize_vec_spec(
        Vec3 { x: (d1.x - d0.x) as i64, y: (d1.y - d0.y) as i64, z: (d1.z - d0.z) as i64 },
    );
    assert(to_edge == from_edge);
    let from_normal = normalize_vec_spec(
        cross_scaled_spec(
            from_edge,
            Vec3 { x: (s2.x - s0.x) as i64, y: (s2.y - s0.y) as i64, z: (s2.z - s0.z) as i64 },
        ),
    );
    let to_normal = normalize_vec_spec(
        cross_scaled_spec(
            to_edge,
            Vec3 { x: (d2.x - d0.x) as i64, y: (d2.y - d0.y) as i64, z: (d2.z - d0.z) as i64 },
        ),
    );
    assert(to_normal == from_normal);
    let align_normals = rotation_arc_spec(from_normal, to_normal);
    assert(align_normals == quat_identity());
    lemma_rotate_identity(from_edge);
    let rotated_from_edge = quat_rotate_spec(align_normals, from_edge);
    assert(rotated_from_edge == from_edge);
    let align_edges = rotation_arc_spec(rotated_from_edge, to_edge);
    assert(align_edges == quat_identity());
    lemma_mul_identity();
    let rotation = quat_mul_spec(align_edges, align_normals);
    assert(rotation == quat_identity());
    let sc = centroid_spec(s0, s1, s2);
    let dc = centroid_spec(d0, d1, d2);
    lemma_div3_shift(s0.x + s1.x + s2.x, delta.x as int);
    lemma_div3_shift(s0.y + s1.y + s2.y, delta.y as int);
    lemma_div3_shift(s0.z + s1.z + s2.z, delta.z as int);
    assert(dc.x == sc.x + delta.x && dc.y == sc.y + delta.y && dc.z == sc.z + delta.z);
    lemma_rotate_identity(sc);
    let rsc = quat_rotate_spec(rotation, sc);
    assert(rsc == sc);
}


/// Whether the tag table associates particle `pid` with tag `tag`.
pub open spec fn has_tag(tags: Seq<(u64, u64)>, pid: u64, tag: u64) -> bool {
    exists|e: int| 0 <= e < tags.len() && #[trigger] tags[e] == (pid, tag)
}

/// The live anchor positions of `tag` among the first `n` particles, in
/// storage order (ids are handed out increasing, so this is stable-identity
/// order).
pub open spec fn anchors_of(
    pts: Seq<crate::particle::Point>,
    ids: Seq<u64>,
    tags: Seq<(u64, u64)>,
    tag: u64,
    n: int,
) -> Seq<Vec3>
    decreases n,
{
    if n <= 0 {
        Seq::empty()
    } else {
        let rest = anchors_of(pts, ids, tags, tag, n - 1);
        if has_tag(tags, ids[n - 1], tag) {
            rest.push(pts[n - 1].position)
        } else {
            rest
        }
    }
}

/// Collect the live anchor positions of one attachment tag: the positions
/// of every particle the tag table ties to it, in stable-identity order.
pub fn gather_anchors(
    points: &Vec<crate::particle::Point>,
    ids: &Vec<u64>,
    tags: &Vec<(u64, u64)>,
    tag: u64,
) -> (r: Vec<Vec3>)
    requires
        points@.len() == ids@.len(),
        crate::solver::wf_points(points@),
    ensures
        r@ == anchors_of(points@, ids@, tags@, tag, points@.len() as int),
        forall|i: int| 0 <= i < r@.len() ==> (#[trigger] r@[i]).in_bound(PART_BOUND as int),
{
    let n: usize = points.len();
    let mut r: Vec<Vec3> = Vec::new();
    let mut k: usize = 0;
    while k < n
        invariant
            k <= n,
            n == points@.len(),
            points@.len() == ids@.len(),
            crate::solver::wf_points(points@),
            r@ == anchors_of(points@, ids@, tags@, tag, k as int),
            forall|i: int| 0 <= i < r@.len() ==> (#[trigger] r@[i]).in_bound(PART_BOUND as int),
        decreases n - k,
    {
        let pid: u64 = ids[k];
        let m: usize = tags.len();
        let mut found: bool = false;
        let mut e: usize = 0;
        while e < m
            invariant
                e <= m,
                m == tags@.len(),
                found ==> has_tag(tags@, pid, tag),
                !found ==> forall|ee: int| 0 <= ee < e ==> (#[trigger] tags@[ee]) != (pid, tag),
            decreases m - e,
        {
            let (p, t) = tags[e];
            if p == pid && t == tag {
                proof {
                    assert(tags@[e as int] == (pid, tag));
                }
                found = true;
            }
            e = e + 1;
        }
        proof {
            if !found && has_tag(tags@, pid, tag) {
                let w = choose|ee: int| 0 <= ee < tags@.len() && #[trigger] tags@[ee] == (
                    pid,
                    tag,
                );
                assert(tags@[w] != (pid, tag));
            }
        }
        if found {
            r.push(points[k].position);
        }
        k = k + 1;
    }
    r
}

/// One tracker pass over every attached asset: each asset sees the live
/// anchors of its own tag (in stable-identity order) and takes one
/// `update_attachment` step against the tick's dirty flag.
pub fn reposition_models(
    assets: &mut Vec<AttachedAsset>,
    points: &Vec<crate::particle::Point>,
    ids: &Vec<u64>,
    tags: &Vec<(u64, u64)>,
    changed: bool,
)
    requires
        points@.len() == ids@.len(),
        crate::solver::wf_points(points@),
        forall|a: int| 0 <= a < old(assets)@.len() ==> wf_asset(#[trigger] old(assets)@[a]),
    ensures
        final(assets)@.len() == old(assets)@.len(),
        forall|a: int|
            0 <= a < old(assets)@.len() ==> #[trigger] final(assets)@[a]
                == update_attachment_spec(
                old(assets)@[a],
                anchors_of(points@, ids@, tags@, old(assets)@[a].id, points@.len() as int),
                changed,
            ),
        forall|a: int| 0 <= a < final(assets)@.len() ==> wf_asset(#[trigger] final(assets)@[a]),
{
    let n: usize = assets.len();
    let mut k: usize = 0;
    while k < n
        invariant
            k <= n,
            n == old(assets)@.len(),
            assets@.len() == n,
            points@.len() == ids@.len(),
            crate::solver::wf_points(points@),
            forall|a: int| 0 <= a < n ==> wf_asset(#[trigger] old(assets)@[a]),
            forall|a: int|
                0 <= a < k ==> #[trigger] assets@[a] == update_attachment_spec(
                    old(assets)@[a],
                    anchors_of(points@, ids@, tags@, old(assets)@[a].id, points@.len() as int),
                    changed,
                ),
            forall|a: int| 0 <= a < k ==> wf_asset(#[trigger] assets@[a]),
            forall|a: int| k <= a < n ==> assets@[a] == old(assets)@[a],
        decreases n - k,
    {
        let live: Vec<Vec3> = gather_anchors(points, ids, tags, assets[k].id);
        let mut a: AttachedAsset = assets[k];
        update_attachment(&mut a, &live, changed);
        assets.set(k, a);
        k = k + 1;
    }
}

/// Which assets a prune keeps: those whose tag still has at least one live
/// particle.
pub open spec fn pruned_assets(
    assets: Seq<AttachedAsset>,
    pts: Seq<crate::particle::Point>,
    ids: Seq<u64>,
    tags: Seq<(u64, u64)>,
    n: int,
) -> Seq<AttachedAsset>
    decreases n,
{
    if n <= 0 {
        Seq::empty()
    } else {
        let rest = pruned_assets(assets, pts, ids, tags, n - 1);
        if anchors_of(pts, ids, tags, assets[n - 1].id, pts.len() as int).len() > 0 {
            rest.push(assets[n - 1])
        } else {
            rest
        }
    }
}

/// Prune stale attachments: an asset whose tag no longer matches any live
/// particle is dropped from the tracked state.
pub fn prune_stale_attachments(
    assets: &mut Vec<AttachedAsset>,
    points: &Vec<crate::particle::Point>,
    ids: &Vec<u64>,
    tags: &Vec<(u64, u64)>,
)
    requires
        points@.len() == ids@.len(),
        crate::solver::wf_points(points@),
    ensures
        final(assets)@ == pruned_assets(
            old(assets)@,
            points@,
            ids@,
            tags@,
            old(assets)@.len() as int,
        ),
{
    let n: usize = assets.len();
    let mut kept: Vec<AttachedAsset> = Vec::new();
    let mut k: usize = 0;
    while k < n
        invariant
            k <= n,
            n == old(assets)@.len(),
            assets@ == old(assets)@,
            points@.len() == ids@.len(),
            crate::solver::wf_points(points@),
            kept@ == pruned_assets(old(assets)@, points@, ids@, tags@, k as int),
        decreases n - k,
    {
        let live: Vec<Vec3> = gather_anchors(points, ids, tags, assets[k].id);
        if live.len() > 0 {
            kept.push(assets[k]);
        }
        k = k + 1;
    }
    *assets = kept;
}

} // verus!
