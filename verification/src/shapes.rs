//! The built-in geometries: rope, square, cloth and cube, each described
//! as positions plus a symmetric edge list and turned into a spawnable
//! mesh network.

use vstd::prelude::*;

use crate::SCALE;
use crate::fixed::tdiv;
use crate::particle::{PART_BOUND, Point};
use crate::spawn::{MaterialType, MeshType, SpawnNode, batch_lengths_ok, batch_neighbors_ok,
    cmat_of, cmesh_of, cscale_of, csize_of, conn_of, has_pos, node_has_conn, node_lengths_ok};
use crate::vec3::Vec3;

verus! {

/// Spacing of the rope's chain points, micro-units.
pub const ROPE_STICK_LENGTH: i64 = 25_000;

/// Number of sticks in a rope (its length over the point spacing).
pub const ROPE_STICKS: usize = 60;

/// Horizontal step between chain points: the spacing times the sine of the
/// 35-degree drop angle, micro-units.
pub const ROPE_STEP_X: i64 = 14_339;

/// Vertical step between chain points: the spacing times the cosine of the
/// 35-degree drop angle, micro-units.
pub const ROPE_STEP_Y: i64 = 20_478;

/// Gap the rope keeps from a wall it is clamped against, micro-units.
pub const WALL_MARGIN: i64 = 1_000;

/// Half the side of the square and cube bodies, micro-units.
pub const BODY_HALF_SIZE: i64 = 225_000;

/// Grid spacing of the cloth, micro-units.
pub const CLOTH_GAP: i64 = 100_000;

/// Height the cloth hangs above the floor, micro-units.
pub const CLOTH_FLOOR_OFFSET: i64 = 250_000;

/// Height reserved for the host's control bar, micro-units.
pub const CLOTH_BAR_HEIGHT: i64 = 75_000;

/// Turn positions plus per-node neighbour lists into a mesh network: one
/// node per position, in order, whose declared connections name the
/// positions of its listed neighbours, slot for slot, with one stick
/// descriptor per neighbour. A locked node carries the locked material.
/// The result always passes the spawner's batch checks.
#[verifier::rlimit(100)]
pub fn build_network(
    positions: &Vec<Vec3>,
    locked: &Vec<bool>,
    neighbors: &Vec<Vec<usize>>,
    point_material: MaterialType,
    locked_material: MaterialType,
    stick_material: MaterialType,
    point_size: i64,
    stick_size: i64,
) -> (r: Vec<SpawnNode>)
    requires
        positions@.len() == locked@.len(),
        positions@.len() == neighbors@.len(),
        forall|k: int, j: int|
            #![trigger neighbors@[k]@[j]]
            0 <= k < neighbors@.len() && 0 <= j < neighbors@[k]@.len() ==> neighbors@[k]@[j]
                < positions@.len(),
        forall|k: int|
            0 <= k < positions@.len() ==> (#[trigger] positions@[k]).in_bound(PART_BOUND as int),
    ensures
        r@.len() == positions@.len(),
        forall|k: int|
            0 <= k < r@.len() ==> (#[trigger] r@[k]).point == (Point {
                position: positions@[k],
                prev_position: positions@[k],
                locked: locked@[k],
                rendered_position: positions@[k],
                previously_rendered_position: positions@[k],
                external_forces: Vec3 { x: 0i64, y: 0i64, z: 0i64 },
            }) && r@[k].point.wf(),
        forall|k: int|
            0 <= k < r@.len() ==> (#[trigger] r@[k]).point_material == (if locked@[k] {
                locked_material
            } else {
                point_material
            }) && r@[k].point_mesh == MeshType::Sphere && r@[k].point_size == point_size
                && r@[k].point_scale == unit_scale() && (r@[k].attachment is None),
        forall|k: int| 0 <= k < r@.len() ==> #[trigger] node_has_conn(r@, k),
        forall|k: int| 0 <= k < r@.len() ==> #[trigger] node_lengths_ok(r@, k),
        forall|k: int|
            0 <= k < r@.len() ==> #[trigger] conn_of(r@, k).len() == neighbors@[k]@.len(),
        forall|k: int, j: int|
            #![trigger conn_of(r@, k)[j]]
            0 <= k < r@.len() && 0 <= j < conn_of(r@, k).len() ==> conn_of(r@, k)[j]
                == positions@[neighbors@[k]@[j] as int],
        forall|k: int, j: int|
            #![trigger cmat_of(r@, k)[j]]
            0 <= k < r@.len() && 0 <= j < conn_of(r@, k).len() ==> cmat_of(r@, k)[j]
                == stick_material && cmesh_of(r@, k)[j] == MeshType::Cuboid && csize_of(r@, k)[j]
                == stick_size && cscale_of(r@, k, j) == unit_scale(),
        network_styled(
            r@,
            point_material,
            locked_material,
            stick_material,
            point_size as int,
            stick_size as int,
        ),
        batch_lengths_ok(r@),
        batch_neighbors_ok(r@),
{
    let n: usize = positions.len();
    let mut r: Vec<SpawnNode> = Vec::new();
    let mut k: usize = 0;
    while k < n
        invariant
            k <= n,
            n == positions@.len(),
            n == locked@.len(),
            n == neighbors@.len(),
            forall|i: int, j: int|
                #![trigger neighbors@[i]@[j]]
                0 <= i < n && 0 <= j < neighbors@[i]@.len() ==> neighbors@[i]@[j] < n,
            forall|i: int|
                0 <= i < n ==> (#[trigger] positions@[i]).in_bound(PART_BOUND as int),
            r@.len() == k,
            forall|i: int|
                0 <= i < k ==> (#[trigger] r@[i]).point == (Point {
                    position: positions@[i],
                    prev_position: positions@[i],
                    locked: locked@[i],
                    rendered_position: positions@[i],
                    previously_rendered_position: positions@[i],
                    external_forces: Vec3 { x: 0i64, y: 0i64, z: 0i64 },
                }) && r@[i].point.wf(),
            forall|i: int|
                0 <= i < k ==> (#[trigger] r@[i]).point_material == (if locked@[i] {
                    locked_material
                } else {
                    point_material
                }) && r@[i].point_mesh == MeshType::Sphere && r@[i].point_size == point_size
                    && r@[i].point_scale == unit_scale() && (r@[i].attachment is None),
            forall|i: int| 0 <= i < k ==> #[trigger] node_has_conn(r@, i),
            forall|i: int| 0 <= i < k ==> #[trigger] node_lengths_ok(r@, i),
            forall|i: int|
                0 <= i < k ==> (#[trigger] r@[i]).connection.unwrap()@.len()
                    == neighbors@[i]@.len(),
            forall|i: int, j2: int|
                #![trigger r@[i].connection.unwrap()@[j2]]
                0 <= i < k && 0 <= j2 < r@[i].connection.unwrap()@.len()
                    ==> r@[i].connection.unwrap()@[j2] == positions@[neighbors@[i]@[j2] as int],
            forall|i: int, j2: int|
                #![trigger r@[i].connection_material.unwrap()@[j2]]
                0 <= i < k && 0 <= j2 < r@[i].connection.unwrap()@.len()
                    ==> r@[i].connection_material.unwrap()@[j2] == stick_material,
            forall|i: int, j2: int|
                #![trigger r@[i].connection_mesh.unwrap()@[j2]]
                0 <= i < k && 0 <= j2 < r@[i].connection.unwrap()@.len()
                    ==> r@[i].connection_mesh.unwrap()@[j2] == MeshType::Cuboid,
            forall|i: int, j2: int|
                #![trigger r@[i].connection_size.unwrap()@[j2]]
                0 <= i < k && 0 <= j2 < r@[i].connection.unwrap()@.len()
                    ==> r@[i].connection_size.unwrap()@[j2] == stick_size,
            forall|i: int, j2: int|
                #![trigger r@[i].connection_scale.unwrap()@[j2]]
                0 <= i < k && 0 <= j2 < r@[i].connection.unwrap()@.len()
                    ==> r@[i].connection_scale.unwrap()@[j2] == unit_scale(),
        decreases n - k,
    {
        let neigh: &Vec<usize> = &neighbors[k];
        let m: usize = neigh.len();
        let mut conn: Vec<Vec3> = Vec::new();
        let mut mats: Vec<MaterialType> = Vec::new();
        let mut meshes: Vec<MeshType> = Vec::new();
        let mut sizes: Vec<i64> = Vec::new();
        let mut scales: Vec<Vec3> = Vec::new();
        let mut j: usize = 0;
        while j < m
            invariant
                j <= m,
                m == neigh@.len(),
                n == positions@.len(),
                k < n,
                neigh == neighbors@[k as int],
                n == neighbors@.len(),
                forall|jj: int| 0 <= jj < m ==> (#[trigger] neigh@[jj]) < n,
                conn@.len() == j,
                mats@.len() == j,
                meshes@.len() == j,
                sizes@.len() == j,
                scales@.len() == j,
                forall|jj: int|
                    0 <= jj < j ==> #[trigger] conn@[jj] == positions@[neigh@[jj] as int],
                forall|jj: int| 0 <= jj < j ==> #[trigger] mats@[jj] == stick_material,
                forall|jj: int| 0 <= jj < j ==> #[trigger] meshes@[jj] == MeshType::Cuboid,
                forall|jj: int| 0 <= jj < j ==> #[trigger] sizes@[jj] == stick_size,
                forall|jj: int| 0 <= jj < j ==> #[trigger] scales@[jj] == unit_scale(),
                forall|i: int|
                    0 <= i < n ==> (#[trigger] positions@[i]).in_bound(PART_BOUND as int),
        decreases m - j,
        {
            conn.push(positions[neigh[j]]);
            mats.push(stick_material);
            meshes.push(MeshType::Cuboid);
            sizes.push(stick_size);
            scales.push(Vec3 { x: SCALE, y: SCALE, z: SCALE });
            j = j + 1;
        }
        let node_material: MaterialType = if locked[k] {
            locked_material
        } else {
            point_material
        };
        let node = SpawnNode {
            point: Point::new(positions[k], positions[k], locked[k]),
            connection: Some(conn),
            point_material: node_material,
            connection_material: Some(mats),
            point_mesh: MeshType::Sphere,
            connection_mesh: Some(meshes),
            point_size,
            connection_size: Some(sizes),
            attachment: None,
            point_scale: Vec3 { x: SCALE, y: SCALE, z: SCALE },
            connection_scale: Some(scales),
        };
        let ghost r_pre: Seq<SpawnNode> = r@;
        r.push(node);
        proof {
            assert forall|i: int| 0 <= i < k + 1 implies #[trigger] node_has_conn(r@, i) by {
                if i < k {
                    assert(r@[i] == r_pre[i]);
                    assert(node_has_conn(r_pre, i));
                } else {
                    assert(r@[i] == node);
                }
            }
            assert forall|i: int| 0 <= i < k + 1 implies #[trigger] node_lengths_ok(r@, i) by {
                if i < k {
                    assert(r@[i] == r_pre[i]);
                    assert(node_lengths_ok(r_pre, i));
                    assert(conn_of(r@, i) == conn_of(r_pre, i));
                    assert(cmat_of(r@, i) == cmat_of(r_pre, i));
                    assert(cmesh_of(r@, i) == cmesh_of(r_pre, i));
                    assert(csize_of(r@, i) == csize_of(r_pre, i));
                } else {
                    assert(r@[i] == node);
                    assert(conn_of(r@, i).len() == m);
                    assert(cmat_of(r@, i).len() == m);
                    assert(cmesh_of(r@, i).len() == m);
                    assert(csize_of(r@, i).len() == m);
                    assert(r@[i].connection_scale.unwrap()@.len() == m);
                }
            }
            assert forall|i: int|
                0 <= i < k + 1 implies (#[trigger] r@[i]).connection.unwrap()@.len()
                    == neighbors@[i]@.len() by {
                if i < k {
                    assert(r@[i] == r_pre[i]);
                    assert(r_pre[i].connection.unwrap()@.len() == neighbors@[i]@.len());
                } else {
                    assert(r@[i] == node);
                }
            }
            assert forall|i: int, j2: int|
                #![trigger r@[i].connection.unwrap()@[j2]]
                0 <= i < k + 1 && 0 <= j2 < r@[i].connection.unwrap()@.len()
                    implies r@[i].connection.unwrap()@[j2]
                    == positions@[neighbors@[i]@[j2] as int] by {
                if i < k {
                    assert(r@[i] == r_pre[i]);
                    assert(r_pre[i].connection.unwrap()@[j2]
                        == positions@[neighbors@[i]@[j2] as int]);
                } else {
                    assert(r@[i].connection.unwrap()@[j2] == conn@[j2]);
                }
            }
            assert forall|i: int, j2: int|
                #![trigger r@[i].connection_material.unwrap()@[j2]]
                0 <= i < k + 1 && 0 <= j2 < r@[i].connection.unwrap()@.len()
                    implies r@[i].connection_material.unwrap()@[j2] == stick_material by {
                if i < k {
                    assert(r@[i] == r_pre[i]);
                    assert(0 <= j2 < r_pre[i].connection.unwrap()@.len());
                    assert(r_pre[i].connection_material.unwrap()@[j2] == stick_material);
                } else {
                    assert(r@[i] == node);
                    assert(r@[i].connection_material.unwrap()@[j2] == mats@[j2]);
                }
            }
            assert forall|i: int, j2: int|
                #![trigger r@[i].connection_mesh.unwrap()@[j2]]
                0 <= i < k + 1 && 0 <= j2 < r@[i].connection.unwrap()@.len()
                    implies r@[i].connection_mesh.unwrap()@[j2] == MeshType::Cuboid by {
                if i < k {
                    assert(r@[i] == r_pre[i]);
                    assert(0 <= j2 < r_pre[i].connection.unwrap()@.len());
                    assert(r_pre[i].connection_mesh.unwrap()@[j2] == MeshType::Cuboid);
                } else {
                    assert(r@[i] == node);
                    assert(r@[i].connection_mesh.unwrap()@[j2] == meshes@[j2]);
                }
            }
            assert forall|i: int, j2: int|
                #![trigger r@[i].connection_size.unwrap()@[j2]]
                0 <= i < k + 1 && 0 <= j2 < r@[i].connection.unwrap()@.len()
                    implies r@[i].connection_size.unwrap()@[j2] == stick_size by {
                if i < k {
                    assert(r@[i] == r_pre[i]);
                    assert(0 <= j2 < r_pre[i].connection.unwrap()@.len());
                    assert(r_pre[i].connection_size.unwrap()@[j2] == stick_size);
                } else {
                    assert(r@[i] == node);
                    assert(r@[i].connection_size.unwrap()@[j2] == sizes@[j2]);
                }
            }
            assert forall|i: int, j2: int|
                #![trigger r@[i].connection_scale.unwrap()@[j2]]
                0 <= i < k + 1 && 0 <= j2 < r@[i].connection.unwrap()@.len()
                    implies r@[i].connection_scale.unwrap()@[j2] == unit_scale() by {
                if i < k {
                    assert(r@[i] == r_pre[i]);
                    assert(0 <= j2 < r_pre[i].connection.unwrap()@.len());
                    assert(r_pre[i].connection_scale.unwrap()@[j2] == unit_scale());
                } else {
                    assert(r@[i] == node);
                    assert(r@[i].connection_scale.unwrap()@[j2] == scales@[j2]);
                }
            }
        }
        k = k + 1;
    }
    proof {
        assert forall|kk: int|
            0 <= kk < r@.len() implies #[trigger] conn_of(r@, kk).len()
                == neighbors@[kk]@.len() by {
            assert(r@[kk].connection.unwrap()@.len() == neighbors@[kk]@.len());
        }
        assert forall|kk: int, j: int|
            #![trigger conn_of(r@, kk)[j]]
            0 <= kk < r@.len() && 0 <= j < conn_of(r@, kk).len() implies conn_of(r@, kk)[j]
                == positions@[neighbors@[kk]@[j] as int] by {
            assert(r@[kk].connection.unwrap()@[j] == positions@[neighbors@[kk]@[j] as int]);
        }
        assert forall|kk: int, j: int|
            #![trigger cmat_of(r@, kk)[j]]
            0 <= kk < r@.len() && 0 <= j < conn_of(r@, kk).len() implies cmat_of(r@, kk)[j]
                == stick_material && cmesh_of(r@, kk)[j] == MeshType::Cuboid && csize_of(
                r@,
                kk,
            )[j] == stick_size && cscale_of(r@, kk, j) == unit_scale() by {
            assert(0 <= j < r@[kk].connection.unwrap()@.len());
            assert(r@[kk].connection_material.unwrap()@[j] == stick_material);
            assert(r@[kk].connection_mesh.unwrap()@[j] == MeshType::Cuboid);
            assert(r@[kk].connection_size.unwrap()@[j] == stick_size);
            assert(r@[kk].connection_scale.unwrap()@[j] == unit_scale());
        }
        assert forall|kk: int|
            0 <= kk < r@.len() implies (#[trigger] r@[kk]).point_material == (
            if r@[kk].point.locked {
                locked_material
            } else {
                point_material
            }) && r@[kk].point_mesh == MeshType::Sphere && r@[kk].point_size == point_size
                && r@[kk].point_scale == unit_scale() && (r@[kk].attachment is None) by {
            assert(r@[kk].point.locked == locked@[kk]);
        }
        assert forall|kk: int, j: int|
            0 <= kk < r@.len() && node_has_conn(r@, kk) && node_lengths_ok(r@, kk) && 0 <= j
                < conn_of(r@, kk).len() implies has_pos(
            r@,
            #[trigger] conn_of(r@, kk)[j],
        ) by {
            assert(conn_of(r@, kk)[j] == r@[kk].connection.unwrap()@[j]);
            assert(r@[kk].connection.unwrap()@[j] == positions@[neighbors@[kk]@[j] as int]);
            let m = neighbors@[kk]@[j] as int;
            assert(neighbors@[kk]@[j] < n);
            assert((r@[m]).point.position == positions@[m]);
        }
    }
    r
}

/// Where the next rope point after `prev` sits: one spacing along the drop
/// angle, clamped a margin inside the x walls (the overhang is added to
/// the height instead).
pub open spec fn rope_next(prev: Vec3, half_w: int) -> Vec3 {
    let nx = prev.x - ROPE_STEP_X;
    let ny = prev.y + ROPE_STEP_Y;
    if nx <= -half_w {
        let cx = -half_w + WALL_MARGIN;
        Vec3 { x: cx as i64, y: (ny + (cx - nx)) as i64, z: prev.z }
    } else if nx >= half_w {
        let cx = half_w - WALL_MARGIN;
        Vec3 { x: cx as i64, y: (ny + (nx - cx)) as i64, z: prev.z }
    } else {
        Vec3 { x: nx as i64, y: ny as i64, z: prev.z }
    }
}

/// The chain of rope points from an anchor position.
pub open spec fn rope_point(start: Vec3, half_w: int, k: int) -> Vec3
    decreases k,
{
    if k <= 0 {
        start
    } else {
        rope_next(rope_point(start, half_w, k - 1), half_w)
    }
}

/// The positions of a rope: the anchor plus `ROPE_STICKS` chained points,
/// each one spacing along the drop angle, clamped inside the x walls.
pub fn rope_positions(start: Vec3, half_w: i64) -> (r: Vec<Vec3>)
    requires
        1_000 <= half_w <= 1_000_000_000_000,
        start.in_bound(1_000_000_000_000),
    ensures
        r@.len() == ROPE_STICKS + 1,
        forall|k: int| 0 <= k <= ROPE_STICKS ==> #[trigger] r@[k] == rope_point(
            start,
            half_w as int,
            k,
        ),
        forall|k: int|
            0 <= k <= ROPE_STICKS ==> (#[trigger] r@[k]).in_bound(PART_BOUND as int),
        forall|k: int| 1 <= k <= ROPE_STICKS ==> -half_w < (#[trigger] r@[k]).x < half_w,
{
    let mut r: Vec<Vec3> = Vec::new();
    r.push(start);
    let mut k: usize = 1;
    while k <= ROPE_STICKS
        invariant
            1 <= k <= ROPE_STICKS + 1,
            r@.len() == k,
            1_000 <= half_w <= 1_000_000_000_000,
            start.in_bound(1_000_000_000_000),
            r@[0] == start,
            forall|kk: int| 0 <= kk < k ==> #[trigger] r@[kk] == rope_point(
                start,
                half_w as int,
                kk,
            ),
            forall|kk: int|
                0 <= kk < k ==> -2_000_000_000_000 <= (#[trigger] r@[kk]).x
                    <= 1_000_000_000_000,
            forall|kk: int|
                0 <= kk < k ==> -1_000_000_000_000 <= (#[trigger] r@[kk]).y
                    <= 3_100_000_000_000 + kk * 36_000,
            forall|kk: int| 0 <= kk < k ==> (#[trigger] r@[kk]).z == start.z,
            forall|kk: int| 1 <= kk < k ==> -half_w < (#[trigger] r@[kk]).x < half_w,
        decreases ROPE_STICKS + 1 - k,
    {
        let prev: Vec3 = r[k - 1];
        let nx: i64 = prev.x - ROPE_STEP_X;
        let ny: i64 = prev.y + ROPE_STEP_Y;
        let next: Vec3 = if nx <= -half_w {
            let cx: i64 = -half_w + WALL_MARGIN;
            Vec3 { x: cx, y: ny + (cx - nx), z: prev.z }
        } else if nx >= half_w {
            let cx: i64 = half_w - WALL_MARGIN;
            Vec3 { x: cx, y: ny + (nx - cx), z: prev.z }
        } else {
            Vec3 { x: nx, y: ny, z: prev.z }
        };
        r.push(next);
        k = k + 1;
    }
    r
}

/// Unit visual scale: one `SCALE` per axis.
pub open spec fn unit_scale() -> Vec3 {
    Vec3 { x: SCALE as i64, y: SCALE as i64, z: SCALE as i64 }
}

/// The shared styling every built-in geometry promises: sphere points of
/// the given size (locked ones in the locked material), cuboid sticks of
/// the given thickness at unit scale, one descriptor per declared
/// neighbour, and no attachment tags.
pub open spec fn network_styled(
    r: Seq<SpawnNode>,
    point_material: MaterialType,
    locked_material: MaterialType,
    stick_material: MaterialType,
    point_size: int,
    stick_size: int,
) -> bool {
    &&& forall|k: int|
        0 <= k < r.len() ==> (#[trigger] r[k]).point_material == (if r[k].point.locked {
            locked_material
        } else {
            point_material
        }) && r[k].point_mesh == MeshType::Sphere && r[k].point_size == point_size
            && r[k].point_scale == unit_scale()
            && (r[k].attachment is None)
    &&& forall|k: int| 0 <= k < r.len() ==> #[trigger] node_has_conn(r, k)
    &&& forall|k: int| 0 <= k < r.len() ==> #[trigger] node_lengths_ok(r, k)
    &&& forall|k: int, j: int|
        #![trigger cmat_of(r, k)[j]]
        0 <= k < r.len() && 0 <= j < conn_of(r, k).len() ==> cmat_of(r, k)[j] == stick_material
            && cmesh_of(r, k)[j] == MeshType::Cuboid && csize_of(r, k)[j] == stick_size
            && cscale_of(r, k, j) == (Vec3 { x: SCALE as i64, y: SCALE as i64, z: SCALE as i64 })
}

/// Everything the rope generator promises of its network, beyond the
/// shared styling: the anchor chain of positions, the lock on the anchor
/// alone, and the symmetric linear-chain adjacency.
pub open spec fn rope_network(
    r: Seq<SpawnNode>,
    position: Vec3,
    half_w: int,
    point_material: MaterialType,
    locked_material: MaterialType,
    stick_material: MaterialType,
    point_size: int,
    stick_size: int,
) -> bool {
    &&& r.len() == ROPE_STICKS + 1
    &&& forall|k: int|
        0 <= k <= ROPE_STICKS ==> (#[trigger] r[k]).point.position == rope_point(
            position,
            half_w,
            k,
        ) && r[k].point.prev_position == r[k].point.position && r[k].point.locked == (k == 0)
            && r[k].point.wf()
    &&& network_styled(
        r,
        point_material,
        locked_material,
        stick_material,
        point_size,
        stick_size,
    )
    &&& conn_of(r, 0).len() == 1
    &&& conn_of(r, 0)[0] == rope_point(position, half_w, 1)
    &&& forall|k: int|
        1 <= k < ROPE_STICKS ==> #[trigger] conn_of(r, k).len() == 2 && conn_of(r, k)[0]
            == rope_point(position, half_w, k - 1) && conn_of(r, k)[1] == rope_point(
            position,
            half_w,
            k + 1,
        )
    &&& conn_of(r, ROPE_STICKS as int).len() == 1
    &&& conn_of(r, ROPE_STICKS as int)[0] == rope_point(position, half_w, ROPE_STICKS - 1)
    &&& batch_lengths_ok(r)
    &&& batch_neighbors_ok(r)
}

/// A rope: a locked anchor at `position` (drawn with the locked material)
/// and `ROPE_STICKS` chained free points hanging along the drop angle,
/// each declaring its chain neighbours, as a spawnable network.
pub fn spawn_rope(
    point_material: MaterialType,
    locked_material: MaterialType,
    stick_material: MaterialType,
    half_w: i64,
    position: Vec3,
    point_size: i64,
    stick_size: i64,
) -> (r: Vec<SpawnNode>)
    requires
        1_000 <= half_w <= 1_000_000_000_000,
        position.in_bound(1_000_000_000_000),
    ensures
        rope_network(
            r@,
            position,
            half_w as int,
            point_material,
            locked_material,
            stick_material,
            point_size as int,
            stick_size as int,
        ),
{
    let positions: Vec<Vec3> = rope_positions(position, half_w);
    let mut locked: Vec<bool> = Vec::new();
    locked.push(true);
    let mut k: usize = 1;
    while k <= ROPE_STICKS
        invariant
            1 <= k <= ROPE_STICKS + 1,
            locked@.len() == k,
            locked@[0] == true,
            forall|kk: int| 1 <= kk < k ==> (#[trigger] locked@[kk]) == false,
        decreases ROPE_STICKS + 1 - k,
    {
        locked.push(false);
        k = k + 1;
    }
    let mut neighbors: Vec<Vec<usize>> = Vec::new();
    let mut first: Vec<usize> = Vec::new();
    first.push(1);
    proof {
        assert(first@ =~= seq![1usize]);
    }
    neighbors.push(first);
    let mut k: usize = 1;
    while k < ROPE_STICKS
        invariant
            1 <= k <= ROPE_STICKS,
            neighbors@.len() == k,
            neighbors@[0]@ == seq![1usize],
            forall|kk: int|
                1 <= kk < k ==> (#[trigger] neighbors@[kk])@ == seq![
                    (kk - 1) as usize,
                    (kk + 1) as usize,
                ],
        decreases ROPE_STICKS - k,
    {
        let mut pair: Vec<usize> = Vec::new();
        pair.push(k - 1);
        pair.push(k + 1);
        proof {
            assert(pair@ =~= seq![(k - 1) as usize, (k + 1) as usize]);
        }
        neighbors.push(pair);
        k = k + 1;
    }
    let mut last: Vec<usize> = Vec::new();
    last.push(ROPE_STICKS - 1);
    proof {
        assert(last@ =~= seq![(ROPE_STICKS - 1) as usize]);
    }
    neighbors.push(last);
    let r = build_network(
        &positions,
        &locked,
        &neighbors,
        point_material,
        locked_material,
        stick_material,
        point_size,
        stick_size,
    );
    proof {
        assert(conn_of(r@, 0)[0] == positions@[1]);
        assert(conn_of(r@, ROPE_STICKS as int)[0] == positions@[ROPE_STICKS - 1]);
        assert forall|kk: int|
            1 <= kk < ROPE_STICKS implies #[trigger] conn_of(r@, kk).len() == 2 && conn_of(
            r@,
            kk,
        )[0] == rope_point(position, half_w as int, kk - 1) && conn_of(r@, kk)[1] == rope_point(
            position,
            half_w as int,
            kk + 1,
        ) by {
            assert(conn_of(r@, kk)[0] == positions@[neighbors@[kk]@[0] as int]);
            assert(conn_of(r@, kk)[1] == positions@[neighbors@[kk]@[1] as int]);
        }
    }
    r
}


/// Everything the square generator promises: four unlocked corners
/// around `position`, the perimeter plus the corner-1-to-corner-3
/// diagonal declared symmetrically, and the shared styling.
pub open spec fn square_corner(position: Vec3, k: int) -> Vec3 {
    if k == 0 {
        Vec3 {
            x: (position.x - BODY_HALF_SIZE) as i64,
            y: (position.y - BODY_HALF_SIZE) as i64,
            z: position.z,
        }
    } else if k == 1 {
        Vec3 {
            x: (position.x + BODY_HALF_SIZE) as i64,
            y: (position.y - BODY_HALF_SIZE) as i64,
            z: position.z,
        }
    } else if k == 2 {
        Vec3 {
            x: (position.x + BODY_HALF_SIZE) as i64,
            y: (position.y + BODY_HALF_SIZE) as i64,
            z: position.z,
        }
    } else {
        Vec3 {
            x: (position.x - BODY_HALF_SIZE) as i64,
            y: (position.y + BODY_HALF_SIZE) as i64,
            z: position.z,
        }
    }
}

/// The neighbour indices each square corner declares: the perimeter edges
/// plus the 1-3 diagonal, both directions of every edge, in edge order.
pub open spec fn square_neighbors(k: int) -> Seq<int> {
    if k == 0 {
        seq![1int, 3int]
    } else if k == 1 {
        seq![0int, 2int, 3int]
    } else if k == 2 {
        seq![1int, 3int]
    } else {
        seq![2int, 0int, 1int]
    }
}

pub open spec fn square_network(
    r: Seq<SpawnNode>,
    position: Vec3,
    point_material: MaterialType,
    locked_material: MaterialType,
    stick_material: MaterialType,
    point_size: int,
    stick_size: int,
) -> bool {
    &&& r.len() == 4
    &&& forall|k: int|
        0 <= k < 4 ==> (#[trigger] r[k]).point.position == square_corner(position, k)
            && r[k].point.prev_position == r[k].point.position && !r[k].point.locked
            && r[k].point.wf()
    &&& network_styled(
        r,
        point_material,
        locked_material,
        stick_material,
        point_size,
        stick_size,
    )
    &&& forall|k: int|
        0 <= k < 4 ==> #[trigger] conn_of(r, k).len() == square_neighbors(k).len()
    &&& forall|k: int, j: int|
        #![trigger conn_of(r, k)[j]]
        0 <= k < 4 && 0 <= j < conn_of(r, k).len() ==> conn_of(r, k)[j] == square_corner(
            position,
            square_neighbors(k)[j],
        )
    &&& batch_lengths_ok(r)
    &&& batch_neighbors_ok(r)
}

/// A square: four corners around `position` in the x-y plane, its
/// perimeter and one diagonal, declared symmetrically, as a spawnable
/// network.
pub fn spawn_square(
    point_material: MaterialType,
    locked_material: MaterialType,
    stick_material: MaterialType,
    position: Vec3,
    point_size: i64,
    stick_size: i64,
) -> (r: Vec<SpawnNode>)
    requires
        position.in_bound(1_000_000_000_000),
    ensures
        square_network(
            r@,
            position,
            point_material,
            locked_material,
            stick_material,
            point_size as int,
            stick_size as int,
        ),
{
    let mut positions: Vec<Vec3> = Vec::new();
    positions.push(
        Vec3 { x: position.x - BODY_HALF_SIZE, y: position.y - BODY_HALF_SIZE, z: position.z },
    );
    positions.push(
        Vec3 { x: position.x + BODY_HALF_SIZE, y: position.y - BODY_HALF_SIZE, z: position.z },
    );
    positions.push(
        Vec3 { x: position.x + BODY_HALF_SIZE, y: position.y + BODY_HALF_SIZE, z: position.z },
    );
    positions.push(
        Vec3 { x: position.x - BODY_HALF_SIZE, y: position.y + BODY_HALF_SIZE, z: position.z },
    );
    let mut locked: Vec<bool> = Vec::new();
    locked.push(false);
    locked.push(false);
    locked.push(false);
    locked.push(false);
    let mut neighbors: Vec<Vec<usize>> = Vec::new();
    let mut n0: Vec<usize> = Vec::new();
    n0.push(1);
    n0.push(3);
    neighbors.push(n0);
    let mut n1: Vec<usize> = Vec::new();
    n1.push(0);
    n1.push(2);
    n1.push(3);
    neighbors.push(n1);
    let mut n2: Vec<usize> = Vec::new();
    n2.push(1);
    n2.push(3);
    neighbors.push(n2);
    let mut n3: Vec<usize> = Vec::new();
    n3.push(2);
    n3.push(0);
    n3.push(1);
    neighbors.push(n3);
    let r = build_network(
        &positions,
        &locked,
        &neighbors,
        point_material,
        locked_material,
        stick_material,
        point_size,
        stick_size,
    );
    proof {
        assert forall|k: int, j: int|
            #![trigger conn_of(r@, k)[j]]
            0 <= k < 4 && 0 <= j < conn_of(r@, k).len() implies conn_of(r@, k)[j]
                == square_corner(position, square_neighbors(k)[j]) by {
            assert(conn_of(r@, k)[j] == positions@[neighbors@[k]@[j] as int]);
        }
    }
    r
}

/// The position of cube corner `k` around `center` (shifted one
/// half-size toward negative z): the bottom face counter-clockwise, then
/// the top face.
pub open spec fn cube_corner(center: Vec3, k: int) -> Vec3 {
    let sx: int = if k == 1 || k == 2 || k == 5 || k == 6 {
        BODY_HALF_SIZE as int
    } else {
        -BODY_HALF_SIZE as int
    };
    let sy: int = if k == 2 || k == 3 || k == 6 || k == 7 {
        BODY_HALF_SIZE as int
    } else {
        -BODY_HALF_SIZE as int
    };
    let sz: int = if k >= 4 {
        0int
    } else {
        -2 * BODY_HALF_SIZE
    };
    Vec3 { x: (center.x + sx) as i64, y: (center.y + sy) as i64, z: (center.z + sz) as i64 }
}

/// The neighbour indices each cube corner declares: both directions of the
/// twelve cube edges plus one diagonal per face, in edge order.
pub open spec fn cube_neighbors(k: int) -> Seq<int> {
    if k == 0 {
        seq![1int, 3int, 4int]
    } else if k == 1 {
        seq![0int, 2int, 5int, 3int, 4int]
    } else if k == 2 {
        seq![1int, 3int, 6int, 5int, 7int]
    } else if k == 3 {
        seq![2int, 0int, 7int, 1int, 4int]
    } else if k == 4 {
        seq![5int, 7int, 0int, 3int, 1int]
    } else if k == 5 {
        seq![4int, 6int, 1int, 7int, 2int]
    } else if k == 6 {
        seq![5int, 7int, 2int]
    } else {
        seq![6int, 4int, 3int, 5int, 2int]
    }
}

pub open spec fn cube_network(
    r: Seq<SpawnNode>,
    center: Vec3,
    point_material: MaterialType,
    locked_material: MaterialType,
    stick_material: MaterialType,
    point_size: int,
    stick_size: int,
) -> bool {
    &&& r.len() == 8
    &&& forall|k: int|
        0 <= k < 8 ==> (#[trigger] r[k]).point.position == cube_corner(center, k)
            && r[k].point.prev_position == r[k].point.position && !r[k].point.locked
            && r[k].point.wf()
    &&& network_styled(
        r,
        point_material,
        locked_material,
        stick_material,
        point_size,
        stick_size,
    )
    &&& forall|k: int| 0 <= k < 8 ==> #[trigger] conn_of(r, k).len() == cube_neighbors(k).len()
    &&& forall|k: int, j: int|
        #![trigger conn_of(r, k)[j]]
        0 <= k < 8 && 0 <= j < conn_of(r, k).len() ==> conn_of(r, k)[j] == cube_corner(
            center,
            cube_neighbors(k)[j],
        )
    &&& batch_lengths_ok(r)
    &&& batch_neighbors_ok(r)
}

/// A cube: eight corners around `center` (shifted one half-size toward
/// negative z), its twelve edges and one diagonal per face, declared
/// symmetrically, as a spawnable network.
pub fn spawn_cube(
    point_material: MaterialType,
    locked_material: MaterialType,
    stick_material: MaterialType,
    center: Vec3,
    point_size: i64,
    stick_size: i64,
) -> (r: Vec<SpawnNode>)
    requires
        center.in_bound(1_000_000_000_000),
    ensures
        cube_network(
            r@,
            center,
            point_material,
            locked_material,
            stick_material,
            point_size as int,
            stick_size as int,
        ),
{
    let h: i64 = BODY_HALF_SIZE;
    let mut positions: Vec<Vec3> = Vec::new();
    positions.push(Vec3 { x: center.x - h, y: center.y - h, z: center.z - 2 * h });
    positions.push(Vec3 { x: center.x + h, y: center.y - h, z: center.z - 2 * h });
    positions.push(Vec3 { x: center.x + h, y: center.y + h, z: center.z - 2 * h });
    positions.push(Vec3 { x: center.x - h, y: center.y + h, z: center.z - 2 * h });
    positions.push(Vec3 { x: center.x - h, y: center.y - h, z: center.z });
    positions.push(Vec3 { x: center.x + h, y: center.y - h, z: center.z });
    positions.push(Vec3 { x: center.x + h, y: center.y + h, z: center.z });
    positions.push(Vec3 { x: center.x - h, y: center.y + h, z: center.z });
    proof {
        assert forall|k: int| 0 <= k < 8 implies #[trigger] positions@[k] == cube_corner(
            center,
            k,
        ) by {}
    }
    let mut locked: Vec<bool> = Vec::new();
    let mut k: usize = 0;
    while k < 8
        invariant
            k <= 8,
            locked@.len() == k,
            forall|i: int| 0 <= i < k ==> (#[trigger] locked@[i]) == false,
        decreases 8 - k,
    {
        locked.push(false);
        k = k + 1;
    }
    let mut neighbors: Vec<Vec<usize>> = Vec::new();
    let mut n0: Vec<usize> = Vec::new();
    n0.push(1);
    n0.push(3);
    n0.push(4);
    neighbors.push(n0);
    let mut n1: Vec<usize> = Vec::new();
    n1.push(0);
    n1.push(2);
    n1.push(5);
    n1.push(3);
    n1.push(4);
    neighbors.push(n1);
    let mut n2: Vec<usize> = Vec::new();
    n2.push(1);
    n2.push(3);
    n2.push(6);
    n2.push(5);
    n2.push(7);
    neighbors.push(n2);
    let mut n3: Vec<usize> = Vec::new();
    n3.push(2);
    n3.push(0);
    n3.push(7);
    n3.push(1);
    n3.push(4);
    neighbors.push(n3);
    let mut n4: Vec<usize> = Vec::new();
    n4.push(5);
    n4.push(7);
    n4.push(0);
    n4.push(3);
    n4.push(1);
    neighbors.push(n4);
    let mut n5: Vec<usize> = Vec::new();
    n5.push(4);
    n5.push(6);
    n5.push(1);
    n5.push(7);
    n5.push(2);
    neighbors.push(n5);
    let mut n6: Vec<usize> = Vec::new();
    n6.push(5);
    n6.push(7);
    n6.push(2);
    neighbors.push(n6);
    let mut n7: Vec<usize> = Vec::new();
    n7.push(6);
    n7.push(4);
    n7.push(3);
    n7.push(5);
    n7.push(2);
    neighbors.push(n7);
    let r = build_network(
        &positions,
        &locked,
        &neighbors,
        point_material,
        locked_material,
        stick_material,
        point_size,
        stick_size,
    );
    proof {
        assert forall|k: int, j: int|
            #![trigger conn_of(r@, k)[j]]
            0 <= k < 8 && 0 <= j < conn_of(r@, k).len() implies conn_of(r@, k)[j] == cube_corner(
            center,
            cube_neighbors(k)[j],
        ) by {
            assert(conn_of(r@, k)[j] == positions@[neighbors@[k]@[j] as int]);
        }
    }
    r
}

/// The position of cloth grid point (`row`, `col`) for the given grid
/// size: columns run rightward from just inside the left bound, rows
/// downward from just above the floor offset.
pub open spec fn cloth_point(width: int, rows: int, cols: int, row: int, col: int) -> Vec3 {
    let initial_x = tdiv(width - CLOTH_GAP * cols, 2) - CLOTH_GAP - tdiv(width, 2);
    let initial_y = CLOTH_GAP * rows + CLOTH_FLOOR_OFFSET - CLOTH_BAR_HEIGHT;
    Vec3 {
        x: (initial_x + CLOTH_GAP * (col + 1)) as i64,
        y: (initial_y - CLOTH_GAP * row) as i64,
        z: 0i64,
    }
}

/// The neighbour indices cloth grid point `k` declares, in the order its
/// symmetric edges are built: the point above, to the left, to the right,
/// and below, where each exists.
pub open spec fn cloth_neighbors(rows: int, cols: int, k: int) -> Seq<int> {
    let row = k / cols;
    let col = k % cols;
    (if row > 0 {
        seq![k - cols]
    } else {
        Seq::<int>::empty()
    }) + (if col > 0 {
        seq![k - 1]
    } else {
        Seq::<int>::empty()
    }) + (if col + 1 < cols {
        seq![k + 1]
    } else {
        Seq::<int>::empty()
    }) + (if row + 1 < rows {
        seq![k + cols]
    } else {
        Seq::<int>::empty()
    })
}

/// Everything the cloth generator promises: the full grid of unlocked
/// points, each tied symmetrically to its horizontal and vertical
/// neighbours, and the shared styling.
pub open spec fn cloth_network(
    r: Seq<SpawnNode>,
    width: int,
    rows: int,
    cols: int,
    point_material: MaterialType,
    locked_material: MaterialType,
    stick_material: MaterialType,
    point_size: int,
    stick_size: int,
) -> bool {
    &&& r.len() == rows * cols
    &&& forall|k: int|
        0 <= k < r.len() ==> (#[trigger] r[k]).point.position == cloth_point(
            width,
            rows,
            cols,
            k / cols,
            k % cols,
        ) && r[k].point.prev_position == r[k].point.position && !r[k].point.locked
            && r[k].point.wf()
    &&& network_styled(
        r,
        point_material,
        locked_material,
        stick_material,
        point_size,
        stick_size,
    )
    &&& forall|k: int|
        0 <= k < r.len() ==> #[trigger] conn_of(r, k).len() == cloth_neighbors(
            rows,
            cols,
            k,
        ).len()
    &&& forall|k: int, j: int|
        #![trigger conn_of(r, k)[j]]
        0 <= k < r.len() && 0 <= j < conn_of(r, k).len() ==> conn_of(r, k)[j] == cloth_point(
            width,
            rows,
            cols,
            cloth_neighbors(rows, cols, k)[j] / cols,
            cloth_neighbors(rows, cols, k)[j] % cols,
        )
    &&& batch_lengths_ok(r)
    &&& batch_neighbors_ok(r)
}

/// A cloth: a grid filling the window, each point tied symmetrically to
/// its horizontal and vertical neighbours, as a spawnable network.
pub fn spawn_cloth(
    point_material: MaterialType,
    locked_material: MaterialType,
    stick_material: MaterialType,
    width: i64,
    height: i64,
    point_size: i64,
    stick_size: i64,
) -> (r: Vec<SpawnNode>)
    requires
        0 <= width <= 1_000_000_000,
        0 <= height <= 1_000_000_000,
    ensures
        ({
            let rows: int = if height >= CLOTH_FLOOR_OFFSET + CLOTH_BAR_HEIGHT {
                (height - CLOTH_FLOOR_OFFSET - CLOTH_BAR_HEIGHT) as int / (CLOTH_GAP as int)
            } else {
                0int
            };
            let cols: int = (width as int) / (CLOTH_GAP as int);
            cloth_network(
                r@,
                width as int,
                rows,
                cols,
                point_material,
                locked_material,
                stick_material,
                point_size as int,
                stick_size as int,
            )
        }),
{
    let cols: usize = (width / CLOTH_GAP) as usize;
    let rem: i64 = height - CLOTH_FLOOR_OFFSET - CLOTH_BAR_HEIGHT;
    let rows: usize = if rem >= 0 {
        (rem / CLOTH_GAP) as usize
    } else {
        0
    };
    proof {
        assert(cols <= 10_000 && rows <= 10_000) by {
            vstd::arithmetic::div_mod::lemma_div_nonincreasing(width as int, CLOTH_GAP as int);
            if rem >= 0 {
                vstd::arithmetic::div_mod::lemma_div_nonincreasing(rem as int, CLOTH_GAP as int);
                vstd::arithmetic::div_mod::lemma_div_is_ordered(
                    rem as int,
                    1_000_000_000,
                    CLOTH_GAP as int,
                );
            }
            vstd::arithmetic::div_mod::lemma_div_is_ordered(
                width as int,
                1_000_000_000,
                CLOTH_GAP as int,
            );
            assert(1_000_000_000int / 100_000int == 10_000) by (nonlinear_arith);
            vstd::arithmetic::div_mod::lemma_div_pos_is_pos(width as int, CLOTH_GAP as int);
            if rem >= 0 {
                vstd::arithmetic::div_mod::lemma_div_pos_is_pos(rem as int, CLOTH_GAP as int);
            }
        }
    }
    let initial_x: i64 = (width - CLOTH_GAP * (cols as i64)) / 2 - CLOTH_GAP - width / 2;
    let initial_y: i64 = CLOTH_GAP * (rows as i64) + CLOTH_FLOOR_OFFSET - CLOTH_BAR_HEIGHT;
    let mut positions: Vec<Vec3> = Vec::new();
    let mut locked: Vec<bool> = Vec::new();
    let mut neighbors: Vec<Vec<usize>> = Vec::new();
    proof {
        assert(rows * cols <= 100_000_000) by (nonlinear_arith)
            requires
                rows <= 10_000,
                cols <= 10_000,
                0 <= rows,
                0 <= cols,
        ;
    }
    let n: usize = rows * cols;
    let mut row: usize = 0;
    while row < rows
        invariant
            row <= rows,
            rows <= 10_000,
            cols <= 10_000,
            n == rows * cols,
            positions@.len() == row * cols,
            locked@.len() == row * cols,
            neighbors@.len() == row * cols,
            0 <= width <= 1_000_000_000,
            initial_x == tdiv(width - CLOTH_GAP * cols, 2) - CLOTH_GAP - tdiv(width as int, 2),
            initial_y == CLOTH_GAP * rows + CLOTH_FLOOR_OFFSET - CLOTH_BAR_HEIGHT,
            forall|i: int| 0 <= i < locked@.len() ==> (#[trigger] locked@[i]) == false,
            forall|i: int|
                0 <= i < positions@.len() ==> (#[trigger] positions@[i]) == cloth_point(
                    width as int,
                    rows as int,
                    cols as int,
                    i / cols as int,
                    i % cols as int,
                ),
            forall|i: int|
                0 <= i < positions@.len() ==> (#[trigger] positions@[i]).in_bound(
                    PART_BOUND as int,
                ),
            forall|i: int|
                0 <= i < neighbors@.len() ==> (#[trigger] neighbors@[i])@.len()
                    == cloth_neighbors(rows as int, cols as int, i).len(),
            forall|i: int, j: int|
                #![trigger neighbors@[i]@[j]]
                0 <= i < neighbors@.len() && 0 <= j < neighbors@[i]@.len() ==> neighbors@[i]@[j]
                    as int == cloth_neighbors(rows as int, cols as int, i)[j]
                    && neighbors@[i]@[j] < n,
        decreases rows - row,
    {
        let mut col: usize = 0;
        while col < cols
            invariant
                col <= cols,
                row < rows,
                rows <= 10_000,
                cols <= 10_000,
                n == rows * cols,
                positions@.len() == row * cols + col,
                locked@.len() == row * cols + col,
                neighbors@.len() == row * cols + col,
                0 <= width <= 1_000_000_000,
                initial_x == tdiv(width - CLOTH_GAP * cols, 2) - CLOTH_GAP - tdiv(
                    width as int,
                    2,
                ),
                initial_y == CLOTH_GAP * rows + CLOTH_FLOOR_OFFSET - CLOTH_BAR_HEIGHT,
                forall|i: int| 0 <= i < locked@.len() ==> (#[trigger] locked@[i]) == false,
                forall|i: int|
                    0 <= i < positions@.len() ==> (#[trigger] positions@[i]) == cloth_point(
                        width as int,
                        rows as int,
                        cols as int,
                        i / cols as int,
                        i % cols as int,
                    ),
                forall|i: int|
                    0 <= i < positions@.len() ==> (#[trigger] positions@[i]).in_bound(
                        PART_BOUND as int,
                    ),
                forall|i: int|
                    0 <= i < neighbors@.len() ==> (#[trigger] neighbors@[i])@.len()
                        == cloth_neighbors(rows as int, cols as int, i).len(),
                forall|i: int, j: int|
                    #![trigger neighbors@[i]@[j]]
                    0 <= i < neighbors@.len() && 0 <= j < neighbors@[i]@.len()
                        ==> neighbors@[i]@[j] as int == cloth_neighbors(
                        rows as int,
                        cols as int,
                        i,
                    )[j] && neighbors@[i]@[j] < n,
            decreases cols - col,
        {
            proof {
                assert(row * cols + col < n && row * cols + col <= 100_010_000)
                    by (nonlinear_arith)
                    requires
                        n == rows * cols,
                        row < rows,
                        col < cols,
                        0 <= row,
                        0 <= col,
                        0 <= cols,
                        rows <= 10_000,
                        cols <= 10_000,
                ;
            }
            let idx: usize = row * cols + col;
            let x: i64 = initial_x + CLOTH_GAP * ((col as i64) + 1);
            let y: i64 = initial_y - CLOTH_GAP * (row as i64);
            positions.push(Vec3 { x, y, z: 0 });
            locked.push(false);
            let mut nlist: Vec<usize> = Vec::new();
            if row > 0 {
                proof {
                    assert(idx >= cols) by (nonlinear_arith)
                        requires
                            idx == row * cols + col,
                            row >= 1,
                            col >= 0,
                            cols >= 0,
                    ;
                }
                nlist.push(idx - cols);
            }
            if col > 0 {
                nlist.push(idx - 1);
            }
            if col + 1 < cols {
                proof {
                    assert(idx + 1 < n) by (nonlinear_arith)
                        requires
                            n == rows * cols,
                            idx == row * cols + col,
                            row < rows,
                            col + 1 < cols,
                            0 <= row,
                            0 <= col,
                            0 <= cols,
                    ;
                }
                nlist.push(idx + 1);
            }
            if row + 1 < rows {
                proof {
                    assert(idx + cols < n) by (nonlinear_arith)
                        requires
                            n == rows * cols,
                            idx == row * cols + col,
                            row + 1 < rows,
                            col < cols,
                            0 <= row,
                            0 <= col,
                            0 <= cols,
                    ;
                }
                nlist.push(idx + cols);
            }
            proof {
                vstd::arithmetic::div_mod::lemma_fundamental_div_mod_converse(
                    idx as int,
                    cols as int,
                    row as int,
                    col as int,
                );
                assert(idx as int / cols as int == row as int);
                assert(idx as int % cols as int == col as int);
                let spec_list = cloth_neighbors(rows as int, cols as int, idx as int);
                assert(nlist@.len() == spec_list.len());
                assert forall|j: int| 0 <= j < nlist@.len() implies nlist@[j] as int
                    == spec_list[j] && nlist@[j] < n by {}
            }
            neighbors.push(nlist);
            col = col + 1;
        }
        proof {
            assert((row + 1) * cols == row * cols + cols) by (nonlinear_arith);
        }
        row = row + 1;
    }
    let r = build_network(
        &positions,
        &locked,
        &neighbors,
        point_material,
        locked_material,
        stick_material,
        point_size,
        stick_size,
    );
    proof {
        assert forall|k: int, j: int|
            #![trigger conn_of(r@, k)[j]]
            0 <= k < r@.len() && 0 <= j < conn_of(r@, k).len() implies conn_of(r@, k)[j]
                == cloth_point(
            width as int,
            rows as int,
            cols as int,
            cloth_neighbors(rows as int, cols as int, k)[j] / cols as int,
            cloth_neighbors(rows as int, cols as int, k)[j] % cols as int,
        ) by {
            assert(conn_of(r@, k)[j] == positions@[neighbors@[k]@[j] as int]);
        }
    }
    r
}

} // verus!
