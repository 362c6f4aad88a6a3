//! The batched-spawn graph builder: declarative spawn nodes are turned into
//! concrete particles and sticks, visual resource descriptors are
//! deduplicated into shared handles, and neighbour references are resolved
//! by exact position with ordinal duplicate-edge suppression.

use vstd::prelude::*;

use crate::fixed::tdiv;
use crate::particle::{PART_BOUND, Point, Stick};
use crate::vec3::{Vec3, dist};
use crate::SCALE;

verus! {

/// The shape drawn for a point or stick.
#[derive(Clone, Copy, Debug, PartialEq, Eq, Structural, Hash)]
pub enum MeshType {
    Sphere,
    Cuboid,
    Cylinder,
}

/// The surface drawn for a point or stick; colour channels are RGBA in
/// micro-units (one million is full intensity).
#[derive(Clone, Copy, Debug, PartialEq, Eq, Structural, Hash)]
pub enum MaterialType {
    Color(i64, i64, i64, i64),
}

/// A declarative request: one point, its intended neighbour positions, and
/// the visual descriptors for the point and each connection.
#[derive(Clone, Debug, PartialEq)]
pub struct SpawnNode {
    /// The point to spawn.
    pub point: Point,
    /// Positions of the points this one connects to, if any.
    pub connection: Option<Vec<Vec3>>,
    /// The material of the point.
    pub point_material: MaterialType,
    /// A material for each connection.
    pub connection_material: Option<Vec<MaterialType>>,
    /// The mesh of the point.
    pub point_mesh: MeshType,
    /// A mesh for each connection.
    pub connection_mesh: Option<Vec<MeshType>>,
    /// The diameter of the point, micro-units.
    pub point_size: i64,
    /// The thickness of each connection, micro-units.
    pub connection_size: Option<Vec<i64>>,
    /// An opaque tag tying this point to an externally attached asset.
    pub attachment: Option<Vec<u8>>,
    /// Visual scale of the point, micro-units per axis.
    pub point_scale: Vec3,
    /// Visual scale of each connection.
    pub connection_scale: Option<Vec<Vec3>>,
}

impl Default for SpawnNode {
    /// A free white sphere at the origin with no connections.
    fn default() -> (r: SpawnNode)
        ensures
            r.point == (Point {
                position: Vec3 { x: 0i64, y: 0i64, z: 0i64 },
                prev_position: Vec3 { x: 0i64, y: 0i64, z: 0i64 },
                locked: false,
                rendered_position: Vec3 { x: 0i64, y: 0i64, z: 0i64 },
                previously_rendered_position: Vec3 { x: 0i64, y: 0i64, z: 0i64 },
                external_forces: Vec3 { x: 0i64, y: 0i64, z: 0i64 },
            }),
            (r.connection is None),
            r.point_material == MaterialType::Color(SCALE as i64, SCALE as i64, SCALE as i64, SCALE as i64),
            (r.connection_material is None),
            r.point_mesh == MeshType::Sphere,
            (r.connection_mesh is None),
            r.point_size == 25_000,
            (r.connection_size is None),
            (r.attachment is None),
            r.point_scale == (Vec3 { x: SCALE as i64, y: SCALE as i64, z: SCALE as i64 }),
            (r.connection_scale is None),
    {
        let zero = Vec3 { x: 0, y: 0, z: 0 };
        SpawnNode {
            point: Point::new(zero, zero, false),
            connection: None,
            point_material: MaterialType::Color(SCALE, SCALE, SCALE, SCALE),
            connection_material: None,
            point_mesh: MeshType::Sphere,
            connection_mesh: None,
            point_size: 25_000,
            connection_size: None,
            attachment: None,
            point_scale: Vec3 { x: SCALE, y: SCALE, z: SCALE },
            connection_scale: None,
        }
    }
}

/// A batch of spawn nodes describing one connected structure, spawned
/// atomically.
#[derive(Clone, Debug, PartialEq)]
pub struct SpawnRequest {
    pub mesh_network: Vec<SpawnNode>,
}

impl SpawnRequest {
    pub fn new(mesh_network: Vec<SpawnNode>) -> (r: SpawnRequest)
        ensures
            r.mesh_network == mesh_network,
    {
        SpawnRequest { mesh_network }
    }
}

/// Whether the mesh table already holds `m`.
pub open spec fn has_mesh(t: Seq<MeshType>, m: MeshType) -> bool {
    exists|i: int| 0 <= i < t.len() && t[i] == m
}

/// Whether the material table already holds `m`.
pub open spec fn has_material(t: Seq<MaterialType>, m: MaterialType) -> bool {
    exists|i: int| 0 <= i < t.len() && t[i] == m
}

/// Shared visual resources: each distinct descriptor appears exactly once,
/// and its index is the concrete handle the render layer works with.
#[derive(Clone, Debug)]
pub struct ResourceTable {
    pub meshes: Vec<MeshType>,
    pub materials: Vec<MaterialType>,
}

impl ResourceTable {
    /// No descriptor is ever duplicated.
    pub open spec fn wf(self) -> bool {
        &&& forall|i: int, j: int|
            0 <= i < j < self.meshes@.len() ==> self.meshes@[i] != self.meshes@[j]
        &&& forall|i: int, j: int|
            0 <= i < j < self.materials@.len() ==> self.materials@[i] != self.materials@[j]
    }

    pub fn new() -> (r: ResourceTable)
        ensures
            r.wf(),
            r.meshes@.len() == 0,
            r.materials@.len() == 0,
    {
        ResourceTable { meshes: Vec::new(), materials: Vec::new() }
    }

    /// The handle of `m`, allocating it only if no equal descriptor is
    /// already in the table.
    pub fn intern_mesh(&mut self, m: MeshType) -> (r: usize)
        requires
            old(self).wf(),
        ensures
            final(self).wf(),
            final(self).materials == old(self).materials,
            r < final(self).meshes@.len(),
            final(self).meshes@[r as int] == m,
            forall|i: int|
                0 <= i < old(self).meshes@.len() ==> final(self).meshes@[i] == old(
                    self,
                ).meshes@[i],
            has_mesh(old(self).meshes@, m) ==> final(self).meshes == old(self).meshes,
            !has_mesh(old(self).meshes@, m) ==> final(self).meshes@ == old(self).meshes@.push(m),
    {
        let n: usize = self.meshes.len();
        let mut i: usize = 0;
        while i < n
            invariant
                i <= n,
                n == self.meshes@.len(),
                forall|j: int| 0 <= j < i ==> self.meshes@[j] != m,
                old(self).wf(),
                self.meshes@ == old(self).meshes@,
                self.materials@ == old(self).materials@,
            decreases n - i,
        {
            if self.meshes[i] == m {
                proof {
                    assert forall|a: int, b: int|
                        0 <= a < b < self.meshes@.len() implies self.meshes@[a]
                        != self.meshes@[b] by {
                        assert(old(self).meshes@[a] != old(self).meshes@[b]);
                    }
                    assert forall|a: int, b: int|
                        0 <= a < b < self.materials@.len() implies self.materials@[a]
                        != self.materials@[b] by {
                        assert(old(self).materials@[a] != old(self).materials@[b]);
                    }
                }
                return i;
            }
            i = i + 1;
        }
        self.meshes.push(m);
        proof {
            let fin = self.meshes@;
            let pre = old(self).meshes@;
            assert forall|a: int, b: int| 0 <= a < b < fin.len() implies fin[a] != fin[b] by {
                if b < pre.len() {
                    assert(fin[a] == pre[a] && fin[b] == pre[b]);
                } else {
                    assert(fin[b] == m && fin[a] == pre[a]);
                }
            }
        }
        n
    }

    /// The handle of `m`, allocating it only if no equal descriptor is
    /// already in the table.
    pub fn intern_material(&mut self, m: MaterialType) -> (r: usize)
        requires
            old(self).wf(),
        ensures
            final(self).wf(),
            final(self).meshes == old(self).meshes,
            r < final(self).materials@.len(),
            final(self).materials@[r as int] == m,
            forall|i: int|
                0 <= i < old(self).materials@.len() ==> final(self).materials@[i] == old(
                    self,
                ).materials@[i],
            has_material(old(self).materials@, m) ==> final(self).materials == old(self).materials,
            !has_material(old(self).materials@, m) ==> final(self).materials@ == old(
                self,
            ).materials@.push(m),
    {
        let n: usize = self.materials.len();
        let mut i: usize = 0;
        while i < n
            invariant
                i <= n,
                n == self.materials@.len(),
                forall|j: int| 0 <= j < i ==> self.materials@[j] != m,
                old(self).wf(),
                self.materials@ == old(self).materials@,
                self.meshes@ == old(self).meshes@,
            decreases n - i,
        {
            if self.materials[i] == m {
                proof {
                    assert forall|a: int, b: int|
                        0 <= a < b < self.meshes@.len() implies self.meshes@[a]
                        != self.meshes@[b] by {
                        assert(old(self).meshes@[a] != old(self).meshes@[b]);
                    }
                    assert forall|a: int, b: int|
                        0 <= a < b < self.materials@.len() implies self.materials@[a]
                        != self.materials@[b] by {
                        assert(old(self).materials@[a] != old(self).materials@[b]);
                    }
                }
                return i;
            }
            i = i + 1;
        }
        self.materials.push(m);
        proof {
            let fin = self.materials@;
            let pre = old(self).materials@;
            assert forall|a: int, b: int| 0 <= a < b < fin.len() implies fin[a] != fin[b] by {
                if b < pre.len() {
                    assert(fin[a] == pre[a] && fin[b] == pre[b]);
                } else {
                    assert(fin[b] == m && fin[a] == pre[a]);
                }
            }
        }
        n
    }
}

/// One step of the 64-bit FNV-1a hash.
pub open spec fn tag_hash_step(h: u64, b: u8) -> u64 {
    ((((h ^ (b as u64)) as int) * 0x100_0000_01b3) % 0x1_0000_0000_0000_0000) as u64
}

/// The 64-bit FNV-1a hash of the first `n` bytes.
pub open spec fn tag_hash_upto(bytes: Seq<u8>, n: int) -> u64
    decreases n,
{
    if n <= 0 {
        0xcbf2_9ce4_8422_2325u64
    } else {
        tag_hash_step(tag_hash_upto(bytes, n - 1), bytes[n - 1])
    }
}

/// The stable 64-bit id of an attachment tag.
pub open spec fn tag_hash(bytes: Seq<u8>) -> u64 {
    tag_hash_upto(bytes, bytes.len() as int)
}

/// The stable 64-bit id of an attachment tag (FNV-1a over its bytes).
pub fn hash_tag(bytes: &Vec<u8>) -> (r: u64)
    ensures
        r == tag_hash(bytes@),
{
    let mut h: u64 = 0xcbf2_9ce4_8422_2325;
    let n: usize = bytes.len();
    let mut i: usize = 0;
    while i < n
        invariant
            i <= n,
            n == bytes@.len(),
            h == tag_hash_upto(bytes@, i as int),
        decreases n - i,
    {
        let b: u8 = bytes[i];
        h = (h ^ (b as u64)).wrapping_mul(0x100_0000_01b3);
        i = i + 1;
    }
    h
}


/// Whether some declared node sits exactly at `pos`.
pub open spec fn has_pos(ns: Seq<SpawnNode>, pos: Vec3) -> bool {
    exists|m: int| 0 <= m < ns.len() && (#[trigger] ns[m]).point.position == pos
}

/// The first declared node sitting exactly at `pos`, or -1.
pub open spec fn first_pos(ns: Seq<SpawnNode>, pos: Vec3) -> int
    decreases ns.len(),
{
    if ns.len() == 0 {
        -1
    } else if ns[0].point.position == pos {
        0
    } else {
        let r = first_pos(ns.drop_first(), pos);
        if r < 0 {
            -1
        } else {
            r + 1
        }
    }
}

/// `first_pos` finds the first match exactly when one exists.
pub proof fn lemma_first_pos(ns: Seq<SpawnNode>, pos: Vec3)
    ensures
        has_pos(ns, pos) ==> 0 <= first_pos(ns, pos) < ns.len() && ns[first_pos(
            ns,
            pos,
        )].point.position == pos && (forall|l: int|
            0 <= l < first_pos(ns, pos) ==> (#[trigger] ns[l]).point.position != pos),
        !has_pos(ns, pos) ==> first_pos(ns, pos) == -1,
    decreases ns.len(),
{
    if ns.len() == 0 {
    } else if ns[0].point.position == pos {
    } else {
        let tail = ns.drop_first();
        lemma_first_pos(tail, pos);
        assert(forall|m: int| 0 <= m < tail.len() ==> #[trigger] tail[m] == ns[m + 1]);
        if has_pos(ns, pos) {
            let w = choose|m: int| 0 <= m < ns.len() && (#[trigger] ns[m]).point.position == pos;
            assert(tail[w - 1] == ns[w]);
            assert(has_pos(tail, pos));
        }
        if has_pos(tail, pos) {
            let w = choose|m: int|
                0 <= m < tail.len() && (#[trigger] tail[m]).point.position == pos;
            assert(ns[w + 1] == tail[w]);
            assert(has_pos(ns, pos));
        }
        if has_pos(ns, pos) {
            let r = first_pos(ns, pos);
            assert(r == first_pos(tail, pos) + 1);
            assert forall|l: int| 0 <= l < r implies (#[trigger] ns[l]).point.position
                != pos by {
                if l > 0 {
                    assert(ns[l] == tail[l - 1]);
                }
            }
        }
    }
}

/// The index of the first declared node at `pos`, or the length when none
/// is there.
pub fn find_pos(ns: &Vec<SpawnNode>, pos: Vec3) -> (r: usize)
    ensures
        has_pos(ns@, pos) ==> r < ns@.len() && r as int == first_pos(ns@, pos),
        !has_pos(ns@, pos) ==> r == ns@.len(),
{
    proof {
        lemma_first_pos(ns@, pos);
    }
    let n: usize = ns.len();
    let mut i: usize = 0;
    while i < n
        invariant
            i <= n,
            n == ns@.len(),
            forall|j: int| 0 <= j < i ==> (#[trigger] ns@[j]).point.position != pos,
            has_pos(ns@, pos) ==> 0 <= first_pos(ns@, pos) < ns@.len() && ns@[first_pos(
                ns@,
                pos,
            )].point.position == pos && (forall|l: int|
                0 <= l < first_pos(ns@, pos) ==> (#[trigger] ns@[l]).point.position != pos),
            !has_pos(ns@, pos) ==> first_pos(ns@, pos) == -1,
        decreases n - i,
    {
        if ns[i].point.position.x == pos.x && ns[i].point.position.y == pos.y
            && ns[i].point.position.z == pos.z {
            proof {
                assert(ns@[i as int].point.position == pos);
                assert(has_pos(ns@, pos));
                let r = first_pos(ns@, pos);
                if r < i as int {
                    assert(ns@[r].point.position != pos);
                    assert(false);
                }
                if r > i as int {
                    assert(ns@[i as int].point.position != pos);
                    assert(false);
                }
            }
            return i;
        }
        i = i + 1;
    }
    proof {
        if has_pos(ns@, pos) {
            let w = choose|m: int|
                0 <= m < ns@.len() && (#[trigger] ns@[m]).point.position == pos;
            assert(ns@[w].point.position != pos);
            assert(false);
        }
    }
    i
}

/// Whether a node declares connections together with all three per-
/// connection descriptor lists (a node missing one of them is skipped,
/// creating no sticks).
pub open spec fn node_has_conn(ns: Seq<SpawnNode>, k: int) -> bool {
    &&& ns[k].connection is Some
    &&& ns[k].connection_material is Some
    &&& ns[k].connection_mesh is Some
    &&& ns[k].connection_size is Some
}

pub open spec fn conn_of(ns: Seq<SpawnNode>, k: int) -> Seq<Vec3> {
    ns[k].connection.unwrap()@
}

pub open spec fn cmat_of(ns: Seq<SpawnNode>, k: int) -> Seq<MaterialType> {
    ns[k].connection_material.unwrap()@
}

pub open spec fn cmesh_of(ns: Seq<SpawnNode>, k: int) -> Seq<MeshType> {
    ns[k].connection_mesh.unwrap()@
}

pub open spec fn csize_of(ns: Seq<SpawnNode>, k: int) -> Seq<i64> {
    ns[k].connection_size.unwrap()@
}

/// The visual scale of connection `j` of node `k`: the declared one, or
/// unit scale when the node declares none.
pub open spec fn cscale_of(ns: Seq<SpawnNode>, k: int, j: int) -> Vec3 {
    if ns[k].connection_scale is Some {
        ns[k].connection_scale.unwrap()@[j]
    } else {
        Vec3 { x: SCALE as i64, y: SCALE as i64, z: SCALE as i64 }
    }
}

/// Each per-connection descriptor list of node `k` matches its neighbour
/// list in length.
pub open spec fn node_lengths_ok(ns: Seq<SpawnNode>, k: int) -> bool {
    &&& cmat_of(ns, k).len() == conn_of(ns, k).len()
    &&& cmesh_of(ns, k).len() == conn_of(ns, k).len()
    &&& csize_of(ns, k).len() == conn_of(ns, k).len()
    &&& (ns[k].connection_scale is Some ==> ns[k].connection_scale.unwrap()@.len() == conn_of(
        ns,
        k,
    ).len())
}

/// No connected node has a mismatched descriptor list.
pub open spec fn batch_lengths_ok(ns: Seq<SpawnNode>) -> bool {
    forall|k: int| 0 <= k < ns.len() && node_has_conn(ns, k) ==> #[trigger] node_lengths_ok(ns, k)
}

/// Every declared neighbour position resolves to some declared node.
pub open spec fn batch_neighbors_ok(ns: Seq<SpawnNode>) -> bool {
    forall|k: int, j: int|
        0 <= k < ns.len() && node_has_conn(ns, k) && node_lengths_ok(ns, k) && 0 <= j < conn_of(
            ns,
            k,
        ).len() ==> has_pos(ns, #[trigger] conn_of(ns, k)[j])
}

/// The sticks created for the first `j` neighbours of node `k`, as
/// `(declaring node, neighbour slot, resolved node)` triples. A neighbour
/// resolving to an earlier-declared node is skipped: that edge was already
/// created from the other endpoint (ordinal duplicate-edge suppression).
pub open spec fn edges_for(ns: Seq<SpawnNode>, k: int, j: int) -> Seq<(int, int, int)>
    decreases j,
{
    if j <= 0 {
        Seq::empty()
    } else {
        let rest = edges_for(ns, k, j - 1);
        let pos = conn_of(ns, k)[j - 1];
        if has_pos(ns, pos) {
            let m = first_pos(ns, pos);
            if k <= m {
                rest.push((k, j - 1, m))
            } else {
                rest
            }
        } else {
            rest
        }
    }
}

/// The sticks created by the first `k` nodes.
pub open spec fn edges_upto(ns: Seq<SpawnNode>, k: int) -> Seq<(int, int, int)>
    decreases k,
{
    if k <= 0 {
        Seq::empty()
    } else {
        edges_upto(ns, k - 1) + (if node_has_conn(ns, k - 1) {
            edges_for(ns, k - 1, conn_of(ns, k - 1).len() as int)
        } else {
            Seq::empty()
        })
    }
}

/// Every stick the whole batch creates, in creation order.
pub open spec fn all_edges(ns: Seq<SpawnNode>) -> Seq<(int, int, int)> {
    edges_upto(ns, ns.len() as int)
}

/// A fatal flaw in a spawn batch; the batch creates nothing.
#[derive(Clone, Copy, Debug, PartialEq, Eq, Structural)]
pub enum SpawnError {
    /// A per-connection descriptor list of this node has the wrong length.
    DescriptorMismatch { node: usize },
    /// This neighbour position of this node matches no declared node.
    UnknownNeighbor { node: usize, connection: usize },
    /// The id space cannot hold this many more particles.
    IdsExhausted,
}

/// A particle ready to be instantiated: its stable id, state, and the
/// handles of its deduplicated visual resources.
#[derive(Clone, Debug)]
pub struct PlannedPoint {
    pub id: u64,
    pub point: Point,
    pub mesh: usize,
    pub material: usize,
    pub size: i64,
    pub scale: Vec3,
    pub attachment: Option<u64>,
}

/// A stick ready to be instantiated, with its initial visual placement.
#[derive(Clone, Copy, Debug)]
pub struct PlannedStick {
    pub stick: Stick,
    pub mesh: usize,
    pub material: usize,
    pub size: i64,
    pub scale: Vec3,
    pub midpoint: Vec3,
}

/// Everything one batch instantiates.
#[derive(Clone, Debug)]
pub struct SpawnPlan {
    pub points: Vec<PlannedPoint>,
    pub sticks: Vec<PlannedStick>,
}

/// What the plan must say about the stick built from edge `e`.
pub open spec fn stick_matches(
    ns: Seq<SpawnNode>,
    e: (int, int, int),
    next_id: int,
    t: ResourceTable,
    st: PlannedStick,
) -> bool {
    let k = e.0;
    let j = e.1;
    let m = e.2;
    &&& st.stick.point1 == next_id + k
    &&& st.stick.point2 == next_id + m
    &&& st.stick.length == dist(ns[k].point.position, ns[m].point.position)
    &&& st.stick.wf()
    &&& st.mesh < t.meshes@.len() && t.meshes@[st.mesh as int] == cmesh_of(ns, k)[j]
    &&& st.material < t.materials@.len() && t.materials@[st.material as int] == cmat_of(ns, k)[j]
    &&& st.size == csize_of(ns, k)[j]
    &&& st.scale == cscale_of(ns, k, j)
    &&& st.midpoint.x == tdiv(ns[k].point.position.x + ns[m].point.position.x, 2)
    &&& st.midpoint.y == tdiv(ns[k].point.position.y + ns[m].point.position.y, 2)
    &&& st.midpoint.z == tdiv(ns[k].point.position.z + ns[m].point.position.z, 2)
}

/// What the plan must say about the particle built from node `k`.
pub open spec fn point_matches(
    ns: Seq<SpawnNode>,
    k: int,
    next_id: int,
    t: ResourceTable,
    pp: PlannedPoint,
) -> bool {
    &&& pp.id == next_id + k
    &&& pp.point == ns[k].point
    &&& pp.mesh < t.meshes@.len() && t.meshes@[pp.mesh as int] == ns[k].point_mesh
    &&& pp.material < t.materials@.len() && t.materials@[pp.material as int] == ns[k].point_material
    &&& pp.size == ns[k].point_size
    &&& pp.scale == ns[k].point_scale
    &&& (ns[k].attachment is Some ==> pp.attachment == Some(tag_hash(ns[k].attachment.unwrap()@)))
    &&& (ns[k].attachment is None ==> pp.attachment is None)
}

/// Growing a resource table never loses a mesh.
pub proof fn lemma_meshes_monotone(pre: Seq<MeshType>, post: Seq<MeshType>)
    requires
        pre.len() <= post.len(),
        forall|i: int| 0 <= i < pre.len() ==> post[i] == pre[i],
    ensures
        forall|m: MeshType| #[trigger] has_mesh(pre, m) ==> has_mesh(post, m),
{
    assert forall|m: MeshType| #[trigger] has_mesh(pre, m) implies has_mesh(post, m) by {
        let w = choose|i: int| 0 <= i < pre.len() && pre[i] == m;
        assert(post[w] == m);
    }
}

/// Growing a resource table never loses a material.
pub proof fn lemma_materials_monotone(pre: Seq<MaterialType>, post: Seq<MaterialType>)
    requires
        pre.len() <= post.len(),
        forall|i: int| 0 <= i < pre.len() ==> post[i] == pre[i],
    ensures
        forall|m: MaterialType| #[trigger] has_material(pre, m) ==> has_material(post, m),
{
    assert forall|m: MaterialType| #[trigger] has_material(pre, m) implies has_material(
        post,
        m,
    ) by {
        let w = choose|i: int| 0 <= i < pre.len() && pre[i] == m;
        assert(post[w] == m);
    }
}

/// The handle of a mesh already in the table.
pub fn lookup_mesh(t: &ResourceTable, m: MeshType) -> (r: usize)
    requires
        has_mesh(t.meshes@, m),
    ensures
        r < t.meshes@.len(),
        t.meshes@[r as int] == m,
{
    let n: usize = t.meshes.len();
    let mut i: usize = 0;
    while i < n
        invariant
            i <= n,
            n == t.meshes@.len(),
            has_mesh(t.meshes@, m),
            forall|j: int| 0 <= j < i ==> t.meshes@[j] != m,
        decreases n - i,
    {
        if t.meshes[i] == m {
            return i;
        }
        i = i + 1;
    }
    proof {
        let w = choose|j: int| 0 <= j < t.meshes@.len() && t.meshes@[j] == m;
        assert(t.meshes@[w] != m);
        assert(false);
    }
    0
}

/// The handle of a material already in the table.
pub fn lookup_material(t: &ResourceTable, m: MaterialType) -> (r: usize)
    requires
        has_material(t.materials@, m),
    ensures
        r < t.materials@.len(),
        t.materials@[r as int] == m,
{
    let n: usize = t.materials.len();
    let mut i: usize = 0;
    while i < n
        invariant
            i <= n,
            n == t.materials@.len(),
            has_material(t.materials@, m),
            forall|j: int| 0 <= j < i ==> t.materials@[j] != m,
        decreases n - i,
    {
        if t.materials[i] == m {
            return i;
        }
        i = i + 1;
    }
    proof {
        let w = choose|j: int| 0 <= j < t.materials@.len() && t.materials@[j] == m;
        assert(t.materials@[w] != m);
        assert(false);
    }
    0
}


/// Every stick node `k` creates resolves one of its neighbour slots to a
/// node declared no earlier than `k` itself: an edge whose resolved
/// endpoint precedes the declaring node was already created from that
/// other endpoint, and is suppressed.
pub proof fn lemma_edges_for_ordered(ns: Seq<SpawnNode>, k: int, j: int)
    ensures
        forall|i: int|
            0 <= i < edges_for(ns, k, j).len() ==> {
                let e = #[trigger] edges_for(ns, k, j)[i];
                &&& e.0 == k
                &&& 0 <= e.1 < j
                &&& k <= e.2 < ns.len()
                &&& e.2 == first_pos(ns, conn_of(ns, k)[e.1])
            },
    decreases j,
{
    if j > 0 {
        lemma_edges_for_ordered(ns, k, j - 1);
        let pos = conn_of(ns, k)[j - 1];
        if has_pos(ns, pos) {
            lemma_first_pos(ns, pos);
        }
        let rest = edges_for(ns, k, j - 1);
        assert forall|i: int| 0 <= i < edges_for(ns, k, j).len() implies {
            let e = #[trigger] edges_for(ns, k, j)[i];
            &&& e.0 == k
            &&& 0 <= e.1 < j
            &&& k <= e.2 < ns.len()
            &&& e.2 == first_pos(ns, conn_of(ns, k)[e.1])
        } by {
            if i < rest.len() {
                assert(edges_for(ns, k, j)[i] == rest[i]);
            }
        }
    }
}

/// Duplicate-edge suppression over the whole batch: every created stick
/// joins a declaring node to a resolved node no earlier in the
/// declaration order, so a symmetrically declared undirected edge is
/// created exactly from its earlier endpoint.
pub proof fn lemma_all_edges_ordered(ns: Seq<SpawnNode>, k: int)
    requires
        0 <= k <= ns.len(),
    ensures
        forall|i: int|
            0 <= i < edges_upto(ns, k).len() ==> {
                let e = #[trigger] edges_upto(ns, k)[i];
                &&& 0 <= e.0 < k
                &&& e.0 <= e.2 < ns.len()
                &&& node_has_conn(ns, e.0)
                &&& 0 <= e.1 < conn_of(ns, e.0).len()
                &&& e.2 == first_pos(ns, conn_of(ns, e.0)[e.1])
            },
    decreases k,
{
    if k > 0 {
        lemma_all_edges_ordered(ns, k - 1);
        if node_has_conn(ns, k - 1) {
            lemma_edges_for_ordered(ns, k - 1, conn_of(ns, k - 1).len() as int);
        }
        let left = edges_upto(ns, k - 1);
        assert forall|i: int| 0 <= i < edges_upto(ns, k).len() implies {
            let e = #[trigger] edges_upto(ns, k)[i];
            &&& 0 <= e.0 < k
            &&& e.0 <= e.2 < ns.len()
            &&& node_has_conn(ns, e.0)
            &&& 0 <= e.1 < conn_of(ns, e.0).len()
            &&& e.2 == first_pos(ns, conn_of(ns, e.0)[e.1])
        } by {
            if i < left.len() {
                assert(edges_upto(ns, k)[i] == left[i]);
            } else if node_has_conn(ns, k - 1) {
                let part = edges_for(ns, k - 1, conn_of(ns, k - 1).len() as int);
                assert(edges_upto(ns, k)[i] == part[i - left.len()]);
            }
        }
    }
}

/// The visual descriptors node `k` mentions are all in the table.
pub open spec fn node_interned(ns: Seq<SpawnNode>, k: int, t: ResourceTable) -> bool {
    &&& has_mesh(t.meshes@, ns[k].point_mesh)
    &&& has_material(t.materials@, ns[k].point_material)
    &&& (ns[k].connection_mesh is Some ==> forall|j: int|
        0 <= j < ns[k].connection_mesh.unwrap()@.len() ==> has_mesh(
            t.meshes@,
            #[trigger] ns[k].connection_mesh.unwrap()@[j],
        ))
    &&& (ns[k].connection_material is Some ==> forall|j: int|
        0 <= j < ns[k].connection_material.unwrap()@.len() ==> has_material(
            t.materials@,
            #[trigger] ns[k].connection_material.unwrap()@[j],
        ))
}

/// Interned descriptors stay interned as the table grows.
pub proof fn lemma_interned_monotone(ns: Seq<SpawnNode>, n: int, t1: ResourceTable, t2: ResourceTable)
    requires
        t1.meshes@.len() <= t2.meshes@.len(),
        forall|i: int| 0 <= i < t1.meshes@.len() ==> t2.meshes@[i] == t1.meshes@[i],
        t1.materials@.len() <= t2.materials@.len(),
        forall|i: int| 0 <= i < t1.materials@.len() ==> t2.materials@[i] == t1.materials@[i],
        forall|k: int| 0 <= k < n ==> #[trigger] node_interned(ns, k, t1),
    ensures
        forall|k: int| 0 <= k < n ==> #[trigger] node_interned(ns, k, t2),
{
    lemma_meshes_monotone(t1.meshes@, t2.meshes@);
    lemma_materials_monotone(t1.materials@, t2.materials@);
    assert forall|k: int| 0 <= k < n implies #[trigger] node_interned(ns, k, t2) by {
        assert(node_interned(ns, k, t1));
    }
}

/// The batched-spawn graph builder.
///
/// Distinct mesh and material descriptors are interned into the shared
/// table, one particle is planned per node in declaration order with ids
/// `next_id`, `next_id + 1`, ..., attachment tags are hashed to stable
/// 64-bit ids, and each declared neighbour position is resolved by exact
/// match to the first node at that position, creating exactly one stick per
/// undirected edge of a symmetrically declared graph.
///
/// The batch is checked whole before anything is planned: a descriptor
/// list whose length differs from its node's neighbour list, or a
/// neighbour position matching no node, is a fatal flaw in the topology
/// description, and the whole batch is refused.
pub fn spawner(mesh_network: &Vec<SpawnNode>, next_id: u64, table: &mut ResourceTable) -> (r:
    Result<SpawnPlan, SpawnError>)
    requires
        old(table).wf(),
        next_id + mesh_network@.len() <= u64::MAX,
        forall|k: int| 0 <= k < mesh_network@.len() ==> (#[trigger] mesh_network@[k]).point.wf(),
    ensures
        final(table).wf(),
        old(table).meshes@.len() <= final(table).meshes@.len(),
        forall|i: int|
            0 <= i < old(table).meshes@.len() ==> final(table).meshes@[i] == old(
                table,
            ).meshes@[i],
        old(table).materials@.len() <= final(table).materials@.len(),
        forall|i: int|
            0 <= i < old(table).materials@.len() ==> final(table).materials@[i] == old(
                table,
            ).materials@[i],
        (r is Ok) == (batch_lengths_ok(mesh_network@) && batch_neighbors_ok(mesh_network@)),
        r is Ok ==> {
            let plan = r.unwrap();
            &&& plan.points@.len() == mesh_network@.len()
            &&& forall|k: int|
                0 <= k < mesh_network@.len() ==> point_matches(
                    mesh_network@,
                    k,
                    next_id as int,
                    *final(table),
                    #[trigger] plan.points@[k],
                )
            &&& plan.sticks@.len() == all_edges(mesh_network@).len()
            &&& forall|i: int|
                0 <= i < all_edges(mesh_network@).len() ==> stick_matches(
                    mesh_network@,
                    all_edges(mesh_network@)[i],
                    next_id as int,
                    *final(table),
                    #[trigger] plan.sticks@[i],
                )
        },
        (r matches Err(SpawnError::DescriptorMismatch { node }) ==> node
            < mesh_network@.len() && node_has_conn(mesh_network@, node as int)
            && !node_lengths_ok(mesh_network@, node as int)),
        (r matches Err(SpawnError::UnknownNeighbor { node, connection }) ==> node
            < mesh_network@.len() && node_has_conn(mesh_network@, node as int)
            && node_lengths_ok(mesh_network@, node as int) && connection < conn_of(
            mesh_network@,
            node as int,
        ).len() && !has_pos(mesh_network@, conn_of(mesh_network@, node as int)[connection as int])),
{
    let ghost ns: Seq<SpawnNode> = mesh_network@;
    let n: usize = mesh_network.len();

    // Intern every descriptor the batch mentions, deduplicating as we go.
    let mut k: usize = 0;
    while k < n
        invariant
            k <= n,
            n == ns.len(),
            mesh_network@ == ns,
            table.wf(),
            old(table).meshes@.len() <= table.meshes@.len(),
            forall|i: int|
                0 <= i < old(table).meshes@.len() ==> table.meshes@[i] == old(table).meshes@[i],
            old(table).materials@.len() <= table.materials@.len(),
            forall|i: int|
                0 <= i < old(table).materials@.len() ==> table.materials@[i] == old(
                    table,
                ).materials@[i],
            forall|kk: int| 0 <= kk < k ==> #[trigger] node_interned(ns, kk, *table),
        decreases n - k,
    {
        let ghost t_enter: ResourceTable = *table;
        let node: &SpawnNode = &mesh_network[k];
        table.intern_mesh(node.point_mesh);
        table.intern_material(node.point_material);
        proof {
            lemma_interned_monotone(ns, k as int, t_enter, *table);
        }
        if node.connection_mesh.is_some() {
            let cm: &Vec<MeshType> = node.connection_mesh.as_ref().unwrap();
            let cn: usize = cm.len();
            let mut j: usize = 0;
            while j < cn
                invariant
                    j <= cn,
                    k < n,
                    n == ns.len(),
                    mesh_network@ == ns,
                    ns[k as int].connection_mesh == Some(*cm),
                    cn == cm@.len(),
                    table.wf(),
                    old(table).meshes@.len() <= table.meshes@.len(),
                    forall|i: int|
                        0 <= i < old(table).meshes@.len() ==> table.meshes@[i] == old(
                            table,
                        ).meshes@[i],
                    old(table).materials@.len() <= table.materials@.len(),
                    forall|i: int|
                        0 <= i < old(table).materials@.len() ==> table.materials@[i] == old(
                            table,
                        ).materials@[i],
                    forall|kk: int| 0 <= kk < k ==> #[trigger] node_interned(ns, kk, *table),
                    has_mesh(table.meshes@, ns[k as int].point_mesh),
                    has_material(table.materials@, ns[k as int].point_material),
                    forall|jj: int| 0 <= jj < j ==> has_mesh(table.meshes@, #[trigger] cm@[jj]),
                decreases cn - j,
            {
                let ghost t_in: ResourceTable = *table;
                table.intern_mesh(cm[j]);
                proof {
                    lemma_interned_monotone(ns, k as int, t_in, *table);
                    lemma_meshes_monotone(t_in.meshes@, table.meshes@);
                    lemma_materials_monotone(t_in.materials@, table.materials@);
                }
                j = j + 1;
            }
        }
        if node.connection_material.is_some() {
            let ghost t_mid: ResourceTable = *table;
            let cm: &Vec<MaterialType> = node.connection_material.as_ref().unwrap();
            let cn: usize = cm.len();
            let mut j: usize = 0;
            while j < cn
                invariant
                    j <= cn,
                    k < n,
                    n == ns.len(),
                    mesh_network@ == ns,
                    ns[k as int].connection_material == Some(*cm),
                    cn == cm@.len(),
                    table.wf(),
                    old(table).meshes@.len() <= table.meshes@.len(),
                    forall|i: int|
                        0 <= i < old(table).meshes@.len() ==> table.meshes@[i] == old(
                            table,
                        ).meshes@[i],
                    old(table).materials@.len() <= table.materials@.len(),
                    forall|i: int|
                        0 <= i < old(table).materials@.len() ==> table.materials@[i] == old(
                            table,
                        ).materials@[i],
                    forall|kk: int| 0 <= kk < k ==> #[trigger] node_interned(ns, kk, *table),
                    has_mesh(table.meshes@, ns[k as int].point_mesh),
                    has_material(table.materials@, ns[k as int].point_material),
                    ns[k as int].connection_mesh is Some ==> forall|jj: int|
                        0 <= jj < ns[k as int].connection_mesh.unwrap()@.len() ==> has_mesh(
                            table.meshes@,
                            #[trigger] ns[k as int].connection_mesh.unwrap()@[jj],
                        ),
                    forall|jj: int|
                        0 <= jj < j ==> has_material(table.materials@, #[trigger] cm@[jj]),
                decreases cn - j,
            {
                let ghost t_in: ResourceTable = *table;
                table.intern_material(cm[j]);
                proof {
                    lemma_interned_monotone(ns, k as int, t_in, *table);
                    lemma_meshes_monotone(t_in.meshes@, table.meshes@);
                    lemma_materials_monotone(t_in.materials@, table.materials@);
                }
                j = j + 1;
            }
        }
        proof {
            assert(node_interned(ns, k as int, *table));
        }
        k = k + 1;
    }

    // Validate the whole batch before planning anything.
    let mut k: usize = 0;
    while k < n
        invariant
            k <= n,
            n == ns.len(),
            mesh_network@ == ns,
            table.wf(),
            old(table).meshes@.len() <= table.meshes@.len(),
            forall|i: int|
                0 <= i < old(table).meshes@.len() ==> table.meshes@[i] == old(table).meshes@[i],
            old(table).materials@.len() <= table.materials@.len(),
            forall|i: int|
                0 <= i < old(table).materials@.len() ==> table.materials@[i] == old(
                    table,
                ).materials@[i],
            forall|kk: int| 0 <= kk < n ==> #[trigger] node_interned(ns, kk, *table),
            forall|kk: int|
                0 <= kk < k && node_has_conn(ns, kk) ==> #[trigger] node_lengths_ok(ns, kk),
            forall|kk: int, j: int|
                0 <= kk < k && node_has_conn(ns, kk) && node_lengths_ok(ns, kk) && 0 <= j
                    < conn_of(ns, kk).len() ==> has_pos(ns, #[trigger] conn_of(ns, kk)[j]),
        decreases n - k,
    {
        let node: &SpawnNode = &mesh_network[k];
        if node.connection.is_some() && node.connection_material.is_some()
            && node.connection_mesh.is_some() && node.connection_size.is_some() {
            let conn: &Vec<Vec3> = node.connection.as_ref().unwrap();
            let cl: usize = conn.len();
            let mismatch: bool = node.connection_material.as_ref().unwrap().len() != cl
                || node.connection_mesh.as_ref().unwrap().len() != cl
                || node.connection_size.as_ref().unwrap().len() != cl || (
            node.connection_scale.is_some() && node.connection_scale.as_ref().unwrap().len()
                != cl);
            if mismatch {
                proof {
                    assert(node_has_conn(ns, k as int));
                    assert(!node_lengths_ok(ns, k as int));
                }
                return Err(SpawnError::DescriptorMismatch { node: k });
            }
            let mut j: usize = 0;
            while j < cl
                invariant
                    j <= cl,
                    k < n,
                    n == ns.len(),
                    mesh_network@ == ns,
                    table.wf(),
                    old(table).meshes@.len() <= table.meshes@.len(),
                    forall|i: int|
                        0 <= i < old(table).meshes@.len() ==> table.meshes@[i] == old(
                            table,
                        ).meshes@[i],
                    old(table).materials@.len() <= table.materials@.len(),
                    forall|i: int|
                        0 <= i < old(table).materials@.len() ==> table.materials@[i] == old(
                            table,
                        ).materials@[i],
                    node_has_conn(ns, k as int),
                    node_lengths_ok(ns, k as int),
                    ns[k as int].connection == Some(*conn),
                    cl == conn@.len(),
                    forall|jj: int| 0 <= jj < j ==> has_pos(ns, #[trigger] conn@[jj]),
                decreases cl - j,
            {
                let w: usize = find_pos(mesh_network, conn[j]);
                if w >= n {
                    proof {
                        assert(!has_pos(ns, conn_of(ns, k as int)[j as int]));
                        assert(!batch_neighbors_ok(ns));
                    }
                    return Err(SpawnError::UnknownNeighbor { node: k, connection: j });
                }
                j = j + 1;
            }
        }
        k = k + 1;
    }

    // Plan one particle per node, in declaration order.
    let mut points: Vec<PlannedPoint> = Vec::new();
    let mut k: usize = 0;
    while k < n
        invariant
            k <= n,
            n == ns.len(),
            mesh_network@ == ns,
            table.wf(),
            next_id + n <= u64::MAX,
            forall|kk: int| 0 <= kk < n ==> #[trigger] node_interned(ns, kk, *table),
            forall|kk: int|
                0 <= kk < n && node_has_conn(ns, kk) ==> #[trigger] node_lengths_ok(ns, kk),
            forall|kk: int, j: int|
                0 <= kk < n && node_has_conn(ns, kk) && node_lengths_ok(ns, kk) && 0 <= j
                    < conn_of(ns, kk).len() ==> has_pos(ns, #[trigger] conn_of(ns, kk)[j]),
            forall|kk: int| 0 <= kk < n ==> (#[trigger] ns[kk]).point.wf(),
            points@.len() == k,
            forall|kk: int|
                0 <= kk < k ==> point_matches(
                    ns,
                    kk,
                    next_id as int,
                    *table,
                    #[trigger] points@[kk],
                ),
        decreases n - k,
    {
        let node: &SpawnNode = &mesh_network[k];
        proof {
            assert(node_interned(ns, k as int, *table));
        }
        let mesh_h: usize = lookup_mesh(table, node.point_mesh);
        let material_h: usize = lookup_material(table, node.point_material);
        let attachment: Option<u64> = match &node.attachment {
            Some(tag) => Some(hash_tag(tag)),
            None => None,
        };
        points.push(PlannedPoint {
            id: next_id + (k as u64),
            point: node.point,
            mesh: mesh_h,
            material: material_h,
            size: node.point_size,
            scale: node.point_scale,
            attachment,
        });
        k = k + 1;
    }

    // Plan the sticks: resolve each neighbour position to the first node
    // declared there, skipping edges already created from the other end.
    let mut sticks: Vec<PlannedStick> = Vec::new();
    let mut k: usize = 0;
    while k < n
        invariant
            k <= n,
            n == ns.len(),
            mesh_network@ == ns,
            table.wf(),
            next_id + n <= u64::MAX,
            forall|kk: int| 0 <= kk < n ==> (#[trigger] ns[kk]).point.wf(),
            forall|kk: int| 0 <= kk < n ==> #[trigger] node_interned(ns, kk, *table),
            forall|kk: int|
                0 <= kk < n && node_has_conn(ns, kk) ==> #[trigger] node_lengths_ok(ns, kk),
            forall|kk: int, j: int|
                0 <= kk < n && node_has_conn(ns, kk) && node_lengths_ok(ns, kk) && 0 <= j
                    < conn_of(ns, kk).len() ==> has_pos(ns, #[trigger] conn_of(ns, kk)[j]),
            sticks@.len() == edges_upto(ns, k as int).len(),
            forall|i: int|
                0 <= i < edges_upto(ns, k as int).len() ==> stick_matches(
                    ns,
                    edges_upto(ns, k as int)[i],
                    next_id as int,
                    *table,
                    #[trigger] sticks@[i],
                ),
        decreases n - k,
    {
        let node: &SpawnNode = &mesh_network[k];
        if node.connection.is_some() && node.connection_material.is_some()
            && node.connection_mesh.is_some() && node.connection_size.is_some() {
            let conn: &Vec<Vec3> = node.connection.as_ref().unwrap();
            let cl: usize = conn.len();
            let mut j: usize = 0;
            while j < cl
                invariant
                    j <= cl,
                    k < n,
                    n == ns.len(),
                    mesh_network@ == ns,
                    table.wf(),
                    next_id + n <= u64::MAX,
                    node_has_conn(ns, k as int),
                    node_lengths_ok(ns, k as int),
                    *node == ns[k as int],
                    ns[k as int].connection == Some(*conn),
                    cl == conn@.len(),
                    forall|kk: int| 0 <= kk < n ==> (#[trigger] ns[kk]).point.wf(),
                    forall|kk: int| 0 <= kk < n ==> #[trigger] node_interned(ns, kk, *table),
                    forall|kk: int, jj: int|
                        0 <= kk < n && node_has_conn(ns, kk) && node_lengths_ok(ns, kk) && 0 <= jj
                            < conn_of(ns, kk).len() ==> has_pos(
                            ns,
                            #[trigger] conn_of(ns, kk)[jj],
                        ),
                    sticks@.len() == edges_upto(ns, k as int).len() + edges_for(
                        ns,
                        k as int,
                        j as int,
                    ).len(),
                    forall|i: int|
                        0 <= i < sticks@.len() ==> stick_matches(
                            ns,
                            (edges_upto(ns, k as int) + edges_for(ns, k as int, j as int))[i],
                            next_id as int,
                            *table,
                            #[trigger] sticks@[i],
                        ),
                decreases cl - j,
            {
                let pos: Vec3 = conn[j];
                proof {
                    assert(conn_of(ns, k as int)[j as int] == pos);
                    assert(has_pos(ns, pos));
                }
                let m: usize = find_pos(mesh_network, pos);
                if k <= m {
                    proof {
                        assert(ns[k as int].point.wf());
                        assert(ns[m as int].point.wf());
                        assert(node_interned(ns, k as int, *table));
                    }
                    let p1: Vec3 = node.point.position;
                    let p2: Vec3 = mesh_network[m].point.position;
                    proof {
                        crate::solver::lemma_dist_facts(p1, p2, PART_BOUND as int);
                        crate::fixed::lemma_tdiv_bound(p1.x + p2.x, 2);
                        crate::fixed::lemma_tdiv_bound(p1.y + p2.y, 2);
                        crate::fixed::lemma_tdiv_bound(p1.z + p2.z, 2);
                        assert((p1.x + p2.x) * 1i64 == p1.x + p2.x);
                        assert((p1.y + p2.y) * 1i64 == p1.y + p2.y);
                        assert((p1.z + p2.z) * 1i64 == p1.z + p2.z);
                    }
                    proof {
                        assert(node_lengths_ok(ns, k as int));
                        assert(has_mesh(table.meshes@, cmesh_of(ns, k as int)[j as int]));
                        assert(has_material(
                            table.materials@,
                            cmat_of(ns, k as int)[j as int],
                        ));
                    }
                    let rest: i64 = crate::vec3::dist_exec(p1, p2);
                    let mid: Vec3 = Vec3 {
                        x: crate::fixed::mul_div(p1.x + p2.x, 1, 2),
                        y: crate::fixed::mul_div(p1.y + p2.y, 1, 2),
                        z: crate::fixed::mul_div(p1.z + p2.z, 1, 2),
                    };
                    let mesh_h: usize = lookup_mesh(
                        table,
                        node.connection_mesh.as_ref().unwrap()[j],
                    );
                    let material_h: usize = lookup_material(
                        table,
                        node.connection_material.as_ref().unwrap()[j],
                    );
                    let scale: Vec3 = match &node.connection_scale {
                        Some(sc) => sc[j],
                        None => Vec3 { x: SCALE, y: SCALE, z: SCALE },
                    };
                    let st = PlannedStick {
                        stick: Stick {
                            point1: next_id + (k as u64),
                            point2: next_id + (m as u64),
                            length: rest,
                        },
                        mesh: mesh_h,
                        material: material_h,
                        size: node.connection_size.as_ref().unwrap()[j],
                        scale,
                        midpoint: mid,
                    };
                    sticks.push(st);
                    proof {
                        let e = (k as int, j as int, m as int);
                        assert(first_pos(ns, pos) == m as int);
                        assert(edges_for(ns, k as int, j as int + 1) =~= edges_for(
                            ns,
                            k as int,
                            j as int,
                        ).push(e));
                        assert(stick_matches(ns, e, next_id as int, *table, st));
                    }
                } else {
                    proof {
                        assert(first_pos(ns, pos) == m as int);
                        assert(edges_for(ns, k as int, j as int + 1) =~= edges_for(
                            ns,
                            k as int,
                            j as int,
                        ));
                    }
                }
                j = j + 1;
            }
            proof {
                assert(edges_upto(ns, k as int + 1) =~= edges_upto(ns, k as int) + edges_for(
                    ns,
                    k as int,
                    conn_of(ns, k as int).len() as int,
                ));
            }
        } else {
            proof {
                assert(edges_upto(ns, k as int + 1) =~= edges_upto(ns, k as int));
            }
        }
        k = k + 1;
    }
    Ok(SpawnPlan { points, sticks })
}

} // verus!
