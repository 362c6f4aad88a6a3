//! The simulation world: the particle and stick sets, the shared resource
//! table, the buffered spawn intake, play control, and the per-tick
//! pipeline that ties every stage together.

use vstd::prelude::*;

use crate::params::{FrameComparison, SimulationPlayState, SimulationPlayStateRequest,
    SimulationSettings};
use crate::particle::{MAX_TICK_US, PART_BOUND, Point, Stick};
use crate::solver::{clamp_all, converge, lemma_point_passes_locked, converge_spec, distinct_ids, filter, frame_after_compute,
    has_id, id_index, integrate_spec, jerk_spec, moved_beyond, relax_pass, restore_stick_constraints,
    update_points, wf_points, wf_sticks};
use crate::spawn::{ResourceTable, SpawnError, SpawnNode, SpawnPlan, SpawnRequest, all_edges,
    batch_lengths_ok, batch_neighbors_ok, point_matches, spawner, stick_matches};
use crate::vec3::{Vec3, dist2, dist2_exec};

verus! {

/// A particle whose position strays this far (micro-units) from the origin
/// is removed from the simulation, together with its stick partners.
pub const HARD_BOUND: i64 = 5_000_000_000;

/// The live particle whose stable id is `id`.
pub open spec fn point_of(pts: Seq<Point>, ids: Seq<u64>, id: u64) -> Point {
    pts[id_index(ids, id)]
}

/// All nodes in a spawn request are well-formed particles.
pub open spec fn wf_request(req: SpawnRequest) -> bool {
    forall|k: int|
        0 <= k < req.mesh_network@.len() ==> (#[trigger] req.mesh_network@[k]).point.wf()
}

/// The whole simulation state.
pub struct World {
    /// The live particles.
    pub points: Vec<Point>,
    /// Their stable ids, one per particle, parallel to `points`.
    pub ids: Vec<u64>,
    /// The live distance constraints, referring to particles by id.
    pub sticks: Vec<Stick>,
    /// The next id to hand out; ids are never reused.
    pub next_id: u64,
    pub settings: SimulationSettings,
    pub frame: FrameComparison,
    pub play_state: SimulationPlayState,
    /// Spawn requests waiting for the next tick's flush.
    pub spawn_buffer: Vec<SpawnRequest>,
    /// Shared deduplicated visual resources.
    pub resources: ResourceTable,
}

impl World {
    pub open spec fn wf(self) -> bool {
        &&& self.points@.len() == self.ids@.len()
        &&& distinct_ids(self.ids@)
        &&& wf_points(self.points@)
        &&& wf_sticks(self.sticks@)
        &&& self.settings.wf()
        &&& forall|i: int| 0 <= i < self.ids@.len() ==> #[trigger] self.ids@[i] < self.next_id
        &&& self.resources.wf()
        &&& forall|r: int|
            0 <= r < self.spawn_buffer@.len() ==> wf_request(#[trigger] self.spawn_buffer@[r])
    }

    /// An empty, running world with stock settings.
    pub fn new() -> (r: World)
        ensures
            r.wf(),
            r.points@.len() == 0,
            r.sticks@.len() == 0,
            r.spawn_buffer@.len() == 0,
            r.next_id == 0,
            r.play_state == SimulationPlayState::Running,
            r.frame == (FrameComparison { frames_since: 0u32, changed: true }),
    {
        World {
            points: Vec::new(),
            ids: Vec::new(),
            sticks: Vec::new(),
            next_id: 0,
            settings: SimulationSettings::default(),
            frame: FrameComparison::default(),
            play_state: SimulationPlayState::Running,
            spawn_buffer: Vec::new(),
            resources: ResourceTable::new(),
        }
    }

    /// Queue a spawn request; it takes effect at the start of the next
    /// tick, never in the middle of one.
    pub fn buffer_spawn(&mut self, req: SpawnRequest)
        requires
            old(self).wf(),
            wf_request(req),
        ensures
            final(self).wf(),
            final(self).spawn_buffer@ == old(self).spawn_buffer@.push(req),
            *final(self) == (World { spawn_buffer: final(self).spawn_buffer, ..*old(self) }),
    {
        self.spawn_buffer.push(req);
    }

    /// Instantiate one batch now: plan it with `spawner`, then append the
    /// planned particles and sticks. A flawed batch changes nothing but the
    /// resource table (descriptors seen before the flaw stay interned). The
    /// returned plan carries the visual data the render host needs to
    /// create the objects.
    pub fn apply_spawn(&mut self, mesh_network: &Vec<SpawnNode>) -> (r: Result<
        SpawnPlan,
        SpawnError,
    >)
        requires
            old(self).wf(),
            forall|k: int|
                0 <= k < mesh_network@.len() ==> (#[trigger] mesh_network@[k]).point.wf(),
            old(self).next_id + mesh_network@.len() <= u64::MAX,
        ensures
            final(self).wf(),
            (r is Ok) == (batch_lengths_ok(mesh_network@) && batch_neighbors_ok(mesh_network@)),
            final(self).settings == old(self).settings,
            final(self).frame == old(self).frame,
            final(self).play_state == old(self).play_state,
            final(self).spawn_buffer == old(self).spawn_buffer,
            r is Err ==> final(self).points == old(self).points && final(self).ids == old(
                self,
            ).ids && final(self).sticks == old(self).sticks && final(self).next_id == old(
                self,
            ).next_id,
            r is Ok ==> {
                let plan = r.unwrap();
                let n = mesh_network@.len() as int;
                let op = old(self).points@.len() as int;
                let os = old(self).sticks@.len() as int;
                &&& plan.points@.len() == n
                &&& forall|k: int|
                    0 <= k < n ==> point_matches(
                        mesh_network@,
                        k,
                        old(self).next_id as int,
                        final(self).resources,
                        #[trigger] plan.points@[k],
                    )
                &&& plan.sticks@.len() == all_edges(mesh_network@).len()
                &&& forall|i: int|
                    0 <= i < all_edges(mesh_network@).len() ==> stick_matches(
                        mesh_network@,
                        all_edges(mesh_network@)[i],
                        old(self).next_id as int,
                        final(self).resources,
                        #[trigger] plan.sticks@[i],
                    )
                &&& final(self).points@.len() == op + n
                &&& final(self).ids@.len() == op + n
                &&& forall|i: int|
                    0 <= i < op ==> final(self).points@[i] == old(self).points@[i]
                        && final(self).ids@[i] == old(self).ids@[i]
                &&& forall|k: int|
                    0 <= k < n ==> final(self).points@[op + k] == mesh_network@[k].point
                        && final(self).ids@[op + k] == old(self).next_id + k
                &&& final(self).sticks@.len() == os + all_edges(mesh_network@).len()
                &&& forall|i: int|
                    0 <= i < os ==> final(self).sticks@[i] == old(self).sticks@[i]
                &&& forall|i: int|
                    0 <= i < all_edges(mesh_network@).len() ==> final(self).sticks@[os + i]
                        == plan.sticks@[i].stick
                &&& final(self).next_id == old(self).next_id + n
            },
    {
        let plan_result = spawner(mesh_network, self.next_id, &mut self.resources);
        match plan_result {
            Err(e) => Err(e),
            Ok(plan) => {
                let ghost ns = mesh_network@;
                let ghost op = self.points@.len() as int;
                let ghost os = self.sticks@.len() as int;
                let ghost base = self.next_id;
                let n: usize = plan.points.len();
                let mut k: usize = 0;
                while k < n
                    invariant
                        k <= n,
                        n == ns.len(),
                        mesh_network@ == ns,
                        n == plan.points@.len(),
                        old(self).next_id == base,
                        self.next_id == base,
                        base + n <= u64::MAX,
                        forall|kk: int| 0 <= kk < n ==> (#[trigger] ns[kk]).point.wf(),
                        forall|kk: int|
                            0 <= kk < n ==> point_matches(
                                ns,
                                kk,
                                base as int,
                                self.resources,
                                #[trigger] plan.points@[kk],
                            ),
                        self.points@.len() == op + k,
                        self.ids@.len() == op + k,
                        op == old(self).points@.len(),
                        forall|i: int|
                            0 <= i < op ==> self.points@[i] == old(self).points@[i]
                                && self.ids@[i] == old(self).ids@[i],
                        forall|kk: int|
                            0 <= kk < k ==> self.points@[op + kk] == ns[kk].point && self.ids@[op
                                + kk] == base + kk,
                        wf_points(self.points@),
                        forall|i: int, j: int|
                            0 <= i < j < self.ids@.len() ==> self.ids@[i] != self.ids@[j],
                        forall|i: int| 0 <= i < self.ids@.len() ==> #[trigger] self.ids@[i] < base + k,
                        forall|i: int| 0 <= i < op ==> #[trigger] self.ids@[i] < base,
                        plan.sticks@.len() == all_edges(ns).len(),
                        forall|ii: int|
                            0 <= ii < plan.sticks@.len() ==> stick_matches(
                                ns,
                                all_edges(ns)[ii],
                                base as int,
                                self.resources,
                                #[trigger] plan.sticks@[ii],
                            ),
                        self.sticks == old(self).sticks,
                        self.settings == old(self).settings,
                        self.frame == old(self).frame,
                        self.play_state == old(self).play_state,
                        self.spawn_buffer == old(self).spawn_buffer,
                        self.settings.wf(),
                        wf_sticks(self.sticks@),
                        self.resources.wf(),
                        forall|r_: int|
                            0 <= r_ < self.spawn_buffer@.len() ==> wf_request(
                                #[trigger] self.spawn_buffer@[r_],
                            ),
                    decreases n - k,
                {
                    let pp = &plan.points[k];
                    self.points.push(pp.point);
                    self.ids.push(pp.id);
                    k = k + 1;
                }
                let m: usize = plan.sticks.len();
                let mut i: usize = 0;
                while i < m
                    invariant
                        i <= m,
                        m == plan.sticks@.len(),
                        m == all_edges(ns).len(),
                        mesh_network@ == ns,
                        n == ns.len(),
                        n == plan.points@.len(),
                        old(self).next_id == base,
                        self.next_id == base,
                        base + n <= u64::MAX,
                        forall|ii: int|
                            0 <= ii < m ==> stick_matches(
                                ns,
                                all_edges(ns)[ii],
                                base as int,
                                self.resources,
                                #[trigger] plan.sticks@[ii],
                            ),
                        forall|kk: int|
                            0 <= kk < n ==> point_matches(
                                ns,
                                kk,
                                base as int,
                                self.resources,
                                #[trigger] plan.points@[kk],
                            ),
                        self.sticks@.len() == os + i,
                        os == old(self).sticks@.len(),
                        forall|ii: int|
                            0 <= ii < os ==> self.sticks@[ii] == old(self).sticks@[ii],
                        forall|ii: int|
                            0 <= ii < i ==> self.sticks@[os + ii] == plan.sticks@[ii].stick,
                        wf_sticks(self.sticks@),
                        self.points@.len() == op + n,
                        self.ids@.len() == op + n,
                        op == old(self).points@.len(),
                        forall|ii: int|
                            0 <= ii < op ==> self.points@[ii] == old(self).points@[ii]
                                && self.ids@[ii] == old(self).ids@[ii],
                        forall|kk: int|
                            0 <= kk < n ==> self.points@[op + kk] == ns[kk].point && self.ids@[op
                                + kk] == base + kk,
                        wf_points(self.points@),
                        forall|a: int, b: int|
                            0 <= a < b < self.ids@.len() ==> self.ids@[a] != self.ids@[b],
                        forall|a: int| 0 <= a < self.ids@.len() ==> #[trigger] self.ids@[a] < base + n,
                        self.settings == old(self).settings,
                        self.frame == old(self).frame,
                        self.play_state == old(self).play_state,
                        self.spawn_buffer == old(self).spawn_buffer,
                        self.settings.wf(),
                        self.resources.wf(),
                        forall|r_: int|
                            0 <= r_ < self.spawn_buffer@.len() ==> wf_request(
                                #[trigger] self.spawn_buffer@[r_],
                            ),
                    decreases m - i,
                {
                    proof {
                        assert(stick_matches(
                            ns,
                            all_edges(ns)[i as int],
                            base as int,
                            self.resources,
                            plan.sticks@[i as int],
                        ));
                    }
                    self.sticks.push(plan.sticks[i].stick);
                    i = i + 1;
                }
                self.next_id = self.next_id + (n as u64);
                Ok(plan)
            },
        }
    }
}


/// Whether a particle has strayed past the hard simulation bound.
pub open spec fn out_of_bounds(p: Point) -> bool {
    dist2(Vec3 { x: 0i64, y: 0i64, z: 0i64 }, p.position) >= HARD_BOUND * HARD_BOUND
}

/// Whether stick `st` drags the particle at index `i` out with it: both
/// endpoints are live, one of them is out of bounds, and `i` is one of
/// them.
pub open spec fn stick_pulls(pts: Seq<Point>, ids: Seq<u64>, st: Stick, i: int) -> bool {
    &&& has_id(ids, st.point1)
    &&& has_id(ids, st.point2)
    &&& (out_of_bounds(pts[id_index(ids, st.point1)]) || out_of_bounds(
        pts[id_index(ids, st.point2)],
    ))
    &&& (ids[i] == st.point1 || ids[i] == st.point2)
}

/// Like `stick_pulls`, over the first `n` sticks.
pub open spec fn pulled_upto(
    pts: Seq<Point>,
    ids: Seq<u64>,
    sticks: Seq<Stick>,
    n: int,
    i: int,
) -> bool {
    exists|k: int| 0 <= k < n && stick_pulls(pts, ids, #[trigger] sticks[k], i)
}

/// Whether the overflow sweep removes the particle at index `i`: it is out
/// of bounds itself, or a stick ties it to one that is.
pub open spec fn culled(pts: Seq<Point>, ids: Seq<u64>, sticks: Seq<Stick>, i: int) -> bool {
    out_of_bounds(pts[i]) || pulled_upto(pts, ids, sticks, sticks.len() as int, i)
}

/// Extending the stick prefix by one adds exactly that stick's test.
pub proof fn lemma_pulled_extend(pts: Seq<Point>, ids: Seq<u64>, sticks: Seq<Stick>, n: int, i: int)
    requires
        0 <= n,
    ensures
        pulled_upto(pts, ids, sticks, n + 1, i) == (pulled_upto(pts, ids, sticks, n, i)
            || stick_pulls(pts, ids, sticks[n], i)),
{
    if pulled_upto(pts, ids, sticks, n + 1, i) {
        let w = choose|k: int| 0 <= k < n + 1 && stick_pulls(pts, ids, #[trigger] sticks[k], i);
        if w < n {
            assert(pulled_upto(pts, ids, sticks, n, i));
        }
    }
    if pulled_upto(pts, ids, sticks, n, i) {
        let w = choose|k: int| 0 <= k < n && stick_pulls(pts, ids, #[trigger] sticks[k], i);
        assert(stick_pulls(pts, ids, sticks[w], i));
        assert(pulled_upto(pts, ids, sticks, n + 1, i));
    }
    if stick_pulls(pts, ids, sticks[n], i) {
        assert(pulled_upto(pts, ids, sticks, n + 1, i));
    }
}

/// Which particles the overflow sweep removes: `marks[i]` says whether
/// particle `i` is out of bounds or tied by a stick to one that is.
fn compute_cull_marks(points: &Vec<Point>, ids: &Vec<u64>, sticks: &Vec<Stick>) -> (marks: Vec<
    bool,
>)
    requires
        wf_points(points@),
        distinct_ids(ids@),
        points@.len() == ids@.len(),
    ensures
        marks@.len() == points@.len(),
        forall|i: int|
            0 <= i < points@.len() ==> marks@[i] == culled(points@, ids@, sticks@, i),
{
    let ghost pts: Seq<Point> = points@;
    let ghost ids0: Seq<u64> = ids@;
    let ghost stks: Seq<Stick> = sticks@;
    let n: usize = points.len();
    let ns: usize = sticks.len();
    let hb2: u128 = (HARD_BOUND as u128) * (HARD_BOUND as u128);
    proof {
        assert((HARD_BOUND as int) * (HARD_BOUND as int) == 25_000_000_000_000_000_000int)
            by (nonlinear_arith)
            requires
                HARD_BOUND == 5_000_000_000i64,
        ;
    }
    let mut marks: Vec<bool> = Vec::new();
    let mut i: usize = 0;
    while i < n
        invariant
            i <= n,
            marks@.len() == i,
            forall|j: int| 0 <= j < i ==> marks@[j] == false,
        decreases n - i,
    {
        marks.push(false);
        i = i + 1;
    }
    let mut k: usize = 0;
    while k < ns
        invariant
            k <= ns,
            n == pts.len(),
            ns == stks.len(),
            points@ == pts,
            ids@ == ids0,
            sticks@ == stks,
            pts.len() == ids0.len(),
            distinct_ids(ids0),
            wf_points(pts),
            marks@.len() == n,
            hb2 == (HARD_BOUND as int) * (HARD_BOUND as int),
            forall|i_: int|
                0 <= i_ < n ==> marks@[i_] == pulled_upto(pts, ids0, stks, k as int, i_),
        decreases ns - k,
    {
        let st: Stick = sticks[k];
        let i1: usize = crate::solver::find_id(ids, st.point1);
        let i2: usize = crate::solver::find_id(ids, st.point2);
        if i1 < n && i2 < n {
            proof {
                assert(ids0[i1 as int] == st.point1 && ids0[i2 as int] == st.point2);
                assert(id_index(ids0, st.point1) == i1 as int);
                assert(id_index(ids0, st.point2) == i2 as int);
            }
            let zero: Vec3 = Vec3 { x: 0, y: 0, z: 0 };
            let o1: u128 = dist2_exec(zero, points[i1].position);
            let o2: u128 = dist2_exec(zero, points[i2].position);
            if o1 >= hb2 || o2 >= hb2 {
                marks.set(i1, true);
                marks.set(i2, true);
                proof {
                    assert forall|i_: int| 0 <= i_ < n implies marks@[i_] == pulled_upto(
                        pts,
                        ids0,
                        stks,
                        k as int + 1,
                        i_,
                    ) by {
                        lemma_pulled_extend(pts, ids0, stks, k as int, i_);
                        if i_ == i1 as int || i_ == i2 as int {
                            assert(stick_pulls(pts, ids0, stks[k as int], i_));
                        } else {
                            assert(ids0[i_] != st.point1 && ids0[i_] != st.point2);
                            assert(!stick_pulls(pts, ids0, stks[k as int], i_));
                        }
                    }
                }
            } else {
                proof {
                    assert forall|i_: int| 0 <= i_ < n implies marks@[i_] == pulled_upto(
                        pts,
                        ids0,
                        stks,
                        k as int + 1,
                        i_,
                    ) by {
                        lemma_pulled_extend(pts, ids0, stks, k as int, i_);
                        assert(!stick_pulls(pts, ids0, stks[k as int], i_));
                    }
                }
            }
        } else {
            proof {
                assert forall|i_: int| 0 <= i_ < n implies marks@[i_] == pulled_upto(
                    pts,
                    ids0,
                    stks,
                    k as int + 1,
                    i_,
                ) by {
                    lemma_pulled_extend(pts, ids0, stks, k as int, i_);
                    if i1 >= n {
                        assert(!has_id(ids0, st.point1));
                    } else {
                        assert(!has_id(ids0, st.point2));
                    }
                    assert(!stick_pulls(pts, ids0, stks[k as int], i_));
                }
            }
        }
        k = k + 1;
    }
    let mut i: usize = 0;
    while i < n
        invariant
            i <= n,
            n == pts.len(),
            ns == stks.len(),
            points@ == pts,
            ids@ == ids0,
            sticks@ == stks,
            pts.len() == ids0.len(),
            wf_points(pts),
            marks@.len() == n,
            hb2 == (HARD_BOUND as int) * (HARD_BOUND as int),
            forall|j: int| i <= j < n ==> marks@[j] == pulled_upto(pts, ids0, stks, ns as int, j),
            forall|j: int| 0 <= j < i ==> marks@[j] == culled(pts, ids0, stks, j),
        decreases n - i,
    {
        let zero: Vec3 = Vec3 { x: 0, y: 0, z: 0 };
        let o: u128 = dist2_exec(zero, points[i].position);
        if o >= hb2 {
            marks.set(i, true);
        }
        i = i + 1;
    }
    marks
}

/// Keep exactly the unmarked particles, in order, with their ids.
fn filter_marked(points: &Vec<Point>, ids: &Vec<u64>, marks: &Vec<bool>) -> (r: (Vec<Point>, Vec<
    u64,
>))
    requires
        points@.len() == ids@.len(),
        marks@.len() == points@.len(),
        distinct_ids(ids@),
        wf_points(points@),
    ensures
        r.0@.len() == r.1@.len(),
        wf_points(r.0@),
        distinct_ids(r.1@),
        filtered_sound(points@, ids@, marks@, r.0@, r.1@),
        filtered_complete(points@, ids@, marks@, r.0@, r.1@),
        (forall|j: int| 0 <= j < marks@.len() ==> !(#[trigger] marks@[j])) ==> r.0@ == points@
            && r.1@ == ids@,
{
    let ghost pts: Seq<Point> = points@;
    let ghost ids0: Seq<u64> = ids@;
    let n: usize = points.len();
    let mut new_points: Vec<Point> = Vec::new();
    let mut new_ids: Vec<u64> = Vec::new();
    let ghost mut srcs: Seq<int> = Seq::empty();
    let mut i: usize = 0;
    while i < n
        invariant
            i <= n,
            n == pts.len(),
            points@ == pts,
            ids@ == ids0,
            pts.len() == ids0.len(),
            marks@.len() == n,
            distinct_ids(ids0),
            wf_points(pts),
            new_points@.len() == new_ids@.len(),
            srcs.len() == new_ids@.len(),
            forall|a: int|
                0 <= a < srcs.len() ==> 0 <= #[trigger] srcs[a] < i && new_ids@[a]
                    == ids0[srcs[a]] && new_points@[a] == pts[srcs[a]] && !marks@[srcs[a]],
            forall|a: int, b: int| 0 <= a < b < srcs.len() ==> srcs[a] < srcs[b],
            forall|j: int|
                0 <= j < i && !(#[trigger] marks@[j]) ==> exists|a: int|
                    0 <= a < srcs.len() && srcs[a] == j,
            (forall|j: int| 0 <= j < i ==> !(#[trigger] marks@[j])) ==> new_points@
                == pts.subrange(0, i as int) && new_ids@ == ids0.subrange(0, i as int),
        decreases n - i,
    {
        let ghost srcs_pre: Seq<int> = srcs;
        if !marks[i] {
            new_points.push(points[i]);
            new_ids.push(ids[i]);
            proof {
                srcs = srcs.push(i as int);
            }
        }
        proof {
            assert forall|j: int|
                0 <= j < i + 1 && !(#[trigger] marks@[j]) implies exists|a: int|
                0 <= a < srcs.len() && srcs[a] == j by {
                if j == i as int {
                    assert(srcs[srcs.len() - 1] == j);
                } else {
                    let a = choose|a: int| 0 <= a < srcs_pre.len() && srcs_pre[a] == j;
                    assert(srcs[a] == j);
                }
            }
            if forall|j: int| 0 <= j < i + 1 ==> !(#[trigger] marks@[j]) {
                assert(new_points@ =~= pts.subrange(0, i as int + 1));
                assert(new_ids@ =~= ids0.subrange(0, i as int + 1));
            }
        }
        i = i + 1;
    }
    proof {
        assert forall|a: int, b: int|
            0 <= a < b < new_ids@.len() implies new_ids@[a] != new_ids@[b] by {
            assert(ids0[srcs[a]] != ids0[srcs[b]]);
        }
        assert forall|a: int| 0 <= a < new_ids@.len() implies #[trigger] kept_from(
            pts,
            ids0,
            marks@,
            new_points@,
            new_ids@,
            a,
        ) by {
            let j = srcs[a];
            assert(0 <= j < ids0.len() && new_ids@[a] == ids0[j] && new_points@[a] == pts[j]
                && !marks@[j]);
        }
        assert forall|j: int|
            0 <= j < ids0.len() && !(#[trigger] marks@[j]) implies keeps(
            pts,
            ids0,
            new_points@,
            new_ids@,
            j,
        ) by {
            let a = choose|a: int| 0 <= a < srcs.len() && srcs[a] == j;
            assert(new_ids@[a] == ids0[srcs[a]] && new_points@[a] == pts[srcs[a]]);
            assert(0 <= a < new_ids@.len() && new_ids@[a] == ids0[j] && new_points@[a]
                == pts[j]);
        }
        assert forall|a: int|
            0 <= a < new_points@.len() implies (#[trigger] new_points@[a]).wf() by {
            assert(new_points@[a] == pts[srcs[a]]);
            assert(pts[srcs[a]].wf());
        }
        if forall|j: int| 0 <= j < marks@.len() ==> !(#[trigger] marks@[j]) {
            assert(pts.subrange(0, n as int) =~= pts);
            assert(ids0.subrange(0, n as int) =~= ids0);
        }
    }
    (new_points, new_ids)
}

/// Keep exactly the sticks whose two endpoints are both live.
fn filter_dangling_sticks(sticks: &Vec<Stick>, ids: &Vec<u64>) -> (r: Vec<Stick>)
    requires
        wf_sticks(sticks@),
    ensures
        wf_sticks(r@),
        sticks_subset(sticks@, r@),
        (forall|kk: int|
            0 <= kk < sticks@.len() ==> has_id(ids@, (#[trigger] sticks@[kk]).point1) && has_id(
                ids@,
                sticks@[kk].point2,
            )) ==> r@ == sticks@,
{
    let ghost stks: Seq<Stick> = sticks@;
    let ghost ids0: Seq<u64> = ids@;
    let ns: usize = sticks.len();
    let mut new_sticks: Vec<Stick> = Vec::new();
    let mut k: usize = 0;
    while k < ns
        invariant
            k <= ns,
            ns == stks.len(),
            ids@ == ids0,
            sticks@ == stks,
            wf_sticks(stks),
            forall|a: int|
                0 <= a < new_sticks@.len() ==> #[trigger] stick_from(stks, new_sticks@, a),
            wf_sticks(new_sticks@),
            (forall|kk: int|
                0 <= kk < k ==> has_id(ids0, (#[trigger] stks[kk]).point1) && has_id(
                    ids0,
                    stks[kk].point2,
                )) ==> new_sticks@ == stks.subrange(0, k as int),
        decreases ns - k,
    {
        let st: Stick = sticks[k];
        let i1: usize = crate::solver::find_id(ids, st.point1);
        let i2: usize = crate::solver::find_id(ids, st.point2);
        if i1 < ids.len() && i2 < ids.len() {
            let ghost ns_pre: Seq<Stick> = new_sticks@;
            new_sticks.push(st);
            proof {
                assert forall|a: int|
                    0 <= a < new_sticks@.len() implies #[trigger] stick_from(
                    stks,
                    new_sticks@,
                    a,
                ) by {
                    if a < ns_pre.len() {
                        assert(stick_from(stks, ns_pre, a));
                        let kk = choose|kk: int|
                            0 <= kk < stks.len() && #[trigger] ns_pre[a] == stks[kk];
                        assert(new_sticks@[a] == stks[kk]);
                    } else {
                        assert(new_sticks@[a] == stks[k as int]);
                    }
                }
            }
        } else {
            proof {
                if i1 >= ids@.len() {
                    assert(!has_id(ids0, st.point1));
                } else {
                    assert(!has_id(ids0, st.point2));
                }
            }
        }
        proof {
            if forall|kk: int|
                0 <= kk < k + 1 ==> has_id(ids0, (#[trigger] stks[kk]).point1) && has_id(
                    ids0,
                    stks[kk].point2,
                ) {
                assert(new_sticks@ =~= stks.subrange(0, k as int + 1));
            }
        }
        k = k + 1;
    }
    proof {
        assert(stks.subrange(0, ns as int) =~= stks);
    }
    new_sticks
}

/// Entry `a` of the filtered set is one of the unmarked originals.
pub open spec fn kept_from(
    pts: Seq<Point>,
    ids: Seq<u64>,
    marks: Seq<bool>,
    rp: Seq<Point>,
    ri: Seq<u64>,
    a: int,
) -> bool {
    exists|j: int|
        0 <= j < ids.len() && #[trigger] ri[a] == ids[j] && rp[a] == pts[j] && !marks[j]
}

/// Original `j` survives into the filtered set, unchanged.
pub open spec fn keeps(
    pts: Seq<Point>,
    ids: Seq<u64>,
    rp: Seq<Point>,
    ri: Seq<u64>,
    j: int,
) -> bool {
    exists|a: int| 0 <= a < ri.len() && #[trigger] ri[a] == ids[j] && rp[a] == pts[j]
}

/// Every kept particle is one of the unmarked originals, with its id.
pub open spec fn filtered_sound(
    pts: Seq<Point>,
    ids: Seq<u64>,
    marks: Seq<bool>,
    rp: Seq<Point>,
    ri: Seq<u64>,
) -> bool {
    forall|a: int| 0 <= a < ri.len() ==> #[trigger] kept_from(pts, ids, marks, rp, ri, a)
}

/// Every unmarked original survives, with its id and state.
pub open spec fn filtered_complete(
    pts: Seq<Point>,
    ids: Seq<u64>,
    marks: Seq<bool>,
    rp: Seq<Point>,
    ri: Seq<u64>,
) -> bool {
    forall|j: int|
        0 <= j < ids.len() && !(#[trigger] marks[j]) ==> keeps(pts, ids, rp, ri, j)
}

/// Entry `a` of the survivor set is an unculled original.
pub open spec fn survivor_from(
    pts: Seq<Point>,
    ids: Seq<u64>,
    stks: Seq<Stick>,
    rp: Seq<Point>,
    ri: Seq<u64>,
    a: int,
) -> bool {
    exists|j: int|
        0 <= j < ids.len() && #[trigger] ri[a] == ids[j] && rp[a] == pts[j] && !culled(
            pts,
            ids,
            stks,
            j,
        )
}

/// Every survivor of the overflow sweep is an unculled original.
pub open spec fn survivors_sound(
    pts: Seq<Point>,
    ids: Seq<u64>,
    stks: Seq<Stick>,
    rp: Seq<Point>,
    ri: Seq<u64>,
) -> bool {
    forall|a: int| 0 <= a < ri.len() ==> #[trigger] survivor_from(pts, ids, stks, rp, ri, a)
}

/// Every unculled original survives the overflow sweep unchanged.
pub open spec fn survivors_complete(
    pts: Seq<Point>,
    ids: Seq<u64>,
    stks: Seq<Stick>,
    rp: Seq<Point>,
    ri: Seq<u64>,
) -> bool {
    forall|j: int|
        0 <= j < ids.len() && !(#[trigger] culled(pts, ids, stks, j)) ==> keeps(
            pts,
            ids,
            rp,
            ri,
            j,
        )
}

/// Entry `a` of the kept sticks is one of the originals.
pub open spec fn stick_from(stks: Seq<Stick>, r: Seq<Stick>, a: int) -> bool {
    exists|k: int| 0 <= k < stks.len() && #[trigger] r[a] == stks[k]
}

/// Every kept stick is one of the originals.
pub open spec fn sticks_subset(stks: Seq<Stick>, r: Seq<Stick>) -> bool {
    forall|a: int| 0 <= a < r.len() ==> #[trigger] stick_from(stks, r, a)
}

/// With marks agreeing with the cull predicate, a marks-exact filtering is
/// a cull-exact one.
pub proof fn lemma_filtered_culled(
    pts: Seq<Point>,
    ids: Seq<u64>,
    stks: Seq<Stick>,
    marks: Seq<bool>,
    rp: Seq<Point>,
    ri: Seq<u64>,
)
    requires
        marks.len() == pts.len(),
        pts.len() == ids.len(),
        forall|i: int| 0 <= i < pts.len() ==> marks[i] == culled(pts, ids, stks, i),
        filtered_sound(pts, ids, marks, rp, ri),
        filtered_complete(pts, ids, marks, rp, ri),
    ensures
        survivors_sound(pts, ids, stks, rp, ri),
        survivors_complete(pts, ids, stks, rp, ri),
{
    assert forall|a: int| 0 <= a < ri.len() implies #[trigger] survivor_from(
        pts,
        ids,
        stks,
        rp,
        ri,
        a,
    ) by {
        assert(kept_from(pts, ids, marks, rp, ri, a));
        let j = choose|j: int|
            0 <= j < ids.len() && #[trigger] ri[a] == ids[j] && rp[a] == pts[j] && !marks[j];
        assert(marks[j] == culled(pts, ids, stks, j));
        assert(0 <= j < ids.len() && ri[a] == ids[j] && rp[a] == pts[j] && !culled(
            pts,
            ids,
            stks,
            j,
        ));
    }
    assert forall|j: int|
        0 <= j < ids.len() && !(#[trigger] culled(pts, ids, stks, j)) implies keeps(
        pts,
        ids,
        rp,
        ri,
        j,
    ) by {
        assert(marks[j] == culled(pts, ids, stks, j));
        assert(!marks[j]);
    }
}

impl World {
    /// Remove every particle out of the hard bound, drag its stick
    /// partners out with it, and drop sticks that have lost an endpoint to
    /// an earlier sweep. If nothing is out and no stick dangles, nothing
    /// changes.
    pub fn despawn_overflows(&mut self)
        requires
            old(self).wf(),
        ensures
            final(self).wf(),
            final(self).settings == old(self).settings,
            final(self).frame == old(self).frame,
            final(self).play_state == old(self).play_state,
            final(self).spawn_buffer == old(self).spawn_buffer,
            final(self).next_id == old(self).next_id,
            final(self).resources == old(self).resources,
            final(self).points@.len() == final(self).ids@.len(),
            survivors_sound(
                old(self).points@,
                old(self).ids@,
                old(self).sticks@,
                final(self).points@,
                final(self).ids@,
            ),
            survivors_complete(
                old(self).points@,
                old(self).ids@,
                old(self).sticks@,
                final(self).points@,
                final(self).ids@,
            ),
            sticks_subset(old(self).sticks@, final(self).sticks@),
            (forall|j: int|
                0 <= j < old(self).ids@.len() ==> !culled(
                    old(self).points@,
                    old(self).ids@,
                    old(self).sticks@,
                    j,
                )) ==> final(self).points@ == old(self).points@
                && final(self).ids@ == old(self).ids@,
            (forall|k: int|
                0 <= k < old(self).sticks@.len() ==> has_id(
                    old(self).ids@,
                    (#[trigger] old(self).sticks@[k]).point1,
                ) && has_id(old(self).ids@, old(self).sticks@[k].point2)) ==> final(self).sticks@
                == old(self).sticks@,
    {
        let ghost pts: Seq<Point> = self.points@;
        let ghost ids0: Seq<u64> = self.ids@;
        let ghost stks: Seq<Stick> = self.sticks@;
        let marks: Vec<bool> = compute_cull_marks(&self.points, &self.ids, &self.sticks);
        let new_sticks: Vec<Stick> = filter_dangling_sticks(&self.sticks, &self.ids);
        let fp: (Vec<Point>, Vec<u64>) = filter_marked(&self.points, &self.ids, &marks);
        proof {
            lemma_filtered_culled(pts, ids0, stks, marks@, fp.0@, fp.1@);
            assert forall|a: int| 0 <= a < fp.1@.len() implies #[trigger] fp.1@[a]
                < self.next_id by {
                assert(kept_from(pts, ids0, marks@, fp.0@, fp.1@, a));
                let j = choose|j: int|
                    0 <= j < ids0.len() && #[trigger] fp.1@[a] == ids0[j] && fp.0@[a] == pts[j]
                        && !marks@[j];
                assert(ids0[j] < self.next_id);
            }
            if forall|j: int| 0 <= j < ids0.len() ==> !culled(pts, ids0, stks, j) {
                assert(forall|j: int| 0 <= j < marks@.len() ==> !(#[trigger] marks@[j]));
            }
        }
        self.sticks = new_sticks;
        self.points = fp.0;
        self.ids = fp.1;
    }
}


/// The particles one batch appends: its declared points, in order.
pub open spec fn batch_points(nm: Seq<SpawnNode>) -> Seq<Point> {
    Seq::new(nm.len(), |k: int| nm[k].point)
}

/// The ids one batch appends: fresh, counting from `base`.
pub open spec fn batch_ids(nm: Seq<SpawnNode>, base: int) -> Seq<u64> {
    Seq::new(nm.len(), |k: int| (base + k) as u64)
}

/// The sticks one batch appends: one per created edge, joining the fresh
/// ids of its endpoints at their declared distance.
pub open spec fn batch_sticks(nm: Seq<SpawnNode>, base: int) -> Seq<Stick> {
    Seq::new(
        all_edges(nm).len(),
        |i: int|
            {
                let e = all_edges(nm)[i];
                Stick {
                    point1: (base + e.0) as u64,
                    point2: (base + e.2) as u64,
                    length: crate::vec3::dist(
                        nm[e.0].point.position,
                        nm[e.2].point.position,
                    ) as i64,
                }
            },
    )
}

/// Whether a batch is instantiated: its descriptor lists and neighbour
/// references check out and the id space can still hold it.
pub open spec fn batch_admissible(nm: Seq<SpawnNode>, base: int) -> bool {
    &&& base + nm.len() <= u64::MAX
    &&& batch_lengths_ok(nm)
    &&& batch_neighbors_ok(nm)
}

/// The world state (particles, ids, sticks, next id) after instantiating
/// the first `k` buffered batches in order: each admissible batch appends
/// its points, fresh ids and sticks and advances the id counter; an
/// inadmissible batch changes nothing.
pub open spec fn flush_state(
    reqs: Seq<SpawnRequest>,
    pts: Seq<Point>,
    ids: Seq<u64>,
    stks: Seq<Stick>,
    base: int,
    k: int,
) -> (Seq<Point>, Seq<u64>, Seq<Stick>, int)
    decreases k,
{
    if k <= 0 {
        (pts, ids, stks, base)
    } else {
        let prev = flush_state(reqs, pts, ids, stks, base, k - 1);
        let nm = reqs[k - 1].mesh_network@;
        if batch_admissible(nm, prev.3) {
            (
                prev.0 + batch_points(nm),
                prev.1 + batch_ids(nm, prev.3),
                prev.2 + batch_sticks(nm, prev.3),
                prev.3 + nm.len(),
            )
        } else {
            prev
        }
    }
}

impl World {
    /// Flush the spawn buffer: instantiate each buffered batch in arrival
    /// order, returning one plan or error per batch. Existing particles and
    /// sticks keep their indices; everything appended carries a fresh id.
    pub fn flush_spawns(&mut self) -> (results: Vec<Result<SpawnPlan, SpawnError>>)
        requires
            old(self).wf(),
        ensures
            final(self).wf(),
            final(self).spawn_buffer@.len() == 0,
            final(self).settings == old(self).settings,
            final(self).frame == old(self).frame,
            final(self).play_state == old(self).play_state,
            results@.len() == old(self).spawn_buffer@.len(),
            (final(self).points@, final(self).ids@, final(self).sticks@, final(self).next_id as int)
                == flush_state(
                old(self).spawn_buffer@,
                old(self).points@,
                old(self).ids@,
                old(self).sticks@,
                old(self).next_id as int,
                old(self).spawn_buffer@.len() as int,
            ),
            forall|rr: int|
                0 <= rr < results@.len() ==> ((#[trigger] results@[rr]) is Ok
                    == batch_admissible(
                    old(self).spawn_buffer@[rr].mesh_network@,
                    flush_state(
                        old(self).spawn_buffer@,
                        old(self).points@,
                        old(self).ids@,
                        old(self).sticks@,
                        old(self).next_id as int,
                        rr,
                    ).3,
                )),
            old(self).points@.len() <= final(self).points@.len(),
            final(self).points@.len() == final(self).ids@.len(),
            forall|i: int|
                0 <= i < old(self).points@.len() ==> final(self).points@[i] == old(
                    self,
                ).points@[i] && final(self).ids@[i] == old(self).ids@[i],
            forall|i: int|
                old(self).points@.len() <= i < final(self).ids@.len()
                    ==> #[trigger] final(self).ids@[i] >= old(self).next_id,
            old(self).sticks@.len() <= final(self).sticks@.len(),
            forall|i: int|
                0 <= i < old(self).sticks@.len() ==> final(self).sticks@[i] == old(
                    self,
                ).sticks@[i],
            final(self).next_id >= old(self).next_id,
            old(self).spawn_buffer@.len() == 0 ==> final(self).points == old(self).points
                && final(self).ids == old(self).ids && final(self).sticks == old(self).sticks
                && final(self).next_id == old(self).next_id && final(self).resources == old(
                self,
            ).resources,
    {
        let mut reqs: Vec<SpawnRequest> = Vec::new();
        core::mem::swap(&mut reqs, &mut self.spawn_buffer);
        let ghost base: u64 = self.next_id;
        let ghost op: int = self.points@.len() as int;
        let ghost os: int = self.sticks@.len() as int;
        let ghost w0: World = *self;
        let mut results: Vec<Result<SpawnPlan, SpawnError>> = Vec::new();
        let n: usize = reqs.len();
        let mut r: usize = 0;
        while r < n
            invariant
                r <= n,
                n == reqs@.len(),
                results@.len() == r,
                self.wf(),
                self.spawn_buffer@.len() == 0,
                forall|rr: int| 0 <= rr < n ==> wf_request(#[trigger] reqs@[rr]),
                self.settings == w0.settings,
                self.frame == w0.frame,
                self.play_state == w0.play_state,
                op == w0.points@.len(),
                os == w0.sticks@.len(),
                base == w0.next_id,
                op <= self.points@.len(),
                self.points@.len() == self.ids@.len(),
                forall|i: int|
                    0 <= i < op ==> self.points@[i] == w0.points@[i] && self.ids@[i]
                        == w0.ids@[i],
                forall|i: int| op <= i < self.ids@.len() ==> #[trigger] self.ids@[i] >= base,
                os <= self.sticks@.len(),
                forall|i: int| 0 <= i < os ==> self.sticks@[i] == w0.sticks@[i],
                self.next_id >= base,
                (self.points@, self.ids@, self.sticks@, self.next_id as int) == flush_state(
                    reqs@,
                    w0.points@,
                    w0.ids@,
                    w0.sticks@,
                    base as int,
                    r as int,
                ),
                forall|rr: int|
                    0 <= rr < r ==> ((#[trigger] results@[rr]) is Ok == batch_admissible(
                        reqs@[rr].mesh_network@,
                        flush_state(reqs@, w0.points@, w0.ids@, w0.sticks@, base as int, rr).3,
                    )),
                n == 0 ==> self.points == w0.points && self.ids == w0.ids && self.sticks
                    == w0.sticks && self.next_id == w0.next_id && self.resources
                    == w0.resources,
            decreases n - r,
        {
            let ghost before: World = *self;
            let len: usize = reqs[r].mesh_network.len();
            if (len as u64) <= u64::MAX - self.next_id {
                proof {
                    assert(wf_request(reqs@[r as int]));
                }
                let res = self.apply_spawn(&reqs[r].mesh_network);
                let ghost res_ok: bool = res is Ok;
                results.push(res);
                proof {
                    let nm = reqs@[r as int].mesh_network@;
                    if res_ok {
                        crate::spawn::lemma_all_edges_ordered(nm, nm.len() as int);
                        assert(self.points@ =~= before.points@ + batch_points(nm));
                        assert forall|i: int|
                            0 <= i < self.ids@.len() implies #[trigger] self.ids@[i] == (
                        before.ids@ + batch_ids(nm, before.next_id as int))[i] by {
                            if i >= before.ids@.len() {
                                let kk = i - before.ids@.len();
                                assert(self.points@[before.points@.len() + kk] == nm[kk].point
                                    && self.ids@[before.points@.len() + kk] == before.next_id
                                    + kk);
                                assert(before.next_id + kk <= u64::MAX);
                                assert(batch_ids(nm, before.next_id as int)[kk] == ((
                                before.next_id as int) + kk) as u64);
                            }
                        }
                        assert(self.ids@ =~= before.ids@ + batch_ids(nm, before.next_id as int));
                        assert forall|i: int|
                            0 <= i < self.sticks@.len() implies #[trigger] self.sticks@[i] == (
                        before.sticks@ + batch_sticks(nm, before.next_id as int))[i] by {
                            if i >= before.sticks@.len() {
                                let kk = i - before.sticks@.len();
                                let e = all_edges(nm)[kk];
                                assert(stick_matches(
                                    nm,
                                    e,
                                    before.next_id as int,
                                    self.resources,
                                    res.unwrap().sticks@[kk],
                                ));
                                assert(self.sticks@[before.sticks@.len() + kk]
                                    == res.unwrap().sticks@[kk].stick);
                                assert(batch_sticks(nm, before.next_id as int)[kk].point1 == ((
                                before.next_id as int) + e.0) as u64);
                                assert(batch_sticks(nm, before.next_id as int)[kk].point2 == ((
                                before.next_id as int) + e.2) as u64);
                            }
                        }
                        assert(self.sticks@ =~= before.sticks@ + batch_sticks(
                            nm,
                            before.next_id as int,
                        ));
                    }
                    assert forall|i: int|
                        op <= i < self.ids@.len() implies #[trigger] self.ids@[i] >= base by {
                        if i < before.ids@.len() {
                            assert(self.ids@[i] == before.ids@[i]);
                        } else {
                            if res_ok {
                                let kk = i - before.points@.len();
                                let nm = reqs@[r as int].mesh_network@;
                                assert(0 <= kk < nm.len());
                                assert(self.points@[before.points@.len() + kk] == nm[kk].point
                                    && self.ids@[before.points@.len() + kk] == before.next_id
                                    + kk);
                            } else {
                                assert(self.ids == before.ids);
                            }
                            assert(self.ids@[i] >= before.next_id);
                        }
                    }
                }
            } else {
                results.push(Err(SpawnError::IdsExhausted));
            }
            r = r + 1;
        }
        results
    }

    /// Apply an externally requested play-state transition. `Pause` and
    /// `Play` gate the simulation stages; `Reset` despawns every particle
    /// and stick and returns to the running state.
    pub fn handle_play_state_request(&mut self, req: SimulationPlayStateRequest)
        requires
            old(self).wf(),
        ensures
            final(self).wf(),
            req == SimulationPlayStateRequest::Pause ==> final(self).play_state == (
            if old(self).play_state == SimulationPlayState::Running {
                SimulationPlayState::Paused
            } else {
                old(self).play_state
            }) && final(self).points == old(self).points
                && final(self).sticks == old(self).sticks && final(self).ids == old(self).ids,
            req == SimulationPlayStateRequest::Play ==> final(self).play_state == (
            if old(self).play_state == SimulationPlayState::Paused {
                SimulationPlayState::Running
            } else {
                old(self).play_state
            }) && final(self).points == old(self).points
                && final(self).sticks == old(self).sticks && final(self).ids == old(self).ids,
            req == SimulationPlayStateRequest::Reset ==> final(self).play_state
                == SimulationPlayState::Running && final(self).points@.len() == 0
                && final(self).ids@.len() == 0 && final(self).sticks@.len() == 0,
            final(self).settings == old(self).settings,
            final(self).frame == old(self).frame,
            final(self).spawn_buffer == old(self).spawn_buffer,
            final(self).next_id == old(self).next_id,
            final(self).resources == old(self).resources,
    {
        match req {
            SimulationPlayStateRequest::Pause => {
                if self.play_state == SimulationPlayState::Running {
                    self.play_state = SimulationPlayState::Paused;
                }
            },
            SimulationPlayStateRequest::Play => {
                if self.play_state == SimulationPlayState::Paused {
                    self.play_state = SimulationPlayState::Running;
                }
            },
            SimulationPlayStateRequest::Reset => {
                self.points = Vec::new();
                self.ids = Vec::new();
                self.sticks = Vec::new();
                self.play_state = SimulationPlayState::Running;
            },
        }
    }
}


/// One full simulation step over bare state: integrate every particle and
/// settle the dirty flag, run the constraint substeps, then the jerk
/// filter.
pub open spec fn pipeline_spec(
    pts: Seq<Point>,
    ids: Seq<u64>,
    sticks: Seq<Stick>,
    fr: FrameComparison,
    s: SimulationSettings,
    dt_us: int,
) -> (Seq<Point>, FrameComparison) {
    let p1 = Seq::new(pts.len(), |i: int| integrate_spec(pts[i], s, dt_us));
    let f1 = frame_after_compute(
        fr,
        s,
        moved_beyond(pts, p1, pts.len() as int, s.min_render_delta as int),
    );
    let c = converge_spec(p1, ids, sticks, f1, s, s.converge_iterations as int);
    let p2 = Seq::new(c.0.len(), |i: int| jerk_spec(c.0[i], s));
    (p2, c.1)
}

impl World {
    /// The particle, id, stick and id-counter state after this world's
    /// buffered spawn batches are instantiated.
    pub open spec fn flushed(self) -> (Seq<Point>, Seq<u64>, Seq<Stick>, int) {
        flush_state(
            self.spawn_buffer@,
            self.points@,
            self.ids@,
            self.sticks@,
            self.next_id as int,
            self.spawn_buffer@.len() as int,
        )
    }

    /// One simulation tick: flush buffered spawns, cull overflows, then —
    /// when running — integrate, converge and filter, settling the
    /// dirty-frame record. A paused world only flushes spawns. A locked
    /// particle that survives the tick has not moved.
    pub fn tick(&mut self, dt_us: i64) -> (results: Vec<Result<SpawnPlan, SpawnError>>)
        requires
            old(self).wf(),
            0 <= dt_us <= MAX_TICK_US,
        ensures
            final(self).wf(),
            final(self).settings == old(self).settings,
            final(self).play_state == old(self).play_state,
            final(self).spawn_buffer@.len() == 0,
            results@.len() == old(self).spawn_buffer@.len(),
            forall|rr: int|
                0 <= rr < results@.len() ==> ((#[trigger] results@[rr]) is Ok
                    == batch_admissible(
                    old(self).spawn_buffer@[rr].mesh_network@,
                    flush_state(
                        old(self).spawn_buffer@,
                        old(self).points@,
                        old(self).ids@,
                        old(self).sticks@,
                        old(self).next_id as int,
                        rr,
                    ).3,
                )),
            old(self).play_state == SimulationPlayState::Paused ==> (
                final(self).points@,
                final(self).ids@,
                final(self).sticks@,
                final(self).next_id as int,
            ) == old(self).flushed() && final(self).frame == old(self).frame,
            (old(self).play_state == SimulationPlayState::Running && (forall|j: int|
                0 <= j < old(self).flushed().1.len() ==> !culled(
                    old(self).flushed().0,
                    old(self).flushed().1,
                    old(self).flushed().2,
                    j,
                )) && (forall|k: int|
                0 <= k < old(self).flushed().2.len() ==> has_id(
                    old(self).flushed().1,
                    (#[trigger] old(self).flushed().2[k]).point1,
                ) && has_id(old(self).flushed().1, old(self).flushed().2[k].point2)))
                ==> final(self).points@ == pipeline_spec(
                old(self).flushed().0,
                old(self).flushed().1,
                old(self).flushed().2,
                old(self).frame,
                old(self).settings,
                dt_us as int,
            ).0 && final(self).frame == pipeline_spec(
                old(self).flushed().0,
                old(self).flushed().1,
                old(self).flushed().2,
                old(self).frame,
                old(self).settings,
                dt_us as int,
            ).1 && final(self).ids@ == old(self).flushed().1 && final(self).sticks@ == old(
                self,
            ).flushed().2 && final(self).next_id == old(self).flushed().3,
            forall|id: u64|
                #![trigger point_of(old(self).points@, old(self).ids@, id)]
                has_id(old(self).ids@, id) && has_id(final(self).ids@, id) && point_of(
                    old(self).points@,
                    old(self).ids@,
                    id,
                ).locked ==> point_of(final(self).points@, final(self).ids@, id).locked
                    && point_of(final(self).points@, final(self).ids@, id).position == point_of(
                    old(self).points@,
                    old(self).ids@,
                    id,
                ).position,
    {
        let ghost w0: World = *self;
        let results = self.flush_spawns();
        let ghost w1: World = *self;
        proof {
            assert((w1.points@, w1.ids@, w1.sticks@, w1.next_id as int) == w0.flushed());
        }
        if self.play_state == SimulationPlayState::Running {
            self.despawn_overflows();
            let ghost w2: World = *self;
            update_points(&mut self.points, dt_us, &mut self.frame, &self.settings);
            let ghost w3: World = *self;
            converge(&mut self.points, &self.ids, &self.sticks, &mut self.frame, &self.settings);
            let ghost w4: World = *self;
            filter(&mut self.points, &self.settings);
            proof {
                lemma_tick_locked(w0, w1, w2, w3, w4, *self, dt_us as int);
                let fs = w0.flushed();
                if (forall|j: int|
                    0 <= j < fs.1.len() ==> !culled(fs.0, fs.1, fs.2, j)) && (forall|k: int|
                    0 <= k < fs.2.len() ==> has_id(fs.1, (#[trigger] fs.2[k]).point1) && has_id(
                        fs.1,
                        fs.2[k].point2,
                    )) {
                    assert(fs.0 == w1.points@ && fs.1 == w1.ids@ && fs.2 == w1.sticks@);
                    assert forall|j: int|
                        0 <= j < w1.ids@.len() implies !culled(
                        w1.points@,
                        w1.ids@,
                        w1.sticks@,
                        j,
                    ) by {
                        assert(!culled(fs.0, fs.1, fs.2, j));
                    }
                    assert forall|k: int|
                        0 <= k < w1.sticks@.len() implies has_id(
                        w1.ids@,
                        (#[trigger] w1.sticks@[k]).point1,
                    ) && has_id(w1.ids@, w1.sticks@[k].point2) by {
                        assert(has_id(fs.1, fs.2[k].point1) && has_id(fs.1, fs.2[k].point2));
                    }
                    assert(w2.points@ == fs.0 && w2.ids@ == fs.1 && w2.sticks@ == fs.2);
                    let pl = pipeline_spec(
                        fs.0,
                        fs.1,
                        fs.2,
                        w0.frame,
                        w0.settings,
                        dt_us as int,
                    );
                    assert(w3.points@ =~= Seq::new(
                        w2.points@.len(),
                        |i: int| integrate_spec(w2.points@[i], w2.settings, dt_us as int),
                    ));
                    assert(w3.points@ =~= Seq::new(
                        fs.0.len(),
                        |i: int| integrate_spec(fs.0[i], w0.settings, dt_us as int),
                    ));
                    assert(self.points@ =~= Seq::new(
                        w4.points@.len(),
                        |i: int| jerk_spec(w4.points@[i], w0.settings),
                    ));
                    assert(self.points@ =~= pl.0);
                    assert(w3.frame == frame_after_compute(
                        w0.frame,
                        w0.settings,
                        moved_beyond(
                            fs.0,
                            w3.points@,
                            fs.0.len() as int,
                            w0.settings.min_render_delta as int,
                        ),
                    ));
                    assert(self.frame == pl.1);
                }
            }
        }
        results
    }
}

/// The locked invariant across one whole tick: a locked particle present
/// before and after keeps its position and its lock, whatever the tick
/// did around it.
pub proof fn lemma_tick_locked(
    w0: World,
    w1: World,
    w2: World,
    w3: World,
    w4: World,
    w5: World,
    dt_us: int,
)
    requires
        w0.wf(),
        w1.wf(),
        w2.wf(),
        // flush: prefix preserved, appended ids fresh
        w0.points@.len() <= w1.points@.len(),
        w1.points@.len() == w1.ids@.len(),
        w0.points@.len() == w0.ids@.len(),
        forall|i: int|
            0 <= i < w0.points@.len() ==> w1.points@[i] == w0.points@[i] && w1.ids@[i]
                == w0.ids@[i],
        forall|i: int|
            w0.points@.len() <= i < w1.ids@.len() ==> #[trigger] w1.ids@[i] >= w0.next_id,
        // despawn
        w2.points@.len() == w2.ids@.len(),
        survivors_sound(w1.points@, w1.ids@, w1.sticks@, w2.points@, w2.ids@),
        // integrate
        w3.points@.len() == w2.points@.len(),
        w3.ids@ == w2.ids@,
        forall|i: int|
            0 <= i < w2.points@.len() ==> w3.points@[i] == integrate_spec(
                w2.points@[i],
                w2.settings,
                dt_us,
            ),
        w3.settings == w2.settings,
        w3.sticks@ == w2.sticks@,
        // converge
        (w4.points@, w4.frame) == converge_spec(
            w3.points@,
            w3.ids@,
            w3.sticks@,
            w3.frame,
            w3.settings,
            w3.settings.converge_iterations as int,
        ),
        w4.ids@ == w3.ids@,
        w4.settings == w3.settings,
        // filter
        w5.points@.len() == w4.points@.len(),
        w5.ids@ == w4.ids@,
        forall|i: int|
            0 <= i < w4.points@.len() ==> w5.points@[i] == jerk_spec(w4.points@[i], w4.settings),
    ensures
        forall|id: u64|
            #![trigger point_of(w0.points@, w0.ids@, id)]
            has_id(w0.ids@, id) && has_id(w5.ids@, id) && point_of(
                w0.points@,
                w0.ids@,
                id,
            ).locked ==> point_of(w5.points@, w5.ids@, id).locked && point_of(
                w5.points@,
                w5.ids@,
                id,
            ).position == point_of(w0.points@, w0.ids@, id).position,
{
    assert forall|id: u64|
        has_id(w0.ids@, id) && has_id(w5.ids@, id) && (#[trigger] point_of(
            w0.points@,
            w0.ids@,
            id,
        )).locked implies point_of(w5.points@, w5.ids@, id).locked && point_of(
        w5.points@,
        w5.ids@,
        id,
    ).position == point_of(w0.points@, w0.ids@, id).position by {
        let j0 = id_index(w0.ids@, id);
        assert(0 <= j0 < w0.ids@.len() && w0.ids@[j0] == id);
        // the id keeps its slot through the flush
        assert(w1.ids@[j0] == id && w1.points@[j0] == w0.points@[j0]);
        let j1 = id_index(w1.ids@, id);
        assert(0 <= j1 < w1.ids@.len() && w1.ids@[j1] == id);
        if j1 != j0 {
            assert(w1.ids@[j1] == w1.ids@[j0]);
            assert(false);
        }
        // the id's particle crosses the overflow sweep unchanged
        let a = id_index(w5.ids@, id);
        assert(0 <= a < w5.ids@.len() && w5.ids@[a] == id);
        assert(w2.ids@ == w5.ids@);
        assert(survivor_from(w1.points@, w1.ids@, w1.sticks@, w2.points@, w2.ids@, a));
        let j = choose|j: int|
            0 <= j < w1.ids@.len() && #[trigger] w2.ids@[a] == w1.ids@[j] && w2.points@[a]
                == w1.points@[j] && !culled(w1.points@, w1.ids@, w1.sticks@, j);
        if j != j1 {
            assert(w1.ids@[j] == w1.ids@[j1]);
            assert(false);
        }
        assert(w2.points@[a] == w0.points@[j0]);
        assert(w2.points@[a].locked);
        // the solver stages leave a locked particle's position alone
        assert(w3.points@[a] == integrate_spec(w2.points@[a], w2.settings, dt_us));
        lemma_point_passes_locked(w2.points@[a], w2.settings, dt_us);
        assert(w3.points@[a].locked && w3.points@[a].position == w2.points@[a].position);
        crate::solver::lemma_converge_locked(
            w3.points@,
            w3.ids@,
            w3.sticks@,
            w3.frame,
            w3.settings,
            w3.settings.converge_iterations as int,
        );
        assert(w4.points@[a].locked && w4.points@[a].position == w3.points@[a].position);
        assert(w5.points@[a] == jerk_spec(w4.points@[a], w4.settings));
        lemma_point_passes_locked(w4.points@[a], w4.settings, dt_us);
        assert(w5.points@[a].locked && w5.points@[a].position == w4.points@[a].position);
        assert(point_of(w5.points@, w5.ids@, id) == w5.points@[a]);
        assert(point_of(w0.points@, w0.ids@, id) == w0.points@[j0]);
    }
}


/// A live snapshot of one particle: where it is and its implicit velocity.
#[derive(Clone, Copy, Debug, PartialEq, Eq, Structural)]
pub struct PointInfo {
    pub position: Vec3,
    pub velocity: Vec3,
}

/// An external override for one particle: a position and velocity that
/// replace its state.
#[derive(Clone, Copy, Debug, PartialEq, Eq, Structural)]
pub struct SetPointInfo {
    pub position: Vec3,
    pub velocity: Vec3,
}

impl World {
    /// The live snapshot of the particle with this id, if it exists.
    pub fn point_info(&self, id: u64) -> (r: Option<PointInfo>)
        requires
            self.wf(),
        ensures
            !has_id(self.ids@, id) ==> r is None,
            has_id(self.ids@, id) ==> r == Some(
                PointInfo {
                    position: point_of(self.points@, self.ids@, id).position,
                    velocity: Vec3 {
                        x: (point_of(self.points@, self.ids@, id).position.x - point_of(
                            self.points@,
                            self.ids@,
                            id,
                        ).prev_position.x) as i64,
                        y: (point_of(self.points@, self.ids@, id).position.y - point_of(
                            self.points@,
                            self.ids@,
                            id,
                        ).prev_position.y) as i64,
                        z: (point_of(self.points@, self.ids@, id).position.z - point_of(
                            self.points@,
                            self.ids@,
                            id,
                        ).prev_position.z) as i64,
                    },
                },
            ),
    {
        let i: usize = crate::solver::find_id(&self.ids, id);
        if i < self.points.len() {
            proof {
                assert(self.ids@[i as int] == id);
                assert(id_index(self.ids@, id) == i as int);
            }
            let p: Point = self.points[i];
            Some(PointInfo { position: p.position, velocity: p.calculate_velocity() })
        } else {
            None
        }
    }

    /// Overwrite the particle with this id: it is put at the given
    /// position with the given implicit velocity. Nothing happens for an
    /// unknown id or for values outside the coordinate cap.
    pub fn set_point_info(&mut self, id: u64, info: SetPointInfo)
        requires
            old(self).wf(),
        ensures
            final(self).wf(),
            final(self).ids == old(self).ids,
            final(self).sticks == old(self).sticks,
            final(self).settings == old(self).settings,
            final(self).frame == old(self).frame,
            has_id(old(self).ids@, id) && info.position.in_bound(PART_BOUND as int)
                && (Vec3 {
                x: (info.position.x - info.velocity.x) as i64,
                y: (info.position.y - info.velocity.y) as i64,
                z: (info.position.z - info.velocity.z) as i64,
            }).in_bound(PART_BOUND as int) && info.velocity.in_bound(PART_BOUND as int)
                ==> final(self).points@ == old(self).points@.update(
                id_index(old(self).ids@, id),
                (Point {
                    position: info.position,
                    prev_position: Vec3 {
                        x: (info.position.x - info.velocity.x) as i64,
                        y: (info.position.y - info.velocity.y) as i64,
                        z: (info.position.z - info.velocity.z) as i64,
                    },
                    ..point_of(old(self).points@, old(self).ids@, id)
                }),
            ),
            !has_id(old(self).ids@, id) ==> final(self).points == old(self).points,
    {
        let i: usize = crate::solver::find_id(&self.ids, id);
        if i < self.points.len() {
            proof {
                assert(self.ids@[i as int] == id);
                assert(id_index(self.ids@, id) == i as int);
            }
            let p: Point = self.points[i];
            if info.position.x >= -PART_BOUND && info.position.x <= PART_BOUND
                && info.position.y >= -PART_BOUND && info.position.y <= PART_BOUND
                && info.position.z >= -PART_BOUND && info.position.z <= PART_BOUND
                && info.velocity.x >= -PART_BOUND && info.velocity.x <= PART_BOUND
                && info.velocity.y >= -PART_BOUND && info.velocity.y <= PART_BOUND
                && info.velocity.z >= -PART_BOUND && info.velocity.z <= PART_BOUND {
                let prev: Vec3 = Vec3 {
                    x: info.position.x - info.velocity.x,
                    y: info.position.y - info.velocity.y,
                    z: info.position.z - info.velocity.z,
                };
                if prev.x >= -PART_BOUND && prev.x <= PART_BOUND && prev.y >= -PART_BOUND
                    && prev.y <= PART_BOUND && prev.z >= -PART_BOUND && prev.z <= PART_BOUND {
                    self.points.set(
                        i,
                        Point { position: info.position, prev_position: prev, ..p },
                    );
                }
            }
        }
    }
}


/// A particle fully at rest: its three position histories coincide, it
/// sits on or above the floor and inside the walls, and one tick's
/// acceleration rounds to nothing.
pub open spec fn at_rest(p: Point, s: SimulationSettings, dt_us: int) -> bool {
    &&& p.position == p.prev_position
    &&& p.position == p.previously_rendered_position
    &&& (s.simulation_bounds.y.0 ==> p.position.y >= 0)
    &&& (s.simulation_bounds.x.0 ==> -(s.simulation_bounds.x.1 / 2) <= p.position.x
        <= s.simulation_bounds.x.1 / 2)
    &&& (s.simulation_bounds.z.0 ==> -(s.simulation_bounds.z.1 / 2) <= p.position.z
        <= s.simulation_bounds.z.1 / 2)
    &&& crate::fixed::tdiv(p.external_forces.x * dt_us, crate::particle::ACCEL_DIVISOR as int) == 0
    &&& crate::fixed::tdiv(
        (p.external_forces.y - s.gravity) * dt_us,
        crate::particle::ACCEL_DIVISOR as int,
    ) == 0
    &&& crate::fixed::tdiv(p.external_forces.z * dt_us, crate::particle::ACCEL_DIVISOR as int) == 0
}

/// A resting particle is left exactly in place by one integration step.
pub proof fn lemma_integrate_rest(p: Point, s: SimulationSettings, dt_us: int)
    requires
        p.wf(),
        at_rest(p, s, dt_us),
    ensures
        integrate_spec(p, s, dt_us) == p,
{
    if !p.locked {
        let f = p.velocity_factor(s);
        assert((p.position.x - p.prev_position.x) * f == 0) by (nonlinear_arith)
            requires
                p.position.x == p.prev_position.x,
        ;
        assert((p.position.y - p.prev_position.y) * f == 0) by (nonlinear_arith)
            requires
                p.position.y == p.prev_position.y,
        ;
        assert((p.position.z - p.prev_position.z) * f == 0) by (nonlinear_arith)
            requires
                p.position.z == p.prev_position.z,
        ;
        assert(crate::fixed::tdiv(0, crate::params::PERMILLE as int) == 0);
        let (tx, ty, tz) = p.step_target(s, dt_us);
        assert(tx == p.position.x && ty == p.position.y && tz == p.position.z);
        assert(p.step_allowed(s, dt_us));
    }
}

/// A resting particle is left exactly in place by the boundary clamp.
pub proof fn lemma_clamp_rest(p: Point, s: SimulationSettings)
    requires
        p.wf(),
        s.wf(),
        p.position == p.prev_position,
        s.simulation_bounds.y.0 ==> p.position.y >= 0,
        s.simulation_bounds.x.0 ==> -(s.simulation_bounds.x.1 / 2) <= p.position.x
            <= s.simulation_bounds.x.1 / 2,
        s.simulation_bounds.z.0 ==> -(s.simulation_bounds.z.1 / 2) <= p.position.z
            <= s.simulation_bounds.z.1 / 2,
    ensures
        crate::solver::clamp_spec(p, s) == p,
{
    if !p.locked {
        assert(crate::particle::damp(0, s.coeff_restitution as int) == 0) by {
            assert(0int * s.coeff_restitution == 0) by (nonlinear_arith);
            assert(crate::fixed::tdiv(0, crate::params::PERMILLE as int) == 0);
        }
    }
}

/// A resting particle is left exactly in place by the jerk filter.
pub proof fn lemma_jerk_rest(p: Point, s: SimulationSettings)
    requires
        p.wf(),
        s.wf(),
        p.position == p.prev_position,
        p.position == p.previously_rendered_position,
    ensures
        jerk_spec(p, s) == p,
{
    if !p.locked {
        assert(crate::particle::damp(0, s.jerk_damping as int) == 0) by {
            assert(0int * s.jerk_damping == 0) by (nonlinear_arith);
            assert(crate::fixed::tdiv(0, crate::params::PERMILLE as int) == 0);
        }
    }
}

/// A satisfied stick (distance exactly its rest length) moves nothing.
pub proof fn lemma_relax_rest(p1: Point, p2: Point, rest: int)
    requires
        p1.wf(),
        p2.wf(),
        crate::vec3::dist(p1.position, p2.position) == rest,
    ensures
        crate::solver::relax_pair(p1, p2, rest) == (p1, p2),
{
    let len = crate::vec3::dist(p1.position, p2.position);
    if !(p1.locked && p2.locked) && len != 0 {
        assert((p2.position.x - p1.position.x) * (len - rest) == 0) by (nonlinear_arith)
            requires
                len == rest,
        ;
        assert((p2.position.y - p1.position.y) * (len - rest) == 0) by (nonlinear_arith)
            requires
                len == rest,
        ;
        assert((p2.position.z - p1.position.z) * (len - rest) == 0) by (nonlinear_arith)
            requires
                len == rest,
        ;
        assert(crate::fixed::tdiv(0, 2 * len) == 0) by {
            crate::fixed::lemma_sqrt_floor(crate::vec3::dist2(p1.position, p2.position));
            assert(0int / (2 * len) == 0);
        }
    }
}

/// Every stick of a resting world is satisfied or has a missing endpoint.
pub open spec fn sticks_at_rest(pts: Seq<Point>, ids: Seq<u64>, sticks: Seq<Stick>) -> bool {
    forall|k: int|
        0 <= k < sticks.len() && has_id(ids, (#[trigger] sticks[k]).point1) && has_id(
            ids,
            sticks[k].point2,
        ) ==> crate::vec3::dist(
            pts[id_index(ids, sticks[k].point1)].position,
            pts[id_index(ids, sticks[k].point2)].position,
        ) == sticks[k].length
}

/// A relaxation pass over a resting world changes nothing.
pub proof fn lemma_relax_pass_rest(pts: Seq<Point>, ids: Seq<u64>, sticks: Seq<Stick>, n: int)
    requires
        wf_points(pts),
        pts.len() == ids.len(),
        sticks_at_rest(pts, ids, sticks),
        0 <= n <= sticks.len(),
    ensures
        relax_pass(pts, ids, sticks, n) == pts,
    decreases n,
{
    if n > 0 {
        lemma_relax_pass_rest(pts, ids, sticks, n - 1);
        let st = sticks[n - 1];
        if has_id(ids, st.point1) && has_id(ids, st.point2) && id_index(ids, st.point1)
            != id_index(ids, st.point2) {
            let i1 = id_index(ids, st.point1);
            let i2 = id_index(ids, st.point2);
            lemma_relax_rest(pts[i1], pts[i2], st.length as int);
            assert(pts.update(i1, pts[i1]).update(i2, pts[i2]) =~= pts);
        }
    }
}

/// Dirty-frame idempotence: a tick over a world fully at rest leaves every
/// particle exactly where it was, and the frame is marked unchanged as
/// long as the forced-refresh counter has not expired — so `changed`
/// stays false tick after tick once the world has settled.
pub proof fn lemma_rest_pipeline(
    pts: Seq<Point>,
    ids: Seq<u64>,
    sticks: Seq<Stick>,
    fr: FrameComparison,
    s: SimulationSettings,
    dt_us: int,
)
    requires
        wf_points(pts),
        pts.len() == ids.len(),
        s.wf(),
        forall|i: int| 0 <= i < pts.len() ==> at_rest(#[trigger] pts[i], s, dt_us),
        sticks_at_rest(pts, ids, sticks),
    ensures
        pipeline_spec(pts, ids, sticks, fr, s, dt_us).0 == pts,
        fr.frames_since <= s.max_unchanged_frames ==> !pipeline_spec(
            pts,
            ids,
            sticks,
            fr,
            s,
            dt_us,
        ).1.changed,
{
    let p1 = Seq::new(pts.len(), |i: int| integrate_spec(pts[i], s, dt_us));
    assert forall|i: int| 0 <= i < pts.len() implies #[trigger] p1[i] == pts[i] by {
        lemma_integrate_rest(pts[i], s, dt_us);
    }
    assert(p1 =~= pts);
    assert(!moved_beyond(pts, p1, pts.len() as int, s.min_render_delta as int)) by {
        if moved_beyond(pts, p1, pts.len() as int, s.min_render_delta as int) {
            let w = choose|i: int|
                0 <= i < pts.len() && crate::vec3::dist2(
                    (#[trigger] pts[i]).position,
                    p1[i].position,
                ) > s.min_render_delta * s.min_render_delta;
            crate::solver::lemma_dist2_zero(pts[w].position, p1[w].position);
            assert(s.min_render_delta * s.min_render_delta >= 0) by (nonlinear_arith)
                requires
                    s.min_render_delta >= 0,
            ;
        }
    }
    let f1 = frame_after_compute(
        fr,
        s,
        moved_beyond(pts, p1, pts.len() as int, s.min_render_delta as int),
    );
    lemma_rest_converge(pts, ids, sticks, f1, s, s.converge_iterations as int);
    let c = converge_spec(p1, ids, sticks, f1, s, s.converge_iterations as int);
    assert(c.0 == pts && c.1 == f1);
    let p2 = Seq::new(c.0.len(), |i: int| jerk_spec(c.0[i], s));
    assert forall|i: int| 0 <= i < pts.len() implies #[trigger] p2[i] == pts[i] by {
        lemma_jerk_rest(pts[i], s);
    }
    assert(p2 =~= pts);
}

/// The whole constraint solver is the identity on a resting world, and
/// never marks the frame changed.
pub proof fn lemma_rest_converge(
    pts: Seq<Point>,
    ids: Seq<u64>,
    sticks: Seq<Stick>,
    fr: FrameComparison,
    s: SimulationSettings,
    n: int,
)
    requires
        wf_points(pts),
        pts.len() == ids.len(),
        s.wf(),
        forall|i: int| 0 <= i < pts.len() ==> (#[trigger] pts[i]).position == pts[i].prev_position,
        forall|i: int|
            0 <= i < pts.len() ==> (s.simulation_bounds.y.0 ==> (#[trigger] pts[i]).position.y
                >= 0) && (s.simulation_bounds.x.0 ==> -(s.simulation_bounds.x.1 / 2)
                <= pts[i].position.x <= s.simulation_bounds.x.1 / 2) && (s.simulation_bounds.z.0
                ==> -(s.simulation_bounds.z.1 / 2) <= pts[i].position.z <= s.simulation_bounds.z.1
                / 2),
        sticks_at_rest(pts, ids, sticks),
    ensures
        converge_spec(pts, ids, sticks, fr, s, n).0 == pts,
        converge_spec(pts, ids, sticks, fr, s, n).1 == fr,
    decreases n,
{
    if n > 0 {
        lemma_rest_converge(pts, ids, sticks, fr, s, n - 1);
        let cl = clamp_all(pts, s);
        assert forall|i: int| 0 <= i < pts.len() implies #[trigger] cl[i] == pts[i] by {
            lemma_clamp_rest(pts[i], s);
        }
        assert(cl =~= pts);
        assert(!moved_beyond(pts, cl, pts.len() as int, s.min_render_delta as int)) by {
            if moved_beyond(pts, cl, pts.len() as int, s.min_render_delta as int) {
                let w = choose|i: int|
                    0 <= i < pts.len() && crate::vec3::dist2(
                        (#[trigger] pts[i]).position,
                        cl[i].position,
                    ) > s.min_render_delta * s.min_render_delta;
                crate::solver::lemma_dist2_zero(pts[w].position, cl[w].position);
                assert(s.min_render_delta * s.min_render_delta >= 0) by (nonlinear_arith)
                    requires
                        s.min_render_delta >= 0,
                ;
            }
        }
        lemma_relax_pass_rest(pts, ids, sticks, sticks.len() as int);
        lemma_rest_relax_not_moved(pts, ids, sticks, sticks.len() as int, s.min_render_delta as int);
    }
}

/// No relaxation step of a resting world moves anything past a threshold.
pub proof fn lemma_rest_relax_not_moved(
    pts: Seq<Point>,
    ids: Seq<u64>,
    sticks: Seq<Stick>,
    n: int,
    lim: int,
)
    requires
        wf_points(pts),
        pts.len() == ids.len(),
        sticks_at_rest(pts, ids, sticks),
        0 <= n <= sticks.len(),
        lim >= 0,
    ensures
        !crate::solver::relax_moved(pts, ids, sticks, n, lim),
    decreases n,
{
    if n > 0 {
        lemma_rest_relax_not_moved(pts, ids, sticks, n - 1, lim);
        lemma_relax_pass_rest(pts, ids, sticks, n - 1);
        let st = sticks[n - 1];
        if has_id(ids, st.point1) && has_id(ids, st.point2) && id_index(ids, st.point1)
            != id_index(ids, st.point2) {
            let i1 = id_index(ids, st.point1);
            let i2 = id_index(ids, st.point2);
            lemma_relax_rest(pts[i1], pts[i2], st.length as int);
            crate::solver::lemma_dist2_zero(pts[i1].position, pts[i1].position);
            crate::solver::lemma_dist2_zero(pts[i2].position, pts[i2].position);
            assert(lim * lim >= 0) by (nonlinear_arith)
                requires
                    lim >= 0,
            ;
        }
    }
}


/// What the render host needs for one stick: its endpoints' ids and live
/// positions, and its midpoint (the host derives the drawn orientation
/// from the endpoints).
#[derive(Clone, Copy, Debug, PartialEq, Eq, Structural)]
pub struct StickView {
    pub point1: u64,
    pub point2: u64,
    pub a: Vec3,
    pub b: Vec3,
    pub midpoint: Vec3,
}

impl World {
    /// Hand the render host this tick's geometry, or nothing when the
    /// frame is not dirty (skipping render work, never simulation). The
    /// particles' rendered-position history advances exactly when a view
    /// is produced.
    pub fn render_view(&mut self) -> (r: Option<(Vec<(u64, Vec3)>, Vec<StickView>)>)
        requires
            old(self).wf(),
        ensures
            final(self).wf(),
            final(self).ids == old(self).ids,
            final(self).sticks == old(self).sticks,
            final(self).settings == old(self).settings,
            final(self).frame == old(self).frame,
            final(self).play_state == old(self).play_state,
            final(self).next_id == old(self).next_id,
            final(self).resources == old(self).resources,
            final(self).spawn_buffer == old(self).spawn_buffer,
            !old(self).frame.changed ==> r is None && final(self).points == old(self).points,
            old(self).frame.changed ==> {
                let v = r.unwrap();
                &&& r is Some
                &&& final(self).points@.len() == old(self).points@.len()
                &&& forall|i: int|
                    0 <= i < old(self).points@.len() ==> #[trigger] final(self).points@[i] == (
                    Point {
                        rendered_position: old(self).points@[i].position,
                        previously_rendered_position: old(self).points@[i].prev_position,
                        ..old(self).points@[i]
                    })
                &&& v.0@.len() == old(self).points@.len()
                &&& forall|i: int|
                    0 <= i < old(self).points@.len() ==> #[trigger] v.0@[i] == (
                        old(self).ids@[i],
                        old(self).points@[i].position,
                    )
                &&& v.1@.len() <= old(self).sticks@.len()
                &&& forall|j: int|
                    0 <= j < v.1@.len() ==> ((#[trigger] v.1@[j]).midpoint.x == crate::fixed::tdiv(
                        v.1@[j].a.x + v.1@[j].b.x,
                        2,
                    ) && v.1@[j].midpoint.y == crate::fixed::tdiv(v.1@[j].a.y + v.1@[j].b.y, 2)
                        && v.1@[j].midpoint.z == crate::fixed::tdiv(v.1@[j].a.z + v.1@[j].b.z, 2))
            },
    {
        if !self.frame.changed {
            return None;
        }
        let ghost pts: Seq<Point> = self.points@;
        let n: usize = self.points.len();
        let mut point_views: Vec<(u64, Vec3)> = Vec::new();
        let mut i: usize = 0;
        while i < n
            invariant
                i <= n,
                n == pts.len(),
                self.points@.len() == n,
                pts.len() == self.ids@.len(),
                wf_points(pts),
                wf_points(self.points@),
                old(self).wf(),
                pts == old(self).points@,
                self.ids == old(self).ids,
                self.sticks == old(self).sticks,
                self.settings == old(self).settings,
                self.frame == old(self).frame,
                self.play_state == old(self).play_state,
                self.next_id == old(self).next_id,
                self.resources == old(self).resources,
                self.spawn_buffer == old(self).spawn_buffer,
                point_views@.len() == i,
                forall|j: int|
                    0 <= j < i ==> #[trigger] point_views@[j] == (
                        self.ids@[j],
                        pts[j].position,
                    ),
                forall|j: int|
                    0 <= j < i ==> #[trigger] self.points@[j] == (Point {
                        rendered_position: pts[j].position,
                        previously_rendered_position: pts[j].prev_position,
                        ..pts[j]
                    }),
                forall|j: int| i <= j < n ==> self.points@[j] == pts[j],
            decreases n - i,
        {
            let p: Point = self.points[i];
            self.points.set(
                i,
                Point {
                    rendered_position: p.position,
                    previously_rendered_position: p.prev_position,
                    ..p
                },
            );
            point_views.push((self.ids[i], p.position));
            i = i + 1;
        }
        let ns: usize = self.sticks.len();
        let mut stick_views: Vec<StickView> = Vec::new();
        let mut k: usize = 0;
        while k < ns
            invariant
                k <= ns,
                ns == self.sticks@.len(),
                n == pts.len(),
                self.points@.len() == n,
                pts.len() == self.ids@.len(),
                wf_points(pts),
                wf_points(self.points@),
                stick_views@.len() <= k,
                forall|j: int|
                    0 <= j < stick_views@.len() ==> ((#[trigger] stick_views@[j]).midpoint.x
                        == crate::fixed::tdiv(stick_views@[j].a.x + stick_views@[j].b.x, 2)
                        && stick_views@[j].midpoint.y == crate::fixed::tdiv(
                        stick_views@[j].a.y + stick_views@[j].b.y,
                        2,
                    ) && stick_views@[j].midpoint.z == crate::fixed::tdiv(
                        stick_views@[j].a.z + stick_views@[j].b.z,
                        2,
                    )),
                forall|j: int|
                    0 <= j < stick_views@.len() ==> ((#[trigger] stick_views@[j]).a.in_bound(
                        PART_BOUND as int,
                    ) && stick_views@[j].b.in_bound(PART_BOUND as int)),
            decreases ns - k,
        {
            let st: Stick = self.sticks[k];
            let i1: usize = crate::solver::find_id(&self.ids, st.point1);
            let i2: usize = crate::solver::find_id(&self.ids, st.point2);
            if i1 < n && i2 < n {
                let a: Vec3 = self.points[i1].position;
                let b: Vec3 = self.points[i2].position;
                proof {
                    crate::fixed::lemma_tdiv_bound(a.x + b.x, 2);
                    crate::fixed::lemma_tdiv_bound(a.y + b.y, 2);
                    crate::fixed::lemma_tdiv_bound(a.z + b.z, 2);
                    assert((a.x + b.x) * 1i64 == a.x + b.x);
                    assert((a.y + b.y) * 1i64 == a.y + b.y);
                    assert((a.z + b.z) * 1i64 == a.z + b.z);
                }
                let mid: Vec3 = Vec3 {
                    x: crate::fixed::mul_div(a.x + b.x, 1, 2),
                    y: crate::fixed::mul_div(a.y + b.y, 1, 2),
                    z: crate::fixed::mul_div(a.z + b.z, 1, 2),
                };
                stick_views.push(
                    StickView { point1: st.point1, point2: st.point2, a, b, midpoint: mid },
                );
            }
            k = k + 1;
        }
        Some((point_views, stick_views))
    }
}

} // verus!
