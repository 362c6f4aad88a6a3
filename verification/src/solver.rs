//! The per-tick pipeline stages over the particle and stick sets: Verlet
//! integration, boundary clamping, distance-constraint relaxation, the jerk
//! filter and the dirty-frame decision.

use vstd::prelude::*;
use vstd::pervasive::VecAdditionalExecFns;

use crate::fixed::{lemma_tdiv_bound, mul_div, tdiv};
use crate::params::{FrameComparison, PERMILLE, SimulationSettings};
use crate::particle::{PART_BOUND, Point, Stick, damp, lemma_damp_bound};
use crate::vec3::{Vec3, dist, dist2, dist2_exec, dist_exec};

verus! {

/// A particle whose implicit velocity exceeds this (per component, in
/// micro-units per frame) is left alone by the boundary clamp; the reflected
/// previous position would be meaningless at such speeds.
pub const CLAMP_VEL_BOUND: i64 = 1_000_000_000_000;

/// All stored particles are well-formed.
pub open spec fn wf_points(pts: Seq<Point>) -> bool {
    forall|i: int| 0 <= i < pts.len() ==> (#[trigger] pts[i]).wf()
}

/// All stored sticks are well-formed.
pub open spec fn wf_sticks(sticks: Seq<Stick>) -> bool {
    forall|i: int| 0 <= i < sticks.len() ==> (#[trigger] sticks[i]).wf()
}

/// Whether some particle travelled more than `limit` micro-units between the
/// two snapshots (squared distances compare exactly).
pub open spec fn moved_beyond(a: Seq<Point>, b: Seq<Point>, n: int, limit: int) -> bool {
    exists|i: int|
        0 <= i < n && dist2((#[trigger] a[i]).position, b[i].position) > limit * limit
}

/// The dirty-frame decision after the integration pass: a frame is changed
/// when something moved beyond the render threshold, or when too many
/// unchanged frames have gone by; otherwise the unchanged count grows.
pub open spec fn frame_after_compute(
    fr: FrameComparison,
    s: SimulationSettings,
    moved: bool,
) -> FrameComparison {
    if moved {
        FrameComparison { frames_since: 0, changed: true }
    } else if fr.frames_since > s.max_unchanged_frames {
        FrameComparison { frames_since: 0, changed: true }
    } else if fr.frames_since < 0xFFFF_FFFFu32 {
        FrameComparison { frames_since: (fr.frames_since + 1) as u32, changed: false }
    } else {
        FrameComparison { frames_since: fr.frames_since, changed: false }
    }
}

/// The dirty-frame decision inside a constraint substep: once a tick is
/// dirty it stays dirty, and movement beyond the threshold makes it dirty.
pub open spec fn frame_after_substep(fr: FrameComparison, moved: bool) -> FrameComparison {
    if fr.changed {
        fr
    } else if moved {
        FrameComparison { frames_since: 0, changed: true }
    } else {
        fr
    }
}

/// Where the boundary clamp sends one particle. A locked particle only has
/// its previous position re-synced. Otherwise each enabled axis bound is
/// tested in turn: a coordinate past the floor (y = 0), past either x wall
/// at half the x extent, or past either z wall at half the z extent is
/// pulled onto the boundary, and the previous position on that axis is
/// reflected so the implicit velocity becomes the old one scaled by the
/// restitution coefficient, pointing back inside.
pub open spec fn clamp_spec(p: Point, s: SimulationSettings) -> Point {
    if p.locked {
        Point { prev_position: p.position, ..p }
    } else {
        let vx = p.position.x - p.prev_position.x;
        let vy = p.position.y - p.prev_position.y;
        let vz = p.position.z - p.prev_position.z;
        if vx < -CLAMP_VEL_BOUND || vx > CLAMP_VEL_BOUND || vy < -CLAMP_VEL_BOUND || vy
            > CLAMP_VEL_BOUND || vz < -CLAMP_VEL_BOUND || vz > CLAMP_VEL_BOUND {
            p
        } else {
            let half_w = s.simulation_bounds.x.1 / 2;
            let half_d = s.simulation_bounds.z.1 / 2;
            let c = s.coeff_restitution as int;
            let (py, qy): (int, int) = if s.simulation_bounds.y.0 && p.position.y <= 0 {
                (0int, damp(vy, c))
            } else {
                (p.position.y as int, p.prev_position.y as int)
            };
            let (px, qx): (int, int) = if s.simulation_bounds.x.0 && p.position.x <= -half_w {
                (-half_w, -half_w + damp(vx, c))
            } else if s.simulation_bounds.x.0 && p.position.x >= half_w {
                (half_w, half_w + damp(vx, c))
            } else {
                (p.position.x as int, p.prev_position.x as int)
            };
            let (pz, qz): (int, int) = if s.simulation_bounds.z.0 && p.position.z <= -half_d {
                (-half_d, -half_d + damp(vz, c))
            } else if s.simulation_bounds.z.0 && p.position.z > half_d {
                (half_d, half_d + damp(vz, c))
            } else {
                (p.position.z as int, p.prev_position.z as int)
            };
            Point {
                position: Vec3 { x: px as i64, y: py as i64, z: pz as i64 },
                prev_position: Vec3 { x: qx as i64, y: qy as i64, z: qz as i64 },
                ..p
            }
        }
    }
}

/// One particle's boundary clamp; see `clamp_spec`.
pub fn clamp_point(p: Point, s: &SimulationSettings) -> (r: Point)
    requires
        p.wf(),
        s.wf(),
    ensures
        r == clamp_spec(p, *s),
        r.wf(),
{
    if p.locked {
        return Point { prev_position: p.position, ..p };
    }
    let vx: i64 = p.position.x - p.prev_position.x;
    let vy: i64 = p.position.y - p.prev_position.y;
    let vz: i64 = p.position.z - p.prev_position.z;
    if vx < -CLAMP_VEL_BOUND || vx > CLAMP_VEL_BOUND || vy < -CLAMP_VEL_BOUND || vy
        > CLAMP_VEL_BOUND || vz < -CLAMP_VEL_BOUND || vz > CLAMP_VEL_BOUND {
        return p;
    }
    proof {
        lemma_damp_bound(vx as int, s.coeff_restitution as int, CLAMP_VEL_BOUND as int);
        lemma_damp_bound(vy as int, s.coeff_restitution as int, CLAMP_VEL_BOUND as int);
        lemma_damp_bound(vz as int, s.coeff_restitution as int, CLAMP_VEL_BOUND as int);
    }
    let half_w: i64 = s.simulation_bounds.x.1 / 2;
    let half_d: i64 = s.simulation_bounds.z.1 / 2;
    let c: i64 = s.coeff_restitution;
    let mut px: i64 = p.position.x;
    let mut py: i64 = p.position.y;
    let mut pz: i64 = p.position.z;
    let mut qx: i64 = p.prev_position.x;
    let mut qy: i64 = p.prev_position.y;
    let mut qz: i64 = p.prev_position.z;
    if s.simulation_bounds.y.0 && py <= 0 {
        py = 0;
        qy = mul_div(vy, c, PERMILLE);
    }
    if s.simulation_bounds.x.0 && px <= -half_w {
        px = -half_w;
        qx = -half_w + mul_div(vx, c, PERMILLE);
    } else if s.simulation_bounds.x.0 && px >= half_w {
        px = half_w;
        qx = half_w + mul_div(vx, c, PERMILLE);
    }
    if s.simulation_bounds.z.0 && pz <= -half_d {
        pz = -half_d;
        qz = -half_d + mul_div(vz, c, PERMILLE);
    } else if s.simulation_bounds.z.0 && pz > half_d {
        pz = half_d;
        qz = half_d + mul_div(vz, c, PERMILLE);
    }
    Point {
        position: Vec3 { x: px, y: py, z: pz },
        prev_position: Vec3 { x: qx, y: qy, z: qz },
        ..p
    }
}


/// A coordinate the simulation will actually store.
pub open spec fn in_cap(x: int) -> bool {
    -PART_BOUND <= x <= PART_BOUND
}

/// Facts about the fixed-point distance of two in-cap vectors: it is short
/// against the coordinate cap and dominates every component difference.
pub proof fn lemma_dist_facts(a: Vec3, b: Vec3, bnd: int)
    requires
        a.in_bound(bnd),
        b.in_bound(bnd),
        0 <= bnd,
    ensures
        0 <= dist(a, b) <= 4 * bnd,
        -dist(a, b) <= b.x - a.x <= dist(a, b),
        -dist(a, b) <= b.y - a.y <= dist(a, b),
        -dist(a, b) <= b.z - a.z <= dist(a, b),
{
    crate::vec3::lemma_sq_bound(b.x - a.x, 2 * bnd);
    crate::vec3::lemma_sq_bound(b.y - a.y, 2 * bnd);
    crate::vec3::lemma_sq_bound(b.z - a.z, 2 * bnd);
    let d2 = dist2(a, b);
    crate::fixed::lemma_sqrt_floor(d2);
    let r = dist(a, b);
    let q = (2 * bnd) * (2 * bnd);
    assert(d2 <= 3 * q);
    assert(r <= 4 * bnd) by (nonlinear_arith)
        requires
            r >= 0,
            bnd >= 0,
            r * r <= d2,
            q == (2 * bnd) * (2 * bnd),
            d2 <= 3 * q,
    ;
    assert(-r <= b.x - a.x <= r) by (nonlinear_arith)
        requires
            r >= 0,
            (b.x - a.x) * (b.x - a.x) <= d2,
            d2 < (r + 1) * (r + 1),
    ;
    assert(-r <= b.y - a.y <= r) by (nonlinear_arith)
        requires
            r >= 0,
            (b.y - a.y) * (b.y - a.y) <= d2,
            d2 < (r + 1) * (r + 1),
    ;
    assert(-r <= b.z - a.z <= r) by (nonlinear_arith)
        requires
            r >= 0,
            (b.z - a.z) * (b.z - a.z) <= d2,
            d2 < (r + 1) * (r + 1),
    ;
}

/// A relaxation offset `(d * m) / (2 * len)` is no larger than `|m|` when
/// `|d| <= len`.
pub proof fn lemma_offset_bound(d: int, m: int, len: int, k: int)
    requires
        1 <= len,
        -len <= d <= len,
        -k <= m <= k,
        0 <= k,
    ensures
        -k <= tdiv(d * m, 2 * len) <= k,
{
    assert(-(len * k) <= d * m <= len * k) by (nonlinear_arith)
        requires
            1 <= len,
            -len <= d <= len,
            -k <= m <= k,
            0 <= k,
    ;
    vstd::arithmetic::div_mod::lemma_div_multiples_vanish(k, len);
    vstd::arithmetic::div_mod::lemma_div_denominator(len * k, len, 2);
    vstd::arithmetic::div_mod::lemma_div_nonincreasing(k, 2);
    assert((len * k) / (2 * len) <= k);
    if d * m >= 0 {
        vstd::arithmetic::div_mod::lemma_div_is_ordered(d * m, len * k, 2 * len);
        vstd::arithmetic::div_mod::lemma_div_pos_is_pos(d * m, 2 * len);
    } else {
        vstd::arithmetic::div_mod::lemma_div_is_ordered(-(d * m), len * k, 2 * len);
        vstd::arithmetic::div_mod::lemma_div_pos_is_pos(-(d * m), 2 * len);
    }
}

/// Where one relaxation of a stick sends its two endpoints. With both ends
/// locked, or coincident ends (nothing fixes a direction), nothing moves.
/// Otherwise the stretch beyond the rest length fixes a correction along
/// the stick: a lone free endpoint absorbs all of it, two free endpoints
/// split it evenly. A correction that would leave the coordinate cap is
/// dropped whole.
pub open spec fn relax_pair(p1: Point, p2: Point, rest: int) -> (Point, Point) {
    if p1.locked && p2.locked {
        (p1, p2)
    } else {
        let len = dist(p1.position, p2.position);
        if len == 0 {
            (p1, p2)
        } else {
            let ox = tdiv((p2.position.x - p1.position.x) * (len - rest), 2 * len);
            let oy = tdiv((p2.position.y - p1.position.y) * (len - rest), 2 * len);
            let oz = tdiv((p2.position.z - p1.position.z) * (len - rest), 2 * len);
            if p1.locked {
                let nx = p2.position.x - 2 * ox;
                let ny = p2.position.y - 2 * oy;
                let nz = p2.position.z - 2 * oz;
                if in_cap(nx) && in_cap(ny) && in_cap(nz) {
                    (p1, Point { position: Vec3 { x: nx as i64, y: ny as i64, z: nz as i64 }, ..p2 })
                } else {
                    (p1, p2)
                }
            } else if p2.locked {
                let nx = p1.position.x + 2 * ox;
                let ny = p1.position.y + 2 * oy;
                let nz = p1.position.z + 2 * oz;
                if in_cap(nx) && in_cap(ny) && in_cap(nz) {
                    (Point { position: Vec3 { x: nx as i64, y: ny as i64, z: nz as i64 }, ..p1 }, p2)
                } else {
                    (p1, p2)
                }
            } else {
                let ax = p1.position.x + ox;
                let ay = p1.position.y + oy;
                let az = p1.position.z + oz;
                let bx = p2.position.x - ox;
                let by = p2.position.y - oy;
                let bz = p2.position.z - oz;
                if in_cap(ax) && in_cap(ay) && in_cap(az) && in_cap(bx) && in_cap(by) && in_cap(bz) {
                    (
                        Point { position: Vec3 { x: ax as i64, y: ay as i64, z: az as i64 }, ..p1 },
                        Point { position: Vec3 { x: bx as i64, y: by as i64, z: bz as i64 }, ..p2 },
                    )
                } else {
                    (p1, p2)
                }
            }
        }
    }
}

/// One relaxation of a stick; see `relax_pair`.
pub fn relax_pair_exec(p1: Point, p2: Point, rest: i64) -> (r: (Point, Point))
    requires
        p1.wf(),
        p2.wf(),
        0 <= rest <= 4 * PART_BOUND,
    ensures
        r == relax_pair(p1, p2, rest as int),
        r.0.wf(),
        r.1.wf(),
{
    if p1.locked && p2.locked {
        return (p1, p2);
    }
    let len: i64 = dist_exec(p1.position, p2.position);
    if len == 0 {
        return (p1, p2);
    }
    proof {
        lemma_dist_facts(p1.position, p2.position, PART_BOUND as int);
        let k = 8 * PART_BOUND;
        lemma_offset_bound(
            p2.position.x - p1.position.x,
            len - rest,
            len as int,
            k as int,
        );
        lemma_offset_bound(
            p2.position.y - p1.position.y,
            len - rest,
            len as int,
            k as int,
        );
        lemma_offset_bound(
            p2.position.z - p1.position.z,
            len - rest,
            len as int,
            k as int,
        );
    }
    let lr: i64 = len - rest;
    let two_len: i64 = 2 * len;
    let ox: i64 = mul_div(p2.position.x - p1.position.x, lr, two_len);
    let oy: i64 = mul_div(p2.position.y - p1.position.y, lr, two_len);
    let oz: i64 = mul_div(p2.position.z - p1.position.z, lr, two_len);
    if p1.locked {
        let nx: i64 = p2.position.x - 2 * ox;
        let ny: i64 = p2.position.y - 2 * oy;
        let nz: i64 = p2.position.z - 2 * oz;
        if -PART_BOUND <= nx && nx <= PART_BOUND && -PART_BOUND <= ny && ny <= PART_BOUND
            && -PART_BOUND <= nz && nz <= PART_BOUND {
            (p1, Point { position: Vec3 { x: nx, y: ny, z: nz }, ..p2 })
        } else {
            (p1, p2)
        }
    } else if p2.locked {
        let nx: i64 = p1.position.x + 2 * ox;
        let ny: i64 = p1.position.y + 2 * oy;
        let nz: i64 = p1.position.z + 2 * oz;
        if -PART_BOUND <= nx && nx <= PART_BOUND && -PART_BOUND <= ny && ny <= PART_BOUND
            && -PART_BOUND <= nz && nz <= PART_BOUND {
            (Point { position: Vec3 { x: nx, y: ny, z: nz }, ..p1 }, p2)
        } else {
            (p1, p2)
        }
    } else {
        let ax: i64 = p1.position.x + ox;
        let ay: i64 = p1.position.y + oy;
        let az: i64 = p1.position.z + oz;
        let bx: i64 = p2.position.x - ox;
        let by: i64 = p2.position.y - oy;
        let bz: i64 = p2.position.z - oz;
        if -PART_BOUND <= ax && ax <= PART_BOUND && -PART_BOUND <= ay && ay <= PART_BOUND
            && -PART_BOUND <= az && az <= PART_BOUND && -PART_BOUND <= bx && bx <= PART_BOUND
            && -PART_BOUND <= by && by <= PART_BOUND && -PART_BOUND <= bz && bz <= PART_BOUND {
            (
                Point { position: Vec3 { x: ax, y: ay, z: az }, ..p1 },
                Point { position: Vec3 { x: bx, y: by, z: bz }, ..p2 },
            )
        } else {
            (p1, p2)
        }
    }
}


/// No particle identity occurs twice.
pub open spec fn distinct_ids(ids: Seq<u64>) -> bool {
    forall|i: int, j: int| 0 <= i < j < ids.len() ==> ids[i] != ids[j]
}

/// Whether `id` names a live particle.
pub open spec fn has_id(ids: Seq<u64>, id: u64) -> bool {
    exists|i: int| 0 <= i < ids.len() && ids[i] == id
}

/// The index of `id` among the live particles (unique when ids are
/// distinct).
pub open spec fn id_index(ids: Seq<u64>, id: u64) -> int {
    choose|i: int| 0 <= i < ids.len() && ids[i] == id
}

/// First index holding `id`, or the length when absent.
pub fn find_id(ids: &Vec<u64>, id: u64) -> (r: usize)
    ensures
        has_id(ids@, id) ==> r < ids@.len() && ids@[r as int] == id,
        !has_id(ids@, id) ==> r == ids@.len(),
{
    let n: usize = ids.len();
    let mut i: usize = 0;
    while i < n
        invariant
            i <= n,
            n == ids@.len(),
            forall|j: int| 0 <= j < i ==> ids@[j] != id,
        decreases n - i,
    {
        if ids[i] == id {
            return i;
        }
        i = i + 1;
    }
    i
}

/// One stick of the relaxation pass applied to the particle sequence. The
/// stick acts only when both endpoints name distinct live particles;
/// otherwise (an endpoint was despawned) it is ignored.
pub open spec fn relax_step(pts: Seq<Point>, ids: Seq<u64>, st: Stick) -> Seq<Point> {
    if has_id(ids, st.point1) && has_id(ids, st.point2) && id_index(ids, st.point1) != id_index(
        ids,
        st.point2,
    ) {
        let i1 = id_index(ids, st.point1);
        let i2 = id_index(ids, st.point2);
        let rp = relax_pair(pts[i1], pts[i2], st.length as int);
        pts.update(i1, rp.0).update(i2, rp.1)
    } else {
        pts
    }
}

/// Whether applying `st` moves an endpoint by more than `limit`.
pub open spec fn relax_step_moved(pts: Seq<Point>, ids: Seq<u64>, st: Stick, limit: int) -> bool {
    if has_id(ids, st.point1) && has_id(ids, st.point2) && id_index(ids, st.point1) != id_index(
        ids,
        st.point2,
    ) {
        let i1 = id_index(ids, st.point1);
        let i2 = id_index(ids, st.point2);
        let rp = relax_pair(pts[i1], pts[i2], st.length as int);
        dist2(pts[i1].position, rp.0.position) > limit * limit || dist2(
            pts[i2].position,
            rp.1.position,
        ) > limit * limit
    } else {
        false
    }
}

/// The first `n` sticks of a relaxation pass, applied in order
/// (Gauss-Seidel: each stick sees the corrections of those before it).
pub open spec fn relax_pass(pts: Seq<Point>, ids: Seq<u64>, sticks: Seq<Stick>, n: int) -> Seq<
    Point,
>
    decreases n,
{
    if n <= 0 {
        pts
    } else {
        relax_step(relax_pass(pts, ids, sticks, n - 1), ids, sticks[n - 1])
    }
}

/// Whether any of the first `n` stick applications moved an endpoint by
/// more than `limit`.
pub open spec fn relax_moved(
    pts: Seq<Point>,
    ids: Seq<u64>,
    sticks: Seq<Stick>,
    n: int,
    limit: int,
) -> bool
    decreases n,
{
    if n <= 0 {
        false
    } else {
        relax_moved(pts, ids, sticks, n - 1, limit) || relax_step_moved(
            relax_pass(pts, ids, sticks, n - 1),
            ids,
            sticks[n - 1],
            limit,
        )
    }
}

/// One relaxation pass over all sticks, in order, plus the substep's
/// dirty-frame update.
pub fn restore_stick_constraints(
    points: &mut Vec<Point>,
    ids: &Vec<u64>,
    sticks: &Vec<Stick>,
    frame: &mut FrameComparison,
    s: &SimulationSettings,
)
    requires
        wf_points(old(points)@),
        wf_sticks(sticks@),
        s.wf(),
        old(points)@.len() == ids@.len(),
        distinct_ids(ids@),
    ensures
        final(points)@ == relax_pass(old(points)@, ids@, sticks@, sticks@.len() as int),
        wf_points(final(points)@),
        final(points)@.len() == old(points)@.len(),
        *final(frame) == frame_after_substep(
            *old(frame),
            relax_moved(
                old(points)@,
                ids@,
                sticks@,
                sticks@.len() as int,
                s.min_render_delta as int,
            ),
        ),
{
    let ghost orig: Seq<Point> = points@;
    let lim: i64 = s.min_render_delta;
    proof {
        assert((lim as int) * (lim as int) <= u128::MAX) by (nonlinear_arith)
            requires
                0 <= lim <= 1_000_000_000_000,
        ;
    }
    let lim2: u128 = (lim as u128) * (lim as u128);
    let mut moved: bool = false;
    let n: usize = sticks.len();
    let mut k: usize = 0;
    while k < n
        invariant
            k <= n,
            n == sticks@.len(),
            points@.len() == orig.len(),
            orig.len() == ids@.len(),
            wf_points(orig),
            wf_points(points@),
            wf_sticks(sticks@),
            s.wf(),
            distinct_ids(ids@),
            lim == s.min_render_delta,
            lim2 == lim * lim,
            points@ == relax_pass(orig, ids@, sticks@, k as int),
            moved == relax_moved(orig, ids@, sticks@, k as int, lim as int),
        decreases n - k,
    {
        let st: Stick = sticks[k];
        let i1: usize = find_id(ids, st.point1);
        let i2: usize = find_id(ids, st.point2);
        if i1 < points.len() && i2 < points.len() && i1 != i2 {
            proof {
                assert(has_id(ids@, st.point1));
                assert(has_id(ids@, st.point2));
                let j1 = id_index(ids@, st.point1);
                let j2 = id_index(ids@, st.point2);
                assert(0 <= j1 < ids@.len() && ids@[j1] == st.point1);
                assert(0 <= j2 < ids@.len() && ids@[j2] == st.point2);
                assert(j1 == i1 as int);
                assert(j2 == i2 as int);
            }
            let p1: Point = points[i1];
            let p2: Point = points[i2];
            let rp: (Point, Point) = relax_pair_exec(p1, p2, st.length);
            points.set(i1, rp.0);
            points.set(i2, rp.1);
            let d1: u128 = dist2_exec(p1.position, rp.0.position);
            let d2v: u128 = dist2_exec(p2.position, rp.1.position);
            if d1 > lim2 || d2v > lim2 {
                moved = true;
            }
        } else {
            proof {
                if i1 >= points@.len() {
                    assert(!has_id(ids@, st.point1));
                } else if i2 >= points@.len() {
                    assert(!has_id(ids@, st.point2));
                } else {
                    assert(ids@[i1 as int] == st.point1 && ids@[i2 as int] == st.point2);
                    assert(id_index(ids@, st.point1) == i1 as int);
                    assert(id_index(ids@, st.point2) == i2 as int);
                }
            }
        }
        k = k + 1;
    }
    if !frame.changed && moved {
        frame.frames_since = 0;
        frame.changed = true;
    }
}



/// Two coincident vectors are at distance zero.
pub proof fn lemma_dist2_zero(a: Vec3, b: Vec3)
    requires
        a == b,
    ensures
        dist2(a, b) == 0,
{
    assert((b.x - a.x) * (b.x - a.x) == 0) by (nonlinear_arith)
        requires
            b.x == a.x,
    ;
    assert((b.y - a.y) * (b.y - a.y) == 0) by (nonlinear_arith)
        requires
            b.y == a.y,
    ;
    assert((b.z - a.z) * (b.z - a.z) == 0) by (nonlinear_arith)
        requires
            b.z == a.z,
    ;
}

/// `moved_beyond` over a prefix only reads that prefix.
pub proof fn lemma_moved_beyond_frame(
    a: Seq<Point>,
    b1: Seq<Point>,
    b2: Seq<Point>,
    n: int,
    lim: int,
)
    requires
        forall|j: int| 0 <= j < n ==> b1[j] == b2[j],
    ensures
        moved_beyond(a, b1, n, lim) == moved_beyond(a, b2, n, lim),
{
    if moved_beyond(a, b1, n, lim) {
        let w = choose|w: int|
            0 <= w < n && dist2(#[trigger] a[w].position, b1[w].position) > lim * lim;
        assert(dist2(a[w].position, b2[w].position) > lim * lim);
    }
    if moved_beyond(a, b2, n, lim) {
        let w = choose|w: int|
            0 <= w < n && dist2(#[trigger] a[w].position, b2[w].position) > lim * lim;
        assert(dist2(a[w].position, b1[w].position) > lim * lim);
    }
}

/// Extending the prefix by one position adds exactly that position's test.
pub proof fn lemma_moved_beyond_extend(a: Seq<Point>, b: Seq<Point>, i: int, lim: int)
    requires
        0 <= i,
    ensures
        moved_beyond(a, b, i + 1, lim) == (moved_beyond(a, b, i, lim) || dist2(
            a[i].position,
            b[i].position,
        ) > lim * lim),
{
    if moved_beyond(a, b, i + 1, lim) {
        let w = choose|w: int|
            0 <= w < i + 1 && dist2(#[trigger] a[w].position, b[w].position) > lim * lim;
        if w < i {
            assert(moved_beyond(a, b, i, lim));
        }
    }
    if moved_beyond(a, b, i, lim) {
        let w = choose|w: int|
            0 <= w < i && dist2(#[trigger] a[w].position, b[w].position) > lim * lim;
        assert(dist2(a[w].position, b[w].position) > lim * lim);
        assert(moved_beyond(a, b, i + 1, lim));
    }
    if dist2(a[i].position, b[i].position) > lim * lim {
        assert(moved_beyond(a, b, i + 1, lim));
    }
}

/// Where one integration step sends a particle: a locked one only re-syncs
/// its previous position (its implicit velocity stays zero); a free one
/// takes its step, unless the step would leave the coordinate cap.
pub open spec fn integrate_spec(p: Point, s: SimulationSettings, dt_us: int) -> Point {
    if p.locked {
        Point { prev_position: p.position, ..p }
    } else if p.step_allowed(s, dt_us) {
        let (tx, ty, tz) = p.step_target(s, dt_us);
        Point {
            position: Vec3 { x: tx as i64, y: ty as i64, z: tz as i64 },
            prev_position: p.position,
            ..p
        }
    } else {
        p
    }
}

/// The integration pass: every particle takes one step, and the dirty-frame
/// record is settled for this tick (movement past the threshold, or the
/// forced render after too many unchanged frames).
pub fn update_points(
    points: &mut Vec<Point>,
    dt_us: i64,
    frame: &mut FrameComparison,
    s: &SimulationSettings,
)
    requires
        wf_points(old(points)@),
        s.wf(),
        0 <= dt_us <= crate::particle::MAX_TICK_US,
    ensures
        final(points)@.len() == old(points)@.len(),
        forall|i: int|
            0 <= i < old(points)@.len() ==> final(points)@[i] == integrate_spec(
                old(points)@[i],
                *s,
                dt_us as int,
            ),
        wf_points(final(points)@),
        *final(frame) == frame_after_compute(
            *old(frame),
            *s,
            moved_beyond(
                old(points)@,
                final(points)@,
                old(points)@.len() as int,
                s.min_render_delta as int,
            ),
        ),
{
    let ghost orig: Seq<Point> = points@;
    let lim: i64 = s.min_render_delta;
    proof {
        assert((lim as int) * (lim as int) <= u128::MAX) by (nonlinear_arith)
            requires
                0 <= lim <= 1_000_000_000_000,
        ;
    }
    let lim2: u128 = (lim as u128) * (lim as u128);
    let mut moved: bool = false;
    let n: usize = points.len();
    let mut i: usize = 0;
    while i < n
        invariant
            i <= n,
            n == orig.len(),
            points@.len() == orig.len(),
            wf_points(orig),
            wf_points(points@),
            s.wf(),
            0 <= dt_us <= crate::particle::MAX_TICK_US,
            lim == s.min_render_delta,
            lim2 == lim * lim,
            forall|j: int|
                0 <= j < i ==> points@[j] == integrate_spec(orig[j], *s, dt_us as int),
            forall|j: int| i <= j < n ==> points@[j] == orig[j],
            moved == moved_beyond(orig, points@, i as int, lim as int),
        decreases n - i,
    {
        let ghost pre: Seq<Point> = points@;
        let p: Point = points[i];
        if p.locked {
            points.set(i, Point { prev_position: p.position, ..p });
            proof {
                lemma_dist2_zero(orig[i as int].position, points@[i as int].position);
            }
        } else {
            let mut q: Point = p;
            q.update_properties(dt_us, s);
            points.set(i, q);
            let d2: u128 = dist2_exec(p.position, q.position);
            if d2 > lim2 {
                moved = true;
            }
        }
        proof {
            lemma_moved_beyond_frame(orig, pre, points@, i as int, lim as int);
            lemma_moved_beyond_extend(orig, points@, i as int, lim as int);
        }
        i = i + 1;
    }
    if moved {
        frame.frames_since = 0;
        frame.changed = true;
    } else if frame.frames_since > s.max_unchanged_frames {
        frame.frames_since = 0;
        frame.changed = true;
    } else {
        if frame.frames_since < 0xFFFF_FFFFu32 {
            frame.frames_since = frame.frames_since + 1;
        }
        frame.changed = false;
    }
}

/// The whole-set boundary clamp, one `clamp_spec` per particle.
pub open spec fn clamp_all(pts: Seq<Point>, s: SimulationSettings) -> Seq<Point> {
    Seq::new(pts.len(), |i: int| clamp_spec(pts[i], s))
}

/// The boundary-clamp pass of one substep, plus its dirty-frame update
/// (which is skipped once the tick is already dirty).
pub fn constrain_points(points: &mut Vec<Point>, frame: &mut FrameComparison, s: &SimulationSettings)
    requires
        wf_points(old(points)@),
        s.wf(),
    ensures
        final(points)@ == clamp_all(old(points)@, *s),
        wf_points(final(points)@),
        final(points)@.len() == old(points)@.len(),
        *final(frame) == frame_after_substep(
            *old(frame),
            moved_beyond(
                old(points)@,
                final(points)@,
                old(points)@.len() as int,
                s.min_render_delta as int,
            ),
        ),
{
    let ghost orig: Seq<Point> = points@;
    let lim: i64 = s.min_render_delta;
    proof {
        assert((lim as int) * (lim as int) <= u128::MAX) by (nonlinear_arith)
            requires
                0 <= lim <= 1_000_000_000_000,
        ;
    }
    let lim2: u128 = (lim as u128) * (lim as u128);
    let mut moved: bool = false;
    let n: usize = points.len();
    let mut i: usize = 0;
    while i < n
        invariant
            i <= n,
            n == orig.len(),
            points@.len() == orig.len(),
            wf_points(orig),
            wf_points(points@),
            s.wf(),
            lim == s.min_render_delta,
            lim2 == lim * lim,
            forall|j: int| 0 <= j < i ==> points@[j] == clamp_spec(orig[j], *s),
            forall|j: int| i <= j < n ==> points@[j] == orig[j],
            moved == moved_beyond(orig, points@, i as int, lim as int),
        decreases n - i,
    {
        let ghost pre: Seq<Point> = points@;
        let p: Point = points[i];
        let q: Point = clamp_point(p, s);
        points.set(i, q);
        let d2: u128 = dist2_exec(p.position, q.position);
        if d2 > lim2 {
            moved = true;
        }
        proof {
            lemma_moved_beyond_frame(orig, pre, points@, i as int, lim as int);
            lemma_moved_beyond_extend(orig, points@, i as int, lim as int);
        }
        i = i + 1;
    }
    proof {
        assert(points@ =~= clamp_all(orig, *s));
    }
    if !frame.changed && moved {
        frame.frames_since = 0;
        frame.changed = true;
    }
}

/// Where the jerk filter sends a particle: the discrete second difference
/// of the three most recent positions, scaled by the damping factor, is
/// subtracted from the next position. Locked particles are excluded, and a
/// result outside the coordinate cap is dropped.
pub open spec fn jerk_spec(p: Point, s: SimulationSettings) -> Point {
    if p.locked {
        p
    } else {
        let dx = p.position.x - 2 * p.prev_position.x + p.previously_rendered_position.x;
        let dy = p.position.y - 2 * p.prev_position.y + p.previously_rendered_position.y;
        let dz = p.position.z - 2 * p.prev_position.z + p.previously_rendered_position.z;
        let nx = p.position.x - damp(dx, s.jerk_damping as int);
        let ny = p.position.y - damp(dy, s.jerk_damping as int);
        let nz = p.position.z - damp(dz, s.jerk_damping as int);
        if in_cap(nx) && in_cap(ny) && in_cap(nz) {
            Point { position: Vec3 { x: nx as i64, y: ny as i64, z: nz as i64 }, ..p }
        } else {
            p
        }
    }
}

/// The jerk-filter pass over every particle.
pub fn filter(points: &mut Vec<Point>, s: &SimulationSettings)
    requires
        wf_points(old(points)@),
        s.wf(),
    ensures
        final(points)@.len() == old(points)@.len(),
        forall|i: int|
            0 <= i < old(points)@.len() ==> final(points)@[i] == jerk_spec(old(points)@[i], *s),
        wf_points(final(points)@),
{
    let ghost orig: Seq<Point> = points@;
    let n: usize = points.len();
    let mut i: usize = 0;
    while i < n
        invariant
            i <= n,
            n == orig.len(),
            points@.len() == orig.len(),
            wf_points(orig),
            wf_points(points@),
            s.wf(),
            forall|j: int| 0 <= j < i ==> points@[j] == jerk_spec(orig[j], *s),
            forall|j: int| i <= j < n ==> points@[j] == orig[j],
        decreases n - i,
    {
        let p: Point = points[i];
        if !p.locked {
            let dx: i64 = p.position.x - 2 * p.prev_position.x
                + p.previously_rendered_position.x;
            let dy: i64 = p.position.y - 2 * p.prev_position.y
                + p.previously_rendered_position.y;
            let dz: i64 = p.position.z - 2 * p.prev_position.z
                + p.previously_rendered_position.z;
            proof {
                lemma_damp_bound(dx as int, s.jerk_damping as int, 4 * PART_BOUND as int);
                lemma_damp_bound(dy as int, s.jerk_damping as int, 4 * PART_BOUND as int);
                lemma_damp_bound(dz as int, s.jerk_damping as int, 4 * PART_BOUND as int);
            }
            let nx: i64 = p.position.x - mul_div(dx, s.jerk_damping, PERMILLE);
            let ny: i64 = p.position.y - mul_div(dy, s.jerk_damping, PERMILLE);
            let nz: i64 = p.position.z - mul_div(dz, s.jerk_damping, PERMILLE);
            if -PART_BOUND <= nx && nx <= PART_BOUND && -PART_BOUND <= ny && ny <= PART_BOUND
                && -PART_BOUND <= nz && nz <= PART_BOUND {
                points.set(i, Point { position: Vec3 { x: nx, y: ny, z: nz }, ..p });
            }
        }
        i = i + 1;
    }
}

/// One constraint substep: boundary clamp, then stick relaxation, each with
/// its dirty-frame update.
pub open spec fn substep_spec(
    pts: Seq<Point>,
    ids: Seq<u64>,
    sticks: Seq<Stick>,
    fr: FrameComparison,
    s: SimulationSettings,
) -> (Seq<Point>, FrameComparison) {
    let cl = clamp_all(pts, s);
    let f1 = frame_after_substep(
        fr,
        moved_beyond(pts, cl, pts.len() as int, s.min_render_delta as int),
    );
    let rl = relax_pass(cl, ids, sticks, sticks.len() as int);
    let f2 = frame_after_substep(
        f1,
        relax_moved(cl, ids, sticks, sticks.len() as int, s.min_render_delta as int),
    );
    (rl, f2)
}

/// `n` constraint substeps in order.
pub open spec fn converge_spec(
    pts: Seq<Point>,
    ids: Seq<u64>,
    sticks: Seq<Stick>,
    fr: FrameComparison,
    s: SimulationSettings,
    n: int,
) -> (Seq<Point>, FrameComparison)
    decreases n,
{
    if n <= 0 {
        (pts, fr)
    } else {
        let prev = converge_spec(pts, ids, sticks, fr, s, n - 1);
        substep_spec(prev.0, ids, sticks, prev.1, s)
    }
}

/// The constraint solver: `converge_iterations` substeps of boundary clamp
/// followed by stick relaxation.
pub fn converge(
    points: &mut Vec<Point>,
    ids: &Vec<u64>,
    sticks: &Vec<Stick>,
    frame: &mut FrameComparison,
    s: &SimulationSettings,
)
    requires
        wf_points(old(points)@),
        wf_sticks(sticks@),
        s.wf(),
        old(points)@.len() == ids@.len(),
        distinct_ids(ids@),
    ensures
        (final(points)@, *final(frame)) == converge_spec(
            old(points)@,
            ids@,
            sticks@,
            *old(frame),
            *s,
            s.converge_iterations as int,
        ),
        wf_points(final(points)@),
        final(points)@.len() == old(points)@.len(),
{
    let ghost orig: Seq<Point> = points@;
    let ghost forig: FrameComparison = *frame;
    let iterations: u16 = s.converge_iterations;
    let mut k: u16 = 0;
    while k < iterations
        invariant
            k <= iterations,
            iterations == s.converge_iterations,
            wf_points(orig),
            wf_points(points@),
            wf_sticks(sticks@),
            s.wf(),
            orig.len() == ids@.len(),
            points@.len() == orig.len(),
            distinct_ids(ids@),
            (points@, *frame) == converge_spec(orig, ids@, sticks@, forig, *s, k as int),
        decreases iterations - k,
    {
        constrain_points(points, frame, s);
        restore_stick_constraints(points, ids, sticks, frame, s);
        k = k + 1;
    }
}


/// One scramble step of the generator state; any fixed scramble serves,
/// only determinism under a fixed seed matters.
fn scramble(state: u64) -> (r: u64) {
    let mut x: u64 = state ^ (state >> 12);
    x = x ^ (x << 25);
    x ^ (x >> 27)
}

/// A seeded permutation of `0..n`, for hosts that want the original
/// bias-avoiding randomized iteration order while keeping runs
/// reproducible. The solver's own passes iterate in storage order: their
/// contracts fix each particle's result independently of the order, so a
/// shuffle cannot change what they compute — only the visual convergence
/// path of external consumers.
pub fn shuffled_indices(n: usize, seed: u64) -> (r: Vec<usize>)
    ensures
        r@.len() == n,
        forall|i: int| 0 <= i < n ==> (#[trigger] r@[i]) < n,
        forall|i: int, j: int| 0 <= i < j < n ==> r@[i] != r@[j],
{
    let mut r: Vec<usize> = Vec::new();
    let mut i: usize = 0;
    while i < n
        invariant
            i <= n,
            r@.len() == i,
            forall|k: int| 0 <= k < i ==> (#[trigger] r@[k]) == k,
        decreases n - i,
    {
        r.push(i);
        i = i + 1;
    }
    proof {
        assert forall|a: int, b: int| 0 <= a < b < n implies r@[a] != r@[b] by {}
    }
    let mut state: u64 = scramble(seed ^ 0x9E37_79B9_7F4A_7C15);
    let mut k: usize = n;
    while k > 1
        invariant
            k <= n,
            r@.len() == n,
            forall|i_: int| 0 <= i_ < n ==> (#[trigger] r@[i_]) < n,
            forall|a: int, b: int| 0 <= a < b < n ==> r@[a] != r@[b],
        decreases k,
    {
        state = scramble(state);
        let j: usize = (state % (k as u64)) as usize;
        proof {
            assert(state % (k as u64) < k as u64) by {
                vstd::arithmetic::div_mod::lemma_mod_division_less_than_divisor(
                    state as int,
                    k as int,
                );
            }
        }
        let ghost pre: Seq<usize> = r@;
        let a: usize = r[k - 1];
        let b: usize = r[j];
        r.set(k - 1, b);
        r.set(j, a);
        proof {
            assert forall|x: int, y: int| 0 <= x < y < n implies r@[x] != r@[y] by {
                let ki = k - 1;
                let ji = j as int;
                assert(pre[x] != pre[y]);
                if x == ki as int || x == ji || y == ki as int || y == ji {
                    assert(r@[ki as int] == pre[ji] && r@[ji] == pre[ki as int]);
                }
            }
        }
        k = k - 1;
    }
    r
}

/// A locked particle's position survives one boundary clamp, and no clamp
/// changes a lock flag.
pub proof fn lemma_clamp_all_locked(pts: Seq<Point>, s: SimulationSettings)
    ensures
        clamp_all(pts, s).len() == pts.len(),
        forall|i: int|
            0 <= i < pts.len() ==> (#[trigger] clamp_all(pts, s)[i]).locked == pts[i].locked,
        forall|i: int|
            0 <= i < pts.len() && pts[i].locked ==> (#[trigger] clamp_all(pts, s)[i]).position
                == pts[i].position,
{
}

/// One stick application never moves a locked particle and never changes a
/// lock flag.
pub proof fn lemma_relax_step_locked(pts: Seq<Point>, ids: Seq<u64>, st: Stick)
    requires
        pts.len() == ids.len(),
    ensures
        relax_step(pts, ids, st).len() == pts.len(),
        forall|i: int|
            0 <= i < pts.len() ==> (#[trigger] relax_step(pts, ids, st)[i]).locked
                == pts[i].locked,
        forall|i: int|
            0 <= i < pts.len() && pts[i].locked ==> #[trigger] relax_step(pts, ids, st)[i]
                == pts[i],
{
    let r = relax_step(pts, ids, st);
    if has_id(ids, st.point1) && has_id(ids, st.point2) && id_index(ids, st.point1) != id_index(
        ids,
        st.point2,
    ) {
        let i1 = id_index(ids, st.point1);
        let i2 = id_index(ids, st.point2);
        assert(0 <= i1 < ids.len() && ids[i1] == st.point1);
        assert(0 <= i2 < ids.len() && ids[i2] == st.point2);
        let rp = relax_pair(pts[i1], pts[i2], st.length as int);
        assert(rp.0.locked == pts[i1].locked && rp.1.locked == pts[i2].locked);
        assert(pts[i1].locked ==> rp.0 == pts[i1]);
        assert(pts[i2].locked ==> rp.1 == pts[i2]);
    }
}

/// A relaxation pass never moves a locked particle and never changes a
/// lock flag.
pub proof fn lemma_relax_pass_locked(pts: Seq<Point>, ids: Seq<u64>, sticks: Seq<Stick>, n: int)
    requires
        pts.len() == ids.len(),
    ensures
        relax_pass(pts, ids, sticks, n).len() == pts.len(),
        forall|i: int|
            0 <= i < pts.len() ==> (#[trigger] relax_pass(pts, ids, sticks, n)[i]).locked
                == pts[i].locked,
        forall|i: int|
            0 <= i < pts.len() && pts[i].locked ==> #[trigger] relax_pass(pts, ids, sticks, n)[i]
                == pts[i],
    decreases n,
{
    if n > 0 {
        lemma_relax_pass_locked(pts, ids, sticks, n - 1);
        lemma_relax_step_locked(relax_pass(pts, ids, sticks, n - 1), ids, sticks[n - 1]);
    }
}

/// The whole constraint solver never moves a locked particle and never
/// changes a lock flag.
pub proof fn lemma_converge_locked(
    pts: Seq<Point>,
    ids: Seq<u64>,
    sticks: Seq<Stick>,
    fr: FrameComparison,
    s: SimulationSettings,
    n: int,
)
    requires
        pts.len() == ids.len(),
    ensures
        converge_spec(pts, ids, sticks, fr, s, n).0.len() == pts.len(),
        forall|i: int|
            0 <= i < pts.len() ==> (#[trigger] converge_spec(pts, ids, sticks, fr, s, n).0[i]).locked
                == pts[i].locked,
        forall|i: int|
            0 <= i < pts.len() && pts[i].locked ==> (#[trigger] converge_spec(
                pts,
                ids,
                sticks,
                fr,
                s,
                n,
            ).0[i]).position == pts[i].position,
    decreases n,
{
    if n > 0 {
        lemma_converge_locked(pts, ids, sticks, fr, s, n - 1);
        let prev = converge_spec(pts, ids, sticks, fr, s, n - 1);
        lemma_clamp_all_locked(prev.0, s);
        lemma_relax_pass_locked(clamp_all(prev.0, s), ids, sticks, sticks.len() as int);
    }
}

/// Neither the integration step nor the jerk filter moves a locked
/// particle or changes a lock flag.
pub proof fn lemma_point_passes_locked(p: Point, s: SimulationSettings, dt_us: int)
    ensures
        integrate_spec(p, s, dt_us).locked == p.locked,
        p.locked ==> integrate_spec(p, s, dt_us).position == p.position,
        jerk_spec(p, s).locked == p.locked,
        p.locked ==> jerk_spec(p, s) == p,
{
}


/// Boundary reflection loses exactly the configured fraction of speed: a
/// free particle past the floor with downward implicit speed `v` is
/// clamped onto the floor with upward implicit speed `v` scaled by the
/// restitution coefficient — strictly less than `v` for a coefficient
/// below one. Holds below the clamp's velocity guard, the accepted
/// machine limit of the fixed-point model.
pub proof fn lemma_floor_bounce(p: Point, s: SimulationSettings)
    requires
        p.wf(),
        s.wf(),
        !p.locked,
        s.simulation_bounds.y.0,
        p.position.y <= 0,
        p.position.y - p.prev_position.y < 0,
        -CLAMP_VEL_BOUND <= p.position.x - p.prev_position.x <= CLAMP_VEL_BOUND,
        -CLAMP_VEL_BOUND <= p.position.y - p.prev_position.y <= CLAMP_VEL_BOUND,
        -CLAMP_VEL_BOUND <= p.position.z - p.prev_position.z <= CLAMP_VEL_BOUND,
    ensures
        clamp_spec(p, s).position.y == 0,
        clamp_spec(p, s).position.y - clamp_spec(p, s).prev_position.y == -damp(
            p.position.y - p.prev_position.y,
            s.coeff_restitution as int,
        ),
        0 <= -damp(p.position.y - p.prev_position.y, s.coeff_restitution as int),
        s.coeff_restitution < PERMILLE ==> -damp(
            p.position.y - p.prev_position.y,
            s.coeff_restitution as int,
        ) < -(p.position.y - p.prev_position.y),
{
    let vy = p.position.y - p.prev_position.y;
    let c = s.coeff_restitution as int;
    lemma_damp_bound(vy, c, CLAMP_VEL_BOUND as int);
    crate::fixed::lemma_tdiv_bound(vy * c, PERMILLE as int);
    assert(vy * c <= 0) by (nonlinear_arith)
        requires
            vy < 0,
            c >= 0,
    ;
    if s.coeff_restitution < PERMILLE {
        assert(-(vy * c) <= PERMILLE * (-vy) - 1) by (nonlinear_arith)
            requires
                vy <= -1,
                0 <= c <= PERMILLE - 1,
                PERMILLE == 1000,
        ;
        vstd::arithmetic::div_mod::lemma_fundamental_div_mod_converse(
            PERMILLE * (-vy) - 1,
            PERMILLE as int,
            -vy - 1,
            PERMILLE - 1,
        );
        vstd::arithmetic::div_mod::lemma_div_is_ordered(
            -(vy * c),
            PERMILLE * (-vy) - 1,
            PERMILLE as int,
        );
    }
}

/// Constraint relaxation restores an axis-aligned stick exactly: two free
/// particles on one axis whose gap differs from the rest length by an
/// even amount are moved symmetrically — the midpoint stays put and their
/// distance equals the rest length after a single pass (no boundary
/// interfering). The general convergence over substeps is approached the
/// same way with a rounding remainder of at most one micro-unit per
/// axis.
pub proof fn lemma_stick_converges(p1: Point, p2: Point, rest: i64)
    requires
        !p1.locked,
        !p2.locked,
        p1.position.in_bound(1_000_000_000_000),
        p2.position.in_bound(1_000_000_000_000),
        0 <= rest <= 1_000_000_000_000,
        p1.position.y == p2.position.y,
        p1.position.z == p2.position.z,
        p2.position.x > p1.position.x,
        (p2.position.x - p1.position.x - rest) % 2 == 0,
    ensures
        dist(
            relax_pair(p1, p2, rest as int).0.position,
            relax_pair(p1, p2, rest as int).1.position,
        ) == rest,
        relax_pair(p1, p2, rest as int).0.position.x + relax_pair(p1, p2, rest as int).1.position.x
            == p1.position.x + p2.position.x,
        relax_pair(p1, p2, rest as int).0.position.y == p1.position.y,
        relax_pair(p1, p2, rest as int).1.position.y == p2.position.y,
        relax_pair(p1, p2, rest as int).0.position.z == p1.position.z,
        relax_pair(p1, p2, rest as int).1.position.z == p2.position.z,
{
    let dx = p2.position.x - p1.position.x;
    crate::vec3::lemma_sq_bound(dx, 2_000_000_000_000);
    assert(dist2(p1.position, p2.position) == dx * dx) by {
        assert((p2.position.y - p1.position.y) * (p2.position.y - p1.position.y) == 0)
            by (nonlinear_arith)
            requires
                p2.position.y == p1.position.y,
        ;
        assert((p2.position.z - p1.position.z) * (p2.position.z - p1.position.z) == 0)
            by (nonlinear_arith)
            requires
                p2.position.z == p1.position.z,
        ;
    }
    assert(dx * dx < (dx + 1) * (dx + 1)) by (nonlinear_arith)
        requires
            dx > 0,
    ;
    crate::fixed::lemma_sqrt_unique(dx * dx, dx);
    let len = dist(p1.position, p2.position);
    assert(len == dx);
    let k = (dx - rest) / 2;
    assert(dx - rest == 2 * k) by {
        vstd::arithmetic::div_mod::lemma_fundamental_div_mod(dx - rest, 2);
    }
    assert(dx * (dx - rest) == (2 * dx) * k) by (nonlinear_arith)
        requires
            dx - rest == 2 * k,
    ;
    assert(tdiv(dx * (dx - rest), 2 * dx) == k) by {
        if k >= 0 {
            vstd::arithmetic::div_mod::lemma_div_multiples_vanish(k, 2 * dx);
            assert((2 * dx) * k >= 0) by (nonlinear_arith)
                requires
                    dx > 0,
                    k >= 0,
            ;
        } else {
            assert(-((2 * dx) * k) == (2 * dx) * (-k)) by (nonlinear_arith);
            vstd::arithmetic::div_mod::lemma_div_multiples_vanish(-k, 2 * dx);
            assert((2 * dx) * k < 0) by (nonlinear_arith)
                requires
                    dx > 0,
                    k < 0,
            ;
        }
    }
    assert((p2.position.y - p1.position.y) * (len - rest) == 0) by (nonlinear_arith)
        requires
            p2.position.y == p1.position.y,
    ;
    assert((p2.position.z - p1.position.z) * (len - rest) == 0) by (nonlinear_arith)
        requires
            p2.position.z == p1.position.z,
    ;
    assert(tdiv(0, 2 * len) == 0) by {
        assert(0int / (2 * len) == 0);
    }
    let r = relax_pair(p1, p2, rest as int);
    assert(-1_500_000_000_000 <= k <= 1_500_000_000_000) by {
        vstd::arithmetic::div_mod::lemma_div_is_ordered(dx - rest, 3_000_000_000_000, 2);
        vstd::arithmetic::div_mod::lemma_div_is_ordered(-3_000_000_000_000, dx - rest, 2);
    }
    assert(in_cap(p1.position.x + k) && in_cap(p2.position.x - k));
    let q1 = r.0.position;
    let q2 = r.1.position;
    assert(q2.x - q1.x == rest);
    assert(dist2(q1, q2) == rest * rest) by {
        assert((q2.y - q1.y) * (q2.y - q1.y) == 0) by (nonlinear_arith)
            requires
                q2.y == q1.y,
        ;
        assert((q2.z - q1.z) * (q2.z - q1.z) == 0) by (nonlinear_arith)
            requires
                q2.z == q1.z,
        ;
        assert((q2.x - q1.x) * (q2.x - q1.x) == rest * rest) by (nonlinear_arith)
            requires
                q2.x - q1.x == rest,
        ;
    }
    assert(rest * rest < (rest + 1) * (rest + 1)) by (nonlinear_arith)
        requires
            rest >= 0,
    ;
    crate::fixed::lemma_sqrt_unique(rest * rest, rest as int);
}

} // verus!
