//! Interactive modification of the simulation: proximity tests against the
//! interaction radius, the cut gesture, lock toggling, and the two-click
//! line connection. Events arrive with a world-space position already
//! resolved by the host's input projection.

use vstd::prelude::*;
use vstd::pervasive::VecAdditionalExecFns;

use crate::fixed::tdiv;
use crate::particle::{PART_BOUND, Point, Stick};
use crate::solver::{distinct_ids, find_id, has_id, id_index, wf_points, wf_sticks};
use crate::SCALE;
use crate::shapes::{cloth_network, cube_network, rope_network, square_network};
use crate::spawn::{MaterialType, SpawnRequest};
use crate::vec3::{COORD_BOUND, Vec3, dist, dist2, dist2_exec, dist_exec};
use crate::world::World;

verus! {

/// What interaction events currently do.
#[derive(Clone, Copy, Debug, PartialEq, Eq, Structural)]
pub enum ModificationTarget {
    /// A click drops a free point.
    Point,
    /// Two clicks on points create a stick between them.
    Line,
    /// A click toggles a point's lock.
    Lock,
    /// Armed to cut: the next press starts cutting.
    Cut,
    /// Cutting: drags remove the sticks they cross.
    Cutting,
    /// A click spawns a rope at the location.
    SpawnRope,
    /// A click spawns a square at the location.
    SpawnSquare,
    /// A click spawns a cloth filling the window.
    SpawnCloth,
    /// A click spawns a cube at the location.
    SpawnCube,
    /// A click deletes the point it hits.
    Delete,
    /// A click selects a point for live telemetry.
    Telemetry,
    /// Events do nothing.
    Inactive,
}

/// A discrete interaction event carrying its world-space position.
#[derive(Clone, Copy, Debug, PartialEq, Eq, Structural)]
pub enum ModifyEventType {
    Left(Vec3),
    Right(Vec3),
    Middle(Vec3),
    Move(Vec3),
    Release(Vec3),
}

/// The half-built two-click line connection.
#[derive(Clone, Copy, Debug, PartialEq, Eq, Structural)]
pub struct LineConnections {
    pub p0: Option<u64>,
    pub p1: Option<u64>,
}

/// Whether `p` lies within `radius` of `q` (squared distances compare
/// exactly).
pub open spec fn near(p: Vec3, q: Vec3, radius: int) -> bool {
    dist2(p, q) <= radius * radius
}

/// The proximity test of every interaction: whether `p` is within the
/// interaction radius of the event position `q`.
pub fn point_near(p: Vec3, q: Vec3, radius: i64) -> (r: bool)
    requires
        p.in_bound(COORD_BOUND as int),
        q.in_bound(COORD_BOUND as int),
        0 <= radius <= 1_000_000_000_000,
    ensures
        r == near(p, q, radius as int),
{
    let d2: u128 = dist2_exec(p, q);
    proof {
        assert((radius as int) * (radius as int) <= u128::MAX) by (nonlinear_arith)
            requires
                0 <= radius <= 1_000_000_000_000,
        ;
    }
    d2 <= (radius as u128) * (radius as u128)
}

/// The number of points sampled along a line of length `len` at the given
/// spacing: both endpoints, plus one per whole spacing strictly inside.
pub open spec fn sample_count(len: int, spacing: int) -> int {
    if len == 0 {
        1
    } else {
        2 + (len - 1) / spacing
    }
}

/// Sample `k` of the line from `a` to `b` (0 is `a`, the last is `b`, the
/// ones between sit a whole number of spacings along the line).
pub open spec fn sample_at(a: Vec3, b: Vec3, spacing: int, k: int) -> Vec3 {
    let len = dist(a, b);
    if k == 0 {
        a
    } else if k == sample_count(len, spacing) - 1 {
        b
    } else {
        Vec3 {
            x: (a.x + tdiv((b.x - a.x) * (k * spacing), len)) as i64,
            y: (a.y + tdiv((b.y - a.y) * (k * spacing), len)) as i64,
            z: (a.z + tdiv((b.z - a.z) * (k * spacing), len)) as i64,
        }
    }
}

/// Whether one of the first `n` samples of the line from `a` to `b` lies
/// within `radius` of `cursor`.
pub open spec fn hits_upto(a: Vec3, b: Vec3, spacing: int, cursor: Vec3, radius: int, n: int) -> bool
    decreases n,
{
    if n <= 0 {
        false
    } else {
        hits_upto(a, b, spacing, cursor, radius, n - 1) || near(
            sample_at(a, b, spacing, n - 1),
            cursor,
            radius,
        )
    }
}

/// Whether a cutting drag at `cursor` severs the stick from `a` to `b`:
/// some sampled point of the stick lies within the interaction radius.
pub open spec fn line_hit(a: Vec3, b: Vec3, spacing: int, cursor: Vec3, radius: int) -> bool {
    hits_upto(a, b, spacing, cursor, radius, sample_count(dist(a, b), spacing))
}

/// The points sampled along the line from `a` to `b`: both ends, plus one
/// every `spacing` micro-units strictly between them. Coincident ends give
/// the single point itself.
pub fn sample_points_along_line(a: Vec3, b: Vec3, spacing: i64) -> (r: Vec<Vec3>)
    requires
        spacing > 0,
        a.in_bound(PART_BOUND as int),
        b.in_bound(PART_BOUND as int),
    ensures
        r@.len() == sample_count(dist(a, b), spacing as int),
        forall|k: int|
            0 <= k < r@.len() ==> #[trigger] r@[k] == sample_at(a, b, spacing as int, k),
        forall|k: int|
            0 <= k < r@.len() ==> (#[trigger] r@[k]).in_bound(5 * PART_BOUND as int),
{
    let len: i64 = dist_exec(a, b);
    if len == 0 {
        let mut r: Vec<Vec3> = Vec::new();
        r.push(a);
        return r;
    }
    proof {
        crate::solver::lemma_dist_facts(a, b, PART_BOUND as int);
    }
    let mut r: Vec<Vec3> = Vec::new();
    r.push(a);
    let count: i64 = 2 + (len - 1) / spacing;
    proof {
        vstd::arithmetic::div_mod::lemma_div_pos_is_pos(len - 1, spacing as int);
        vstd::arithmetic::div_mod::lemma_div_nonincreasing(len - 1, spacing as int);
    }
    let mut k: i64 = 1;
    while k < count - 1
        invariant
            1 <= k <= count - 1,
            count == 2 + (len - 1) / (spacing as int),
            spacing > 0,
            len == dist(a, b),
            len > 0,
            0 < count <= len + 1,
            a.in_bound(PART_BOUND as int),
            b.in_bound(PART_BOUND as int),
            -len <= b.x - a.x <= len,
            -len <= b.y - a.y <= len,
            -len <= b.z - a.z <= len,
            len <= 4 * PART_BOUND,
            r@.len() == k,
            forall|j: int|
                0 <= j < k ==> #[trigger] r@[j] == sample_at(a, b, spacing as int, j),
            forall|j: int|
                0 <= j < k ==> (#[trigger] r@[j]).in_bound(5 * PART_BOUND as int),
        decreases count - k,
    {
        proof {
            assert(((len - 1) / spacing as int) * spacing <= len - 1) by {
                vstd::arithmetic::div_mod::lemma_fundamental_div_mod(len - 1, spacing as int);
                assert(((len - 1) / spacing as int) * spacing == (len - 1) - (len - 1) % spacing
                    as int) by (nonlinear_arith)
                    requires
                        len - 1 == spacing * ((len - 1) / spacing as int) + (len - 1) % spacing
                            as int,
                ;
                vstd::arithmetic::div_mod::lemma_mod_division_less_than_divisor(
                    len - 1,
                    spacing as int,
                );
            }
            assert(1 <= k * spacing <= len) by (nonlinear_arith)
                requires
                    1 <= k,
                    k <= 1 + (len - 1) / spacing as int - 1,
                    spacing >= 1,
                    len >= 1,
                    ((len - 1) / spacing as int) * spacing <= len - 1,
            ;
            lemma_sample_offset_bound(b.x - a.x, k * spacing, len as int);
            lemma_sample_offset_bound(b.y - a.y, k * spacing, len as int);
            lemma_sample_offset_bound(b.z - a.z, k * spacing, len as int);
        }
        let t: i64 = k * spacing;
        let x: i64 = a.x + crate::fixed::mul_div(b.x - a.x, t, len);
        let y: i64 = a.y + crate::fixed::mul_div(b.y - a.y, t, len);
        let z: i64 = a.z + crate::fixed::mul_div(b.z - a.z, t, len);
        r.push(Vec3 { x, y, z });
        k = k + 1;
    }
    r.push(b);
    r
}

/// A travelled fraction of the line never overshoots the component span.
pub proof fn lemma_sample_offset_bound(d: int, t: int, len: int)
    requires
        1 <= len,
        0 <= t <= len,
        -len <= d <= len,
    ensures
        -len <= tdiv(d * t, len) <= len,
{
    assert(-(len * len) <= d * t <= len * len) by (nonlinear_arith)
        requires
            1 <= len,
            0 <= t <= len,
            -len <= d <= len,
    ;
    crate::fixed::lemma_tdiv_bound(d * t, len);
    vstd::arithmetic::div_mod::lemma_div_multiples_vanish(len, len);
    if d * t >= 0 {
        vstd::arithmetic::div_mod::lemma_div_is_ordered(d * t, len * len, len);
    } else {
        vstd::arithmetic::div_mod::lemma_div_is_ordered(-(d * t), len * len, len);
    }
}

/// Which sticks a cutting drag at `cursor` keeps: those with a missing
/// endpoint (nothing to sample) or with no sample within the radius.
pub open spec fn cut_kept(
    sticks: Seq<Stick>,
    pts: Seq<Point>,
    ids: Seq<u64>,
    cursor: Vec3,
    spacing: int,
    radius: int,
    n: int,
) -> Seq<Stick>
    decreases n,
{
    if n <= 0 {
        Seq::empty()
    } else {
        let rest = cut_kept(sticks, pts, ids, cursor, spacing, radius, n - 1);
        let st = sticks[n - 1];
        if has_id(ids, st.point1) && has_id(ids, st.point2) && line_hit(
            pts[id_index(ids, st.point1)].position,
            pts[id_index(ids, st.point2)].position,
            spacing,
            cursor,
            radius,
        ) {
            rest
        } else {
            rest.push(st)
        }
    }
}

impl World {
    /// The cut gesture: remove exactly the sticks one of whose sampled
    /// points lies within the interaction radius of the cursor; their
    /// endpoint particles stay.
    pub fn cut_sticks(&mut self, cursor: Vec3)
        requires
            old(self).wf(),
            cursor.in_bound(PART_BOUND as int),
            old(self).settings.interaction_radius > 0,
        ensures
            final(self).wf(),
            final(self).points == old(self).points,
            final(self).ids == old(self).ids,
            final(self).settings == old(self).settings,
            final(self).frame == old(self).frame,
            final(self).play_state == old(self).play_state,
            final(self).next_id == old(self).next_id,
            final(self).resources == old(self).resources,
            final(self).spawn_buffer == old(self).spawn_buffer,
            final(self).sticks@ == cut_kept(
                old(self).sticks@,
                old(self).points@,
                old(self).ids@,
                cursor,
                old(self).settings.interaction_radius as int,
                old(self).settings.interaction_radius as int,
                old(self).sticks@.len() as int,
            ),
    {
        let spacing: i64 = self.settings.interaction_radius;
        let radius: i64 = self.settings.interaction_radius;
        let ghost pts: Seq<Point> = self.points@;
        let ghost ids0: Seq<u64> = self.ids@;
        let ghost stks: Seq<Stick> = self.sticks@;
        let ns: usize = self.sticks.len();
        let mut kept: Vec<Stick> = Vec::new();
        let mut k: usize = 0;
        while k < ns
            invariant
                k <= ns,
                ns == stks.len(),
                self.points@ == pts,
                self.ids@ == ids0,
                self.sticks@ == stks,
                pts.len() == ids0.len(),
                distinct_ids(ids0),
                wf_points(pts),
                wf_sticks(stks),
                cursor.in_bound(PART_BOUND as int),
                spacing == self.settings.interaction_radius,
                radius == self.settings.interaction_radius,
                0 < spacing <= 1_000_000_000_000,
                kept@ == cut_kept(stks, pts, ids0, cursor, spacing as int, radius as int, k as int),
                wf_sticks(kept@),
                old(self).wf(),
                self.points == old(self).points,
                self.ids == old(self).ids,
                self.sticks == old(self).sticks,
                self.settings == old(self).settings,
                self.frame == old(self).frame,
                self.play_state == old(self).play_state,
                self.next_id == old(self).next_id,
                self.resources == old(self).resources,
                self.spawn_buffer == old(self).spawn_buffer,
            decreases ns - k,
        {
            let st: Stick = self.sticks[k];
            let i1: usize = find_id(&self.ids, st.point1);
            let i2: usize = find_id(&self.ids, st.point2);
            if i1 < self.points.len() && i2 < self.points.len() {
                proof {
                    assert(ids0[i1 as int] == st.point1 && ids0[i2 as int] == st.point2);
                    assert(id_index(ids0, st.point1) == i1 as int);
                    assert(id_index(ids0, st.point2) == i2 as int);
                }
                let a: Vec3 = self.points[i1].position;
                let b: Vec3 = self.points[i2].position;
                let samples: Vec<Vec3> = sample_points_along_line(a, b, spacing);
                let m: usize = samples.len();
                let mut hit: bool = false;
                let mut j: usize = 0;
                while j < m
                    invariant
                        j <= m,
                        m == samples@.len(),
                        m == sample_count(dist(a, b), spacing as int),
                        forall|jj: int|
                            0 <= jj < m ==> #[trigger] samples@[jj] == sample_at(
                                a,
                                b,
                                spacing as int,
                                jj,
                            ),
                        forall|jj: int|
                            0 <= jj < m ==> (#[trigger] samples@[jj]).in_bound(
                                5 * PART_BOUND as int,
                            ),
                        a.in_bound(PART_BOUND as int),
                        b.in_bound(PART_BOUND as int),
                        cursor.in_bound(PART_BOUND as int),
                        0 < radius <= 1_000_000_000_000,
                        hit == hits_upto(a, b, spacing as int, cursor, radius as int, j as int),
                    decreases m - j,
                {
                    if point_near(samples[j], cursor, radius) {
                        hit = true;
                    }
                    j = j + 1;
                }
                if !hit {
                    kept.push(st);
                }
            } else {
                proof {
                    if i1 >= self.ids@.len() {
                        assert(!has_id(ids0, st.point1));
                    } else {
                        assert(!has_id(ids0, st.point2));
                    }
                }
                kept.push(st);
            }
            k = k + 1;
        }
        self.sticks = kept;
    }

    /// Toggle the lock of every point within the interaction radius of the
    /// cursor; a point that locks comes to rest where it stands.
    pub fn lock_affected_points(&mut self, cursor: Vec3)
        requires
            old(self).wf(),
            cursor.in_bound(PART_BOUND as int),
        ensures
            final(self).wf(),
            final(self).ids == old(self).ids,
            final(self).sticks == old(self).sticks,
            final(self).settings == old(self).settings,
            final(self).frame == old(self).frame,
            final(self).play_state == old(self).play_state,
            final(self).next_id == old(self).next_id,
            final(self).resources == old(self).resources,
            final(self).spawn_buffer == old(self).spawn_buffer,
            final(self).points@.len() == old(self).points@.len(),
            forall|i: int|
                0 <= i < old(self).points@.len() ==> #[trigger] final(self).points@[i] == (
                if near(
                    old(self).points@[i].position,
                    cursor,
                    old(self).settings.interaction_radius as int,
                ) {
                    Point { locked: !old(self).points@[i].locked, ..old(self).points@[i] }
                } else {
                    old(self).points@[i]
                }),
    {
        let radius: i64 = self.settings.interaction_radius;
        let ghost pts: Seq<Point> = self.points@;
        let n: usize = self.points.len();
        let mut i: usize = 0;
        while i < n
            invariant
                i <= n,
                n == pts.len(),
                self.points@.len() == n,
                wf_points(pts),
                cursor.in_bound(PART_BOUND as int),
                radius == self.settings.interaction_radius,
                0 <= radius <= 1_000_000_000_000,
                forall|j: int|
                    0 <= j < i ==> #[trigger] self.points@[j] == (if near(
                        pts[j].position,
                        cursor,
                        radius as int,
                    ) {
                        Point { locked: !pts[j].locked, ..pts[j] }
                    } else {
                        pts[j]
                    }),
                forall|j: int| i <= j < n ==> self.points@[j] == pts[j],
                wf_points(self.points@),
                old(self).wf(),
                pts == old(self).points@,
                self.ids == old(self).ids,
                self.sticks == old(self).sticks,
                self.settings == old(self).settings,
                self.frame == old(self).frame,
                self.play_state == old(self).play_state,
                self.next_id == old(self).next_id,
                self.resources == old(self).resources,
                self.spawn_buffer == old(self).spawn_buffer,
            decreases n - i,
        {
            let p: Point = self.points[i];
            if point_near(p.position, cursor, radius) {
                self.points.set(i, Point { locked: !p.locked, ..p });
            }
            i = i + 1;
        }
    }
}


/// `i` is the index of the nearest particle within `radius` of `cursor`,
/// with ties broken toward the earliest stored: every hit is at least as
/// far, and every earlier index is no hit or strictly farther.
pub open spec fn nearest_index(pts: Seq<Point>, cursor: Vec3, radius: int, i: int) -> bool {
    &&& 0 <= i < pts.len()
    &&& near(pts[i].position, cursor, radius)
    &&& forall|j: int|
        0 <= j < pts.len() && near((#[trigger] pts[j]).position, cursor, radius) ==> dist2(
            pts[i].position,
            cursor,
        ) <= dist2(pts[j].position, cursor)
    &&& forall|j: int|
        0 <= j < i ==> !(near((#[trigger] pts[j]).position, cursor, radius) && dist2(
            pts[j].position,
            cursor,
        ) <= dist2(pts[i].position, cursor))
}

/// Whether some live particle lies within `radius` of `cursor`.
pub open spec fn any_near(pts: Seq<Point>, cursor: Vec3, radius: int) -> bool {
    exists|i: int| 0 <= i < pts.len() && near((#[trigger] pts[i]).position, cursor, radius)
}

/// What a line click does, folded over the particles in storage order:
/// each particle within the radius fills a free slot of the connection;
/// filling the second slot creates the stick between the two and clears
/// the connection for the next line. A completion whose first point has
/// meanwhile disappeared clears the connection without creating anything.
pub open spec fn line_fold(
    pts: Seq<Point>,
    ids: Seq<u64>,
    line: LineConnections,
    cursor: Vec3,
    radius: int,
    n: int,
) -> (LineConnections, Seq<Stick>)
    decreases n,
{
    if n <= 0 {
        (line, Seq::empty())
    } else {
        let prev = line_fold(pts, ids, line, cursor, radius, n - 1);
        let l = prev.0;
        if near(pts[n - 1].position, cursor, radius) {
            if l.p0 is None && l.p1 is None {
                (LineConnections { p0: Some(ids[n - 1]), p1: None }, prev.1)
            } else if l.p0 is Some && l.p1 is None {
                let p0 = l.p0.unwrap();
                if has_id(ids, p0) {
                    let st = Stick {
                        point1: p0,
                        point2: ids[n - 1],
                        length: dist(
                            pts[id_index(ids, p0)].position,
                            pts[n - 1].position,
                        ) as i64,
                    };
                    (LineConnections { p0: None, p1: None }, prev.1.push(st))
                } else {
                    (LineConnections { p0: None, p1: None }, prev.1)
                }
            } else if l.p0 is None && l.p1 is Some {
                let p1 = l.p1.unwrap();
                if has_id(ids, p1) {
                    let st = Stick {
                        point1: ids[n - 1],
                        point2: p1,
                        length: dist(
                            pts[n - 1].position,
                            pts[id_index(ids, p1)].position,
                        ) as i64,
                    };
                    (LineConnections { p0: None, p1: None }, prev.1.push(st))
                } else {
                    (LineConnections { p0: None, p1: None }, prev.1)
                }
            } else {
                prev
            }
        } else {
            prev
        }
    }
}

impl World {
    /// A click while drawing a line: particles under the cursor fill the
    /// two slots of the pending connection; completing it creates a stick
    /// with the live distance as its rest length. A connection found
    /// already complete when a particle is hit is a missed cleanup — a
    /// fatal defect of the caller, reported loudly.
    pub fn spawn_stick(&mut self, line: &mut LineConnections, cursor: Vec3) -> (r: Result<(), ()>)
        requires
            old(self).wf(),
            cursor.in_bound(PART_BOUND as int),
        ensures
            final(self).wf(),
            final(self).points == old(self).points,
            final(self).ids == old(self).ids,
            final(self).settings == old(self).settings,
            final(self).frame == old(self).frame,
            final(self).play_state == old(self).play_state,
            final(self).next_id == old(self).next_id,
            final(self).resources == old(self).resources,
            final(self).spawn_buffer == old(self).spawn_buffer,
            (r is Err) == (old(line).p0 is Some && old(line).p1 is Some && any_near(
                old(self).points@,
                cursor,
                old(self).settings.interaction_radius as int,
            )),
            r is Err ==> final(self).sticks == old(self).sticks && *final(line) == *old(line),
            r is Ok ==> {
                let f = line_fold(
                    old(self).points@,
                    old(self).ids@,
                    *old(line),
                    cursor,
                    old(self).settings.interaction_radius as int,
                    old(self).points@.len() as int,
                );
                *final(line) == f.0 && final(self).sticks@ == old(self).sticks@ + f.1
            },
    {
        let radius: i64 = self.settings.interaction_radius;
        let ghost pts: Seq<Point> = self.points@;
        let ghost ids0: Seq<u64> = self.ids@;
        let ghost line0: LineConnections = *line;
        let ghost stks0: Seq<Stick> = self.sticks@;
        let n: usize = self.points.len();
        let mut i: usize = 0;
        while i < n
            invariant
                i <= n,
                n == pts.len(),
                self.points@ == pts,
                self.ids@ == ids0,
                pts.len() == ids0.len(),
                distinct_ids(ids0),
                wf_points(pts),
                cursor.in_bound(PART_BOUND as int),
                radius == self.settings.interaction_radius,
                0 <= radius <= 1_000_000_000_000,
                old(self).wf(),
                self.points == old(self).points,
                self.ids == old(self).ids,
                self.settings == old(self).settings,
                self.frame == old(self).frame,
                self.play_state == old(self).play_state,
                self.next_id == old(self).next_id,
                self.resources == old(self).resources,
                self.spawn_buffer == old(self).spawn_buffer,
                stks0 == old(self).sticks@,
                line0 == *old(line),
                !(line0.p0 is Some && line0.p1 is Some && any_near(
                    pts.subrange(0, i as int),
                    cursor,
                    radius as int,
                )),
                line0.p0 is Some && line0.p1 is Some ==> self.sticks == old(self).sticks,
                (*line, self.sticks@) == {
                    let f = line_fold(pts, ids0, line0, cursor, radius as int, i as int);
                    (f.0, stks0 + f.1)
                },
                wf_sticks(self.sticks@),
            decreases n - i,
        {
            let ghost pre_sub: Seq<Point> = pts.subrange(0, i as int);
            let p: Point = self.points[i];
            if point_near(p.position, cursor, radius) {
                proof {
                    if line0.p0 is Some && line0.p1 is Some {
                        lemma_line_fold_stuck(pts, ids0, line0, cursor, radius as int, i as int);
                    }
                }
                match (line.p0, line.p1) {
                    (Some(_), Some(_)) => {
                        proof {
                            if !(line0.p0 is Some && line0.p1 is Some) {
                                lemma_line_fold_not_full(
                                    pts,
                                    ids0,
                                    line0,
                                    cursor,
                                    radius as int,
                                    i as int,
                                );
                                assert(false);
                            }
                            lemma_line_fold_stuck(pts, ids0, line0, cursor, radius as int, i as int);
                            assert(self.sticks@ == stks0 + Seq::<Stick>::empty());
                            assert(stks0 + Seq::<Stick>::empty() =~= stks0);
                            assert(pts.subrange(0, i as int + 1)[i as int] == pts[i as int]);
                            assert(any_near(pts.subrange(0, i as int + 1), cursor, radius as int));
                            lemma_any_near_prefix(pts, cursor, radius as int, i as int + 1);
                        }
                        return Err(());
                    },
                    (Some(p0), None) => {
                        let i0: usize = find_id(&self.ids, p0);
                        if i0 < self.points.len() {
                            proof {
                                assert(ids0[i0 as int] == p0);
                                assert(id_index(ids0, p0) == i0 as int);
                                crate::solver::lemma_dist_facts(
                                    pts[i0 as int].position,
                                    p.position,
                                    PART_BOUND as int,
                                );
                            }
                            let rest: i64 = dist_exec(self.points[i0].position, p.position);
                            self.sticks.push(Stick { point1: p0, point2: self.ids[i], length: rest });
                        }
                        line.p0 = None;
                        line.p1 = None;
                    },
                    (None, Some(p1)) => {
                        let i1: usize = find_id(&self.ids, p1);
                        if i1 < self.points.len() {
                            proof {
                                assert(ids0[i1 as int] == p1);
                                assert(id_index(ids0, p1) == i1 as int);
                                crate::solver::lemma_dist_facts(
                                    p.position,
                                    pts[i1 as int].position,
                                    PART_BOUND as int,
                                );
                            }
                            let rest: i64 = dist_exec(p.position, self.points[i1].position);
                            self.sticks.push(Stick { point1: self.ids[i], point2: p1, length: rest });
                        }
                        line.p0 = None;
                        line.p1 = None;
                    },
                    (None, None) => {
                        line.p0 = Some(self.ids[i]);
                    },
                }
            }
            proof {
                lemma_any_near_extend(pts, cursor, radius as int, i as int);
            }
            i = i + 1;
        }
        proof {
            assert(pts.subrange(0, n as int) =~= pts);
        }
        Ok(())
    }
}

/// An incomplete connection can never become complete inside one fold.
pub proof fn lemma_line_fold_not_full(
    pts: Seq<Point>,
    ids: Seq<u64>,
    line: LineConnections,
    cursor: Vec3,
    radius: int,
    n: int,
)
    requires
        !(line.p0 is Some && line.p1 is Some),
    ensures
        !(line_fold(pts, ids, line, cursor, radius, n).0.p0 is Some && line_fold(
            pts,
            ids,
            line,
            cursor,
            radius,
            n,
        ).0.p1 is Some),
    decreases n,
{
    if n > 0 {
        lemma_line_fold_not_full(pts, ids, line, cursor, radius, n - 1);
    }
}

/// A complete connection passes through the fold untouched: no particle
/// hit can change it, and nothing is created.
pub proof fn lemma_line_fold_stuck(
    pts: Seq<Point>,
    ids: Seq<u64>,
    line: LineConnections,
    cursor: Vec3,
    radius: int,
    n: int,
)
    requires
        line.p0 is Some && line.p1 is Some,
    ensures
        line_fold(pts, ids, line, cursor, radius, n).0 == line,
        line_fold(pts, ids, line, cursor, radius, n).1 == Seq::<Stick>::empty(),
    decreases n,
{
    if n > 0 {
        lemma_line_fold_stuck(pts, ids, line, cursor, radius, n - 1);
    }
}

/// Growing the prefix keeps an existing witness.
pub proof fn lemma_any_near_prefix(pts: Seq<Point>, cursor: Vec3, radius: int, n: int)
    requires
        0 <= n <= pts.len(),
        any_near(pts.subrange(0, n), cursor, radius),
    ensures
        any_near(pts, cursor, radius),
{
    let w = choose|i: int|
        0 <= i < n && near((#[trigger] pts.subrange(0, n)[i]).position, cursor, radius);
    assert(pts.subrange(0, n)[w] == pts[w]);
    assert(near(pts[w].position, cursor, radius));
}

/// Whether the prefix has a hit extends pointwise.
pub proof fn lemma_any_near_extend(pts: Seq<Point>, cursor: Vec3, radius: int, i: int)
    requires
        0 <= i < pts.len(),
    ensures
        any_near(pts.subrange(0, i + 1), cursor, radius) == (any_near(
            pts.subrange(0, i),
            cursor,
            radius,
        ) || near(pts[i].position, cursor, radius)),
{
    let a = pts.subrange(0, i + 1);
    let b = pts.subrange(0, i);
    if any_near(a, cursor, radius) {
        let w = choose|j: int| 0 <= j < a.len() && near((#[trigger] a[j]).position, cursor, radius);
        if w < i {
            assert(b[w] == a[w]);
            assert(any_near(b, cursor, radius));
        } else {
            assert(a[w] == pts[i]);
        }
    }
    if any_near(b, cursor, radius) {
        let w = choose|j: int| 0 <= j < b.len() && near((#[trigger] b[j]).position, cursor, radius);
        assert(a[w] == b[w]);
        assert(any_near(a, cursor, radius));
    }
    if near(pts[i].position, cursor, radius) {
        assert(a[i] == pts[i]);
        assert(any_near(a, cursor, radius));
    }
}


/// Nothing about the world differs between the two states.
pub open spec fn world_unchanged(a: World, b: World) -> bool {
    &&& b.points == a.points
    &&& b.ids == a.ids
    &&& b.sticks == a.sticks
    &&& b.spawn_buffer == a.spawn_buffer
    &&& b.frame == a.frame
    &&& b.next_id == a.next_id
    &&& b.resources == a.resources
    &&& b.settings == a.settings
    &&& b.play_state == a.play_state
}

/// The materials interactive spawns use: white points, red locked points,
/// half-transparent white sticks.
pub open spec fn default_point_material() -> MaterialType {
    MaterialType::Color(SCALE as i64, SCALE as i64, SCALE as i64, SCALE as i64)
}

pub open spec fn default_locked_material() -> MaterialType {
    MaterialType::Color(SCALE as i64, 0i64, 0i64, SCALE as i64)
}

pub open spec fn default_stick_material() -> MaterialType {
    MaterialType::Color(SCALE as i64, SCALE as i64, SCALE as i64, (SCALE as int / 2) as i64)
}

impl World {
    /// Drop a free point at a world position. With the id space exhausted
    /// nothing happens.
    pub fn spawn_free_point(&mut self, pos: Vec3)
        requires
            old(self).wf(),
            pos.in_bound(PART_BOUND as int),
        ensures
            final(self).wf(),
            final(self).sticks == old(self).sticks,
            final(self).settings == old(self).settings,
            final(self).frame == old(self).frame,
            final(self).play_state == old(self).play_state,
            final(self).spawn_buffer == old(self).spawn_buffer,
            old(self).next_id < u64::MAX ==> final(self).points@ == old(self).points@.push(
                Point {
                    position: pos,
                    prev_position: pos,
                    locked: false,
                    rendered_position: pos,
                    previously_rendered_position: pos,
                    external_forces: Vec3 { x: 0i64, y: 0i64, z: 0i64 },
                },
            ) && final(self).ids@ == old(self).ids@.push(old(self).next_id) && final(self).next_id
                == old(self).next_id + 1,
            old(self).next_id == u64::MAX ==> final(self).points == old(self).points,
    {
        if self.next_id < u64::MAX {
            self.points.push(Point::new(pos, pos, false));
            self.ids.push(self.next_id);
            self.next_id = self.next_id + 1;
            proof {
                assert forall|a: int, b: int|
                    0 <= a < b < self.ids@.len() implies self.ids@[a] != self.ids@[b] by {
                    if b == self.ids@.len() - 1 {
                        assert(self.ids@[a] == old(self).ids@[a]);
                        assert(self.ids@[a] < old(self).next_id);
                    }
                }
            }
        }
    }

    /// The nearest particle within the interaction radius of the cursor,
    /// for live telemetry selection; ties go to the earliest stored.
    pub fn select_point(&self, cursor: Vec3) -> (r: Option<u64>)
        requires
            self.wf(),
            cursor.in_bound(PART_BOUND as int),
        ensures
            (r is None) == !any_near(
                self.points@,
                cursor,
                self.settings.interaction_radius as int,
            ),
            r is Some ==> exists|i: int|
                #![trigger self.points@[i]]
                nearest_index(
                    self.points@,
                    cursor,
                    self.settings.interaction_radius as int,
                    i,
                ) && self.ids@[i] == r.unwrap(),
    {
        let radius: i64 = self.settings.interaction_radius;
        proof {
            assert((radius as int) * (radius as int) <= u128::MAX) by (nonlinear_arith)
                requires
                    0 <= radius <= 1_000_000_000_000,
            ;
        }
        let r2: u128 = (radius as u128) * (radius as u128);
        let n: usize = self.points.len();
        let mut best: usize = n;
        let mut best_d2: u128 = 0;
        let mut i: usize = 0;
        while i < n
            invariant
                i <= n,
                n == self.points@.len(),
                self.wf(),
                cursor.in_bound(PART_BOUND as int),
                radius == self.settings.interaction_radius,
                0 <= radius <= 1_000_000_000_000,
                r2 == (radius as int) * (radius as int),
                best == n || best < i,
                best == n ==> forall|j: int|
                    0 <= j < i ==> !near(
                        (#[trigger] self.points@[j]).position,
                        cursor,
                        radius as int,
                    ),
                best < n ==> near(self.points@[best as int].position, cursor, radius as int)
                    && best_d2 == dist2(self.points@[best as int].position, cursor) && (forall|
                    j: int,
                |
                    0 <= j < i && near(
                        (#[trigger] self.points@[j]).position,
                        cursor,
                        radius as int,
                    ) ==> best_d2 <= dist2(self.points@[j].position, cursor)) && (forall|j: int|
                    0 <= j < best ==> !(near(
                        (#[trigger] self.points@[j]).position,
                        cursor,
                        radius as int,
                    ) && dist2(self.points@[j].position, cursor) <= best_d2)),
            decreases n - i,
        {
            let d2: u128 = dist2_exec(self.points[i].position, cursor);
            if d2 <= r2 {
                if best == n || d2 < best_d2 {
                    best = i;
                    best_d2 = d2;
                }
            }
            i = i + 1;
        }
        if best < n {
            proof {
                assert(nearest_index(
                    self.points@,
                    cursor,
                    radius as int,
                    best as int,
                ));
                assert(any_near(self.points@, cursor, radius as int));
            }
            Some(self.ids[best])
        } else {
            proof {
                if any_near(self.points@, cursor, radius as int) {
                    let w = choose|j: int|
                        0 <= j < self.points@.len() && near(
                            (#[trigger] self.points@[j]).position,
                            cursor,
                            radius as int,
                        );
                    assert(!near(self.points@[w].position, cursor, radius as int));
                }
            }
            None
        }
    }

    /// Dispatch one interaction event against the current modification
    /// target: dropping points, drawing lines, toggling locks, cutting,
    /// spawning the built-in shapes, or selecting a particle for
    /// telemetry. Returns the next modification target and any particle
    /// selected for telemetry; a defective line connection is reported as
    /// an error and changes nothing.
    pub fn handle_modification_event(
        &mut self,
        target: ModificationTarget,
        event: ModifyEventType,
        line: &mut LineConnections,
    ) -> (r: Result<(ModificationTarget, Option<u64>), ()>)
        requires
            old(self).wf(),
            (match event {
                ModifyEventType::Left(p) => p.in_bound(PART_BOUND as int),
                ModifyEventType::Right(p) => p.in_bound(PART_BOUND as int),
                ModifyEventType::Middle(p) => p.in_bound(PART_BOUND as int),
                ModifyEventType::Move(p) => p.in_bound(PART_BOUND as int),
                ModifyEventType::Release(p) => p.in_bound(PART_BOUND as int),
            }),
            old(self).settings.interaction_radius > 0,
        ensures
            final(self).wf(),
            final(self).settings == old(self).settings,
            final(self).play_state == old(self).play_state,
            (r is Err) == (match event {
                ModifyEventType::Left(p) => target == ModificationTarget::Line && (old(
                    line,
                ).p0 is Some) && (old(line).p1 is Some) && any_near(
                    old(self).points@,
                    p,
                    old(self).settings.interaction_radius as int,
                ),
                _ => false,
            }),
            r is Err ==> world_unchanged(*old(self), *final(self)) && *final(line) == *old(line),
            r is Ok ==> r.unwrap().0 == (match (event, target) {
                (ModifyEventType::Left(_), ModificationTarget::Cut) => ModificationTarget::Cutting,
                (ModifyEventType::Release(_), ModificationTarget::Cutting) => (
                ModificationTarget::Cut),
                _ => target,
            }),
            r is Ok && !(event matches ModifyEventType::Left(_) && target
                == ModificationTarget::Telemetry) ==> (r.unwrap().1 is None),
            (match event {
                ModifyEventType::Left(p) => {
                    &&& target == ModificationTarget::Point ==> final(self).sticks == old(
                        self,
                    ).sticks && final(self).spawn_buffer == old(self).spawn_buffer && final(self).frame == old(self).frame && *final(line) == *old(line) && (old(
                        self,
                    ).next_id < u64::MAX ==> final(self).points@ == old(self).points@.push(
                        Point {
                            position: p,
                            prev_position: p,
                            locked: false,
                            rendered_position: p,
                            previously_rendered_position: p,
                            external_forces: Vec3 { x: 0i64, y: 0i64, z: 0i64 },
                        },
                    ) && final(self).ids@ == old(self).ids@.push(old(self).next_id) && final(self).next_id == old(self).next_id + 1) && (old(self).next_id == u64::MAX
                        ==> final(self).points == old(self).points)
                    &&& target == ModificationTarget::Line && r is Ok ==> {
                        let f = line_fold(
                            old(self).points@,
                            old(self).ids@,
                            *old(line),
                            p,
                            old(self).settings.interaction_radius as int,
                            old(self).points@.len() as int,
                        );
                        &&& *final(line) == f.0
                        &&& final(self).sticks@ == old(self).sticks@ + f.1
                        &&& final(self).points == old(self).points
                        &&& final(self).ids == old(self).ids
                        &&& final(self).spawn_buffer == old(self).spawn_buffer
                        &&& final(self).frame == old(self).frame
                    }
                    &&& target == ModificationTarget::Lock ==> final(self).points@.len() == old(
                        self,
                    ).points@.len() && (forall|i: int|
                        0 <= i < old(self).points@.len() ==> #[trigger] final(self).points@[i]
                            == (if near(
                            old(self).points@[i].position,
                            p,
                            old(self).settings.interaction_radius as int,
                        ) {
                            Point { locked: !old(self).points@[i].locked, ..old(self).points@[i] }
                        } else {
                            old(self).points@[i]
                        })) && final(self).ids == old(self).ids && final(self).sticks == old(
                        self,
                    ).sticks && final(self).spawn_buffer == old(self).spawn_buffer && final(self).frame == old(self).frame && *final(line) == *old(line)
                    &&& target == ModificationTarget::Cut ==> world_unchanged(
                        *old(self),
                        *final(self),
                    ) && *final(line) == *old(line)
                    &&& target == ModificationTarget::SpawnSquare ==> final(self).points == old(
                        self,
                    ).points && final(self).ids == old(self).ids && final(self).sticks == old(
                        self,
                    ).sticks && final(self).frame == old(self).frame && *final(line) == *old(
                        line,
                    ) && (p.in_bound(1_000_000_000_000) ==> final(self).spawn_buffer@.len()
                        == old(self).spawn_buffer@.len() + 1 && square_network(
                        final(self).spawn_buffer@.last().mesh_network@,
                        p,
                        default_point_material(),
                        default_locked_material(),
                        default_stick_material(),
                        old(self).settings.default_geometry_point_size as int,
                        old(self).settings.default_geometry_stick_size as int,
                    )) && (!p.in_bound(1_000_000_000_000) ==> final(self).spawn_buffer == old(
                        self,
                    ).spawn_buffer)
                    &&& target == ModificationTarget::SpawnCube ==> final(self).points == old(
                        self,
                    ).points && final(self).ids == old(self).ids && final(self).sticks == old(
                        self,
                    ).sticks && final(self).frame == old(self).frame && *final(line) == *old(
                        line,
                    ) && (p.in_bound(1_000_000_000_000) ==> final(self).spawn_buffer@.len()
                        == old(self).spawn_buffer@.len() + 1 && cube_network(
                        final(self).spawn_buffer@.last().mesh_network@,
                        p,
                        default_point_material(),
                        default_locked_material(),
                        default_stick_material(),
                        old(self).settings.default_geometry_point_size as int,
                        old(self).settings.default_geometry_stick_size as int,
                    )) && (!p.in_bound(1_000_000_000_000) ==> final(self).spawn_buffer == old(
                        self,
                    ).spawn_buffer)
                    &&& target == ModificationTarget::SpawnRope ==> {
                        let half_w = old(self).settings.simulation_bounds.x.1 as int / 2;
                        &&& final(self).points == old(self).points
                        &&& final(self).ids == old(self).ids
                        &&& final(self).sticks == old(self).sticks
                        &&& final(self).frame == old(self).frame
                        &&& *final(line) == *old(line)
                        &&& (p.in_bound(1_000_000_000_000) && half_w >= 1_000 ==> final(self).spawn_buffer@.len() == old(self).spawn_buffer@.len() + 1
                            && rope_network(
                            final(self).spawn_buffer@.last().mesh_network@,
                            p,
                            half_w,
                            default_point_material(),
                            default_locked_material(),
                            default_stick_material(),
                            old(self).settings.default_geometry_point_size as int,
                            old(self).settings.default_geometry_stick_size as int,
                        ))
                        &&& (!(p.in_bound(1_000_000_000_000) && half_w >= 1_000) ==> final(self).spawn_buffer == old(self).spawn_buffer)
                    }
                    &&& target == ModificationTarget::SpawnCloth ==> {
                        let w = old(self).settings.simulation_bounds.x.1 as int;
                        let h = old(self).settings.simulation_bounds.y.1 as int;
                        &&& final(self).points == old(self).points
                        &&& final(self).ids == old(self).ids
                        &&& final(self).sticks == old(self).sticks
                        &&& final(self).frame == old(self).frame
                        &&& *final(line) == *old(line)
                        &&& (w <= 1_000_000_000 && h <= 1_000_000_000 ==> final(self).spawn_buffer@.len() == old(self).spawn_buffer@.len() + 1
                            && cloth_network(
                            final(self).spawn_buffer@.last().mesh_network@,
                            w,
                            (if h >= crate::shapes::CLOTH_FLOOR_OFFSET
                                + crate::shapes::CLOTH_BAR_HEIGHT {
                                (h - crate::shapes::CLOTH_FLOOR_OFFSET
                                    - crate::shapes::CLOTH_BAR_HEIGHT) / (
                                crate::shapes::CLOTH_GAP as int)
                            } else {
                                0int
                            }),
                            w / (crate::shapes::CLOTH_GAP as int),
                            default_point_material(),
                            default_locked_material(),
                            default_stick_material(),
                            old(self).settings.default_geometry_point_size as int,
                            old(self).settings.default_geometry_stick_size as int,
                        ))
                        &&& (!(w <= 1_000_000_000 && h <= 1_000_000_000) ==> final(self).spawn_buffer == old(self).spawn_buffer)
                    }
                    &&& target == ModificationTarget::Telemetry ==> world_unchanged(
                        *old(self),
                        *final(self),
                    ) && *final(line) == *old(line) && r is Ok && ((r.unwrap().1 is None)
                        == !any_near(
                        old(self).points@,
                        p,
                        old(self).settings.interaction_radius as int,
                    )) && (r.unwrap().1 is Some ==> exists|i: int|
                        #![trigger old(self).points@[i]]
                        nearest_index(
                            old(self).points@,
                            p,
                            old(self).settings.interaction_radius as int,
                            i,
                        ) && old(self).ids@[i] == r.unwrap().1.unwrap())
                    &&& (target == ModificationTarget::Delete || target
                        == ModificationTarget::Cutting || target == ModificationTarget::Inactive)
                        ==> world_unchanged(*old(self), *final(self)) && *final(line) == *old(
                        line,
                    )
                },
                ModifyEventType::Move(p) => {
                    &&& target == ModificationTarget::Cutting ==> final(self).sticks@
                        == cut_kept(
                        old(self).sticks@,
                        old(self).points@,
                        old(self).ids@,
                        p,
                        old(self).settings.interaction_radius as int,
                        old(self).settings.interaction_radius as int,
                        old(self).sticks@.len() as int,
                    ) && final(self).points == old(self).points && final(self).ids == old(
                        self,
                    ).ids && final(self).spawn_buffer == old(self).spawn_buffer && final(self).frame == old(self).frame && *final(line) == *old(line)
                    &&& target != ModificationTarget::Cutting ==> world_unchanged(
                        *old(self),
                        *final(self),
                    ) && *final(line) == *old(line)
                },
                _ => world_unchanged(*old(self), *final(self)) && *final(line) == *old(line),
            }),
    {
        let radius: i64 = self.settings.interaction_radius;
        match event {
            ModifyEventType::Left(pos) => {
                match target {
                    ModificationTarget::Point => {
                        self.spawn_free_point(pos);
                        Ok((target, None))
                    },
                    ModificationTarget::Line => {
                        match self.spawn_stick(line, pos) {
                            Ok(_) => Ok((target, None)),
                            Err(_) => Err(()),
                        }
                    },
                    ModificationTarget::Lock => {
                        self.lock_affected_points(pos);
                        Ok((target, None))
                    },
                    ModificationTarget::Cut => Ok((ModificationTarget::Cutting, None)),
                    ModificationTarget::SpawnSquare => {
                        if !(pos.x >= -1_000_000_000_000 && pos.x <= 1_000_000_000_000 && pos.y
                            >= -1_000_000_000_000 && pos.y <= 1_000_000_000_000 && pos.z
                            >= -1_000_000_000_000 && pos.z <= 1_000_000_000_000) {
                            return Ok((target, None));
                        }
                        let network = crate::shapes::spawn_square(
                            MaterialType::Color(SCALE, SCALE, SCALE, SCALE),
                            MaterialType::Color(SCALE, 0, 0, SCALE),
                            MaterialType::Color(SCALE, SCALE, SCALE, SCALE / 2),
                            pos,
                            self.settings.default_geometry_point_size,
                            self.settings.default_geometry_stick_size,
                        );
                        self.buffer_spawn(SpawnRequest::new(network));
                        Ok((target, None))
                    },
                    ModificationTarget::SpawnRope => {
                        let half_w: i64 = self.settings.simulation_bounds.x.1 / 2;
                        if 1_000 <= half_w && pos.x >= -1_000_000_000_000 && pos.x
                            <= 1_000_000_000_000 && pos.y >= -1_000_000_000_000 && pos.y
                            <= 1_000_000_000_000 && pos.z >= -1_000_000_000_000 && pos.z
                            <= 1_000_000_000_000 {
                            let network = crate::shapes::spawn_rope(
                                MaterialType::Color(SCALE, SCALE, SCALE, SCALE),
                                MaterialType::Color(SCALE, 0, 0, SCALE),
                                MaterialType::Color(SCALE, SCALE, SCALE, SCALE / 2),
                                half_w,
                                pos,
                                self.settings.default_geometry_point_size,
                                self.settings.default_geometry_stick_size,
                            );
                            self.buffer_spawn(SpawnRequest::new(network));
                        }
                        Ok((target, None))
                    },
                    ModificationTarget::SpawnCloth => {
                        let w: i64 = self.settings.simulation_bounds.x.1;
                        let h: i64 = self.settings.simulation_bounds.y.1;
                        if w <= 1_000_000_000 && h <= 1_000_000_000 {
                            let network = crate::shapes::spawn_cloth(
                                MaterialType::Color(SCALE, SCALE, SCALE, SCALE),
                                MaterialType::Color(SCALE, 0, 0, SCALE),
                                MaterialType::Color(SCALE, SCALE, SCALE, SCALE / 2),
                                w,
                                h,
                                self.settings.default_geometry_point_size,
                                self.settings.default_geometry_stick_size,
                            );
                            self.buffer_spawn(SpawnRequest::new(network));
                        }
                        Ok((target, None))
                    },
                    ModificationTarget::SpawnCube => {
                        if !(pos.x >= -1_000_000_000_000 && pos.x <= 1_000_000_000_000 && pos.y
                            >= -1_000_000_000_000 && pos.y <= 1_000_000_000_000 && pos.z
                            >= -1_000_000_000_000 && pos.z <= 1_000_000_000_000) {
                            return Ok((target, None));
                        }
                        let network = crate::shapes::spawn_cube(
                            MaterialType::Color(SCALE, SCALE, SCALE, SCALE),
                            MaterialType::Color(SCALE, 0, 0, SCALE),
                            MaterialType::Color(SCALE, SCALE, SCALE, SCALE / 2),
                            pos,
                            self.settings.default_geometry_point_size,
                            self.settings.default_geometry_stick_size,
                        );
                        self.buffer_spawn(SpawnRequest::new(network));
                        Ok((target, None))
                    },
                    ModificationTarget::Telemetry => {
                        let sel = self.select_point(pos);
                        Ok((target, sel))
                    },
                    _ => Ok((target, None)),
                }
            },
            ModifyEventType::Move(pos) => {
                if target == ModificationTarget::Cutting {
                    self.cut_sticks(pos);
                }
                Ok((target, None))
            },
            ModifyEventType::Release(_) => {
                if target == ModificationTarget::Cutting {
                    Ok((ModificationTarget::Cut, None))
                } else {
                    Ok((target, None))
                }
            },
            _ => Ok((target, None)),
        }
    }
}


impl World {
    /// Apply an externally selected modification target: any real
    /// selection pauses the simulation so editing happens on still
    /// geometry, and selecting the line tool discards a half-built
    /// connection. Returns the target now in force.
    pub fn handle_target_change(
        &mut self,
        line: &mut LineConnections,
        new_target: ModificationTarget,
    ) -> (r: ModificationTarget)
        requires
            old(self).wf(),
        ensures
            final(self).wf(),
            r == new_target,
            new_target != ModificationTarget::Inactive ==> final(self).play_state
                == crate::params::SimulationPlayState::Paused,
            new_target == ModificationTarget::Inactive ==> final(self).play_state == old(
                self,
            ).play_state,
            new_target == ModificationTarget::Line ==> *final(line) == (LineConnections {
                p0: None,
                p1: None,
            }),
            new_target != ModificationTarget::Line ==> *final(line) == *old(line),
            final(self).points == old(self).points,
            final(self).ids == old(self).ids,
            final(self).sticks == old(self).sticks,
            final(self).spawn_buffer == old(self).spawn_buffer,
            final(self).frame == old(self).frame,
            final(self).settings == old(self).settings,
            final(self).next_id == old(self).next_id,
            final(self).resources == old(self).resources,
    {
        if new_target != ModificationTarget::Inactive {
            self.play_state = crate::params::SimulationPlayState::Paused;
        }
        if new_target == ModificationTarget::Line {
            line.p0 = None;
            line.p1 = None;
        }
        new_target
    }
}

} // verus!
