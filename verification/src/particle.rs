//! The particle and constraint model, and the per-particle integration step.
//!
//! A particle carries its next position and the position it had when that
//! next position was computed; the difference is its implicit velocity.

use vstd::prelude::*;

use crate::fixed::{lemma_tdiv_bound, mul_div, tdiv};
use crate::params::{FLOOR_EPSILON, PERMILLE, SimulationSettings};
use crate::vec3::Vec3;

verus! {

/// Hard cap on every stored coordinate. A write that would land outside is
/// dropped instead, so overflow is impossible whatever graph is simulated;
/// ordinary simulations stay many orders of magnitude below it.
pub const PART_BOUND: i64 = 0x4000_0000_0000;

/// Acceleration magnitudes (gravity, external forces) stay within this.
pub const ACCEL_BOUND: i64 = 1_000_000_000;

/// The fixed sub-step denominator of the integrator: acceleration times the
/// tick's micro-seconds is divided by this, decoupling integration softness
/// from frame rate (one over 120 of a second, in micro-seconds).
pub const ACCEL_DIVISOR: i64 = 120_000_000;

/// Longest tick the integrator accepts, in micro-seconds.
pub const MAX_TICK_US: i64 = 10_000_000;

/// A simulated point mass.
#[derive(Clone, Copy, Debug, PartialEq, Eq, Structural)]
pub struct Point {
    /// The position the point will be at next.
    pub position: Vec3,
    /// The position the point was at when `position` was computed.
    pub prev_position: Vec3,
    /// A locked point is pinned: nothing moves it.
    pub locked: bool,
    /// The position the point is currently rendered at.
    pub rendered_position: Vec3,
    /// The position the point was rendered at on the previous frame.
    pub previously_rendered_position: Vec3,
    /// A persistent additive acceleration, micro-units per second squared.
    pub external_forces: Vec3,
}

/// `(d * f) / 1000`, the damping of a velocity component by a thousandths
/// factor.
pub open spec fn damp(d: int, f: int) -> int {
    tdiv(d * f, PERMILLE as int)
}

/// A fixed-rest-length link between two particles, by stable identity.
#[derive(Clone, Copy, Debug, PartialEq, Eq, Structural)]
pub struct Stick {
    pub point1: u64,
    pub point2: u64,
    /// Rest length in micro-units; never mutated after creation.
    pub length: i64,
}

impl Stick {
    pub open spec fn wf(self) -> bool {
        0 <= self.length <= 4 * PART_BOUND
    }

    pub fn new(point1: u64, point2: u64, length: i64) -> (r: Stick)
        ensures
            r == (Stick { point1, point2, length }),
    {
        Stick { point1, point2, length }
    }
}

impl Point {
    /// Every stored vector is within the hard coordinate cap and the
    /// external force within the acceleration cap.
    pub open spec fn wf(self) -> bool {
        &&& self.position.in_bound(PART_BOUND as int)
        &&& self.prev_position.in_bound(PART_BOUND as int)
        &&& self.rendered_position.in_bound(PART_BOUND as int)
        &&& self.previously_rendered_position.in_bound(PART_BOUND as int)
        &&& self.external_forces.in_bound(ACCEL_BOUND as int)
    }

    pub fn new(position: Vec3, prev_position: Vec3, locked: bool) -> (r: Point)
        ensures
            r == (Point {
                position,
                prev_position,
                locked,
                rendered_position: position,
                previously_rendered_position: position,
                external_forces: Vec3 { x: 0i64, y: 0i64, z: 0i64 },
            }),
    {
        Point {
            position,
            prev_position,
            locked,
            rendered_position: position,
            previously_rendered_position: position,
            external_forces: Vec3 { x: 0, y: 0, z: 0 },
        }
    }

    pub fn new_with_options(
        position: Vec3,
        prev_position: Vec3,
        locked: bool,
        external_forces: Vec3,
    ) -> (r: Point)
        ensures
            r == (Point {
                position,
                prev_position,
                locked,
                rendered_position: position,
                previously_rendered_position: position,
                external_forces,
            }),
    {
        Point {
            position,
            prev_position,
            locked,
            rendered_position: position,
            previously_rendered_position: position,
            external_forces,
        }
    }

    /// The implicit velocity: current position minus previous position.
    pub fn calculate_velocity(self) -> (r: Vec3)
        requires
            self.position.in_bound(PART_BOUND as int),
            self.prev_position.in_bound(PART_BOUND as int),
        ensures
            r.x == self.position.x - self.prev_position.x,
            r.y == self.position.y - self.prev_position.y,
            r.z == self.position.z - self.prev_position.z,
    {
        self.position.minus(self.prev_position)
    }

    /// The damping factor the environment applies this tick: floor friction
    /// when the point rests at the floor, air resistance otherwise.
    pub open spec fn velocity_factor(self, s: SimulationSettings) -> int {
        if self.position.y <= FLOOR_EPSILON {
            s.friction_restituation as int
        } else {
            s.air_resistance as int
        }
    }

    /// The implicit velocity damped by air resistance, or — on the floor —
    /// by friction instead (floor drag replaces air damping).
    pub fn calculate_affected_velocity(self, s: &SimulationSettings) -> (r: Vec3)
        requires
            self.position.in_bound(PART_BOUND as int),
            self.prev_position.in_bound(PART_BOUND as int),
            s.wf(),
        ensures
            r.x == damp(self.position.x - self.prev_position.x, self.velocity_factor(*s)),
            r.y == damp(self.position.y - self.prev_position.y, self.velocity_factor(*s)),
            r.z == damp(self.position.z - self.prev_position.z, self.velocity_factor(*s)),
            r.in_bound(2 * PART_BOUND as int),
    {
        let d: Vec3 = self.position.minus(self.prev_position);
        let f: i64 = if self.position.y <= FLOOR_EPSILON {
            s.friction_restituation
        } else {
            s.air_resistance
        };
        proof {
            lemma_damp_bound(d.x as int, f as int, 2 * PART_BOUND as int);
            lemma_damp_bound(d.y as int, f as int, 2 * PART_BOUND as int);
            lemma_damp_bound(d.z as int, f as int, 2 * PART_BOUND as int);
        }
        d.scaled(f, PERMILLE)
    }

    /// Where one integration step sends this point (before any bound guard):
    /// position plus damped velocity plus the scaled acceleration.
    pub open spec fn step_target(self, s: SimulationSettings, dt_us: int) -> (int, int, int) {
        let f = self.velocity_factor(s);
        (
            self.position.x + damp(self.position.x - self.prev_position.x, f) + tdiv(
                self.external_forces.x * dt_us,
                ACCEL_DIVISOR as int,
            ),
            self.position.y + damp(self.position.y - self.prev_position.y, f) + tdiv(
                (self.external_forces.y - s.gravity) * dt_us,
                ACCEL_DIVISOR as int,
            ),
            self.position.z + damp(self.position.z - self.prev_position.z, f) + tdiv(
                self.external_forces.z * dt_us,
                ACCEL_DIVISOR as int,
            ),
        )
    }

    /// Whether the step target respects the hard coordinate cap.
    pub open spec fn step_allowed(self, s: SimulationSettings, dt_us: int) -> bool {
        let (tx, ty, tz) = self.step_target(s, dt_us);
        -PART_BOUND <= tx <= PART_BOUND && -PART_BOUND <= ty <= PART_BOUND && -PART_BOUND <= tz
            <= PART_BOUND
    }

    /// One integration step: the new position is the old plus the damped
    /// implicit velocity plus acceleration scaled by the fixed sub-step
    /// fraction; the old position becomes the previous one. A step that
    /// would leave the hard coordinate cap is dropped entirely.
    pub fn update_properties(&mut self, dt_us: i64, s: &SimulationSettings)
        requires
            old(self).wf(),
            s.wf(),
            0 <= dt_us <= MAX_TICK_US,
        ensures
            final(self).wf(),
            old(self).step_allowed(*s, dt_us as int) ==> {
                let (tx, ty, tz) = old(self).step_target(*s, dt_us as int);
                &&& final(self).position == (Vec3 { x: tx as i64, y: ty as i64, z: tz as i64 })
                &&& final(self).prev_position == old(self).position
            },
            !old(self).step_allowed(*s, dt_us as int) ==> *final(self) == *old(self),
            final(self).locked == old(self).locked,
            final(self).rendered_position == old(self).rendered_position,
            final(self).previously_rendered_position == old(self).previously_rendered_position,
            final(self).external_forces == old(self).external_forces,
    {
        let vel: Vec3 = self.calculate_affected_velocity(s);
        let ax: i64 = self.external_forces.x;
        let ay: i64 = self.external_forces.y - s.gravity;
        let az: i64 = self.external_forces.z;
        proof {
            lemma_accel_term_bound(ax as int, dt_us as int);
            lemma_accel_term_bound(ay as int, dt_us as int);
            lemma_accel_term_bound(az as int, dt_us as int);
        }
        let sx: i64 = self.position.x + vel.x + mul_div(ax, dt_us, ACCEL_DIVISOR);
        let sy: i64 = self.position.y + vel.y + mul_div(ay, dt_us, ACCEL_DIVISOR);
        let sz: i64 = self.position.z + vel.z + mul_div(az, dt_us, ACCEL_DIVISOR);
        if -PART_BOUND <= sx && sx <= PART_BOUND && -PART_BOUND <= sy && sy <= PART_BOUND
            && -PART_BOUND <= sz && sz <= PART_BOUND {
            self.prev_position = self.position;
            self.position = Vec3 { x: sx, y: sy, z: sz };
        }
    }
}

/// A damped difference of in-cap coordinates keeps their magnitude.
pub proof fn lemma_damp_bound(d: int, f: int, b: int)
    requires
        0 <= f <= PERMILLE,
        -b <= d <= b,
        0 <= b,
    ensures
        -b <= damp(d, f) <= b,
{
    assert(-(b * PERMILLE) <= d * f <= b * PERMILLE) by (nonlinear_arith)
        requires
            0 <= f <= PERMILLE,
            -b <= d <= b,
            0 <= b,
    ;
    lemma_tdiv_bound(d * f, PERMILLE as int);
    vstd::arithmetic::div_mod::lemma_div_is_ordered(d * f, b * PERMILLE, PERMILLE as int);
    vstd::arithmetic::div_mod::lemma_div_multiples_vanish(b, PERMILLE as int);
    if d * f < 0 {
        vstd::arithmetic::div_mod::lemma_div_is_ordered(-(d * f), b * PERMILLE, PERMILLE as int);
    }
}

/// The acceleration term of one step is tiny against the coordinate cap.
pub proof fn lemma_accel_term_bound(a: int, dt: int)
    requires
        -2 * ACCEL_BOUND <= a <= 2 * ACCEL_BOUND,
        0 <= dt <= MAX_TICK_US,
    ensures
        -200_000_000 <= tdiv(a * dt, ACCEL_DIVISOR as int) <= 200_000_000,
{
    assert(-(2 * ACCEL_BOUND * MAX_TICK_US) <= a * dt <= 2 * ACCEL_BOUND * MAX_TICK_US)
        by (nonlinear_arith)
        requires
            -2 * ACCEL_BOUND <= a <= 2 * ACCEL_BOUND,
            0 <= dt <= MAX_TICK_US,
    ;
    lemma_tdiv_bound(a * dt, ACCEL_DIVISOR as int);
    vstd::arithmetic::div_mod::lemma_div_multiples_vanish(200_000_000, ACCEL_DIVISOR as int);
    if a * dt >= 0 {
        vstd::arithmetic::div_mod::lemma_div_is_ordered(
            a * dt,
            ACCEL_DIVISOR * 200_000_000,
            ACCEL_DIVISOR as int,
        );
    } else {
        vstd::arithmetic::div_mod::lemma_div_is_ordered(
            -(a * dt),
            ACCEL_DIVISOR * 200_000_000,
            ACCEL_DIVISOR as int,
        );
    }
}

} // verus!
