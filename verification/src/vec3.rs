//! Three-component fixed-point vectors. Components are `i64` micro-units
//! (`SCALE` of them to one spatial unit); all arithmetic is exact integer
//! arithmetic with truncating scaled division.

use vstd::prelude::*;

use crate::SCALE;
use crate::fixed::{isqrt, lemma_sqrt_floor, lemma_tdiv_bound, mul_div, sqrt_floor, tdiv};

verus! {

/// Coordinates the simulation ever works with stay far below this bound, so
/// squared distances fit comfortably in 128 bits.
pub const COORD_BOUND: i64 = 0x1000_0000_0000_0000;

#[derive(Clone, Copy, Debug, PartialEq, Eq, Structural)]
pub struct Vec3 {
    pub x: i64,
    pub y: i64,
    pub z: i64,
}

/// Squared distance between `a` and `b`, over mathematical integers.
pub open spec fn dist2(a: Vec3, b: Vec3) -> int {
    (b.x - a.x) * (b.x - a.x) + (b.y - a.y) * (b.y - a.y) + (b.z - a.z) * (b.z - a.z)
}

/// Distance between `a` and `b`, rounded down to whole micro-units.
pub open spec fn dist(a: Vec3, b: Vec3) -> int {
    sqrt_floor(dist2(a, b))
}

impl Vec3 {
    /// Every component within `[-b, b]`.
    pub open spec fn in_bound(self, b: int) -> bool {
        -b <= self.x <= b && -b <= self.y <= b && -b <= self.z <= b
    }

    pub fn new(x: i64, y: i64, z: i64) -> (r: Vec3)
        ensures
            r == (Vec3 { x, y, z }),
    {
        Vec3 { x, y, z }
    }

    pub fn zero() -> (r: Vec3)
        ensures
            r == (Vec3 { x: 0i64, y: 0i64, z: 0i64 }),
    {
        Vec3 { x: 0, y: 0, z: 0 }
    }

    /// Component-wise sum.
    pub fn plus(self, o: Vec3) -> (r: Vec3)
        requires
            i64::MIN <= self.x + o.x <= i64::MAX,
            i64::MIN <= self.y + o.y <= i64::MAX,
            i64::MIN <= self.z + o.z <= i64::MAX,
        ensures
            r.x == self.x + o.x,
            r.y == self.y + o.y,
            r.z == self.z + o.z,
    {
        Vec3 { x: self.x + o.x, y: self.y + o.y, z: self.z + o.z }
    }

    /// Component-wise difference.
    pub fn minus(self, o: Vec3) -> (r: Vec3)
        requires
            i64::MIN <= self.x - o.x <= i64::MAX,
            i64::MIN <= self.y - o.y <= i64::MAX,
            i64::MIN <= self.z - o.z <= i64::MAX,
        ensures
            r.x == self.x - o.x,
            r.y == self.y - o.y,
            r.z == self.z - o.z,
    {
        Vec3 { x: self.x - o.x, y: self.y - o.y, z: self.z - o.z }
    }

    /// Component-wise `(v * m) / d`, truncating toward zero.
    pub fn scaled(self, m: i64, d: i64) -> (r: Vec3)
        requires
            d > 0,
            i64::MIN <= tdiv(self.x * m, d as int) <= i64::MAX,
            i64::MIN <= tdiv(self.y * m, d as int) <= i64::MAX,
            i64::MIN <= tdiv(self.z * m, d as int) <= i64::MAX,
        ensures
            r.x == tdiv(self.x * m, d as int),
            r.y == tdiv(self.y * m, d as int),
            r.z == tdiv(self.z * m, d as int),
    {
        Vec3 {
            x: mul_div(self.x, m, d),
            y: mul_div(self.y, m, d),
            z: mul_div(self.z, m, d),
        }
    }
}

/// Exact squared distance. The bound keeps the 128-bit sum from overflowing.
pub fn dist2_exec(a: Vec3, b: Vec3) -> (r: u128)
    requires
        a.in_bound(COORD_BOUND as int),
        b.in_bound(COORD_BOUND as int),
    ensures
        r == dist2(a, b),
{
    let dx: i128 = (b.x as i128) - (a.x as i128);
    let dy: i128 = (b.y as i128) - (a.y as i128);
    let dz: i128 = (b.z as i128) - (a.z as i128);
    proof {
        lemma_sq_bound(dx as int, 2 * COORD_BOUND as int);
        lemma_sq_bound(dy as int, 2 * COORD_BOUND as int);
        lemma_sq_bound(dz as int, 2 * COORD_BOUND as int);
    }
    let s: i128 = dx * dx + dy * dy + dz * dz;
    s as u128
}

/// Distance between `a` and `b` in whole micro-units, rounded down.
pub fn dist_exec(a: Vec3, b: Vec3) -> (r: i64)
    requires
        a.in_bound(COORD_BOUND as int),
        b.in_bound(COORD_BOUND as int),
    ensures
        r == dist(a, b),
        0 <= r,
        r * r <= dist2(a, b),
        dist2(a, b) < (r + 1) * (r + 1),
{
    let d2: u128 = dist2_exec(a, b);
    let r: u128 = isqrt(d2);
    proof {
        lemma_sq_bound(b.x - a.x, 2 * COORD_BOUND as int);
        lemma_sq_bound(b.y - a.y, 2 * COORD_BOUND as int);
        lemma_sq_bound(b.z - a.z, 2 * COORD_BOUND as int);
        assert(r <= 4 * COORD_BOUND) by (nonlinear_arith)
            requires
                r * r <= d2,
                d2 <= 3 * (2 * COORD_BOUND as int) * (2 * COORD_BOUND as int),
                r >= 0,
                COORD_BOUND == 0x1000_0000_0000_0000i64,
        ;
    }
    r as i64
}

/// `|v| <= b` implies `v * v <= b * b`.
pub proof fn lemma_sq_bound(v: int, b: int)
    requires
        -b <= v <= b,
    ensures
        0 <= v * v <= b * b,
{
    assert(0 <= v * v <= b * b) by (nonlinear_arith)
        requires
            -b <= v <= b,
    ;
}

} // verus!
