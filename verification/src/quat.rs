//! Fixed-point quaternions for the rigid-attachment tracker. Components
//! are scaled by `SCALE`; a unit rotation has norm close to `SCALE`.

use vstd::prelude::*;

use crate::SCALE;
use crate::fixed::{comb2_div, comb4_div, isqrt, lemma_sqrt_floor, lemma_tdiv_quotient_bound,
    mul_div, sqrt_floor, tdiv};
use crate::particle::PART_BOUND;
use crate::vec3::Vec3;

verus! {

/// A rotation: `x, y, z` the vector part, `w` the scalar part, all scaled
/// by `SCALE`.
#[derive(Clone, Copy, Debug, PartialEq, Eq, Structural)]
pub struct Quat {
    pub x: i64,
    pub y: i64,
    pub z: i64,
    pub w: i64,
}

impl Quat {
    /// Every component within `[-b, b]`.
    pub open spec fn in_q(self, b: int) -> bool {
        -b <= self.x <= b && -b <= self.y <= b && -b <= self.z <= b && -b <= self.w <= b
    }

    pub fn identity() -> (r: Quat)
        ensures
            r == (Quat { x: 0i64, y: 0i64, z: 0i64, w: SCALE as i64 }),
    {
        Quat { x: 0, y: 0, z: 0, w: SCALE }
    }
}

/// The identity rotation.
pub open spec fn quat_identity() -> Quat {
    Quat { x: 0i64, y: 0i64, z: 0i64, w: SCALE as i64 }
}

/// The Hamilton product of two scaled quaternions.
pub open spec fn quat_mul_spec(a: Quat, b: Quat) -> Quat {
    Quat {
        x: tdiv(a.w * b.x + a.x * b.w + a.y * b.z + (-a.z) * b.y, SCALE as int) as i64,
        y: tdiv(a.w * b.y + a.y * b.w + a.z * b.x + (-a.x) * b.z, SCALE as int) as i64,
        z: tdiv(a.w * b.z + a.z * b.w + a.x * b.y + (-a.y) * b.x, SCALE as int) as i64,
        w: tdiv(a.w * b.w + (-a.x) * b.x + (-a.y) * b.y + (-a.z) * b.z, SCALE as int) as i64,
    }
}

/// The Hamilton product; see `quat_mul_spec`.
pub fn quat_mul(a: Quat, b: Quat) -> (r: Quat)
    requires
        a.in_q(64_000_000),
        b.in_q(64_000_000),
    ensures
        r == quat_mul_spec(a, b),
        r.in_q(20_000_000_000),
{
    proof {
        lemma_quat_mul_bounds(a, b);
    }
    Quat {
        x: comb4_div(a.w, b.x, a.x, b.w, a.y, b.z, -a.z, b.y, SCALE),
        y: comb4_div(a.w, b.y, a.y, b.w, a.z, b.x, -a.x, b.z, SCALE),
        z: comb4_div(a.w, b.z, a.z, b.w, a.x, b.y, -a.y, b.x, SCALE),
        w: comb4_div(a.w, b.w, -a.x, b.x, -a.y, b.y, -a.z, b.z, SCALE),
    }
}

/// Each component of a quaternion product stays moderate.
pub proof fn lemma_quat_mul_bounds(a: Quat, b: Quat)
    requires
        a.in_q(64_000_000),
        b.in_q(64_000_000),
    ensures
        -20_000_000_000 <= tdiv(a.w * b.x + a.x * b.w + a.y * b.z + (-a.z) * b.y, SCALE as int)
            <= 20_000_000_000,
        -20_000_000_000 <= tdiv(a.w * b.y + a.y * b.w + a.z * b.x + (-a.x) * b.z, SCALE as int)
            <= 20_000_000_000,
        -20_000_000_000 <= tdiv(a.w * b.z + a.z * b.w + a.x * b.y + (-a.y) * b.x, SCALE as int)
            <= 20_000_000_000,
        -20_000_000_000 <= tdiv(a.w * b.w + (-a.x) * b.x + (-a.y) * b.y + (-a.z) * b.z, SCALE as int)
            <= 20_000_000_000,
{
    assert forall|p: int, q: int, u: int, v: int, m: int, n: int, s: int, t: int|
        -64_000_000 <= p <= 64_000_000 && -64_000_000 <= q <= 64_000_000 && -64_000_000 <= u
            <= 64_000_000 && -64_000_000 <= v <= 64_000_000 && -64_000_000 <= m <= 64_000_000
            && -64_000_000 <= n <= 64_000_000 && -64_000_000 <= s <= 64_000_000 && -64_000_000 <= t
            <= 64_000_000 implies -(SCALE * 20_000_000_000) <= #[trigger] (p * q + u * v + m * n
            + s * t) <= SCALE * 20_000_000_000 by {
        assert(-(SCALE * 20_000_000_000) <= p * q + u * v + m * n + s * t <= SCALE
            * 20_000_000_000) by (nonlinear_arith)
            requires
                -64_000_000 <= p <= 64_000_000,
                -64_000_000 <= q <= 64_000_000,
                -64_000_000 <= u <= 64_000_000,
                -64_000_000 <= v <= 64_000_000,
                -64_000_000 <= m <= 64_000_000,
                -64_000_000 <= n <= 64_000_000,
                -64_000_000 <= s <= 64_000_000,
                -64_000_000 <= t <= 64_000_000,
                SCALE == 1_000_000,
        ;
    }
    lemma_tdiv_quotient_bound(
        a.w * b.x + a.x * b.w + a.y * b.z + (-a.z) * b.y,
        SCALE as int,
        20_000_000_000,
    );
    lemma_tdiv_quotient_bound(
        a.w * b.y + a.y * b.w + a.z * b.x + (-a.x) * b.z,
        SCALE as int,
        20_000_000_000,
    );
    lemma_tdiv_quotient_bound(
        a.w * b.z + a.z * b.w + a.x * b.y + (-a.y) * b.x,
        SCALE as int,
        20_000_000_000,
    );
    lemma_tdiv_quotient_bound(
        a.w * b.w + (-a.x) * b.x + (-a.y) * b.y + (-a.z) * b.z,
        SCALE as int,
        20_000_000_000,
    );
}

/// A quaternion rescaled to unit length (norm `SCALE`); the zero
/// quaternion (no direction to keep) becomes the identity.
pub open spec fn quat_normalize_spec(q: Quat) -> Quat {
    let n = sqrt_floor(q.x * q.x + q.y * q.y + q.z * q.z + q.w * q.w);
    if n == 0 {
        quat_identity()
    } else {
        Quat {
            x: tdiv(q.x * SCALE, n) as i64,
            y: tdiv(q.y * SCALE, n) as i64,
            z: tdiv(q.z * SCALE, n) as i64,
            w: tdiv(q.w * SCALE, n) as i64,
        }
    }
}

/// Rescale to unit length; see `quat_normalize_spec`.
pub fn quat_normalize(q: Quat) -> (r: Quat)
    requires
        q.in_q(40_000_000_000),
    ensures
        r == quat_normalize_spec(q),
        r.in_q(SCALE as int),
{
    proof {
        crate::vec3::lemma_sq_bound(q.x as int, 40_000_000_000);
        crate::vec3::lemma_sq_bound(q.y as int, 40_000_000_000);
        crate::vec3::lemma_sq_bound(q.z as int, 40_000_000_000);
        crate::vec3::lemma_sq_bound(q.w as int, 40_000_000_000);
    }
    let n2: i128 = (q.x as i128) * (q.x as i128) + (q.y as i128) * (q.y as i128) + (q.z as i128)
        * (q.z as i128) + (q.w as i128) * (q.w as i128);
    let n: u128 = isqrt(n2 as u128);
    if n == 0 {
        proof {
            lemma_sqrt_floor(n2 as int);
        }
        return Quat { x: 0, y: 0, z: 0, w: SCALE };
    }
    proof {
        let nn = n as int;
        assert(q.x * q.x <= n2 && q.y * q.y <= n2 && q.z * q.z <= n2 && q.w * q.w <= n2);
        assert(-nn <= q.x <= nn && -nn <= q.y <= nn && -nn <= q.z <= nn && -nn <= q.w <= nn)
            by (nonlinear_arith)
            requires
                nn >= 0,
                q.x * q.x <= n2,
                q.y * q.y <= n2,
                q.z * q.z <= n2,
                q.w * q.w <= n2,
                n2 < (nn + 1) * (nn + 1),
        ;
        lemma_component_scaled_bound(q.x as int, nn);
        lemma_component_scaled_bound(q.y as int, nn);
        lemma_component_scaled_bound(q.z as int, nn);
        lemma_component_scaled_bound(q.w as int, nn);
        assert(n <= 80_000_000_000u128) by (nonlinear_arith)
            requires
                n * n <= n2,
                n2 <= 4 * 40_000_000_000 * 40_000_000_000,
                n >= 0,
        ;
    }
    Quat {
        x: mul_div(q.x, SCALE, n as i64),
        y: mul_div(q.y, SCALE, n as i64),
        z: mul_div(q.z, SCALE, n as i64),
        w: mul_div(q.w, SCALE, n as i64),
    }
}

/// A component no larger than the norm scales to at most `SCALE`.
pub proof fn lemma_component_scaled_bound(c: int, n: int)
    requires
        1 <= n,
        -n <= c <= n,
    ensures
        -SCALE <= tdiv(c * SCALE, n) <= SCALE,
{
    assert(-(n * SCALE) <= c * SCALE <= n * SCALE) by (nonlinear_arith)
        requires
            1 <= n,
            -n <= c <= n,
            SCALE == 1_000_000,
    ;
    lemma_tdiv_quotient_bound(c * SCALE, n, SCALE as int);
}

/// A vector rotated by a scaled quaternion: `v + w*t/S + (q x t)/S` with
/// `t = 2 (q x v)/S`.
pub open spec fn quat_rotate_spec(q: Quat, v: Vec3) -> Vec3 {
    let tx = tdiv((2 * q.y) * v.z + (-(2 * q.z)) * v.y, SCALE as int);
    let ty = tdiv((2 * q.z) * v.x + (-(2 * q.x)) * v.z, SCALE as int);
    let tz = tdiv((2 * q.x) * v.y + (-(2 * q.y)) * v.x, SCALE as int);
    Vec3 {
        x: (v.x + tdiv(q.w * tx, SCALE as int) + tdiv(q.y * tz + (-q.z) * ty, SCALE as int)) as i64,
        y: (v.y + tdiv(q.w * ty, SCALE as int) + tdiv(q.z * tx + (-q.x) * tz, SCALE as int)) as i64,
        z: (v.z + tdiv(q.w * tz, SCALE as int) + tdiv(q.x * ty + (-q.y) * tx, SCALE as int)) as i64,
    }
}

/// Rotate a vector; see `quat_rotate_spec`.
pub fn quat_rotate(q: Quat, v: Vec3) -> (r: Vec3)
    requires
        q.in_q(4_000_000),
        v.in_bound(PART_BOUND as int),
    ensures
        r == quat_rotate_spec(q, v),
        r.in_bound(0x200 * PART_BOUND as int),
{
    proof {
        lemma_rotate_bounds(q, v);
    }
    let tx: i64 = comb2_div(2 * q.y, v.z, -(2 * q.z), v.y, SCALE);
    let ty: i64 = comb2_div(2 * q.z, v.x, -(2 * q.x), v.z, SCALE);
    let tz: i64 = comb2_div(2 * q.x, v.y, -(2 * q.y), v.x, SCALE);
    let rx: i64 = v.x + mul_div(q.w, tx, SCALE) + comb2_div(q.y, tz, -q.z, ty, SCALE);
    let ry: i64 = v.y + mul_div(q.w, ty, SCALE) + comb2_div(q.z, tx, -q.x, tz, SCALE);
    let rz: i64 = v.z + mul_div(q.w, tz, SCALE) + comb2_div(q.x, ty, -q.y, tx, SCALE);
    Vec3 { x: rx, y: ry, z: rz }
}

/// Intermediate bounds for the rotation formula.
pub proof fn lemma_rotate_bounds(q: Quat, v: Vec3)
    requires
        q.in_q(4_000_000),
        v.in_bound(PART_BOUND as int),
    ensures
        ({
            let tx = tdiv((2 * q.y) * v.z + (-(2 * q.z)) * v.y, SCALE as int);
            let ty = tdiv((2 * q.z) * v.x + (-(2 * q.x)) * v.z, SCALE as int);
            let tz = tdiv((2 * q.x) * v.y + (-(2 * q.y)) * v.x, SCALE as int);
            &&& -16 * PART_BOUND <= tx <= 16 * PART_BOUND
            &&& -16 * PART_BOUND <= ty <= 16 * PART_BOUND
            &&& -16 * PART_BOUND <= tz <= 16 * PART_BOUND
            &&& -128 * PART_BOUND <= tdiv(q.w * tx, SCALE as int) <= 128 * PART_BOUND
            &&& -128 * PART_BOUND <= tdiv(q.w * ty, SCALE as int) <= 128 * PART_BOUND
            &&& -128 * PART_BOUND <= tdiv(q.w * tz, SCALE as int) <= 128 * PART_BOUND
            &&& -128 * PART_BOUND <= tdiv(q.y * tz + (-q.z) * ty, SCALE as int) <= 128
                * PART_BOUND
            &&& -128 * PART_BOUND <= tdiv(q.z * tx + (-q.x) * tz, SCALE as int) <= 128
                * PART_BOUND
            &&& -128 * PART_BOUND <= tdiv(q.x * ty + (-q.y) * tx, SCALE as int) <= 128
                * PART_BOUND
        }),
{
    lemma_comb2_quotient(2 * q.y, v.z as int, -(2 * q.z), v.y as int, 8_000_000, PART_BOUND as int, 16 * PART_BOUND as int);
    lemma_comb2_quotient(2 * q.z, v.x as int, -(2 * q.x), v.z as int, 8_000_000, PART_BOUND as int, 16 * PART_BOUND as int);
    lemma_comb2_quotient(2 * q.x, v.y as int, -(2 * q.y), v.x as int, 8_000_000, PART_BOUND as int, 16 * PART_BOUND as int);
    let tx = tdiv((2 * q.y) * v.z + (-(2 * q.z)) * v.y, SCALE as int);
    let ty = tdiv((2 * q.z) * v.x + (-(2 * q.x)) * v.z, SCALE as int);
    let tz = tdiv((2 * q.x) * v.y + (-(2 * q.y)) * v.x, SCALE as int);
    lemma_comb2_quotient(q.w as int, tx, 0, 0, 4_000_000, 16 * PART_BOUND as int, 128 * PART_BOUND as int);
    lemma_comb2_quotient(q.w as int, ty, 0, 0, 4_000_000, 16 * PART_BOUND as int, 128 * PART_BOUND as int);
    lemma_comb2_quotient(q.w as int, tz, 0, 0, 4_000_000, 16 * PART_BOUND as int, 128 * PART_BOUND as int);
    lemma_comb2_quotient(q.y as int, tz, -q.z, ty, 4_000_000, 16 * PART_BOUND as int, 128 * PART_BOUND as int);
    lemma_comb2_quotient(q.z as int, tx, -q.x, tz, 4_000_000, 16 * PART_BOUND as int, 128 * PART_BOUND as int);
    lemma_comb2_quotient(q.x as int, ty, -q.y, tx, 4_000_000, 16 * PART_BOUND as int, 128 * PART_BOUND as int);
}

/// A two-term scaled combination is bounded by twice the factor product
/// over the scale.
pub proof fn lemma_comb2_quotient(a: int, b: int, c: int, d: int, qb: int, vb: int, m: int)
    requires
        0 <= qb,
        0 <= vb,
        -qb <= a <= qb,
        -vb <= b <= vb,
        -qb <= c <= qb,
        -vb <= d <= vb,
        SCALE * m >= 2 * qb * vb,
        0 <= m,
    ensures
        -m <= tdiv(a * b + c * d, SCALE as int) <= m,
{
    assert(-(2 * qb * vb) <= a * b + c * d <= 2 * qb * vb) by (nonlinear_arith)
        requires
            0 <= qb,
            0 <= vb,
            -qb <= a <= qb,
            -vb <= b <= vb,
            -qb <= c <= qb,
            -vb <= d <= vb,
    ;
    lemma_tdiv_quotient_bound(a * b + c * d, SCALE as int, m);
}

/// The identity rotation moves nothing.
pub proof fn lemma_rotate_identity(v: Vec3)
    ensures
        quat_rotate_spec(quat_identity(), v) == v,
{
    assert(tdiv(0, SCALE as int) == 0);
    let q = quat_identity();
    assert((2 * q.y) * v.z + (-(2 * q.z)) * v.y == 0) by (nonlinear_arith)
        requires
            q.y == 0,
            q.z == 0,
    ;
    assert((2 * q.z) * v.x + (-(2 * q.x)) * v.z == 0) by (nonlinear_arith)
        requires
            q.z == 0,
            q.x == 0,
    ;
    assert((2 * q.x) * v.y + (-(2 * q.y)) * v.x == 0) by (nonlinear_arith)
        requires
            q.x == 0,
            q.y == 0,
    ;
    assert(q.w * 0 == 0) by (nonlinear_arith);
    assert(q.y * 0 + (-q.z) * 0 == 0) by (nonlinear_arith)
        requires
            q.y == 0,
            q.z == 0,
    ;
    assert(q.z * 0 + (-q.x) * 0 == 0) by (nonlinear_arith);
    assert(q.x * 0 + (-q.y) * 0 == 0) by (nonlinear_arith);
}

/// The identity is a left and right unit of the product.
pub proof fn lemma_mul_identity()
    ensures
        quat_mul_spec(quat_identity(), quat_identity()) == quat_identity(),
{
    let q = quat_identity();
    assert(q.w * q.x + q.x * q.w + q.y * q.z + (-q.z) * q.y == 0) by (nonlinear_arith)
        requires
            q.x == 0,
            q.y == 0,
            q.z == 0,
    ;
    assert(q.w * q.y + q.y * q.w + q.z * q.x + (-q.x) * q.z == 0) by (nonlinear_arith)
        requires
            q.x == 0,
            q.y == 0,
            q.z == 0,
    ;
    assert(q.w * q.z + q.z * q.w + q.x * q.y + (-q.y) * q.x == 0) by (nonlinear_arith)
        requires
            q.x == 0,
            q.y == 0,
            q.z == 0,
    ;
    assert(q.w * q.w + (-q.x) * q.x + (-q.y) * q.y + (-q.z) * q.z == SCALE * SCALE)
        by (nonlinear_arith)
        requires
            q.x == 0,
            q.y == 0,
            q.z == 0,
            q.w == SCALE,
    ;
    assert(tdiv(0, SCALE as int) == 0);
    vstd::arithmetic::div_mod::lemma_div_multiples_vanish(SCALE as int, SCALE as int);
    assert(tdiv(SCALE * SCALE, SCALE as int) == SCALE);
}

} // verus!
