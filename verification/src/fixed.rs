//! Scalar fixed-point arithmetic: truncating scaled multiply/divide and an
//! integer square root, the only primitive operations the simulation needs.

use vstd::prelude::*;

verus! {

/// Division truncating toward zero (the behaviour of `/` on machine
/// integers), expressed over mathematical integers. Meaningful for `b > 0`.
pub open spec fn tdiv(a: int, b: int) -> int {
    if a >= 0 {
        a / b
    } else {
        -((-a) / b)
    }
}

/// Truncating division never grows a magnitude when the divisor is positive.
pub proof fn lemma_tdiv_bound(a: int, b: int)
    requires
        b >= 1,
    ensures
        a >= 0 ==> 0 <= tdiv(a, b) <= a,
        a < 0 ==> a <= tdiv(a, b) <= 0,
{
    if a >= 0 {
        vstd::arithmetic::div_mod::lemma_div_nonincreasing(a, b);
        vstd::arithmetic::div_mod::lemma_div_pos_is_pos(a, b);
    } else {
        vstd::arithmetic::div_mod::lemma_div_nonincreasing(-a, b);
        vstd::arithmetic::div_mod::lemma_div_pos_is_pos(-a, b);
    }
}

/// `(a * m) / d`, truncating toward zero, with a 128-bit intermediate so the
/// product itself cannot overflow.
pub fn mul_div(a: i64, m: i64, d: i64) -> (r: i64)
    requires
        d > 0,
        i64::MIN <= tdiv(a * m, d as int) <= i64::MAX,
    ensures
        r == tdiv(a * m, d as int),
{
    proof {
        assert(i128::MIN <= (a as int) * (m as int) <= i128::MAX) by (nonlinear_arith)
            requires
                i64::MIN <= a <= i64::MAX,
                i64::MIN <= m <= i64::MAX,
        ;
    }
    let p: i128 = (a as i128) * (m as i128);
    let q: i128 = match p.checked_div(d as i128) {
        Some(q) => q,
        None => 0,
    };
    proof {
        lemma_tdiv_bound(p as int, d as int);
    }
    q as i64
}

/// The floor of the square root of `x` (0 for negative arguments), as a
/// mathematical function usable in contracts.
pub open spec fn sqrt_floor(x: int) -> int
    decreases x,
{
    if x <= 0 {
        0
    } else {
        let r = sqrt_floor(x - 1);
        if (r + 1) * (r + 1) <= x {
            r + 1
        } else {
            r
        }
    }
}

/// `sqrt_floor(x)` is the unique integer whose square brackets `x`.
pub proof fn lemma_sqrt_floor(x: int)
    requires
        x >= 0,
    ensures
        0 <= sqrt_floor(x),
        sqrt_floor(x) * sqrt_floor(x) <= x,
        x < (sqrt_floor(x) + 1) * (sqrt_floor(x) + 1),
    decreases x,
{
    if x > 0 {
        lemma_sqrt_floor(x - 1);
        let r = sqrt_floor(x - 1);
        if (r + 1) * (r + 1) <= x {
            assert(x < ((r + 1) + 1) * ((r + 1) + 1)) by (nonlinear_arith)
                requires
                    r >= 0,
                    x - 1 < (r + 1) * (r + 1),
            ;
        }
    }
}

/// Any integer whose square brackets `x` is `sqrt_floor(x)`.
pub proof fn lemma_sqrt_unique(x: int, r: int)
    requires
        x >= 0,
        r >= 0,
        r * r <= x,
        x < (r + 1) * (r + 1),
    ensures
        r == sqrt_floor(x),
{
    lemma_sqrt_floor(x);
    let s = sqrt_floor(x);
    assert(r == s) by (nonlinear_arith)
        requires
            r >= 0,
            s >= 0,
            r * r <= x,
            x < (r + 1) * (r + 1),
            s * s <= x,
            x < (s + 1) * (s + 1),
    ;
}

/// Integer square root: the greatest `r` with `r * r <= x`.
pub fn isqrt(x: u128) -> (r: u128)
    ensures
        r * r <= x,
        x < (r + 1) * (r + 1),
        r == sqrt_floor(x as int),
{
    let mut lo: u128 = 0;
    let mut hi: u128 = if x < 0x1_0000_0000_0000_0000 {
        x
    } else {
        0xFFFF_FFFF_FFFF_FFFF
    };
    proof {
        assert(x < (0xFFFF_FFFF_FFFF_FFFFu128 + 1) * (0xFFFF_FFFF_FFFF_FFFFu128 + 1))
            by (nonlinear_arith)
            requires
                x <= u128::MAX,
        ;
        if x < 0x1_0000_0000_0000_0000 {
            assert(x < (x + 1) * (x + 1)) by (nonlinear_arith);
        }
    }
    while lo < hi
        invariant
            lo <= hi,
            lo * lo <= x,
            x < (hi + 1) * (hi + 1),
            hi <= 0xFFFF_FFFF_FFFF_FFFF,
        decreases hi - lo,
    {
        let mid: u128 = lo + (hi - lo + 1) / 2;
        assert(lo < mid <= hi);
        if mid <= x / mid {
            proof {
                vstd::arithmetic::div_mod::lemma_fundamental_div_mod(x as int, mid as int);
                assert(mid * mid <= x) by (nonlinear_arith)
                    requires
                        mid >= 1,
                        mid <= ((x as int) / (mid as int)),
                        x == (mid as int) * ((x as int) / (mid as int)) + ((x as int) % (mid as int)),
                        ((x as int) % (mid as int)) >= 0,
                ;
            }
            lo = mid;
        } else {
            proof {
                vstd::arithmetic::div_mod::lemma_fundamental_div_mod(x as int, mid as int);
                assert(x < mid * mid) by (nonlinear_arith)
                    requires
                        mid >= 1,
                        ((x as int) / (mid as int)) < mid,
                        x == (mid as int) * ((x as int) / (mid as int)) + ((x as int) % (mid as int)),
                        ((x as int) % (mid as int)) < mid,
                ;
            }
            hi = mid - 1;
        }
    }
    proof {
        lemma_sqrt_unique(x as int, lo as int);
    }
    lo
}


/// A quotient is bounded by `m` when the dividend is within `den * m`.
pub proof fn lemma_tdiv_quotient_bound(s: int, den: int, m: int)
    requires
        den >= 1,
        0 <= m,
        -(den * m) <= s <= den * m,
    ensures
        -m <= tdiv(s, den) <= m,
{
    vstd::arithmetic::div_mod::lemma_div_multiples_vanish(m, den);
    if s >= 0 {
        vstd::arithmetic::div_mod::lemma_div_is_ordered(s, den * m, den);
        vstd::arithmetic::div_mod::lemma_div_pos_is_pos(s, den);
    } else {
        vstd::arithmetic::div_mod::lemma_div_is_ordered(-s, den * m, den);
        vstd::arithmetic::div_mod::lemma_div_pos_is_pos(-s, den);
    }
}

/// `(a * b + c * d) / den`, truncating toward zero, in 128-bit arithmetic.
pub fn comb2_div(a: i64, b: i64, c: i64, d: i64, den: i64) -> (r: i64)
    requires
        den > 0,
        -0x2000_0000_0000_0000 <= a <= 0x2000_0000_0000_0000,
        -0x2000_0000_0000_0000 <= b <= 0x2000_0000_0000_0000,
        -0x2000_0000_0000_0000 <= c <= 0x2000_0000_0000_0000,
        -0x2000_0000_0000_0000 <= d <= 0x2000_0000_0000_0000,
        i64::MIN <= tdiv(a * b + c * d, den as int) <= i64::MAX,
    ensures
        r == tdiv(a * b + c * d, den as int),
{
    proof {
        lemma_i64_product_fits(a as int, b as int);
        lemma_i64_product_fits(c as int, d as int);
    }
    let p: i128 = (a as i128) * (b as i128) + (c as i128) * (d as i128);
    let q: i128 = match p.checked_div(den as i128) {
        Some(q) => q,
        None => 0,
    };
    proof {
        lemma_tdiv_bound(p as int, den as int);
    }
    q as i64
}

/// `(a1*b1 + a2*b2 + a3*b3 + a4*b4) / den`, truncating toward zero.
pub fn comb4_div(a1: i64, b1: i64, a2: i64, b2: i64, a3: i64, b3: i64, a4: i64, b4: i64, den: i64)
    -> (r: i64)
    requires
        den > 0,
        -0x2000_0000_0000_0000 <= a1 <= 0x2000_0000_0000_0000,
        -0x2000_0000_0000_0000 <= b1 <= 0x2000_0000_0000_0000,
        -0x2000_0000_0000_0000 <= a2 <= 0x2000_0000_0000_0000,
        -0x2000_0000_0000_0000 <= b2 <= 0x2000_0000_0000_0000,
        -0x2000_0000_0000_0000 <= a3 <= 0x2000_0000_0000_0000,
        -0x2000_0000_0000_0000 <= b3 <= 0x2000_0000_0000_0000,
        -0x2000_0000_0000_0000 <= a4 <= 0x2000_0000_0000_0000,
        -0x2000_0000_0000_0000 <= b4 <= 0x2000_0000_0000_0000,
        i64::MIN <= tdiv(a1 * b1 + a2 * b2 + a3 * b3 + a4 * b4, den as int) <= i64::MAX,
    ensures
        r == tdiv(a1 * b1 + a2 * b2 + a3 * b3 + a4 * b4, den as int),
{
    proof {
        lemma_i64_product_fits(a1 as int, b1 as int);
        lemma_i64_product_fits(a2 as int, b2 as int);
        lemma_i64_product_fits(a3 as int, b3 as int);
        lemma_i64_product_fits(a4 as int, b4 as int);
    }
    let p: i128 = (a1 as i128) * (b1 as i128) + (a2 as i128) * (b2 as i128) + (a3 as i128) * (b3
        as i128) + (a4 as i128) * (b4 as i128);
    let q: i128 = match p.checked_div(den as i128) {
        Some(q) => q,
        None => 0,
    };
    proof {
        lemma_tdiv_bound(p as int, den as int);
    }
    q as i64
}

/// The product of two moderately sized integers fits well inside 128 bits.
pub proof fn lemma_i64_product_fits(a: int, b: int)
    requires
        -0x2000_0000_0000_0000 <= a <= 0x2000_0000_0000_0000,
        -0x2000_0000_0000_0000 <= b <= 0x2000_0000_0000_0000,
    ensures
        -0x400_0000_0000_0000_0000_0000_0000_0000 <= a * b
            <= 0x400_0000_0000_0000_0000_0000_0000_0000,
{
    assert(-0x400_0000_0000_0000_0000_0000_0000_0000 <= a * b
        <= 0x400_0000_0000_0000_0000_0000_0000_0000) by (nonlinear_arith)
        requires
            -0x2000_0000_0000_0000 <= a <= 0x2000_0000_0000_0000,
            -0x2000_0000_0000_0000 <= b <= 0x2000_0000_0000_0000,
    ;
}

} // verus!
