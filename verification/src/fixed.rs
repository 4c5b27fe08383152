//! Fixed-point scalar arithmetic.
//!
//! A scalar is an `i64` holding the real value times `SCALE`. Sums and
//! products are computed exactly in `i128`, the product is divided by
//! `SCALE` rounding toward zero, and the result saturates at `FIX_MAX` in
//! magnitude. Every operation is therefore total: no input can overflow.

use vstd::prelude::*;

verus! {

/// One unit of real value: a scalar `x` stands for the real number `x / SCALE`.
pub const SCALE: i64 = 65536;

/// The largest magnitude a scalar ever takes; all operations saturate here.
pub const FIX_MAX: i64 = 4611686018427387904;

/// Saturation to the representable range.
pub open spec fn sat(x: int) -> int {
    if x > FIX_MAX as int {
        FIX_MAX as int
    } else if x < -(FIX_MAX as int) {
        -(FIX_MAX as int)
    } else {
        x
    }
}

/// Division rounding toward zero (the rounding every scalar operation uses).
pub open spec fn tdiv(a: int, b: int) -> int
    recommends
        b > 0,
{
    if a >= 0 {
        a / b
    } else {
        -((-a) / b)
    }
}

/// Fixed-point product: `(a * b) / SCALE`, rounded toward zero, saturated.
pub open spec fn fmul_s(a: int, b: int) -> int {
    sat(tdiv(a * b, SCALE as int))
}

/// Saturating sum.
pub open spec fn fadd_s(a: int, b: int) -> int {
    sat(a + b)
}

/// Saturating difference.
pub open spec fn fsub_s(a: int, b: int) -> int {
    sat(a - b)
}

/// Division of a scalar by a positive integer count, rounded toward zero.
pub open spec fn fdivn_s(a: int, n: int) -> int
    recommends
        n > 0,
{
    sat(tdiv(a, n))
}

/// Clamps an exact `i128` intermediate into the scalar range.
fn clamp128(x: i128) -> (r: i64)
    ensures
        r as int == sat(x as int),
{
    if x > FIX_MAX as i128 {
        FIX_MAX
    } else if x < -(FIX_MAX as i128) {
        -FIX_MAX
    } else {
        x as i64
    }
}

/// Division of an exact intermediate by a positive divisor, rounding toward
/// zero, computed on magnitudes so that only unsigned division is needed.
fn tdiv128(p: i128, d: u64) -> (q: i128)
    requires
        d > 0,
        -85070591730234615865843651857942052864i128 <= p <= 85070591730234615865843651857942052864i128,
    ensures
        q as int == tdiv(p as int, d as int),
{
    if p >= 0 {
        let m: u128 = p as u128;
        let qq: u128 = m / (d as u128);
        assert(qq <= m) by {
            assert(m / (d as u128) <= m) by (nonlinear_arith)
                requires
                    d as u128 >= 1,
            ;
        };
        qq as i128
    } else {
        let m: u128 = (-p) as u128;
        let qq: u128 = m / (d as u128);
        assert(qq <= m) by {
            assert(m / (d as u128) <= m) by (nonlinear_arith)
                requires
                    d as u128 >= 1,
            ;
        };
        -(qq as i128)
    }
}

/// Saturating fixed-point addition.
pub fn fadd(a: i64, b: i64) -> (r: i64)
    ensures
        r as int == fadd_s(a as int, b as int),
{
    let s: i128 = a as i128 + b as i128;
    clamp128(s)
}

/// Saturating fixed-point subtraction.
pub fn fsub(a: i64, b: i64) -> (r: i64)
    ensures
        r as int == fsub_s(a as int, b as int),
{
    let s: i128 = a as i128 - b as i128;
    clamp128(s)
}

/// Saturating fixed-point multiplication.
pub fn fmul(a: i64, b: i64) -> (r: i64)
    ensures
        r as int == fmul_s(a as int, b as int),
{
    assert(-85070591730234615865843651857942052864 <= (a as int) * (b as int)
        && (a as int) * (b as int) <= 85070591730234615865843651857942052864) by (nonlinear_arith)
        requires
            -9223372036854775808 <= a as int <= 9223372036854775807,
            -9223372036854775808 <= b as int <= 9223372036854775807,
    ;
    let p: i128 = (a as i128) * (b as i128);
    let q: i128 = tdiv128(p, SCALE as u64);
    clamp128(q)
}

/// Saturating division of a scalar by a positive integer count.
pub fn fdivn(a: i64, n: i64) -> (r: i64)
    requires
        n > 0,
    ensures
        r as int == fdivn_s(a as int, n as int),
{
    let q: i128 = tdiv128(a as i128, n as u64);
    clamp128(q)
}

} // verus!
