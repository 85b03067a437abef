//! Exact integer geometry: straight-line extrapolation between modules and
//! the collinearity residual used to accept triplets.

use vstd::prelude::*;
use crate::event_model::{coord_ok, spec_abs_diff, COORD_LIMIT};

verus! {

/// Division truncated toward zero, for a positive divisor.
pub open spec fn div_trunc(a: int, b: int) -> int
    recommends
        b > 0,
{
    if a >= 0 {
        a / b
    } else {
        -((-a) / b)
    }
}

/// Where a straight line through `(x0, z0)` and `(x1, z1)` crosses the plane
/// `z = z2`, with the slope ratio truncated toward zero.
pub open spec fn spec_extrapolate(x0: int, z0: int, x1: int, z1: int, z2: int) -> int
    recommends
        z0 < z1,
{
    x1 + div_trunc((x1 - x0) * (z2 - z1), z1 - z0)
}

/// Collinearity residual of three points in one axis: how far `(x2, z2)`
/// misses the line through the first two, scaled by `z1 - z0` to stay
/// integral.
pub open spec fn spec_collin_res(x0: int, z0: int, x1: int, z1: int, x2: int, z2: int) -> int {
    let lhs = (x2 - x1) * (z1 - z0);
    let rhs = (x1 - x0) * (z2 - z1);
    if lhs >= rhs {
        lhs - rhs
    } else {
        rhs - lhs
    }
}

pub fn abs_diff_u64(a: i64, b: i64) -> (r: u64)
    requires
        coord_ok(a),
        coord_ok(b),
    ensures
        r == spec_abs_diff(a as int, b as int),
{
    if a >= b {
        (a - b) as u64
    } else {
        (b - a) as u64
    }
}

/// One-axis straight-line extrapolation from two measured coordinates to a
/// target plane, exact per `spec_extrapolate`.
pub fn extrapolate(x0: i64, z0: i64, x1: i64, z1: i64, z2: i64) -> (r: i64)
    requires
        coord_ok(x0),
        coord_ok(z0),
        coord_ok(x1),
        coord_ok(z1),
        coord_ok(z2),
        z0 < z1,
    ensures
        r as int == spec_extrapolate(x0 as int, z0 as int, x1 as int, z1 as int, z2 as int),
{
    let dx_mag: u64 = abs_diff_u64(x1, x0);
    let dz_mag: u64 = abs_diff_u64(z2, z1);
    let den: u64 = (z1 - z0) as u64;
    proof {
        assert(dx_mag <= 2 * COORD_LIMIT);
        assert(dz_mag <= 2 * COORD_LIMIT);
        assert(dx_mag as int * dz_mag as int <= 4_000_000_000_000_000_000) by (nonlinear_arith)
            requires
                0 <= dx_mag <= 2_000_000_000,
                0 <= dz_mag <= 2_000_000_000,
        ;
    }
    let num_mag: u128 = (dx_mag as u128) * (dz_mag as u128);
    let q: u128 = num_mag / (den as u128);
    let positive: bool = (x1 >= x0) == (z2 >= z1);
    proof {
        let a = (x1 - x0) as int * (z2 - z1) as int;
        assert(num_mag == if a >= 0 { a } else { -a }) by (nonlinear_arith)
            requires
                num_mag == dx_mag as int * dz_mag as int,
                dx_mag == spec_abs_diff(x1 as int, x0 as int),
                dz_mag == spec_abs_diff(z2 as int, z1 as int),
                a == (x1 - x0) as int * (z2 - z1) as int,
        ;
        assert(a >= 0 ==> positive || a == 0) by (nonlinear_arith)
            requires
                a == (x1 - x0) as int * (z2 - z1) as int,
                positive == ((x1 >= x0) == (z2 >= z1)),
        ;
        assert(a < 0 ==> !positive) by (nonlinear_arith)
            requires
                a == (x1 - x0) as int * (z2 - z1) as int,
                positive == ((x1 >= x0) == (z2 >= z1)),
        ;
        assert(num_mag <= 2 * COORD_LIMIT as int * (2 * COORD_LIMIT as int)) by (nonlinear_arith)
            requires
                num_mag == dx_mag as int * dz_mag as int,
                0 <= dx_mag <= 2 * COORD_LIMIT as int,
                0 <= dz_mag <= 2 * COORD_LIMIT as int,
        ;
        assert(q == num_mag as int / den as int);
        assert(q <= num_mag) by {
            vstd::arithmetic::div_mod::lemma_div_basics_5(num_mag as int, den as int);
        }
    }
    if positive {
        x1 + (q as i64)
    } else {
        x1 - (q as i64)
    }
}

/// Collinearity residual in one axis, exact per `spec_collin_res`; the
/// result of bounded inputs fits comfortably in the machine range.
pub fn collin_res(x0: i64, z0: i64, x1: i64, z1: i64, x2: i64, z2: i64) -> (r: u64)
    requires
        coord_ok(x0),
        coord_ok(z0),
        coord_ok(x1),
        coord_ok(z1),
        coord_ok(x2),
        coord_ok(z2),
    ensures
        r == spec_collin_res(x0 as int, z0 as int, x1 as int, z1 as int, x2 as int, z2 as int),
        r <= 8_000_000_000_000_000_000,
{
    let a1: i64 = x2 - x1;
    let b1: i64 = z1 - z0;
    let a2: i64 = x1 - x0;
    let b2: i64 = z2 - z1;
    proof {
        assert(-4_000_000_000_000_000_000 <= a1 as int * b1 as int <= 4_000_000_000_000_000_000)
            by (nonlinear_arith)
            requires
                -2_000_000_000 <= a1 <= 2_000_000_000,
                -2_000_000_000 <= b1 <= 2_000_000_000,
        ;
        assert(-4_000_000_000_000_000_000 <= a2 as int * b2 as int <= 4_000_000_000_000_000_000)
            by (nonlinear_arith)
            requires
                -2_000_000_000 <= a2 <= 2_000_000_000,
                -2_000_000_000 <= b2 <= 2_000_000_000,
        ;
    }
    let lhs: i128 = (a1 as i128) * (b1 as i128);
    let rhs: i128 = (a2 as i128) * (b2 as i128);
    if lhs >= rhs {
        (lhs - rhs) as u64
    } else {
        (rhs - lhs) as u64
    }
}

} // verus!
