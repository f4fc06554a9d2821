//! Fixed-point scalars and small arithmetic helpers.
//!
//! A coordinate is an `i64` that stores the real value multiplied by
//! [`FP_ONE`]; a value of `FP_ONE` stands for `1.0`.

use vstd::prelude::*;

verus! {

/// Fixed-point unit: the integer that stands for the real value `1.0`.
pub const FP_ONE: i64 = 65536;

/// Largest coordinate magnitude the pipeline accepts (1024.0 in real units).
/// Keeping inputs inside this range lets every intermediate product of the
/// pipeline fit in the machine integers it is computed in.
pub const COORD_LIMIT: i64 = 67108864;

/// Largest spacing value the pipeline accepts: a machine limit that keeps
/// the doubled margin and every request size inside `i64`.
pub const SPACING_LIMIT: i64 = 2305843009213693951;

/// A 2D point in fixed-point coordinates.
#[derive(Clone, Copy, PartialEq, Eq, Structural, Debug)]
pub struct Fixed2 {
    /// Horizontal component, in units of `1 / FP_ONE`.
    pub x: i64,
    /// Vertical component, in units of `1 / FP_ONE`.
    pub y: i64,
}

/// A 3D point in fixed-point coordinates.
#[derive(Clone, Copy, PartialEq, Eq, Structural, Debug)]
pub struct Fixed3 {
    /// X component, in units of `1 / FP_ONE`.
    pub x: i64,
    /// Y component, in units of `1 / FP_ONE`.
    pub y: i64,
    /// Z component, in units of `1 / FP_ONE`.
    pub z: i64,
}

/// True when every component of `v` has magnitude at most [`COORD_LIMIT`].
pub open spec fn in_coord_range(v: Fixed3) -> bool {
    -COORD_LIMIT <= v.x <= COORD_LIMIT && -COORD_LIMIT <= v.y <= COORD_LIMIT
        && -COORD_LIMIT <= v.z <= COORD_LIMIT
}

/// Floor of the square root of `a`.
pub closed spec fn sqrt_floor(a: u128) -> u128 {
    choose|r: u128| (#[trigger] (r * r)) <= a && (r + 1) * (r + 1) > a
}

/// The square-root floor is uniquely characterized by its bracketing squares.
pub proof fn lemma_sqrt_floor_unique(a: u128, r: u128)
    requires
        r * r <= a,
        (r + 1) * (r + 1) > a,
    ensures
        sqrt_floor(a) == r,
{
    assert(sqrt_floor(a) * sqrt_floor(a) <= a && (sqrt_floor(a) + 1) * (sqrt_floor(a) + 1) > a);
    let s = sqrt_floor(a);
    if s < r {
        assert((s + 1) * (s + 1) <= r * r) by (nonlinear_arith)
            requires s + 1 <= r
        ;
    }
    if s > r {
        assert((r + 1) * (r + 1) <= s * s) by (nonlinear_arith)
            requires r + 1 <= s
        ;
    }
}

/// Multiplies a small non-negative fixed-point value by a scale factor and
/// drops the extra fractional bits.
pub fn mul_scale_div(d: i64, scale: i64) -> (r: i64)
    requires
        0 <= d <= 268435456,
        0 <= scale <= 4294967296,
    ensures
        r == (d * scale) / (FP_ONE as int),
        0 <= r,
{
    proof {
        assert(d * scale <= 268435456 * 4294967296) by (nonlinear_arith)
            requires 0 <= d <= 268435456, 0 <= scale <= 4294967296
        ;
    }
    let prod: u64 = (d as u64) * (scale as u64);
    let q: u64 = prod / 65536;
    q as i64
}

/// Integer square root by bisection: returns the floor of the square root.
pub fn isqrt_u128(a: u128) -> (r: u128)
    requires
        a < 1329227995784915872903807060280344576,  // 2^120
    ensures
        r * r <= a,
        (r + 1) * (r + 1) > a,
        r == sqrt_floor(a),
{
    let mut lo: u128 = 0;
    let mut hi: u128 = 1152921504606846976;  // 2^60
    assert(hi * hi == 1329227995784915872903807060280344576) by (nonlinear_arith)
        requires hi == 1152921504606846976
    ;
    while hi - lo > 1
        invariant
            lo < hi,
            lo * lo <= a,
            hi * hi > a,
            hi <= 1152921504606846976,
        decreases hi - lo,
    {
        let mid: u128 = lo + (hi - lo) / 2;
        assert(mid * mid < 1329227995784915872903807060280344576) by (nonlinear_arith)
            requires mid < 1152921504606846976
        ;
        if mid * mid <= a {
            lo = mid;
        } else {
            hi = mid;
        }
    }
    proof {
        assert(hi == lo + 1);
        lemma_sqrt_floor_unique(a, lo);
    }
    lo
}

} // verus!
