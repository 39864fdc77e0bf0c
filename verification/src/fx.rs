//! Fixed-point arithmetic for the simulation.
//!
//! Every quantity of the simulation (node outputs, weights, biases, agent
//! coordinates, food levels) is an integer count of millionths of a unit,
//! so `1_000_000` stands for the real value `1.0`. All arithmetic is exact
//! and verified; intermediate products are carried in `i128` so they cannot
//! overflow.

use vstd::prelude::*;

verus! {

/// Number of fixed-point steps in one unit: values in `[-SCALE, SCALE]`
/// stand for the real interval `[-1, 1]`.
pub const SCALE: i64 = 1_000_000;

/// Divisor applied to `output + SCALE` when a forager depletes a food cell:
/// the depletion is `(output + 1) / 2` units scaled by the fixed rate
/// `1/1000`, which in fixed point is a single division by `2000`.
pub const DEPLETION_DIVISOR: i64 = 2_000;

/// Truncating division (rounds toward zero), the rounding the executable
/// code uses. For a nonnegative dividend it coincides with the Euclidean
/// `/` of specifications.
pub open spec fn tdiv(a: int, b: int) -> int
    recommends
        b > 0,
{
    if a >= 0 {
        a / b
    } else {
        -((-a) / b)
    }
}

/// Clamp `x` into `[lo, hi]`.
pub open spec fn clamp_spec(x: int, lo: int, hi: int) -> int
    recommends
        lo <= hi,
{
    if x < lo {
        lo
    } else if x > hi {
        hi
    } else {
        x
    }
}

/// The squashing ("activation") function every computing node applies to
/// its weighted input sum: the saturating ramp that is the fixed-point
/// stand-in for a smooth sigmoid. It fixes `0`, is monotone, and lands in
/// `[-SCALE, SCALE]`, saturating at the ends.
pub open spec fn act_spec(s: int) -> int {
    clamp_spec(s, -SCALE as int, SCALE as int)
}

/// Executable squashing function over a wide intermediate sum.
pub fn act(s: i128) -> (r: i64)
    ensures
        r == act_spec(s as int),
        -SCALE <= r <= SCALE,
{
    if s > SCALE as i128 {
        SCALE
    } else if s < -SCALE as i128 {
        -SCALE
    } else {
        s as i64
    }
}

/// Executable clamp over a wide intermediate value, into `[0, hi]`.
pub fn clamp_nonneg(x: i128, hi: i64) -> (r: i64)
    requires
        hi >= 0,
    ensures
        r == clamp_spec(x as int, 0, hi as int),
        0 <= r <= hi,
{
    if x < 0 {
        0
    } else if x > hi as i128 {
        hi
    } else {
        x as i64
    }
}

/// Executable truncating division of a bounded product by `SCALE`.
pub fn div_by_scale(a: i128) -> (r: i64)
    requires
        -1_000_000_000_000 <= a <= 1_000_000_000_000,
    ensures
        r == tdiv(a as int, SCALE as int),
        -SCALE <= r <= SCALE,
{
    proof {
        lemma_tdiv_magnitude(a as int, SCALE as int, SCALE as int);
    }
    if a >= 0 {
        (a / (SCALE as i128)) as i64
    } else {
        -((-a / (SCALE as i128)) as i64)
    }
}

/// A dividend no larger in magnitude than `c * b` divides (truncating) to a
/// quotient no larger in magnitude than `c`.
pub proof fn lemma_tdiv_magnitude(a: int, b: int, c: int)
    requires
        b > 0,
        c >= 0,
        -(c * b) <= a <= c * b,
    ensures
        -c <= tdiv(a, b) <= c,
        a >= 0 ==> 0 <= tdiv(a, b),
        a <= 0 ==> tdiv(a, b) <= 0,
{
    if a >= 0 {
        assert(0 <= a / b <= c) by (nonlinear_arith)
            requires
                b > 0,
                c >= 0,
                0 <= a <= c * b,
        ;
    } else {
        assert(0 <= (-a) / b <= c) by (nonlinear_arith)
            requires
                b > 0,
                c >= 0,
                0 < -a <= c * b,
        ;
    }
}

} // verus!
