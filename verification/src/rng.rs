//! The one gateway to the random number generator.
//!
//! Everything the simulation draws at random — node kinds, wiring, mover
//! axes, colors, food levels and the samples of random-source nodes — is
//! derived in verified code from a single trusted primitive that yields a
//! uniform integer below a bound.

use vstd::prelude::*;
use crate::fx::SCALE;

verus! {

/// Relies on `rand::Rng::gen_range` over the thread-local generator: for a
/// nonempty range `0..n` it returns a uniform value of that range, so the
/// result is always strictly below `n`. Nothing more can be promised of a
/// random draw.
#[verifier::external_body]
fn random_below_raw(n: u64) -> (r: u64)
    requires
        n >= 1,
    ensures
        r < n,
{
    rand::Rng::gen_range(&mut rand::thread_rng(), 0..n)
}

/// A uniform index below `n`.
pub fn random_index(n: usize) -> (r: usize)
    requires
        n >= 1,
    ensures
        r < n,
{
    let wide = random_below_raw(n as u64);
    wide as usize
}

/// A uniform fixed-point value of the closed interval `[-SCALE, SCALE]`,
/// standing for the real interval `[-1, 1]`.
pub fn random_signed_unit() -> (r: i64)
    ensures
        -SCALE <= r <= SCALE,
{
    let raw = random_below_raw(2_000_001);
    (raw as i64) - SCALE
}

/// A uniform fixed-point value of `[0, SCALE)`, standing for `[0, 1)`.
pub fn random_unit_interval() -> (r: i64)
    ensures
        0 <= r < SCALE,
{
    let raw = random_below_raw(1_000_000);
    raw as i64
}

/// A uniform coin flip.
pub fn random_bool() -> bool {
    random_below_raw(2) == 1
}

/// Two distinct uniform indices below `n`: the first is drawn among all `n`
/// slots, the second among the `n - 1` remaining ones, so a pair can never
/// name the same slot twice.
pub fn random_distinct_pair(n: usize) -> (r: (usize, usize))
    requires
        n >= 2,
    ensures
        r.0 < n,
        r.1 < n,
        r.0 != r.1,
{
    let first = random_index(n);
    let other = random_index(n - 1);
    let second = if other >= first { other + 1 } else { other };
    (first, second)
}

} // verus!
