//! Display colors of agents, in fixed point.

use vstd::prelude::*;
use crate::fx::SCALE;
use crate::rng::random_unit_interval;

verus! {

/// An RGB color; each channel is a fixed-point value of `[0, 1)`.
#[derive(Clone, Copy, Debug, PartialEq, Eq, Structural)]
pub struct Color {
    pub r: i64,
    pub g: i64,
    pub b: i64,
}

/// Channels of a well-formed color lie in the fixed-point unit interval.
pub open spec fn color_wf(c: Color) -> bool {
    &&& 0 <= c.r < SCALE as int
    &&& 0 <= c.g < SCALE as int
    &&& 0 <= c.b < SCALE as int
}

impl Color {
    /// A uniformly random color.
    pub fn random() -> (c: Color)
        ensures
            color_wf(c),
    {
        Color { r: random_unit_interval(), g: random_unit_interval(), b: random_unit_interval() }
    }
}

} // verus!
