//! Fixed-point simulation of agents driven by small randomly wired
//! computation graphs ("brains"), foraging on a shared food grid.
//!
//! All quantities are carried in millionths of a unit (see [`fx`]), so the
//! whole simulation is exact integer arithmetic and every step of it is
//! verified: graph evaluation with its cycle-breaking sentinel, the side
//! effects on agent positions and on the food grid, and the pause/step
//! gating of the tick scheduler.

pub mod agent;
pub mod color;
pub mod eval;
pub mod fx;
pub mod grid;
pub mod laws;
pub mod node;
pub mod rng;
pub mod world;
