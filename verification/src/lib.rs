//! Stator minimization for oscillators in Conway's Game of Life (B3/S23).
//!
//! Given a seed pattern that oscillates with some period, the library
//! classifies each cell as rotor (its liveness varies across the phases, or
//! the user forced it) or stator, compiles per-cell constraints on the
//! allowed stator-neighbor counts, and then repeatedly rewrites rectangular
//! strips of the stator with a bit-masked dynamic program, keeping the rotor
//! dynamics intact while the total live-cell count never increases.

pub mod allowed;
pub mod check;
pub mod collist;
pub mod dp;
pub mod frame;
pub mod life;
pub mod period;
pub mod queue;
pub mod sched;
pub mod strip;
pub mod support;

use vstd::prelude::*;

verus! {

/// The fatal error conditions of the pipeline.
#[derive(Clone, Copy, PartialEq, Eq, Structural, Debug)]
pub enum Error {
    /// The seed did not return to itself within the iteration ceiling.
    PeriodBoundExceeded,
    /// The iterated seed re-entered a prior state that is not the seed.
    NonCyclingSeed,
    /// A strip search found no assignment at the terminal state.
    Infeasible,
    /// A frame or strip is too large for the search tables.
    ResourceCeiling,
}

} // verus!
