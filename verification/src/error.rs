//! Error kinds of the evolution engine. Every error is terminal for the
//! `evolve` call that raised it: the engine attempts no partial recovery.

use vstd::prelude::*;

verus! {

/// Why an `evolve` call failed.
#[derive(Clone, Copy, Debug, PartialEq, Eq, Structural)]
pub enum EngineError {
    /// A component broke its contract: a population/fitness length mismatch,
    /// or an empty population where a non-empty one is required.
    ContractViolation,
    /// A fitness comparison could not establish an order.
    NonComparableFitness,
    /// No initial population was supplied and no individual factory was
    /// configured, so the engine has no way to initialize.
    MissingGenerator,
}

} // verus!
