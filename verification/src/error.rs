//! Errors surfaced by instruction execution and the file registry.
use vstd::prelude::*;

verus! {

/// What can go wrong while executing an instruction or loading a bytecode
/// file.
///
/// The first two variants are recoverable within the faulting process, a
/// failed load is recoverable per call, an internal invariant violation is
/// fatal to the owning process alone, and pool corruption (shared state
/// poisoned by an embedder thread) is fatal to the whole pool.
#[derive(Clone, Copy, PartialEq, Eq, Structural, Debug)]
pub enum RunError {
    /// A block was invoked with more arguments than it accepts.
    ArityTooMany,
    /// A block was invoked with fewer arguments than it requires.
    ArityTooFew,
    /// A bytecode file is missing, unreadable or malformed.
    LoadError,
    /// A value the instruction relies on (an operand, a register, a block)
    /// is absent or of the wrong shape.
    InternalInvariantViolation,
    /// Shared pool state was found corrupted.
    PoolCorruption,
}

} // verus!
