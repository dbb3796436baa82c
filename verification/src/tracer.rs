//! The tracer pool used during garbage-collection pauses.
use vstd::prelude::*;

verus! {

/// A fixed-size set of helper threads that mark the objects reachable
/// from a process's live roots during a garbage-collection pause.
///
/// The coordination contract is trace-then-resume: the owning worker
/// starts a trace only while the traced process is paused, and resumes
/// executing its instructions only after the whole trace has finished, so
/// a root set is never mutated mid-trace. In this core that discipline is
/// structural: the worker owns both the tracer pool and the process, and
/// a trace runs to completion before control returns to the run loop.
pub struct TracerPool {
    /// How many helper threads the pool was sized with.
    pub threads: usize,
}

impl TracerPool {
    /// A tracer pool sized to `threads` helper threads.
    pub fn new(threads: usize) -> (pool: TracerPool)
        ensures
            pool.threads == threads,
    {
        TracerPool { threads }
    }
}

} // verus!
