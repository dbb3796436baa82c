//! Core of a lightweight-process virtual machine: compiled code, closures,
//! call stacks, the block-invocation protocol, a bytecode file registry, and
//! a work-stealing scheduler driven one worker at a time.
#![verifier::loop_isolation(false)]
use vstd::prelude::*;

pub mod action;
pub mod binding;
pub mod block;
pub mod code_execution;
pub mod compiled_code;
pub mod error;
pub mod execution_context;
pub mod instruction;
pub mod machine;
pub mod pool_state;
pub mod process;
pub mod process_worker;
pub mod queue;
pub mod registry;
pub mod tracer;
pub mod value;

verus! {

} // verus!
