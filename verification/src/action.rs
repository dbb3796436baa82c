//! Control-transfer results yielded by instruction handlers.
use vstd::prelude::*;

verus! {

/// What an executed instruction asks the driving loop to do next.
///
/// Instructions never call into each other natively; each one returns an
/// `Action` and a single driver loop interprets it, so scheduling points
/// stay explicit.
#[derive(Clone, Copy, PartialEq, Eq, Structural, Debug)]
pub enum Action {
    /// Keep executing the current context at the next instruction.
    Continue,
    /// A new context was pushed; execution continues inside it.
    EnterContext,
    /// The current context is done and wants to hand a value to its caller.
    Return,
    /// An error value travels up to the nearest handler.
    Throw,
    /// The whole process is finished.
    Terminate,
}

} // verus!
