//! Lightweight processes and their call stacks.
use vstd::prelude::*;

use crate::binding::{Binding, BindingView};
use crate::block::Block;
use crate::error::RunError;
use crate::execution_context::{ContextView, ExecutionContext};
use crate::value::{Value, ValueView};

verus! {

/// Where a process stands in its lifecycle.
#[derive(Clone, Copy, PartialEq, Eq, Structural, Debug)]
pub enum ProcessStatus {
    /// Scheduled or executing.
    Running,
    /// Suspended at a yield point, waiting to be re-admitted.
    Waiting,
    /// Finished, successfully or not.
    Terminated,
}

/// The views of a sequence of execution contexts, in order.
pub open spec fn context_views(s: Seq<ExecutionContext>) -> Seq<ContextView> {
    Seq::new(s.len(), |i: int| s[i]@)
}

/// The views of a sequence of bindings, in order.
pub open spec fn binding_views(s: Seq<Binding>) -> Seq<BindingView> {
    Seq::new(s.len(), |i: int| s[i]@)
}

/// The views of a sequence of processes, in order.
pub open spec fn process_views(s: Seq<Process>) -> Seq<ProcessView> {
    Seq::new(s.len(), |i: int| s[i]@)
}

/// The mathematical shape of a process.
#[verifier::ext_equal]
pub struct ProcessView {
    pub pid: usize,
    pub main: bool,
    pub status: ProcessStatus,
    pub global_scope: usize,
    pub contexts: Seq<ContextView>,
    pub bindings: Seq<BindingView>,
}

/// A lightweight, cooperatively scheduled unit of execution.
///
/// A process owns its call stack (`contexts`, last element on top) and an
/// arena of every binding its frames and closures refer to; both are only
/// ever touched by the one worker executing the process.
pub struct Process {
    /// The unique id of this process.
    pub pid: usize,
    /// Whether this is the main process; the pool shuts down when it ends.
    pub main: bool,
    pub status: ProcessStatus,
    /// The identifier of the global scope the process was spawned under.
    pub global_scope: usize,
    /// The call stack; the last element is the frame being executed.
    pub contexts: Vec<ExecutionContext>,
    /// The arena of bindings referred to by contexts and blocks, by index.
    pub bindings: Vec<Binding>,
}

impl View for Process {
    type V = ProcessView;

    open spec fn view(&self) -> ProcessView {
        ProcessView {
            pid: self.pid,
            main: self.main,
            status: self.status,
            global_scope: self.global_scope,
            contexts: context_views(self.contexts@),
            bindings: binding_views(self.bindings@),
        }
    }
}

impl ProcessView {
    /// The frame being executed, if the call stack is not empty.
    pub open spec fn top_context(self) -> ContextView
        recommends
            self.contexts.len() > 0,
    {
        self.contexts.last()
    }

    /// The value in register `r` of the executing frame: `Some` exactly
    /// when a frame exists and has that register set.
    pub open spec fn register(self, r: usize) -> Option<ValueView> {
        if self.contexts.len() > 0 && r < self.top_context().registers.len() {
            self.top_context().registers[r as int]
        } else {
            None
        }
    }

    /// The process with register `r` of the executing frame set to `v`,
    /// the register file grown with unset slots as needed.
    pub open spec fn with_register(self, r: usize, v: ValueView) -> ProcessView
        recommends
            self.contexts.len() > 0,
    {
        let t = self.top_context();
        let regs = if (r as int) < t.registers.len() {
            t.registers.update(r as int, Some(v))
        } else {
            t.registers + Seq::new((r - t.registers.len()) as nat, |i: int| None::<ValueView>)
                + seq![Some(v)]
        };
        ProcessView {
            contexts: self.contexts.update(
                self.contexts.len() - 1,
                ContextView { registers: regs, ..t },
            ),
            ..self
        }
    }
}

impl Process {
    /// Allocates a process that will execute `block`'s code on top of a
    /// fresh, parentless binding.
    pub fn new(pid: usize, main: bool, block: &Block) -> (p: Process)
        ensures
            p@.pid == pid,
            p@.main == main,
            p@.status == ProcessStatus::Running,
            p@.global_scope == block@.global_scope,
            p@.bindings.len() == 1,
            p@.bindings[0].locals.len() == 0,
            p@.bindings[0].parent is None,
            p@.contexts.len() == 1,
            p@.contexts[0].code == block@.code,
            p@.contexts[0].binding == 0,
            p@.contexts[0].return_register is None,
            p@.contexts[0].registers.len() == 0,
            p@.contexts[0].instruction_index == 0,
    {
        let binding = Binding::new();
        let context = ExecutionContext::with_binding(0, block.code.clone(), None);
        let mut contexts: Vec<ExecutionContext> = Vec::new();
        let mut bindings: Vec<Binding> = Vec::new();
        contexts.push(context);
        bindings.push(binding);
        Process {
            pid,
            main,
            status: ProcessStatus::Running,
            global_scope: block.global_scope,
            contexts,
            bindings,
        }
    }

    /// How many frames the call stack holds.
    pub fn context_count(&self) -> (n: usize)
        ensures
            n == self@.contexts.len(),
    {
        self.contexts.len()
    }

    /// Pushes `context` as the new executing frame.
    pub fn push_context(&mut self, context: ExecutionContext)
        ensures
            final(self)@ == (ProcessView {
                contexts: old(self)@.contexts.push(context@),
                ..old(self)@
            }),
    {
        self.contexts.push(context);
        proof {
            assert(context_views(self.contexts@) =~= context_views(
                old(self).contexts@,
            ).push(context@));
        }
    }

    /// Pops the executing frame, if any.
    pub fn pop_context(&mut self) -> (r: Option<ExecutionContext>)
        ensures
            match r {
                Some(ctx) => old(self)@.contexts.len() > 0 && ctx@ == old(
                    self,
                )@.top_context() && final(self)@ == (ProcessView {
                    contexts: old(self)@.contexts.drop_last(),
                    ..old(self)@
                }),
                None => old(self)@.contexts.len() == 0 && final(self)@ == old(self)@,
            },
    {
        let r = self.contexts.pop();
        proof {
            if old(self).contexts@.len() > 0 {
                assert(old(self)@.top_context() == old(self).contexts@.last()@);
                assert(context_views(self.contexts@) =~= context_views(
                    old(self).contexts@,
                ).drop_last());
            }
        }
        r
    }

    /// Adds `binding` to the arena and reports its index.
    pub fn allocate_binding(&mut self, binding: Binding) -> (idx: usize)
        ensures
            idx == old(self)@.bindings.len(),
            final(self)@ == (ProcessView {
                bindings: old(self)@.bindings.push(binding@),
                ..old(self)@
            }),
    {
        let idx = self.bindings.len();
        self.bindings.push(binding);
        proof {
            assert(binding_views(self.bindings@) =~= binding_views(
                old(self).bindings@,
            ).push(binding@));
        }
        idx
    }

    /// The binding of the executing frame, if a frame exists and its
    /// binding index is in the arena.
    pub fn binding(&self) -> (r: Option<&Binding>)
        ensures
            match r {
                Some(b) => self@.contexts.len() > 0 && self@.top_context().binding
                    < self@.bindings.len() && b@ == self@.bindings[
                    self@.top_context().binding as int
                ],
                None => self@.contexts.len() == 0 || self@.top_context().binding
                    >= self@.bindings.len(),
            },
    {
        if self.contexts.len() == 0 {
            return None;
        }
        let ctx = &self.contexts[self.contexts.len() - 1];
        if ctx.binding < self.bindings.len() {
            Some(&self.bindings[ctx.binding])
        } else {
            None
        }
    }

    /// Reads register `register` of the executing frame.
    ///
    /// Fails with an internal invariant violation exactly when no frame
    /// exists or the register is unset: bytecode produced by the compiler
    /// never reads a register it has not written.
    pub fn get_register(&self, register: usize) -> (r: Result<Value, RunError>)
        ensures
            match r {
                Ok(v) => self@.register(register) == Some(v@),
                Err(e) => e == RunError::InternalInvariantViolation && self@.register(
                    register,
                ) is None,
            },
    {
        if self.contexts.len() == 0 {
            return Err(RunError::InternalInvariantViolation);
        }
        let ctx = &self.contexts[self.contexts.len() - 1];
        match ctx.get_register(register) {
            Some(v) => Ok(v.clone()),
            None => Err(RunError::InternalInvariantViolation),
        }
    }

    /// Writes `value` into register `register` of the executing frame.
    ///
    /// The bound on `register` is a machine limit: a frame's register file
    /// must stay addressable by `usize`.
    pub fn set_register(&mut self, register: usize, value: Value) -> (r: Result<(), RunError>)
        requires
            register < usize::MAX,
        ensures
            match r {
                Ok(()) => old(self)@.contexts.len() > 0 && final(self)@ == old(
                    self,
                )@.with_register(register, value@),
                Err(e) => e == RunError::InternalInvariantViolation && old(
                    self,
                )@.contexts.len() == 0 && final(self)@ == old(self)@,
            },
    {
        if self.contexts.len() == 0 {
            return Err(RunError::InternalInvariantViolation);
        }
        let mut ctx = self.contexts.pop().unwrap();
        ctx.set_register(register, value);
        let ghost ctxv = ctx@;
        self.contexts.push(ctx);
        proof {
            let t = old(self)@.top_context();
            let regs = if (register as int) < t.registers.len() {
                t.registers.update(register as int, Some(value@))
            } else {
                t.registers + Seq::new(
                    (register - t.registers.len()) as nat,
                    |i: int| None::<ValueView>,
                ) + seq![Some(value@)]
            };
            assert(ctxv.registers =~= regs);
            assert(ctxv == (ContextView { registers: regs, ..t }));
            assert(context_views(self.contexts@) =~= context_views(old(self).contexts@).update(
                old(self).contexts@.len() - 1,
                ctxv,
            ));
        }
        Ok(())
    }
}

} // verus!
