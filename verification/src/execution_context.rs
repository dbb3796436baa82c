//! Call-stack frames.
use vstd::prelude::*;

use crate::compiled_code::{CodeView, CompiledCode};
use crate::value::{Value, ValueView};
use vstd::pervasive::VecAdditionalExecFns;

verus! {

/// The mathematical shape of an execution context.
#[verifier::ext_equal]
pub struct ContextView {
    pub code: CodeView,
    pub binding: usize,
    pub return_register: Option<usize>,
    pub registers: Seq<Option<ValueView>>,
    pub instruction_index: usize,
}

/// The views of a sequence of register slots, in order.
pub open spec fn register_views(s: Seq<Option<Value>>) -> Seq<Option<ValueView>> {
    Seq::new(
        s.len(),
        |i: int| match s[i] {
            Some(v) => Some(v@),
            None => None,
        },
    )
}

/// One frame of a process's call stack: the code being executed, the arena
/// index of its binding, the caller register that will receive this frame's
/// return value, the frame's own register file, and the index of the next
/// instruction to execute.
pub struct ExecutionContext {
    pub code: CompiledCode,
    pub binding: usize,
    pub return_register: Option<usize>,
    pub registers: Vec<Option<Value>>,
    pub instruction_index: usize,
}

impl View for ExecutionContext {
    type V = ContextView;

    open spec fn view(&self) -> ContextView {
        ContextView {
            code: self.code@,
            binding: self.binding,
            return_register: self.return_register,
            registers: register_views(self.registers@),
            instruction_index: self.instruction_index,
        }
    }
}

impl ExecutionContext {
    /// A fresh frame over `code`, using the binding at arena index
    /// `binding`, reporting its return value to `return_register` of the
    /// caller's frame.
    pub fn with_binding(
        binding: usize,
        code: CompiledCode,
        return_register: Option<usize>,
    ) -> (ctx: ExecutionContext)
        ensures
            ctx@ == (ContextView {
                code: code@,
                binding: binding,
                return_register: return_register,
                registers: Seq::<Option<ValueView>>::empty(),
                instruction_index: 0,
            }),
    {
        let ctx = ExecutionContext {
            code,
            binding,
            return_register,
            registers: Vec::new(),
            instruction_index: 0,
        };
        proof {
            assert(register_views(ctx.registers@) =~= Seq::<Option<ValueView>>::empty());
        }
        ctx
    }

    /// The value in register `register`, if that register is set.
    pub fn get_register(&self, register: usize) -> (r: Option<&Value>)
        ensures
            match r {
                Some(v) => register < self@.registers.len()
                    && self@.registers[register as int] == Some(v@),
                None => register >= self@.registers.len()
                    || self@.registers[register as int] is None,
            },
    {
        if register < self.registers.len() {
            match &self.registers[register] {
                Some(v) => Some(v),
                None => None,
            }
        } else {
            None
        }
    }

    /// Writes `value` into register `register`, growing the register file
    /// with unset slots as needed.
    ///
    /// The bound on `register` is a machine limit: the register file must
    /// stay addressable by `usize`.
    pub fn set_register(&mut self, register: usize, value: Value)
        requires
            register < usize::MAX,
        ensures
            final(self)@.registers.len() == if (register as int) < old(self)@.registers.len() {
                old(self)@.registers.len() as int
            } else {
                register + 1
            },
            final(self)@.registers[register as int] == Some(value@),
            forall|i: int|
                0 <= i < final(self)@.registers.len() && i != register as int
                    ==> final(self)@.registers[i] == (if i < old(self)@.registers.len() {
                    old(self)@.registers[i]
                } else {
                    None::<ValueView>
                }),
            final(self)@.code == old(self)@.code,
            final(self)@.binding == old(self)@.binding,
            final(self)@.return_register == old(self)@.return_register,
            final(self)@.instruction_index == old(self)@.instruction_index,
    {
        if register >= self.registers.len() {
            while self.registers.len() < register + 1
                invariant
                    old(self).registers@.len() <= self.registers@.len() <= register + 1,
                    forall|i: int|
                        0 <= i < self.registers@.len() ==> self.registers@[i]
                            == (if i < old(self).registers@.len() {
                            old(self).registers@[i]
                        } else {
                            None::<Value>
                        }),
                    self.code == old(self).code,
                    self.binding == old(self).binding,
                    self.return_register == old(self).return_register,
                    self.instruction_index == old(self).instruction_index,
                decreases register + 1 - self.registers.len(),
            {
                self.registers.push(None);
            }
        }
        self.registers.set(register, Some(value));
    }
}

} // verus!
