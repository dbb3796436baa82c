//! Immutable compiled units produced by the (external) compiler.
use vstd::prelude::*;

use crate::instruction::{Instruction, InstructionView};

verus! {

/// The mathematical shape of a compiled unit.
#[verifier::ext_equal]
pub struct CodeView {
    pub name: Seq<char>,
    pub arguments: usize,
    pub required_arguments: usize,
    pub rest_argument: bool,
    pub locals: usize,
    pub instructions: Seq<InstructionView>,
}

/// A compiled block of code: its name, arity information, the number of
/// local-variable slots it needs, and its instructions.
///
/// Once built a compiled unit is never mutated; every closure made from it
/// shares the same code.
#[derive(PartialEq, Eq, Debug)]
pub struct CompiledCode {
    pub name: String,
    pub arguments: usize,
    pub required_arguments: usize,
    pub rest_argument: bool,
    pub locals: usize,
    pub instructions: Vec<Instruction>,
}

/// The views of a sequence of instructions, in order.
pub open spec fn instruction_views(s: Seq<Instruction>) -> Seq<InstructionView> {
    Seq::new(s.len(), |i: int| s[i]@)
}

impl View for CompiledCode {
    type V = CodeView;

    open spec fn view(&self) -> CodeView {
        CodeView {
            name: self.name@,
            arguments: self.arguments,
            required_arguments: self.required_arguments,
            rest_argument: self.rest_argument,
            locals: self.locals,
            instructions: instruction_views(self.instructions@),
        }
    }
}

impl Clone for CompiledCode {
    fn clone(&self) -> (res: Self)
        ensures
            res@ == self@,
    {
        let res = CompiledCode {
            name: self.name.clone(),
            arguments: self.arguments,
            required_arguments: self.required_arguments,
            rest_argument: self.rest_argument,
            locals: self.locals,
            instructions: self.instructions.clone(),
        };
        proof {
            assert forall|i: int| 0 <= i < self.instructions@.len()
                implies res.instructions@[i]@ == self.instructions@[i]@ by {
                assert(cloned::<Instruction>(self.instructions@[i], res.instructions@[i]));
            }
            assert(instruction_views(res.instructions@) =~= instruction_views(
                self.instructions@,
            ));
        }
        res
    }
}

impl CompiledCode {
    /// Builds a compiled unit from its parts.
    pub fn new(
        name: String,
        arguments: usize,
        required_arguments: usize,
        rest_argument: bool,
        locals: usize,
        instructions: Vec<Instruction>,
    ) -> (code: CompiledCode)
        ensures
            code@ == (CodeView {
                name: name@,
                arguments: arguments,
                required_arguments: required_arguments,
                rest_argument: rest_argument,
                locals: locals,
                instructions: instruction_views(instructions@),
            }),
    {
        CompiledCode {
            name,
            arguments,
            required_arguments,
            rest_argument,
            locals,
            instructions,
        }
    }
}

} // verus!
