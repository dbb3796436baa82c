//! Bytecode instructions as the interpreter sees them.
use vstd::prelude::*;

verus! {

/// The operation an instruction performs.
///
/// The core only dispatches on the block-invocation and file-cache
/// instructions (plus `Return`, which completes the invocation protocol);
/// every other operation is carried through opaquely.
#[derive(Clone, Copy, PartialEq, Eq, Structural, Debug)]
pub enum InstructionType {
    SetInteger,
    SetFloat,
    SetString,
    SetArray,
    SetHash,
    SetLocal,
    GetLocal,
    SetConstant,
    GetConstant,
    SetInstanceVariable,
    GetInstanceVariable,
    Send,
    Return,
    GotoIfUndef,
    GotoIfDef,
    DefMethod,
    OpenClass,
    RunBlock,
    RunBlockWithRest,
    ParseFile,
    FileParsed,
}

/// The mathematical shape of an instruction.
#[verifier::ext_equal]
pub struct InstructionView {
    pub instruction_type: InstructionType,
    pub arguments: Seq<usize>,
    pub line: usize,
    pub column: usize,
}

/// One bytecode instruction: an operation, its register-index operands and
/// the source position it came from.
#[derive(PartialEq, Eq, Debug)]
pub struct Instruction {
    pub instruction_type: InstructionType,
    pub arguments: Vec<usize>,
    pub line: usize,
    pub column: usize,
}

impl View for Instruction {
    type V = InstructionView;

    open spec fn view(&self) -> InstructionView {
        InstructionView {
            instruction_type: self.instruction_type,
            arguments: self.arguments@,
            line: self.line,
            column: self.column,
        }
    }
}

impl Clone for Instruction {
    fn clone(&self) -> (res: Self)
        ensures
            res@ == self@,
    {
        let res = Instruction {
            instruction_type: self.instruction_type,
            arguments: self.arguments.clone(),
            line: self.line,
            column: self.column,
        };
        proof {
            assert(res.arguments@ =~= self.arguments@);
        }
        res
    }
}

impl Instruction {
    /// Builds an instruction from its parts.
    pub fn new(
        ins_type: InstructionType,
        arguments: Vec<usize>,
        line: usize,
        column: usize,
    ) -> (ins: Instruction)
        ensures
            ins@ == (InstructionView {
                instruction_type: ins_type,
                arguments: arguments@,
                line: line,
                column: column,
            }),
    {
        Instruction { instruction_type: ins_type, arguments, line, column }
    }

    /// The operand at `index`, if the instruction has that many.
    pub fn arg(&self, index: usize) -> (r: Option<usize>)
        ensures
            r == if index < self@.arguments.len() {
                Some(self@.arguments[index as int])
            } else {
                None::<usize>
            },
    {
        if index < self.arguments.len() {
            Some(self.arguments[index])
        } else {
            None
        }
    }
}

} // verus!
