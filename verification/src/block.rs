//! Executable blocks of code.
//!
//! A block is a closure value: a compiled unit combined with the binding of
//! the scope the block was created in and the global scope it belongs to.
//! Bindings live in an arena owned by the process executing them, so a block
//! refers to its captured binding by index.
use vstd::prelude::*;

use crate::compiled_code::{CodeView, CompiledCode};

verus! {

/// The mathematical shape of a block.
#[verifier::ext_equal]
pub struct BlockView {
    pub code: CodeView,
    pub binding: usize,
    pub global_scope: usize,
}

/// A closure: compiled code plus the binding captured at its definition
/// point and the global scope it was defined under.
#[derive(PartialEq, Eq, Debug)]
pub struct Block {
    /// The compiled code containing the instructions to run.
    pub code: CompiledCode,
    /// The index, in the owning process's binding arena, of the binding of
    /// the scope in which this block was created.
    pub binding: usize,
    /// The identifier of the global scope this block belongs to.
    pub global_scope: usize,
}

impl View for Block {
    type V = BlockView;

    open spec fn view(&self) -> BlockView {
        BlockView {
            code: self.code@,
            binding: self.binding,
            global_scope: self.global_scope,
        }
    }
}

impl Clone for Block {
    fn clone(&self) -> (res: Self)
        ensures
            res@ == self@,
    {
        Block {
            code: self.code.clone(),
            binding: self.binding,
            global_scope: self.global_scope,
        }
    }
}

impl Block {
    /// Builds a block over `code`, capturing `binding` under `global_scope`.
    pub fn new(code: CompiledCode, binding: usize, global_scope: usize) -> (b: Block)
        ensures
            b@ == (BlockView { code: code@, binding: binding, global_scope: global_scope }),
    {
        Block { code, binding, global_scope }
    }

    /// How many declared (fixed) arguments the block's code accepts.
    pub fn arguments(&self) -> (n: usize)
        ensures
            n == self@.code.arguments,
    {
        self.code.arguments
    }

    /// How many arguments an invocation must supply at least.
    pub fn required_arguments(&self) -> (n: usize)
        ensures
            n == self@.code.required_arguments,
    {
        self.code.required_arguments
    }

    /// How many local-variable slots the block's code needs.
    pub fn locals(&self) -> (n: usize)
        ensures
            n == self@.code.locals,
    {
        self.code.locals
    }

    /// Whether arguments beyond the fixed ones are packed into a rest local.
    pub fn has_rest_argument(&self) -> (r: bool)
        ensures
            r == self@.code.rest_argument,
    {
        self.code.rest_argument
    }

    /// The name of the block's code.
    pub fn name(&self) -> (n: &String)
        ensures
            n@ == self@.code.name,
    {
        &self.code.name
    }
}

} // verus!
