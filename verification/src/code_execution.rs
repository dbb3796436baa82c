//! The block-invocation protocol and the file-cache instructions.
//!
//! `run_block` and `run_block_with_rest` implement block invocation: arity
//! validation, positional argument binding, rest-argument packing, and the
//! pushing of a fresh execution context. `parse_file` and `file_parsed`
//! implement the bytecode file-cache instructions over the registry.
use vstd::prelude::*;

use crate::action::Action;
use crate::binding::{Binding, BindingView};
use crate::block::{Block, BlockView};
use crate::error::RunError;
use crate::compiled_code::CodeView;
use crate::execution_context::{ContextView, ExecutionContext};
use crate::instruction::{Instruction, InstructionView};
use crate::process::{Process, ProcessStatus, ProcessView};
use crate::registry::{
    contains_path_spec, find_path, get_or_set_transition, BytecodeFileRegistry, RegistryView,
};
use crate::value::{views_of, Value, ValueView};

verus! {

/// Whether the instruction carries at least a destination operand and a
/// block operand.
pub open spec fn operands_ok(ins: InstructionView) -> bool {
    ins.arguments.len() >= 2
}

/// The register that will eventually receive the invoked block's return
/// value.
pub open spec fn dest_operand(ins: InstructionView) -> usize
    recommends
        operands_ok(ins),
{
    ins.arguments[0]
}

/// The register holding the block to invoke.
pub open spec fn block_register(ins: InstructionView) -> usize
    recommends
        operands_ok(ins),
{
    ins.arguments[1]
}

/// The registers holding the supplied arguments, in order.
pub open spec fn argument_registers(ins: InstructionView) -> Seq<usize> {
    ins.arguments.skip(2)
}

/// The block held by the instruction's block register, if the operands are
/// well formed and that register holds a block.
pub open spec fn block_operand(p: ProcessView, ins: InstructionView) -> Option<BlockView> {
    if operands_ok(ins) {
        match p.register(block_register(ins)) {
            Some(ValueView::Block(bv)) => Some(bv),
            _ => None,
        }
    } else {
        None
    }
}

/// Whether the block operand exists and its captured binding lies inside
/// the process's arena.
pub open spec fn block_sane(p: ProcessView, ins: InstructionView) -> bool {
    match block_operand(p, ins) {
        Some(bv) => bv.binding < p.bindings.len(),
        None => false,
    }
}

/// Whether every argument register is set.
pub open spec fn arguments_readable(p: ProcessView, ins: InstructionView) -> bool {
    forall|i: int|
        0 <= i < argument_registers(ins).len() ==> p.register(
            #[trigger] argument_registers(ins)[i],
        ) is Some
}

/// The values of the argument registers, in order.
pub open spec fn argument_values(p: ProcessView, ins: InstructionView) -> Seq<ValueView>
    recommends
        arguments_readable(p, ins),
{
    Seq::new(argument_registers(ins).len(), |i: int| p.register(argument_registers(ins)[i]).unwrap())
}

/// Too many arguments: more than the block declares, and no rest parameter
/// to absorb the surplus.
pub open spec fn too_many_arguments(bv: BlockView, given: nat) -> bool {
    given > bv.code.arguments && !bv.code.rest_argument
}

/// Too few arguments: fewer than the block requires.
pub open spec fn too_few_arguments(bv: BlockView, given: nat) -> bool {
    given < bv.code.required_arguments
}

/// The local slots of the binding a successful invocation creates: the
/// first `min(given, fixed)` argument values positionally, then, if the
/// block declares a rest parameter, one sequence holding every argument
/// beyond the fixed ones — empty when there are none.
pub open spec fn invocation_locals(bv: BlockView, vals: Seq<ValueView>) -> Seq<ValueView> {
    let fixed = bv.code.arguments as int;
    let positional = if vals.len() <= fixed {
        vals
    } else {
        vals.take(fixed)
    };
    if bv.code.rest_argument {
        positional.push(
            ValueView::Array(
                if vals.len() <= fixed {
                    Seq::empty()
                } else {
                    vals.skip(fixed)
                },
            ),
        )
    } else {
        positional
    }
}

/// The process after a successful invocation of `bv` with argument values
/// `vals`: one fresh binding in the arena, one fresh context on the call
/// stack, everything else untouched. The destination register is only
/// recorded in the new context; it is written when that context returns.
pub open spec fn invoked(p: ProcessView, bv: BlockView, dest: usize, vals: Seq<ValueView>) -> ProcessView {
    let nb = BindingView { locals: invocation_locals(bv, vals), parent: Some(bv.binding) };
    let nc = ContextView {
        code: bv.code,
        binding: p.bindings.len() as usize,
        return_register: Some(dest),
        registers: Seq::empty(),
        instruction_index: 0,
    };
    ProcessView { contexts: p.contexts.push(nc), bindings: p.bindings.push(nb), ..p }
}

/// Law: when a block without a rest parameter is invoked with at least its
/// required and at most its declared number of arguments, neither arity
/// error applies, the new binding holds exactly the given values in the
/// order they were supplied, and the call stack is exactly one frame
/// deeper.
pub proof fn lemma_arity_in_range_invokes(
    p: ProcessView,
    bv: BlockView,
    dest: usize,
    vals: Seq<ValueView>,
)
    requires
        !bv.code.rest_argument,
        bv.code.required_arguments <= vals.len() <= bv.code.arguments,
    ensures
        !too_many_arguments(bv, vals.len()),
        !too_few_arguments(bv, vals.len()),
        invoked(p, bv, dest, vals).contexts.len() == p.contexts.len() + 1,
        invoked(p, bv, dest, vals).bindings.last().locals == vals,
        invoked(p, bv, dest, vals).bindings.last().parent == Some(bv.binding),
        invoked(p, bv, dest, vals).contexts.last().code == bv.code,
        invoked(p, bv, dest, vals).contexts.drop_last() == p.contexts,
{
    assert(invoked(p, bv, dest, vals).contexts.drop_last() =~= p.contexts);
}

/// Law: when a block with a rest parameter is invoked with at least as
/// many arguments as it has fixed parameters, the fixed parameters are
/// bound positionally and the rest local holds exactly the surplus
/// arguments in order — the empty sequence when there are none.
pub proof fn lemma_rest_local(bv: BlockView, vals: Seq<ValueView>)
    requires
        bv.code.rest_argument,
        vals.len() >= bv.code.arguments,
    ensures
        invocation_locals(bv, vals).len() == bv.code.arguments + 1,
        invocation_locals(bv, vals).last() == ValueView::Array(
            vals.skip(bv.code.arguments as int),
        ),
        vals.skip(bv.code.arguments as int).len() == vals.len() - bv.code.arguments,
        forall|i: int|
            0 <= i < bv.code.arguments ==> #[trigger] invocation_locals(bv, vals)[i] == vals[i],
{
    if vals.len() == bv.code.arguments {
        assert(vals.skip(bv.code.arguments as int) =~= Seq::<ValueView>::empty());
        assert(vals.take(bv.code.arguments as int) =~= vals);
    }
}

/// Reads the values of the argument registers into a vector.
fn collect_arguments(process: &Process, instruction: &Instruction) -> (r: Result<
    Vec<Value>,
    RunError,
>)
    requires
        operands_ok(instruction@),
    ensures
        match r {
            Ok(vals) => arguments_readable(process@, instruction@) && views_of(vals@)
                == argument_values(process@, instruction@),
            Err(e) => e == RunError::InternalInvariantViolation && !arguments_readable(
                process@,
                instruction@,
            ),
        },
{
    let total = instruction.arguments.len();
    let mut vals: Vec<Value> = Vec::new();
    let mut i: usize = 2;
    while i < total
        invariant
            2 <= i <= total,
            total == instruction@.arguments.len(),
            vals@.len() == i - 2,
            forall|j: int|
                0 <= j < i - 2 ==> process@.register(
                    #[trigger] argument_registers(instruction@)[j],
                ) is Some,
            forall|j: int|
                0 <= j < i - 2 ==> #[trigger] vals@[j]@ == argument_values(
                    process@,
                    instruction@,
                )[j],
        decreases total - i,
    {
        let reg = instruction.arguments[i];
        proof {
            assert(argument_registers(instruction@)[i - 2] == reg);
        }
        match process.get_register(reg) {
            Ok(v) => {
                vals.push(v);
            },
            Err(e) => {
                return Err(e);
            },
        }
        i = i + 1;
    }
    proof {
        crate::value::lemma_views_of(vals@);
        assert(views_of(vals@) =~= argument_values(process@, instruction@));
    }
    Ok(vals)
}

/// Creates the fresh binding and context for invoking `block` with the
/// argument values `vals` and pushes the context onto the call stack.
fn invoke_block(process: &mut Process, block: Block, dest: usize, vals: Vec<Value>) -> (a: Action)
    requires
        block@.code.rest_argument || vals@.len() <= block@.code.arguments,
    ensures
        a == Action::EnterContext,
        final(process)@ == invoked(old(process)@, block@, dest, views_of(vals@)),
{
    let ghost pre = process@;
    let ghost valviews = views_of(vals@);
    let fixed = block.arguments();
    let has_rest = block.has_rest_argument();
    let mut locals = vals;
    proof {
        crate::value::lemma_views_of(locals@);
    }
    if has_rest {
        let rest_part: Vec<Value> = if locals.len() > fixed {
            locals.split_off(fixed)
        } else {
            Vec::new()
        };
        proof {
            crate::value::lemma_views_of(locals@);
            crate::value::lemma_views_of(rest_part@);
            if valviews.len() <= fixed as int {
                assert(views_of(rest_part@) =~= Seq::<ValueView>::empty());
                assert(views_of(locals@) =~= valviews);
            } else {
                assert(views_of(rest_part@) =~= valviews.skip(fixed as int));
                assert(views_of(locals@) =~= valviews.take(fixed as int));
            }
        }
        locals.push(Value::Array(rest_part));
        proof {
            crate::value::lemma_views_of(locals@);
            assert(views_of(locals@) =~= invocation_locals(block@, valviews));
        }
    } else {
        proof {
            if valviews.len() > fixed as int {
                assert(views_of(locals@.take(fixed as int)) =~= valviews.take(fixed as int));
            }
            assert(views_of(locals@) =~= valviews);
        }
    }
    let binding = Binding { locals, parent: Some(block.binding) };
    let idx = process.allocate_binding(binding);
    let context = ExecutionContext::with_binding(idx, block.code, Some(dest));
    process.push_context(context);
    proof {
        assert(process@ =~= invoked(pre, block@, dest, valviews));
    }
    Action::EnterContext
}

/// Invokes the block held by the instruction's block register.
///
/// Operand layout: the destination register, the register holding the
/// block, then one register per supplied argument.
///
/// Fails with `ArityTooMany` exactly when more arguments are supplied than
/// the block declares and the block has no rest parameter; with
/// `ArityTooFew` exactly when fewer are supplied than the block requires;
/// with an internal invariant violation exactly when the operands or the
/// registers they name are not of the shape the compiler guarantees. On
/// any failure the call stack and every register are left untouched.
///
/// On success a fresh binding (the argument values bound as by
/// `invocation_locals`, enclosed by the block's captured binding) and a
/// fresh context are pushed, and execution transfers into the new context.
pub fn run_block(process: &mut Process, instruction: &Instruction) -> (r: Result<
    Action,
    RunError,
>)
    ensures
        ({
            let p = old(process)@;
            let ins = instruction@;
            let given = argument_registers(ins).len();
            match r {
                Ok(a) => {
                    &&& a == Action::EnterContext
                    &&& block_sane(p, ins)
                    &&& !too_many_arguments(block_operand(p, ins).unwrap(), given)
                    &&& !too_few_arguments(block_operand(p, ins).unwrap(), given)
                    &&& arguments_readable(p, ins)
                    &&& final(process)@ == invoked(
                        p,
                        block_operand(p, ins).unwrap(),
                        dest_operand(ins),
                        argument_values(p, ins),
                    )
                },
                Err(e) => final(process)@ == p && (match e {
                    RunError::ArityTooMany => block_sane(p, ins) && too_many_arguments(
                        block_operand(p, ins).unwrap(),
                        given,
                    ),
                    RunError::ArityTooFew => block_sane(p, ins) && !too_many_arguments(
                        block_operand(p, ins).unwrap(),
                        given,
                    ) && too_few_arguments(block_operand(p, ins).unwrap(), given),
                    RunError::InternalInvariantViolation => !block_sane(p, ins) || (
                    !too_many_arguments(block_operand(p, ins).unwrap(), given)
                        && !too_few_arguments(block_operand(p, ins).unwrap(), given)
                        && !arguments_readable(p, ins)),
                    _ => false,
                }),
            }
        }),
{
    if instruction.arguments.len() < 2 {
        return Err(RunError::InternalInvariantViolation);
    }
    let dest = instruction.arguments[0];
    let breg = instruction.arguments[1];
    let block_value = match process.get_register(breg) {
        Ok(v) => v,
        Err(e) => {
            return Err(e);
        },
    };
    let block = match block_value {
        Value::Block(b) => b,
        _ => {
            return Err(RunError::InternalInvariantViolation);
        },
    };
    if block.binding >= process.bindings.len() {
        return Err(RunError::InternalInvariantViolation);
    }
    let given = instruction.arguments.len() - 2;
    if given > block.arguments() && !block.has_rest_argument() {
        return Err(RunError::ArityTooMany);
    }
    if given < block.required_arguments() {
        return Err(RunError::ArityTooFew);
    }
    let vals = match collect_arguments(process, instruction) {
        Ok(v) => v,
        Err(e) => {
            return Err(e);
        },
    };
    proof {
        crate::value::lemma_views_of(vals@);
    }
    Ok(invoke_block(process, block, dest, vals))
}

/// Whether the trailing argument can be splatted: with a rest parameter
/// and at least one argument, the last argument must be a sequence.
pub open spec fn splat_ok(bv: BlockView, vals: Seq<ValueView>) -> bool {
    !bv.code.rest_argument || vals.len() == 0 || vals.last() is Array
}

/// The argument values after splatting: with a rest parameter, the last
/// argument is a sequence whose elements replace it.
pub open spec fn splatted_values(bv: BlockView, vals: Seq<ValueView>) -> Seq<ValueView> {
    if bv.code.rest_argument && vals.len() > 0 {
        vals.drop_last() + vals.last()->Array_0
    } else {
        vals
    }
}

/// Invokes the block held by the instruction's block register, unpacking
/// the trailing argument.
///
/// Operands are laid out as for `run_block`. If the block declares a rest
/// parameter and at least one argument is supplied, the last argument must
/// hold a sequence; its elements stand in its place before the ordinary
/// invocation protocol — arity validation included — runs on the widened
/// argument list. Without a rest parameter this behaves exactly like
/// `run_block`. On any failure the call stack and every register are left
/// untouched.
pub fn run_block_with_rest(process: &mut Process, instruction: &Instruction) -> (r: Result<
    Action,
    RunError,
>)
    ensures
        ({
            let p = old(process)@;
            let ins = instruction@;
            let bvo = block_operand(p, ins);
            match r {
                Ok(a) => {
                    let vals = splatted_values(bvo.unwrap(), argument_values(p, ins));
                    &&& a == Action::EnterContext
                    &&& block_sane(p, ins)
                    &&& arguments_readable(p, ins)
                    &&& splat_ok(bvo.unwrap(), argument_values(p, ins))
                    &&& !too_many_arguments(bvo.unwrap(), vals.len())
                    &&& !too_few_arguments(bvo.unwrap(), vals.len())
                    &&& final(process)@ == invoked(p, bvo.unwrap(), dest_operand(ins), vals)
                },
                Err(e) => final(process)@ == p && (match e {
                    RunError::ArityTooMany => block_sane(p, ins) && arguments_readable(p, ins)
                        && splat_ok(bvo.unwrap(), argument_values(p, ins))
                        && too_many_arguments(
                        bvo.unwrap(),
                        splatted_values(bvo.unwrap(), argument_values(p, ins)).len(),
                    ),
                    RunError::ArityTooFew => block_sane(p, ins) && arguments_readable(p, ins)
                        && splat_ok(bvo.unwrap(), argument_values(p, ins))
                        && !too_many_arguments(
                        bvo.unwrap(),
                        splatted_values(bvo.unwrap(), argument_values(p, ins)).len(),
                    ) && too_few_arguments(
                        bvo.unwrap(),
                        splatted_values(bvo.unwrap(), argument_values(p, ins)).len(),
                    ),
                    RunError::InternalInvariantViolation => !block_sane(p, ins)
                        || !arguments_readable(p, ins) || !splat_ok(
                        bvo.unwrap(),
                        argument_values(p, ins),
                    ),
                    _ => false,
                }),
            }
        }),
{
    if instruction.arguments.len() < 2 {
        return Err(RunError::InternalInvariantViolation);
    }
    let dest = instruction.arguments[0];
    let breg = instruction.arguments[1];
    let block_value = match process.get_register(breg) {
        Ok(v) => v,
        Err(e) => {
            return Err(e);
        },
    };
    let block = match block_value {
        Value::Block(b) => b,
        _ => {
            return Err(RunError::InternalInvariantViolation);
        },
    };
    if block.binding >= process.bindings.len() {
        return Err(RunError::InternalInvariantViolation);
    }
    let mut vals = match collect_arguments(process, instruction) {
        Ok(v) => v,
        Err(e) => {
            return Err(e);
        },
    };
    let ghost read_views = views_of(vals@);
    proof {
        crate::value::lemma_views_of(vals@);
    }
    if block.has_rest_argument() && vals.len() > 0 {
        let last = match vals.pop() {
            Some(v) => v,
            None => {
                return Err(RunError::InternalInvariantViolation);
            },
        };
        match last {
            Value::Array(mut items) => {
                proof {
                    crate::value::lemma_views_of(items@);
                }
                vals.append(&mut items);
                proof {
                    crate::value::lemma_views_of(vals@);
                    assert(views_of(vals@) =~= splatted_values(block@, read_views));
                }
            },
            _ => {
                return Err(RunError::InternalInvariantViolation);
            },
        }
    } else {
        proof {
            assert(views_of(vals@) == splatted_values(block@, read_views));
        }
    }
    let given = vals.len();
    if given > block.arguments() && !block.has_rest_argument() {
        return Err(RunError::ArityTooMany);
    }
    if given < block.required_arguments() {
        return Err(RunError::ArityTooFew);
    }
    proof {
        crate::value::lemma_views_of(vals@);
    }
    Ok(invoke_block(process, block, dest, vals))
}

/// The process after the executing frame returns `v` to its caller: the
/// frame is popped; if it was the last one the process terminates, and
/// otherwise `v` is written to the destination register the frame was
/// invoked with, if any. This is the moment the destination register of a
/// block invocation is written.
pub open spec fn returned(p: ProcessView, v: ValueView) -> ProcessView
    recommends
        p.contexts.len() > 0,
{
    let p1 = ProcessView { contexts: p.contexts.drop_last(), ..p };
    if p1.contexts.len() == 0 {
        ProcessView { status: ProcessStatus::Terminated, ..p1 }
    } else {
        match p.top_context().return_register {
            Some(d) => p1.with_register(d, v),
            None => p1,
        }
    }
}

/// Whether the executing frame can deliver a return value: a frame
/// exists, and any destination register it must write is addressable.
pub open spec fn return_delivery_ok(p: ProcessView) -> bool {
    p.contexts.len() > 0 && (p.contexts.len() == 1 || match p.top_context().return_register {
        Some(d) => d < usize::MAX,
        None => true,
    })
}

/// Pops the executing frame and delivers `value` to its caller; popping
/// the last frame finishes the whole process.
pub fn finish_context(process: &mut Process, value: Value) -> (r: Result<Action, RunError>)
    ensures
        match r {
            Ok(a) => a == (if old(process)@.contexts.len() == 1 {
                Action::Terminate
            } else {
                Action::Return
            }) && return_delivery_ok(old(process)@) && final(process)@
                == returned(old(process)@, value@),
            Err(e) => e == RunError::InternalInvariantViolation && !return_delivery_ok(
                old(process)@,
            ) && final(process)@ == old(process)@,
        },
{
    let n = process.context_count();
    if n == 0 {
        return Err(RunError::InternalInvariantViolation);
    }
    if n > 1 {
        let ctx = &process.contexts[n - 1];
        match ctx.return_register {
            Some(d) => {
                if d == usize::MAX {
                    return Err(RunError::InternalInvariantViolation);
                }
            },
            None => {},
        }
    }
    let popped = match process.pop_context() {
        Some(c) => c,
        None => {
            proof {
                assert(false);
            }
            return Err(RunError::InternalInvariantViolation);
        },
    };
    if process.context_count() == 0 {
        process.status = ProcessStatus::Terminated;
        return Ok(Action::Terminate);
    }
    match popped.return_register {
        Some(d) => {
            match process.set_register(d, value) {
                Ok(()) => {},
                Err(_) => {
                    proof {
                        assert(false);
                    }
                    return Err(RunError::InternalInvariantViolation);
                },
            }
        },
        None => {},
    }
    Ok(Action::Return)
}

/// Returns the value held by the instruction's first operand register to
/// the executing frame's caller, popping the frame.
///
/// Fails with an internal invariant violation exactly when the operand or
/// its register is absent or the frame's destination register is not
/// addressable, leaving the process untouched.
pub fn return_instruction(process: &mut Process, instruction: &Instruction) -> (r: Result<
    Action,
    RunError,
>)
    ensures
        ({
            let p = old(process)@;
            let ins = instruction@;
            match r {
                Ok(a) => {
                    &&& a == (if p.contexts.len() == 1 {
                        Action::Terminate
                    } else {
                        Action::Return
                    })
                    &&& ins.arguments.len() >= 1
                    &&& p.register(ins.arguments[0]) is Some
                    &&& return_delivery_ok(p)
                    &&& final(process)@ == returned(p, p.register(ins.arguments[0]).unwrap())
                },
                Err(e) => e == RunError::InternalInvariantViolation && final(process)@ == p && (
                ins.arguments.len() < 1 || p.register(ins.arguments[0]) is None
                    || !return_delivery_ok(p)),
            }
        }),
{
    if instruction.arguments.len() < 1 {
        return Err(RunError::InternalInvariantViolation);
    }
    let value = match process.get_register(instruction.arguments[0]) {
        Ok(v) => v,
        Err(e) => {
            return Err(e);
        },
    };
    finish_context(process, value)
}

/// The file path held by the instruction's path register, if the operands
/// are well formed and that register holds a string.
pub open spec fn path_operand(p: ProcessView, ins: InstructionView) -> Option<Seq<char>> {
    if operands_ok(ins) {
        match p.register(ins.arguments[1]) {
            Some(ValueView::Str(s)) => Some(s),
            _ => None,
        }
    } else {
        None
    }
}

/// Whether the destination register can be written: the machine limit on
/// register indices.
pub open spec fn dest_writable(ins: InstructionView) -> bool {
    operands_ok(ins) && dest_operand(ins) < usize::MAX
}

/// The compiled code `get_or_set` yields for `path`: the cached entry if
/// one exists, else what the loader supplies.
pub open spec fn loaded_code(reg: RegistryView, path: Seq<char>) -> Option<CodeView> {
    if contains_path_spec(reg.entries, path) {
        find_path(reg.entries, path)
    } else {
        find_path(reg.sources, path)
    }
}

/// The process after a successful `parse_file`: one fresh empty binding in
/// the arena and a block over the loaded code written to the destination
/// register.
pub open spec fn parsed_file(p: ProcessView, dest: usize, code: CodeView) -> ProcessView {
    let p1 = ProcessView {
        bindings: p.bindings.push(BindingView { locals: Seq::empty(), parent: None }),
        ..p
    };
    p1.with_register(
        dest,
        ValueView::Block(
            BlockView {
                code: code,
                binding: p.bindings.len() as usize,
                global_scope: p.global_scope,
            },
        ),
    )
}

/// Looks the path held by the path register up in the file registry,
/// loading and caching it on a first call, and writes a block over the
/// resulting code — with a fresh empty binding — to the destination
/// register.
///
/// Operand layout: the destination register, then the register holding
/// the path string. Fails with `LoadError` exactly when the path is
/// neither cached nor loadable, leaving the registry unchanged so a later
/// call may retry; fails with an internal invariant violation exactly when
/// the operands are not of the shape the compiler guarantees. On any
/// failure the process is left untouched.
pub fn parse_file(
    registry: &mut BytecodeFileRegistry,
    process: &mut Process,
    instruction: &Instruction,
) -> (r: Result<Action, RunError>)
    ensures
        ({
            let p = old(process)@;
            let ins = instruction@;
            match r {
                Ok(a) => {
                    let path = path_operand(p, ins).unwrap();
                    &&& a == Action::Continue
                    &&& path_operand(p, ins) is Some
                    &&& dest_writable(ins)
                    &&& loaded_code(old(registry)@, path) is Some
                    &&& get_or_set_transition(
                        old(registry)@,
                        final(registry)@,
                        path,
                        loaded_code(old(registry)@, path),
                    )
                    &&& final(process)@ == parsed_file(
                        p,
                        dest_operand(ins),
                        loaded_code(old(registry)@, path).unwrap(),
                    )
                },
                Err(e) => final(process)@ == p && (match e {
                    RunError::LoadError => path_operand(p, ins) is Some && dest_writable(ins)
                        && loaded_code(old(registry)@, path_operand(p, ins).unwrap()) is None
                        && final(registry)@ == old(registry)@,
                    RunError::InternalInvariantViolation => (path_operand(p, ins) is None
                        || !dest_writable(ins)) && final(registry)@ == old(registry)@,
                    _ => false,
                }),
            }
        }),
{
    if instruction.arguments.len() < 2 {
        return Err(RunError::InternalInvariantViolation);
    }
    let dest = instruction.arguments[0];
    let path_reg = instruction.arguments[1];
    let path_value = match process.get_register(path_reg) {
        Ok(v) => v,
        Err(e) => {
            return Err(e);
        },
    };
    let path = match path_value {
        Value::Str(s) => s,
        _ => {
            return Err(RunError::InternalInvariantViolation);
        },
    };
    if dest == usize::MAX {
        return Err(RunError::InternalInvariantViolation);
    }
    proof {
        crate::registry::lemma_find_contains(old(registry)@.entries, path@);
        crate::registry::lemma_find_contains(old(registry)@.sources, path@);
    }
    let code = match registry.get_or_set(&path) {
        Ok(c) => c,
        Err(e) => {
            return Err(e);
        },
    };
    let ghost codev = code@;
    proof {
        assert(codev == loaded_code(old(registry)@, path@).unwrap());
    }
    let fresh = Binding::new();
    let ghost freshv = fresh@;
    proof {
        assert(freshv =~= (BindingView { locals: Seq::empty(), parent: None }));
    }
    let idx = process.allocate_binding(fresh);
    let ghost p1 = process@;
    proof {
        assert(p1 =~= (ProcessView {
            bindings: old(process)@.bindings.push(
                BindingView { locals: Seq::empty(), parent: None },
            ),
            ..old(process)@
        }));
    }
    let block = Block::new(code, idx, process.global_scope);
    let ghost blockv = block@;
    match process.set_register(dest, Value::Block(block)) {
        Ok(()) => {},
        Err(_) => {
            proof {
                assert(false);
            }
            return Err(RunError::InternalInvariantViolation);
        },
    }
    proof {
        assert(blockv == (BlockView {
            code: codev,
            binding: old(process)@.bindings.len() as usize,
            global_scope: old(process)@.global_scope,
        }));
        assert(final(process)@ == p1.with_register(dest, ValueView::Block(blockv)));
        assert(final(process)@ == parsed_file(old(process)@, dest, codev));
    }
    Ok(Action::Continue)
}

/// Writes to the destination register whether the path held by the path
/// register has been materialized into the file registry's cache.
///
/// A pure membership check: it never triggers population. Operand layout
/// is as for `parse_file`. Fails with an internal invariant violation
/// exactly when the operands are not of the shape the compiler
/// guarantees, leaving the process untouched.
pub fn file_parsed(
    registry: &BytecodeFileRegistry,
    process: &mut Process,
    instruction: &Instruction,
) -> (r: Result<Action, RunError>)
    ensures
        ({
            let p = old(process)@;
            let ins = instruction@;
            match r {
                Ok(a) => {
                    &&& a == Action::Continue
                    &&& path_operand(p, ins) is Some
                    &&& dest_writable(ins)
                    &&& final(process)@ == p.with_register(
                        dest_operand(ins),
                        ValueView::Boolean(
                            contains_path_spec(registry@.entries, path_operand(p, ins).unwrap()),
                        ),
                    )
                },
                Err(e) => e == RunError::InternalInvariantViolation && final(process)@ == p && (
                path_operand(p, ins) is None || !dest_writable(ins)),
            }
        }),
{
    if instruction.arguments.len() < 2 {
        return Err(RunError::InternalInvariantViolation);
    }
    let dest = instruction.arguments[0];
    let path_reg = instruction.arguments[1];
    let path_value = match process.get_register(path_reg) {
        Ok(v) => v,
        Err(e) => {
            return Err(e);
        },
    };
    let path = match path_value {
        Value::Str(s) => s,
        _ => {
            return Err(RunError::InternalInvariantViolation);
        },
    };
    if dest == usize::MAX {
        return Err(RunError::InternalInvariantViolation);
    }
    let known = registry.contains_path(&path);
    match process.set_register(dest, Value::Boolean(known)) {
        Ok(()) => {},
        Err(_) => {
            proof {
                assert(false);
            }
            return Err(RunError::InternalInvariantViolation);
        },
    }
    Ok(Action::Continue)
}

} // verus!
