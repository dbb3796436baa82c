//! The bytecode interpreter driver.
use vstd::prelude::*;

use crate::action::Action;
use crate::code_execution::{
    argument_registers, argument_values, arguments_readable, block_operand, block_sane,
    dest_operand, dest_writable, file_parsed, finish_context, invoked, loaded_code, parse_file,
    parsed_file, path_operand, return_delivery_ok, return_instruction, returned, run_block,
    run_block_with_rest, splat_ok, splatted_values, too_few_arguments, too_many_arguments,
};
use crate::error::RunError;
use crate::execution_context::ContextView;
use crate::instruction::{InstructionType, InstructionView};
use crate::process::{Process, ProcessStatus, ProcessView};
use crate::registry::{contains_path_spec, BytecodeFileRegistry, RegistryView};
use crate::value::{Value, ValueView};

verus! {

/// Configuration the core consumes, supplied by the embedding bootstrap:
/// how many workers a pool runs, how many tracer threads each worker
/// owns, and how many instructions a process may execute per slice.
#[derive(Clone, Copy, PartialEq, Eq, Structural, Debug)]
pub struct Config {
    pub primary_threads: usize,
    pub tracer_threads: usize,
    pub reductions: usize,
}

/// How a processing slice ended.
#[derive(Clone, Copy, PartialEq, Eq, Structural, Debug)]
pub enum RunOutcome {
    /// The process ran out of frames: it is terminated.
    Completed,
    /// The slice's instruction budget was spent; the process can be
    /// re-admitted for another slice.
    Yielded,
    /// An instruction failed and the error was not recovered; the process
    /// is terminated.
    Failed(RunError),
}

/// The process with the executing frame advanced past the instruction it
/// just fetched.
pub open spec fn advanced(p: ProcessView) -> ProcessView
    recommends
        p.contexts.len() > 0,
{
    let t = p.top_context();
    ProcessView {
        contexts: p.contexts.update(
            p.contexts.len() - 1,
            ContextView { instruction_index: (t.instruction_index + 1) as usize, ..t },
        ),
        ..p
    }
}

/// The process aborted where it stands: an unrecovered instruction error
/// is fatal to the owning process alone.
pub open spec fn aborted(p: ProcessView) -> ProcessView {
    ProcessView { status: ProcessStatus::Terminated, ..p }
}

/// What the fetched instruction does to the registry and the advanced
/// process: the per-instruction transitions of the block-invocation and
/// file-cache protocol, with every other operation carried through as a
/// no-op. The third component says whether the slice ends here and how.
pub open spec fn dispatch_step(reg: RegistryView, p1: ProcessView, ins: InstructionView) -> (
    RegistryView,
    ProcessView,
    Option<RunOutcome>,
) {
    match ins.instruction_type {
        InstructionType::RunBlock => {
            let given = argument_registers(ins).len();
            if !block_sane(p1, ins) {
                (
                    reg,
                    aborted(p1),
                    Some(RunOutcome::Failed(RunError::InternalInvariantViolation)),
                )
            } else {
                let bv = block_operand(p1, ins).unwrap();
                if too_many_arguments(bv, given) {
                    (reg, aborted(p1), Some(RunOutcome::Failed(RunError::ArityTooMany)))
                } else if too_few_arguments(bv, given) {
                    (reg, aborted(p1), Some(RunOutcome::Failed(RunError::ArityTooFew)))
                } else if !arguments_readable(p1, ins) {
                    (
                        reg,
                        aborted(p1),
                        Some(RunOutcome::Failed(RunError::InternalInvariantViolation)),
                    )
                } else {
                    (reg, invoked(p1, bv, dest_operand(ins), argument_values(p1, ins)), None)
                }
            }
        },
        InstructionType::RunBlockWithRest => {
            if !block_sane(p1, ins) || !arguments_readable(p1, ins) {
                (
                    reg,
                    aborted(p1),
                    Some(RunOutcome::Failed(RunError::InternalInvariantViolation)),
                )
            } else {
                let bv = block_operand(p1, ins).unwrap();
                let raw = argument_values(p1, ins);
                if !splat_ok(bv, raw) {
                    (
                        reg,
                        aborted(p1),
                        Some(RunOutcome::Failed(RunError::InternalInvariantViolation)),
                    )
                } else {
                    let vals = splatted_values(bv, raw);
                    if too_many_arguments(bv, vals.len()) {
                        (reg, aborted(p1), Some(RunOutcome::Failed(RunError::ArityTooMany)))
                    } else if too_few_arguments(bv, vals.len()) {
                        (reg, aborted(p1), Some(RunOutcome::Failed(RunError::ArityTooFew)))
                    } else {
                        (reg, invoked(p1, bv, dest_operand(ins), vals), None)
                    }
                }
            }
        },
        InstructionType::ParseFile => {
            if path_operand(p1, ins) is None || !dest_writable(ins) {
                (
                    reg,
                    aborted(p1),
                    Some(RunOutcome::Failed(RunError::InternalInvariantViolation)),
                )
            } else {
                let path = path_operand(p1, ins).unwrap();
                match loaded_code(reg, path) {
                    Some(code) => {
                        let reg2 = if contains_path_spec(reg.entries, path) {
                            reg
                        } else {
                            RegistryView {
                                sources: reg.sources,
                                entries: reg.entries.push((path, code)),
                            }
                        };
                        (reg2, parsed_file(p1, dest_operand(ins), code), None)
                    },
                    None => (
                        reg,
                        aborted(p1),
                        Some(RunOutcome::Failed(RunError::LoadError)),
                    ),
                }
            }
        },
        InstructionType::FileParsed => {
            if path_operand(p1, ins) is None || !dest_writable(ins) {
                (
                    reg,
                    aborted(p1),
                    Some(RunOutcome::Failed(RunError::InternalInvariantViolation)),
                )
            } else {
                (
                    reg,
                    p1.with_register(
                        dest_operand(ins),
                        ValueView::Boolean(
                            contains_path_spec(reg.entries, path_operand(p1, ins).unwrap()),
                        ),
                    ),
                    None,
                )
            }
        },
        InstructionType::Return => {
            if ins.arguments.len() < 1 || p1.register(ins.arguments[0]) is None
                || !return_delivery_ok(p1) {
                (
                    reg,
                    aborted(p1),
                    Some(RunOutcome::Failed(RunError::InternalInvariantViolation)),
                )
            } else {
                let p2 = returned(p1, p1.register(ins.arguments[0]).unwrap());
                (
                    reg,
                    p2,
                    if p2.contexts.len() == 0 {
                        Some(RunOutcome::Completed)
                    } else {
                        None
                    },
                )
            }
        },
        _ => (reg, p1, None),
    }
}

/// One step of the interpreter: a process without frames terminates; a
/// frame past its last instruction returns `Nil` to its caller; any other
/// frame has its next instruction fetched, the frame advanced past it,
/// and the instruction dispatched.
pub open spec fn machine_step(reg: RegistryView, p: ProcessView) -> (
    RegistryView,
    ProcessView,
    Option<RunOutcome>,
) {
    if p.contexts.len() == 0 {
        (
            reg,
            ProcessView { status: ProcessStatus::Terminated, ..p },
            Some(RunOutcome::Completed),
        )
    } else {
        let t = p.top_context();
        if t.instruction_index >= t.code.instructions.len() {
            if return_delivery_ok(p) {
                let p2 = returned(p, ValueView::Nil);
                (
                    reg,
                    p2,
                    if p2.contexts.len() == 0 {
                        Some(RunOutcome::Completed)
                    } else {
                        None
                    },
                )
            } else {
                (
                    reg,
                    aborted(p),
                    Some(RunOutcome::Failed(RunError::InternalInvariantViolation)),
                )
            }
        } else {
            dispatch_step(reg, advanced(p), t.code.instructions[t.instruction_index as int])
        }
    }
}

/// Where a slice with the given instruction budget ends: `machine_step`
/// folded until it stops or the budget is spent.
pub open spec fn slice_result(reg: RegistryView, p: ProcessView, fuel: nat) -> (
    RegistryView,
    ProcessView,
    RunOutcome,
)
    decreases fuel,
{
    if fuel == 0 {
        (reg, p, RunOutcome::Yielded)
    } else {
        let stepped = machine_step(reg, p);
        match stepped.2 {
            Some(outcome) => (stepped.0, stepped.1, outcome),
            None => slice_result(stepped.0, stepped.1, (fuel - 1) as nat),
        }
    }
}

/// The bytecode interpreter: executes a process's instructions until the
/// process yields, dispatching the block-invocation and file-cache
/// instructions and carrying every other operation through as a no-op.
///
/// A machine is owned outright by the worker driving it; no other thread
/// has an access path to it.
pub struct Machine {
    pub config: Config,
    /// The bytecode file cache behind the `parse_file` and `file_parsed`
    /// instructions.
    pub registry: BytecodeFileRegistry,
}

impl Machine {
    /// A machine over the given configuration and file registry.
    pub fn new(config: Config, registry: BytecodeFileRegistry) -> (m: Machine)
        ensures
            m.config == config,
            m.registry@ == registry@,
    {
        Machine { config, registry }
    }

    /// Executes `process` until it terminates, fails, or spends the
    /// slice's instruction budget of `config.reductions` steps: the
    /// resulting registry, process and outcome are exactly
    /// `slice_result`'s fold of the interpreter step over the old state.
    pub fn run(&mut self, process: &mut Process) -> (outcome: RunOutcome)
        ensures
            final(self).config == old(self).config,
            final(self).registry@.sources == old(self).registry@.sources,
            final(process)@.pid == old(process)@.pid,
            final(process)@.main == old(process)@.main,
            final(process)@.global_scope == old(process)@.global_scope,
            match outcome {
                RunOutcome::Completed => final(process)@.status == ProcessStatus::Terminated,
                RunOutcome::Yielded => final(process)@.status == old(process)@.status,
                RunOutcome::Failed(_) => final(process)@.status == ProcessStatus::Terminated,
            },
            ({
                let folded = slice_result(
                    old(self).registry@,
                    old(process)@,
                    old(self).config.reductions as nat,
                );
                final(self).registry@ == folded.0 && final(process)@ == folded.1 && outcome
                    == folded.2
            }),
    {
        let ghost orig = slice_result(
            old(self).registry@,
            old(process)@,
            old(self).config.reductions as nat,
        );
        let mut steps = self.config.reductions;
        loop
            invariant
                self.config == old(self).config,
                self.registry@.sources == old(self).registry@.sources,
                process@.pid == old(process)@.pid,
                process@.main == old(process)@.main,
                process@.global_scope == old(process)@.global_scope,
                process@.status == old(process)@.status,
                orig == slice_result(
                    old(self).registry@,
                    old(process)@,
                    old(self).config.reductions as nat,
                ),
                orig == slice_result(self.registry@, process@, steps as nat),
            decreases steps,
        {
            let ghost head_reg = self.registry@;
            let ghost head_p = process@;
            let ghost head_steps = steps as nat;
            if steps == 0 {
                proof {
                    assert(orig == (head_reg, head_p, RunOutcome::Yielded));
                }
                return RunOutcome::Yielded;
            }
            steps = steps - 1;
            if process.context_count() == 0 {
                process.status = ProcessStatus::Terminated;
                proof {
                    let stepped = machine_step(head_reg, head_p);
                    assert(stepped.1 =~= process@);
                    assert(orig == (self.registry@, process@, RunOutcome::Completed));
                }
                return RunOutcome::Completed;
            }
            let mut ctx = match process.pop_context() {
                Some(c) => c,
                None => {
                    proof {
                        assert(false);
                    }
                    return RunOutcome::Failed(RunError::InternalInvariantViolation);
                },
            };
            let ip = ctx.instruction_index;
            if ip >= ctx.code.instructions.len() {
                process.push_context(ctx);
                proof {
                    assert(process@ =~= head_p);
                }
                match finish_context(process, Value::Nil) {
                    Ok(_) => {
                        proof {
                            let stepped = machine_step(head_reg, head_p);
                            assert(stepped.0 == self.registry@ && stepped.1 == process@
                                && stepped.2 == (if process@.contexts.len() == 0 {
                                Some(RunOutcome::Completed)
                            } else {
                                None::<RunOutcome>
                            }));
                        }
                        if process.context_count() == 0 {
                            return RunOutcome::Completed;
                        }
                    },
                    Err(e) => {
                        process.status = ProcessStatus::Terminated;
                        proof {
                            let stepped = machine_step(head_reg, head_p);
                            assert(stepped.1 =~= process@);
                            assert(orig == (
                                self.registry@,
                                process@,
                                RunOutcome::Failed(e),
                            ));
                        }
                        return RunOutcome::Failed(e);
                    },
                }
            } else {
                let ins = ctx.code.instructions[ip].clone();
                ctx.instruction_index = ip + 1;
                process.push_context(ctx);
                proof {
                    assert(process@ =~= advanced(head_p));
                    assert(ins@ == head_p.top_context().code.instructions[ip as int]);
                }
                let result = match ins.instruction_type {
                    InstructionType::RunBlock => run_block(process, &ins),
                    InstructionType::RunBlockWithRest => run_block_with_rest(process, &ins),
                    InstructionType::ParseFile => parse_file(
                        &mut self.registry,
                        process,
                        &ins,
                    ),
                    InstructionType::FileParsed => file_parsed(&self.registry, process, &ins),
                    InstructionType::Return => return_instruction(process, &ins),
                    _ => Ok(Action::Continue),
                };
                match result {
                    Ok(_) => {
                        proof {
                            let stepped = machine_step(head_reg, head_p);
                            assert(stepped.0 =~= self.registry@);
                            assert(stepped.1 == process@ && stepped.2 == (
                            if process@.contexts.len() == 0 {
                                Some(RunOutcome::Completed)
                            } else {
                                None::<RunOutcome>
                            }));
                        }
                        if process.context_count() == 0 {
                            return RunOutcome::Completed;
                        }
                    },
                    Err(e) => {
                        process.status = ProcessStatus::Terminated;
                        proof {
                            let stepped = machine_step(head_reg, head_p);
                            assert(stepped.0 =~= self.registry@);
                            assert(stepped.1 =~= process@);
                            assert(stepped.2 == Some(RunOutcome::Failed(e)));
                            assert(orig == (
                                self.registry@,
                                process@,
                                RunOutcome::Failed(e),
                            ));
                        }
                        return RunOutcome::Failed(e);
                    },
                }
            }
        }
    }
}

} // verus!
