//! The interpreter driver: slice outcomes and instruction dispatch.
use vm_core::block::Block;
use vm_core::compiled_code::CompiledCode;
use vm_core::instruction::{Instruction, InstructionType};
use vm_core::machine::{Config, Machine, RunOutcome};
use vm_core::process::{Process, ProcessStatus};
use vm_core::registry::BytecodeFileRegistry;

fn machine_with(reductions: usize, sources: Vec<(String, CompiledCode)>) -> Machine {
    let config = Config { primary_threads: 1, tracer_threads: 1, reductions };
    Machine::new(config, BytecodeFileRegistry::new(sources))
}

fn process_running(instructions: Vec<Instruction>) -> Process {
    let code = CompiledCode::new("main".to_string(), 0, 0, false, 0, instructions);
    let block = Block::new(code, 0, 0);
    Process::new(0, true, &block)
}

#[test]
fn test_empty_code_completes() {
    let mut machine = machine_with(100, Vec::new());
    let mut process = process_running(Vec::new());

    let outcome = machine.run(&mut process);

    assert_eq!(outcome, RunOutcome::Completed);
    assert_eq!(process.status, ProcessStatus::Terminated);
    assert_eq!(process.context_count(), 0);
}

#[test]
fn test_spent_budget_yields() {
    let mut machine = machine_with(0, Vec::new());
    let mut process = process_running(Vec::new());

    let outcome = machine.run(&mut process);

    assert_eq!(outcome, RunOutcome::Yielded);
    assert_eq!(process.status, ProcessStatus::Running);
    assert_eq!(process.context_count(), 1);
}

#[test]
fn test_opaque_instructions_are_carried_through() {
    // Operations outside the core's scope are carried through without
    // touching the process, and the frame still completes.
    let instructions = vec![
        Instruction::new(InstructionType::SetInteger, vec![0, 1], 1, 1),
        Instruction::new(InstructionType::Send, vec![2, 0], 2, 1),
    ];
    let mut machine = machine_with(100, Vec::new());
    let mut process = process_running(instructions);

    let outcome = machine.run(&mut process);

    assert_eq!(outcome, RunOutcome::Completed);
    assert_eq!(process.status, ProcessStatus::Terminated);
}

#[test]
fn test_failing_instruction_aborts_process() {
    // A block invocation on an unset register is an internal invariant
    // violation that aborts the owning process, not the pool.
    let instructions = vec![Instruction::new(InstructionType::RunBlock, vec![2, 0], 1, 1)];
    let mut machine = machine_with(100, Vec::new());
    let mut process = process_running(instructions);

    let outcome = machine.run(&mut process);

    assert!(matches!(outcome, RunOutcome::Failed(_)));
    assert_eq!(process.status, ProcessStatus::Terminated);
}

#[test]
fn test_parse_file_instruction_dispatch() {
    // A frame cannot conjure a string register from nothing in this core,
    // so the path register is seeded before the machine runs the frame.
    let instructions = vec![
        Instruction::new(InstructionType::ParseFile, vec![2, 1], 1, 1),
        Instruction::new(InstructionType::FileParsed, vec![3, 1], 2, 1),
    ];
    let sources = vec![(
        "mod.bc".to_string(),
        CompiledCode::new("mod.bc".to_string(), 0, 0, false, 0, Vec::new()),
    )];
    let mut machine = machine_with(100, sources);
    let mut process = process_running(instructions);
    process
        .set_register(1, vm_core::value::Value::Str("mod.bc".to_string()))
        .unwrap();

    let outcome = machine.run(&mut process);

    assert_eq!(outcome, RunOutcome::Completed);
    assert!(machine.registry.contains_path(&"mod.bc".to_string()));
}
