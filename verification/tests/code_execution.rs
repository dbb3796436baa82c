//! Block invocation: arity validation, argument binding, rest packing,
//! and return-value delivery.
use vm_core::block::Block;
use vm_core::code_execution::{finish_context, return_instruction, run_block, run_block_with_rest};
use vm_core::compiled_code::CompiledCode;
use vm_core::error::RunError;
use vm_core::instruction::{Instruction, InstructionType};
use vm_core::process::Process;
use vm_core::value::Value;

fn code_with(arguments: usize, required: usize, rest: bool) -> CompiledCode {
    CompiledCode::new("test".to_string(), arguments, required, rest, arguments, Vec::new())
}

fn setup_with(arguments: usize, required: usize, rest: bool) -> Process {
    let spawn = Block::new(code_with(0, 0, false), 0, 0);
    let mut process = Process::new(0, true, &spawn);
    let target = Block::new(code_with(arguments, required, rest), 0, 0);
    process.set_register(0, Value::Block(target)).unwrap();
    process
}

fn new_instruction(ins_type: InstructionType, args: Vec<usize>) -> Instruction {
    Instruction::new(ins_type, args, 1, 1)
}

#[test]
fn test_without_arguments() {
    let mut process = setup_with(0, 0, false);
    process.set_register(1, Value::Boolean(false)).unwrap();

    let instruction = new_instruction(InstructionType::RunBlock, vec![2, 0]);

    let result = run_block(&mut process, &instruction);

    assert!(result.is_ok());

    assert_eq!(process.context_count(), 2);
    assert!(process.binding().unwrap().locals().is_empty());
}

#[test]
fn test_with_too_many_arguments() {
    let mut process = setup_with(0, 0, false);
    process.set_register(1, Value::Boolean(true)).unwrap();
    process.set_register(2, Value::Boolean(false)).unwrap();

    let instruction = new_instruction(InstructionType::RunBlock, vec![3, 0, 1, 2]);

    let result = run_block(&mut process, &instruction);

    assert!(result.is_err());
    assert_eq!(result.unwrap_err(), RunError::ArityTooMany);
    // Nothing was touched on failure.
    assert_eq!(process.context_count(), 1);
}

#[test]
fn test_with_not_enough_arguments() {
    let mut process = setup_with(2, 2, false);
    process.set_register(1, Value::Boolean(true)).unwrap();
    process.set_register(2, Value::Boolean(false)).unwrap();

    let instruction = new_instruction(InstructionType::RunBlock, vec![3, 0, 1]);

    let result = run_block(&mut process, &instruction);

    assert!(result.is_err());
    assert_eq!(result.unwrap_err(), RunError::ArityTooFew);
    assert_eq!(process.context_count(), 1);
}

#[test]
fn test_with_enough_arguments() {
    let mut process = setup_with(2, 0, false);
    process.set_register(1, Value::Boolean(true)).unwrap();
    process.set_register(2, Value::Boolean(false)).unwrap();

    let instruction = new_instruction(InstructionType::RunBlock, vec![4, 0, 1, 2]);

    let result = run_block(&mut process, &instruction);

    assert!(result.is_ok());

    let binding = process.binding().unwrap();
    assert_eq!(binding.locals().len(), 2);
    assert!(binding.get_local(0).unwrap() == &Value::Boolean(true));
    assert!(binding.get_local(1).unwrap() == &Value::Boolean(false));
}

#[test]
fn test_with_rest_argument() {
    let mut process = setup_with(2, 0, true);
    process.set_register(1, Value::Boolean(true)).unwrap();
    process
        .set_register(
            2,
            Value::Array(vec![Value::Boolean(true), Value::Boolean(false)]),
        )
        .unwrap();

    let instruction = new_instruction(InstructionType::RunBlock, vec![5, 0, 1, 2]);

    let result = run_block(&mut process, &instruction);

    assert!(result.is_ok());

    // Both fixed parameters are bound positionally; the rest local holds
    // the empty sequence, never an absent value.
    let binding = process.binding().unwrap();
    assert_eq!(binding.locals().len(), 3);
    assert!(binding.get_local(0).unwrap() == &Value::Boolean(true));
    assert!(
        binding.get_local(1).unwrap()
            == &Value::Array(vec![Value::Boolean(true), Value::Boolean(false)])
    );
    assert!(binding.get_local(2).unwrap() == &Value::Array(Vec::new()));
}

#[test]
fn test_rest_argument_takes_surplus() {
    let mut process = setup_with(1, 0, true);
    process.set_register(1, Value::Integer(10)).unwrap();
    process.set_register(2, Value::Integer(20)).unwrap();
    process.set_register(3, Value::Integer(30)).unwrap();

    let instruction = new_instruction(InstructionType::RunBlock, vec![4, 0, 1, 2, 3]);

    let result = run_block(&mut process, &instruction);

    assert!(result.is_ok());

    let binding = process.binding().unwrap();
    assert_eq!(binding.locals().len(), 2);
    assert!(binding.get_local(0).unwrap() == &Value::Integer(10));
    assert!(
        binding.get_local(1).unwrap()
            == &Value::Array(vec![Value::Integer(20), Value::Integer(30)])
    );
}

#[test]
fn test_with_rest_argument_splatted() {
    // `run_block_with_rest` unpacks the trailing sequence argument before
    // running the ordinary protocol.
    let mut process = setup_with(2, 0, true);
    process.set_register(1, Value::Integer(1)).unwrap();
    process
        .set_register(
            2,
            Value::Array(vec![Value::Integer(2), Value::Integer(3)]),
        )
        .unwrap();

    let instruction = new_instruction(InstructionType::RunBlockWithRest, vec![5, 0, 1, 2]);

    let result = run_block_with_rest(&mut process, &instruction);

    assert!(result.is_ok());

    let binding = process.binding().unwrap();
    assert_eq!(binding.locals().len(), 3);
    assert!(binding.get_local(0).unwrap() == &Value::Integer(1));
    assert!(binding.get_local(1).unwrap() == &Value::Integer(2));
    assert!(binding.get_local(2).unwrap() == &Value::Array(vec![Value::Integer(3)]));
}

#[test]
fn test_failure_leaves_registers_unchanged() {
    let mut process = setup_with(0, 0, false);
    process.set_register(1, Value::Integer(7)).unwrap();

    let instruction = new_instruction(InstructionType::RunBlock, vec![3, 0, 1]);

    let result = run_block(&mut process, &instruction);

    assert!(result.is_err());
    assert_eq!(process.context_count(), 1);
    assert!(process.get_register(1).unwrap() == Value::Integer(7));
}

#[test]
fn test_invalid_block_register() {
    let mut process = setup_with(0, 0, false);
    process.set_register(1, Value::Integer(7)).unwrap();

    // Register 1 holds an integer, not a block.
    let instruction = new_instruction(InstructionType::RunBlock, vec![2, 1]);

    let result = run_block(&mut process, &instruction);

    assert_eq!(result.unwrap_err(), RunError::InternalInvariantViolation);
    assert_eq!(process.context_count(), 1);
}

#[test]
fn test_return_writes_destination_register() {
    // The destination register of an invocation is written only when the
    // invoked context returns a value to its caller.
    let mut process = setup_with(0, 0, false);

    let instruction = new_instruction(InstructionType::RunBlock, vec![7, 0]);
    run_block(&mut process, &instruction).unwrap();

    assert!(process.get_register(7).is_err());

    process.set_register(3, Value::Integer(42)).unwrap();
    let ret = new_instruction(InstructionType::Return, vec![3]);
    let result = return_instruction(&mut process, &ret);

    assert_eq!(result.unwrap(), vm_core::action::Action::Return);
    assert_eq!(process.context_count(), 1);
    assert!(process.get_register(7).unwrap() == Value::Integer(42));
}

#[test]
fn test_finish_last_context_terminates() {
    let spawn = Block::new(code_with(0, 0, false), 0, 0);
    let mut process = Process::new(0, true, &spawn);

    let result = finish_context(&mut process, Value::Nil);

    assert_eq!(result.unwrap(), vm_core::action::Action::Terminate);
    assert_eq!(process.context_count(), 0);
    assert!(matches!(
        process.status,
        vm_core::process::ProcessStatus::Terminated
    ));
}
