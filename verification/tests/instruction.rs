//! Instruction construction and operand access.
use vm_core::instruction::{Instruction, InstructionType};

#[test]
fn test_instruction_new() {
    let ins = Instruction::new(InstructionType::SetInteger, vec![1, 2], 3, 4);

    assert_eq!(ins.instruction_type, InstructionType::SetInteger);
    assert_eq!(ins.arguments, vec![1, 2]);
    assert_eq!(ins.line, 3);
    assert_eq!(ins.column, 4);
}

#[test]
fn test_instruction_arg() {
    let ins = Instruction::new(InstructionType::GetLocal, vec![7, 9], 1, 1);

    assert_eq!(ins.arg(0), Some(7));
    assert_eq!(ins.arg(1), Some(9));
    assert_eq!(ins.arg(2), None);
}
