//! The bytecode file registry and the file-cache instructions.
use vm_core::block::Block;
use vm_core::code_execution::{file_parsed, parse_file};
use vm_core::compiled_code::CompiledCode;
use vm_core::error::RunError;
use vm_core::instruction::{Instruction, InstructionType};
use vm_core::process::Process;
use vm_core::registry::BytecodeFileRegistry;
use vm_core::value::Value;

fn compiled(name: &str) -> CompiledCode {
    CompiledCode::new(name.to_string(), 0, 0, false, 0, Vec::new())
}

fn registry_with(paths: &[&str]) -> BytecodeFileRegistry {
    let mut sources = Vec::new();
    for path in paths {
        sources.push((path.to_string(), compiled(path)));
    }
    BytecodeFileRegistry::new(sources)
}

fn process() -> Process {
    let spawn = Block::new(compiled("main"), 0, 0);
    Process::new(0, true, &spawn)
}

#[test]
fn test_get_or_set_idempotent() {
    // Two calls for one path return the identical compiled code and the
    // second call re-parses nothing.
    let mut registry = registry_with(&["a.bc"]);
    let path = "a.bc".to_string();

    assert!(!registry.contains_path(&path));

    let first = registry.get_or_set(&path).unwrap();
    assert!(registry.contains_path(&path));

    let second = registry.get_or_set(&path).unwrap();
    assert!(first == second);
    assert_eq!(second.name, "a.bc");
}

#[test]
fn test_get_or_set_missing_path() {
    let mut registry = registry_with(&["a.bc"]);
    let path = "missing.bc".to_string();

    let result = registry.get_or_set(&path);

    assert_eq!(result.unwrap_err(), RunError::LoadError);
    // A failed load leaves the registry unchanged, so a retry is possible.
    assert!(!registry.contains_path(&path));
}

#[test]
fn test_contains_path_never_populates() {
    let mut registry = registry_with(&["a.bc"]);
    let path = "a.bc".to_string();

    assert!(!registry.contains_path(&path));
    assert!(!registry.contains_path(&path));

    registry.get_or_set(&path).unwrap();
    assert!(registry.contains_path(&path));
}

#[test]
fn test_parse_file_writes_block() {
    let mut registry = registry_with(&["a.bc"]);
    let mut process = process();
    process.set_register(1, Value::Str("a.bc".to_string())).unwrap();

    let instruction = Instruction::new(InstructionType::ParseFile, vec![2, 1], 1, 1);
    let result = parse_file(&mut registry, &mut process, &instruction);

    assert!(result.is_ok());
    assert!(registry.contains_path(&"a.bc".to_string()));
    match process.get_register(2).unwrap() {
        Value::Block(block) => {
            assert_eq!(block.name().as_str(), "a.bc");
            assert_eq!(block.arguments(), 0);
        },
        other => panic!("expected a block, found {:?}", other),
    }
}

#[test]
fn test_parse_file_missing_path() {
    let mut registry = registry_with(&[]);
    let mut process = process();
    process.set_register(1, Value::Str("a.bc".to_string())).unwrap();

    let instruction = Instruction::new(InstructionType::ParseFile, vec![2, 1], 1, 1);
    let result = parse_file(&mut registry, &mut process, &instruction);

    assert_eq!(result.unwrap_err(), RunError::LoadError);
    assert!(process.get_register(2).is_err());
}

#[test]
fn test_parse_file_non_string_path() {
    let mut registry = registry_with(&["a.bc"]);
    let mut process = process();
    process.set_register(1, Value::Integer(3)).unwrap();

    let instruction = Instruction::new(InstructionType::ParseFile, vec![2, 1], 1, 1);
    let result = parse_file(&mut registry, &mut process, &instruction);

    assert_eq!(result.unwrap_err(), RunError::InternalInvariantViolation);
}

#[test]
fn test_file_parsed_reports_membership() {
    let mut registry = registry_with(&["a.bc"]);
    let mut process = process();
    process.set_register(1, Value::Str("a.bc".to_string())).unwrap();

    let check = Instruction::new(InstructionType::FileParsed, vec![2, 1], 1, 1);

    file_parsed(&registry, &mut process, &check).unwrap();
    assert!(process.get_register(2).unwrap() == Value::Boolean(false));

    let load = Instruction::new(InstructionType::ParseFile, vec![3, 1], 1, 1);
    parse_file(&mut registry, &mut process, &load).unwrap();

    file_parsed(&registry, &mut process, &check).unwrap();
    assert!(process.get_register(2).unwrap() == Value::Boolean(true));
}
