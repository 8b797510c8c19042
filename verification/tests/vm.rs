use loaf::bytecode::{BytecodeModule, Constant, Instruction};
use loaf::execution_context::{ExceptionHandler, ExecutionContext, HandlerType, VMError};
use loaf::interpreter::VM;
use loaf::memory::MemoryManager;
use loaf::opcode::OpCode;
use loaf::value::Value;

fn create_test_vm() -> VM {
    VM::new(MemoryManager::new())
}

fn create_test_module_with_instructions(
    instructions: Vec<Instruction>,
    constants: Vec<Constant>,
) -> BytecodeModule {
    let mut code_page = Vec::new();
    let mut address_map = Vec::new();
    let mut address = 0u32;

    // Build code_page and address_map from instructions
    for (idx, instruction) in instructions.iter().enumerate() {
        address_map.push((address, idx));

        // Add opcode byte
        code_page.push(instruction.opcode.to_byte());
        address += 1;

        // Add operand bytes (each operand is 4 bytes in big-endian format)
        for operand in &instruction.operands {
            code_page.push((*operand >> 24) as u8);
            code_page.push((*operand >> 16) as u8);
            code_page.push((*operand >> 8) as u8);
            code_page.push(*operand as u8);
            address += 4;
        }
    }

    BytecodeModule {
        name: "test_module".to_string(),
        instructions,
        constants,
        code_page,
        address_map,
    }
}

fn assert_value_equals(actual: &Value, expected: &Value) {
    match (actual, expected) {
        (Value::Null, Value::Null) => {},
        (Value::Integer(a), Value::Integer(b)) => assert_eq!(a, b),
        (Value::Float(a), Value::Float(b)) => assert_eq!(a, b),
        (Value::Boolean(a), Value::Boolean(b)) => assert_eq!(a, b),
        (Value::String(a), Value::String(b)) => assert_eq!(a, b),
        (Value::Array(a), Value::Array(b)) => {
            assert_eq!(a.len(), b.len());
            for (av, bv) in a.iter().zip(b.iter()) {
                assert_value_equals(av, bv);
            }
        },
        (Value::HeapId(a), Value::HeapId(b)) => assert_eq!(a, b),
        (Value::ProgramCounter(a), Value::ProgramCounter(b)) => assert_eq!(a, b),
        _ => panic!("Values do not match: {:?} != {:?}", actual, expected),
    }
}

#[test]
fn test_vm_creation() {
    let vm = create_test_vm();
    assert_eq!(vm.modules.len(), 0);
    assert!(!vm.stack_trace_enabled);
}

#[test]
fn test_load_module() {
    let mut vm = create_test_vm();
    let module = create_test_module_with_instructions(vec![], vec![]);

    vm.load_module(module);
    assert_eq!(vm.modules.len(), 1);
    assert_eq!(vm.modules[0].0, "test_module");
}

#[test]
fn test_execute_module_not_found() {
    let mut vm = create_test_vm();
    let result = vm.execute_module("nonexistent");

    match result {
        Err(VMError::RuntimeError(msg)) => {
            assert!(msg.contains("Module 'nonexistent' not found"));
        },
        _ => panic!("Expected RuntimeError for missing module"),
    }
}

#[test]
fn test_halt_instruction() {
    let mut vm = create_test_vm();
    let instructions = vec![
        Instruction { opcode: OpCode::Push, operands: vec![0] },
        Instruction { opcode: OpCode::Halt, operands: vec![] },
    ];
    let constants = vec![Constant::Integer(42)];
    let module = create_test_module_with_instructions(instructions, constants);

    vm.load_module(module);
    let result = vm.execute_module("test_module").unwrap();

    assert_value_equals(&result, &Value::Integer(42));
}

#[test]
fn test_halt_empty_stack() {
    let mut vm = create_test_vm();
    let instructions = vec![
        Instruction { opcode: OpCode::Halt, operands: vec![] },
    ];
    let module = create_test_module_with_instructions(instructions, vec![]);

    vm.load_module(module);
    let result = vm.execute_module("test_module").unwrap();

    assert_value_equals(&result, &Value::Null);
}

#[test]
fn test_push_and_pop() {
    let mut vm = create_test_vm();
    let instructions = vec![
        Instruction { opcode: OpCode::Push, operands: vec![0] },
        Instruction { opcode: OpCode::Pop, operands: vec![] },
        Instruction { opcode: OpCode::Halt, operands: vec![] },
    ];
    let constants = vec![Constant::String("test".to_string())];
    let module = create_test_module_with_instructions(instructions, constants);

    vm.load_module(module);
    let result = vm.execute_module("test_module").unwrap();

    assert_value_equals(&result, &Value::Null);
}

#[test]
fn test_dup_instruction() {
    let mut vm = create_test_vm();
    let instructions = vec![
        Instruction { opcode: OpCode::Push, operands: vec![0] },
        Instruction { opcode: OpCode::Dup, operands: vec![] },
        Instruction { opcode: OpCode::Pop, operands: vec![] },
        Instruction { opcode: OpCode::Halt, operands: vec![] },
    ];
    let constants = vec![Constant::Integer(123)];
    let module = create_test_module_with_instructions(instructions, constants);

    vm.load_module(module);
    let result = vm.execute_module("test_module").unwrap();

    assert_value_equals(&result, &Value::Integer(123));
}

#[test]
fn test_swap_instruction() {
    let mut vm = create_test_vm();
    let instructions = vec![
        Instruction { opcode: OpCode::Push, operands: vec![0] },
        Instruction { opcode: OpCode::Push, operands: vec![1] },
        Instruction { opcode: OpCode::Swap, operands: vec![] },
        Instruction { opcode: OpCode::Halt, operands: vec![] },
    ];
    let constants = vec![Constant::Integer(1), Constant::Integer(2)];
    let module = create_test_module_with_instructions(instructions, constants);

    vm.load_module(module);
    let result = vm.execute_module("test_module").unwrap();

    assert_value_equals(&result, &Value::Integer(1));
}

#[test]
fn test_add_integers() {
    let mut vm = create_test_vm();
    let instructions = vec![
        Instruction { opcode: OpCode::Push, operands: vec![0] },
        Instruction { opcode: OpCode::Push, operands: vec![1] },
        Instruction { opcode: OpCode::Add, operands: vec![] },
        Instruction { opcode: OpCode::Halt, operands: vec![] },
    ];
    let constants = vec![Constant::Integer(5), Constant::Integer(3)];
    let module = create_test_module_with_instructions(instructions, constants);

    vm.load_module(module);
    let result = vm.execute_module("test_module").unwrap();

    assert_value_equals(&result, &Value::Integer(8));
}

#[test]
fn test_add_floats() {
    let mut vm = create_test_vm();
    let instructions = vec![
        Instruction { opcode: OpCode::Push, operands: vec![0] },
        Instruction { opcode: OpCode::Push, operands: vec![1] },
        Instruction { opcode: OpCode::Add, operands: vec![] },
        Instruction { opcode: OpCode::Halt, operands: vec![] },
    ];
    let constants = vec![
        Constant::Float(2.5f64.to_bits()),
        Constant::Float(1.5f64.to_bits()),
    ];
    let module = create_test_module_with_instructions(instructions, constants);

    vm.load_module(module);
    let result = vm.execute_module("test_module").unwrap();

    assert_value_equals(&result, &Value::Float(4.0f64.to_bits()));
}

#[test]
fn test_add_mixed_types() {
    let mut vm = create_test_vm();
    let instructions = vec![
        Instruction { opcode: OpCode::Push, operands: vec![0] },
        Instruction { opcode: OpCode::Push, operands: vec![1] },
        Instruction { opcode: OpCode::Add, operands: vec![] },
        Instruction { opcode: OpCode::Halt, operands: vec![] },
    ];
    let constants = vec![Constant::Integer(3), Constant::Float(2.5f64.to_bits())];
    let module = create_test_module_with_instructions(instructions, constants);

    vm.load_module(module);
    let result = vm.execute_module("test_module").unwrap();

    assert_value_equals(&result, &Value::Float(5.5f64.to_bits()));
}

#[test]
fn test_add_strings() {
    let mut vm = create_test_vm();
    let instructions = vec![
        Instruction { opcode: OpCode::Push, operands: vec![0] },
        Instruction { opcode: OpCode::Push, operands: vec![1] },
        Instruction { opcode: OpCode::Add, operands: vec![] },
        Instruction { opcode: OpCode::Halt, operands: vec![] },
    ];
    let constants = vec![
        Constant::String("Hello".to_string()),
        Constant::String(" World".to_string()),
    ];
    let module = create_test_module_with_instructions(instructions, constants);

    vm.load_module(module);
    let result = vm.execute_module("test_module").unwrap();

    assert_value_equals(&result, &Value::String("Hello World".to_string()));
}

#[test]
fn test_add_incompatible_types() {
    let mut vm = create_test_vm();
    let instructions = vec![
        Instruction { opcode: OpCode::Push, operands: vec![0] },
        Instruction { opcode: OpCode::Push, operands: vec![1] },
        Instruction { opcode: OpCode::Add, operands: vec![] },
        Instruction { opcode: OpCode::Halt, operands: vec![] },
    ];
    let constants = vec![Constant::Integer(5), Constant::Boolean(true)];
    let module = create_test_module_with_instructions(instructions, constants);

    vm.load_module(module);
    let result = vm.execute_module("test_module");

    match result {
        Err(VMError::TypeError(msg)) => {
            assert!(msg.contains("Cannot add"));
        },
        _ => panic!("Expected TypeError for incompatible types"),
    }
}

#[test]
fn test_sub_integers() {
    let mut vm = create_test_vm();
    let instructions = vec![
        Instruction { opcode: OpCode::Push, operands: vec![0] },
        Instruction { opcode: OpCode::Push, operands: vec![1] },
        Instruction { opcode: OpCode::Sub, operands: vec![] },
        Instruction { opcode: OpCode::Halt, operands: vec![] },
    ];
    let constants = vec![Constant::Integer(10), Constant::Integer(3)];
    let module = create_test_module_with_instructions(instructions, constants);

    vm.load_module(module);
    let result = vm.execute_module("test_module").unwrap();

    assert_value_equals(&result, &Value::Integer(7));
}

#[test]
fn test_mul_integers() {
    let mut vm = create_test_vm();
    let instructions = vec![
        Instruction { opcode: OpCode::Push, operands: vec![0] },
        Instruction { opcode: OpCode::Push, operands: vec![1] },
        Instruction { opcode: OpCode::Mul, operands: vec![] },
        Instruction { opcode: OpCode::Halt, operands: vec![] },
    ];
    let constants = vec![Constant::Integer(4), Constant::Integer(3)];
    let module = create_test_module_with_instructions(instructions, constants);

    vm.load_module(module);
    let result = vm.execute_module("test_module").unwrap();

    assert_value_equals(&result, &Value::Integer(12));
}

#[test]
fn test_div_integers() {
    let mut vm = create_test_vm();
    let instructions = vec![
        Instruction { opcode: OpCode::Push, operands: vec![0] },
        Instruction { opcode: OpCode::Push, operands: vec![1] },
        Instruction { opcode: OpCode::Div, operands: vec![] },
        Instruction { opcode: OpCode::Halt, operands: vec![] },
    ];
    let constants = vec![Constant::Integer(10), Constant::Integer(3)];
    let module = create_test_module_with_instructions(instructions, constants);

    vm.load_module(module);
    let result = vm.execute_module("test_module").unwrap();

    // Division pushes remainder first, then quotient
    assert_value_equals(&result, &Value::Integer(3)); // quotient
}

#[test]
fn division_pushes_remainder_beneath_quotient() {
    // Source emits Push 10, Push 3, Div, Halt: final stack top is the
    // quotient 3, and the element beneath it is the remainder 1.
    let mut vm = create_test_vm();
    let instructions = vec![
        Instruction { opcode: OpCode::Push, operands: vec![0] },
        Instruction { opcode: OpCode::Push, operands: vec![1] },
        Instruction { opcode: OpCode::Div, operands: vec![] },
        Instruction { opcode: OpCode::Halt, operands: vec![] },
    ];
    let constants = vec![Constant::Integer(10), Constant::Integer(3)];
    let module = create_test_module_with_instructions(instructions, constants);
    vm.load_module(module);
    let result = vm.execute_module("test_module").unwrap();
    assert_value_equals(&result, &Value::Integer(3));

    // The element beneath the quotient: drop the quotient, then halt.
    let mut vm2 = create_test_vm();
    let instructions2 = vec![
        Instruction { opcode: OpCode::Push, operands: vec![0] },
        Instruction { opcode: OpCode::Push, operands: vec![1] },
        Instruction { opcode: OpCode::Div, operands: vec![] },
        Instruction { opcode: OpCode::Pop, operands: vec![] },
        Instruction { opcode: OpCode::Halt, operands: vec![] },
    ];
    let constants2 = vec![Constant::Integer(10), Constant::Integer(3)];
    let module2 = create_test_module_with_instructions(instructions2, constants2);
    vm2.load_module(module2);
    let beneath = vm2.execute_module("test_module").unwrap();
    assert_value_equals(&beneath, &Value::Integer(1));
}

#[test]
fn test_div_by_zero() {
    let mut vm = create_test_vm();
    let instructions = vec![
        Instruction { opcode: OpCode::Push, operands: vec![0] },
        Instruction { opcode: OpCode::Push, operands: vec![1] },
        Instruction { opcode: OpCode::Div, operands: vec![] },
        Instruction { opcode: OpCode::Halt, operands: vec![] },
    ];
    let constants = vec![Constant::Integer(10), Constant::Integer(0)];
    let module = create_test_module_with_instructions(instructions, constants);

    vm.load_module(module);
    let result = vm.execute_module("test_module");

    match result {
        Err(VMError::DivisionByZero) => {},
        _ => panic!("Expected DivisionByZero error"),
    }
}

#[test]
fn test_neg_integer() {
    let mut vm = create_test_vm();
    let instructions = vec![
        Instruction { opcode: OpCode::Push, operands: vec![0] },
        Instruction { opcode: OpCode::Neg, operands: vec![] },
        Instruction { opcode: OpCode::Halt, operands: vec![] },
    ];
    let constants = vec![Constant::Integer(42)];
    let module = create_test_module_with_instructions(instructions, constants);

    vm.load_module(module);
    let result = vm.execute_module("test_module").unwrap();

    assert_value_equals(&result, &Value::Integer(-42));
}

#[test]
fn test_bitwise_and() {
    let mut vm = create_test_vm();
    let instructions = vec![
        Instruction { opcode: OpCode::Push, operands: vec![0] },
        Instruction { opcode: OpCode::Push, operands: vec![1] },
        Instruction { opcode: OpCode::BitAnd, operands: vec![] },
        Instruction { opcode: OpCode::Halt, operands: vec![] },
    ];
    let constants = vec![Constant::Integer(0b1010), Constant::Integer(0b1100)];
    let module = create_test_module_with_instructions(instructions, constants);

    vm.load_module(module);
    let result = vm.execute_module("test_module").unwrap();

    assert_value_equals(&result, &Value::Integer(0b1000));
}

#[test]
fn test_logical_and_true() {
    let mut vm = create_test_vm();
    let instructions = vec![
        Instruction { opcode: OpCode::Push, operands: vec![0] },
        Instruction { opcode: OpCode::Push, operands: vec![1] },
        Instruction { opcode: OpCode::And, operands: vec![] },
        Instruction { opcode: OpCode::Halt, operands: vec![] },
    ];
    let constants = vec![Constant::Boolean(true), Constant::Boolean(true)];
    let module = create_test_module_with_instructions(instructions, constants);

    vm.load_module(module);
    let result = vm.execute_module("test_module").unwrap();

    assert_value_equals(&result, &Value::Boolean(true));
}

#[test]
fn test_logical_and_false() {
    let mut vm = create_test_vm();
    let instructions = vec![
        Instruction { opcode: OpCode::Push, operands: vec![0] },
        Instruction { opcode: OpCode::Push, operands: vec![1] },
        Instruction { opcode: OpCode::And, operands: vec![] },
        Instruction { opcode: OpCode::Halt, operands: vec![] },
    ];
    let constants = vec![Constant::Boolean(true), Constant::Boolean(false)];
    let module = create_test_module_with_instructions(instructions, constants);

    vm.load_module(module);
    let result = vm.execute_module("test_module").unwrap();

    assert_value_equals(&result, &Value::Boolean(false));
}

#[test]
fn test_equality_same_types() {
    let mut vm = create_test_vm();
    let instructions = vec![
        Instruction { opcode: OpCode::Push, operands: vec![0] },
        Instruction { opcode: OpCode::Push, operands: vec![1] },
        Instruction { opcode: OpCode::Eq, operands: vec![] },
        Instruction { opcode: OpCode::Halt, operands: vec![] },
    ];
    let constants = vec![Constant::Integer(42), Constant::Integer(42)];
    let module = create_test_module_with_instructions(instructions, constants);

    vm.load_module(module);
    let result = vm.execute_module("test_module").unwrap();

    assert_value_equals(&result, &Value::Boolean(true));
}

#[test]
fn test_equality_different_types() {
    let mut vm = create_test_vm();
    let instructions = vec![
        Instruction { opcode: OpCode::Push, operands: vec![0] },
        Instruction { opcode: OpCode::Push, operands: vec![1] },
        Instruction { opcode: OpCode::Eq, operands: vec![] },
        Instruction { opcode: OpCode::Halt, operands: vec![] },
    ];
    let constants = vec![Constant::Integer(42), Constant::String("42".to_string())];
    let module = create_test_module_with_instructions(instructions, constants);

    vm.load_module(module);
    let result = vm.execute_module("test_module").unwrap();

    assert_value_equals(&result, &Value::Boolean(false));
}

#[test]
fn test_comparison_less_than() {
    let mut vm = create_test_vm();
    let instructions = vec![
        Instruction { opcode: OpCode::Push, operands: vec![0] },
        Instruction { opcode: OpCode::Push, operands: vec![1] },
        Instruction { opcode: OpCode::Lt, operands: vec![] },
        Instruction { opcode: OpCode::Halt, operands: vec![] },
    ];
    let constants = vec![Constant::Integer(5), Constant::Integer(10)];
    let module = create_test_module_with_instructions(instructions, constants);

    vm.load_module(module);
    let result = vm.execute_module("test_module").unwrap();

    assert_value_equals(&result, &Value::Boolean(true));
}

#[test]
fn test_jump_instruction() {
    let mut vm = create_test_vm();
    let instructions = vec![
        Instruction { opcode: OpCode::Jump, operands: vec![3] }, // Jump to instruction 3
        Instruction { opcode: OpCode::Push, operands: vec![0] }, // Skipped
        Instruction { opcode: OpCode::Push, operands: vec![0] }, // Skipped
        Instruction { opcode: OpCode::Push, operands: vec![1] }, // Execute this
        Instruction { opcode: OpCode::Halt, operands: vec![] },
    ];
    let constants = vec![Constant::Integer(1), Constant::Integer(42)];
    let module = create_test_module_with_instructions(instructions, constants);

    vm.load_module(module);
    let result = vm.execute_module("test_module").unwrap();

    assert_value_equals(&result, &Value::Integer(42));
}

#[test]
fn test_jump_if_true() {
    let mut vm = create_test_vm();
    let instructions = vec![
        Instruction { opcode: OpCode::Push, operands: vec![0] }, // Push true
        Instruction { opcode: OpCode::JumpIf, operands: vec![4] }, // Jump to instruction 4 if true
        Instruction { opcode: OpCode::Push, operands: vec![1] }, // Skipped
        Instruction { opcode: OpCode::Halt, operands: vec![] }, // Skipped
        Instruction { opcode: OpCode::Push, operands: vec![2] }, // Execute this
        Instruction { opcode: OpCode::Halt, operands: vec![] },
    ];
    let constants = vec![Constant::Boolean(true), Constant::Integer(1), Constant::Integer(42)];
    let module = create_test_module_with_instructions(instructions, constants);

    vm.load_module(module);
    let result = vm.execute_module("test_module").unwrap();

    assert_value_equals(&result, &Value::Integer(42));
}

#[test]
fn test_jump_if_false() {
    let mut vm = create_test_vm();
    let instructions = vec![
        Instruction { opcode: OpCode::Push, operands: vec![0] }, // Push false
        Instruction { opcode: OpCode::JumpIf, operands: vec![4] }, // Don't jump
        Instruction { opcode: OpCode::Push, operands: vec![1] }, // Execute this
        Instruction { opcode: OpCode::Halt, operands: vec![] },
        Instruction { opcode: OpCode::Push, operands: vec![2] }, // Not executed
        Instruction { opcode: OpCode::Halt, operands: vec![] },
    ];
    let constants = vec![Constant::Boolean(false), Constant::Integer(1), Constant::Integer(42)];
    let module = create_test_module_with_instructions(instructions, constants);

    vm.load_module(module);
    let result = vm.execute_module("test_module").unwrap();

    assert_value_equals(&result, &Value::Integer(1));
}

#[test]
fn test_pop_instruction_stack_underflow() {
    let mut vm = create_test_vm();
    let instructions = vec![
        Instruction { opcode: OpCode::Pop, operands: vec![] }, // Pop from empty stack
        Instruction { opcode: OpCode::Halt, operands: vec![] },
    ];
    let module = create_test_module_with_instructions(instructions, vec![]);

    vm.load_module(module);
    let result = vm.execute_module("test_module");

    match result {
        Err(VMError::StackUnderflow) => {},
        _ => panic!("Expected StackUnderflow error"),
    }
}

#[test]
fn test_invalid_program_counter() {
    let mut vm = create_test_vm();
    let instructions = vec![
        Instruction { opcode: OpCode::Jump, operands: vec![100] }, // Jump out of bounds
        Instruction { opcode: OpCode::Halt, operands: vec![] },
    ];
    let module = create_test_module_with_instructions(instructions, vec![]);

    vm.load_module(module);
    let result = vm.execute_module("test_module");

    match result {
        Err(VMError::InvalidProgramCounter(100)) => {},
        _ => panic!("Expected InvalidProgramCounter error"),
    }
}

#[test]
fn test_set_stack_trace() {
    let mut vm = create_test_vm();
    vm.set_stack_trace(true);
    assert!(vm.stack_trace_enabled);

    vm.set_stack_trace(false);
    assert!(!vm.stack_trace_enabled);
}

#[test]
fn test_nop_instruction() {
    let mut vm = create_test_vm();
    let instructions = vec![
        Instruction { opcode: OpCode::Push, operands: vec![0] },
        Instruction { opcode: OpCode::Nop, operands: vec![] }, // Should do nothing
        Instruction { opcode: OpCode::Halt, operands: vec![] },
    ];
    let constants = vec![Constant::Integer(42)];
    let module = create_test_module_with_instructions(instructions, constants);

    vm.load_module(module);
    let result = vm.execute_module("test_module").unwrap();

    assert_value_equals(&result, &Value::Integer(42));
}

#[test]
fn test_create_array() {
    let mut vm = create_test_vm();
    let instructions = vec![
        Instruction { opcode: OpCode::Push, operands: vec![0] },
        Instruction { opcode: OpCode::Push, operands: vec![1] },
        Instruction { opcode: OpCode::Push, operands: vec![2] },
        Instruction { opcode: OpCode::NewArray, operands: vec![3] },
        Instruction { opcode: OpCode::Halt, operands: vec![] },
    ];
    let constants = vec![Constant::Integer(1), Constant::Integer(2), Constant::Integer(3)];
    let module = create_test_module_with_instructions(instructions, constants);

    vm.load_module(module);
    let result = vm.execute_module("test_module").unwrap();

    match result {
        Value::Array(arr) => {
            assert_eq!(arr.len(), 3);
            assert_value_equals(&arr[0], &Value::Integer(1));
            assert_value_equals(&arr[1], &Value::Integer(2));
            assert_value_equals(&arr[2], &Value::Integer(3));
        },
        _ => panic!("Expected array result"),
    }
}

#[test]
fn test_array_length() {
    let mut vm = create_test_vm();
    let instructions = vec![
        Instruction { opcode: OpCode::Push, operands: vec![0] },
        Instruction { opcode: OpCode::Push, operands: vec![1] },
        Instruction { opcode: OpCode::NewArray, operands: vec![2] },
        Instruction { opcode: OpCode::ArrayLength, operands: vec![] },
        Instruction { opcode: OpCode::Halt, operands: vec![] },
    ];
    let constants = vec![Constant::Integer(1), Constant::Integer(2)];
    let module = create_test_module_with_instructions(instructions, constants);

    vm.load_module(module);
    let result = vm.execute_module("test_module").unwrap();

    assert_value_equals(&result, &Value::Integer(2));
}

#[test]
fn exception_caught_and_finalized() {
    // A try whose body throws; the catch observes the exception, control
    // flows through the finally, and execution continues past EndTry to the
    // following Halt.
    let mut vm = create_test_vm();
    let instructions = vec![
        /* 0 */ Instruction { opcode: OpCode::TryBlock, operands: vec![5, 8, 11] },
        /* 1 */ Instruction { opcode: OpCode::Push, operands: vec![0] }, // "DivisionByZero"
        /* 2 */ Instruction { opcode: OpCode::Push, operands: vec![1] }, // message
        /* 3 */ Instruction { opcode: OpCode::NewArray, operands: vec![2] },
        /* 4 */ Instruction { opcode: OpCode::Throw, operands: vec![] },
        /* 5 */ Instruction { opcode: OpCode::CatchBlock, operands: vec![] },
        /* 6 */ Instruction { opcode: OpCode::Print, operands: vec![] }, // print the exception
        /* 7 */ Instruction { opcode: OpCode::Nop, operands: vec![] },
        /* 8 */ Instruction { opcode: OpCode::FinallyBlock, operands: vec![] },
        /* 9 */ Instruction { opcode: OpCode::Push, operands: vec![2] }, // finally marker
        /* 10 */ Instruction { opcode: OpCode::Print, operands: vec![] },
        /* 11 */ Instruction { opcode: OpCode::EndTry, operands: vec![] },
        /* 12 */ Instruction { opcode: OpCode::Push, operands: vec![3] },
        /* 13 */ Instruction { opcode: OpCode::Halt, operands: vec![] },
    ];
    let constants = vec![
        Constant::String("DivisionByZero".to_string()),
        Constant::String("attempt to divide by zero".to_string()),
        Constant::String("made it to the finally block".to_string()),
        Constant::Integer(42),
    ];
    let module = create_test_module_with_instructions(instructions, constants);

    vm.load_module(module);
    let result = vm.execute_module("test_module").unwrap();
    assert_value_equals(&result, &Value::Integer(42));
}

#[test]
fn thrown_exception_carries_type_from_array() {
    // Throw of a two-element array takes the first element as the exception
    // type; the catch receives the exception value on the stack.
    let mut vm = create_test_vm();
    let instructions = vec![
        /* 0 */ Instruction { opcode: OpCode::TryBlock, operands: vec![5, 7, 7] },
        /* 1 */ Instruction { opcode: OpCode::Push, operands: vec![0] },
        /* 2 */ Instruction { opcode: OpCode::Push, operands: vec![1] },
        /* 3 */ Instruction { opcode: OpCode::NewArray, operands: vec![2] },
        /* 4 */ Instruction { opcode: OpCode::Throw, operands: vec![] },
        /* 5 */ Instruction { opcode: OpCode::CatchBlock, operands: vec![] },
        /* 6 */ Instruction { opcode: OpCode::Halt, operands: vec![] }, // exception on top
        /* 7 */ Instruction { opcode: OpCode::FinallyBlock, operands: vec![] },
    ];
    let constants = vec![
        Constant::String("DivisionByZero".to_string()),
        Constant::String("attempt to divide by zero".to_string()),
    ];
    let module = create_test_module_with_instructions(instructions, constants);
    vm.load_module(module);
    let result = vm.execute_module("test_module").unwrap();
    match result {
        Value::Exception(data) => {
            assert_eq!(data.exception_type, "DivisionByZero");
            assert_eq!(data.message, "attempt to divide by zero");
        },
        other => panic!("Expected an exception value, got {:?}", other),
    }
}

#[test]
fn unhandled_exception_terminates_execution() {
    // With no frame covering the throw, execution terminates with the
    // exception rendered in the error.
    let mut vm = create_test_vm();
    let instructions = vec![
        Instruction { opcode: OpCode::Push, operands: vec![0] },
        Instruction { opcode: OpCode::Throw, operands: vec![] },
        Instruction { opcode: OpCode::Halt, operands: vec![] },
    ];
    let constants = vec![Constant::String("boom".to_string())];
    let module = create_test_module_with_instructions(instructions, constants);
    vm.load_module(module);
    let result = vm.execute_module("test_module");
    match result {
        Err(VMError::RuntimeError(msg)) => {
            assert!(msg.contains("Unhandled exception"));
            assert!(msg.contains("boom"));
        },
        _ => panic!("Expected a runtime error for the unhandled exception"),
    }
}

#[test]
fn create_heap_opcode_pushes_fresh_id() {
    let mut vm = create_test_vm();
    let instructions = vec![
        Instruction { opcode: OpCode::CreateHeap, operands: vec![] },
        Instruction { opcode: OpCode::Halt, operands: vec![] },
    ];
    let module = create_test_module_with_instructions(instructions, vec![]);
    vm.load_module(module);
    let result = vm.execute_module("test_module").unwrap();
    // The default heap has id one; the first created heap gets id two.
    assert_value_equals(&result, &Value::HeapId(2));
}

#[test]
fn test_context_creation() {
    let instructions = vec![
        Instruction { opcode: OpCode::Push, operands: vec![0] },
        Instruction { opcode: OpCode::Halt, operands: vec![] },
    ];
    let constants = vec![Constant::Integer(42)];
    let module = create_test_module_with_instructions(instructions, constants);
    let context = ExecutionContext::new(module, MemoryManager::new());
    assert_eq!(context.pc(), 0);
    assert_eq!(context.stack_depth(), 0);
    assert!(context.has_more_instructions());
}

#[test]
fn test_stack_operations() {
    let module = create_test_module_with_instructions(vec![], vec![]);
    let mut context = ExecutionContext::new(module, MemoryManager::new());

    // Test push
    context.push(Value::Integer(10)).unwrap();
    assert_eq!(context.stack_depth(), 1);

    context.push(Value::String("test".to_string())).unwrap();
    assert_eq!(context.stack_depth(), 2);

    // Test peek
    let peeked = context.peek().unwrap();
    match peeked {
        Value::String(s) => assert_eq!(s, "test"),
        _ => panic!("Expected string value"),
    }
    assert_eq!(context.stack_depth(), 2); // Peek should not change stack size

    // Test pop
    let popped = context.pop().unwrap();
    match popped {
        Value::String(s) => assert_eq!(s, "test"),
        _ => panic!("Expected string value"),
    }
    assert_eq!(context.stack_depth(), 1);

    let popped2 = context.pop().unwrap();
    match popped2 {
        Value::Integer(i) => assert_eq!(i, 10),
        _ => panic!("Expected integer value"),
    }
    assert_eq!(context.stack_depth(), 0);
}

#[test]
fn test_stack_underflow() {
    let module = create_test_module_with_instructions(vec![], vec![]);
    let mut context = ExecutionContext::new(module, MemoryManager::new());

    // Try to pop from empty stack
    let result = context.pop();
    match result {
        Err(VMError::StackUnderflow) => {},
        _ => panic!("Expected StackUnderflow error"),
    }

    // Try to peek at empty stack
    let result = context.peek();
    match result {
        Err(VMError::StackUnderflow) => {},
        _ => panic!("Expected StackUnderflow error"),
    }
}

#[test]
fn test_local_variables() {
    let module = create_test_module_with_instructions(vec![], vec![]);
    let mut context = ExecutionContext::new(module, MemoryManager::new());

    // Store values in local variables
    context.store_local(0, Value::Integer(100)).unwrap();
    context.store_local(1, Value::String("hello".to_string())).unwrap();
    context.store_local(5, Value::Boolean(true)).unwrap(); // Test sparse storage

    // Load values from local variables
    let val0 = context.load_local(0).unwrap();
    match val0 {
        Value::Integer(i) => assert_eq!(i, 100),
        _ => panic!("Expected integer value"),
    }

    let val1 = context.load_local(1).unwrap();
    match val1 {
        Value::String(s) => assert_eq!(s, "hello"),
        _ => panic!("Expected string value"),
    }

    let val5 = context.load_local(5).unwrap();
    match val5 {
        Value::Boolean(b) => assert_eq!(b, true),
        _ => panic!("Expected boolean value"),
    }

    // Test that uninitialized locals return Null
    let val2 = context.load_local(2).unwrap();
    match val2 {
        Value::Null => {},
        _ => panic!("Expected null value for uninitialized local"),
    }
}

#[test]
fn test_invalid_local_index() {
    let module = create_test_module_with_instructions(vec![], vec![]);
    let context = ExecutionContext::new(module, MemoryManager::new());

    // Try to load from index that's too high
    let result = context.load_local(1000);
    match result {
        Err(VMError::InvalidLocalIndex(1000)) => {},
        _ => panic!("Expected InvalidLocalIndex error"),
    }
}

#[test]
fn test_constants() {
    let instructions = vec![
        Instruction { opcode: OpCode::Push, operands: vec![0] },
        Instruction { opcode: OpCode::Halt, operands: vec![] },
    ];
    let constants = vec![Constant::Integer(42)];
    let module = create_test_module_with_instructions(instructions, constants);
    let context = ExecutionContext::new(module, MemoryManager::new());

    // Get constant at index 0
    let const_val = context.get_constant(0).unwrap();
    match const_val {
        Value::Integer(i) => assert_eq!(i, 42),
        _ => panic!("Expected integer constant"),
    }

    // Try to get constant at invalid index
    let result = context.get_constant(10);
    match result {
        Err(VMError::InvalidConstantIndex(10)) => {},
        _ => panic!("Expected InvalidConstantIndex error"),
    }
}

#[test]
fn test_has_more_instructions() {
    let instructions = vec![
        Instruction { opcode: OpCode::Push, operands: vec![0] },
        Instruction { opcode: OpCode::Halt, operands: vec![] },
    ];
    let constants = vec![Constant::Integer(42)];
    let module = create_test_module_with_instructions(instructions, constants);
    let mut context = ExecutionContext::new(module, MemoryManager::new());

    assert!(context.has_more_instructions()); // PC = 0, has 2 instructions

    context.set_pc(1);
    assert!(context.has_more_instructions()); // PC = 1, has 2 instructions

    context.set_pc(2);
    assert!(!context.has_more_instructions()); // PC = 2, only has 2 instructions (0,1)

    context.set_pc(10);
    assert!(!context.has_more_instructions()); // PC way beyond instructions
}

#[test]
fn test_exception_handlers() {
    let module = create_test_module_with_instructions(vec![], vec![]);
    let mut context = ExecutionContext::new(module, MemoryManager::new());

    // Test empty handler stack
    assert!(context.current_exception_handler().is_none());
    assert!(context.find_handler(0).is_none());

    // Push a catch handler
    let catch_handler = ExceptionHandler {
        handler_type: HandlerType::Catch,
        handler_pc: 10,
        end_pc: 20,
        stack_depth: 5,
    };
    context.push_exception_handler(catch_handler.clone());

    // Verify handler is on stack
    let current = context.current_exception_handler().unwrap();
    assert_eq!(current.handler_type, HandlerType::Catch);
    assert_eq!(current.handler_pc, 10);
    assert_eq!(current.end_pc, 20);
    assert_eq!(current.stack_depth, 5);

    // Test finding handler for PC within range
    let found = context.find_handler(15).unwrap();
    assert_eq!(found.handler_type, HandlerType::Catch);
    assert_eq!(found.handler_pc, 10);

    // Test PC outside range
    assert!(context.find_handler(25).is_none());

    // Push a finally handler
    let finally_handler = ExceptionHandler {
        handler_type: HandlerType::Finally,
        handler_pc: 30,
        end_pc: 40,
        stack_depth: 3,
    };
    context.push_exception_handler(finally_handler.clone());

    // Should find the most recent handler first
    let found = context.find_handler(35).unwrap();
    assert_eq!(found.handler_type, HandlerType::Finally);

    // Pop handlers
    let popped = context.pop_exception_handler().unwrap();
    assert_eq!(popped.handler_type, HandlerType::Finally);

    let popped2 = context.pop_exception_handler().unwrap();
    assert_eq!(popped2.handler_type, HandlerType::Catch);

    // Stack should be empty now
    assert!(context.pop_exception_handler().is_none());
    assert!(context.current_exception_handler().is_none());
}

#[test]
fn test_exception_management() {
    let module = create_test_module_with_instructions(vec![], vec![]);
    let mut context = ExecutionContext::new(module, MemoryManager::new());

    // Test no exception initially
    assert!(context.get_exception().is_none());
    assert!(context.take_exception().is_none());

    // Set an exception
    let exception = Value::create_exception("TestError", "Test message");
    context.set_exception(exception.clone());

    // Get exception (should still be there)
    let current_exc = context.get_exception().unwrap();
    match current_exc {
        Value::Exception(exc_data) => {
            assert_eq!(exc_data.exception_type, "TestError");
            assert_eq!(exc_data.message, "Test message");
        },
        _ => panic!("Expected exception value"),
    }

    // Take exception (should remove it)
    let taken_exc = context.take_exception().unwrap();
    match taken_exc {
        Value::Exception(exc_data) => {
            assert_eq!(exc_data.exception_type, "TestError");
            assert_eq!(exc_data.message, "Test message");
        },
        _ => panic!("Expected exception value"),
    }

    // Should be no exception now
    assert!(context.get_exception().is_none());
    assert!(context.take_exception().is_none());
}

#[test]
fn test_multiple_handlers_nested() {
    let module = create_test_module_with_instructions(vec![], vec![]);
    let mut context = ExecutionContext::new(module, MemoryManager::new());

    // Create nested try blocks
    let outer_handler = ExceptionHandler {
        handler_type: HandlerType::Catch,
        handler_pc: 100,
        end_pc: 200,
        stack_depth: 2,
    };
    context.push_exception_handler(outer_handler);

    let inner_handler = ExceptionHandler {
        handler_type: HandlerType::Finally,
        handler_pc: 150,
        end_pc: 180,
        stack_depth: 5,
    };
    context.push_exception_handler(inner_handler);

    // Should find inner handler first for PC in inner range
    let found = context.find_handler(160).unwrap();
    assert_eq!(found.handler_type, HandlerType::Finally);
    assert_eq!(found.handler_pc, 150);

    // For PC in outer but not inner range, should find outer
    let found = context.find_handler(190).unwrap();
    assert_eq!(found.handler_type, HandlerType::Catch);
    assert_eq!(found.handler_pc, 100);

    // For PC outside both ranges, should find nothing
    assert!(context.find_handler(250).is_none());
}
