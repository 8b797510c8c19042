use loaf::bytecode::{BytecodeModule, Constant, Instruction, ParseError, write_bytecode,
    parse_module};
use loaf::opcode::OpCode;

/// The file-format header: magic, major version one, minor zero, patch zero.
fn create_valid_header() -> Vec<u8> {
    let mut data = Vec::new();
    data.extend_from_slice(&0x4C4F4146u32.to_be_bytes()); // Magic "LOAF"
    data.push(1); // Major version
    data.push(0); // Minor version
    data.extend_from_slice(&0u16.to_be_bytes()); // Patch version
    data
}

/// A complete valid bytecode stream.
fn create_valid_bytecode() -> Vec<u8> {
    let mut data = create_valid_header();

    // Module name "test"
    data.extend_from_slice(&4u32.to_be_bytes());
    data.extend_from_slice(b"test");

    // Constants: [42, 3.14, "hello", true, null]
    data.extend_from_slice(&5u32.to_be_bytes());

    // Integer constant
    data.push(1);
    data.extend_from_slice(&42i64.to_be_bytes());

    // Float constant
    data.push(2);
    data.extend_from_slice(&3.14f64.to_be_bytes());

    // String constant
    data.push(3);
    data.extend_from_slice(&5u32.to_be_bytes());
    data.extend_from_slice(b"hello");

    // Boolean constant
    data.push(4);
    data.push(1);

    // Null constant
    data.push(0);

    // Instructions: [Push(0), Print, Halt]
    data.extend_from_slice(&3u32.to_be_bytes());

    // Push instruction with operand 0
    data.push(OpCode::Push.to_byte());
    data.extend_from_slice(&0u32.to_be_bytes());

    // Print instruction (no operands)
    data.push(OpCode::Print.to_byte());

    // Halt instruction (no operands)
    data.push(OpCode::Halt.to_byte());

    data
}

#[test]
fn test_parse_valid_bytecode() {
    let data = create_valid_bytecode();

    let result = parse_module(&data);
    assert!(result.is_ok());

    let module = result.unwrap();
    assert_eq!(module.name, "test");
    assert_eq!(module.constants.len(), 5);
    assert_eq!(module.instructions.len(), 3);

    // Verify constants
    match &module.constants[0] {
        Constant::Integer(42) => {},
        _ => panic!("Expected Integer(42)"),
    }

    match &module.constants[1] {
        Constant::Float(bits) => {
            assert!((f64::from_bits(*bits) - 3.14).abs() < f64::EPSILON);
        },
        _ => panic!("Expected Float(3.14)"),
    }

    match &module.constants[2] {
        Constant::String(s) => assert_eq!(s, "hello"),
        _ => panic!("Expected String(hello)"),
    }

    match &module.constants[3] {
        Constant::Boolean(true) => {},
        _ => panic!("Expected Boolean(true)"),
    }

    match &module.constants[4] {
        Constant::Null => {},
        _ => panic!("Expected Null"),
    }

    // Verify instructions
    assert_eq!(module.instructions[0].opcode, OpCode::Push);
    assert_eq!(module.instructions[0].operands, vec![0]);
    assert_eq!(module.instructions[1].opcode, OpCode::Print);
    assert_eq!(module.instructions[1].operands.len(), 0);
    assert_eq!(module.instructions[2].opcode, OpCode::Halt);
    assert_eq!(module.instructions[2].operands.len(), 0);
}

#[test]
fn test_parse_invalid_magic_number() {
    let mut data = Vec::new();
    data.extend_from_slice(&0x12345678u32.to_be_bytes()); // Invalid magic
    data.push(1); // Version

    let result = parse_module(&data);

    assert!(result.is_err());
    match result.unwrap_err() {
        ParseError::InvalidFormat(msg) => assert_eq!(msg, "Invalid magic number"),
        _ => panic!("Expected InvalidFormat error"),
    }
}

#[test]
fn test_parse_unsupported_version() {
    let mut data = Vec::new();
    data.extend_from_slice(&0x4C4F4146u32.to_be_bytes()); // Valid magic "LOAF"
    data.push(2); // Unsupported version

    let result = parse_module(&data);

    assert!(result.is_err());
    match result.unwrap_err() {
        ParseError::UnsupportedVersion(2) => {},
        _ => panic!("Expected UnsupportedVersion(2) error"),
    }
}

#[test]
fn test_parse_empty_module() {
    let mut data = create_valid_header();

    // Module name ""
    data.extend_from_slice(&0u32.to_be_bytes());

    // No constants
    data.extend_from_slice(&0u32.to_be_bytes());

    // No instructions
    data.extend_from_slice(&0u32.to_be_bytes());

    let result = parse_module(&data);

    assert!(result.is_ok());
    let module = result.unwrap();
    assert_eq!(module.name, "");
    assert_eq!(module.constants.len(), 0);
    assert_eq!(module.instructions.len(), 0);
}

#[test]
fn test_parse_all_constant_types() {
    let mut data = create_valid_header();

    // Module name "constants_test"
    data.extend_from_slice(&14u32.to_be_bytes());
    data.extend_from_slice(b"constants_test");

    // All 5 constant types
    data.extend_from_slice(&5u32.to_be_bytes());

    // Null
    data.push(0);

    // Integer: -999
    data.push(1);
    data.extend_from_slice(&(-999i64).to_be_bytes());

    // Float: -2.718
    data.push(2);
    data.extend_from_slice(&(-2.718f64).to_be_bytes());

    // String: "test string"
    data.push(3);
    data.extend_from_slice(&11u32.to_be_bytes());
    data.extend_from_slice(b"test string");

    // Boolean: false
    data.push(4);
    data.push(0);

    // No instructions
    data.extend_from_slice(&0u32.to_be_bytes());

    let result = parse_module(&data);

    assert!(result.is_ok());
    let module = result.unwrap();
    assert_eq!(module.constants.len(), 5);

    match &module.constants[0] {
        Constant::Null => {},
        _ => panic!("Expected Null"),
    }

    match &module.constants[1] {
        Constant::Integer(-999) => {},
        _ => panic!("Expected Integer(-999)"),
    }

    match &module.constants[2] {
        Constant::Float(bits) => {
            assert!((f64::from_bits(*bits) + 2.718).abs() < f64::EPSILON);
        },
        _ => panic!("Expected Float(-2.718)"),
    }

    match &module.constants[3] {
        Constant::String(s) => assert_eq!(s, "test string"),
        _ => panic!("Expected String(test string)"),
    }

    match &module.constants[4] {
        Constant::Boolean(false) => {},
        _ => panic!("Expected Boolean(false)"),
    }
}

#[test]
fn test_parse_unknown_constant_type() {
    let mut data = create_valid_header();

    // Module name "test"
    data.extend_from_slice(&4u32.to_be_bytes());
    data.extend_from_slice(b"test");

    // One invalid constant
    data.extend_from_slice(&1u32.to_be_bytes());
    data.push(99); // Unknown constant type

    let result = parse_module(&data);

    assert!(result.is_err());
    match result.unwrap_err() {
        ParseError::InvalidFormat(msg) => assert_eq!(msg, "Unknown constant type: 99"),
        _ => panic!("Expected InvalidFormat error"),
    }
}

#[test]
fn test_parse_instructions_with_operands() {
    let mut data = create_valid_header();

    // Module name "ops_test"
    data.extend_from_slice(&8u32.to_be_bytes());
    data.extend_from_slice(b"ops_test");

    // No constants
    data.extend_from_slice(&0u32.to_be_bytes());

    // Test different opcodes with different operand counts
    data.extend_from_slice(&4u32.to_be_bytes());

    // Push (1 operand)
    data.push(OpCode::Push.to_byte());
    data.extend_from_slice(&123u32.to_be_bytes());

    // Add (0 operands)
    data.push(OpCode::Add.to_byte());

    // Jump (1 operand)
    data.push(OpCode::Jump.to_byte());
    data.extend_from_slice(&456u32.to_be_bytes());

    // TryBlock (3 operands)
    data.push(OpCode::TryBlock.to_byte());
    data.extend_from_slice(&10u32.to_be_bytes());
    data.extend_from_slice(&20u32.to_be_bytes());
    data.extend_from_slice(&30u32.to_be_bytes());

    let result = parse_module(&data);

    assert!(result.is_ok());
    let module = result.unwrap();
    assert_eq!(module.instructions.len(), 4);

    // Verify Push instruction
    assert_eq!(module.instructions[0].opcode, OpCode::Push);
    assert_eq!(module.instructions[0].operands, vec![123]);

    // Verify Add instruction
    assert_eq!(module.instructions[1].opcode, OpCode::Add);
    assert_eq!(module.instructions[1].operands.len(), 0);

    // Verify Jump instruction
    assert_eq!(module.instructions[2].opcode, OpCode::Jump);
    assert_eq!(module.instructions[2].operands, vec![456]);

    // Verify TryBlock instruction
    assert_eq!(module.instructions[3].opcode, OpCode::TryBlock);
    assert_eq!(module.instructions[3].operands, vec![10, 20, 30]);
}

#[test]
fn test_parse_truncated_data() {
    // Test various truncation points
    let valid_data = create_valid_bytecode();

    // Test truncation at different points
    for truncate_at in [3, 7, 10, 15] {
        let mut truncated = valid_data.clone();
        truncated.truncate(truncate_at);

        let result = parse_module(&truncated);

        assert!(result.is_err());
        match result.unwrap_err() {
            ParseError::IoError(_) => {}, // Expected
            _ => panic!("Expected IoError for truncated data"),
        }
    }
}

#[test]
fn test_parse_large_string_constant() {
    let mut data = create_valid_header();

    // Module name "large_test"
    data.extend_from_slice(&10u32.to_be_bytes());
    data.extend_from_slice(b"large_test");

    // One large string constant
    data.extend_from_slice(&1u32.to_be_bytes());
    data.push(3); // String type

    let large_string = "a".repeat(1000);
    data.extend_from_slice(&(large_string.len() as u32).to_be_bytes());
    data.extend_from_slice(large_string.as_bytes());

    // No instructions
    data.extend_from_slice(&0u32.to_be_bytes());

    let result = parse_module(&data);

    assert!(result.is_ok());
    let module = result.unwrap();
    assert_eq!(module.constants.len(), 1);

    match &module.constants[0] {
        Constant::String(s) => {
            assert_eq!(s.len(), 1000);
            assert!(s.chars().all(|c| c == 'a'));
        },
        _ => panic!("Expected large String"),
    }
}

#[test]
fn test_parse_unicode_strings() {
    let mut data = create_valid_header();

    // Module name with unicode
    let module_name = "—Ç–µ—Å—Ç_Ê®°Âùó_üöÄ";
    data.extend_from_slice(&(module_name.len() as u32).to_be_bytes());
    data.extend_from_slice(module_name.as_bytes());

    // Unicode string constant
    data.extend_from_slice(&1u32.to_be_bytes());
    data.push(3); // String type

    let unicode_string = "Hello ‰∏ñÁïå üåç –ü—Ä–∏–≤–µ—Ç –º–∏—Ä";
    data.extend_from_slice(&(unicode_string.len() as u32).to_be_bytes());
    data.extend_from_slice(unicode_string.as_bytes());

    // No instructions
    data.extend_from_slice(&0u32.to_be_bytes());

    let result = parse_module(&data);

    assert!(result.is_ok());
    let module = result.unwrap();
    assert_eq!(module.name, module_name);
    assert_eq!(module.constants.len(), 1);

    match &module.constants[0] {
        Constant::String(s) => assert_eq!(s, unicode_string),
        _ => panic!("Expected Unicode String"),
    }
}

#[test]
fn test_parse_extreme_values() {
    let mut data = create_valid_header();

    // Module name "extreme"
    data.extend_from_slice(&7u32.to_be_bytes());
    data.extend_from_slice(b"extreme");

    // Test extreme integer and float values
    data.extend_from_slice(&4u32.to_be_bytes());

    // Max i64
    data.push(1);
    data.extend_from_slice(&i64::MAX.to_be_bytes());

    // Min i64
    data.push(1);
    data.extend_from_slice(&i64::MIN.to_be_bytes());

    // Positive infinity
    data.push(2);
    data.extend_from_slice(&f64::INFINITY.to_be_bytes());

    // Negative infinity
    data.push(2);
    data.extend_from_slice(&f64::NEG_INFINITY.to_be_bytes());

    // No instructions
    data.extend_from_slice(&0u32.to_be_bytes());

    let result = parse_module(&data);

    assert!(result.is_ok());
    let module = result.unwrap();
    assert_eq!(module.constants.len(), 4);

    match &module.constants[0] {
        Constant::Integer(i) => assert_eq!(*i, i64::MAX),
        _ => panic!("Expected the largest integer"),
    }

    match &module.constants[1] {
        Constant::Integer(i) => assert_eq!(*i, i64::MIN),
        _ => panic!("Expected the smallest integer"),
    }

    match &module.constants[2] {
        Constant::Float(bits) => assert_eq!(*bits, f64::INFINITY.to_bits()),
        _ => panic!("Expected positive infinity"),
    }

    match &module.constants[3] {
        Constant::Float(bits) => assert_eq!(*bits, f64::NEG_INFINITY.to_bits()),
        _ => panic!("Expected negative infinity"),
    }
}

#[test]
fn test_parse_address_map_generation() {
    let mut data = create_valid_header();

    // Module name "address_test"
    data.extend_from_slice(&12u32.to_be_bytes());
    data.extend_from_slice(b"address_test");

    // No constants
    data.extend_from_slice(&0u32.to_be_bytes());

    // Instructions with different operand counts to test address calculation
    data.extend_from_slice(&4u32.to_be_bytes());

    // Halt (0 operands) - should be at address 0
    data.push(OpCode::Halt.to_byte());

    // Push (1 operand) - should be at address 1
    data.push(OpCode::Push.to_byte());
    data.extend_from_slice(&42u32.to_be_bytes());

    // Add (0 operands) - should be at address 6 (1 + 1 + 4)
    data.push(OpCode::Add.to_byte());

    // TryBlock (3 operands) - should be at address 7
    data.push(OpCode::TryBlock.to_byte());
    data.extend_from_slice(&10u32.to_be_bytes());
    data.extend_from_slice(&20u32.to_be_bytes());
    data.extend_from_slice(&30u32.to_be_bytes());

    let result = parse_module(&data);

    assert!(result.is_ok());
    let module = result.unwrap();

    // Verify address mapping
    assert_eq!(module.address_map[0], (0, 0)); // Halt at address 0, instruction 0
    assert_eq!(module.address_map[1], (1, 1)); // Push at address 1, instruction 1
    assert_eq!(module.address_map[2], (6, 2)); // Add at address 6, instruction 2
    assert_eq!(module.address_map[3], (7, 3)); // TryBlock at address 7, instruction 3
}

#[test]
fn bytecode_round_trip() {
    // Build a module with one of every constant tag and instructions
    // covering the zero-, one- and three-operand classes; serialize, parse
    // back, and check name, constants and instruction sequence.
    let mut module = BytecodeModule::new("round_trip");
    module.constants.push(Constant::Null);
    module.constants.push(Constant::Integer(-7));
    module.constants.push(Constant::Float(2.5f64.to_bits()));
    module.constants.push(Constant::String("payload".to_string()));
    module.constants.push(Constant::Boolean(true));
    module.instructions.push(Instruction::new(OpCode::Nop));
    module.instructions.push(Instruction::new(OpCode::Push).with_operand(3));
    module.instructions.push(Instruction::new(OpCode::TryBlock)
        .with_operands(vec![10, 20, 30]));
    module.instructions.push(Instruction::new(OpCode::Halt));

    let bytes = write_bytecode(&module).unwrap();
    let back = parse_module(&bytes).unwrap();

    assert_eq!(back.name, module.name);
    assert_eq!(back.constants, module.constants);
    assert_eq!(back.instructions, module.instructions);
}

#[test]
fn encode_refuses_operand_count_mismatch() {
    let mut module = BytecodeModule::new("mismatch_test");
    let mut instruction = Instruction::new(OpCode::Push); // Push expects 1 operand
    instruction.operands = vec![1, 2]; // But it carries 2 operands
    module.instructions.push(instruction);

    let result = write_bytecode(&module);
    assert!(result.is_err());
}
