use loaf::opcode::OpCode;

#[test]
fn test_opcode_byte_conversion() {
    // Test control operations
    assert_eq!(OpCode::Nop.to_byte(), 0x00);
    assert_eq!(OpCode::Halt.to_byte(), 0x01);
    assert_eq!(OpCode::Print.to_byte(), 0x02);

    // Test stack operations
    assert_eq!(OpCode::Push.to_byte(), 0x10);
    assert_eq!(OpCode::Pop.to_byte(), 0x11);
    assert_eq!(OpCode::Dup.to_byte(), 0x12);
    assert_eq!(OpCode::Swap.to_byte(), 0x13);

    // Test arithmetic operations
    assert_eq!(OpCode::Add.to_byte(), 0x20);
    assert_eq!(OpCode::Sub.to_byte(), 0x21);
    assert_eq!(OpCode::Mul.to_byte(), 0x22);
    assert_eq!(OpCode::Div.to_byte(), 0x23);
    assert_eq!(OpCode::Neg.to_byte(), 0x24);

    // Test exception handling
    assert_eq!(OpCode::TryBlock.to_byte(), 0x6A);
    assert_eq!(OpCode::CatchBlock.to_byte(), 0x6B);
    assert_eq!(OpCode::FinallyBlock.to_byte(), 0x6C);
    assert_eq!(OpCode::EndTry.to_byte(), 0x6D);
    assert_eq!(OpCode::Throw.to_byte(), 0x6E);
    assert_eq!(OpCode::Rethrow.to_byte(), 0x6F);
}

#[test]
fn test_byte_to_opcode_conversion() {
    // Test valid conversions
    assert_eq!(OpCode::from_byte(0x00), Some(OpCode::Nop));
    assert_eq!(OpCode::from_byte(0x01), Some(OpCode::Halt));
    assert_eq!(OpCode::from_byte(0x10), Some(OpCode::Push));
    assert_eq!(OpCode::from_byte(0x20), Some(OpCode::Add));
    assert_eq!(OpCode::from_byte(0x6A), Some(OpCode::TryBlock));
    assert_eq!(OpCode::from_byte(0x90), Some(OpCode::NewArray));

    // Test invalid conversion
    assert_eq!(OpCode::from_byte(0xFF), None);
    assert_eq!(OpCode::from_byte(0x99), None);
}

#[test]
fn test_operand_counts() {
    // Test opcodes with 0 operands
    assert_eq!(OpCode::Nop.num_operands(), 0);
    assert_eq!(OpCode::Halt.num_operands(), 0);
    assert_eq!(OpCode::Add.num_operands(), 0);
    assert_eq!(OpCode::Pop.num_operands(), 0);
    assert_eq!(OpCode::CatchBlock.num_operands(), 0);
    assert_eq!(OpCode::EndTry.num_operands(), 0);

    // Test opcodes with 1 operand
    assert_eq!(OpCode::Push.num_operands(), 1);
    assert_eq!(OpCode::Jump.num_operands(), 1);
    assert_eq!(OpCode::JumpIf.num_operands(), 1);
    assert_eq!(OpCode::JumpIfNot.num_operands(), 1);
    assert_eq!(OpCode::Call.num_operands(), 1);
    assert_eq!(OpCode::StoreLocal.num_operands(), 1);
    assert_eq!(OpCode::LoadLocal.num_operands(), 1);
    assert_eq!(OpCode::CollectHeap.num_operands(), 1);
    assert_eq!(OpCode::NewArray.num_operands(), 1);

    // Test opcodes with 3 operands
    assert_eq!(OpCode::TryBlock.num_operands(), 3);
}

#[test]
fn test_from_u8_trait() {
    // Test valid conversions from a byte
    let opcode: OpCode = OpCode::of_byte_or_nop(0x00);
    assert_eq!(opcode, OpCode::Nop);

    let opcode: OpCode = OpCode::of_byte_or_nop(0x10);
    assert_eq!(opcode, OpCode::Push);

    let opcode: OpCode = OpCode::of_byte_or_nop(0x6A);
    assert_eq!(opcode, OpCode::TryBlock);

    // Test invalid conversion defaults to Nop
    let opcode: OpCode = OpCode::of_byte_or_nop(0xFF);
    assert_eq!(opcode, OpCode::Nop);
}

#[test]
fn test_into_u8_trait() {
    // Test conversion from OpCode to u8
    let byte: u8 = OpCode::Nop.to_byte();
    assert_eq!(byte, 0x00);

    let byte: u8 = OpCode::Push.to_byte();
    assert_eq!(byte, 0x10);

    let byte: u8 = OpCode::TryBlock.to_byte();
    assert_eq!(byte, 0x6A);

    let byte: u8 = OpCode::NewArray.to_byte();
    assert_eq!(byte, 0x90);
}

#[test]
fn test_round_trip_conversion() {
    // Test that converting to byte and back gives the same opcode
    let opcodes = [
        OpCode::Nop,
        OpCode::Halt,
        OpCode::Push,
        OpCode::Add,
        OpCode::Jump,
        OpCode::TryBlock,
        OpCode::CatchBlock,
        OpCode::NewArray,
    ];

    for opcode in &opcodes {
        let byte = opcode.to_byte();
        let converted_back = OpCode::from_byte(byte);
        assert_eq!(converted_back, Some(*opcode));
    }
}

#[test]
fn test_opcode_equality() {
    // Test that OpCode implements PartialEq correctly
    assert_eq!(OpCode::Nop, OpCode::Nop);
    assert_ne!(OpCode::Nop, OpCode::Halt);
    assert_eq!(OpCode::TryBlock, OpCode::TryBlock);
    assert_ne!(OpCode::TryBlock, OpCode::CatchBlock);
}

#[test]
fn test_opcode_debug() {
    // Test that OpCode implements Debug correctly
    let debug_string = format!("{:?}", OpCode::TryBlock);
    assert_eq!(debug_string, "TryBlock");

    let debug_string = format!("{:?}", OpCode::Push);
    assert_eq!(debug_string, "Push");
}

#[test]
fn test_opcode_clone_copy() {
    // Test that OpCode implements Clone and Copy correctly
    let original = OpCode::TryBlock;
    let cloned = original.clone();
    let copied = original;

    assert_eq!(original, cloned);
    assert_eq!(original, copied);
    assert_eq!(cloned, copied);
}

#[test]
fn test_all_exception_handling_opcodes() {
    // Verify all exception handling opcodes are properly defined
    let exception_opcodes = [
        (OpCode::TryBlock, 0x6A, 3),
        (OpCode::CatchBlock, 0x6B, 0),
        (OpCode::FinallyBlock, 0x6C, 0),
        (OpCode::EndTry, 0x6D, 0),
        (OpCode::Throw, 0x6E, 0),
        (OpCode::Rethrow, 0x6F, 0),
    ];

    for (opcode, expected_byte, expected_operands) in &exception_opcodes {
        assert_eq!(opcode.to_byte(), *expected_byte);
        assert_eq!(opcode.num_operands(), *expected_operands);
        assert_eq!(OpCode::from_byte(*expected_byte), Some(*opcode));
    }
}
