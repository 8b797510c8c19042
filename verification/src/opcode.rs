//! Opcodes for the VM, their byte encoding and their operand counts.

use vstd::prelude::*;

verus! {

/// One opcode of the stack machine.
#[derive(Debug, Clone, Copy, PartialEq, Eq, Structural, Hash)]
pub enum OpCode {
    // Control operations
    Nop,
    Halt,
    // IO operations
    Print,
    // Stack manipulation
    Push,
    Pop,
    Dup,
    Swap,
    // Arithmetic operations
    Add,
    Sub,
    Mul,
    Div,
    Neg,
    // Bitwise operations
    BitAnd,
    BitOr,
    BitXor,
    BitNot,
    ShiftLeft,
    ShiftRight,
    RotateLeft,
    RotateRight,
    // Logical operations
    And,
    Or,
    Not,
    // Comparison operations
    Eq,
    Neq,
    Lt,
    Lte,
    Gt,
    Gte,
    // Control flow
    Jump,
    JumpIf,
    JumpIfNot,
    Call,
    Return,
    // Exception handling
    TryBlock,
    CatchBlock,
    FinallyBlock,
    EndTry,
    Throw,
    Rethrow,
    // Local variables
    StoreLocal,
    LoadLocal,
    // Heap operations
    CreateHeap,
    SwitchHeap,
    CollectHeap,
    // Array operations
    NewArray,
    GetElement,
    SetElement,
    ArrayLength,
}

/// The byte that encodes each opcode.
pub open spec fn spec_opcode_byte(op: OpCode) -> u8 {
    match op {
        OpCode::Nop => 0x00,
        OpCode::Halt => 0x01,
        OpCode::Print => 0x02,
        OpCode::Push => 0x10,
        OpCode::Pop => 0x11,
        OpCode::Dup => 0x12,
        OpCode::Swap => 0x13,
        OpCode::Add => 0x20,
        OpCode::Sub => 0x21,
        OpCode::Mul => 0x22,
        OpCode::Div => 0x23,
        OpCode::Neg => 0x24,
        OpCode::BitAnd => 0x30,
        OpCode::BitOr => 0x31,
        OpCode::BitXor => 0x32,
        OpCode::BitNot => 0x33,
        OpCode::ShiftLeft => 0x34,
        OpCode::ShiftRight => 0x35,
        OpCode::RotateLeft => 0x36,
        OpCode::RotateRight => 0x37,
        OpCode::And => 0x40,
        OpCode::Or => 0x41,
        OpCode::Not => 0x42,
        OpCode::Eq => 0x50,
        OpCode::Neq => 0x51,
        OpCode::Lt => 0x52,
        OpCode::Lte => 0x53,
        OpCode::Gt => 0x54,
        OpCode::Gte => 0x55,
        OpCode::Jump => 0x60,
        OpCode::JumpIf => 0x61,
        OpCode::JumpIfNot => 0x62,
        OpCode::Call => 0x63,
        OpCode::Return => 0x64,
        OpCode::TryBlock => 0x6A,
        OpCode::CatchBlock => 0x6B,
        OpCode::FinallyBlock => 0x6C,
        OpCode::EndTry => 0x6D,
        OpCode::Throw => 0x6E,
        OpCode::Rethrow => 0x6F,
        OpCode::StoreLocal => 0x70,
        OpCode::LoadLocal => 0x71,
        OpCode::CreateHeap => 0x80,
        OpCode::SwitchHeap => 0x81,
        OpCode::CollectHeap => 0x82,
        OpCode::NewArray => 0x90,
        OpCode::GetElement => 0x91,
        OpCode::SetElement => 0x92,
        OpCode::ArrayLength => 0x93,
    }
}

/// The opcode a byte decodes to, if any.
pub open spec fn spec_opcode_of_byte(byte: u8) -> Option<OpCode> {
    match byte {
        0x00 => Option::Some(OpCode::Nop),
        0x01 => Option::Some(OpCode::Halt),
        0x02 => Option::Some(OpCode::Print),
        0x10 => Option::Some(OpCode::Push),
        0x11 => Option::Some(OpCode::Pop),
        0x12 => Option::Some(OpCode::Dup),
        0x13 => Option::Some(OpCode::Swap),
        0x20 => Option::Some(OpCode::Add),
        0x21 => Option::Some(OpCode::Sub),
        0x22 => Option::Some(OpCode::Mul),
        0x23 => Option::Some(OpCode::Div),
        0x24 => Option::Some(OpCode::Neg),
        0x30 => Option::Some(OpCode::BitAnd),
        0x31 => Option::Some(OpCode::BitOr),
        0x32 => Option::Some(OpCode::BitXor),
        0x33 => Option::Some(OpCode::BitNot),
        0x34 => Option::Some(OpCode::ShiftLeft),
        0x35 => Option::Some(OpCode::ShiftRight),
        0x36 => Option::Some(OpCode::RotateLeft),
        0x37 => Option::Some(OpCode::RotateRight),
        0x40 => Option::Some(OpCode::And),
        0x41 => Option::Some(OpCode::Or),
        0x42 => Option::Some(OpCode::Not),
        0x50 => Option::Some(OpCode::Eq),
        0x51 => Option::Some(OpCode::Neq),
        0x52 => Option::Some(OpCode::Lt),
        0x53 => Option::Some(OpCode::Lte),
        0x54 => Option::Some(OpCode::Gt),
        0x55 => Option::Some(OpCode::Gte),
        0x60 => Option::Some(OpCode::Jump),
        0x61 => Option::Some(OpCode::JumpIf),
        0x62 => Option::Some(OpCode::JumpIfNot),
        0x63 => Option::Some(OpCode::Call),
        0x64 => Option::Some(OpCode::Return),
        0x6A => Option::Some(OpCode::TryBlock),
        0x6B => Option::Some(OpCode::CatchBlock),
        0x6C => Option::Some(OpCode::FinallyBlock),
        0x6D => Option::Some(OpCode::EndTry),
        0x6E => Option::Some(OpCode::Throw),
        0x6F => Option::Some(OpCode::Rethrow),
        0x70 => Option::Some(OpCode::StoreLocal),
        0x71 => Option::Some(OpCode::LoadLocal),
        0x80 => Option::Some(OpCode::CreateHeap),
        0x81 => Option::Some(OpCode::SwitchHeap),
        0x82 => Option::Some(OpCode::CollectHeap),
        0x90 => Option::Some(OpCode::NewArray),
        0x91 => Option::Some(OpCode::GetElement),
        0x92 => Option::Some(OpCode::SetElement),
        0x93 => Option::Some(OpCode::ArrayLength),
        _ => Option::None,
    }
}

/// The number of operands each opcode carries in the instruction stream.
pub open spec fn spec_num_operands(op: OpCode) -> usize {
    match op {
        OpCode::Push
        | OpCode::Jump
        | OpCode::JumpIf
        | OpCode::JumpIfNot
        | OpCode::Call
        | OpCode::StoreLocal
        | OpCode::LoadLocal
        | OpCode::CollectHeap
        | OpCode::NewArray => 1,
        OpCode::TryBlock => 3,
        _ => 0,
    }
}

impl OpCode {
    /// Convert a byte to an opcode.
    pub fn from_byte(byte: u8) -> (r: Option<OpCode>)
        ensures
            r matches Option::Some(op) ==> spec_opcode_byte(op) == byte,
            r is None ==> forall|op: OpCode| spec_opcode_byte(op) != byte,
            r == spec_opcode_of_byte(byte),
    {
        let r = match byte {
            0x00 => Some(OpCode::Nop),
            0x01 => Some(OpCode::Halt),
            0x02 => Some(OpCode::Print),
            0x10 => Some(OpCode::Push),
            0x11 => Some(OpCode::Pop),
            0x12 => Some(OpCode::Dup),
            0x13 => Some(OpCode::Swap),
            0x20 => Some(OpCode::Add),
            0x21 => Some(OpCode::Sub),
            0x22 => Some(OpCode::Mul),
            0x23 => Some(OpCode::Div),
            0x24 => Some(OpCode::Neg),
            0x30 => Some(OpCode::BitAnd),
            0x31 => Some(OpCode::BitOr),
            0x32 => Some(OpCode::BitXor),
            0x33 => Some(OpCode::BitNot),
            0x34 => Some(OpCode::ShiftLeft),
            0x35 => Some(OpCode::ShiftRight),
            0x36 => Some(OpCode::RotateLeft),
            0x37 => Some(OpCode::RotateRight),
            0x40 => Some(OpCode::And),
            0x41 => Some(OpCode::Or),
            0x42 => Some(OpCode::Not),
            0x50 => Some(OpCode::Eq),
            0x51 => Some(OpCode::Neq),
            0x52 => Some(OpCode::Lt),
            0x53 => Some(OpCode::Lte),
            0x54 => Some(OpCode::Gt),
            0x55 => Some(OpCode::Gte),
            0x60 => Some(OpCode::Jump),
            0x61 => Some(OpCode::JumpIf),
            0x62 => Some(OpCode::JumpIfNot),
            0x63 => Some(OpCode::Call),
            0x64 => Some(OpCode::Return),
            0x6A => Some(OpCode::TryBlock),
            0x6B => Some(OpCode::CatchBlock),
            0x6C => Some(OpCode::FinallyBlock),
            0x6D => Some(OpCode::EndTry),
            0x6E => Some(OpCode::Throw),
            0x6F => Some(OpCode::Rethrow),
            0x70 => Some(OpCode::StoreLocal),
            0x71 => Some(OpCode::LoadLocal),
            0x80 => Some(OpCode::CreateHeap),
            0x81 => Some(OpCode::SwitchHeap),
            0x82 => Some(OpCode::CollectHeap),
            0x90 => Some(OpCode::NewArray),
            0x91 => Some(OpCode::GetElement),
            0x92 => Some(OpCode::SetElement),
            0x93 => Some(OpCode::ArrayLength),
            _ => None,
        };
        proof {
            if r is None {
                assert forall|op: OpCode| spec_opcode_byte(op) != byte by {}
            }
        }
        r
    }

    /// Convert an opcode to its byte.
    pub fn to_byte(&self) -> (r: u8)
        ensures
            r == spec_opcode_byte(*self),
    {
        match self {
            OpCode::Nop => 0x00,
            OpCode::Halt => 0x01,
            OpCode::Print => 0x02,
            OpCode::Push => 0x10,
            OpCode::Pop => 0x11,
            OpCode::Dup => 0x12,
            OpCode::Swap => 0x13,
            OpCode::Add => 0x20,
            OpCode::Sub => 0x21,
            OpCode::Mul => 0x22,
            OpCode::Div => 0x23,
            OpCode::Neg => 0x24,
            OpCode::BitAnd => 0x30,
            OpCode::BitOr => 0x31,
            OpCode::BitXor => 0x32,
            OpCode::BitNot => 0x33,
            OpCode::ShiftLeft => 0x34,
            OpCode::ShiftRight => 0x35,
            OpCode::RotateLeft => 0x36,
            OpCode::RotateRight => 0x37,
            OpCode::And => 0x40,
            OpCode::Or => 0x41,
            OpCode::Not => 0x42,
            OpCode::Eq => 0x50,
            OpCode::Neq => 0x51,
            OpCode::Lt => 0x52,
            OpCode::Lte => 0x53,
            OpCode::Gt => 0x54,
            OpCode::Gte => 0x55,
            OpCode::Jump => 0x60,
            OpCode::JumpIf => 0x61,
            OpCode::JumpIfNot => 0x62,
            OpCode::Call => 0x63,
            OpCode::Return => 0x64,
            OpCode::TryBlock => 0x6A,
            OpCode::CatchBlock => 0x6B,
            OpCode::FinallyBlock => 0x6C,
            OpCode::EndTry => 0x6D,
            OpCode::Throw => 0x6E,
            OpCode::Rethrow => 0x6F,
            OpCode::StoreLocal => 0x70,
            OpCode::LoadLocal => 0x71,
            OpCode::CreateHeap => 0x80,
            OpCode::SwitchHeap => 0x81,
            OpCode::CollectHeap => 0x82,
            OpCode::NewArray => 0x90,
            OpCode::GetElement => 0x91,
            OpCode::SetElement => 0x92,
            OpCode::ArrayLength => 0x93,
        }
    }

    /// Get the number of operands for the opcode.
    pub fn num_operands(&self) -> (r: usize)
        ensures
            r == spec_num_operands(*self),
    {
        match self {
            OpCode::Push
            | OpCode::Jump
            | OpCode::JumpIf
            | OpCode::JumpIfNot
            | OpCode::Call
            | OpCode::StoreLocal
            | OpCode::LoadLocal
            | OpCode::CollectHeap
            | OpCode::NewArray => 1,
            OpCode::TryBlock => 3,
            _ => 0,
        }
    }

    /// Convert a byte to an opcode, with unknown bytes becoming `Nop`.
    pub fn of_byte_or_nop(byte: u8) -> (r: OpCode)
        ensures
            r == spec_opcode_of_byte(byte).unwrap_or(OpCode::Nop),
    {
        match OpCode::from_byte(byte) {
            Some(op) => op,
            None => OpCode::Nop,
        }
    }
}

/// Encoding an opcode as a byte and decoding it again yields the opcode.
pub proof fn lemma_opcode_round_trip(op: OpCode)
    ensures
        spec_opcode_of_byte(spec_opcode_byte(op)) == Option::Some(op),
{
}

} // verus!
