//! Bytecode modules and their binary file format.
//!
//! The format is big-endian throughout: a 4-byte magic, a 1-byte major
//! version, a 1-byte minor version and a 2-byte patch, then a
//! length-prefixed module name, a length-prefixed constant pool, and a
//! length-prefixed instruction sequence. Encoding and decoding are pure
//! byte-vector computations here; reading and writing files belongs to the
//! callers.

use vstd::prelude::*;
use vstd::string::StringExecFns;
use crate::decimal::u64_string;
use crate::opcode::{OpCode, spec_opcode_byte, spec_opcode_of_byte, spec_num_operands};

verus! {

/// The magic number that opens every bytecode file, `LOAF` in ASCII.
pub const MAGIC: u32 = 0x4C4F4146;

/// A constant value in the bytecode.
#[derive(Debug, PartialEq)]
pub enum Constant {
    Integer(i64),
    /// A double constant, carried as its IEEE-754 bit pattern.
    Float(u64),
    String(String),
    Boolean(bool),
    Null,
}

/// The mathematical model of a constant.
pub ghost enum ConstantV {
    Integer(i64),
    Float(u64),
    String(Seq<char>),
    Boolean(bool),
    Null,
}

impl View for Constant {
    type V = ConstantV;

    open spec fn view(&self) -> ConstantV {
        match self {
            Constant::Integer(i) => ConstantV::Integer(*i),
            Constant::Float(b) => ConstantV::Float(*b),
            Constant::String(s) => ConstantV::String(s@),
            Constant::Boolean(b) => ConstantV::Boolean(*b),
            Constant::Null => ConstantV::Null,
        }
    }
}

impl Clone for Constant {
    /// A deep copy whose model equals the original's.
    fn clone(&self) -> (r: Self)
        ensures
            r@ == self@,
    {
        match self {
            Constant::Integer(i) => Constant::Integer(*i),
            Constant::Float(b) => Constant::Float(*b),
            Constant::String(s) => Constant::String(s.clone()),
            Constant::Boolean(b) => Constant::Boolean(*b),
            Constant::Null => Constant::Null,
        }
    }
}

/// A single bytecode instruction with its operands.
#[derive(Debug, PartialEq)]
pub struct Instruction {
    pub opcode: OpCode,
    /// Operands: indexes into the constant pool, jump targets, counts.
    pub operands: Vec<u32>,
}

/// The mathematical model of an instruction.
pub ghost struct InstructionV {
    pub opcode: OpCode,
    pub operands: Seq<u32>,
}

impl View for Instruction {
    type V = InstructionV;

    open spec fn view(&self) -> InstructionV {
        InstructionV { opcode: self.opcode, operands: self.operands@ }
    }
}

impl Clone for Instruction {
    /// A copy whose model equals the original's.
    fn clone(&self) -> (r: Self)
        ensures
            r@ == self@,
    {
        let mut operands: Vec<u32> = Vec::new();
        let mut i: usize = 0;
        while i < self.operands.len()
            invariant
                i <= self.operands@.len(),
                operands@ == self.operands@.take(i as int),
            decreases self.operands@.len() - i,
        {
            operands.push(self.operands[i]);
            proof {
                assert(operands@ =~= self.operands@.take(i as int + 1));
            }
            i = i + 1;
        }
        proof {
            assert(self.operands@.take(self.operands@.len() as int) =~= self.operands@);
        }
        Instruction { opcode: self.opcode, operands }
    }
}

impl Instruction {
    /// An instruction with no operands yet.
    pub fn new(opcode: OpCode) -> (r: Self)
        ensures
            r@.opcode == opcode,
            r@.operands == Seq::<u32>::empty(),
    {
        let r = Instruction { opcode, operands: Vec::new() };
        proof { assert(r@.operands =~= Seq::<u32>::empty()); }
        r
    }

    /// The instruction with one more operand appended.
    pub fn with_operand(self, operand: u32) -> (r: Self)
        ensures
            r@.opcode == self@.opcode,
            r@.operands == self@.operands.push(operand),
    {
        let Instruction { opcode, mut operands } = self;
        operands.push(operand);
        Instruction { opcode, operands }
    }

    /// The instruction with a list of operands appended.
    pub fn with_operands(self, operands: Vec<u32>) -> (r: Self)
        ensures
            r@.opcode == self@.opcode,
            r@.operands == self@.operands + operands@,
    {
        let Instruction { opcode, operands: mut held } = self;
        let mut more = operands;
        held.append(&mut more);
        Instruction { opcode, operands: held }
    }
}

/// A bytecode module: a name, a constant pool, an instruction sequence, the
/// serialized code page, and a byte-address to instruction-index map.
#[derive(Debug)]
pub struct BytecodeModule {
    pub name: String,
    pub code_page: Vec<u8>,
    pub instructions: Vec<Instruction>,
    pub constants: Vec<Constant>,
    /// Pairs of byte address and instruction index, in increasing order of
    /// address.
    pub address_map: Vec<(u32, usize)>,
}

impl BytecodeModule {
    /// An empty module with the given name.
    pub fn new(name: &str) -> (r: Self)
        ensures
            r.name@ == name@,
            r.instructions@ == Seq::<Instruction>::empty(),
            r.constants@ == Seq::<Constant>::empty(),
            r.code_page@ == Seq::<u8>::empty(),
            r.address_map@ == Seq::<(u32, usize)>::empty(),
    {
        let r = BytecodeModule {
            name: name.to_owned(),
            code_page: Vec::new(),
            instructions: Vec::new(),
            constants: Vec::new(),
            address_map: Vec::new(),
        };
        proof {
            assert(r.instructions@ =~= Seq::<Instruction>::empty());
            assert(r.constants@ =~= Seq::<Constant>::empty());
            assert(r.code_page@ =~= Seq::<u8>::empty());
            assert(r.address_map@ =~= Seq::<(u32, usize)>::empty());
        }
        r
    }
}


impl Clone for BytecodeModule {
    /// A deep copy whose parts model the original's.
    fn clone(&self) -> (r: Self)
        ensures
            r.name@ == self.name@,
            views_of_constants(r.constants@) == views_of_constants(self.constants@),
            views_of_instructions(r.instructions@) == views_of_instructions(self.instructions@),
            r.code_page@ == self.code_page@,
            r.address_map@ == self.address_map@,
    {
        let mut constants: Vec<Constant> = Vec::new();
        let mut i: usize = 0;
        while i < self.constants.len()
            invariant
                i <= self.constants@.len(),
                constants@.len() == i,
                forall|k: int| 0 <= k < i ==> (#[trigger] constants@[k])@ == self.constants@[k]@,
            decreases self.constants@.len() - i,
        {
            constants.push(self.constants[i].clone());
            i = i + 1;
        }
        let mut instructions: Vec<Instruction> = Vec::new();
        let mut j: usize = 0;
        while j < self.instructions.len()
            invariant
                j <= self.instructions@.len(),
                instructions@.len() == j,
                forall|k: int| 0 <= k < j
                    ==> (#[trigger] instructions@[k])@ == self.instructions@[k]@,
            decreases self.instructions@.len() - j,
        {
            instructions.push(self.instructions[j].clone());
            j = j + 1;
        }
        let mut code_page: Vec<u8> = Vec::new();
        let mut p: usize = 0;
        while p < self.code_page.len()
            invariant
                p <= self.code_page@.len(),
                code_page@ == self.code_page@.take(p as int),
            decreases self.code_page@.len() - p,
        {
            code_page.push(self.code_page[p]);
            proof { assert(code_page@ =~= self.code_page@.take(p + 1)); }
            p = p + 1;
        }
        let mut address_map: Vec<(u32, usize)> = Vec::new();
        let mut q: usize = 0;
        while q < self.address_map.len()
            invariant
                q <= self.address_map@.len(),
                address_map@ == self.address_map@.take(q as int),
            decreases self.address_map@.len() - q,
        {
            address_map.push(self.address_map[q]);
            proof { assert(address_map@ =~= self.address_map@.take(q + 1)); }
            q = q + 1;
        }
        let r = BytecodeModule {
            name: self.name.clone(),
            code_page,
            instructions,
            constants,
            address_map,
        };
        proof {
            assert(self.code_page@.take(self.code_page@.len() as int) =~= self.code_page@);
            assert(self.address_map@.take(self.address_map@.len() as int) =~= self.address_map@);
            assert(views_of_constants(r.constants@) =~= views_of_constants(self.constants@));
            assert(views_of_instructions(r.instructions@) =~= views_of_instructions(self.instructions@));
        }
        r
    }
}

/// Errors from decoding a bytecode stream.
#[derive(Debug)]
pub enum ParseError {
    /// The stream ended before the structure it promised.
    IoError(String),
    /// The stream is not in the expected format.
    InvalidFormat(String),
    /// The stream's major version is not supported.
    UnsupportedVersion(u8),
}

/// The UTF-8 encoding of a string.
pub uninterp spec fn utf8_bytes_of(s: Seq<char>) -> Seq<u8>;

/// The string that a byte sequence decodes to, with invalid sequences
/// replaced by the replacement character.
pub uninterp spec fn utf8_lossy_of(b: Seq<u8>) -> Seq<char>;

/// Relies on str::as_bytes: the UTF-8 encoding of the string, which
/// from_utf8_lossy decodes back to the same string; each character encodes
/// to between one and four bytes.
#[verifier::external_body]
pub fn string_bytes(s: &str) -> (r: Vec<u8>)
    ensures
        r@ == utf8_bytes_of(s@),
        utf8_lossy_of(r@) == s@,
        s@.len() <= r@.len() <= 4 * s@.len(),
{
    s.as_bytes().to_vec()
}

/// Relies on String::from_utf8_lossy: decoding bytes, with invalid
/// sequences replaced by the replacement character.
#[verifier::external_body]
pub fn string_from_bytes_lossy(b: &[u8]) -> (r: String)
    ensures
        r@ == utf8_lossy_of(b@),
{
    String::from_utf8_lossy(b).into_owned()
}

/// The big-endian bytes of a 16-bit number.
pub open spec fn be16_of(n: u16) -> Seq<u8> {
    seq![(n >> 8) as u8, n as u8]
}

/// The big-endian bytes of a 32-bit number.
pub open spec fn be32_of(n: u32) -> Seq<u8> {
    seq![(n >> 24) as u8, (n >> 16) as u8, (n >> 8) as u8, n as u8]
}

/// The big-endian bytes of a 64-bit number.
pub open spec fn be64_of(n: u64) -> Seq<u8> {
    seq![
        (n >> 56) as u8,
        (n >> 48) as u8,
        (n >> 40) as u8,
        (n >> 32) as u8,
        (n >> 24) as u8,
        (n >> 16) as u8,
        (n >> 8) as u8,
        n as u8,
    ]
}

/// The 16-bit number whose big-endian bytes open the given sequence.
pub open spec fn be16_at(b: Seq<u8>, pos: int) -> u16 {
    (b[pos] as u16) << 8 | (b[pos + 1] as u16)
}

/// The 32-bit number whose big-endian bytes open the given sequence.
pub open spec fn be32_at(b: Seq<u8>, pos: int) -> u32 {
    (b[pos] as u32) << 24 | (b[pos + 1] as u32) << 16 | (b[pos + 2] as u32) << 8 | (b[pos + 3] as u32)
}

/// The 64-bit number whose big-endian bytes open the given sequence.
pub open spec fn be64_at(b: Seq<u8>, pos: int) -> u64 {
    (b[pos] as u64) << 56 | (b[pos + 1] as u64) << 48 | (b[pos + 2] as u64) << 40
        | (b[pos + 3] as u64) << 32 | (b[pos + 4] as u64) << 24 | (b[pos + 5] as u64) << 16
        | (b[pos + 6] as u64) << 8 | (b[pos + 7] as u64)
}

/// Reading back the big-endian bytes of a 16-bit number yields the number.
pub proof fn lemma_be16_round_trip(n: u16, b: Seq<u8>, pos: int)
    requires
        0 <= pos,
        pos + 2 <= b.len(),
        b.subrange(pos, pos + 2) == be16_of(n),
    ensures
        be16_at(b, pos) == n,
{
    assert(b[pos] == be16_of(n)[0] && b[pos + 1] == be16_of(n)[1]) by {
        assert(b.subrange(pos, pos + 2)[0] == b[pos]);
        assert(b.subrange(pos, pos + 2)[1] == b[pos + 1]);
    }
    assert(((n >> 8) as u8 as u16) << 8 | (n as u8 as u16) == n) by (bit_vector);
}

/// Reading back the big-endian bytes of a 32-bit number yields the number.
pub proof fn lemma_be32_round_trip(n: u32, b: Seq<u8>, pos: int)
    requires
        0 <= pos,
        pos + 4 <= b.len(),
        b.subrange(pos, pos + 4) == be32_of(n),
    ensures
        be32_at(b, pos) == n,
{
    assert(b[pos] == be32_of(n)[0] && b[pos + 1] == be32_of(n)[1] && b[pos + 2] == be32_of(n)[2]
        && b[pos + 3] == be32_of(n)[3]) by {
        assert(b.subrange(pos, pos + 4)[0] == b[pos]);
        assert(b.subrange(pos, pos + 4)[1] == b[pos + 1]);
        assert(b.subrange(pos, pos + 4)[2] == b[pos + 2]);
        assert(b.subrange(pos, pos + 4)[3] == b[pos + 3]);
    }
    assert(((n >> 24) as u8 as u32) << 24 | ((n >> 16) as u8 as u32) << 16
        | ((n >> 8) as u8 as u32) << 8 | (n as u8 as u32) == n) by (bit_vector);
}

/// Reading back the big-endian bytes of a 64-bit number yields the number.
pub proof fn lemma_be64_round_trip(n: u64, b: Seq<u8>, pos: int)
    requires
        0 <= pos,
        pos + 8 <= b.len(),
        b.subrange(pos, pos + 8) == be64_of(n),
    ensures
        be64_at(b, pos) == n,
{
    assert forall|k: int| 0 <= k < 8 implies b[pos + k] == be64_of(n)[k] by {
        assert(b.subrange(pos, pos + 8)[k] == b[pos + k]);
    }
    assert(((n >> 56) as u8 as u64) << 56 | ((n >> 48) as u8 as u64) << 48
        | ((n >> 40) as u8 as u64) << 40 | ((n >> 32) as u8 as u64) << 32
        | ((n >> 24) as u8 as u64) << 24 | ((n >> 16) as u8 as u64) << 16
        | ((n >> 8) as u8 as u64) << 8 | (n as u8 as u64) == n) by (bit_vector);
}

/// Append the big-endian bytes of a 16-bit number.
pub fn put_be16(out: &mut Vec<u8>, n: u16)
    ensures
        final(out)@ == old(out)@ + be16_of(n),
{
    out.push((n >> 8u16) as u8);
    out.push(n as u8);
    proof {
        assert(out@ =~= old(out)@ + be16_of(n));
    }
}

/// Append the big-endian bytes of a 32-bit number.
pub fn put_be32(out: &mut Vec<u8>, n: u32)
    ensures
        final(out)@ == old(out)@ + be32_of(n),
{
    out.push((n >> 24u32) as u8);
    out.push((n >> 16u32) as u8);
    out.push((n >> 8u32) as u8);
    out.push(n as u8);
    proof {
        assert(out@ =~= old(out)@ + be32_of(n));
    }
}

/// Append the big-endian bytes of a 64-bit number.
pub fn put_be64(out: &mut Vec<u8>, n: u64)
    ensures
        final(out)@ == old(out)@ + be64_of(n),
{
    out.push((n >> 56u64) as u8);
    out.push((n >> 48u64) as u8);
    out.push((n >> 40u64) as u8);
    out.push((n >> 32u64) as u8);
    out.push((n >> 24u64) as u8);
    out.push((n >> 16u64) as u8);
    out.push((n >> 8u64) as u8);
    out.push(n as u8);
    proof {
        assert(out@ =~= old(out)@ + be64_of(n));
    }
}

/// Read one byte, advancing the cursor.
pub fn take_u8(bytes: &[u8], pos: &mut usize) -> (r: Result<u8, ParseError>)
    ensures
        match r {
            Result::Ok(v) => old(pos) + 1 <= bytes@.len() && v == bytes@[*old(pos) as int]
                && *final(pos) == *old(pos) + 1,
            Result::Err(e) => old(pos) + 1 > bytes@.len() && *final(pos) == *old(pos)
                && e matches ParseError::IoError(_),
        },
{
    if *pos < bytes.len() {
        let b = bytes[*pos];
        *pos = *pos + 1;
        Ok(b)
    } else {
        Err(ParseError::IoError("unexpected end of bytecode stream".to_owned()))
    }
}

/// Read a big-endian 16-bit number, advancing the cursor.
pub fn take_be16(bytes: &[u8], pos: &mut usize) -> (r: Result<u16, ParseError>)
    ensures
        match r {
            Result::Ok(v) => old(pos) + 2 <= bytes@.len() && v == be16_at(bytes@, *old(pos) as int)
                && *final(pos) == *old(pos) + 2,
            Result::Err(e) => old(pos) + 2 > bytes@.len() && *final(pos) == *old(pos)
                && e matches ParseError::IoError(_),
        },
{
    if *pos < bytes.len() && 2 <= bytes.len() - *pos {
        let b0 = bytes[*pos];
        let b1 = bytes[*pos + 1];
        *pos = *pos + 2;
        Ok((b0 as u16) << 8u16 | (b1 as u16))
    } else {
        Err(ParseError::IoError("unexpected end of bytecode stream".to_owned()))
    }
}

/// Read a big-endian 32-bit number, advancing the cursor.
pub fn take_be32(bytes: &[u8], pos: &mut usize) -> (r: Result<u32, ParseError>)
    ensures
        match r {
            Result::Ok(v) => old(pos) + 4 <= bytes@.len() && v == be32_at(bytes@, *old(pos) as int)
                && *final(pos) == *old(pos) + 4,
            Result::Err(e) => old(pos) + 4 > bytes@.len() && *final(pos) == *old(pos)
                && e matches ParseError::IoError(_),
        },
{
    if *pos < bytes.len() && 4 <= bytes.len() - *pos {
        let b0 = bytes[*pos];
        let b1 = bytes[*pos + 1];
        let b2 = bytes[*pos + 2];
        let b3 = bytes[*pos + 3];
        *pos = *pos + 4;
        Ok((b0 as u32) << 24u32 | (b1 as u32) << 16u32 | (b2 as u32) << 8u32 | (b3 as u32))
    } else {
        Err(ParseError::IoError("unexpected end of bytecode stream".to_owned()))
    }
}

/// Read a big-endian 64-bit number, advancing the cursor.
pub fn take_be64(bytes: &[u8], pos: &mut usize) -> (r: Result<u64, ParseError>)
    ensures
        match r {
            Result::Ok(v) => old(pos) + 8 <= bytes@.len() && v == be64_at(bytes@, *old(pos) as int)
                && *final(pos) == *old(pos) + 8,
            Result::Err(e) => old(pos) + 8 > bytes@.len() && *final(pos) == *old(pos)
                && e matches ParseError::IoError(_),
        },
{
    if *pos < bytes.len() && 8 <= bytes.len() - *pos {
        let b0 = bytes[*pos];
        let b1 = bytes[*pos + 1];
        let b2 = bytes[*pos + 2];
        let b3 = bytes[*pos + 3];
        let b4 = bytes[*pos + 4];
        let b5 = bytes[*pos + 5];
        let b6 = bytes[*pos + 6];
        let b7 = bytes[*pos + 7];
        *pos = *pos + 8;
        Ok((b0 as u64) << 56u64 | (b1 as u64) << 48u64 | (b2 as u64) << 40u64
            | (b3 as u64) << 32u64 | (b4 as u64) << 24u64 | (b5 as u64) << 16u64
            | (b6 as u64) << 8u64 | (b7 as u64))
    } else {
        Err(ParseError::IoError("unexpected end of bytecode stream".to_owned()))
    }
}

/// Read a run of bytes, advancing the cursor.
pub fn take_bytes(bytes: &[u8], pos: &mut usize, n: usize) -> (r: Result<Vec<u8>, ParseError>)
    ensures
        match r {
            Result::Ok(v) => old(pos) + n <= bytes@.len()
                && v@ == bytes@.subrange(*old(pos) as int, *old(pos) + n)
                && *final(pos) == *old(pos) + n,
            Result::Err(e) => old(pos) + n > bytes@.len() && *final(pos) == *old(pos)
                && e matches ParseError::IoError(_),
        },
{
    if n <= bytes.len() && *pos <= bytes.len() - n {
        let mut v: Vec<u8> = Vec::new();
        let mut i: usize = 0;
        while i < n
            invariant
                i <= n,
                *pos + n <= bytes@.len(),
                bytes@.len() <= usize::MAX,
                v@ == bytes@.subrange(*pos as int, *pos + i),
            decreases n - i,
        {
            v.push(bytes[*pos + i]);
            proof {
                assert(v@ =~= bytes@.subrange(*pos as int, *pos + i + 1));
            }
            i = i + 1;
        }
        *pos = *pos + n;
        Ok(v)
    } else {
        Err(ParseError::IoError("unexpected end of bytecode stream".to_owned()))
    }
}


/// The element views of a constant vector.
pub open spec fn views_of_constants(s: Seq<Constant>) -> Seq<ConstantV> {
    Seq::new(s.len(), |i: int| s[i]@)
}

/// The element views of an instruction vector.
pub open spec fn views_of_instructions(s: Seq<Instruction>) -> Seq<InstructionV> {
    Seq::new(s.len(), |i: int| s[i]@)
}

/// The bytes that encode one constant: a tag byte, then its payload.
pub open spec fn encode_constant_of(c: ConstantV) -> Seq<u8> {
    match c {
        ConstantV::Null => seq![0u8],
        ConstantV::Integer(i) => seq![1u8] + be64_of(i as u64),
        ConstantV::Float(b) => seq![2u8] + be64_of(b),
        ConstantV::String(s) => seq![3u8] + be32_of(utf8_bytes_of(s).len() as u32)
            + utf8_bytes_of(s),
        ConstantV::Boolean(b) => seq![4u8, if b { 1u8 } else { 0u8 }],
    }
}

/// The bytes that encode a constant pool, in order.
pub open spec fn encode_constants_of(cs: Seq<ConstantV>) -> Seq<u8>
    decreases cs,
{
    if cs.len() == 0 {
        Seq::empty()
    } else {
        encode_constants_of(cs.drop_last()) + encode_constant_of(cs.last())
    }
}

/// The bytes that encode an instruction's operands, in order.
pub open spec fn encode_operands_of(ops: Seq<u32>) -> Seq<u8>
    decreases ops,
{
    if ops.len() == 0 {
        Seq::empty()
    } else {
        encode_operands_of(ops.drop_last()) + be32_of(ops.last())
    }
}

/// The bytes that encode one instruction: its opcode byte, then its operands.
pub open spec fn encode_instruction_of(i: InstructionV) -> Seq<u8> {
    seq![spec_opcode_byte(i.opcode)] + encode_operands_of(i.operands)
}

/// The bytes that encode an instruction sequence, in order.
pub open spec fn encode_instructions_of(is: Seq<InstructionV>) -> Seq<u8>
    decreases is,
{
    if is.len() == 0 {
        Seq::empty()
    } else {
        encode_instructions_of(is.drop_last()) + encode_instruction_of(is.last())
    }
}

/// The bytes that encode a whole module: magic, version, name, constant
/// pool, instruction sequence.
pub open spec fn encode_module_of(name: Seq<char>, cs: Seq<ConstantV>, is: Seq<InstructionV>) -> Seq<u8> {
    be32_of(MAGIC) + seq![1u8, 0u8] + be16_of(0)
        + be32_of(utf8_bytes_of(name).len() as u32) + utf8_bytes_of(name)
        + be32_of(cs.len() as u32) + encode_constants_of(cs)
        + be32_of(is.len() as u32) + encode_instructions_of(is)
}

/// A constant small enough for the format's length prefixes.
pub open spec fn wf_constant(c: ConstantV) -> bool {
    c matches ConstantV::String(s) ==> utf8_bytes_of(s).len() < 0x1_0000_0000
}

/// An instruction carrying exactly the operands its opcode declares.
pub open spec fn wf_instruction(i: InstructionV) -> bool {
    i.operands.len() == spec_num_operands(i.opcode)
}

/// Module parts that the file format can carry exactly.
pub open spec fn wf_module(name: Seq<char>, cs: Seq<ConstantV>, is: Seq<InstructionV>) -> bool {
    &&& utf8_bytes_of(name).len() < 0x1_0000_0000
    &&& cs.len() < 0x1_0000_0000
    &&& is.len() < 0x1_0000_0000
    &&& forall|k: int| 0 <= k < cs.len() ==> wf_constant(#[trigger] cs[k])
    &&& forall|k: int| 0 <= k < is.len() ==> wf_instruction(#[trigger] is[k])
}

/// Append the encoding of one constant.
fn put_constant(out: &mut Vec<u8>, c: &Constant)
    requires
        wf_constant(c@),
    ensures
        final(out)@ == old(out)@ + encode_constant_of(c@),
        c@ matches ConstantV::String(sv) ==> utf8_lossy_of(utf8_bytes_of(sv)) == sv,
{
    match c {
        Constant::Null => {
            out.push(0u8);
            proof { assert(out@ =~= old(out)@ + encode_constant_of(c@)); }
        },
        Constant::Integer(i) => {
            out.push(1u8);
            #[verifier::truncate]
            let bits: u64 = *i as u64;
            put_be64(out, bits);
            proof { assert(out@ =~= old(out)@ + encode_constant_of(c@)); }
        },
        Constant::Float(b) => {
            out.push(2u8);
            put_be64(out, *b);
            proof { assert(out@ =~= old(out)@ + encode_constant_of(c@)); }
        },
        Constant::String(s) => {
            out.push(3u8);
            let mut bytes = string_bytes(s.as_str());
            put_be32(out, bytes.len() as u32);
            out.append(&mut bytes);
            proof { assert(out@ =~= old(out)@ + encode_constant_of(c@)); }
        },
        Constant::Boolean(b) => {
            out.push(4u8);
            out.push(if *b { 1u8 } else { 0u8 });
            proof { assert(out@ =~= old(out)@ + encode_constant_of(c@)); }
        },
    }
}

/// Append the encoding of one instruction; fails when the operand count
/// disagrees with the opcode's declared count.
fn put_instruction(out: &mut Vec<u8>, instr: &Instruction) -> (r: Result<(), String>)
    ensures
        match r {
            Result::Ok(()) => wf_instruction(instr@)
                && final(out)@ == old(out)@ + encode_instruction_of(instr@),
            Result::Err(e) => !wf_instruction(instr@) && *final(out) == *old(out)
                && e@ == "Operand count mismatch"@,
        },
{
    if instr.opcode.num_operands() != instr.operands.len() {
        proof { reveal_strlit("Operand count mismatch"); }
        return Err("Operand count mismatch".to_owned());
    }
    out.push(instr.opcode.to_byte());
    let mut i: usize = 0;
    while i < instr.operands.len()
        invariant
            i <= instr.operands@.len(),
            out@ == old(out)@ + seq![spec_opcode_byte(instr.opcode)]
                + encode_operands_of(instr.operands@.take(i as int)),
        decreases instr.operands@.len() - i,
    {
        put_be32(out, instr.operands[i]);
        proof {
            assert(instr.operands@.take(i as int + 1).drop_last() =~= instr.operands@.take(i as int));
            assert(encode_operands_of(instr.operands@.take(i as int + 1))
                == encode_operands_of(instr.operands@.take(i as int))
                    + be32_of(instr.operands@.take(i as int + 1).last()));
            assert(out@ =~= old(out)@ + seq![spec_opcode_byte(instr.opcode)]
                + encode_operands_of(instr.operands@.take(i as int + 1)));
        }
        i = i + 1;
    }
    proof {
        assert(instr.operands@.take(instr.operands@.len() as int) =~= instr.operands@);
        assert(out@ =~= old(out)@ + encode_instruction_of(instr@));
    }
    Ok(())
}

/// Serialize a module to its file-format bytes. Succeeds exactly when every
/// instruction carries the operand count its opcode declares; the bytes are
/// then the format's encoding of the module's name, constant pool and
/// instruction sequence.
#[verifier::rlimit(60)]
pub(crate) fn encode_module(m: &BytecodeModule) -> (r: Result<Vec<u8>, String>)
    requires
        utf8_bytes_of(m.name@).len() < 0x1_0000_0000,
        m.constants@.len() < 0x1_0000_0000,
        m.instructions@.len() < 0x1_0000_0000,
        forall|k: int| 0 <= k < m.constants@.len() ==> wf_constant(#[trigger] m.constants@[k]@),
    ensures
        match r {
            Result::Ok(out) => out@ == encode_module_of(m.name@, views_of_constants(m.constants@),
                views_of_instructions(m.instructions@))
                && wf_module(m.name@, views_of_constants(m.constants@),
                    views_of_instructions(m.instructions@))
                && parse_module_of(out@) == Option::Some((m.name@,
                    views_of_constants(m.constants@), views_of_instructions(m.instructions@))),
            Result::Err(e) => e@ == "Operand count mismatch"@
                && exists|k: int| 0 <= k < m.instructions@.len()
                && !wf_instruction(#[trigger] m.instructions@[k]@),
        },
{
    let ghost cs = views_of_constants(m.constants@);
    let ghost is = views_of_instructions(m.instructions@);
    let mut out: Vec<u8> = Vec::new();
    put_be32(&mut out, MAGIC);
    out.push(1u8);
    out.push(0u8);
    put_be16(&mut out, 0u16);
    let mut name_bytes = string_bytes(m.name.as_str());
    put_be32(&mut out, name_bytes.len() as u32);
    out.append(&mut name_bytes);
    let ghost header = out@;

    put_be32(&mut out, m.constants.len() as u32);
    let ghost const_header = out@;
    let mut i: usize = 0;
    while i < m.constants.len()
        invariant
            i <= m.constants@.len(),
            cs == views_of_constants(m.constants@),
            utf8_lossy_of(utf8_bytes_of(m.name@)) == m.name@,
            forall|k: int| 0 <= k < m.constants@.len() ==> wf_constant(#[trigger] m.constants@[k]@),
            forall|k: int| 0 <= k < i ==> string_round_trips(#[trigger] cs[k]),
            out@ == const_header + encode_constants_of(cs.take(i as int)),
        decreases m.constants@.len() - i,
    {
        put_constant(&mut out, &m.constants[i]);
        proof {
            assert(cs.take(i as int + 1).drop_last() =~= cs.take(i as int));
            assert(cs.take(i as int + 1).last() == m.constants@[i as int]@);
            assert(out@ =~= const_header + encode_constants_of(cs.take(i as int + 1)));
            assert(string_round_trips(cs[i as int]));
        }
        i = i + 1;
    }
    proof { assert(cs.take(cs.len() as int) =~= cs); }

    put_be32(&mut out, m.instructions.len() as u32);
    let ghost instr_header = out@;
    let mut j: usize = 0;
    while j < m.instructions.len()
        invariant
            j <= m.instructions@.len(),
            is == views_of_instructions(m.instructions@),
            cs == views_of_constants(m.constants@),
            utf8_lossy_of(utf8_bytes_of(m.name@)) == m.name@,
            utf8_bytes_of(m.name@).len() < 0x1_0000_0000,
            cs.len() < 0x1_0000_0000,
            m.instructions@.len() < 0x1_0000_0000,
            forall|k: int| 0 <= k < cs.len() ==> wf_constant(#[trigger] cs[k]),
            forall|k: int| 0 <= k < cs.len() ==> string_round_trips(#[trigger] cs[k]),
            forall|k: int| 0 <= k < j ==> wf_instruction(#[trigger] is[k]),
            out@ == instr_header + encode_instructions_of(is.take(j as int)),
        decreases m.instructions@.len() - j,
    {
        match put_instruction(&mut out, &m.instructions[j]) {
            Ok(()) => {},
            Err(e) => {
                return Err(e);
            },
        }
        proof {
            assert(is.take(j as int + 1).drop_last() =~= is.take(j as int));
            assert(is.take(j as int + 1).last() == m.instructions@[j as int]@);
            assert(out@ =~= instr_header + encode_instructions_of(is.take(j as int + 1)));
        }
        j = j + 1;
    }
    proof {
        assert(is.take(is.len() as int) =~= is);
        assert(out@ =~= encode_module_of(m.name@, cs, is));
        lemma_module_round_trip(m.name@, cs, is);
    }
    Ok(out)
}


/// Serialize a module to its file-format bytes, checking the format's size
/// limits first: the module name, every string constant, and both pools
/// must fit their 32-bit length prefixes, and every instruction must carry
/// the operand count its opcode declares. On success the bytes decode back
/// to the module's name, constant pool and instruction sequence.
pub fn write_bytecode(m: &BytecodeModule) -> (r: Result<Vec<u8>, String>)
    ensures
        match r {
            Result::Ok(out) => out@ == encode_module_of(m.name@, views_of_constants(m.constants@),
                views_of_instructions(m.instructions@))
                && parse_module_of(out@) == Option::Some((m.name@,
                    views_of_constants(m.constants@), views_of_instructions(m.instructions@))),
            Result::Err(e) => ((exists|k: int| 0 <= k < m.instructions@.len()
                    && !wf_instruction(#[trigger] m.instructions@[k]@))
                || !wf_module(m.name@, views_of_constants(m.constants@),
                    views_of_instructions(m.instructions@)))
                && (e@ == "Operand count mismatch"@
                        ==> exists|k: int| 0 <= k < m.instructions@.len()
                            && !wf_instruction(#[trigger] m.instructions@[k]@))
                && (e@ == "module name too long for the format"@
                    || e@ == "too many constants for the format"@
                    || e@ == "too many instructions for the format"@
                    || e@ == "string constant too long for the format"@
                    || e@ == "Operand count mismatch"@),
        },
{
    proof {
        reveal_strlit("module name too long for the format");
        reveal_strlit("too many constants for the format");
        reveal_strlit("too many instructions for the format");
        reveal_strlit("string constant too long for the format");
        reveal_strlit("Operand count mismatch");
        assert("Operand count mismatch"@.len() == 22);
        assert("module name too long for the format"@.len() == 35);
        assert("too many constants for the format"@.len() == 33);
        assert("too many instructions for the format"@.len() == 36);
        assert("string constant too long for the format"@.len() == 39);
    }
    let name_bytes = string_bytes(m.name.as_str());
    if name_bytes.len() as u64 >= 0x1_0000_0000 {
        proof {
            assert(!wf_module(m.name@, views_of_constants(m.constants@),
                views_of_instructions(m.instructions@)));
        }
        return Err("module name too long for the format".to_owned());
    }
    if m.constants.len() as u64 >= 0x1_0000_0000 {
        proof {
            assert(!wf_module(m.name@, views_of_constants(m.constants@),
                views_of_instructions(m.instructions@)));
        }
        return Err("too many constants for the format".to_owned());
    }
    if m.instructions.len() as u64 >= 0x1_0000_0000 {
        proof {
            assert(!wf_module(m.name@, views_of_constants(m.constants@),
                views_of_instructions(m.instructions@)));
        }
        return Err("too many instructions for the format".to_owned());
    }
    let mut i: usize = 0;
    while i < m.constants.len()
        invariant
            i <= m.constants@.len(),
            forall|k: int| 0 <= k < i ==> wf_constant(#[trigger] m.constants@[k]@),
        decreases m.constants@.len() - i,
    {
        match &m.constants[i] {
            Constant::String(s) => {
                let bytes = string_bytes(s.as_str());
                if bytes.len() as u64 >= 0x1_0000_0000 {
                    proof {
                        reveal_strlit("string constant too long for the format");
                        reveal_strlit("Operand count mismatch");
                        assert("string constant too long for the format"@.len() == 39);
                        assert("Operand count mismatch"@.len() == 22);
                        assert(views_of_constants(m.constants@)[i as int]
                            == m.constants@[i as int]@);
                        assert(!wf_constant(views_of_constants(m.constants@)[i as int]));
                        assert(!wf_module(m.name@, views_of_constants(m.constants@),
                            views_of_instructions(m.instructions@)));
                    }
                    return Err("string constant too long for the format".to_owned());
                }
            },
            _ => {},
        }
        i = i + 1;
    }
    encode_module(m)
}

/// Where parsing one constant at a position lands: the constant and the
/// position after it.
pub open spec fn parse_constant_at(b: Seq<u8>, pos: int) -> Option<(ConstantV, int)> {
    if pos + 1 > b.len() {
        Option::None
    } else {
        let tag = b[pos];
        if tag == 0 {
            Option::Some((ConstantV::Null, pos + 1))
        } else if tag == 1 {
            if pos + 9 <= b.len() {
                Option::Some((ConstantV::Integer(be64_at(b, pos + 1) as i64), pos + 9))
            } else {
                Option::None
            }
        } else if tag == 2 {
            if pos + 9 <= b.len() {
                Option::Some((ConstantV::Float(be64_at(b, pos + 1)), pos + 9))
            } else {
                Option::None
            }
        } else if tag == 3 {
            if pos + 5 <= b.len() {
                let n = be32_at(b, pos + 1) as int;
                if pos + 5 + n <= b.len() {
                    Option::Some((ConstantV::String(utf8_lossy_of(b.subrange(pos + 5, pos + 5 + n))),
                        pos + 5 + n))
                } else {
                    Option::None
                }
            } else {
                Option::None
            }
        } else if tag == 4 {
            if pos + 2 <= b.len() {
                Option::Some((ConstantV::Boolean(b[pos + 1] != 0), pos + 2))
            } else {
                Option::None
            }
        } else {
            Option::None
        }
    }
}

/// Where parsing a run of constants lands.
pub open spec fn parse_constants_at(b: Seq<u8>, pos: int, n: nat) -> Option<(Seq<ConstantV>, int)>
    decreases n,
{
    if n == 0 {
        Option::Some((Seq::empty(), pos))
    } else {
        match parse_constants_at(b, pos, (n - 1) as nat) {
            Option::None => Option::None,
            Option::Some((cs, p)) => match parse_constant_at(b, p) {
                Option::None => Option::None,
                Option::Some((c, p2)) => Option::Some((cs.push(c), p2)),
            },
        }
    }
}

/// Where parsing a run of 32-bit operands lands.
pub open spec fn parse_operands_at(b: Seq<u8>, pos: int, n: nat) -> Option<(Seq<u32>, int)>
    decreases n,
{
    if n == 0 {
        Option::Some((Seq::empty(), pos))
    } else {
        match parse_operands_at(b, pos, (n - 1) as nat) {
            Option::None => Option::None,
            Option::Some((ops, p)) => if p + 4 <= b.len() {
                Option::Some((ops.push(be32_at(b, p)), p + 4))
            } else {
                Option::None
            },
        }
    }
}

/// Where parsing one instruction lands; an unknown opcode byte reads as a
/// no-operation.
pub open spec fn parse_instruction_at(b: Seq<u8>, pos: int) -> Option<(InstructionV, int)> {
    if pos + 1 > b.len() {
        Option::None
    } else {
        let op = spec_opcode_of_byte(b[pos]).unwrap_or(OpCode::Nop);
        match parse_operands_at(b, pos + 1, spec_num_operands(op) as nat) {
            Option::None => Option::None,
            Option::Some((ops, p)) => Option::Some((InstructionV { opcode: op, operands: ops }, p)),
        }
    }
}

/// Where parsing a run of instructions lands.
pub open spec fn parse_instructions_at(b: Seq<u8>, pos: int, n: nat) -> Option<(Seq<InstructionV>, int)>
    decreases n,
{
    if n == 0 {
        Option::Some((Seq::empty(), pos))
    } else {
        match parse_instructions_at(b, pos, (n - 1) as nat) {
            Option::None => Option::None,
            Option::Some((is, p)) => match parse_instruction_at(b, p) {
                Option::None => Option::None,
                Option::Some((i, p2)) => Option::Some((is.push(i), p2)),
            },
        }
    }
}

/// What a whole byte stream parses to: the module name, constant pool and
/// instruction sequence, or nothing when the stream is rejected.
pub open spec fn parse_module_of(b: Seq<u8>) -> Option<(Seq<char>, Seq<ConstantV>, Seq<InstructionV>)> {
    if 4 > b.len() || be32_at(b, 0) != MAGIC {
        Option::None
    } else if 5 > b.len() || b[4] != 1 {
        Option::None
    } else if 12 > b.len() {
        Option::None
    } else {
        let name_len = be32_at(b, 8) as int;
        if 12 + name_len > b.len() {
            Option::None
        } else {
            let name = utf8_lossy_of(b.subrange(12, 12 + name_len));
            let cpos = 12 + name_len;
            if cpos + 4 > b.len() {
                Option::None
            } else {
                let ccount = be32_at(b, cpos) as nat;
                match parse_constants_at(b, cpos + 4, ccount) {
                    Option::None => Option::None,
                    Option::Some((cs, ipos)) => if ipos + 4 > b.len() {
                        Option::None
                    } else {
                        let icount = be32_at(b, ipos) as nat;
                        match parse_instructions_at(b, ipos + 4, icount) {
                            Option::None => Option::None,
                            Option::Some((is, _end)) => Option::Some((name, cs, is)),
                        }
                    },
                }
            }
        }
    }
}

/// The byte length of one encoded instruction.
pub open spec fn instruction_size_of(i: InstructionV) -> int {
    1 + 4 * spec_num_operands(i.opcode)
}

/// The byte address of the k-th instruction, counted from the start of the
/// instruction stream.
pub open spec fn address_of(is: Seq<InstructionV>, k: int) -> int
    decreases k,
{
    if k <= 0 {
        0
    } else {
        address_of(is, k - 1) + instruction_size_of(is[k - 1])
    }
}

/// Parse a module from its file-format bytes. The result is exactly what the
/// stream dictates: a wrong magic number or an unknown constant tag is an
/// invalid-format error, a major version other than one is unsupported, and
/// a stream that ends early is an IO error. The address map records, for
/// each instruction, its byte address within the instruction stream.
pub fn parse_module(bytes: &[u8]) -> (r: Result<BytecodeModule, ParseError>)
    ensures
        match r {
            Result::Ok(m) => parse_module_of(bytes@) == Option::Some(
                (m.name@, views_of_constants(m.constants@), views_of_instructions(m.instructions@)))
                && m.address_map@.len() == m.instructions@.len()
                && forall|k: int| 0 <= k < m.instructions@.len()
                    ==> #[trigger] m.address_map@[k]
                        == ((address_of(views_of_instructions(m.instructions@), k) % 0x1_0000_0000) as u32, k as usize),
            Result::Err(_) => parse_module_of(bytes@) is None,
        },
        bytes@.len() >= 4 && be32_at(bytes@, 0) != MAGIC
            ==> (r matches Result::Err(e) && e matches ParseError::InvalidFormat(_)),
        bytes@.len() >= 5 && be32_at(bytes@, 0) == MAGIC && bytes@[4] != 1
            ==> (r matches Result::Err(e) && e matches ParseError::UnsupportedVersion(v)
                && v == bytes@[4]),
        r matches Result::Err(e)
            ==> (e matches ParseError::UnsupportedVersion(v)
                ==> (bytes@.len() >= 5 && be32_at(bytes@, 0) == MAGIC
                    && v == bytes@[4] && v != 1)),
{
    let mut pos: usize = 0;
    let magic = match take_be32(bytes, &mut pos) {
        Ok(v) => v,
        Err(e) => { return Err(e); },
    };
    if magic != MAGIC {
        return Err(ParseError::InvalidFormat("Invalid magic number".to_owned()));
    }
    let version = match take_u8(bytes, &mut pos) {
        Ok(v) => v,
        Err(e) => { return Err(e); },
    };
    if version != 1 {
        return Err(ParseError::UnsupportedVersion(version));
    }
    let _minor = match take_u8(bytes, &mut pos) {
        Ok(v) => v,
        Err(e) => { return Err(e); },
    };
    let _patch = match take_be16(bytes, &mut pos) {
        Ok(v) => v,
        Err(e) => { return Err(e); },
    };
    let name_len = match take_be32(bytes, &mut pos) {
        Ok(v) => v,
        Err(e) => { return Err(e); },
    };
    let name_bytes = match take_bytes(bytes, &mut pos, name_len as usize) {
        Ok(v) => v,
        Err(e) => { return Err(e); },
    };
    let name = string_from_bytes_lossy(name_bytes.as_slice());

    let ccount = match take_be32(bytes, &mut pos) {
        Ok(v) => v,
        Err(e) => { return Err(e); },
    };
    let ghost cstart = pos as int;
    let ghost nlen = name_len as int;
    let mut constants: Vec<Constant> = Vec::new();
    let mut ci: u32 = 0;
    while ci < ccount
        invariant
            ci <= ccount,
            pos <= bytes@.len(),
            constants@.len() == ci,
            bytes@.len() >= 12 + nlen + 4,
            be32_at(bytes@, 0) == MAGIC,
            bytes@[4] == 1u8,
            nlen == be32_at(bytes@, 8) as int,
            ccount == be32_at(bytes@, 12 + nlen),
            cstart == 16 + nlen,
            parse_constants_at(bytes@, cstart, ci as nat)
                == Option::Some((views_of_constants(constants@), pos as int)),
        decreases ccount - ci,
    {
        let ghost prev_pos = pos as int;
        let ghost prev = views_of_constants(constants@);
        let tag = match take_u8(bytes, &mut pos) {
            Ok(v) => v,
            Err(e) => {
                proof { lemma_parse_constants_extend_none(bytes@, cstart, ci as nat, ccount as nat); }
                return Err(e);
            },
        };
        let c: Constant = if tag == 0 {
            Constant::Null
        } else if tag == 1 {
            let v = match take_be64(bytes, &mut pos) {
                Ok(v) => v,
                Err(e) => {
                    proof { lemma_parse_constants_extend_none(bytes@, cstart, ci as nat, ccount as nat); }
                    return Err(e);
                },
            };
            #[verifier::truncate]
            let as_int: i64 = v as i64;
            Constant::Integer(as_int)
        } else if tag == 2 {
            let v = match take_be64(bytes, &mut pos) {
                Ok(v) => v,
                Err(e) => {
                    proof { lemma_parse_constants_extend_none(bytes@, cstart, ci as nat, ccount as nat); }
                    return Err(e);
                },
            };
            Constant::Float(v)
        } else if tag == 3 {
            let n = match take_be32(bytes, &mut pos) {
                Ok(v) => v,
                Err(e) => {
                    proof { lemma_parse_constants_extend_none(bytes@, cstart, ci as nat, ccount as nat); }
                    return Err(e);
                },
            };
            let str_bytes = match take_bytes(bytes, &mut pos, n as usize) {
                Ok(v) => v,
                Err(e) => {
                    proof { lemma_parse_constants_extend_none(bytes@, cstart, ci as nat, ccount as nat); }
                    return Err(e);
                },
            };
            Constant::String(string_from_bytes_lossy(str_bytes.as_slice()))
        } else if tag == 4 {
            let v = match take_u8(bytes, &mut pos) {
                Ok(v) => v,
                Err(e) => {
                    proof { lemma_parse_constants_extend_none(bytes@, cstart, ci as nat, ccount as nat); }
                    return Err(e);
                },
            };
            Constant::Boolean(v != 0)
        } else {
            proof { lemma_parse_constants_extend_none(bytes@, cstart, ci as nat, ccount as nat); }
            let mut msg = "Unknown constant type: ".to_owned();
            msg.append(u64_string(tag as u64).as_str());
            return Err(ParseError::InvalidFormat(msg));
        };
        constants.push(c);
        proof {
            assert(parse_constant_at(bytes@, prev_pos) == Option::Some((c@, pos as int)));
            assert(views_of_constants(constants@) =~= prev.push(c@));
            lemma_parse_constants_extend(bytes@, cstart, ci as nat);
        }
        ci = ci + 1;
    }

    let icount = match take_be32(bytes, &mut pos) {
        Ok(v) => v,
        Err(e) => { return Err(e); },
    };
    let ghost istart = pos as int;
    let mut instructions: Vec<Instruction> = Vec::new();
    let mut address_map: Vec<(u32, usize)> = Vec::new();
    let mut code_page: Vec<u8> = Vec::new();
    let mut address: u32 = 0;
    let mut ii: u32 = 0;
    while ii < icount
        invariant
            ii <= icount,
            pos <= bytes@.len(),
            instructions@.len() == ii,
            address_map@.len() == ii,
            bytes@.len() >= 12 + nlen + 4,
            be32_at(bytes@, 0) == MAGIC,
            bytes@[4] == 1u8,
            nlen == be32_at(bytes@, 8) as int,
            ccount == be32_at(bytes@, 12 + nlen),
            cstart == 16 + nlen,
            parse_constants_at(bytes@, cstart, ccount as nat)
                == Option::Some((views_of_constants(constants@), istart - 4)),
            istart - 4 + 4 <= bytes@.len(),
            icount == be32_at(bytes@, istart - 4),
            parse_instructions_at(bytes@, istart, ii as nat)
                == Option::Some((views_of_instructions(instructions@), pos as int)),
            address as int == address_of(views_of_instructions(instructions@), ii as int) % 0x1_0000_0000,
            forall|k: int| 0 <= k < ii ==> #[trigger] address_map@[k]
                == ((address_of(views_of_instructions(instructions@), k) % 0x1_0000_0000) as u32, k as usize),
        decreases icount - ii,
    {
        let ghost prev_pos = pos as int;
        let ghost prev = views_of_instructions(instructions@);
        let opcode_byte = match take_u8(bytes, &mut pos) {
            Ok(v) => v,
            Err(e) => {
                proof { lemma_parse_instructions_extend_none(bytes@, istart, ii as nat, icount as nat); }
                return Err(e);
            },
        };
        code_page.push(opcode_byte);
        let opcode = OpCode::of_byte_or_nop(opcode_byte);
        let count = opcode.num_operands();
        let mut operands: Vec<u32> = Vec::new();
        let mut k: usize = 0;
        while k < count
            invariant
                k <= count,
                pos <= bytes@.len(),
                operands@.len() == k,
                0 <= prev_pos,
                prev_pos + 1 <= bytes@.len(),
                opcode_byte == bytes@[prev_pos as int],
                opcode == spec_opcode_of_byte(opcode_byte).unwrap_or(OpCode::Nop),
                count == spec_num_operands(opcode),
                ii < icount,
                bytes@.len() >= 12 + nlen + 4,
                be32_at(bytes@, 0) == MAGIC,
                bytes@[4] == 1u8,
                nlen == be32_at(bytes@, 8) as int,
                ccount == be32_at(bytes@, 12 + nlen),
                cstart == 16 + nlen,
                parse_constants_at(bytes@, cstart, ccount as nat)
                    == Option::Some((views_of_constants(constants@), istart - 4)),
                istart <= bytes@.len(),
                icount == be32_at(bytes@, istart - 4),
                parse_instructions_at(bytes@, istart, ii as nat)
                    == Option::Some((views_of_instructions(instructions@), prev_pos)),
                parse_operands_at(bytes@, prev_pos + 1, k as nat)
                    == Option::Some((operands@, pos as int)),
            decreases count - k,
        {
            let ghost prev_ops = operands@;
            let v = match take_be32(bytes, &mut pos) {
                Ok(v) => v,
                Err(e) => {
                    proof {
                        lemma_parse_operands_extend_none(bytes@, prev_pos + 1, k as nat, count as nat);
                        assert(parse_instruction_at(bytes@, prev_pos) is None);
                        lemma_parse_instructions_extend_none(bytes@, istart, ii as nat, icount as nat);
                    }
                    return Err(e);
                },
            };
            #[verifier::truncate]
            let vb0: u8 = (v >> 24u32) as u8;
            #[verifier::truncate]
            let vb1: u8 = (v >> 16u32) as u8;
            #[verifier::truncate]
            let vb2: u8 = (v >> 8u32) as u8;
            #[verifier::truncate]
            let vb3: u8 = v as u8;
            code_page.push(vb0);
            code_page.push(vb1);
            code_page.push(vb2);
            code_page.push(vb3);
            operands.push(v);
            proof {
                lemma_parse_operands_extend(bytes@, prev_pos + 1, k as nat);
            }
            k = k + 1;
        }
        let instr = Instruction { opcode, operands };
        address_map.push((address, ii as usize));
        let step: u32 = 1 + 4 * (count as u32);
        let new_address = address.wrapping_add(step);
        instructions.push(instr);
        proof {
            assert(parse_instruction_at(bytes@, prev_pos) == Option::Some((instr@, pos as int)));
            assert(views_of_instructions(instructions@) =~= prev.push(instr@));
            lemma_parse_instructions_extend(bytes@, istart, ii as nat);
            let nis = views_of_instructions(instructions@);
            assert(nis.len() == ii + 1);
            assert forall|k2: int| 0 <= k2 < ii + 1 implies #[trigger] address_map@[k2]
                == ((address_of(nis, k2) % 0x1_0000_0000) as u32, k2 as usize) by {
                lemma_address_of_prefix(prev, nis, k2);
                if k2 < ii {
                } else {
                    assert(address_of(nis, ii as int) == address_of(prev, ii as int));
                }
            }
            lemma_address_of_prefix(prev, nis, ii as int);
            assert(address_of(nis, ii + 1)
                == address_of(nis, ii as int) + instruction_size_of(nis[ii as int]));
            assert(new_address as int == address_of(nis, ii + 1) % 0x1_0000_0000) by {
                assert(new_address == (address as int + step as int) % 0x1_0000_0000);
                assert(instruction_size_of(nis[ii as int]) == step as int);
                lemma_address_of_nonneg(prev, ii as int);
                lemma_mod_add(address_of(prev, ii as int), step as int);
            }
        }
        address = new_address;
        ii = ii + 1;
    }

    let module = BytecodeModule { name, code_page, instructions, constants, address_map };
    Ok(module)
}

/// Instruction addresses depend only on the instructions before them.
proof fn lemma_address_of_prefix(a: Seq<InstructionV>, b: Seq<InstructionV>, k: int)
    requires
        0 <= k <= a.len(),
        a.len() <= b.len(),
        forall|j: int| 0 <= j < a.len() ==> a[j] == b[j],
    ensures
        address_of(a, k) == address_of(b, k),
    decreases k,
{
    if k > 0 {
        lemma_address_of_prefix(a, b, k - 1);
    }
}

/// Instruction addresses are never negative.
proof fn lemma_address_of_nonneg(is: Seq<InstructionV>, k: int)
    ensures
        address_of(is, k) >= 0,
    decreases k,
{
    if k > 0 {
        lemma_address_of_nonneg(is, k - 1);
    }
}

proof fn lemma_mod_add(a: int, s: int)
    requires
        a >= 0,
        0 <= s < 0x1_0000_0000,
    ensures
        (a % 0x1_0000_0000 + s) % 0x1_0000_0000 == (a + s) % 0x1_0000_0000,
{
    let m = 0x1_0000_0000int;
    vstd::arithmetic::div_mod::lemma_add_mod_noop(a, s, m);
    vstd::arithmetic::div_mod::lemma_mod_twice(a, m);
    vstd::arithmetic::div_mod::lemma_add_mod_noop(a % m, s, m);
    vstd::arithmetic::div_mod::lemma_mod_twice(s, m);
}

/// Parsing one more constant extends a successful run by one.
proof fn lemma_parse_constants_extend(b: Seq<u8>, start: int, n: nat)
    ensures
        parse_constants_at(b, start, (n + 1) as nat) == match parse_constants_at(b, start, n) {
            Option::None => Option::None::<(Seq<ConstantV>, int)>,
            Option::Some((cs, p)) => match parse_constant_at(b, p) {
                Option::None => Option::None,
                Option::Some((c, p2)) => Option::Some((cs.push(c), p2)),
            },
        },
{
}

/// A failed run of constants stays failed for any larger count.
proof fn lemma_parse_constants_extend_none(b: Seq<u8>, start: int, n: nat, m: nat)
    requires
        n <= m,
        match parse_constants_at(b, start, n) {
            Option::None => true,
            Option::Some((cs, p)) => parse_constant_at(b, p) is None,
        },
    ensures
        n < m ==> parse_constants_at(b, start, m) is None,
    decreases m,
{
    if n < m {
        lemma_parse_constants_extend_none(b, start, n, (m - 1) as nat);
        if m - 1 == n {
        }
    }
}

/// Parsing one more operand extends a successful run by one.
proof fn lemma_parse_operands_extend(b: Seq<u8>, start: int, n: nat)
    ensures
        parse_operands_at(b, start, (n + 1) as nat) == match parse_operands_at(b, start, n) {
            Option::None => Option::None::<(Seq<u32>, int)>,
            Option::Some((ops, p)) => if p + 4 <= b.len() {
                Option::Some((ops.push(be32_at(b, p)), p + 4))
            } else {
                Option::None
            },
        },
{
}

/// A failed run of operands stays failed for any larger count.
proof fn lemma_parse_operands_extend_none(b: Seq<u8>, start: int, n: nat, m: nat)
    requires
        n <= m,
        match parse_operands_at(b, start, n) {
            Option::None => true,
            Option::Some((ops, p)) => p + 4 > b.len(),
        },
    ensures
        n < m ==> parse_operands_at(b, start, m) is None,
    decreases m,
{
    if n < m {
        lemma_parse_operands_extend_none(b, start, n, (m - 1) as nat);
        if m - 1 == n {
        }
    }
}

/// Parsing one more instruction extends a successful run by one.
proof fn lemma_parse_instructions_extend(b: Seq<u8>, start: int, n: nat)
    ensures
        parse_instructions_at(b, start, (n + 1) as nat) == match parse_instructions_at(b, start, n) {
            Option::None => Option::None::<(Seq<InstructionV>, int)>,
            Option::Some((is, p)) => match parse_instruction_at(b, p) {
                Option::None => Option::None,
                Option::Some((i, p2)) => Option::Some((is.push(i), p2)),
            },
        },
{
}

/// A failed run of instructions stays failed for any larger count.
proof fn lemma_parse_instructions_extend_none(b: Seq<u8>, start: int, n: nat, m: nat)
    requires
        n <= m,
        match parse_instructions_at(b, start, n) {
            Option::None => true,
            Option::Some((is, p)) => parse_instruction_at(b, p) is None,
        },
    ensures
        n < m ==> parse_instructions_at(b, start, m) is None,
    decreases m,
{
    if n < m {
        lemma_parse_instructions_extend_none(b, start, n, (m - 1) as nat);
        if m - 1 == n {
        }
    }
}


/// A constant whose string payload, if any, survives UTF-8 encoding and
/// lossy decoding unchanged. Every constant built from a real string does.
pub open spec fn string_round_trips(c: ConstantV) -> bool {
    c matches ConstantV::String(sv) ==> utf8_lossy_of(utf8_bytes_of(sv)) == sv
}

/// Parsing the encoding of one constant yields the constant.
proof fn lemma_constant_round_trip(b: Seq<u8>, pos: int, c: ConstantV)
    requires
        0 <= pos,
        pos + encode_constant_of(c).len() <= b.len(),
        b.subrange(pos, pos + encode_constant_of(c).len()) == encode_constant_of(c),
        wf_constant(c),
        string_round_trips(c),
    ensures
        parse_constant_at(b, pos) == Option::Some((c, pos + encode_constant_of(c).len())),
{
    let enc = encode_constant_of(c);
    assert(b.subrange(pos, pos + enc.len())[0] == b[pos]);
    match c {
        ConstantV::Null => {
            assert(b[pos] == 0u8);
        },
        ConstantV::Integer(i) => {
            assert(b[pos] == 1u8);
            assert(b.subrange(pos + 1, pos + 9) =~= be64_of(i as u64)) by {
                assert forall|k: int| 0 <= k < 8
                    implies #[trigger] b.subrange(pos + 1, pos + 9)[k] == be64_of(i as u64)[k] by {
                    assert(b.subrange(pos, pos + enc.len())[1 + k] == b[pos + 1 + k]);
                    assert(b.subrange(pos + 1, pos + 9)[k] == b[pos + 1 + k]);
                    assert(enc[1 + k] == be64_of(i as u64)[k]);
                }
            }
            lemma_be64_round_trip(i as u64, b, pos + 1);
            assert((i as u64) as i64 == i) by (bit_vector);
        },
        ConstantV::Float(f) => {
            assert(b[pos] == 2u8);
            assert(b.subrange(pos + 1, pos + 9) =~= be64_of(f)) by {
                assert forall|k: int| 0 <= k < 8
                    implies #[trigger] b.subrange(pos + 1, pos + 9)[k] == be64_of(f)[k] by {
                    assert(b.subrange(pos, pos + enc.len())[1 + k] == b[pos + 1 + k]);
                    assert(b.subrange(pos + 1, pos + 9)[k] == b[pos + 1 + k]);
                    assert(enc[1 + k] == be64_of(f)[k]);
                }
            }
            lemma_be64_round_trip(f, b, pos + 1);
        },
        ConstantV::String(sv) => {
            let n = utf8_bytes_of(sv).len() as int;
            assert(b[pos] == 3u8);
            assert(b.subrange(pos + 1, pos + 5) =~= be32_of(n as u32)) by {
                assert forall|k: int| 0 <= k < 4
                    implies #[trigger] b.subrange(pos + 1, pos + 5)[k] == be32_of(n as u32)[k] by {
                    assert(b.subrange(pos, pos + enc.len())[1 + k] == b[pos + 1 + k]);
                    assert(b.subrange(pos + 1, pos + 5)[k] == b[pos + 1 + k]);
                    assert(enc[1 + k] == be32_of(n as u32)[k]);
                }
            }
            lemma_be32_round_trip(n as u32, b, pos + 1);
            assert(b.subrange(pos + 5, pos + 5 + n) =~= utf8_bytes_of(sv)) by {
                assert forall|k: int| 0 <= k < n
                    implies #[trigger] b.subrange(pos + 5, pos + 5 + n)[k] == utf8_bytes_of(sv)[k] by {
                    assert(b.subrange(pos, pos + enc.len())[5 + k] == b[pos + 5 + k]);
                    assert(b.subrange(pos + 5, pos + 5 + n)[k] == b[pos + 5 + k]);
                    assert(enc[5 + k] == utf8_bytes_of(sv)[k]);
                }
            }
        },
        ConstantV::Boolean(v) => {
            assert(b[pos] == 4u8);
            assert(b.subrange(pos, pos + enc.len())[1] == b[pos + 1]);
            assert(b[pos + 1] == (if v { 1u8 } else { 0u8 }));
            assert(b[pos + 1] != 0 <==> v);
        },
    }
}

/// Parsing the encoding of a constant pool yields the pool.
proof fn lemma_constants_round_trip(b: Seq<u8>, pos: int, cs: Seq<ConstantV>)
    requires
        0 <= pos,
        pos + encode_constants_of(cs).len() <= b.len(),
        b.subrange(pos, pos + encode_constants_of(cs).len()) == encode_constants_of(cs),
        forall|k: int| 0 <= k < cs.len() ==> wf_constant(#[trigger] cs[k]),
        forall|k: int| 0 <= k < cs.len() ==> string_round_trips(#[trigger] cs[k]),
    ensures
        parse_constants_at(b, pos, cs.len()) == Option::Some((cs, pos + encode_constants_of(cs).len())),
    decreases cs,
{
    if cs.len() == 0 {
        assert(parse_constants_at(b, pos, 0) == Option::Some((Seq::<ConstantV>::empty(), pos)));
        assert(cs =~= Seq::<ConstantV>::empty());
    } else {
        let front = cs.drop_last();
        let last = cs.last();
        let efront = encode_constants_of(front);
        let elast = encode_constant_of(last);
        assert(encode_constants_of(cs) == efront + elast);
        assert(b.subrange(pos, pos + efront.len()) =~= efront) by {
            assert forall|k: int| 0 <= k < efront.len()
                implies b.subrange(pos, pos + efront.len())[k] == efront[k] by {
                assert(b.subrange(pos, pos + encode_constants_of(cs).len())[k] == b[pos + k]);
                assert((efront + elast)[k] == efront[k]);
            }
        }
        lemma_constants_round_trip(b, pos, front);
        let mid = pos + efront.len();
        assert(b.subrange(mid, mid + elast.len()) =~= elast) by {
            assert forall|k: int| 0 <= k < elast.len()
                implies b.subrange(mid, mid + elast.len())[k] == elast[k] by {
                assert(b.subrange(pos, pos + encode_constants_of(cs).len())[efront.len() + k]
                    == b[mid + k]);
                assert((efront + elast)[efront.len() + k] == elast[k]);
            }
        }
        lemma_constant_round_trip(b, mid, last);
        assert(parse_constants_at(b, pos, cs.len()) == Option::Some((front.push(last), mid + elast.len())));
        assert(front.push(last) =~= cs);
    }
}

/// Parsing the encoding of an operand list yields the list.
proof fn lemma_operands_round_trip(b: Seq<u8>, pos: int, ops: Seq<u32>)
    requires
        0 <= pos,
        pos + 4 * ops.len() <= b.len(),
        b.subrange(pos, pos + 4 * ops.len()) == encode_operands_of(ops),
    ensures
        parse_operands_at(b, pos, ops.len()) == Option::Some((ops, pos + 4 * ops.len())),
    decreases ops,
{
    assert(encode_operands_of(ops).len() == 4 * ops.len()) by {
        lemma_encode_operands_len(ops);
    }
    if ops.len() == 0 {
        assert(ops =~= Seq::<u32>::empty());
    } else {
        let front = ops.drop_last();
        let last = ops.last();
        let efront = encode_operands_of(front);
        let elast = be32_of(last);
        lemma_encode_operands_len(front);
        assert(encode_operands_of(ops) == efront + elast);
        assert(b.subrange(pos, pos + 4 * front.len()) =~= efront) by {
            assert forall|k: int| 0 <= k < efront.len()
                implies b.subrange(pos, pos + 4 * front.len())[k] == efront[k] by {
                assert(b.subrange(pos, pos + 4 * ops.len())[k] == b[pos + k]);
                assert((efront + elast)[k] == efront[k]);
            }
        }
        lemma_operands_round_trip(b, pos, front);
        let mid = pos + 4 * front.len();
        assert(b.subrange(mid, mid + 4) =~= elast) by {
            assert forall|k: int| 0 <= k < 4
                implies b.subrange(mid, mid + 4)[k] == elast[k] by {
                assert(b.subrange(pos, pos + 4 * ops.len())[efront.len() + k] == b[mid + k]);
                assert((efront + elast)[efront.len() + k] == elast[k]);
            }
        }
        lemma_be32_round_trip(last, b, mid);
        assert(front.push(last) =~= ops);
    }
}

/// The encoding of an operand list is four bytes per operand.
proof fn lemma_encode_operands_len(ops: Seq<u32>)
    ensures
        encode_operands_of(ops).len() == 4 * ops.len(),
    decreases ops,
{
    if ops.len() > 0 {
        lemma_encode_operands_len(ops.drop_last());
    }
}

/// Parsing the encoding of one well-formed instruction yields it.
proof fn lemma_instruction_round_trip(b: Seq<u8>, pos: int, i: InstructionV)
    requires
        0 <= pos,
        pos + encode_instruction_of(i).len() <= b.len(),
        b.subrange(pos, pos + encode_instruction_of(i).len()) == encode_instruction_of(i),
        wf_instruction(i),
    ensures
        parse_instruction_at(b, pos) == Option::Some((i, pos + encode_instruction_of(i).len())),
{
    let enc = encode_instruction_of(i);
    lemma_encode_operands_len(i.operands);
    assert forall|k: int| 0 <= k < enc.len() implies b[pos + k] == enc[k] by {
        assert(b.subrange(pos, pos + enc.len())[k] == b[pos + k]);
    }
    assert(b.subrange(pos, pos + enc.len())[0] == b[pos]);
    assert(b[pos] == spec_opcode_byte(i.opcode));
    crate::opcode::lemma_opcode_round_trip(i.opcode);
    assert(spec_opcode_of_byte(b[pos]).unwrap_or(OpCode::Nop) == i.opcode);
    assert(b.subrange(pos + 1, pos + 1 + 4 * i.operands.len()) =~= encode_operands_of(i.operands)) by {
        assert forall|k: int| 0 <= k < 4 * i.operands.len()
            implies #[trigger] b.subrange(pos + 1, pos + 1 + 4 * i.operands.len())[k]
                == encode_operands_of(i.operands)[k] by {
            assert(b.subrange(pos, pos + enc.len())[1 + k] == b[pos + 1 + k]);
            assert(b.subrange(pos + 1, pos + 1 + 4 * i.operands.len())[k] == b[pos + 1 + k]);
            assert(enc[1 + k] == encode_operands_of(i.operands)[k]);
        }
    }
    lemma_operands_round_trip(b, pos + 1, i.operands);
}

/// Parsing the encoding of a well-formed instruction sequence yields it.
proof fn lemma_instructions_round_trip(b: Seq<u8>, pos: int, is: Seq<InstructionV>)
    requires
        0 <= pos,
        pos + encode_instructions_of(is).len() <= b.len(),
        b.subrange(pos, pos + encode_instructions_of(is).len()) == encode_instructions_of(is),
        forall|k: int| 0 <= k < is.len() ==> wf_instruction(#[trigger] is[k]),
    ensures
        parse_instructions_at(b, pos, is.len()) == Option::Some((is, pos + encode_instructions_of(is).len())),
    decreases is,
{
    if is.len() == 0 {
        assert(is =~= Seq::<InstructionV>::empty());
    } else {
        let front = is.drop_last();
        let last = is.last();
        let efront = encode_instructions_of(front);
        let elast = encode_instruction_of(last);
        assert(encode_instructions_of(is) == efront + elast);
        assert(b.subrange(pos, pos + efront.len()) =~= efront) by {
            assert forall|k: int| 0 <= k < efront.len()
                implies b.subrange(pos, pos + efront.len())[k] == efront[k] by {
                assert(b.subrange(pos, pos + encode_instructions_of(is).len())[k] == b[pos + k]);
                assert((efront + elast)[k] == efront[k]);
            }
        }
        lemma_instructions_round_trip(b, pos, front);
        let mid = pos + efront.len();
        assert(b.subrange(mid, mid + elast.len()) =~= elast) by {
            assert forall|k: int| 0 <= k < elast.len()
                implies b.subrange(mid, mid + elast.len())[k] == elast[k] by {
                assert(b.subrange(pos, pos + encode_instructions_of(is).len())[efront.len() + k]
                    == b[mid + k]);
                assert((efront + elast)[efront.len() + k] == elast[k]);
            }
        }
        lemma_instruction_round_trip(b, mid, last);
        assert(front.push(last) =~= is);
    }
}

/// The bytecode file format round-trips: decoding the encoding of any
/// well-formed module recovers its name, constant pool and instruction
/// sequence, operand lists included. Strings must survive UTF-8 encoding
/// and decoding, which holds of every value a real string can take.
pub proof fn lemma_module_round_trip(name: Seq<char>, cs: Seq<ConstantV>, is: Seq<InstructionV>)
    requires
        wf_module(name, cs, is),
        utf8_lossy_of(utf8_bytes_of(name)) == name,
        forall|k: int| 0 <= k < cs.len() ==> string_round_trips(#[trigger] cs[k]),
    ensures
        parse_module_of(encode_module_of(name, cs, is)) == Option::Some((name, cs, is)),
{
    let b = encode_module_of(name, cs, is);
    let nb = utf8_bytes_of(name);
    let nlen = nb.len() as int;
    let ecs = encode_constants_of(cs);
    let eis = encode_instructions_of(is);
    let header: Seq<u8> = be32_of(MAGIC) + seq![1u8, 0u8] + be16_of(0)
        + be32_of(nb.len() as u32);
    assert(header.len() == 12);
    assert(b =~= header + nb + be32_of(cs.len() as u32) + ecs + be32_of(is.len() as u32) + eis);
    let cpos = 12 + nlen;
    let cstart = cpos + 4;
    let ipos = cstart + ecs.len();
    let istart = ipos + 4;
    assert(b.len() == istart + eis.len());

    assert(b.subrange(0, 4) =~= be32_of(MAGIC));
    lemma_be32_round_trip(MAGIC, b, 0);
    assert(b[4] == 1u8);
    assert(b.subrange(8, 12) =~= be32_of(nb.len() as u32));
    lemma_be32_round_trip(nb.len() as u32, b, 8);
    assert(b.subrange(12, 12 + nlen) =~= nb);
    assert(b.subrange(cpos, cpos + 4) =~= be32_of(cs.len() as u32));
    lemma_be32_round_trip(cs.len() as u32, b, cpos);
    assert(b.subrange(cstart, cstart + ecs.len()) =~= ecs);
    lemma_constants_round_trip(b, cstart, cs);
    assert(b.subrange(ipos, ipos + 4) =~= be32_of(is.len() as u32));
    lemma_be32_round_trip(is.len() as u32, b, ipos);
    assert(b.subrange(istart, istart + eis.len()) =~= eis);
    lemma_instructions_round_trip(b, istart, is);
}

} // verus!
