//! Opcodes and the wire format of each instruction shape.
//!
//! Every instruction starts with a one-byte opcode. `Constant` is followed by
//! a one-byte constant index, `ConstantLong` by a four-byte little-endian
//! constant index, and every other opcode stands alone.

use byteorder::{LittleEndian, ReadBytesExt, WriteBytesExt};
use vstd::prelude::*;

verus! {

#[derive(Debug, Copy, Clone, PartialEq, Eq, Structural)]
pub enum OpCode {
    Return,
    Constant,
    ConstantLong,
    Nil,
    True,
    False,
    Negate,
    Add,
    Subtract,
    Multiply,
    Divide,
    Not,
    Equal,
    Greater,
    Less,
}

impl OpCode {
    /// The byte that stands for this opcode in a code stream.
    pub open spec fn byte(self) -> u8 {
        match self {
            OpCode::Return => 0,
            OpCode::Constant => 1,
            OpCode::ConstantLong => 2,
            OpCode::Nil => 3,
            OpCode::True => 4,
            OpCode::False => 5,
            OpCode::Negate => 6,
            OpCode::Add => 7,
            OpCode::Subtract => 8,
            OpCode::Multiply => 9,
            OpCode::Divide => 10,
            OpCode::Not => 11,
            OpCode::Equal => 12,
            OpCode::Greater => 13,
            OpCode::Less => 14,
        }
    }

    /// The opcode that `byte` stands for, if there is one.
    pub open spec fn decode(byte: u8) -> Option<OpCode> {
        if exists|op: OpCode| op.byte() == byte {
            Some(choose|op: OpCode| op.byte() == byte)
        } else {
            None
        }
    }

    pub fn as_byte(self) -> (byte: u8)
        ensures
            byte == self.byte(),
    {
        match self {
            OpCode::Return => 0,
            OpCode::Constant => 1,
            OpCode::ConstantLong => 2,
            OpCode::Nil => 3,
            OpCode::True => 4,
            OpCode::False => 5,
            OpCode::Negate => 6,
            OpCode::Add => 7,
            OpCode::Subtract => 8,
            OpCode::Multiply => 9,
            OpCode::Divide => 10,
            OpCode::Not => 11,
            OpCode::Equal => 12,
            OpCode::Greater => 13,
            OpCode::Less => 14,
        }
    }

    pub fn from_byte(byte: u8) -> (op_code: Option<OpCode>)
        ensures
            op_code == OpCode::decode(byte),
            op_code.is_some() <==> byte <= 14,
            op_code matches Some(op) ==> op.byte() == byte,
    {
        let op_code = match byte {
            0 => Some(OpCode::Return),
            1 => Some(OpCode::Constant),
            2 => Some(OpCode::ConstantLong),
            3 => Some(OpCode::Nil),
            4 => Some(OpCode::True),
            5 => Some(OpCode::False),
            6 => Some(OpCode::Negate),
            7 => Some(OpCode::Add),
            8 => Some(OpCode::Subtract),
            9 => Some(OpCode::Multiply),
            10 => Some(OpCode::Divide),
            11 => Some(OpCode::Not),
            12 => Some(OpCode::Equal),
            13 => Some(OpCode::Greater),
            14 => Some(OpCode::Less),
            _ => None,
        };
        proof {
            if let Some(op) = op_code {
                assert(op.byte() == byte);
                lemma_opcode_round_trip(op);
            }
        }
        op_code
    }
}

/// Every opcode is recovered from its byte, and no byte above 14 stands for
/// an opcode.
pub proof fn lemma_opcode_round_trip(op: OpCode)
    ensures
        OpCode::decode(op.byte()) == Some(op),
        op.byte() <= 14,
{
    let found = choose|other: OpCode| other.byte() == op.byte();
    assert(found.byte() == op.byte());
}

/// The four bytes of `value`, least significant first.
pub open spec fn u32_le_bytes(value: u32) -> Seq<u8> {
    seq![
        (value & 0xff) as u8,
        ((value >> 8) & 0xff) as u8,
        ((value >> 16) & 0xff) as u8,
        ((value >> 24) & 0xff) as u8,
    ]
}

/// The number whose little-endian representation starts `bytes`.
pub open spec fn u32_from_le_bytes(bytes: Seq<u8>) -> u32 {
    (bytes[0] as u32) | (bytes[1] as u32) << 8 | (bytes[2] as u32) << 16 | (bytes[3] as u32) << 24
}

/// Reading back the little-endian bytes of a number gives that number.
pub proof fn lemma_u32_le_round_trip(value: u32)
    ensures
        u32_le_bytes(value).len() == 4,
        u32_from_le_bytes(u32_le_bytes(value)) == value,
{
    let b0 = (value & 0xff) as u8;
    let b1 = ((value >> 8) & 0xff) as u8;
    let b2 = ((value >> 16) & 0xff) as u8;
    let b3 = ((value >> 24) & 0xff) as u8;
    assert(((value & 0xff) as u8 as u32) | (((value >> 8) & 0xff) as u8 as u32) << 8 | (((value
        >> 16) & 0xff) as u8 as u32) << 16 | (((value >> 24) & 0xff) as u8 as u32) << 24 == value)
        by (bit_vector);
}

/// Appends `value` to `writer` as four little-endian bytes, by
/// `byteorder::WriteBytesExt::write_u32::<LittleEndian>`; writing to a `Vec`
/// cannot fail.
#[verifier::external_body]
fn write_u32_le(writer: &mut Vec<u8>, value: u32)
    ensures
        final(writer)@ == old(writer)@ + u32_le_bytes(value),
{
    writer.write_u32::<LittleEndian>(value).unwrap();
}

/// Decodes the first four bytes of `bytes` as a little-endian number, by
/// `byteorder::ReadBytesExt::read_u32::<LittleEndian>`, which fails only on
/// fewer than four bytes.
#[verifier::external_body]
fn read_u32_le(bytes: &[u8]) -> (value: u32)
    requires
        bytes@.len() >= 4,
    ensures
        value == u32_from_le_bytes(bytes@),
{
    let mut reader: &[u8] = bytes;
    reader.read_u32::<LittleEndian>().unwrap()
}

/// A read position in a code stream.
pub struct CodeReader<'a> {
    code: &'a Vec<u8>,
    position: usize,
}

impl<'a> CodeReader<'a> {
    /// The whole code stream.
    pub closed spec fn code(&self) -> Seq<u8> {
        self.code@
    }

    /// Offset of the next byte to read.
    pub closed spec fn offset(&self) -> nat {
        self.position as nat
    }

    /// The position lies inside the stream or at its end.
    pub open spec fn wf(&self) -> bool {
        self.offset() <= self.code().len()
    }

    /// The bytes not read yet.
    pub open spec fn remaining(&self) -> Seq<u8> {
        self.code().skip(self.offset() as int)
    }

    /// A reader placed at the start of `code`.
    pub fn new(code: &'a Vec<u8>) -> (reader: CodeReader<'a>)
        ensures
            reader.wf(),
            reader.code() == code@,
            reader.offset() == 0,
    {
        CodeReader { code, position: 0 }
    }

    pub fn position(&self) -> (position: usize)
        ensures
            position == self.offset(),
    {
        self.position
    }

    /// Number of bytes not read yet.
    pub fn remaining_len(&self) -> (length: usize)
        requires
            self.wf(),
        ensures
            length == self.remaining().len(),
    {
        self.code.len() - self.position
    }

    /// Moves the reader to `position`.
    pub fn set_position(&mut self, position: usize)
        requires
            position <= old(self).code().len(),
        ensures
            final(self).wf(),
            final(self).code() == old(self).code(),
            final(self).offset() == position,
    {
        self.position = position;
    }

    /// Reads one byte. At the end of the stream nothing is consumed and the
    /// byte read is zero.
    pub fn read_byte(&mut self) -> (byte: u8)
        requires
            old(self).wf(),
        ensures
            final(self).wf(),
            final(self).code() == old(self).code(),
            old(self).remaining().len() > 0 ==> byte == old(self).remaining()[0],
            old(self).remaining().len() > 0 ==> final(self).offset() == old(self).offset() + 1,
            old(self).remaining().len() == 0 ==> byte == 0,
            old(self).remaining().len() == 0 ==> final(self).offset() == old(self).offset(),
    {
        if self.position < self.code.len() {
            let byte = self.code[self.position];
            self.position = self.position + 1;
            byte
        } else {
            0
        }
    }

    /// Reads a four-byte little-endian number.
    pub fn read_u32(&mut self) -> (value: u32)
        requires
            old(self).wf(),
            old(self).remaining().len() >= 4,
        ensures
            final(self).wf(),
            final(self).code() == old(self).code(),
            value == u32_from_le_bytes(old(self).remaining()),
            final(self).offset() == old(self).offset() + 4,
    {
        let length = self.code.len();
        assert(self.remaining().len() == length - self.position);
        let rest = vstd::slice::slice_subrange(
            self.code.as_slice(),
            self.position,
            self.position + 4,
        );
        assert(rest@ =~= self.remaining().take(4));
        let value = read_u32_le(rest);
        self.position = self.position + 4;
        value
    }
}

/// An instruction that can be read from a code stream once its opcode byte
/// has been consumed.
pub trait InstructionRead: Sized {
    /// The operand bytes are all there. Unless an instruction says
    /// otherwise, it has no operands to miss.
    open spec fn readable(operands: Seq<u8>) -> bool {
        true
    }

    /// The instruction that the operand bytes stand for. Unless an
    /// instruction says otherwise, nothing is known of it.
    open spec fn decoded(operands: Seq<u8>) -> Self {
        arbitrary()
    }

    /// Number of operand bytes consumed. Unless an instruction says
    /// otherwise, it consumes none.
    open spec fn consumed(operands: Seq<u8>) -> nat {
        0
    }

    fn parse(reader: &mut CodeReader<'_>) -> (instruction: Self)
        requires
            old(reader).wf(),
            Self::readable(old(reader).remaining()),
        ensures
            final(reader).wf(),
            final(reader).code() == old(reader).code(),
            instruction == Self::decoded(old(reader).remaining()),
            final(reader).offset() == old(reader).offset() + Self::consumed(
                old(reader).remaining(),
            ),
    ;
}

/// An instruction that can be appended to a code stream.
pub trait InstructionWrite {
    /// The bytes of the instruction, opcode first. Unless an instruction
    /// says otherwise, it has none.
    open spec fn encoding(&self) -> Seq<u8> {
        Seq::empty()
    }

    fn write(&self, writer: &mut Vec<u8>)
        ensures
            final(writer)@ == old(writer)@ + self.encoding(),
    ;
}

/// Loads the constant with a one-byte index.
pub struct ConstantInstruction {
    pub constant_index: u8,
}

impl ConstantInstruction {
    pub fn new(constant_index: u8) -> (instruction: ConstantInstruction)
        ensures
            instruction.constant_index == constant_index,
    {
        ConstantInstruction { constant_index }
    }
}

impl InstructionRead for ConstantInstruction {
    open spec fn readable(operands: Seq<u8>) -> bool {
        true
    }

    /// A missing operand byte reads as index zero.
    open spec fn decoded(operands: Seq<u8>) -> ConstantInstruction {
        ConstantInstruction { constant_index: if operands.len() > 0 { operands[0] } else { 0 } }
    }

    open spec fn consumed(operands: Seq<u8>) -> nat {
        if operands.len() > 0 {
            1
        } else {
            0
        }
    }

    fn parse(reader: &mut CodeReader<'_>) -> (instruction: ConstantInstruction) {
        let index = reader.read_byte();
        ConstantInstruction { constant_index: index }
    }
}

impl InstructionWrite for ConstantInstruction {
    open spec fn encoding(&self) -> Seq<u8> {
        seq![OpCode::Constant.byte(), self.constant_index]
    }

    fn write(&self, writer: &mut Vec<u8>) {
        writer.push(OpCode::Constant.as_byte());
        writer.push(self.constant_index);
        assert(writer@ =~= old(writer)@ + self.encoding());
    }
}

/// Loads the constant with a four-byte little-endian index.
pub struct ConstantLongInstruction {
    pub constant_index: u32,
}

impl ConstantLongInstruction {
    pub fn new(constant_index: u32) -> (instruction: ConstantLongInstruction)
        ensures
            instruction.constant_index == constant_index,
    {
        ConstantLongInstruction { constant_index }
    }
}

impl InstructionRead for ConstantLongInstruction {
    open spec fn readable(operands: Seq<u8>) -> bool {
        operands.len() >= 4
    }

    open spec fn decoded(operands: Seq<u8>) -> ConstantLongInstruction {
        ConstantLongInstruction { constant_index: u32_from_le_bytes(operands) }
    }

    open spec fn consumed(operands: Seq<u8>) -> nat {
        4
    }

    fn parse(reader: &mut CodeReader<'_>) -> (instruction: ConstantLongInstruction) {
        let constant_index = reader.read_u32();
        ConstantLongInstruction { constant_index }
    }
}

impl InstructionWrite for ConstantLongInstruction {
    open spec fn encoding(&self) -> Seq<u8> {
        seq![OpCode::ConstantLong.byte()] + u32_le_bytes(self.constant_index)
    }

    fn write(&self, writer: &mut Vec<u8>) {
        writer.push(OpCode::ConstantLong.as_byte());
        write_u32_le(writer, self.constant_index);
        assert(writer@ =~= old(writer)@ + self.encoding());
    }
}

/// An opcode without operands.
pub struct SimpleInstruction {
    op_code: OpCode,
}

impl SimpleInstruction {
    /// The opcode that the instruction consists of.
    pub closed spec fn op(&self) -> OpCode {
        self.op_code
    }

    pub fn new(op_code: OpCode) -> (instruction: SimpleInstruction)
        ensures
            instruction.op() == op_code,
    {
        SimpleInstruction { op_code }
    }
}

impl InstructionWrite for SimpleInstruction {
    open spec fn encoding(&self) -> Seq<u8> {
        seq![self.op().byte()]
    }

    fn write(&self, writer: &mut Vec<u8>) {
        writer.push(self.op_code.as_byte());
        assert(writer@ =~= old(writer)@ + self.encoding());
    }
}

/// Reading the operand written for a one-byte constant index gives the index
/// back, whatever follows it in the stream.
pub proof fn lemma_constant_round_trip(instruction: ConstantInstruction, rest: Seq<u8>)
    ensures
        instruction.encoding()[0] == OpCode::Constant.byte(),
        ConstantInstruction::decoded(instruction.encoding().skip(1) + rest) == instruction,
        ConstantInstruction::consumed(instruction.encoding().skip(1) + rest) == 1,
{
}

/// Reading the operand written for a four-byte constant index gives the index
/// back, whatever follows it in the stream.
pub proof fn lemma_constant_long_round_trip(instruction: ConstantLongInstruction, rest: Seq<u8>)
    ensures
        instruction.encoding()[0] == OpCode::ConstantLong.byte(),
        ConstantLongInstruction::readable(instruction.encoding().skip(1) + rest),
        ConstantLongInstruction::decoded(instruction.encoding().skip(1) + rest) == instruction,
{
    lemma_u32_le_round_trip(instruction.constant_index);
    let operands = instruction.encoding().skip(1) + rest;
    let bytes = u32_le_bytes(instruction.constant_index);
    assert(operands[0] == bytes[0]);
    assert(operands[1] == bytes[1]);
    assert(operands[2] == bytes[2]);
    assert(operands[3] == bytes[3]);
}

} // verus!
