//! Disassembly: what instruction stands at an offset of a chunk, with its
//! line and, for a constant load, the constant. The listing is handed out as
//! values; writing it out is left to the caller.

use crate::chunk::Chunk;
use crate::instructions::{
    lemma_constant_long_round_trip, lemma_constant_round_trip, lemma_opcode_round_trip,
    CodeReader, ConstantInstruction, ConstantLongInstruction, InstructionRead, InstructionWrite,
    OpCode,
};
use crate::value::Value;
use vstd::prelude::*;

verus! {

/// An instruction as read back from a code stream.
#[derive(Debug, Copy, Clone, PartialEq, Eq, Structural)]
pub enum Instruction {
    /// An opcode without operands.
    Simple(OpCode),
    /// `Constant` or `ConstantLong` with its constant index.
    Load(OpCode, u32),
    /// `ConstantLong` with fewer than four operand bytes behind it.
    Truncated(OpCode),
    /// A byte that is no opcode.
    Unknown(u8),
}

/// One line of a listing.
pub struct Disassembly {
    /// Offset of the instruction's opcode byte.
    pub offset: usize,
    /// Source line of the instruction.
    pub line: usize,
    /// The byte before the instruction belongs to the same source line.
    pub continues_line: bool,
    pub instruction: Instruction,
    /// The constant that a load refers to, where there is one.
    pub value: Option<Value>,
    /// Offset of the byte after the instruction.
    pub next_offset: usize,
}

/// The instruction that starts at `offset`, a position inside the code, and
/// the offset of the byte after it.
pub open spec fn instruction_at(code: Seq<u8>, offset: int) -> (Instruction, int) {
    let operands = code.skip(offset + 1);
    match OpCode::decode(code[offset]) {
        None => (Instruction::Unknown(code[offset]), offset + 1),
        Some(OpCode::Constant) => (
            Instruction::Load(
                OpCode::Constant,
                ConstantInstruction::decoded(operands).constant_index as u32,
            ),
            offset + 1 + ConstantInstruction::consumed(operands),
        ),
        Some(OpCode::ConstantLong) => if ConstantLongInstruction::readable(operands) {
            (
                Instruction::Load(
                    OpCode::ConstantLong,
                    ConstantLongInstruction::decoded(operands).constant_index,
                ),
                offset + 5,
            )
        } else {
            (Instruction::Truncated(OpCode::ConstantLong), offset + 1)
        },
        Some(op) => (Instruction::Simple(op), offset + 1),
    }
}

/// The constant that `instruction` loads from `chunk`, where it loads one
/// that is there.
pub open spec fn loaded_value(chunk: Chunk, instruction: Instruction) -> Option<Value> {
    match instruction {
        Instruction::Load(_, index) => if index < chunk.constants@.len() {
            Some(chunk.constants@[index as int])
        } else {
            None
        },
        _ => None,
    }
}

/// The listing line for the instruction at `offset`.
pub open spec fn listed(chunk: Chunk, offset: int, entry: Disassembly) -> bool {
    &&& entry.offset == offset
    &&& entry.line == chunk.line_at(offset)
    &&& entry.continues_line == (offset > 0 && chunk.line_at(offset - 1) == chunk.line_at(offset))
    &&& (entry.instruction, entry.next_offset as int) == instruction_at(chunk.code@, offset)
    &&& entry.value == loaded_value(chunk, entry.instruction)
}

/// Reads back the instruction at `offset`.
pub fn disassemble_instruction(chunk: &Chunk, offset: usize) -> (entry: Disassembly)
    requires
        chunk.wf(),
        offset < chunk.code@.len(),
    ensures
        listed(*chunk, offset as int, entry),
        offset < entry.next_offset <= chunk.code@.len(),
{
    let line = *chunk.lines.get(offset);
    let continues_line = offset > 0 && *chunk.lines.get(offset - 1) == line;

    let mut reader = CodeReader::new(&chunk.code);
    reader.set_position(offset);
    let opcode_byte = reader.read_byte();
    assert(reader.remaining() == chunk.code@.skip(offset + 1));
    let instruction = match OpCode::from_byte(opcode_byte) {
        Some(OpCode::Constant) => {
            let ConstantInstruction { constant_index } = ConstantInstruction::parse(&mut reader);
            Instruction::Load(OpCode::Constant, constant_index as u32)
        },
        Some(OpCode::ConstantLong) => {
            if reader.remaining_len() >= 4 {
                let ConstantLongInstruction { constant_index } = ConstantLongInstruction::parse(
                    &mut reader,
                );
                Instruction::Load(OpCode::ConstantLong, constant_index)
            } else {
                Instruction::Truncated(OpCode::ConstantLong)
            }
        },
        Some(o) => Instruction::Simple(o),
        None => Instruction::Unknown(opcode_byte),
    };
    let value = match instruction {
        Instruction::Load(_, index) => {
            if (index as usize) < chunk.constants.len() {
                Some(chunk.constants[index as usize].duplicate())
            } else {
                None
            }
        },
        _ => None,
    };
    Disassembly {
        offset,
        line,
        continues_line,
        instruction,
        value,
        next_offset: reader.position(),
    }
}

/// Offset of the instruction number `index` of a code stream read from its
/// start.
pub open spec fn instruction_offset(code: Seq<u8>, index: nat) -> int
    decreases index,
{
    if index == 0 {
        0
    } else {
        let before = instruction_offset(code, (index - 1) as nat);
        instruction_at(code, before).1
    }
}

/// Reads back every instruction of the chunk, in order.
pub fn disassemble_chunk(chunk: &Chunk) -> (listing: Vec<Disassembly>)
    requires
        chunk.wf(),
    ensures
        forall|i: int|
            0 <= i < listing@.len() ==> listed(
                *chunk,
                instruction_offset(chunk.code@, i as nat),
                #[trigger] listing@[i],
            ),
        instruction_offset(chunk.code@, listing@.len()) == chunk.code@.len(),
{
    let mut listing: Vec<Disassembly> = Vec::new();
    let mut offset: usize = 0;
    while offset < chunk.code.len()
        invariant
            chunk.wf(),
            offset <= chunk.code@.len(),
            offset == instruction_offset(chunk.code@, listing@.len()),
            forall|i: int|
                0 <= i < listing@.len() ==> listed(
                    *chunk,
                    instruction_offset(chunk.code@, i as nat),
                    #[trigger] listing@[i],
                ),
        decreases chunk.code@.len() - offset,
    {
        let entry = disassemble_instruction(chunk, offset);
        offset = entry.next_offset;
        listing.push(entry);
    }
    listing
}

/// A one-byte constant load that was written is read back with its index,
/// whatever stands before and after it.
pub proof fn lemma_disassemble_constant(
    before: Seq<u8>,
    instruction: ConstantInstruction,
    after: Seq<u8>,
)
    ensures
        instruction_at(before + instruction.encoding() + after, before.len() as int) == (
            Instruction::Load(OpCode::Constant, instruction.constant_index as u32),
            before.len() as int + 2,
        ),
{
    let code = before + instruction.encoding() + after;
    let offset = before.len() as int;
    lemma_opcode_round_trip(OpCode::Constant);
    lemma_constant_round_trip(instruction, after);
    assert(code[offset] == instruction.encoding()[0]);
    assert(code.skip(offset + 1) =~= instruction.encoding().skip(1) + after);
}

/// A four-byte constant load that was written is read back with its index,
/// whatever stands before and after it.
pub proof fn lemma_disassemble_constant_long(
    before: Seq<u8>,
    instruction: ConstantLongInstruction,
    after: Seq<u8>,
)
    ensures
        instruction_at(before + instruction.encoding() + after, before.len() as int) == (
            Instruction::Load(OpCode::ConstantLong, instruction.constant_index),
            before.len() as int + 5,
        ),
{
    let code = before + instruction.encoding() + after;
    let offset = before.len() as int;
    lemma_opcode_round_trip(OpCode::ConstantLong);
    lemma_constant_long_round_trip(instruction, after);
    assert(code[offset] == instruction.encoding()[0]);
    assert(code.skip(offset + 1) =~= instruction.encoding().skip(1) + after);
}

} // verus!
