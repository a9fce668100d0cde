//! A unit of bytecode: the instruction stream, the constants it refers to,
//! and the source line of every code byte.

use crate::errors::{InterpretError, InterpretResult};
use crate::instructions::{
    u32_le_bytes, ConstantInstruction, ConstantLongInstruction, InstructionWrite, OpCode,
};
use crate::run_length_encoding::{repeat, RunLengthEncoded};
use crate::value::Value;
use vstd::prelude::*;
use vstd::string::StringExecFns;

verus! {

pub struct Chunk {
    pub code: Vec<u8>,
    pub constants: Vec<Value>,
    pub lines: RunLengthEncoded<usize>,
}

/// The largest constant index that fits the one-byte operand.
pub const MAX_SHORT_INDEX: usize = 255;

/// The largest constant index that fits the four-byte operand.
pub const MAX_LONG_INDEX: u64 = 0xffff_ffff;

/// The instruction that loads the constant at `index`: the short form up to
/// index 255, the long form above.
pub open spec fn constant_load(index: nat) -> Seq<u8>
    recommends
        index <= MAX_LONG_INDEX,
{
    if index <= MAX_SHORT_INDEX {
        seq![OpCode::Constant.byte(), index as u8]
    } else {
        seq![OpCode::ConstantLong.byte()] + u32_le_bytes(index as u32)
    }
}

impl Chunk {
    /// The line table has one entry per code byte and no two neighbouring
    /// runs of it hold the same line.
    pub open spec fn wf(&self) -> bool {
        &&& self.lines.wf()
        &&& self.lines.coalesced()
        &&& self.lines@.len() == self.code@.len()
    }

    /// The source line of the code byte at `offset`.
    pub open spec fn line_at(&self, offset: int) -> usize
        recommends
            self.wf(),
            0 <= offset < self.code@.len(),
    {
        self.lines@[offset]
    }

    pub fn new() -> (chunk: Chunk)
        ensures
            chunk.wf(),
            chunk.code@ == Seq::<u8>::empty(),
            chunk.constants@ == Seq::<Value>::empty(),
            chunk.lines@ == Seq::<usize>::empty(),
    {
        Chunk { code: Vec::new(), constants: Vec::new(), lines: RunLengthEncoded::new() }
    }

    /// Appends the bytes of `instruction` to the code and records `line` for
    /// each of them.
    pub fn write_instruction<I: InstructionWrite>(&mut self, instruction: I, line: usize)
        requires
            old(self).wf(),
        ensures
            final(self).wf(),
            final(self).code@ == old(self).code@ + instruction.encoding(),
            final(self).constants == old(self).constants,
            final(self).lines@ == old(self).lines@ + repeat(line, instruction.encoding().len()),
    {
        let initial_code_len = self.code.len();
        instruction.write(&mut self.code);
        let new_code_len = self.code.len();
        let written = new_code_len - initial_code_len;
        if written > 0 {
            self.lines.push_run(line, written);
        } else {
            assert(self.lines@ + repeat(line, 0) == self.lines@);
        }
    }

    /// Appends `value` to the constants, then the instruction that loads it.
    /// The constant stays in the pool even where no instruction can address it.
    pub fn write_constant(&mut self, value: Value, line: usize) -> (result: InterpretResult<()>)
        requires
            old(self).wf(),
        ensures
            final(self).wf(),
            final(self).constants@ == old(self).constants@.push(value),
            old(self).constants@.len() <= MAX_LONG_INDEX ==> {
                &&& result is Ok
                &&& final(self).code@ == old(self).code@ + constant_load(
                    old(self).constants@.len(),
                )
                &&& final(self).lines@ == old(self).lines@ + repeat(
                    line,
                    constant_load(old(self).constants@.len()).len(),
                )
            },
            old(self).constants@.len() > MAX_LONG_INDEX ==> {
                &&& result is Err
                &&& result->Err_0.is_compile_error("too many constants"@)
                &&& final(self).code@ == old(self).code@
                &&& final(self).lines@ == old(self).lines@
            },
    {
        self.constants.push(value);
        let constant_index = self.constants.len() - 1;
        if constant_index <= MAX_SHORT_INDEX {
            self.write_instruction(ConstantInstruction::new(constant_index as u8), line);
            Ok(())
        } else if constant_index as u64 <= MAX_LONG_INDEX {
            self.write_instruction(ConstantLongInstruction::new(constant_index as u32), line);
            Ok(())
        } else {
            Err(InterpretError::CompileError(String::from_str("too many constants")))
        }
    }

    /// Tells whether the chunk is well-formed.
    pub fn is_well_formed(&self) -> (well_formed: bool)
        ensures
            well_formed == self.wf(),
    {
        self.lines.is_valid() && self.lines.is_coalesced() && self.lines.len() == self.code.len()
    }

    /// The source line of the code byte at `offset`, if there is such a byte.
    pub fn line(&self, offset: usize) -> (line: Option<usize>)
        requires
            self.wf(),
        ensures
            line == (if offset < self.code@.len() {
                Some(self.line_at(offset as int))
            } else {
                None
            }),
    {
        if offset < self.code.len() {
            Some(*self.lines.get(offset))
        } else {
            None
        }
    }
}

} // verus!
