//! Compiling and running in one call.

use crate::chunk::Chunk;
use crate::compiler::{compile, compiles_to, ParseState};
use crate::errors::InterpretResult;
use crate::instructions::OpCode;
use crate::stack_effect::stays_on_track;
use crate::virtual_machine::{ending_of, runs_to, Machine, VirtualMachine};
use vstd::prelude::*;
use vstd::string::StringSliceAdditionalSpecFns;

verus! {

/// `result` is what compiling and running the source `bytes` gives: where
/// the source has an error, the compile error with the first diagnostic;
/// otherwise what a run of the compiled chunk from its start ends with,
/// which is success with one value on the stack or a runtime error.
pub open spec fn interprets<P: Fn(&str) -> u64, A: Fn(OpCode, u64, u64) -> u64>(
    bytes: Seq<u8>,
    parse_number: P,
    arithmetic: A,
    result: InterpretResult<()>,
) -> bool {
    let end = ParseState::compiled(bytes);
    if end.had_error {
        &&& result is Err
        &&& end.report matches Some(report) && result->Err_0.is_compile_error(report)
    } else {
        exists|chunk: Chunk, last: Machine|
            {
                &&& compiles_to(bytes, parse_number, Ok(chunk))
                &&& #[trigger] runs_to(
                    chunk,
                    arithmetic,
                    Machine::initial(),
                    ending_of(result, last),
                )
                &&& stays_on_track(chunk, ending_of(result, last))
            }
    }
}

/// Compiles the expression in `line` and runs it. `parse_number` converts
/// the text of a number literal to the bit pattern of a double, and
/// `arithmetic` computes `Add`, `Subtract`, `Multiply` and `Divide` on such
/// patterns.
pub fn interpret<P: Fn(&str) -> u64, A: Fn(OpCode, u64, u64) -> u64>(
    line: &str,
    parse_number: P,
    arithmetic: A,
) -> (result: InterpretResult<()>)
    requires
        line.spec_bytes().len() < usize::MAX,
        forall|lexeme: &str| #[trigger] parse_number.requires((lexeme,)),
        forall|op: OpCode, a: u64, b: u64| #[trigger] arithmetic.requires((op, a, b)),
    ensures
        interprets(line.spec_bytes(), parse_number, arithmetic, result),
        result matches Err(error) ==> (error is CompileError <==> ParseState::compiled(
            line.spec_bytes(),
        ).had_error),
{
    let chunk = match compile(line, parse_number) {
        Ok(chunk) => chunk,
        Err(error) => {
            return Err(error);
        },
    };
    let mut vm = VirtualMachine::new(&chunk);
    let result = vm.interpret(arithmetic);
    proof {
        assert(runs_to(chunk, arithmetic, Machine::initial(), ending_of(result, vm.machine())));
    }
    result
}

} // verus!
