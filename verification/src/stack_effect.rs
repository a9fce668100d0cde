//! What straight-line code does to the depth of the stack, told without
//! running it, and why code that keeps to the rules cannot break the
//! machine.

use crate::chunk::{constant_load, Chunk, MAX_LONG_INDEX};
use crate::instructions::{
    lemma_opcode_round_trip, lemma_u32_le_round_trip, u32_from_le_bytes, u32_le_bytes,
    InstructionRead, OpCode,
};
use crate::virtual_machine::{is_run, moves, runs_to, step, Machine, Outcome};
use vstd::prelude::*;

verus! {

/// The depth of the stack after `code` has run on a stack of depth `depth`
/// with `constants` constants to load from, where nothing goes wrong on the
/// way: every byte read as an opcode is one, and not `Return`; every operand
/// is complete; every constant index has its constant; and no instruction
/// finds fewer values on the stack than it takes.
pub open spec fn depth_after(code: Seq<u8>, constants: nat, depth: nat) -> Option<nat>
    decreases code.len(),
{
    if code.len() == 0 {
        Some(depth)
    } else {
        match OpCode::decode(code[0]) {
            None => None,
            Some(OpCode::Return) => None,
            Some(OpCode::Constant) => if code.len() >= 2 && code[1] < constants {
                depth_after(code.skip(2), constants, depth + 1)
            } else {
                None
            },
            Some(OpCode::ConstantLong) => if code.len() >= 5 && u32_from_le_bytes(code.skip(1))
                < constants {
                depth_after(code.skip(5), constants, depth + 1)
            } else {
                None
            },
            Some(OpCode::Nil) | Some(OpCode::True) | Some(OpCode::False) => depth_after(
                code.skip(1),
                constants,
                depth + 1,
            ),
            Some(OpCode::Negate) | Some(OpCode::Not) => if depth >= 1 {
                depth_after(code.skip(1), constants, depth)
            } else {
                None
            },
            Some(_) => if depth >= 2 {
                depth_after(code.skip(1), constants, (depth - 1) as nat)
            } else {
                None
            },
        }
    }
}

/// Code that runs well, followed by more code, runs as the second part does
/// from the depth that the first part leaves.
pub proof fn lemma_depth_after_concat(
    first: Seq<u8>,
    second: Seq<u8>,
    constants: nat,
    depth: nat,
)
    requires
        depth_after(first, constants, depth) is Some,
    ensures
        depth_after(first + second, constants, depth) == depth_after(
            second,
            constants,
            depth_after(first, constants, depth)->Some_0,
        ),
    decreases first.len(),
{
    let whole = first + second;
    if first.len() == 0 {
        assert(whole =~= second);
    } else {
        assert(whole[0] == first[0]);
        match OpCode::decode(first[0]) {
            None => {},
            Some(OpCode::Return) => {},
            Some(OpCode::Constant) => {
                assert(whole[1] == first[1]);
                assert(whole.skip(2) =~= first.skip(2) + second);
                lemma_depth_after_concat(first.skip(2), second, constants, depth + 1);
            },
            Some(OpCode::ConstantLong) => {
                assert(whole.skip(1)[0] == first.skip(1)[0]);
                assert(whole.skip(1)[1] == first.skip(1)[1]);
                assert(whole.skip(1)[2] == first.skip(1)[2]);
                assert(whole.skip(1)[3] == first.skip(1)[3]);
                assert(whole.skip(5) =~= first.skip(5) + second);
                lemma_depth_after_concat(first.skip(5), second, constants, depth + 1);
            },
            Some(OpCode::Nil) | Some(OpCode::True) | Some(OpCode::False) => {
                assert(whole.skip(1) =~= first.skip(1) + second);
                lemma_depth_after_concat(first.skip(1), second, constants, depth + 1);
            },
            Some(OpCode::Negate) | Some(OpCode::Not) => {
                assert(whole.skip(1) =~= first.skip(1) + second);
                lemma_depth_after_concat(first.skip(1), second, constants, depth);
            },
            Some(_) => {
                assert(whole.skip(1) =~= first.skip(1) + second);
                lemma_depth_after_concat(first.skip(1), second, constants, (depth - 1) as nat);
            },
        }
    }
}

/// Code that runs well on a stack runs as well on a deeper stack and with
/// more constants, and leaves the stack deeper by as much.
pub proof fn lemma_depth_after_lift(
    code: Seq<u8>,
    constants: nat,
    depth: nat,
    more_constants: nat,
    deeper: nat,
)
    requires
        depth_after(code, constants, depth) is Some,
    ensures
        depth_after(code, constants + more_constants, depth + deeper) == Some(
            depth_after(code, constants, depth)->Some_0 + deeper,
        ),
    decreases code.len(),
{
    if code.len() > 0 {
        match OpCode::decode(code[0]) {
            None => {},
            Some(OpCode::Return) => {},
            Some(OpCode::Constant) => {
                lemma_depth_after_lift(code.skip(2), constants, depth + 1, more_constants, deeper);
            },
            Some(OpCode::ConstantLong) => {
                lemma_depth_after_lift(code.skip(5), constants, depth + 1, more_constants, deeper);
            },
            Some(OpCode::Nil) | Some(OpCode::True) | Some(OpCode::False) => {
                lemma_depth_after_lift(code.skip(1), constants, depth + 1, more_constants, deeper);
            },
            Some(OpCode::Negate) | Some(OpCode::Not) => {
                lemma_depth_after_lift(code.skip(1), constants, depth, more_constants, deeper);
            },
            Some(_) => {
                lemma_depth_after_lift(
                    code.skip(1),
                    constants,
                    (depth - 1) as nat,
                    more_constants,
                    deeper,
                );
            },
        }
    }
}

/// What an opcode without operands does to a stack of depth `depth`, where
/// the stack holds what the opcode takes.
pub open spec fn simple_effect(op: OpCode, depth: nat) -> Option<nat> {
    match op {
        OpCode::Return | OpCode::Constant | OpCode::ConstantLong => None,
        OpCode::Nil | OpCode::True | OpCode::False => Some(depth + 1),
        OpCode::Negate | OpCode::Not => if depth >= 1 {
            Some(depth)
        } else {
            None
        },
        _ => if depth >= 2 {
            Some((depth - 1) as nat)
        } else {
            None
        },
    }
}

/// Code that consists of one opcode without operands does what that opcode
/// does.
pub proof fn lemma_depth_after_simple(op: OpCode, constants: nat, depth: nat)
    ensures
        depth_after(seq![op.byte()], constants, depth) == simple_effect(op, depth),
{
    let code = seq![op.byte()];
    lemma_opcode_round_trip(op);
    assert(code[0] == op.byte());
    assert(code.skip(1) =~= Seq::<u8>::empty());
    assert(code.skip(1).len() == 0);
    reveal_with_fuel(depth_after, 2);
}

/// The instruction that loads a constant that is there pushes one value.
pub proof fn lemma_depth_after_load(index: nat, constants: nat, depth: nat)
    requires
        index <= MAX_LONG_INDEX,
        index < constants,
    ensures
        depth_after(constant_load(index), constants, depth) == Some(depth + 1),
{
    let code = constant_load(index);
    reveal_with_fuel(depth_after, 2);
    if index <= 255 {
        lemma_opcode_round_trip(OpCode::Constant);
        assert(code[0] == OpCode::Constant.byte());
        assert(code[1] == index as u8);
        assert(code.skip(2) =~= Seq::<u8>::empty());
        assert(code.skip(2).len() == 0);
    } else {
        lemma_opcode_round_trip(OpCode::ConstantLong);
        lemma_u32_le_round_trip(index as u32);
        let operand = u32_le_bytes(index as u32);
        assert(code[0] == OpCode::ConstantLong.byte());
        assert(code.skip(1) =~= operand);
        assert(code.skip(5) =~= Seq::<u8>::empty());
        assert(code.skip(5).len() == 0);
    }
}

/// The code of a chunk is an expression followed by `Return`: the
/// expression runs well on the empty stack and leaves one value.
pub open spec fn runnable(chunk: Chunk) -> bool {
    let code = chunk.code@;
    &&& code.len() >= 1
    &&& code.last() == OpCode::Return.byte()
    &&& depth_after(code.drop_last(), chunk.constants@.len(), 0) == Some(1nat)
}

/// The machine stands at an instruction of the chunk's expression, or at the
/// final `Return`, and the rest of the expression runs well on its stack and
/// leaves one value.
pub open spec fn on_track(chunk: Chunk, machine: Machine) -> bool {
    let body = chunk.code@.drop_last();
    &&& machine.position <= body.len()
    &&& depth_after(
        body.skip(machine.position as int),
        chunk.constants@.len(),
        machine.stack.len(),
    ) == Some(1nat)
}

/// What an instruction may lead to from a machine that is on track: the run
/// goes on, on track; or it ends at the end of the code with one value on
/// the stack; or it fails with a runtime error.
pub open spec fn stays_on_track(chunk: Chunk, outcome: Outcome) -> bool {
    match outcome {
        Outcome::Continue(next) => on_track(chunk, next),
        Outcome::Done(last) => last.stack.len() == 1 && last.position == chunk.code@.len(),
        Outcome::Failed(_, fault) => fault is Runtime,
    }
}

/// One instruction keeps a machine on track, whatever the arithmetic gives.
pub proof fn lemma_step_stays_on_track(chunk: Chunk, machine: Machine, computed: u64)
    requires
        runnable(chunk),
        on_track(chunk, machine),
    ensures
        stays_on_track(chunk, step(chunk, machine, computed)),
{
    let code = chunk.code@;
    let body = code.drop_last();
    let at = machine.position as int;
    let rest = body.skip(at);
    let constants = chunk.constants@.len();
    lemma_opcode_round_trip(OpCode::Return);
    if at == body.len() {
        assert(rest.len() == 0);
        assert(code[at] == code.last());
    } else {
        assert(rest[0] == code[at]);
        let operands = code.skip(at + 1);
        match OpCode::decode(code[at]) {
            None => {},
            Some(OpCode::Return) => {},
            Some(OpCode::Constant) => {
                assert(rest[1] == operands[0]);
                assert(rest.skip(2) =~= body.skip(at + 2));
            },
            Some(OpCode::ConstantLong) => {
                assert(rest.skip(1)[0] == operands[0]);
                assert(rest.skip(1)[1] == operands[1]);
                assert(rest.skip(1)[2] == operands[2]);
                assert(rest.skip(1)[3] == operands[3]);
                assert(rest.skip(5) =~= body.skip(at + 5));
            },
            Some(_) => {
                assert(rest.skip(1) =~= body.skip(at + 1));
            },
        }
    }
}

/// Every machine of a run that starts on track is on track.
pub proof fn lemma_run_stays_on_track<F: Fn(OpCode, u64, u64) -> u64>(
    chunk: Chunk,
    arithmetic: F,
    trace: Seq<Machine>,
    index: int,
)
    requires
        runnable(chunk),
        is_run(chunk, arithmetic, trace),
        0 <= index < trace.len(),
        on_track(chunk, trace[0]),
    ensures
        on_track(chunk, trace[index]),
    decreases index,
{
    if index > 0 {
        lemma_run_stays_on_track(chunk, arithmetic, trace, index - 1);
        let before = trace[index - 1];
        assert(moves(chunk, arithmetic, before, Outcome::Continue(trace[index])));
        let computed = choose|computed: u64| #[trigger]
            step(chunk, before, computed) == Outcome::Continue(trace[index]);
        lemma_step_stays_on_track(chunk, before, computed);
    }
}

/// A chunk whose code is an expression that runs well, followed by
/// `Return`, never breaks the machine: a run from the start, whatever the
/// arithmetic gives, ends at the end of the code with exactly one value on
/// the stack, or fails with a runtime error.
pub proof fn lemma_runnable_chunk_runs<F: Fn(OpCode, u64, u64) -> u64>(
    chunk: Chunk,
    arithmetic: F,
    ending: Outcome,
)
    requires
        runnable(chunk),
        runs_to(chunk, arithmetic, Machine::initial(), ending),
    ensures
        !(ending is Continue),
        stays_on_track(chunk, ending),
{
    let start = Machine::initial();
    let trace = choose|trace: Seq<Machine>|
        {
            &&& trace.len() >= 1
            &&& trace[0] == start
            &&& #[trigger] is_run(chunk, arithmetic, trace)
            &&& moves(chunk, arithmetic, trace.last(), ending)
        };
    assert(chunk.code@.drop_last().skip(0) =~= chunk.code@.drop_last());
    lemma_run_stays_on_track(chunk, arithmetic, trace, trace.len() - 1);
    let computed = choose|computed: u64| #[trigger] step(chunk, trace.last(), computed) == ending;
    lemma_step_stays_on_track(chunk, trace.last(), computed);
}

} // verus!
