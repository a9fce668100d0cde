//! The stack machine that runs a chunk.
//!
//! What one instruction does is stated as a function on an abstract machine:
//! a position in the code and a stack of values. The machine never trusts
//! the chunk: a byte that is no opcode, a truncated operand, a constant
//! index without a constant and an operand missing from the stack all end
//! the run with a compile error. The four arithmetic operations on doubles
//! are supplied by the caller; comparison and negation are done here, on the
//! bit patterns.

use crate::chunk::Chunk;
use crate::errors::{InterpretError, InterpretResult};
use crate::instructions::{
    CodeReader, ConstantInstruction, ConstantLongInstruction, InstructionRead, OpCode,
};
use crate::object::objects_equal;
use crate::stack_effect::{lemma_runnable_chunk_runs, runnable, stays_on_track};
use crate::value::{
    is_nan, negate_number, number_equal, number_less, number_negated, numbers_equal, numbers_less,
    Value,
};
use vstd::prelude::*;
use vstd::string::StringExecFns;

verus! {

/// The most values that the stack can hold.
pub const STACK_MAX: usize = 256;

/// `Nil` and `false` count as false; every other value counts as true.
pub open spec fn falsey(value: Value) -> bool {
    match value {
        Value::NilValue => true,
        Value::BoolValue(val) => !val,
        _ => false,
    }
}

/// Values of different kinds are never equal; numbers are compared as
/// doubles, objects by their contents.
pub open spec fn equal_values(left: Value, right: Value) -> bool {
    match (left, right) {
        (Value::BoolValue(left), Value::BoolValue(right)) => left == right,
        (Value::NumberValue(left), Value::NumberValue(right)) => number_equal(left, right),
        (Value::NilValue, Value::NilValue) => true,
        (Value::ObjValue(left), Value::ObjValue(right)) => left.contents() == right.contents(),
        (_, _) => false,
    }
}

pub fn is_falsey(value: Value) -> (result: bool)
    ensures
        result == falsey(value),
{
    match value {
        Value::NilValue => true,
        Value::BoolValue(val) => !val,
        _ => false,
    }
}

pub fn values_equal(left: Value, right: Value) -> (result: bool)
    ensures
        result == equal_values(left, right),
{
    match (left, right) {
        (Value::BoolValue(left), Value::BoolValue(right)) => left == right,
        (Value::NumberValue(left), Value::NumberValue(right)) => numbers_equal(left, right),
        (Value::NilValue, Value::NilValue) => true,
        (Value::ObjValue(left), Value::ObjValue(right)) => objects_equal(&*left, &*right),
        (_, _) => false,
    }
}

/// Every value equals itself, but for a number that is a NaN.
pub proof fn lemma_value_equals_itself(value: Value)
    ensures
        equal_values(value, value) <==> !(value matches Value::NumberValue(bits) && is_nan(bits)),
{
}

/// Equality of values does not depend on the order of its operands.
pub proof fn lemma_equal_values_symmetric(left: Value, right: Value)
    ensures
        equal_values(left, right) == equal_values(right, left),
{
}

/// The machine at one moment of a run.
pub struct Machine {
    /// Offset of the next code byte to read.
    pub position: nat,
    /// The values held, the top last.
    pub stack: Seq<Value>,
}

impl Machine {
    /// The machine before anything has run: at the start of the code, with
    /// an empty stack.
    pub open spec fn initial() -> Machine {
        Machine { position: 0, stack: Seq::empty() }
    }
}

/// Why a run failed.
pub enum Fault {
    /// The chunk is broken.
    Compile(Seq<char>),
    /// The program is wrong.
    Runtime(Seq<char>),
}

/// What one instruction leads to.
pub enum Outcome {
    /// The run goes on from the given machine.
    Continue(Machine),
    /// The run has ended at a `Return`.
    Done(Machine),
    /// The run has failed.
    Failed(Machine, Fault),
}

/// The fault that an error stands for.
pub open spec fn fault_of(error: InterpretError) -> Fault {
    match error {
        InterpretError::CompileError(message) => Fault::Compile(message@),
        InterpretError::RuntimeError(message) => Fault::Runtime(message@),
    }
}

/// The opcode byte read at `position`: past the end of the code it is zero,
/// the byte of `Return`.
pub open spec fn opcode_byte(code: Seq<u8>, position: nat) -> u8 {
    if position < code.len() {
        code[position as int]
    } else {
        0
    }
}

/// The position after the opcode byte read at `position`.
pub open spec fn after_opcode(code: Seq<u8>, position: nat) -> nat {
    if position < code.len() {
        position + 1
    } else {
        position
    }
}

/// A runtime error: the stack is cleared.
pub open spec fn runtime_failure(position: nat, message: Seq<char>) -> Outcome {
    Outcome::Failed(Machine { position, stack: Seq::empty() }, Fault::Runtime(message))
}

/// A broken chunk: the machine stays as it is.
pub open spec fn broken(machine: Machine, message: Seq<char>) -> Outcome {
    Outcome::Failed(machine, Fault::Compile(message))
}

/// Pushes `value`, or fails where the stack is full.
pub open spec fn pushed(machine: Machine, value: Value) -> Outcome {
    if machine.stack.len() >= STACK_MAX {
        runtime_failure(machine.position, "Stack overflow"@)
    } else {
        Outcome::Continue(Machine { stack: machine.stack.push(value), ..machine })
    }
}

/// Pushes the constant at `index`, or fails where there is none.
pub open spec fn loaded(chunk: Chunk, machine: Machine, index: nat) -> Outcome {
    if index < chunk.constants@.len() {
        pushed(machine, chunk.constants@[index as int])
    } else {
        broken(machine, "Constant index out of range"@)
    }
}

/// The top of the stack.
pub open spec fn top(stack: Seq<Value>) -> Value {
    stack[stack.len() - 1]
}

/// The value below the top of the stack.
pub open spec fn below_top(stack: Seq<Value>) -> Value {
    stack[stack.len() - 2]
}

/// The stack holds two numbers on top.
pub open spec fn numbers_on_top(stack: Seq<Value>) -> bool {
    stack.len() >= 2 && top(stack) is NumberValue && below_top(stack) is NumberValue
}

/// The opcode asks the caller's arithmetic for its result.
pub open spec fn is_arithmetic(op: OpCode) -> bool {
    op == OpCode::Add || op == OpCode::Subtract || op == OpCode::Multiply || op == OpCode::Divide
}

/// The arithmetic operation that the next instruction needs done: the
/// opcode, the left operand and the right operand.
pub open spec fn pending(chunk: Chunk, machine: Machine) -> Option<(OpCode, u64, u64)> {
    match OpCode::decode(opcode_byte(chunk.code@, machine.position)) {
        Some(op) => if is_arithmetic(op) && numbers_on_top(machine.stack) {
            Some(
                (
                    op,
                    below_top(machine.stack)->NumberValue_0,
                    top(machine.stack)->NumberValue_0,
                ),
            )
        } else {
            None
        },
        None => None,
    }
}

/// What a binary operator on numbers leaves on the stack: for the left
/// operand `a` below the right operand `b`, the result of the arithmetic, or
/// the truth of `a > b` or `a < b`.
pub open spec fn binary_result(op: OpCode, a: u64, b: u64, computed: u64) -> Value {
    match op {
        OpCode::Greater => Value::BoolValue(number_less(b, a)),
        OpCode::Less => Value::BoolValue(number_less(a, b)),
        _ => Value::NumberValue(computed),
    }
}

/// The machine after a binary operator was applied to the two numbers on top
/// of the stack.
pub open spec fn combined(machine: Machine, op: OpCode, computed: u64) -> Machine {
    Machine {
        position: machine.position,
        stack: machine.stack.drop_last().drop_last().push(
            binary_result(
                op,
                below_top(machine.stack)->NumberValue_0,
                top(machine.stack)->NumberValue_0,
                computed,
            ),
        ),
    }
}

/// What the next instruction leads to, where `computed` is the result of the
/// arithmetic that it needs done, if it needs any.
pub open spec fn step(chunk: Chunk, machine: Machine, computed: u64) -> Outcome {
    let code = chunk.code@;
    let stack = machine.stack;
    let position = after_opcode(code, machine.position);
    let read = Machine { position, stack };
    match OpCode::decode(opcode_byte(code, machine.position)) {
        None => broken(read, "Unrecognised op code"@),
        Some(OpCode::Return) => Outcome::Done(read),
        Some(OpCode::Constant) => {
            let operands = code.skip(position as int);
            loaded(
                chunk,
                Machine { position: position + ConstantInstruction::consumed(operands), stack },
                ConstantInstruction::decoded(operands).constant_index as nat,
            )
        },
        Some(OpCode::ConstantLong) => {
            let operands = code.skip(position as int);
            if ConstantLongInstruction::readable(operands) {
                loaded(
                    chunk,
                    Machine { position: position + 4, stack },
                    ConstantLongInstruction::decoded(operands).constant_index as nat,
                )
            } else {
                broken(read, "Truncated instruction"@)
            }
        },
        Some(OpCode::Nil) => pushed(read, Value::NilValue),
        Some(OpCode::True) => pushed(read, Value::BoolValue(true)),
        Some(OpCode::False) => pushed(read, Value::BoolValue(false)),
        Some(OpCode::Negate) => if stack.len() < 1 {
            broken(read, "Stack underflow"@)
        } else {
            match top(stack) {
                Value::NumberValue(bits) => Outcome::Continue(
                    Machine {
                        position,
                        stack: stack.drop_last().push(Value::NumberValue(number_negated(bits))),
                    },
                ),
                _ => runtime_failure(position, "Operand must be a number"@),
            }
        },
        Some(OpCode::Not) => if stack.len() < 1 {
            broken(read, "Stack underflow"@)
        } else {
            Outcome::Continue(
                Machine {
                    position,
                    stack: stack.drop_last().push(Value::BoolValue(falsey(top(stack)))),
                },
            )
        },
        Some(OpCode::Equal) => if stack.len() < 2 {
            broken(read, "Stack underflow"@)
        } else {
            Outcome::Continue(
                Machine {
                    position,
                    stack: stack.drop_last().drop_last().push(
                        Value::BoolValue(equal_values(below_top(stack), top(stack))),
                    ),
                },
            )
        },
        Some(op) => if stack.len() < 2 {
            broken(read, "Stack underflow"@)
        } else if !numbers_on_top(stack) {
            runtime_failure(position, "Operands must be numbers"@)
        } else {
            Outcome::Continue(combined(read, op, computed))
        },
    }
}

/// The next instruction, with the caller's arithmetic, can lead from `from`
/// to `to`.
pub open spec fn moves<F: Fn(OpCode, u64, u64) -> u64>(
    chunk: Chunk,
    arithmetic: F,
    from: Machine,
    to: Outcome,
) -> bool {
    exists|computed: u64|
        #[trigger] step(chunk, from, computed) == to && (pending(chunk, from) matches Some(
            operation,
        ) ==> arithmetic.ensures(operation, computed))
}

/// Each machine of `trace` but the last leads to the one after it by one
/// instruction that lets the run go on.
pub open spec fn is_run<F: Fn(OpCode, u64, u64) -> u64>(
    chunk: Chunk,
    arithmetic: F,
    trace: Seq<Machine>,
) -> bool {
    forall|i: int|
        0 <= i < trace.len() - 1 ==> moves(
            chunk,
            arithmetic,
            #[trigger] trace[i],
            Outcome::Continue(trace[i + 1]),
        )
}

/// A run from `from` can end with `ending`: some instructions that let the
/// run go on, then one that ends it.
pub open spec fn runs_to<F: Fn(OpCode, u64, u64) -> u64>(
    chunk: Chunk,
    arithmetic: F,
    from: Machine,
    ending: Outcome,
) -> bool {
    &&& !(ending is Continue)
    &&& exists|trace: Seq<Machine>|
        {
            &&& trace.len() >= 1
            &&& trace[0] == from
            &&& #[trigger] is_run(chunk, arithmetic, trace)
            &&& moves(chunk, arithmetic, trace.last(), ending)
        }
}

pub struct VirtualMachine<'a> {
    chunk: &'a Chunk,
    cursor: CodeReader<'a>,
    stack: Vec<Value>,
}

/// What a step of the machine reports: the run goes on, or it has ended at a
/// `Return`.
#[derive(Debug, Copy, Clone, PartialEq, Eq, Structural)]
pub enum Progress {
    Running,
    Finished,
}

/// The outcome that the result of a step stands for.
pub open spec fn outcome_of(result: InterpretResult<Progress>, machine: Machine) -> Outcome {
    match result {
        Ok(Progress::Running) => Outcome::Continue(machine),
        Ok(Progress::Finished) => Outcome::Done(machine),
        Err(error) => Outcome::Failed(machine, fault_of(error)),
    }
}

/// The outcome that the result of a run stands for.
pub open spec fn ending_of(result: InterpretResult<()>, machine: Machine) -> Outcome {
    match result {
        Ok(()) => Outcome::Done(machine),
        Err(error) => Outcome::Failed(machine, fault_of(error)),
    }
}

impl<'a> VirtualMachine<'a> {
    /// The chunk that the machine runs.
    pub closed spec fn chunk(&self) -> Chunk {
        *self.chunk
    }

    /// Position and stack of the machine.
    pub closed spec fn machine(&self) -> Machine {
        Machine { position: self.cursor.offset(), stack: self.stack@ }
    }

    /// The machine reads the code of a well-formed chunk and holds no more
    /// values than the stack may.
    pub closed spec fn wf(&self) -> bool {
        &&& self.chunk.wf()
        &&& self.cursor.wf()
        &&& self.cursor.code() == self.chunk.code@
        &&& self.stack@.len() <= STACK_MAX
    }

    /// A machine at the start of `chunk`, with an empty stack.
    pub fn new(chunk: &'a Chunk) -> (vm: VirtualMachine<'a>)
        requires
            chunk.wf(),
        ensures
            vm.wf(),
            vm.chunk() == *chunk,
            vm.machine() == Machine::initial(),
    {
        VirtualMachine {
            chunk,
            cursor: CodeReader::new(&chunk.code),
            stack: Vec::with_capacity(STACK_MAX),
        }
    }

    /// The values on the stack, the top last.
    pub fn stack(&self) -> (stack: &Vec<Value>)
        ensures
            stack@ == self.machine().stack,
    {
        &self.stack
    }

    /// Offset of the next code byte to read.
    pub fn position(&self) -> (position: usize)
        ensures
            position == self.machine().position,
    {
        self.cursor.position()
    }

    /// The source line of the next code byte, if there is such a byte.
    pub fn current_line(&self) -> (line: Option<usize>)
        requires
            self.wf(),
        ensures
            line == (if self.machine().position < self.chunk().code@.len() {
                Some(self.chunk().line_at(self.machine().position as int))
            } else {
                None
            }),
    {
        self.chunk.line(self.cursor.position())
    }

    /// Runs the chunk from where the machine stands until a `Return` or a
    /// failure. `arithmetic` computes `Add`, `Subtract`, `Multiply` and
    /// `Divide` on the bit patterns of two doubles.
    pub fn interpret<F: Fn(OpCode, u64, u64) -> u64>(&mut self, arithmetic: F) -> (result:
        InterpretResult<()>)
        requires
            old(self).wf(),
            forall|op: OpCode, a: u64, b: u64| #[trigger] arithmetic.requires((op, a, b)),
        ensures
            final(self).wf(),
            final(self).chunk() == old(self).chunk(),
            runs_to(
                old(self).chunk(),
                arithmetic,
                old(self).machine(),
                ending_of(result, final(self).machine()),
            ),
            runnable(old(self).chunk()) && old(self).machine() == Machine::initial()
                ==> stays_on_track(old(self).chunk(), ending_of(result, final(self).machine())),
    {
        let ghost chunk = self.chunk();
        let ghost mut trace: Seq<Machine> = seq![self.machine()];
        loop
            invariant
                self.wf(),
                self.chunk() == chunk,
                chunk == old(self).chunk(),
                forall|op: OpCode, a: u64, b: u64| #[trigger] arithmetic.requires((op, a, b)),
                trace.len() >= 1,
                trace[0] == old(self).machine(),
                trace.last() == self.machine(),
                is_run(chunk, arithmetic, trace),
            decreases chunk.code@.len() - self.machine().position,
        {
            let ghost before = trace;
            match self.step(&arithmetic) {
                Ok(Progress::Running) => {
                    proof {
                        trace = before.push(self.machine());
                        assert forall|i: int| 0 <= i < trace.len() - 1 implies moves(
                            chunk,
                            arithmetic,
                            #[trigger] trace[i],
                            Outcome::Continue(trace[i + 1]),
                        ) by {
                            if i < before.len() - 1 {
                                assert(trace[i] == before[i] && trace[i + 1] == before[i + 1]);
                            }
                        }
                    }
                },
                Ok(Progress::Finished) => {
                    proof {
                        let ending = Outcome::Done(self.machine());
                        assert(runs_to(chunk, arithmetic, trace[0], ending));
                        if runnable(chunk) && trace[0] == Machine::initial() {
                            lemma_runnable_chunk_runs(chunk, arithmetic, ending);
                        }
                    }
                    return Ok(());
                },
                Err(error) => {
                    proof {
                        let ending = Outcome::Failed(self.machine(), fault_of(error));
                        assert(runs_to(chunk, arithmetic, trace[0], ending));
                        if runnable(chunk) && trace[0] == Machine::initial() {
                            lemma_runnable_chunk_runs(chunk, arithmetic, ending);
                        }
                    }
                    return Err(error);
                },
            }
        }
    }

    /// Executes one instruction.
    pub fn step<F: Fn(OpCode, u64, u64) -> u64>(&mut self, arithmetic: &F) -> (result:
        InterpretResult<Progress>)
        requires
            old(self).wf(),
            forall|op: OpCode, a: u64, b: u64| #[trigger] arithmetic.requires((op, a, b)),
        ensures
            final(self).wf(),
            final(self).chunk() == old(self).chunk(),
            moves(
                old(self).chunk(),
                *arithmetic,
                old(self).machine(),
                outcome_of(result, final(self).machine()),
            ),
            result matches Ok(Progress::Running) ==> final(self).machine().position > old(self).machine().position,
    {
        let ghost before = self.machine();
        let ghost chunk = self.chunk();
        let instruction = self.read_byte();
        let result = match instruction {
            Some(OpCode::Add) => self.binary_op(OpCode::Add, arithmetic),
            Some(OpCode::Constant) => {
                match self.read_constant() {
                    Ok(value) => self.push(value),
                    Err(error) => Err(error),
                }
            },
            Some(OpCode::ConstantLong) => {
                match self.read_constant_long() {
                    Ok(value) => self.push(value),
                    Err(error) => Err(error),
                }
            },
            Some(OpCode::True) => self.push(Value::bool(true)),
            Some(OpCode::False) => self.push(Value::bool(false)),
            Some(OpCode::Nil) => self.push(Value::nil()),
            Some(OpCode::Divide) => self.binary_op(OpCode::Divide, arithmetic),
            Some(OpCode::Multiply) => self.binary_op(OpCode::Multiply, arithmetic),
            Some(OpCode::Negate) => {
                match self.pop() {
                    Ok(Value::NumberValue(value)) => {
                        self.stack.push(Value::number(negate_number(value)));
                        Ok(Progress::Running)
                    },
                    Ok(_) => self.runtime_error("Operand must be a number"),
                    Err(error) => Err(error),
                }
            },
            Some(OpCode::Return) => Ok(Progress::Finished),
            Some(OpCode::Subtract) => self.binary_op(OpCode::Subtract, arithmetic),
            Some(OpCode::Not) => {
                match self.pop() {
                    Ok(value) => {
                        self.stack.push(Value::bool(is_falsey(value)));
                        Ok(Progress::Running)
                    },
                    Err(error) => Err(error),
                }
            },
            Some(OpCode::Equal) => {
                if self.stack.len() < 2 {
                    Err(broken_chunk("Stack underflow"))
                } else {
                    let right = self.stack.pop().unwrap();
                    let left = self.stack.pop().unwrap();
                    self.stack.push(Value::bool(values_equal(left, right)));
                    Ok(Progress::Running)
                }
            },
            Some(OpCode::Greater) => self.binary_op(OpCode::Greater, arithmetic),
            Some(OpCode::Less) => self.binary_op(OpCode::Less, arithmetic),
            None => Err(broken_chunk("Unrecognised op code")),
        };
        proof {
            let outcome = outcome_of(result, self.machine());
            match pending(chunk, before) {
                Some(operation) => {
                    let read = Machine {
                        position: after_opcode(chunk.code@, before.position),
                        stack: before.stack,
                    };
                    let computed = choose|computed: u64| #[trigger]
                        arithmetic.ensures(operation, computed) && outcome == Outcome::Continue(
                            combined(read, operation.0, computed),
                        );
                    assert(step(chunk, before, computed) == outcome);
                },
                None => {
                    assert(step(chunk, before, 0) == outcome);
                },
            }
        }
        result
    }

    /// Pushes `value` unless the stack is full.
    fn push(&mut self, value: Value) -> (result: InterpretResult<Progress>)
        requires
            old(self).wf(),
        ensures
            final(self).wf(),
            final(self).chunk() == old(self).chunk(),
            outcome_of(result, final(self).machine()) == pushed(old(self).machine(), value),
    {
        if self.stack.len() >= STACK_MAX {
            self.runtime_error("Stack overflow")
        } else {
            self.stack.push(value);
            Ok(Progress::Running)
        }
    }

    /// Takes the top value off the stack.
    fn pop(&mut self) -> (result: InterpretResult<Value>)
        requires
            old(self).wf(),
        ensures
            final(self).wf(),
            final(self).chunk() == old(self).chunk(),
            final(self).machine().position == old(self).machine().position,
            old(self).machine().stack.len() >= 1 ==> result == Ok::<Value, InterpretError>(
                top(old(self).machine().stack),
            ) && final(self).machine().stack == old(self).machine().stack.drop_last(),
            old(self).machine().stack.len() < 1 ==> result is Err && fault_of(result->Err_0)
                == Fault::Compile("Stack underflow"@) && final(self).machine() == old(self).machine(),
    {
        match self.stack.pop() {
            Some(value) => Ok(value),
            None => Err(broken_chunk("Stack underflow")),
        }
    }

    /// The value `distance` places below the top of the stack.
    fn peek(&self, distance: usize) -> (value: &Value)
        requires
            distance < self.machine().stack.len(),
        ensures
            *value == self.machine().stack[self.machine().stack.len() - distance - 1],
    {
        &self.stack[self.stack.len() - distance - 1]
    }

    /// Applies a binary operator to the two numbers on top of the stack.
    fn binary_op<F: Fn(OpCode, u64, u64) -> u64>(&mut self, op: OpCode, arithmetic: &F) -> (result:
        InterpretResult<Progress>)
        requires
            old(self).wf(),
            is_arithmetic(op) || op == OpCode::Greater || op == OpCode::Less,
            forall|op: OpCode, a: u64, b: u64| #[trigger] arithmetic.requires((op, a, b)),
        ensures
            final(self).wf(),
            final(self).chunk() == old(self).chunk(),
            old(self).machine().stack.len() < 2 ==> outcome_of(result, final(self).machine())
                == broken(old(self).machine(), "Stack underflow"@),
            old(self).machine().stack.len() >= 2 && !numbers_on_top(old(self).machine().stack)
                ==> outcome_of(result, final(self).machine()) == runtime_failure(
                old(self).machine().position,
                "Operands must be numbers"@,
            ),
            numbers_on_top(old(self).machine().stack) && !is_arithmetic(op) ==> outcome_of(
                result,
                final(self).machine(),
            ) == Outcome::Continue(combined(old(self).machine(), op, 0)),
            numbers_on_top(old(self).machine().stack) && is_arithmetic(op) ==> exists|
                computed: u64,
            |
                {
                    &&& #[trigger] arithmetic.ensures(
                        (
                            op,
                            below_top(old(self).machine().stack)->NumberValue_0,
                            top(old(self).machine().stack)->NumberValue_0,
                        ),
                        computed,
                    )
                    &&& outcome_of(result, final(self).machine()) == Outcome::Continue(
                        combined(old(self).machine(), op, computed),
                    )
                },
    {
        if self.stack.len() < 2 {
            return Err(broken_chunk("Stack underflow"));
        }
        if !(self.peek(0).is_number() && self.peek(1).is_number()) {
            return self.runtime_error("Operands must be numbers");
        }
        let b = self.stack.pop().unwrap().as_number();
        let a = self.stack.pop().unwrap().as_number();
        let value = match op {
            OpCode::Greater => Value::bool(numbers_less(b, a)),
            OpCode::Less => Value::bool(numbers_less(a, b)),
            _ => {
                let computed = arithmetic(op, a, b);
                Value::number(computed)
            },
        };
        self.stack.push(value);
        Ok(Progress::Running)
    }

    /// Reads the next opcode.
    fn read_byte(&mut self) -> (op_code: Option<OpCode>)
        requires
            old(self).wf(),
        ensures
            final(self).wf(),
            final(self).chunk() == old(self).chunk(),
            final(self).machine().stack == old(self).machine().stack,
            op_code == OpCode::decode(
                opcode_byte(old(self).chunk().code@, old(self).machine().position),
            ),
            final(self).machine().position == after_opcode(
                old(self).chunk().code@,
                old(self).machine().position,
            ),
    {
        let opcode_byte = self.cursor.read_byte();
        OpCode::from_byte(opcode_byte)
    }

    /// Reads a one-byte constant index and fetches the constant.
    fn read_constant(&mut self) -> (result: InterpretResult<Value>)
        requires
            old(self).wf(),
        ensures
            final(self).wf(),
            final(self).chunk() == old(self).chunk(),
            final(self).machine().stack == old(self).machine().stack,
            final(self).machine().position == old(self).machine().position
                + ConstantInstruction::consumed(
                old(self).chunk().code@.skip(old(self).machine().position as int),
            ),
            old(self).fetched(
                ConstantInstruction::decoded(
                    old(self).chunk().code@.skip(old(self).machine().position as int),
                ).constant_index as nat,
                result,
            ),
    {
        let instruction = ConstantInstruction::parse(&mut self.cursor);
        self.constant(instruction.constant_index as usize)
    }

    /// Reads a four-byte constant index and fetches the constant.
    fn read_constant_long(&mut self) -> (result: InterpretResult<Value>)
        requires
            old(self).wf(),
        ensures
            final(self).wf(),
            final(self).chunk() == old(self).chunk(),
            final(self).machine().stack == old(self).machine().stack,
            ConstantLongInstruction::readable(
                old(self).chunk().code@.skip(old(self).machine().position as int),
            ) ==> final(self).machine().position == old(self).machine().position + 4
                && old(self).fetched(
                ConstantLongInstruction::decoded(
                    old(self).chunk().code@.skip(old(self).machine().position as int),
                ).constant_index as nat,
                result,
            ),
            !ConstantLongInstruction::readable(
                old(self).chunk().code@.skip(old(self).machine().position as int),
            ) ==> final(self).machine() == old(self).machine() && result is Err && fault_of(
                result->Err_0,
            ) == Fault::Compile("Truncated instruction"@),
    {
        if self.cursor.remaining_len() < 4 {
            return Err(broken_chunk("Truncated instruction"));
        }
        let instruction = ConstantLongInstruction::parse(&mut self.cursor);
        self.constant(instruction.constant_index as usize)
    }

    /// `result` is the constant at `index`, or the failure for an index
    /// without a constant.
    spec fn fetched(&self, index: nat, result: InterpretResult<Value>) -> bool {
        if index < self.chunk().constants@.len() {
            result == Ok::<Value, InterpretError>(self.chunk().constants@[index as int])
        } else {
            result is Err && fault_of(result->Err_0) == Fault::Compile(
                "Constant index out of range"@,
            )
        }
    }

    /// A copy of the constant at `index`.
    fn constant(&self, index: usize) -> (result: InterpretResult<Value>)
        ensures
            self.fetched(index as nat, result),
    {
        if index < self.chunk.constants.len() {
            Ok(self.chunk.constants[index].duplicate())
        } else {
            Err(broken_chunk("Constant index out of range"))
        }
    }

    fn reset_stack(&mut self)
        requires
            old(self).wf(),
        ensures
            final(self).wf(),
            final(self).chunk() == old(self).chunk(),
            final(self).machine() == (Machine {
                position: old(self).machine().position,
                stack: Seq::empty(),
            }),
    {
        self.stack.clear();
    }

    /// Clears the stack and gives the runtime error with `message`.
    fn runtime_error(&mut self, message: &str) -> (result: InterpretResult<Progress>)
        requires
            old(self).wf(),
        ensures
            final(self).wf(),
            final(self).chunk() == old(self).chunk(),
            outcome_of(result, final(self).machine()) == runtime_failure(
                old(self).machine().position,
                message@,
            ),
    {
        self.reset_stack();
        return Err(InterpretError::RuntimeError(String::from_str(message)));
    }
}

/// The error for a chunk that cannot be run, with `message`.
fn broken_chunk(message: &str) -> (error: InterpretError)
    ensures
        fault_of(error) == Fault::Compile(message@),
{
    InterpretError::CompileError(String::from_str(message))
}

} // verus!
