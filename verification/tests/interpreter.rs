use rlox::chunk::Chunk;
use rlox::compiler::{compile, get_rule, InfixRule, Precedence, PrefixRule};
use rlox::debug::{disassemble_chunk, disassemble_instruction, Instruction};
use rlox::errors::{located, InterpretError};
use rlox::interpreter::interpret;
use rlox::instructions::{
    ConstantInstruction, ConstantLongInstruction, InstructionWrite, OpCode, SimpleInstruction,
};
use rlox::scanner::TokenType;
use rlox::value::Value;
use rlox::virtual_machine::{Progress, VirtualMachine};

fn parse_number(lexeme: &str) -> u64 {
    lexeme.parse::<f64>().unwrap().to_bits()
}

fn arithmetic(op: OpCode, a: u64, b: u64) -> u64 {
    let (a, b) = (f64::from_bits(a), f64::from_bits(b));
    let result = match op {
        OpCode::Add => a + b,
        OpCode::Subtract => a - b,
        OpCode::Multiply => a * b,
        OpCode::Divide => a / b,
        _ => unreachable!(),
    };
    result.to_bits()
}

fn compiled(source: &str) -> Chunk {
    compile(source, parse_number).unwrap()
}

fn diagnostic(source: &str) -> String {
    match compile(source, parse_number) {
        Err(InterpretError::CompileError(message)) => message,
        Err(InterpretError::RuntimeError(message)) => panic!("runtime error: {}", message),
        Ok(_) => panic!("'{}' compiled", source),
    }
}

/// The value on top of the stack after running `source`.
fn evaluate(source: &str) -> Value {
    let chunk = compiled(source);
    let mut vm = VirtualMachine::new(&chunk);
    vm.interpret(arithmetic).unwrap();
    assert_eq!(vm.stack().len(), 1);
    vm.stack()[0].duplicate()
}

fn number(source: &str) -> f64 {
    match evaluate(source) {
        Value::NumberValue(bits) => f64::from_bits(bits),
        other => panic!("expected a number, got {:?}", other),
    }
}

fn boolean(source: &str) -> bool {
    match evaluate(source) {
        Value::BoolValue(value) => value,
        other => panic!("expected a bool, got {:?}", other),
    }
}

fn runtime_error(source: &str) -> String {
    let chunk = compiled(source);
    let mut vm = VirtualMachine::new(&chunk);
    match vm.interpret(arithmetic) {
        Err(InterpretError::RuntimeError(message)) => {
            assert!(vm.stack().is_empty());
            message
        }
        other => panic!("expected a runtime error, got {:?}", other),
    }
}

fn ops(codes: &[OpCode]) -> Vec<u8> {
    codes.iter().map(|op| op.as_byte()).collect()
}

#[test]
fn test_one_plus_two() {
    assert_eq!(number("1 + 2"), 3.0);
}

#[test]
fn test_unary_minus_binds_tighter_than_plus() {
    assert_eq!(number("-1 + 2"), 1.0);
}

#[test]
fn test_grouping_and_mixed_operators() {
    assert_eq!(number("(-1 + 2) * 3 - -4"), 7.0);
}

#[test]
fn test_precedence_of_not_equality_and_comparison() {
    assert_eq!(boolean("!(5 - 4 > 3 * 2 == !nil)"), true);
}

#[test]
fn test_adding_a_bool_is_a_runtime_error() {
    assert_eq!(runtime_error("1 + true"), "Operands must be numbers");
}

#[test]
fn test_unterminated_string_is_a_compile_error() {
    let message = diagnostic("\"abc");
    assert!(message.contains("Unterminated string"), "{}", message);
    assert_eq!(message, "[line 1] Error: Unterminated string");
}

#[test]
fn test_three_hundred_constants() {
    let source = (0..300).map(|i| i.to_string()).collect::<Vec<_>>().join(" + ");
    let chunk = compiled(&source);
    assert_eq!(chunk.constants.len(), 300);
    let loads: Vec<Instruction> = disassemble_chunk(&chunk)
        .iter()
        .map(|entry| entry.instruction)
        .filter(|instruction| matches!(instruction, Instruction::Load(_, _)))
        .collect();
    assert_eq!(loads.len(), 300);
    for (index, load) in loads.iter().enumerate() {
        let op = if index < 256 { OpCode::Constant } else { OpCode::ConstantLong };
        assert_eq!(*load, Instruction::Load(op, index as u32));
    }
    let mut vm = VirtualMachine::new(&chunk);
    vm.interpret(arithmetic).unwrap();
    match vm.stack()[0] {
        Value::NumberValue(bits) => assert_eq!(f64::from_bits(bits), (299.0 * 300.0) / 2.0),
        _ => panic!("expected a number"),
    }
}

#[test]
fn test_emitted_code() {
    assert_eq!(compiled("1 + 2").code, vec![1, 0, 1, 1, 7, 0]);
    assert_eq!(compiled("true").code, ops(&[OpCode::True, OpCode::Return]));
    assert_eq!(compiled("!nil").code, ops(&[OpCode::Nil, OpCode::Not, OpCode::Return]));
    assert_eq!(
        compiled("true != false").code,
        ops(&[OpCode::True, OpCode::False, OpCode::Equal, OpCode::Not, OpCode::Return])
    );
    assert_eq!(
        compiled("nil >= nil").code,
        ops(&[OpCode::Nil, OpCode::Nil, OpCode::Less, OpCode::Not, OpCode::Return])
    );
    assert_eq!(
        compiled("nil <= nil").code,
        ops(&[OpCode::Nil, OpCode::Nil, OpCode::Greater, OpCode::Not, OpCode::Return])
    );
    assert_eq!(
        compiled("nil < nil > nil").code,
        ops(&[OpCode::Nil, OpCode::Nil, OpCode::Less, OpCode::Nil, OpCode::Greater, OpCode::Return])
    );
    assert_eq!(
        compiled("-(true)").code,
        ops(&[OpCode::True, OpCode::Negate, OpCode::Return])
    );
}

#[test]
fn test_operators_of_one_level_group_to_the_left() {
    assert_eq!(number("10 - 4 - 3"), 3.0);
    assert_eq!(number("64 / 4 / 2"), 8.0);
    assert_eq!(number("2 + 3 * 4"), 14.0);
    assert_eq!(number("2 * 3 + 4"), 10.0);
    assert_eq!(number("--3"), 3.0);
    assert_eq!(boolean("!!true"), true);
}

#[test]
fn test_comparisons_and_equality() {
    assert_eq!(boolean("1 < 2"), true);
    assert_eq!(boolean("2 < 1"), false);
    assert_eq!(boolean("2 > 1"), true);
    assert_eq!(boolean("1 >= 1"), true);
    assert_eq!(boolean("1 <= 0.5"), false);
    assert_eq!(boolean("1 == 1"), true);
    assert_eq!(boolean("1 != 1"), false);
    assert_eq!(boolean("nil == nil"), true);
    assert_eq!(boolean("nil == false"), false);
    assert_eq!(boolean("true == true"), true);
    assert_eq!(boolean("0 == -0"), true);
    assert_eq!(boolean("0 / 0 == 0 / 0"), false);
    assert_eq!(boolean("0 / 0 >= 1"), true);
}

#[test]
fn test_division_follows_the_doubles() {
    assert_eq!(number("1 / 4"), 0.25);
    assert_eq!(number("1 / 0"), f64::INFINITY);
    assert_eq!(number("12.5 * 2"), 25.0);
}

#[test]
fn test_lines_of_emitted_code() {
    let chunk = compiled("1 +\n\n2");
    assert_eq!(chunk.code, vec![1, 0, 1, 1, 7, 0]);
    let lines: Vec<usize> = (0..chunk.code.len()).map(|offset| chunk.lines.nth(offset)).collect();
    assert_eq!(lines, vec![1, 1, 3, 3, 3, 3]);
}

#[test]
fn test_compile_errors() {
    assert_eq!(diagnostic(""), "[line 1] Error at end: Expected expression.");
    assert_eq!(diagnostic("1 +"), "[line 1] Error at end: Expected expression.");
    assert_eq!(diagnostic("(1"), "[line 1] Error at end: Expected ')' after expression");
    assert_eq!(diagnostic("1 2"), "[line 1] Error at '2': Expected end of expression");
    assert_eq!(diagnostic("\n\n)"), "[line 3] Error at ')': Expected expression.");
    assert_eq!(diagnostic("1 @"), "[line 1] Error: Unexpected character");
    assert_eq!(diagnostic("1 . 2"), "[line 1] Error at '.': No infix parsing method set.");
    assert_eq!(diagnostic("x"), "[line 1] Error at 'x': Expected expression.");
    assert_eq!(diagnostic("\"a\nb"), "[line 2] Error: Unterminated string");
    assert_eq!(
        diagnostic("1 +\n+ 2 @ \"open"),
        "[line 2] Error at '+': Expected expression."
    );
    assert_eq!(diagnostic("12345678901 +\n\n\n\n\n\n\n\n\n\n\n*"),
        "[line 12] Error at '*': Expected expression.");
}

#[test]
fn test_runtime_errors() {
    assert_eq!(runtime_error("-true"), "Operand must be a number");
    assert_eq!(runtime_error("nil < 1"), "Operands must be numbers");
    assert_eq!(runtime_error("1 * nil"), "Operands must be numbers");
    assert_eq!(runtime_error("true / false"), "Operands must be numbers");
}

#[test]
fn test_runtime_error_line() {
    let chunk = compiled("1 +\n true");
    let mut vm = VirtualMachine::new(&chunk);
    assert!(vm.interpret(arithmetic).is_err());
    assert_eq!(vm.current_line(), Some(2));
}

fn hand_written(code: Vec<u8>, constants: Vec<Value>) -> Chunk {
    let mut chunk = Chunk::new();
    for value in constants {
        chunk.constants.push(value);
    }
    for byte in code {
        chunk.code.push(byte);
        chunk.lines.push(1);
    }
    chunk
}

fn broken(code: Vec<u8>) -> String {
    let chunk = hand_written(code, vec![]);
    let mut vm = VirtualMachine::new(&chunk);
    match vm.interpret(arithmetic) {
        Err(InterpretError::CompileError(message)) => message,
        other => panic!("expected a compile error, got {:?}", other),
    }
}

#[test]
fn test_broken_chunks() {
    assert_eq!(broken(vec![200]), "Unrecognised op code");
    assert_eq!(broken(vec![15]), "Unrecognised op code");
    assert_eq!(broken(ops(&[OpCode::Add])), "Stack underflow");
    assert_eq!(broken(ops(&[OpCode::Nil, OpCode::Less])), "Stack underflow");
    assert_eq!(broken(ops(&[OpCode::Negate])), "Stack underflow");
    assert_eq!(broken(ops(&[OpCode::Not])), "Stack underflow");
    assert_eq!(broken(ops(&[OpCode::True, OpCode::Equal])), "Stack underflow");
    assert_eq!(broken(vec![1, 0]), "Constant index out of range");
    assert_eq!(broken(vec![1]), "Constant index out of range");
    assert_eq!(broken(vec![2, 0, 0, 0, 0]), "Constant index out of range");
    assert_eq!(broken(vec![2, 0, 0, 0]), "Truncated instruction");
}

#[test]
fn test_running_off_the_end_is_a_return() {
    let chunk = hand_written(ops(&[OpCode::True, OpCode::Not]), vec![]);
    let mut vm = VirtualMachine::new(&chunk);
    assert!(vm.interpret(arithmetic).is_ok());
    assert_eq!(vm.position(), 2);
    assert!(matches!(vm.stack()[0], Value::BoolValue(false)));
    let empty = Chunk::new();
    let mut vm = VirtualMachine::new(&empty);
    assert!(vm.interpret(arithmetic).is_ok());
    assert!(vm.stack().is_empty());
}

#[test]
fn test_stack_overflow_is_a_runtime_error() {
    let mut code = vec![OpCode::Nil.as_byte(); 256];
    let chunk = hand_written(code.clone(), vec![]);
    let mut vm = VirtualMachine::new(&chunk);
    assert!(vm.interpret(arithmetic).is_ok());
    assert_eq!(vm.stack().len(), 256);

    code.push(OpCode::Nil.as_byte());
    let chunk = hand_written(code, vec![]);
    let mut vm = VirtualMachine::new(&chunk);
    match vm.interpret(arithmetic) {
        Err(InterpretError::RuntimeError(message)) => assert_eq!(message, "Stack overflow"),
        other => panic!("expected a runtime error, got {:?}", other),
    }
    assert!(vm.stack().is_empty());
}

#[test]
fn test_operand_order() {
    let chunk = hand_written(
        vec![1, 0, 1, 1, OpCode::Subtract.as_byte(), 1, 0, 1, 1, OpCode::Greater.as_byte()],
        vec![Value::number(10.0f64.to_bits()), Value::number(4.0f64.to_bits())],
    );
    let mut vm = VirtualMachine::new(&chunk);
    assert!(vm.interpret(arithmetic).is_ok());
    assert_eq!(vm.stack().len(), 2);
    assert!(matches!(vm.stack()[0], Value::NumberValue(bits) if f64::from_bits(bits) == 6.0));
    assert!(matches!(vm.stack()[1], Value::BoolValue(true)));
}

#[test]
fn test_stepping() {
    let chunk = compiled("1 + 2");
    let mut vm = VirtualMachine::new(&chunk);
    assert_eq!(vm.step(&arithmetic).unwrap(), Progress::Running);
    assert_eq!(vm.position(), 2);
    assert_eq!(vm.step(&arithmetic).unwrap(), Progress::Running);
    assert_eq!(vm.step(&arithmetic).unwrap(), Progress::Running);
    assert_eq!(vm.stack().len(), 1);
    assert_eq!(vm.step(&arithmetic).unwrap(), Progress::Finished);
    assert_eq!(vm.position(), 6);
    assert_eq!(vm.current_line(), None);
}

#[test]
fn test_long_constants_are_loaded() {
    let mut chunk = Chunk::new();
    for i in 0..260 {
        chunk.constants.push(Value::number((i as f64).to_bits()));
    }
    chunk.write_instruction(ConstantLongInstruction::new(259), 1);
    chunk.write_instruction(ConstantInstruction::new(255), 1);
    let mut vm = VirtualMachine::new(&chunk);
    assert_eq!(vm.step(&arithmetic).unwrap(), Progress::Running);
    assert_eq!(vm.position(), 5);
    assert_eq!(vm.step(&arithmetic).unwrap(), Progress::Running);
    assert_eq!(vm.position(), 7);
    assert!(matches!(vm.stack()[0], Value::NumberValue(bits) if f64::from_bits(bits) == 259.0));
    assert!(matches!(vm.stack()[1], Value::NumberValue(bits) if f64::from_bits(bits) == 255.0));
}

#[test]
fn test_disassembling_a_constant_preserves_the_index() {
    for index in [0u8, 1, 7, 255] {
        let mut chunk = Chunk::new();
        for _ in 0..=index {
            chunk.constants.push(Value::nil());
        }
        chunk.write_instruction(SimpleInstruction::new(OpCode::Nil), 4);
        chunk.write_instruction(ConstantInstruction::new(index), 4);
        chunk.write_instruction(SimpleInstruction::new(OpCode::Return), 5);
        let entry = disassemble_instruction(&chunk, 1);
        assert_eq!(entry.instruction, Instruction::Load(OpCode::Constant, index as u32));
        assert_eq!(entry.offset, 1);
        assert_eq!(entry.next_offset, 3);
        assert_eq!(entry.line, 4);
        assert!(entry.continues_line);
        assert!(matches!(entry.value, Some(Value::NilValue)));
        let last = disassemble_instruction(&chunk, 3);
        assert_eq!(last.instruction, Instruction::Simple(OpCode::Return));
        assert_eq!(last.line, 5);
        assert!(!last.continues_line);
    }
}

#[test]
fn test_disassembling_a_long_constant_preserves_the_index() {
    for index in [0u32, 255, 256, 70_000, u32::MAX] {
        let mut chunk = Chunk::new();
        chunk.write_instruction(ConstantLongInstruction::new(index), 1);
        let entry = disassemble_instruction(&chunk, 0);
        assert_eq!(entry.instruction, Instruction::Load(OpCode::ConstantLong, index));
        assert_eq!(entry.next_offset, 5);
        assert!(entry.value.is_none());
    }
}

#[test]
fn test_disassembling_a_chunk() {
    let chunk = compiled("1 + 2");
    let listing = disassemble_chunk(&chunk);
    let found: Vec<(usize, Instruction)> =
        listing.iter().map(|entry| (entry.offset, entry.instruction)).collect();
    assert_eq!(found, vec![
        (0, Instruction::Load(OpCode::Constant, 0)),
        (2, Instruction::Load(OpCode::Constant, 1)),
        (4, Instruction::Simple(OpCode::Add)),
        (5, Instruction::Simple(OpCode::Return)),
    ]);
    assert!(matches!(listing[1].value, Some(Value::NumberValue(bits)) if f64::from_bits(bits) == 2.0));

    let odd = hand_written(vec![99, 2, 1, 1], vec![]);
    let found: Vec<Instruction> =
        disassemble_chunk(&odd).iter().map(|entry| entry.instruction).collect();
    assert_eq!(found, vec![
        Instruction::Unknown(99),
        Instruction::Truncated(OpCode::ConstantLong),
        Instruction::Load(OpCode::Constant, 1),
    ]);
}

#[test]
fn test_parse_table() {
    let minus = get_rule(TokenType::Minus);
    assert_eq!(minus.prefix, Some(PrefixRule::Unary));
    assert_eq!(minus.infix, Some(InfixRule::Binary));
    assert_eq!(minus.precedence, Precedence::Term);
    let paren = get_rule(TokenType::LeftParen);
    assert_eq!(paren.prefix, Some(PrefixRule::Grouping));
    assert_eq!(paren.infix, None);
    assert_eq!(paren.precedence, Precedence::Call);
    assert_eq!(get_rule(TokenType::Bang).precedence, Precedence::Lowest);
    assert_eq!(get_rule(TokenType::Star).precedence, Precedence::Factor);
    assert_eq!(get_rule(TokenType::LessEqual).precedence, Precedence::Comparison);
    assert_eq!(get_rule(TokenType::BangEqual).precedence, Precedence::Equality);
    assert_eq!(get_rule(TokenType::Number).prefix, Some(PrefixRule::Number));
    assert_eq!(get_rule(TokenType::Nil).prefix, Some(PrefixRule::Literal));
    assert_eq!(get_rule(TokenType::Eof).prefix, None);
    assert_eq!(get_rule(TokenType::And).precedence, Precedence::And);
    assert_eq!(Precedence::Term.next(), Precedence::Factor);
    assert_eq!(Precedence::Lowest.to_usize(), 0);
    assert_eq!(Precedence::Primary.to_usize(), 10);
}

#[test]
fn test_written_instruction_is_what_was_encoded() {
    let mut code = vec![9u8];
    ConstantInstruction::new(3).write(&mut code);
    SimpleInstruction::new(OpCode::Add).write(&mut code);
    assert_eq!(code, vec![9, 1, 3, 7]);
}

#[test]
fn test_interpret_compiles_and_runs() {
    assert!(interpret("1 + 2", parse_number, arithmetic).is_ok());
    assert!(interpret("!(5 - 4 > 3 * 2 == !nil)", parse_number, arithmetic).is_ok());
    match interpret("1 + true", parse_number, arithmetic) {
        Err(InterpretError::RuntimeError(message)) => {
            assert_eq!(message, "Operands must be numbers")
        }
        other => panic!("expected a runtime error, got {:?}", other),
    }
    match interpret("\"abc", parse_number, arithmetic) {
        Err(InterpretError::CompileError(message)) => {
            assert!(message.contains("Unterminated string"))
        }
        other => panic!("expected a compile error, got {:?}", other),
    }
    match interpret("(1 + 2", parse_number, arithmetic) {
        Err(InterpretError::CompileError(message)) => {
            assert_eq!(message, "[line 1] Error at end: Expected ')' after expression")
        }
        other => panic!("expected a compile error, got {:?}", other),
    }
}

#[test]
fn test_deep_nesting_overflows_the_stack() {
    let depth = 300;
    let source = format!("{}1{}", "(1 + ".repeat(depth), ")".repeat(depth));
    match interpret(&source, parse_number, arithmetic) {
        Err(InterpretError::RuntimeError(message)) => assert_eq!(message, "Stack overflow"),
        other => panic!("expected a runtime error, got {:?}", other),
    }
    let source = format!("{}1{}", "(1 + ".repeat(200), ")".repeat(200));
    assert!(interpret(&source, parse_number, arithmetic).is_ok());
}

#[test]
fn test_located_report() {
    assert_eq!(located(1, "Operands must be numbers"), "[line 1] Operands must be numbers");
    assert_eq!(located(0, ""), "[line 0] ");
    assert_eq!(located(1234567890, "x"), "[line 1234567890] x");
}

#[test]
fn test_compiled_chunks_leave_one_value() {
    for source in ["1", "nil", "-1 + 2", "(1 < 2) == !(3 >= 4)", "1 - 2 * 3 / 4 + 5 <= 6 != true"] {
        let chunk = compiled(source);
        assert_eq!(*chunk.code.last().unwrap(), OpCode::Return.as_byte());
        let mut vm = VirtualMachine::new(&chunk);
        assert!(vm.interpret(arithmetic).is_ok(), "source '{}'", source);
        assert_eq!(vm.stack().len(), 1, "source '{}'", source);
        assert_eq!(vm.position(), chunk.code.len());
    }
}
