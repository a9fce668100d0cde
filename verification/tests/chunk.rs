use byteorder::{LittleEndian, ReadBytesExt};
use rlox::chunk::Chunk;
use rlox::instructions::{InstructionWrite, OpCode};
use rlox::run_length_encoding::RunLengthEncoded;
use rlox::value::Value;
use std::io::Cursor;

struct TestInstruction {
    value: u8,
}

impl InstructionWrite for TestInstruction {
    fn write(&self, writer: &mut Vec<u8>) {
        writer.push(self.value);
    }
}

fn all_lines(lines: &RunLengthEncoded<usize>) -> Vec<&usize> {
    let mut items = Vec::new();
    let mut iterator = lines.iter();
    while let Some(item) = iterator.next() {
        items.push(item);
    }
    items
}

#[test]
fn test_write_instruction() {
    let mut chunk = Chunk::new();
    let instruction = TestInstruction { value: 1 };

    chunk.write_instruction(instruction, 123);

    assert_eq!(chunk.code.len(), 1);
    assert_eq!(chunk.code[0], 1u8);
    let lines: Vec<&usize> = all_lines(&chunk.lines);
    assert_eq!(lines.len(), 1);
    assert_eq!(lines[0], &123);
}

#[test]
fn test_write_multiple_instruction() {
    let mut chunk = Chunk::new();
    let instruction1 = TestInstruction { value: 1 };
    let instruction2 = TestInstruction { value: 2 };

    chunk.write_instruction(instruction1, 123);
    chunk.write_instruction(instruction2, 124);

    assert_eq!(chunk.code.len(), 2);
    assert_eq!(chunk.code[0], 1u8);
    assert_eq!(chunk.code[1], 2u8);
    let lines: Vec<&usize> = all_lines(&chunk.lines);
    assert_eq!(lines.len(), 2);
    assert_eq!(lines[0], &123);
    assert_eq!(lines[1], &124);
}

#[test]
fn test_write_constant() {
    let mut chunk = Chunk::new();
    let value = Value::NumberValue(42.0f64.to_bits());

    let result = chunk.write_constant(value, 123);
    assert!(result.is_ok(), "Expected ok result when writing constant");

    assert_eq!(chunk.constants.len(), 1);
    match chunk.constants[0] {
        Value::NumberValue(val) => {
            assert_eq!(f64::from_bits(val), 42.0);
        }
        _ => {
            assert!(false, "Expected NumberValue");
        }
    }

    assert_eq!(chunk.code.len(), 2);
    assert_eq!(chunk.code[0], OpCode::Constant.as_byte());
    assert_eq!(chunk.code[1], 0u8); // Index into constant array

    let lines: Vec<&usize> = all_lines(&chunk.lines);
    assert_eq!(lines.len(), 2);
    assert_eq!(lines[0], &123);
    assert_eq!(lines[1], &123);
}

#[test]
fn test_write_more_than_256_constants() {
    let mut chunk = Chunk::new();

    for i in 0..257 {
        let value = Value::NumberValue((i as f64).to_bits());
        let result = chunk.write_constant(value, i);
        assert!(result.is_ok(), "Expected ok result when writing constant");
    }

    assert_eq!(chunk.constants.len(), 257);
    for i in 0..257 {
        match chunk.constants[i] {
            Value::NumberValue(val) => {
                assert_eq!(f64::from_bits(val), i as f64);
            }
            _ => {
                assert!(false, "Expected NumberValue");
            }
        }
    }

    // 2 bytes for first 256 values then 1 byte for op code + 4 for index
    assert_eq!(chunk.code.len(), 256 * 2 + 1 + 4);
    assert_eq!(chunk.code[256 * 2], OpCode::ConstantLong.as_byte());
    let mut cursor = Cursor::new(&chunk.code);
    cursor.set_position(256 * 2 + 1);
    let index = cursor.read_u32::<LittleEndian>().unwrap();
    assert_eq!(index, 256u32); // Index into constant array
}

#[test]
fn test_every_code_byte_has_a_line() {
    let mut chunk = Chunk::new();
    for i in 0..300usize {
        chunk.write_constant(Value::number((i as f64).to_bits()), i / 7).unwrap();
        chunk.write_instruction(TestInstruction { value: 0 }, i / 7 + 1);
    }
    assert_eq!(chunk.lines.len(), chunk.code.len());
    for offset in 0..chunk.code.len() {
        assert!(chunk.line(offset).is_some());
        assert_eq!(chunk.line(offset), Some(chunk.lines.nth(offset)));
    }
    assert_eq!(chunk.line(chunk.code.len()), None);
    assert_eq!(chunk.line(0), Some(0));
    assert_eq!(chunk.line(2), Some(1));
}

#[test]
fn test_lines_are_run_length_encoded() {
    let mut chunk = Chunk::new();
    chunk.write_constant(Value::nil(), 1).unwrap();
    chunk.write_instruction(TestInstruction { value: 3 }, 1);
    chunk.write_instruction(TestInstruction { value: 3 }, 2);
    assert_eq!(chunk.lines.run_count(), 2);
    assert_eq!(chunk.lines.run(0).run_length, 3);
    assert_eq!(chunk.lines.run(1).run_length, 1);
}

struct EmptyInstruction;

impl InstructionWrite for EmptyInstruction {
    fn write(&self, _writer: &mut Vec<u8>) {}
}

#[test]
fn test_instruction_without_bytes_records_no_line() {
    let mut chunk = Chunk::new();
    chunk.write_instruction(EmptyInstruction, 5);
    assert_eq!(chunk.code.len(), 0);
    assert_eq!(chunk.lines.run_count(), 0);
    assert_eq!(chunk.lines.len(), 0);
}

#[test]
fn test_well_formed_chunks_are_told_apart() {
    let mut chunk = Chunk::new();
    assert!(chunk.is_well_formed());
    chunk.write_constant(Value::nil(), 3).unwrap();
    chunk.write_instruction(TestInstruction { value: 0 }, 4);
    assert!(chunk.is_well_formed());
    chunk.code.push(0);
    assert!(!chunk.is_well_formed());
    chunk.lines.push(4);
    assert!(chunk.is_well_formed());
    chunk.lines.push(9);
    assert!(!chunk.is_well_formed());
}
