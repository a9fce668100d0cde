use rlox::instructions::{
    CodeReader, ConstantInstruction, ConstantLongInstruction, InstructionRead, InstructionWrite,
    OpCode, SimpleInstruction,
};

struct TestInstruction {
    value: u8,
}

impl InstructionWrite for TestInstruction {
    fn write(&self, writer: &mut Vec<u8>) {
        writer.push(self.value);
    }
}

#[test]
fn test_custom_instruction_writes_its_bytes() {
    let mut code = Vec::new();
    TestInstruction { value: 9 }.write(&mut code);
    assert_eq!(code, vec![9u8]);
}

#[test]
fn test_opcode_bytes_round_trip() {
    let all = [
        OpCode::Return,
        OpCode::Constant,
        OpCode::ConstantLong,
        OpCode::Nil,
        OpCode::True,
        OpCode::False,
        OpCode::Negate,
        OpCode::Add,
        OpCode::Subtract,
        OpCode::Multiply,
        OpCode::Divide,
        OpCode::Not,
        OpCode::Equal,
        OpCode::Greater,
        OpCode::Less,
    ];
    for (expected, op) in all.iter().enumerate() {
        assert_eq!(op.as_byte() as usize, expected);
        assert_eq!(OpCode::from_byte(op.as_byte()), Some(*op));
    }
}

#[test]
fn test_unknown_bytes_are_rejected() {
    for byte in 15..=255u8 {
        assert_eq!(OpCode::from_byte(byte), None);
    }
}

#[test]
fn test_constant_wire_format() {
    let mut code = Vec::new();
    ConstantInstruction::new(200).write(&mut code);
    assert_eq!(code, vec![1u8, 200]);
    let mut reader = CodeReader::new(&code);
    assert_eq!(reader.read_byte(), 1);
    let parsed = ConstantInstruction::parse(&mut reader);
    assert_eq!(parsed.constant_index, 200);
    assert_eq!(reader.position(), 2);
}

#[test]
fn test_constant_long_wire_format_is_little_endian() {
    let mut code = Vec::new();
    ConstantLongInstruction::new(0x0102_0304).write(&mut code);
    assert_eq!(code, vec![2u8, 0x04, 0x03, 0x02, 0x01]);
    let mut reader = CodeReader::new(&code);
    assert_eq!(reader.read_byte(), 2);
    let parsed = ConstantLongInstruction::parse(&mut reader);
    assert_eq!(parsed.constant_index, 0x0102_0304);
    assert_eq!(reader.position(), 5);
}

#[test]
fn test_constant_long_round_trips_extremes() {
    for index in [0u32, 255, 256, 65_536, u32::MAX] {
        let mut code = Vec::new();
        ConstantLongInstruction::new(index).write(&mut code);
        let mut reader = CodeReader::new(&code);
        reader.set_position(1);
        assert_eq!(ConstantLongInstruction::parse(&mut reader).constant_index, index);
    }
}

#[test]
fn test_simple_instruction_is_one_byte() {
    let mut code = Vec::new();
    SimpleInstruction::new(OpCode::Less).write(&mut code);
    assert_eq!(code, vec![14u8]);
}

#[test]
fn test_reading_past_the_end_gives_zero() {
    let code = vec![7u8];
    let mut reader = CodeReader::new(&code);
    assert_eq!(reader.read_byte(), 7);
    assert_eq!(reader.read_byte(), 0);
    assert_eq!(reader.position(), 1);
    assert_eq!(ConstantInstruction::parse(&mut reader).constant_index, 0);
}
