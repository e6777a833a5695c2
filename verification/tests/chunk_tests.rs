use rlox::chunk::{Chunk, ConstantRef, Disassembly, Instruction, OpCode, Value};
use rlox::lox_errors::VmError;

fn number(x: f64) -> Value {
    Value(x.to_bits())
}

#[test]
fn opcode_bytes_round_trip() {
    let all = [
        OpCode::Return,
        OpCode::Constant,
        OpCode::ConstantLong,
        OpCode::Negate,
        OpCode::Add,
        OpCode::Subtract,
        OpCode::Multiply,
        OpCode::Divide,
    ];
    for (byte, op) in all.iter().enumerate() {
        assert_eq!(op.to_byte(), byte as u8);
        assert_eq!(OpCode::try_from(byte as u8), Ok(*op));
    }
}

#[test]
fn unknown_opcode_bytes_are_rejected() {
    for byte in 8u8..=255 {
        assert_eq!(OpCode::try_from(byte), Err(()));
    }
}

#[test]
fn operand_widths() {
    assert_eq!(OpCode::Return.operand_len(), 0);
    assert_eq!(OpCode::Constant.operand_len(), 1);
    assert_eq!(OpCode::ConstantLong.operand_len(), 3);
    assert_eq!(OpCode::Negate.operand_len(), 0);
    assert_eq!(OpCode::Add.operand_len(), 0);
    assert_eq!(OpCode::Subtract.operand_len(), 0);
    assert_eq!(OpCode::Multiply.operand_len(), 0);
    assert_eq!(OpCode::Divide.operand_len(), 0);
}

#[test]
fn new_chunk_is_empty() {
    let chunk = Chunk::new();
    assert!(chunk.code.is_empty());
    assert!(chunk.constants.is_empty());
    assert!(chunk.lines.is_empty());
}

#[test]
fn write_keeps_lines_parallel_to_code() {
    let mut chunk = Chunk::new();
    chunk.write(7, 1);
    chunk.write_chunk(OpCode::Return, 2);
    chunk.write_constant(number(1.5), 3);
    assert_eq!(chunk.code.len(), chunk.lines.len());
    assert_eq!(chunk.code, vec![7, 0, 1, 0]);
    let lines: Vec<u32> = chunk.lines.iter().map(|l| l.0).collect();
    assert_eq!(lines, vec![1, 2, 3, 3]);
}

#[test]
fn add_constant_returns_index_and_never_deduplicates() {
    let mut chunk = Chunk::new();
    assert_eq!(chunk.add_constant(number(1.0)), 0);
    assert_eq!(chunk.add_constant(number(1.0)), 1);
    assert_eq!(chunk.add_constant(number(2.0)), 2);
    assert_eq!(chunk.constants, vec![number(1.0), number(1.0), number(2.0)]);
    assert!(chunk.code.is_empty());
}

#[test]
fn write_constant_switches_to_long_form_at_256() {
    let mut chunk = Chunk::new();
    for i in 0..255 {
        chunk.write_constant(number(i as f64), 1);
    }
    assert_eq!(chunk.code.len(), 255 * 2);
    // The constant with index 255 is the last one in short form.
    chunk.write_constant(number(255.0), 1);
    assert_eq!(chunk.code.len(), 256 * 2);
    assert_eq!(&chunk.code[510..], &[1, 255]);
    // The constant with index 256 is the first one in long form.
    chunk.write_constant(number(256.0), 7);
    assert_eq!(chunk.code.len(), 256 * 2 + 4);
    assert_eq!(&chunk.code[512..], &[2, 0, 1, 0]);
    assert_eq!(chunk.lines.len(), chunk.code.len());
    assert!(chunk.lines[512..].iter().all(|l| l.0 == 7));
    assert_eq!(
        chunk.decode(512),
        Ok(Instruction { op: OpCode::ConstantLong, operand: Some(256), next: 516 })
    );
    assert_eq!(
        chunk.decode(510),
        Ok(Instruction { op: OpCode::Constant, operand: Some(255), next: 512 })
    );
}

#[test]
fn long_form_operand_is_little_endian() {
    let mut chunk = Chunk::new();
    for i in 0..0x1_02_03 {
        chunk.add_constant(number(i as f64));
    }
    chunk.write_constant(number(9.0), 4);
    assert_eq!(chunk.code, vec![2, 0x03, 0x02, 0x01]);
    assert_eq!(
        chunk.decode(0),
        Ok(Instruction { op: OpCode::ConstantLong, operand: Some(0x1_02_03), next: 4 })
    );
    let row = chunk.disassemble_instruction(0).unwrap();
    assert_eq!(row.constant, Some(ConstantRef { index: 0x1_02_03, value: number(9.0) }));
}

#[test]
fn disassembly_shows_a_line_once() {
    let mut chunk = Chunk::new();
    chunk.write_constant(number(42.01), 2);
    chunk.write_chunk(OpCode::Return, 2);
    let rows = chunk.disassemble().unwrap();
    assert_eq!(
        rows,
        vec![
            Disassembly {
                offset: 0,
                line: Some(2),
                op: OpCode::Constant,
                constant: Some(ConstantRef { index: 0, value: number(42.01) }),
                next: 2,
            },
            Disassembly { offset: 2, line: None, op: OpCode::Return, constant: None, next: 3 },
        ]
    );
    assert_eq!(f64::from_bits(rows[0].constant.unwrap().value.0), 42.01);
}

#[test]
fn disassembly_shows_a_new_line() {
    let mut chunk = Chunk::new();
    chunk.write_chunk(OpCode::Negate, 1);
    chunk.write_chunk(OpCode::Add, 1);
    chunk.write_chunk(OpCode::Return, 3);
    let rows = chunk.disassemble().unwrap();
    let lines: Vec<Option<u32>> = rows.iter().map(|r| r.line).collect();
    assert_eq!(lines, vec![Some(1), None, Some(3)]);
    let ops: Vec<OpCode> = rows.iter().map(|r| r.op).collect();
    assert_eq!(ops, vec![OpCode::Negate, OpCode::Add, OpCode::Return]);
    assert_eq!(chunk.disassemble_instruction(1).unwrap().next, 2);
}

#[test]
fn sample_program_lists_every_instruction() {
    let mut chunk = Chunk::new();
    chunk.write_constant(number(42.01), 2);
    chunk.write_constant(number(2.0), 2);
    chunk.write_chunk(OpCode::Add, 2);
    chunk.write_constant(number(5.6), 2);
    chunk.write_chunk(OpCode::Divide, 2);
    chunk.write_chunk(OpCode::Negate, 2);
    chunk.write_chunk(OpCode::Return, 2);
    let rows = chunk.disassemble().unwrap();
    let offsets: Vec<usize> = rows.iter().map(|r| r.offset).collect();
    assert_eq!(offsets, vec![0, 2, 4, 5, 7, 8, 9]);
    let ops: Vec<OpCode> = rows.iter().map(|r| r.op).collect();
    assert_eq!(
        ops,
        vec![
            OpCode::Constant,
            OpCode::Constant,
            OpCode::Add,
            OpCode::Constant,
            OpCode::Divide,
            OpCode::Negate,
            OpCode::Return
        ]
    );
}

#[test]
fn decoding_an_unknown_opcode_fails() {
    let mut chunk = Chunk::new();
    chunk.write(200, 1);
    assert!(matches!(chunk.decode(0), Err(VmError::InvalidOpcode(200))));
    assert!(matches!(chunk.disassemble_instruction(0), Err(VmError::InvalidOpcode(200))));
    assert!(matches!(chunk.disassemble(), Err(VmError::InvalidOpcode(200))));
}

#[test]
fn decoding_past_the_end_fails() {
    let mut chunk = Chunk::new();
    assert!(matches!(chunk.decode(0), Err(VmError::UnexpectedEnd)));
    chunk.write_chunk(OpCode::Constant, 1);
    assert!(matches!(chunk.decode(0), Err(VmError::UnexpectedEnd)));
    assert!(matches!(chunk.decode(1), Err(VmError::UnexpectedEnd)));
    let mut long = Chunk::new();
    long.write_chunk(OpCode::ConstantLong, 1);
    long.write(0, 1);
    long.write(0, 1);
    assert!(matches!(long.decode(0), Err(VmError::UnexpectedEnd)));
}

#[test]
fn disassembling_a_missing_constant_fails() {
    let mut chunk = Chunk::new();
    chunk.write_chunk(OpCode::Constant, 1);
    chunk.write(3, 1);
    assert!(matches!(chunk.disassemble_instruction(0), Err(VmError::InvalidConstant(3))));
    assert!(matches!(chunk.disassemble(), Err(VmError::InvalidConstant(3))));
}

#[test]
fn empty_chunk_has_an_empty_listing() {
    assert_eq!(Chunk::new().disassemble().unwrap(), vec![]);
}

#[test]
fn any_sequence_of_emissions_keeps_lines_parallel_to_code() {
    let mut chunk = Chunk::new();
    let mut seed: u32 = 12345;
    for step in 0..2000u32 {
        seed = seed.wrapping_mul(1_103_515_245).wrapping_add(12_345);
        match (seed >> 16) % 3 {
            0 => chunk.write((seed >> 8) as u8, step),
            1 => chunk.write_chunk(OpCode::try_from(((seed >> 8) % 8) as u8).unwrap(), step),
            _ => chunk.write_constant(number(step as f64), step),
        }
        assert_eq!(chunk.lines.len(), chunk.code.len());
    }
    assert!(chunk.constants.len() > 256);
}

#[test]
fn every_written_constant_decodes_to_its_index() {
    let mut chunk = Chunk::new();
    let mut offsets = Vec::new();
    for i in 0..600usize {
        offsets.push(chunk.code.len());
        chunk.write_constant(number(i as f64), 1);
    }
    for (i, offset) in offsets.iter().enumerate() {
        let row = chunk.disassemble_instruction(*offset).unwrap();
        assert_eq!(row.constant, Some(ConstantRef { index: i, value: number(i as f64) }));
        assert_eq!(row.op, if i < 256 { OpCode::Constant } else { OpCode::ConstantLong });
        assert_eq!(row.next - offset, if i < 256 { 2 } else { 4 });
    }
    assert_eq!(chunk.disassemble().unwrap().len(), 600);
}
