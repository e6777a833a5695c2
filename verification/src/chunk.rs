//! The bytecode container: instruction bytes, constant pool and line table,
//! with the rules that encode and decode instructions.

use vstd::prelude::*;
use crate::lox_errors::VmError;

verus! {

/// The operations of the machine. Each has a fixed byte and a fixed number of
/// operand bytes that follow it in the instruction stream.
#[derive(Debug, Clone, Copy, PartialEq, Eq, Structural)]
pub enum OpCode {
    Return,
    Constant,
    ConstantLong,
    Negate,
    Add,
    Subtract,
    Multiply,
    Divide,
}

/// The byte that stands for an opcode in the instruction stream.
pub open spec fn opcode_byte(op: OpCode) -> u8 {
    match op {
        OpCode::Return => 0u8,
        OpCode::Constant => 1u8,
        OpCode::ConstantLong => 2u8,
        OpCode::Negate => 3u8,
        OpCode::Add => 4u8,
        OpCode::Subtract => 5u8,
        OpCode::Multiply => 6u8,
        OpCode::Divide => 7u8,
    }
}

/// The opcode that a byte stands for, if any.
pub open spec fn byte_opcode(byte: u8) -> Option<OpCode> {
    if byte == 0 {
        Some(OpCode::Return)
    } else if byte == 1 {
        Some(OpCode::Constant)
    } else if byte == 2 {
        Some(OpCode::ConstantLong)
    } else if byte == 3 {
        Some(OpCode::Negate)
    } else if byte == 4 {
        Some(OpCode::Add)
    } else if byte == 5 {
        Some(OpCode::Subtract)
    } else if byte == 6 {
        Some(OpCode::Multiply)
    } else if byte == 7 {
        Some(OpCode::Divide)
    } else {
        None
    }
}

/// The number of operand bytes that follow an opcode.
pub open spec fn operand_width(op: OpCode) -> nat {
    match op {
        OpCode::Constant => 1,
        OpCode::ConstantLong => 3,
        _ => 0,
    }
}

/// An opcode survives the trip through its byte, and a byte that decodes
/// at all decodes to the one opcode that encodes back to it.
pub proof fn lemma_opcode_round_trip(op: OpCode, byte: u8)
    ensures
        byte_opcode(opcode_byte(op)) == Some(op),
        byte_opcode(byte) == Some(op) <==> opcode_byte(op) == byte,
        byte_opcode(byte) is Some <==> byte < 8,
{
}

impl OpCode {
    /// The byte of this opcode.
    pub fn to_byte(self) -> (byte: u8)
        ensures
            byte == opcode_byte(self),
            byte < 8,
    {
        match self {
            OpCode::Return => 0,
            OpCode::Constant => 1,
            OpCode::ConstantLong => 2,
            OpCode::Negate => 3,
            OpCode::Add => 4,
            OpCode::Subtract => 5,
            OpCode::Multiply => 6,
            OpCode::Divide => 7,
        }
    }

    /// Decodes a byte. A byte that names no opcode is an error, never a
    /// default.
    pub fn try_from(value: u8) -> (decoded: Result<OpCode, ()>)
        ensures
            match decoded {
                Ok(op) => byte_opcode(value) == Some(op),
                Err(_) => byte_opcode(value) is None,
            },
    {
        match value {
            0 => Ok(OpCode::Return),
            1 => Ok(OpCode::Constant),
            2 => Ok(OpCode::ConstantLong),
            3 => Ok(OpCode::Negate),
            4 => Ok(OpCode::Add),
            5 => Ok(OpCode::Subtract),
            6 => Ok(OpCode::Multiply),
            7 => Ok(OpCode::Divide),
            _ => Err(()),
        }
    }

    /// How many operand bytes follow this opcode.
    pub fn operand_len(self) -> (width: usize)
        ensures
            width == operand_width(self),
    {
        match self {
            OpCode::Constant => 1,
            OpCode::ConstantLong => 3,
            _ => 0,
        }
    }
}

/// A source line, counted from 1.
#[derive(Debug, Clone, Copy, PartialEq, Eq, Structural)]
pub struct Line(pub u32);

/// A number of the language: the bit pattern of an IEEE-754 double.
#[derive(Debug, Clone, Copy, PartialEq, Eq, Structural)]
pub struct Value(pub u64);

/// The instruction bytes that push the constant at `index`: the short form
/// with one operand byte while the index fits in a byte, the long form with
/// three operand bytes, least significant first, from there on.
pub open spec fn constant_encoding(index: nat) -> Seq<u8> {
    if index < 256 {
        seq![opcode_byte(OpCode::Constant), index as u8]
    } else {
        seq![
            opcode_byte(OpCode::ConstantLong),
            (index % 256) as u8,
            ((index / 256) % 256) as u8,
            ((index / 65536) % 256) as u8,
        ]
    }
}

/// The pool index that three operand bytes spell, least significant first.
pub open spec fn long_index(b0: u8, b1: u8, b2: u8) -> nat {
    (b0 + 256 * b1 + 65536 * b2) as nat
}

/// One decoded instruction: its opcode, the pool index that its operand
/// bytes spell where it has any, and the offset of the instruction after it.
#[derive(Debug, Clone, Copy, PartialEq, Eq, Structural)]
pub struct Instruction {
    pub op: OpCode,
    pub operand: Option<usize>,
    pub next: usize,
}

/// The instruction that starts at `offset` in `code`, or why none does.
pub open spec fn decode_at(code: Seq<u8>, offset: int) -> Result<Instruction, VmError> {
    if !(0 <= offset < code.len()) {
        Err(VmError::UnexpectedEnd)
    } else {
        match byte_opcode(code[offset]) {
            None => Err(VmError::InvalidOpcode(code[offset])),
            Some(op) => if offset + operand_width(op) >= code.len() {
                Err(VmError::UnexpectedEnd)
            } else {
                Ok(
                    Instruction {
                        op,
                        operand: match op {
                            OpCode::Constant => Some(code[offset + 1] as usize),
                            OpCode::ConstantLong => Some(
                                long_index(code[offset + 1], code[offset + 2], code[offset + 3])
                                    as usize,
                            ),
                            _ => None,
                        },
                        next: (offset + 1 + operand_width(op)) as usize,
                    },
                )
            },
        }
    }
}

/// A compiled unit: instruction bytes, the constants they refer to, and for
/// each byte the source line it came from.
#[derive(Debug)]
pub struct Chunk {
    pub code: Vec<u8>,
    pub constants: Vec<Value>,
    pub lines: Vec<Line>,
}

/// What a chunk holds, as three sequences.
pub struct ChunkView {
    pub code: Seq<u8>,
    pub constants: Seq<Value>,
    pub lines: Seq<Line>,
}

impl View for Chunk {
    type V = ChunkView;

    open spec fn view(&self) -> ChunkView {
        ChunkView { code: self.code@, constants: self.constants@, lines: self.lines@ }
    }
}

impl ChunkView {
    /// The line table runs parallel to the instruction bytes.
    pub open spec fn well_formed(self) -> bool {
        self.lines.len() == self.code.len()
    }

    /// The chunk with one more byte, from source line `line`.
    pub open spec fn write(self, byte: u8, line: u32) -> ChunkView {
        ChunkView { code: self.code.push(byte), lines: self.lines.push(Line(line)), ..self }
    }

    /// The chunk with one more constant in its pool.
    pub open spec fn add_constant(self, value: Value) -> ChunkView {
        ChunkView { constants: self.constants.push(value), ..self }
    }

    /// The chunk with `value` added to its pool and the instruction that
    /// pushes it appended, every byte of it from source line `line`.
    pub open spec fn write_constant(self, value: Value, line: u32) -> ChunkView {
        let encoding = constant_encoding(self.constants.len());
        ChunkView {
            code: self.code + encoding,
            constants: self.constants.push(value),
            lines: self.lines + Seq::new(encoding.len(), |i: int| Line(line)),
        }
    }
}

impl Chunk {
    /// The line table runs parallel to the instruction bytes.
    pub open spec fn well_formed(&self) -> bool {
        self@.well_formed()
    }

    /// An empty chunk.
    pub fn new() -> (chunk: Chunk)
        ensures
            chunk.code@ == Seq::<u8>::empty(),
            chunk.constants@ == Seq::<Value>::empty(),
            chunk.lines@ == Seq::<Line>::empty(),
            chunk.well_formed(),
    {
        Chunk { code: Vec::new(), constants: Vec::new(), lines: Vec::new() }
    }

    /// Appends one raw byte, an opcode or an operand, with its source line.
    pub fn write(&mut self, byte: u8, line: u32)
        ensures
            final(self)@ == old(self)@.write(byte, line),
            old(self).well_formed() ==> final(self).well_formed(),
    {
        self.code.push(byte);
        self.lines.push(Line(line));
    }

    /// Appends the byte of an opcode with its source line.
    pub fn write_chunk(&mut self, op_code: OpCode, line: u32)
        ensures
            final(self)@ == old(self)@.write(opcode_byte(op_code), line),
            old(self).well_formed() ==> final(self).well_formed(),
    {
        self.code.push(op_code.to_byte());
        self.lines.push(Line(line));
    }

    /// Appends a value to the constant pool and returns its index. Equal
    /// values get separate entries.
    pub fn add_constant(&mut self, value: Value) -> (index: usize)
        ensures
            final(self)@ == old(self)@.add_constant(value),
            index == old(self).constants@.len(),
    {
        self.constants.push(value);
        self.constants.len() - 1
    }
}

/// The three operand bytes of the long form, taken from a pool index by
/// mask and shift, are its three low base-256 digits.
proof fn lemma_index_bytes(index: u64)
    ensures
        index & 0xFF == index % 256,
        (index >> 8) & 0xFF == (index / 256) % 256,
        (index >> 16) & 0xFF == (index / 65536) % 256,
{
    assert(index & 0xFF == index % 256) by (bit_vector);
    assert((index >> 8) & 0xFF == (index / 256) % 256) by (bit_vector);
    assert((index >> 16) & 0xFF == (index / 65536) % 256) by (bit_vector);
}

impl Chunk {
    /// Adds `value` to the pool and appends the instruction that pushes it:
    /// the short form for the first 256 constants, the long form after
    /// that. Every byte written carries the same source line.
    pub fn write_constant(&mut self, value: Value, line: u32)
        ensures
            final(self)@ == old(self)@.write_constant(value, line),
            old(self).well_formed() ==> final(self).well_formed(),
    {
        let ghost before = *self;
        let idx: usize = self.add_constant(value);
        if idx < 256 {
            self.code.push(OpCode::Constant.to_byte());
            self.code.push(idx as u8);
            self.lines.push(Line(line));
            self.lines.push(Line(line));
        } else {
            let bits: u64 = idx as u64;
            proof {
                lemma_index_bytes(bits);
            }
            self.code.push(OpCode::ConstantLong.to_byte());
            self.code.push((bits & 0xFF) as u8);
            self.code.push(((bits >> 8) & 0xFF) as u8);
            self.code.push(((bits >> 16) & 0xFF) as u8);
            self.lines.push(Line(line));
            self.lines.push(Line(line));
            self.lines.push(Line(line));
            self.lines.push(Line(line));
        }
        proof {
            let enc = constant_encoding(before.constants@.len());
            assert(self.code@ =~= before.code@ + enc);
            assert(self.lines@ =~= before.lines@ + Seq::new(enc.len(), |i: int| Line(line)));
        }
    }

    /// Decodes the instruction that starts at `offset`.
    pub fn decode(&self, offset: usize) -> (decoded: Result<Instruction, VmError>)
        ensures
            decoded == decode_at(self.code@, offset as int),
    {
        if offset >= self.code.len() {
            return Err(VmError::UnexpectedEnd);
        }
        let byte: u8 = self.code[offset];
        match OpCode::try_from(byte) {
            Err(_) => Err(VmError::InvalidOpcode(byte)),
            Ok(op) => {
                let width: usize = op.operand_len();
                if width >= self.code.len() - offset {
                    return Err(VmError::UnexpectedEnd);
                }
                let operand: Option<usize> = match op {
                    OpCode::Constant => Some(self.read_constant(offset)),
                    OpCode::ConstantLong => Some(self.read_long_constant(offset)),
                    _ => None,
                };
                Ok(Instruction { op, operand, next: offset + 1 + width })
            },
        }
    }

    /// The pool index in the three operand bytes after the opcode at
    /// `offset`, least significant byte first.
    fn read_long_constant(&self, offset: usize) -> (index: usize)
        requires
            offset + 3 < self.code.len(),
        ensures
            index == long_index(
                self.code@[offset + 1],
                self.code@[offset + 2],
                self.code@[offset + 3],
            ),
            index < 0x100_0000,
    {
        let b0: u32 = self.code[offset + 1] as u32;
        let b1: u32 = self.code[offset + 2] as u32;
        let b2: u32 = self.code[offset + 3] as u32;
        let idx: u32 = b0 | (b1 << 8) | (b2 << 16);
        assert(idx == b0 + 256 * b1 + 65536 * b2) by (bit_vector)
            requires
                idx == b0 | (b1 << 8) | (b2 << 16),
                b0 < 256,
                b1 < 256,
                b2 < 256,
        ;
        idx as usize
    }

    /// The pool index in the operand byte after the opcode at `offset`.
    fn read_constant(&self, offset: usize) -> (index: usize)
        requires
            offset + 1 < self.code.len(),
        ensures
            index == self.code@[offset + 1],
    {
        let idx: u8 = self.code[offset + 1];
        idx as usize
    }
}

/// The constant that an instruction pushes: its place in the pool and the
/// value found there.
#[derive(Debug, Clone, Copy, PartialEq, Eq)]
pub struct ConstantRef {
    pub index: usize,
    pub value: Value,
}

/// One row of a listing. `line` is `None` where the byte before this
/// instruction came from the same source line, so that a run of
/// instructions from one line shows its number once.
#[derive(Debug, Clone, Copy, PartialEq, Eq)]
pub struct Disassembly {
    pub offset: usize,
    pub line: Option<u32>,
    pub op: OpCode,
    pub constant: Option<ConstantRef>,
    pub next: usize,
}

/// The line to show for the instruction at `offset`: none where it repeats
/// the line of the byte before.
pub open spec fn shown_line(lines: Seq<Line>, offset: int) -> Option<u32> {
    if offset > 0 && lines[offset].0 == lines[offset - 1].0 {
        None
    } else {
        Some(lines[offset].0)
    }
}

/// The constant that a decoded instruction refers to, if it has an operand;
/// an index beyond the pool is a fault.
pub open spec fn resolve_constant(constants: Seq<Value>, operand: Option<usize>) -> Result<
    Option<ConstantRef>,
    VmError,
> {
    match operand {
        None => Ok(None),
        Some(index) => if index < constants.len() {
            Ok(Some(ConstantRef { index, value: constants[index as int] }))
        } else {
            Err(VmError::InvalidConstant(index))
        },
    }
}

impl ChunkView {
    /// The listing row of the instruction at `offset`, or the fault that
    /// decoding it ends in.
    pub open spec fn disassembly_at(self, offset: int) -> Result<Disassembly, VmError> {
        match decode_at(self.code, offset) {
            Err(e) => Err(e),
            Ok(ins) => match resolve_constant(self.constants, ins.operand) {
                Err(e) => Err(e),
                Ok(constant) => Ok(
                    Disassembly {
                        offset: offset as usize,
                        line: shown_line(self.lines, offset),
                        op: ins.op,
                        constant,
                        next: ins.next,
                    },
                ),
            },
        }
    }

    /// The listing of the instructions from `offset` to the end, or the
    /// first fault met on the way.
    pub open spec fn listing_from(self, offset: int) -> Result<Seq<Disassembly>, VmError>
        decreases self.code.len() - offset,
    {
        if offset < 0 || offset >= self.code.len() {
            Ok(Seq::empty())
        } else {
            match self.disassembly_at(offset) {
                Err(e) => Err(e),
                Ok(row) => match self.listing_from(offset + 1 + operand_width(row.op)) {
                    Err(e) => Err(e),
                    Ok(rest) => Ok(seq![row] + rest),
                },
            }
        }
    }
}

impl Chunk {
    /// Looks up the constant of a decoded instruction.
    pub fn constant_of(&self, operand: Option<usize>) -> (found: Result<Option<ConstantRef>, VmError>)
        ensures
            found == resolve_constant(self.constants@, operand),
    {
        match operand {
            None => Ok(None),
            Some(index) => if index < self.constants.len() {
                Ok(Some(ConstantRef { index, value: self.constants[index] }))
            } else {
                Err(VmError::InvalidConstant(index))
            },
        }
    }

    /// Decodes the instruction at `offset` into a listing row, which also
    /// gives the offset of the instruction after it.
    pub fn disassemble_instruction(&self, offset: usize) -> (row: Result<Disassembly, VmError>)
        requires
            self.well_formed(),
        ensures
            row == self@.disassembly_at(offset as int),
    {
        match self.decode(offset) {
            Err(e) => Err(e),
            Ok(ins) => match self.constant_of(ins.operand) {
                Err(e) => Err(e),
                Ok(constant) => {
                    let line: u32 = self.lines[offset].0;
                    let shown: Option<u32> = if offset > 0 && line == self.lines[offset - 1].0 {
                        None
                    } else {
                        Some(line)
                    };
                    Ok(Disassembly { offset, line: shown, op: ins.op, constant, next: ins.next })
                },
            },
        }
    }

    /// Lists the chunk: one row per instruction, first to last. Stops at the
    /// first instruction that cannot be decoded.
    pub fn disassemble(&self) -> (listing: Result<Vec<Disassembly>, VmError>)
        requires
            self.well_formed(),
        ensures
            match listing {
                Ok(rows) => self@.listing_from(0) == Ok::<Seq<Disassembly>, VmError>(rows@),
                Err(e) => self@.listing_from(0) == Err::<Seq<Disassembly>, VmError>(e),
            },
    {
        let mut rows: Vec<Disassembly> = Vec::new();
        let mut i: usize = 0;
        while i < self.code.len()
            invariant
                self.well_formed(),
                self@.listing_from(0) == match self@.listing_from(i as int) {
                    Ok(rest) => Ok::<Seq<Disassembly>, VmError>(rows@ + rest),
                    Err(e) => Err(e),
                },
            decreases self.code.len() - i,
        {
            match self.disassemble_instruction(i) {
                Err(e) => {
                    return Err(e);
                },
                Ok(row) => {
                    proof {
                        assert(row.next == i + 1 + operand_width(row.op));
                        match self@.listing_from(row.next as int) {
                            Ok(rest) => {
                                assert(rows@.push(row) + rest =~= rows@ + (seq![row] + rest));
                            },
                            Err(_) => {},
                        }
                    }
                    rows.push(row);
                    i = row.next;
                },
            }
        }
        proof {
            assert(rows@ + Seq::<Disassembly>::empty() =~= rows@);
        }
        Ok(rows)
    }
}

/// The instruction for a constant has the short form, opcode and index in
/// two bytes, for every index below 256, and the long form, opcode and
/// three index bytes, for every index from 256 on.
pub proof fn lemma_constant_encoding_form(index: nat)
    ensures
        index < 256 ==> constant_encoding(index) == seq![
            opcode_byte(OpCode::Constant),
            index as u8,
        ],
        index < 256 <==> constant_encoding(index).len() == 2,
        index >= 256 <==> constant_encoding(index).len() == 4,
        index >= 256 ==> constant_encoding(index)[0] == opcode_byte(OpCode::ConstantLong),
{
}

/// Decoding undoes encoding: where the instruction for the constant at
/// `index` is appended to `code`, decoding at the place where it starts
/// gives that index back, as long as the index fits in three bytes.
pub proof fn lemma_constant_round_trip(code: Seq<u8>, index: nat)
    requires
        index < 0x100_0000,
    ensures
        decode_at(code + constant_encoding(index), code.len() as int) == Ok::<
            Instruction,
            VmError,
        >(
            Instruction {
                op: if index < 256 {
                    OpCode::Constant
                } else {
                    OpCode::ConstantLong
                },
                operand: Some(index as usize),
                next: (code.len() + constant_encoding(index).len()) as usize,
            },
        ),
{
    let encoding = constant_encoding(index);
    let all = code + encoding;
    let at = code.len() as int;
    assert(all[at] == encoding[0]);
    assert(all[at + 1] == encoding[1]);
    if index >= 256 {
        assert(all[at + 2] == encoding[2]);
        assert(all[at + 3] == encoding[3]);
        assert(index == (index % 256) + 256 * ((index / 256) % 256) + 65536 * ((index / 65536)
            % 256)) by (nonlinear_arith)
            requires
                index < 0x100_0000,
        ;
    }
}

/// One thing that can be appended to a chunk: a raw byte, or the
/// instruction for a new constant; each with its source line.
pub enum Emission {
    Byte(u8, u32),
    Constant(Value, u32),
}

impl ChunkView {
    /// The chunk after one emission.
    pub open spec fn emit(self, emission: Emission) -> ChunkView {
        match emission {
            Emission::Byte(byte, line) => self.write(byte, line),
            Emission::Constant(value, line) => self.write_constant(value, line),
        }
    }

    /// The chunk after a sequence of emissions, first to last.
    pub open spec fn emit_all(self, emissions: Seq<Emission>) -> ChunkView
        decreases emissions.len(),
    {
        if emissions.len() == 0 {
            self
        } else {
            self.emit_all(emissions.drop_last()).emit(emissions.last())
        }
    }
}

/// Whatever is emitted into a chunk whose line table runs parallel to its
/// code, in whatever order, the line table still runs parallel to the code
/// afterwards.
pub proof fn lemma_emissions_keep_lines_parallel(chunk: ChunkView, emissions: Seq<Emission>)
    requires
        chunk.well_formed(),
    ensures
        chunk.emit_all(emissions).well_formed(),
    decreases emissions.len(),
{
    if emissions.len() > 0 {
        lemma_emissions_keep_lines_parallel(chunk, emissions.drop_last());
    }
}

} // verus!
