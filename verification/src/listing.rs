//! Listings of chunks that grow: what is appended to a chunk leaves the
//! rows of its listing as they were, and each whole instruction appended
//! adds one row.

use vstd::prelude::*;
use crate::chunk::constant_encoding;
use crate::chunk::decode_at;
use crate::chunk::lemma_constant_round_trip;
use crate::chunk::opcode_byte;
use crate::chunk::operand_width;
use crate::chunk::shown_line;
use crate::chunk::ChunkView;
use crate::chunk::ConstantRef;
use crate::chunk::Disassembly;
use crate::chunk::OpCode;
use crate::chunk::Value;
use crate::lox_errors::VmError;

verus! {

/// `after` holds all that `before` holds, at the same places.
pub open spec fn extends(before: ChunkView, after: ChunkView) -> bool {
    &&& before.code.is_prefix_of(after.code)
    &&& before.constants.is_prefix_of(after.constants)
    &&& before.lines.is_prefix_of(after.lines)
}

/// The chunk can be listed from its start to its end without a fault.
pub open spec fn listable(chunk: ChunkView) -> bool {
    &&& chunk.well_formed()
    &&& chunk.listing_from(0) is Ok
}

/// The rows of a chunk, where it can be listed.
pub open spec fn rows_of(chunk: ChunkView) -> Seq<Disassembly> {
    chunk.listing_from(0)->Ok_0
}

/// An instruction that decodes in a stretch of code decodes to the same
/// instruction in every stretch that begins with it.
pub proof fn lemma_decode_is_stable(before: Seq<u8>, after: Seq<u8>, offset: int)
    requires
        before.is_prefix_of(after),
        decode_at(before, offset) is Ok,
    ensures
        decode_at(after, offset) == decode_at(before, offset),
        0 <= offset,
        offset + 1 + operand_width(decode_at(before, offset)->Ok_0.op) <= before.len(),
{
    let instruction = decode_at(before, offset)->Ok_0;
    assert(after[offset] == before[offset]);
    if operand_width(instruction.op) >= 1 {
        assert(after[offset + 1] == before[offset + 1]);
    }
    if operand_width(instruction.op) >= 3 {
        assert(after[offset + 2] == before[offset + 2]);
        assert(after[offset + 3] == before[offset + 3]);
    }
}

/// An instruction that decodes in a chunk decodes to the same row in every
/// chunk that extends it.
pub proof fn lemma_row_is_stable(before: ChunkView, after: ChunkView, offset: int)
    requires
        before.well_formed(),
        extends(before, after),
        before.disassembly_at(offset) is Ok,
    ensures
        after.disassembly_at(offset) == before.disassembly_at(offset),
        0 <= offset,
        offset + 1 + operand_width(before.disassembly_at(offset)->Ok_0.op) <= before.code.len(),
{
    lemma_decode_is_stable(before.code, after.code, offset);
    let instruction = decode_at(before.code, offset)->Ok_0;
    match instruction.operand {
        Some(index) => {
            assert(after.constants[index as int] == before.constants[index as int]);
        },
        None => {},
    }
    assert(after.lines[offset] == before.lines[offset]);
    if offset > 0 {
        assert(after.lines[offset - 1] == before.lines[offset - 1]);
    }
}

/// The listing of an extended chunk begins with the rows of the chunk it
/// extends and goes on with the listing of what was appended.
pub proof fn lemma_listing_of_extension(before: ChunkView, after: ChunkView, offset: int)
    requires
        before.well_formed(),
        extends(before, after),
        0 <= offset <= before.code.len(),
        before.listing_from(offset) is Ok,
    ensures
        after.listing_from(offset) == match after.listing_from(before.code.len() as int) {
            Ok(rest) => Ok::<Seq<Disassembly>, VmError>(before.listing_from(offset)->Ok_0 + rest),
            Err(fault) => Err(fault),
        },
    decreases before.code.len() - offset,
{
    if offset < before.code.len() {
        lemma_row_is_stable(before, after, offset);
        let row = before.disassembly_at(offset)->Ok_0;
        let next = offset + 1 + operand_width(row.op);
        lemma_listing_of_extension(before, after, next);
        match after.listing_from(before.code.len() as int) {
            Ok(rest) => {
                assert(seq![row] + (before.listing_from(next)->Ok_0 + rest) =~= (seq![row]
                    + before.listing_from(next)->Ok_0) + rest);
            },
            Err(_) => {},
        }
    } else {
        match after.listing_from(before.code.len() as int) {
            Ok(rest) => {
                assert(Seq::<Disassembly>::empty() + rest =~= rest);
            },
            Err(_) => {},
        }
    }
}

/// Appending an opcode that takes no operand adds one row to the listing:
/// the row of that opcode.
pub proof fn lemma_opcode_adds_a_row(chunk: ChunkView, op: OpCode, line: u32)
    requires
        listable(chunk),
        operand_width(op) == 0,
    ensures
        listable(chunk.write(opcode_byte(op), line)),
        rows_of(chunk.write(opcode_byte(op), line)) == rows_of(chunk).push(
            Disassembly {
                offset: chunk.code.len() as usize,
                line: shown_line(chunk.write(opcode_byte(op), line).lines, chunk.code.len() as int),
                op,
                constant: None,
                next: (chunk.code.len() + 1) as usize,
            },
        ),
{
    let after = chunk.write(opcode_byte(op), line);
    let at = chunk.code.len() as int;
    lemma_listing_of_extension(chunk, after, 0);
    crate::chunk::lemma_opcode_round_trip(op, opcode_byte(op));
    assert(after.code[at] == opcode_byte(op));
    assert(after.disassembly_at(at) is Ok);
    let row = after.disassembly_at(at)->Ok_0;
    assert(after.listing_from(at + 1) == Ok::<Seq<Disassembly>, VmError>(Seq::empty()));
    assert(seq![row] + Seq::<Disassembly>::empty() =~= seq![row]);
    assert(rows_of(chunk) + seq![row] =~= rows_of(chunk).push(row));
}

/// Writing a constant adds one row to the listing: the row of the
/// instruction that pushes it, with the constant's index and value. This
/// holds while the pool has room for an index of three bytes.
pub proof fn lemma_constant_adds_a_row(chunk: ChunkView, value: Value, line: u32)
    requires
        listable(chunk),
        chunk.constants.len() < 0x100_0000,
    ensures
        listable(chunk.write_constant(value, line)),
        rows_of(chunk.write_constant(value, line)) == rows_of(chunk).push(
            Disassembly {
                offset: chunk.code.len() as usize,
                line: shown_line(chunk.write_constant(value, line).lines, chunk.code.len() as int),
                op: if chunk.constants.len() < 256 {
                    OpCode::Constant
                } else {
                    OpCode::ConstantLong
                },
                constant: Some(
                    ConstantRef { index: chunk.constants.len() as usize, value },
                ),
                next: (chunk.code.len() + constant_encoding(chunk.constants.len()).len()) as usize,
            },
        ),
{
    let after = chunk.write_constant(value, line);
    let at = chunk.code.len() as int;
    let index = chunk.constants.len();
    lemma_listing_of_extension(chunk, after, 0);
    lemma_constant_round_trip(chunk.code, index);
    assert(after.constants[index as int] == value);
    assert(after.disassembly_at(at) is Ok);
    let row = after.disassembly_at(at)->Ok_0;
    assert(after.listing_from(after.code.len() as int) == Ok::<Seq<Disassembly>, VmError>(
        Seq::empty(),
    ));
    assert(seq![row] + Seq::<Disassembly>::empty() =~= seq![row]);
    assert(rows_of(chunk) + seq![row] =~= rows_of(chunk).push(row));
}

} // verus!
