//! What the compiler writes: whole instructions only, so that a chunk that
//! could be listed before a compilation can be listed after it.

use vstd::prelude::*;
use crate::chunk::opcode_byte;
use crate::chunk::ChunkView;
use crate::chunk::OpCode;
use crate::chunk::Value;
use crate::compiler::binary_opcode;
use crate::compiler::compiled;
use crate::compiler::infix_loop;
use crate::compiler::initial_state;
use crate::compiler::parse_precedence;
use crate::compiler::parse_rule;
use crate::compiler::parser::lemma_advanced;
use crate::compiler::parser::remaining;
use crate::compiler::precedence_level;
use crate::compiler::run_rule;
use crate::compiler::tighter;
use crate::compiler::CompilerView;
use crate::compiler::ParseFn;
use crate::compiler::Precedence;
use crate::listing::extends;
use crate::listing::lemma_constant_adds_a_row;
use crate::listing::lemma_opcode_adds_a_row;
use crate::listing::listable;

verus! {

/// The most constants that an instruction can tell apart.
pub open spec fn pool_limit() -> nat {
    0x100_0000
}

/// `after` holds all that `before` holds, and if `before` can be listed
/// and the pool of `after` is within its limit, `after` can be listed too.
pub open spec fn grown(before: ChunkView, after: ChunkView) -> bool {
    &&& extends(before, after)
    &&& listable(before) && after.constants.len() <= pool_limit() ==> listable(after)
}

/// Emitting the instruction of an operator keeps a chunk listable.
proof fn lemma_emit_grown(state: CompilerView, op: OpCode)
    requires
        crate::chunk::operand_width(op) == 0,
    ensures
        grown(state.chunk, state.emit(opcode_byte(op)).chunk),
{
    if listable(state.chunk) {
        lemma_opcode_adds_a_row(state.chunk, op, state.parser.previous.line);
    }
}

/// Compiling a number literal keeps a chunk listable.
proof fn lemma_number_grown(state: CompilerView, numbers: Seq<Value>)
    ensures
        grown(state.chunk, state.number(numbers).chunk),
{
    if state.used < numbers.len() && listable(state.chunk) && state.chunk.constants.len()
        < pool_limit() {
        lemma_constant_adds_a_row(
            state.chunk,
            numbers[state.used as int],
            state.parser.previous.line,
        );
    }
}

/// Parsing an expression keeps a chunk listable.
pub proof fn lemma_parse_precedence_grown(
    state: CompilerView,
    numbers: Seq<Value>,
    min: Precedence,
)
    ensures
        grown(state.chunk, parse_precedence(state, numbers, min).chunk),
    decreases remaining(state.parser), 0nat,
{
    lemma_advanced(state.parser);
    let stepped = state.advance();
    match parse_rule(stepped.parser.previous.kind).prefix {
        None => {},
        Some(rule) => {
            lemma_run_rule_grown(stepped, numbers, rule);
            let operand = run_rule(stepped, numbers, rule);
            if remaining(operand.parser) <= remaining(stepped.parser) {
                lemma_infix_loop_grown(operand, numbers, min);
            }
        },
    }
}

/// Compiling infix operators keeps a chunk listable.
pub proof fn lemma_infix_loop_grown(state: CompilerView, numbers: Seq<Value>, min: Precedence)
    ensures
        grown(state.chunk, infix_loop(state, numbers, min).chunk),
    decreases remaining(state.parser), 0nat,
{
    let rule = parse_rule(state.parser.current.kind);
    if rule.infix is Some && precedence_level(min) <= precedence_level(rule.precedence) {
        lemma_advanced(state.parser);
        let stepped = state.advance();
        lemma_run_rule_grown(stepped, numbers, rule.infix->0);
        let applied = run_rule(stepped, numbers, rule.infix->0);
        if remaining(applied.parser) <= remaining(stepped.parser) {
            lemma_infix_loop_grown(applied, numbers, min);
        }
    }
}

/// Applying a grammar rule keeps a chunk listable.
pub proof fn lemma_run_rule_grown(state: CompilerView, numbers: Seq<Value>, rule: ParseFn)
    ensures
        grown(state.chunk, run_rule(state, numbers, rule).chunk),
    decreases remaining(state.parser), 1nat,
{
    match rule {
        ParseFn::Grouping => {
            lemma_parse_precedence_grown(state, numbers, Precedence::Assignment);
        },
        ParseFn::Number => {
            lemma_number_grown(state, numbers);
        },
        ParseFn::Unary => {
            lemma_parse_precedence_grown(state, numbers, Precedence::Unary);
            lemma_emit_grown(parse_precedence(state, numbers, Precedence::Unary), OpCode::Negate);
        },
        ParseFn::Binary => {
            let operator = state.parser.previous.kind;
            let min = tighter(parse_rule(operator).precedence);
            lemma_parse_precedence_grown(state, numbers, min);
            match binary_opcode(operator) {
                Some(op) => {
                    lemma_emit_grown(parse_precedence(state, numbers, min), op);
                },
                None => {},
            }
        },
    }
}

/// A compilation into a chunk that can be listed gives a chunk that can be
/// listed, whether it meets an error or not, as long as the pool stays
/// within its limit.
pub proof fn lemma_compiled_is_listable(source: Seq<u8>, numbers: Seq<Value>, chunk: ChunkView)
    requires
        listable(chunk),
        compiled(source, numbers, chunk).chunk.constants.len() <= pool_limit(),
    ensures
        listable(compiled(source, numbers, chunk).chunk),
{
    let start = initial_state(source, chunk).advance();
    lemma_parse_precedence_grown(start, numbers, Precedence::Assignment);
    let parsed = parse_precedence(start, numbers, Precedence::Assignment);
    let closed = parsed.consume(crate::token::Kind::EOF, crate::compiler::expect_end());
    lemma_emit_grown(closed, OpCode::Return);
}

} // verus!
