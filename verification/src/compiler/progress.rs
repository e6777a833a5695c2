//! Parsing only ever moves forward. The definitions of the compiler's
//! steps test this where one step follows another; here it is shown that
//! the test never fails.

use vstd::prelude::*;
use crate::chunk::Value;
use crate::compiler::expect_right_paren;
use crate::compiler::infix_loop;
use crate::compiler::parse_precedence;
use crate::compiler::parse_rule;
use crate::compiler::parser::lemma_advanced;
use crate::compiler::parser::lemma_consumed;
use crate::compiler::parser::remaining;
use crate::compiler::precedence_level;
use crate::compiler::run_rule;
use crate::compiler::tighter;
use crate::compiler::CompilerView;
use crate::compiler::ParseFn;
use crate::compiler::Precedence;
use crate::token::Kind;

verus! {

/// Parsing an expression leaves no more to parse than there was, in the
/// same source.
pub proof fn lemma_parse_precedence_progress(
    state: CompilerView,
    numbers: Seq<Value>,
    min: Precedence,
)
    ensures
        remaining(parse_precedence(state, numbers, min).parser) <= remaining(state.parser),
        parse_precedence(state, numbers, min).parser.source == state.parser.source,
    decreases remaining(state.parser), 0nat,
{
    lemma_advanced(state.parser);
    let stepped = state.advance();
    match parse_rule(stepped.parser.previous.kind).prefix {
        None => {},
        Some(rule) => {
            lemma_run_rule_progress(stepped, numbers, rule);
            lemma_infix_loop_progress(run_rule(stepped, numbers, rule), numbers, min);
        },
    }
}

/// Compiling infix operators leaves no more to parse than there was, in
/// the same source.
pub proof fn lemma_infix_loop_progress(state: CompilerView, numbers: Seq<Value>, min: Precedence)
    ensures
        remaining(infix_loop(state, numbers, min).parser) <= remaining(state.parser),
        infix_loop(state, numbers, min).parser.source == state.parser.source,
    decreases remaining(state.parser), 0nat,
{
    let rule = parse_rule(state.parser.current.kind);
    if rule.infix is Some && precedence_level(min) <= precedence_level(rule.precedence) {
        lemma_advanced(state.parser);
        let stepped = state.advance();
        lemma_run_rule_progress(stepped, numbers, rule.infix->0);
        lemma_infix_loop_progress(run_rule(stepped, numbers, rule.infix->0), numbers, min);
    }
}

/// Applying a grammar rule leaves no more to parse than there was, in the
/// same source.
pub proof fn lemma_run_rule_progress(state: CompilerView, numbers: Seq<Value>, rule: ParseFn)
    ensures
        remaining(run_rule(state, numbers, rule).parser) <= remaining(state.parser),
        run_rule(state, numbers, rule).parser.source == state.parser.source,
    decreases remaining(state.parser), 1nat,
{
    match rule {
        ParseFn::Grouping => {
            lemma_parse_precedence_progress(state, numbers, Precedence::Assignment);
            lemma_consumed(
                parse_precedence(state, numbers, Precedence::Assignment).parser,
                Kind::RightParen,
                expect_right_paren(),
            );
        },
        ParseFn::Number => {},
        ParseFn::Unary => {
            lemma_parse_precedence_progress(state, numbers, Precedence::Unary);
        },
        ParseFn::Binary => {
            lemma_parse_precedence_progress(
                state,
                numbers,
                tighter(parse_rule(state.parser.previous.kind).precedence),
            );
        },
    }
}

} // verus!
