//! How errors accumulate during a compilation: the failure flag is sticky,
//! and panic mode lets one error through and holds back those that follow.

use vstd::prelude::*;
use crate::chunk::ChunkView;
use crate::chunk::Value;
use crate::compiler::compiled;
use crate::compiler::expect_end;
use crate::compiler::expect_expression;
use crate::compiler::expect_right_paren;
use crate::compiler::infix_loop;
use crate::compiler::initial_state;
use crate::compiler::parse_precedence;
use crate::compiler::parse_rule;
use crate::compiler::parser::advanced;
use crate::compiler::parser::consumed;
use crate::compiler::parser::lemma_advanced;
use crate::compiler::parser::next_valid;
use crate::compiler::parser::remaining;
use crate::compiler::parser::reported;
use crate::compiler::parser::scanner_error;
use crate::compiler::parser::ParserView;
use crate::compiler::precedence_level;
use crate::compiler::run_rule;
use crate::compiler::tighter;
use crate::compiler::CompilerView;
use crate::compiler::ParseFn;
use crate::compiler::Precedence;
use crate::scanner::lemma_scan_progress;
use crate::scanner::scan_at;
use crate::token::Kind;
use crate::token::TokenView;

verus! {

/// The parser is in panic mode exactly if it has met an error, and it has
/// reported one error if it has met any.
pub open spec fn settled(parser: ParserView) -> bool {
    &&& parser.panic_mode == parser.had_error
    &&& parser.diagnostics.len() == if parser.had_error {
        1nat
    } else {
        0nat
    }
}

/// `after` follows `before` in a compilation: it is settled, and if
/// `before` had met an error, `after` still has, with the same report.
pub open spec fn follows(before: ParserView, after: ParserView) -> bool {
    &&& settled(after)
    &&& before.had_error ==> after.had_error && after.diagnostics == before.diagnostics
}

/// Reporting an error sets the failure flag, and reports the error only if
/// none was met before.
pub proof fn lemma_reported_follows(parser: ParserView, token: TokenView, message: Seq<char>)
    requires
        settled(parser),
    ensures
        follows(parser, reported(parser, token, message)),
        reported(parser, token, message).had_error,
{
}

/// Skipping error tokens never clears the failure flag.
pub proof fn lemma_next_valid_follows(parser: ParserView)
    requires
        settled(parser),
    ensures
        follows(parser, next_valid(parser)),
    decreases parser.source.len() - parser.position,
{
    let scan = scan_at(parser.source, parser.position);
    let moved = ParserView { current: scan.token, position: scan.end, ..parser };
    lemma_scan_progress(parser.source, parser.position);
    if scan.token.kind == Kind::Error {
        lemma_reported_follows(moved, scan.token, scanner_error());
        lemma_next_valid_follows(reported(moved, scan.token, scanner_error()));
    }
}

/// A step forward never clears the failure flag.
pub proof fn lemma_advanced_follows(parser: ParserView)
    requires
        settled(parser),
    ensures
        follows(parser, advanced(parser)),
{
    lemma_next_valid_follows(ParserView { previous: parser.current, ..parser });
}

/// Requiring a token never clears the failure flag.
pub proof fn lemma_consumed_follows(parser: ParserView, kind: Kind, message: Seq<char>)
    requires
        settled(parser),
    ensures
        follows(parser, consumed(parser, kind, message)),
{
    lemma_advanced_follows(parser);
    lemma_reported_follows(parser, parser.current, message);
}

/// Parsing an expression never clears the failure flag.
pub proof fn lemma_parse_precedence_follows(
    state: CompilerView,
    numbers: Seq<Value>,
    min: Precedence,
)
    requires
        settled(state.parser),
    ensures
        follows(state.parser, parse_precedence(state, numbers, min).parser),
    decreases remaining(state.parser), 0nat,
{
    lemma_advanced(state.parser);
    lemma_advanced_follows(state.parser);
    let stepped = state.advance();
    match parse_rule(stepped.parser.previous.kind).prefix {
        None => {
            lemma_reported_follows(stepped.parser, stepped.parser.previous, expect_expression());
        },
        Some(rule) => {
            lemma_run_rule_follows(stepped, numbers, rule);
            let operand = run_rule(stepped, numbers, rule);
            if remaining(operand.parser) <= remaining(stepped.parser) {
                lemma_infix_loop_follows(operand, numbers, min);
            }
        },
    }
}

/// Compiling infix operators never clears the failure flag.
pub proof fn lemma_infix_loop_follows(state: CompilerView, numbers: Seq<Value>, min: Precedence)
    requires
        settled(state.parser),
    ensures
        follows(state.parser, infix_loop(state, numbers, min).parser),
    decreases remaining(state.parser), 0nat,
{
    let rule = parse_rule(state.parser.current.kind);
    if rule.infix is Some && precedence_level(min) <= precedence_level(rule.precedence) {
        lemma_advanced(state.parser);
        lemma_advanced_follows(state.parser);
        let stepped = state.advance();
        lemma_run_rule_follows(stepped, numbers, rule.infix->0);
        let applied = run_rule(stepped, numbers, rule.infix->0);
        if remaining(applied.parser) <= remaining(stepped.parser) {
            lemma_infix_loop_follows(applied, numbers, min);
        }
    }
}

/// Applying a grammar rule never clears the failure flag.
pub proof fn lemma_run_rule_follows(state: CompilerView, numbers: Seq<Value>, rule: ParseFn)
    requires
        settled(state.parser),
    ensures
        follows(state.parser, run_rule(state, numbers, rule).parser),
    decreases remaining(state.parser), 1nat,
{
    match rule {
        ParseFn::Grouping => {
            lemma_parse_precedence_follows(state, numbers, Precedence::Assignment);
            let inner = parse_precedence(state, numbers, Precedence::Assignment);
            lemma_consumed_follows(inner.parser, Kind::RightParen, expect_right_paren());
        },
        ParseFn::Number => {
            lemma_reported_follows(
                state.parser,
                state.parser.previous,
                crate::compiler::expect_value(),
            );
        },
        ParseFn::Unary => {
            lemma_parse_precedence_follows(state, numbers, Precedence::Unary);
        },
        ParseFn::Binary => {
            lemma_parse_precedence_follows(
                state,
                numbers,
                tighter(parse_rule(state.parser.previous.kind).precedence),
            );
        },
    }
}

/// A compilation reports the first error it meets and no other: it fails
/// exactly if it ends with one diagnostic, and succeeds exactly if it ends
/// with none.
pub proof fn lemma_compiled_reports_first_error(
    source: Seq<u8>,
    numbers: Seq<Value>,
    chunk: ChunkView,
)
    ensures
        settled(compiled(source, numbers, chunk).parser),
        compiled(source, numbers, chunk).parser.had_error <==> compiled(
            source,
            numbers,
            chunk,
        ).parser.diagnostics.len() == 1,
        !compiled(source, numbers, chunk).parser.had_error <==> compiled(
            source,
            numbers,
            chunk,
        ).parser.diagnostics.len() == 0,
{
    let start = initial_state(source, chunk);
    lemma_advanced_follows(start.parser);
    lemma_parse_precedence_follows(start.advance(), numbers, Precedence::Assignment);
    let parsed = parse_precedence(start.advance(), numbers, Precedence::Assignment);
    lemma_consumed_follows(parsed.parser, Kind::EOF, expect_end());
}

} // verus!
