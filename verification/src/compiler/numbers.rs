//! The values of number literals. The compiler does not read a number from
//! its text: it takes the values of the literals, in the order they occur,
//! from its caller. This module shows that a caller who supplies one value
//! per literal is never short of one.

use vstd::prelude::*;
use crate::chunk::ChunkView;
use crate::chunk::Value;
use crate::compiler::compiled;
use crate::compiler::expect_end;
use crate::compiler::expect_expression;
use crate::compiler::expect_right_paren;
use crate::compiler::expect_value;
use crate::compiler::infix_loop;
use crate::compiler::initial_state;
use crate::compiler::parse_precedence;
use crate::compiler::parse_rule;
use crate::compiler::parser::advanced;
use crate::compiler::parser::consumed;
use crate::compiler::parser::lemma_advanced;
use crate::compiler::parser::next_valid;
use crate::compiler::parser::remaining;
use crate::compiler::parser::reported;
use crate::compiler::parser::scanner_error;
use crate::compiler::parser::DiagnosticView;
use crate::compiler::parser::ParserView;
use crate::compiler::run_rule;
use crate::compiler::CompilerView;
use crate::compiler::ParseFn;
use crate::compiler::Precedence;
use crate::scanner::lemma_scan_progress;
use crate::scanner::number_lexemes_from;
use crate::scanner::scan_at;
use crate::token::Kind;
use crate::token::TokenView;

verus! {

/// The number literals that the parser has not stepped past: those still
/// to be scanned, and the current token if it is one.
pub open spec fn pending_numbers(parser: ParserView) -> nat {
    let unread = number_lexemes_from(parser.source, parser.position).len();
    if parser.current.kind == Kind::Number {
        unread + 1
    } else {
        unread
    }
}

/// No diagnostic in the list says that a number literal had no value.
pub open spec fn none_without_value(diagnostics: Seq<DiagnosticView>) -> bool {
    forall|i: int| 0 <= i < diagnostics.len() ==> (#[trigger] diagnostics[i]).message
        != expect_value()
}

/// Enough values are left for the literals not yet compiled, `owed` of
/// which the parser has already stepped past, and none was missing so far.
pub open spec fn supplied(state: CompilerView, numbers: Seq<Value>, owed: nat) -> bool {
    &&& state.used + owed + pending_numbers(state.parser) <= numbers.len()
    &&& none_without_value(state.parser.diagnostics)
}

/// The message for a missing value differs from every other message of
/// the compiler.
proof fn lemma_messages_differ()
    ensures
        scanner_error() != expect_value(),
        expect_expression() != expect_value(),
        expect_right_paren() != expect_value(),
        expect_end() != expect_value(),
{
    reveal_strlit("Scanner error.");
    reveal_strlit("Expect expression.");
    reveal_strlit("Expect ')' after expression.");
    reveal_strlit("Expected end of expression.");
    reveal_strlit("Expect a value for the number.");
    assert(scanner_error().len() == 14);
    assert(expect_expression().len() == 18);
    assert(expect_right_paren().len() == 28);
    assert(expect_end().len() == 27);
    assert(expect_value().len() == 30);
}

/// Reporting an error with another message adds no missing value.
proof fn lemma_reported_numbers(parser: ParserView, token: TokenView, message: Seq<char>)
    requires
        none_without_value(parser.diagnostics),
        message != expect_value(),
    ensures
        none_without_value(reported(parser, token, message).diagnostics),
        pending_numbers(reported(parser, token, message)) == pending_numbers(parser),
{
}

/// The next valid token is the first of the literals still to be scanned,
/// or it is no literal.
proof fn lemma_next_valid_numbers(parser: ParserView)
    requires
        none_without_value(parser.diagnostics),
    ensures
        none_without_value(next_valid(parser).diagnostics),
        pending_numbers(next_valid(parser)) == number_lexemes_from(
            parser.source,
            parser.position,
        ).len(),
    decreases parser.source.len() - parser.position,
{
    let scan = scan_at(parser.source, parser.position);
    let moved = ParserView { current: scan.token, position: scan.end, ..parser };
    lemma_scan_progress(parser.source, parser.position);
    lemma_messages_differ();
    if scan.token.kind == Kind::Error {
        lemma_reported_numbers(moved, scan.token, scanner_error());
        lemma_next_valid_numbers(reported(moved, scan.token, scanner_error()));
    } else if scan.token.kind == Kind::EOF {
        lemma_scan_progress(parser.source, scan.end);
        assert(scan_at(parser.source, scan.end).token.kind == Kind::EOF);
    }
}

/// A step forward leaves behind exactly the current token.
proof fn lemma_advanced_numbers(parser: ParserView)
    requires
        none_without_value(parser.diagnostics),
    ensures
        none_without_value(advanced(parser).diagnostics),
        pending_numbers(parser) == pending_numbers(advanced(parser)) + if parser.current.kind
            == Kind::Number {
            1nat
        } else {
            0nat
        },
{
    lemma_next_valid_numbers(ParserView { previous: parser.current, ..parser });
}

/// Requiring a token that is no number literal steps past no literal.
proof fn lemma_consumed_numbers(parser: ParserView, kind: Kind, message: Seq<char>)
    requires
        none_without_value(parser.diagnostics),
        message != expect_value(),
        kind != Kind::Number,
    ensures
        none_without_value(consumed(parser, kind, message).diagnostics),
        pending_numbers(consumed(parser, kind, message)) == pending_numbers(parser),
{
    lemma_advanced_numbers(parser);
    lemma_reported_numbers(parser, parser.current, message);
}

/// Parsing an expression keeps the supply of values sufficient.
proof fn lemma_parse_precedence_numbers(state: CompilerView, numbers: Seq<Value>, min: Precedence)
    requires
        supplied(state, numbers, 0),
    ensures
        supplied(parse_precedence(state, numbers, min), numbers, 0),
    decreases remaining(state.parser), 0nat,
{
    lemma_advanced(state.parser);
    lemma_advanced_numbers(state.parser);
    lemma_messages_differ();
    let stepped = state.advance();
    match parse_rule(stepped.parser.previous.kind).prefix {
        None => {
            lemma_reported_numbers(stepped.parser, stepped.parser.previous, expect_expression());
        },
        Some(rule) => {
            lemma_run_rule_numbers(stepped, numbers, rule);
            let operand = run_rule(stepped, numbers, rule);
            if remaining(operand.parser) <= remaining(stepped.parser) {
                lemma_infix_loop_numbers(operand, numbers, min);
            }
        },
    }
}

/// Compiling infix operators keeps the supply of values sufficient.
proof fn lemma_infix_loop_numbers(state: CompilerView, numbers: Seq<Value>, min: Precedence)
    requires
        supplied(state, numbers, 0),
    ensures
        supplied(infix_loop(state, numbers, min), numbers, 0),
    decreases remaining(state.parser), 0nat,
{
    let rule = parse_rule(state.parser.current.kind);
    if rule.infix is Some && crate::compiler::precedence_level(min)
        <= crate::compiler::precedence_level(rule.precedence) {
        lemma_advanced(state.parser);
        lemma_advanced_numbers(state.parser);
        let stepped = state.advance();
        lemma_run_rule_numbers(stepped, numbers, rule.infix->0);
        let applied = run_rule(stepped, numbers, rule.infix->0);
        if remaining(applied.parser) <= remaining(stepped.parser) {
            lemma_infix_loop_numbers(applied, numbers, min);
        }
    }
}

/// Applying a grammar rule keeps the supply of values sufficient. The rule
/// for a number literal uses up the one value owed to the literal stepped
/// past.
proof fn lemma_run_rule_numbers(state: CompilerView, numbers: Seq<Value>, rule: ParseFn)
    requires
        supplied(
            state,
            numbers,
            if rule == ParseFn::Number {
                1nat
            } else {
                0nat
            },
        ),
    ensures
        supplied(run_rule(state, numbers, rule), numbers, 0),
    decreases remaining(state.parser), 1nat,
{
    lemma_messages_differ();
    match rule {
        ParseFn::Grouping => {
            lemma_parse_precedence_numbers(state, numbers, Precedence::Assignment);
            let inner = parse_precedence(state, numbers, Precedence::Assignment);
            lemma_consumed_numbers(inner.parser, Kind::RightParen, expect_right_paren());
        },
        ParseFn::Number => {},
        ParseFn::Unary => {
            lemma_parse_precedence_numbers(state, numbers, Precedence::Unary);
        },
        ParseFn::Binary => {
            lemma_parse_precedence_numbers(
                state,
                numbers,
                crate::compiler::tighter(parse_rule(state.parser.previous.kind).precedence),
            );
        },
    }
}

/// With a value for every number literal of the source, no literal is
/// ever found without a value: the compilation reports no such error.
pub proof fn lemma_every_number_has_a_value(
    source: Seq<u8>,
    numbers: Seq<Value>,
    chunk: ChunkView,
)
    requires
        number_lexemes_from(source, 0).len() <= numbers.len(),
    ensures
        none_without_value(compiled(source, numbers, chunk).parser.diagnostics),
{
    let start = initial_state(source, chunk);
    lemma_advanced_numbers(start.parser);
    lemma_parse_precedence_numbers(start.advance(), numbers, Precedence::Assignment);
    let parsed = parse_precedence(start.advance(), numbers, Precedence::Assignment);
    lemma_messages_differ();
    lemma_consumed_numbers(parsed.parser, Kind::EOF, expect_end());
}

} // verus!
