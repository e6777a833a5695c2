//! The compiler: parses an expression by precedence climbing and emits its
//! bytecode as it goes.

pub mod errors;
pub mod numbers;
pub mod output;
pub mod parser;
pub mod progress;

use vstd::prelude::*;
use vstd::string::StringSliceAdditionalSpecFns;
use crate::chunk::opcode_byte;
use crate::chunk::Chunk;
use crate::chunk::ChunkView;
use crate::chunk::OpCode;
use crate::chunk::Value;
use crate::compiler::parser::advanced;
use crate::compiler::parser::consumed;
use crate::compiler::parser::lemma_advanced;
use crate::compiler::parser::diagnostics_view;
use crate::compiler::parser::lemma_consumed;
use crate::compiler::parser::remaining;
use crate::compiler::parser::reported;
use crate::compiler::parser::Diagnostic;
use crate::compiler::parser::Parser;
use crate::compiler::parser::ParserView;
use crate::scanner::Scanner;
use crate::token::placeholder_token;
use crate::token::Kind;

verus! {

/// How tightly an operator binds, from `Lowest`, the loosest, to `Primary`.
#[derive(Debug, Clone, Copy, PartialEq, Eq, Structural)]
pub enum Precedence {
    Lowest,
    Assignment,
    Or,
    And,
    Equality,
    Comparison,
    Term,
    Factor,
    Unary,
    Call,
    Primary,
}

/// The rank of a precedence: 0 for `Lowest` up to 10 for `Primary`.
pub open spec fn precedence_level(precedence: Precedence) -> u8 {
    match precedence {
        Precedence::Lowest => 0u8,
        Precedence::Assignment => 1u8,
        Precedence::Or => 2u8,
        Precedence::And => 3u8,
        Precedence::Equality => 4u8,
        Precedence::Comparison => 5u8,
        Precedence::Term => 6u8,
        Precedence::Factor => 7u8,
        Precedence::Unary => 8u8,
        Precedence::Call => 9u8,
        Precedence::Primary => 10u8,
    }
}

/// The precedence of a rank, if the rank is one.
pub open spec fn level_precedence(level: u8) -> Option<Precedence> {
    if level == 0 {
        Some(Precedence::Lowest)
    } else if level == 1 {
        Some(Precedence::Assignment)
    } else if level == 2 {
        Some(Precedence::Or)
    } else if level == 3 {
        Some(Precedence::And)
    } else if level == 4 {
        Some(Precedence::Equality)
    } else if level == 5 {
        Some(Precedence::Comparison)
    } else if level == 6 {
        Some(Precedence::Term)
    } else if level == 7 {
        Some(Precedence::Factor)
    } else if level == 8 {
        Some(Precedence::Unary)
    } else if level == 9 {
        Some(Precedence::Call)
    } else if level == 10 {
        Some(Precedence::Primary)
    } else {
        None
    }
}

/// The precedence one step tighter; `Primary` has none above it and stays.
pub open spec fn tighter(precedence: Precedence) -> Precedence {
    match level_precedence((precedence_level(precedence) + 1) as u8) {
        Some(next) => next,
        None => precedence,
    }
}

/// Ranks and precedences correspond one to one, and the ranks order the
/// precedences as they are listed.
pub proof fn lemma_precedence_round_trip(precedence: Precedence, level: u8)
    ensures
        level_precedence(precedence_level(precedence)) == Some(precedence),
        level_precedence(level) == Some(precedence) <==> precedence_level(precedence) == level,
        level_precedence(level) is Some <==> level <= 10,
        precedence != Precedence::Primary ==> precedence_level(tighter(precedence))
            == precedence_level(precedence) + 1,
{
}

impl Precedence {
    /// The rank of this precedence.
    pub fn level(self) -> (level: u8)
        ensures
            level == precedence_level(self),
            level <= 10,
    {
        match self {
            Precedence::Lowest => 0,
            Precedence::Assignment => 1,
            Precedence::Or => 2,
            Precedence::And => 3,
            Precedence::Equality => 4,
            Precedence::Comparison => 5,
            Precedence::Term => 6,
            Precedence::Factor => 7,
            Precedence::Unary => 8,
            Precedence::Call => 9,
            Precedence::Primary => 10,
        }
    }

    /// The precedence with rank `value`; a number that is no rank is an
    /// error.
    pub fn try_from(value: u8) -> (found: Result<Precedence, ()>)
        ensures
            match found {
                Ok(precedence) => level_precedence(value) == Some(precedence),
                Err(_) => level_precedence(value) is None,
            },
    {
        match value {
            0 => Ok(Precedence::Lowest),
            1 => Ok(Precedence::Assignment),
            2 => Ok(Precedence::Or),
            3 => Ok(Precedence::And),
            4 => Ok(Precedence::Equality),
            5 => Ok(Precedence::Comparison),
            6 => Ok(Precedence::Term),
            7 => Ok(Precedence::Factor),
            8 => Ok(Precedence::Unary),
            9 => Ok(Precedence::Call),
            10 => Ok(Precedence::Primary),
            _ => Err(()),
        }
    }

    /// The precedence one step tighter than this one.
    pub fn next(self) -> (next: Precedence)
        ensures
            next == tighter(self),
    {
        match Precedence::try_from(self.level() + 1) {
            Ok(next) => next,
            Err(_) => self,
        }
    }
}

/// The grammar rules that a token can start or continue.
#[derive(Debug, Clone, Copy, PartialEq, Eq, Structural)]
pub enum ParseFn {
    /// A parenthesised expression.
    Grouping,
    /// A number literal.
    Number,
    /// A prefix operator and its operand.
    Unary,
    /// An infix operator and its right operand.
    Binary,
}

/// The grammar role of a token kind: the rule it starts an expression with,
/// the rule it continues one with, and how tightly it binds as an infix
/// operator.
#[derive(Debug, Clone, Copy, PartialEq, Eq)]
pub struct ParseRule {
    pub prefix: Option<ParseFn>,
    pub infix: Option<ParseFn>,
    pub precedence: Precedence,
}

impl ParseRule {
    /// A rule with both a prefix and an infix role.
    pub fn new(p_fix: ParseFn, i_fix: ParseFn, precedence: Precedence) -> (rule: ParseRule)
        ensures
            rule == (ParseRule { prefix: Some(p_fix), infix: Some(i_fix), precedence }),
    {
        ParseRule { prefix: Some(p_fix), infix: Some(i_fix), precedence }
    }

    /// A rule with a prefix role only.
    pub fn new_prefix(p_fix: ParseFn, precedence: Precedence) -> (rule: ParseRule)
        ensures
            rule == (ParseRule { prefix: Some(p_fix), infix: None, precedence }),
    {
        ParseRule { prefix: Some(p_fix), infix: None, precedence }
    }

    /// A rule with an infix role only.
    pub fn new_infix(i_fix: ParseFn, precedence: Precedence) -> (rule: ParseRule)
        ensures
            rule == (ParseRule { prefix: None, infix: Some(i_fix), precedence }),
    {
        ParseRule { prefix: None, infix: Some(i_fix), precedence }
    }

    /// A rule with a precedence and no role.
    pub fn new_precedence(precedence: Precedence) -> (rule: ParseRule)
        ensures
            rule == (ParseRule { prefix: None, infix: None, precedence }),
    {
        ParseRule { prefix: None, infix: None, precedence }
    }

    /// The rule of a token with no role in the grammar.
    pub fn default() -> (rule: ParseRule)
        ensures
            rule == (ParseRule { prefix: None, infix: None, precedence: Precedence::Lowest }),
    {
        ParseRule { prefix: None, infix: None, precedence: Precedence::Lowest }
    }
}

/// The rule table: the grammar role of each token kind.
pub open spec fn parse_rule(kind: Kind) -> ParseRule {
    match kind {
        Kind::LeftParen => ParseRule {
            prefix: Some(ParseFn::Grouping),
            infix: None,
            precedence: Precedence::Lowest,
        },
        Kind::Minus => ParseRule {
            prefix: Some(ParseFn::Unary),
            infix: Some(ParseFn::Binary),
            precedence: Precedence::Term,
        },
        Kind::Plus => ParseRule {
            prefix: None,
            infix: Some(ParseFn::Binary),
            precedence: Precedence::Term,
        },
        Kind::Slash => ParseRule {
            prefix: None,
            infix: Some(ParseFn::Binary),
            precedence: Precedence::Factor,
        },
        Kind::Star => ParseRule {
            prefix: None,
            infix: Some(ParseFn::Binary),
            precedence: Precedence::Factor,
        },
        Kind::Number => ParseRule {
            prefix: Some(ParseFn::Number),
            infix: None,
            precedence: Precedence::Lowest,
        },
        _ => ParseRule { prefix: None, infix: None, precedence: Precedence::Lowest },
    }
}

/// The instruction that a binary operator compiles to.
pub open spec fn binary_opcode(operator: Kind) -> Option<OpCode> {
    match operator {
        Kind::Plus => Some(OpCode::Add),
        Kind::Minus => Some(OpCode::Subtract),
        Kind::Star => Some(OpCode::Multiply),
        Kind::Slash => Some(OpCode::Divide),
        _ => None,
    }
}

/// The state of a compilation: the parser, how many of the supplied number
/// values have been used, and the chunk written so far.
pub struct CompilerView {
    pub parser: ParserView,
    pub used: nat,
    pub chunk: ChunkView,
}

/// The message for a token that can start no expression.
pub open spec fn expect_expression() -> Seq<char> {
    "Expect expression."@
}

/// The message for a group that is not closed.
pub open spec fn expect_right_paren() -> Seq<char> {
    "Expect ')' after expression."@
}

/// The message for input that goes on after the expression.
pub open spec fn expect_end() -> Seq<char> {
    "Expected end of expression."@
}

/// The message for a number literal that no value was supplied for.
pub open spec fn expect_value() -> Seq<char> {
    "Expect a value for the number."@
}

impl CompilerView {
    /// The state after `byte` was emitted, on the line of the previous
    /// token.
    pub open spec fn emit(self, byte: u8) -> CompilerView {
        CompilerView { chunk: self.chunk.write(byte, self.parser.previous.line), ..self }
    }

    /// The state after the parser stepped forward by one token.
    pub open spec fn advance(self) -> CompilerView {
        CompilerView { parser: advanced(self.parser), ..self }
    }

    /// The state after an error was reported at the previous token.
    pub open spec fn error(self, message: Seq<char>) -> CompilerView {
        CompilerView { parser: reported(self.parser, self.parser.previous, message), ..self }
    }

    /// The state after a token of kind `kind` was required.
    pub open spec fn consume(self, kind: Kind, message: Seq<char>) -> CompilerView {
        CompilerView { parser: consumed(self.parser, kind, message), ..self }
    }

    /// The state after the number literal that is the previous token was
    /// compiled: the next unused value of `numbers` becomes a constant and
    /// the instruction that pushes it is emitted. With no value left, it is
    /// an error.
    pub open spec fn number(self, numbers: Seq<Value>) -> CompilerView {
        if self.used < numbers.len() {
            CompilerView {
                chunk: self.chunk.write_constant(
                    numbers[self.used as int],
                    self.parser.previous.line,
                ),
                used: self.used + 1,
                ..self
            }
        } else {
            self.error(expect_value())
        }
    }
}

/// The state after an expression whose operators all bind at least as
/// tightly as `min` was parsed and compiled: one step forward, the prefix
/// rule of the token stepped over, then infix operators as long as they
/// bind tightly enough. A token with no prefix rule is an error.
pub open spec fn parse_precedence(
    state: CompilerView,
    numbers: Seq<Value>,
    min: Precedence,
) -> CompilerView
    decreases remaining(state.parser), 0nat,
{
    let stepped = state.advance();
    match parse_rule(stepped.parser.previous.kind).prefix {
        None => stepped.error(expect_expression()),
        Some(rule) => {
            proof {
                lemma_advanced(state.parser);
            }
            let operand = run_rule(stepped, numbers, rule);
            if remaining(operand.parser) <= remaining(stepped.parser) {
                infix_loop(operand, numbers, min)
            } else {
                operand
            }
        },
    }
}

/// The state after the infix operators that follow an operand were
/// compiled, each with its right operand, as long as the current token is
/// an infix operator that binds at least as tightly as `min`.
pub open spec fn infix_loop(state: CompilerView, numbers: Seq<Value>, min: Precedence) -> CompilerView
    decreases remaining(state.parser), 0nat,
{
    let rule = parse_rule(state.parser.current.kind);
    if rule.infix is Some && precedence_level(min) <= precedence_level(rule.precedence) {
        proof {
            lemma_advanced(state.parser);
        }
        let stepped = state.advance();
        let applied = run_rule(stepped, numbers, rule.infix->0);
        if remaining(applied.parser) <= remaining(stepped.parser) {
            infix_loop(applied, numbers, min)
        } else {
            applied
        }
    } else {
        state
    }
}

/// The state after the grammar rule `rule` was applied to the previous
/// token.
///
/// A group is an expression followed by `)`. A number becomes a constant. A
/// prefix operator compiles its operand, parsed at `Unary` precedence, and
/// then its own instruction. An infix operator compiles its right operand,
/// parsed one step tighter than the operator binds, and then its own
/// instruction, so that operators of one precedence group to the left.
pub open spec fn run_rule(state: CompilerView, numbers: Seq<Value>, rule: ParseFn) -> CompilerView
    decreases remaining(state.parser), 1nat,
{
    match rule {
        ParseFn::Grouping => parse_precedence(state, numbers, Precedence::Assignment).consume(
            Kind::RightParen,
            expect_right_paren(),
        ),
        ParseFn::Number => state.number(numbers),
        ParseFn::Unary => {
            let operator = state.parser.previous.kind;
            let operand = parse_precedence(state, numbers, Precedence::Unary);
            if operator == Kind::Minus {
                operand.emit(opcode_byte(OpCode::Negate))
            } else {
                operand
            }
        },
        ParseFn::Binary => {
            let operator = state.parser.previous.kind;
            let operand = parse_precedence(
                state,
                numbers,
                tighter(parse_rule(operator).precedence),
            );
            match binary_opcode(operator) {
                Some(op) => operand.emit(opcode_byte(op)),
                None => operand,
            }
        },
    }
}

/// The state at the start of a compilation of `source` into `chunk`.
pub open spec fn initial_state(source: Seq<u8>, chunk: ChunkView) -> CompilerView {
    CompilerView {
        parser: ParserView {
            source,
            position: 0,
            current: placeholder_token(),
            previous: placeholder_token(),
            had_error: false,
            panic_mode: false,
            diagnostics: Seq::empty(),
        },
        used: 0,
        chunk,
    }
}

/// The state at the end of a compilation of `source` into `chunk`: the
/// first token is read, one expression is parsed, the end of the input is
/// required, and `Return` is emitted.
pub open spec fn compiled(source: Seq<u8>, numbers: Seq<Value>, chunk: ChunkView) -> CompilerView {
    parse_precedence(
        initial_state(source, chunk).advance(),
        numbers,
        Precedence::Assignment,
    ).consume(Kind::EOF, expect_end()).emit(opcode_byte(OpCode::Return))
}

/// The rule of a token kind, looked up in the rule table.
pub fn get_parse_rule(kind: Kind) -> (rule: ParseRule)
    ensures
        rule == parse_rule(kind),
{
    match kind {
        Kind::LeftParen => ParseRule::new_prefix(ParseFn::Grouping, Precedence::Lowest),
        Kind::Minus => ParseRule::new(ParseFn::Unary, ParseFn::Binary, Precedence::Term),
        Kind::Plus => ParseRule::new_infix(ParseFn::Binary, Precedence::Term),
        Kind::Slash => ParseRule::new_infix(ParseFn::Binary, Precedence::Factor),
        Kind::Star => ParseRule::new_infix(ParseFn::Binary, Precedence::Factor),
        Kind::Number => ParseRule::new_prefix(ParseFn::Number, Precedence::Lowest),
        _ => ParseRule::default(),
    }
}

/// How a compilation ended: whether it met no error, and the errors it
/// reported, in the order they were found.
#[derive(Debug)]
pub struct Report<'src> {
    pub success: bool,
    pub diagnostics: Vec<Diagnostic<'src>>,
}

/// A compilation in progress: the parser, and the values of the number
/// literals of the source in the order they occur, with a count of those
/// already used.
#[derive(Debug)]
pub struct Compiler<'src, 'n> {
    pub parser: Parser<'src>,
    pub numbers: &'n [Value],
    pub used: usize,
}

impl<'src, 'n> Compiler<'src, 'n> {
    /// The state of this compilation into `chunk`.
    pub open spec fn state(&self, chunk: &Chunk) -> CompilerView {
        CompilerView { parser: self.parser@, used: self.used as nat, chunk: chunk@ }
    }

    /// The parser is well formed and no more values are used than there are.
    pub open spec fn well_formed(&self) -> bool {
        &&& self.parser.well_formed()
        &&& self.used <= self.numbers@.len()
    }

    /// Emits one byte, on the line of the previous token.
    fn emit_byte(&self, byte: u8, chunk: &mut Chunk)
        ensures
            self.state(final(chunk)) == self.state(old(chunk)).emit(byte),
            old(chunk).well_formed() ==> final(chunk).well_formed(),
    {
        self.parser.emit_byte(byte, chunk);
    }

    /// Emits the instruction that ends a program.
    fn emit_return(&self, chunk: &mut Chunk)
        ensures
            self.state(final(chunk)) == self.state(old(chunk)).emit(opcode_byte(OpCode::Return)),
            old(chunk).well_formed() ==> final(chunk).well_formed(),
    {
        self.emit_byte(OpCode::Return.to_byte(), chunk);
    }

    /// Ends the compilation: the program returns.
    fn end_compiler(&self, chunk: &mut Chunk)
        ensures
            self.state(final(chunk)) == self.state(old(chunk)).emit(opcode_byte(OpCode::Return)),
            old(chunk).well_formed() ==> final(chunk).well_formed(),
    {
        self.emit_return(chunk);
    }

    /// Adds `value` to the constants and emits the instruction that pushes
    /// it, on the line of the previous token.
    fn emit_constant(&self, value: Value, chunk: &mut Chunk)
        ensures
            final(chunk)@ == old(chunk)@.write_constant(value, self.parser.previous.line),
            old(chunk).well_formed() ==> final(chunk).well_formed(),
    {
        chunk.write_constant(value, self.parser.previous.line);
    }

    /// Requires the current token to be of kind `kind`.
    fn consume(&mut self, kind: Kind, err_msg: &'static str, chunk: &Chunk)
        requires
            old(self).well_formed(),
        ensures
            final(self).well_formed(),
            final(self).numbers == old(self).numbers,
            final(self).state(chunk) == old(self).state(chunk).consume(kind, err_msg@),
            remaining(final(self).parser@) <= remaining(old(self).parser@),
    {
        proof {
            lemma_consumed(self.parser@, kind, err_msg@);
        }
        self.parser.consume(kind, err_msg);
    }

    /// Compiles the number literal that is the previous token.
    fn number(&mut self, chunk: &mut Chunk)
        requires
            old(self).well_formed(),
        ensures
            final(self).well_formed(),
            final(self).numbers == old(self).numbers,
            final(self).state(final(chunk)) == old(self).state(old(chunk)).number(
                old(self).numbers@,
            ),
            remaining(final(self).parser@) == remaining(old(self).parser@),
            old(chunk).well_formed() ==> final(chunk).well_formed(),
    {
        if self.used < self.numbers.len() {
            let value: Value = self.numbers[self.used];
            self.emit_constant(value, chunk);
            self.used += 1;
        } else {
            self.parser.error("Expect a value for the number.");
        }
    }
}

impl<'src, 'n> Compiler<'src, 'n> {
    /// Parses and compiles an expression whose operators all bind at least
    /// as tightly as `precedence`.
    fn parse_precedence(&mut self, precedence: Precedence, chunk: &mut Chunk)
        requires
            old(self).well_formed(),
        ensures
            final(self).well_formed(),
            final(self).numbers == old(self).numbers,
            final(self).state(final(chunk)) == parse_precedence(
                old(self).state(old(chunk)),
                old(self).numbers@,
                precedence,
            ),
            remaining(final(self).parser@) <= remaining(old(self).parser@),
            old(chunk).well_formed() ==> final(chunk).well_formed(),
        decreases remaining(old(self).parser@), 0nat,
    {
        proof {
            lemma_advanced(self.parser@);
        }
        self.parser.advance();
        let prefix: Option<ParseFn> = get_parse_rule(self.parser.previous.kind).prefix;
        match prefix {
            None => {
                self.parser.error("Expect expression.");
            },
            Some(rule) => {
                self.run_rule(rule, chunk);
                let ghost operand = self.state(chunk);
                loop
                    invariant_except_break
                        infix_loop(operand, self.numbers@, precedence) == infix_loop(
                            self.state(chunk),
                            self.numbers@,
                            precedence,
                        ),
                    invariant
                        self.well_formed(),
                        self.numbers == old(self).numbers,
                        remaining(self.parser@) < remaining(old(self).parser@),
                        old(chunk).well_formed() ==> chunk.well_formed(),
                    ensures
                        self.state(chunk) == infix_loop(operand, self.numbers@, precedence),
                    decreases remaining(self.parser@),
                {
                    let rule: ParseRule = get_parse_rule(self.parser.current.kind);
                    let binds: bool = precedence.level() <= rule.precedence.level();
                    match rule.infix {
                        Some(infix) => {
                            if !binds {
                                break ;
                            }
                            proof {
                                lemma_advanced(self.parser@);
                            }
                            self.parser.advance();
                            self.run_rule(infix, chunk);
                        },
                        None => {
                            break ;
                        },
                    }
                }
            },
        }
    }

    /// Parses and compiles one expression.
    fn expression(&mut self, chunk: &mut Chunk)
        requires
            old(self).well_formed(),
        ensures
            final(self).well_formed(),
            final(self).numbers == old(self).numbers,
            final(self).state(final(chunk)) == parse_precedence(
                old(self).state(old(chunk)),
                old(self).numbers@,
                Precedence::Assignment,
            ),
            remaining(final(self).parser@) <= remaining(old(self).parser@),
            old(chunk).well_formed() ==> final(chunk).well_formed(),
        decreases remaining(old(self).parser@), 1nat,
    {
        self.parse_precedence(Precedence::Assignment, chunk);
    }

    /// Compiles a group: the expression between the parentheses. The
    /// parentheses themselves emit nothing.
    fn grouping(&mut self, chunk: &mut Chunk)
        requires
            old(self).well_formed(),
        ensures
            final(self).well_formed(),
            final(self).numbers == old(self).numbers,
            final(self).state(final(chunk)) == run_rule(
                old(self).state(old(chunk)),
                old(self).numbers@,
                ParseFn::Grouping,
            ),
            remaining(final(self).parser@) <= remaining(old(self).parser@),
            old(chunk).well_formed() ==> final(chunk).well_formed(),
        decreases remaining(old(self).parser@), 2nat,
    {
        self.expression(chunk);
        self.consume(Kind::RightParen, "Expect ')' after expression.", chunk);
    }

    /// Compiles a prefix operator: first its operand, then its own
    /// instruction, which works on what the operand left on the stack.
    fn unary(&mut self, chunk: &mut Chunk)
        requires
            old(self).well_formed(),
        ensures
            final(self).well_formed(),
            final(self).numbers == old(self).numbers,
            final(self).state(final(chunk)) == run_rule(
                old(self).state(old(chunk)),
                old(self).numbers@,
                ParseFn::Unary,
            ),
            remaining(final(self).parser@) <= remaining(old(self).parser@),
            old(chunk).well_formed() ==> final(chunk).well_formed(),
        decreases remaining(old(self).parser@), 2nat,
    {
        let operator: Kind = self.parser.previous.kind;
        self.parse_precedence(Precedence::Unary, chunk);
        match operator {
            Kind::Minus => {
                self.emit_byte(OpCode::Negate.to_byte(), chunk);
            },
            _ => (),
        }
    }

    /// Compiles an infix operator: first its right operand, then its own
    /// instruction.
    fn binary(&mut self, chunk: &mut Chunk)
        requires
            old(self).well_formed(),
        ensures
            final(self).well_formed(),
            final(self).numbers == old(self).numbers,
            final(self).state(final(chunk)) == run_rule(
                old(self).state(old(chunk)),
                old(self).numbers@,
                ParseFn::Binary,
            ),
            remaining(final(self).parser@) <= remaining(old(self).parser@),
            old(chunk).well_formed() ==> final(chunk).well_formed(),
        decreases remaining(old(self).parser@), 2nat,
    {
        let operator: Kind = self.parser.previous.kind;
        let rule: ParseRule = get_parse_rule(operator);
        self.parse_precedence(rule.precedence.next(), chunk);
        match operator {
            Kind::Plus => self.emit_byte(OpCode::Add.to_byte(), chunk),
            Kind::Minus => self.emit_byte(OpCode::Subtract.to_byte(), chunk),
            Kind::Star => self.emit_byte(OpCode::Multiply.to_byte(), chunk),
            Kind::Slash => self.emit_byte(OpCode::Divide.to_byte(), chunk),
            _ => (),
        }
    }

    /// Applies a grammar rule to the previous token.
    fn run_rule(&mut self, rule: ParseFn, chunk: &mut Chunk)
        requires
            old(self).well_formed(),
        ensures
            final(self).well_formed(),
            final(self).numbers == old(self).numbers,
            final(self).state(final(chunk)) == run_rule(
                old(self).state(old(chunk)),
                old(self).numbers@,
                rule,
            ),
            remaining(final(self).parser@) <= remaining(old(self).parser@),
            old(chunk).well_formed() ==> final(chunk).well_formed(),
        decreases remaining(old(self).parser@), 3nat,
    {
        match rule {
            ParseFn::Grouping => self.grouping(chunk),
            ParseFn::Number => self.number(chunk),
            ParseFn::Unary => self.unary(chunk),
            ParseFn::Binary => self.binary(chunk),
        }
    }

    /// Compiles `source` into `chunk`: one expression, then `Return`.
    /// `numbers` holds the values of the number literals of `source`, in
    /// the order they occur. Errors are reported and compilation goes on;
    /// the report says whether any was met.
    pub fn compile(source: &'src str, numbers: &'n [Value], chunk: &mut Chunk) -> (report: Report<
        'src,
    >)
        requires
            source.spec_bytes().len() < u32::MAX,
        ensures
            final(chunk)@ == compiled(source.spec_bytes(), numbers@, old(chunk)@).chunk,
            report.success == !compiled(source.spec_bytes(), numbers@, old(chunk)@).parser.had_error,
            diagnostics_view(report.diagnostics@) == compiled(
                source.spec_bytes(),
                numbers@,
                old(chunk)@,
            ).parser.diagnostics,
            old(chunk).well_formed() ==> final(chunk).well_formed(),
    {
        let parser: Parser<'src> = Parser::new(Scanner::new(source));
        let mut compiler: Compiler<'src, 'n> = Compiler { parser, numbers, used: 0 };
        compiler.parser.advance();
        compiler.expression(chunk);
        compiler.consume(Kind::EOF, "Expected end of expression.", chunk);
        compiler.end_compiler(chunk);
        Report { success: !compiler.parser.had_error, diagnostics: compiler.parser.diagnostics }
    }
}

/// Compiles `source` into `chunk` and says how it went.
pub fn compile<'src, 'n>(source: &'src str, numbers: &'n [Value], chunk: &mut Chunk) -> (report:
    Report<'src>)
    requires
        source.spec_bytes().len() < u32::MAX,
    ensures
        final(chunk)@ == compiled(source.spec_bytes(), numbers@, old(chunk)@).chunk,
        report.success == !compiled(source.spec_bytes(), numbers@, old(chunk)@).parser.had_error,
        diagnostics_view(report.diagnostics@) == compiled(
            source.spec_bytes(),
            numbers@,
            old(chunk)@,
        ).parser.diagnostics,
        old(chunk).well_formed() ==> final(chunk).well_formed(),
{
    Compiler::compile(source, numbers, chunk)
}

} // verus!
