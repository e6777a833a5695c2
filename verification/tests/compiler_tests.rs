use rlox::chunk::{Chunk, OpCode, Value};
use rlox::compiler::parser::{Diagnostic, Location, Parser};
use rlox::compiler::{compile, get_parse_rule, Compiler, ParseFn, ParseRule, Precedence};
use rlox::scanner::{number_lexemes, Scanner};
use rlox::token::Kind;

fn values(source: &str) -> Vec<Value> {
    number_lexemes(source)
        .iter()
        .map(|l| Value(std::str::from_utf8(l).unwrap().parse::<f64>().unwrap().to_bits()))
        .collect()
}

fn compile_source(source: &str) -> (Chunk, bool, Vec<String>) {
    let mut chunk = Chunk::new();
    let numbers = values(source);
    let report = compile(source, &numbers, &mut chunk);
    let messages = report.diagnostics.iter().map(render).collect();
    (chunk, report.success, messages)
}

fn render(d: &Diagnostic) -> String {
    let place = match d.location {
        Location::AtEnd => " at the end".to_string(),
        Location::At(lexeme) => format!(" at '{}'", String::from_utf8_lossy(lexeme)),
    };
    format!("[line {}] Error{}: {}", d.line, place, d.message)
}

fn opcodes(chunk: &Chunk) -> Vec<(OpCode, Option<f64>)> {
    chunk
        .disassemble()
        .unwrap()
        .iter()
        .map(|row| (row.op, row.constant.map(|c| f64::from_bits(c.value.0))))
        .collect()
}

#[test]
fn multiplication_binds_before_addition() {
    let (chunk, success, messages) = compile_source("1 + 2 * 3");
    assert!(success);
    assert!(messages.is_empty());
    assert_eq!(
        opcodes(&chunk),
        vec![
            (OpCode::Constant, Some(1.0)),
            (OpCode::Constant, Some(2.0)),
            (OpCode::Constant, Some(3.0)),
            (OpCode::Multiply, None),
            (OpCode::Add, None),
            (OpCode::Return, None),
        ]
    );
    assert_eq!(chunk.code, vec![1, 0, 1, 1, 1, 2, 6, 4, 0]);
    assert_eq!(chunk.lines.len(), chunk.code.len());
}

#[test]
fn subtraction_groups_to_the_left() {
    let (chunk, success, _) = compile_source("8 - 3 - 2");
    assert!(success);
    assert_eq!(
        opcodes(&chunk),
        vec![
            (OpCode::Constant, Some(8.0)),
            (OpCode::Constant, Some(3.0)),
            (OpCode::Subtract, None),
            (OpCode::Constant, Some(2.0)),
            (OpCode::Subtract, None),
            (OpCode::Return, None),
        ]
    );
}

#[test]
fn division_and_multiplication_group_to_the_left() {
    let (chunk, success, _) = compile_source("8 / 4 * 2");
    assert!(success);
    let ops: Vec<OpCode> = opcodes(&chunk).into_iter().map(|r| r.0).collect();
    assert_eq!(
        ops,
        vec![
            OpCode::Constant,
            OpCode::Constant,
            OpCode::Divide,
            OpCode::Constant,
            OpCode::Multiply,
            OpCode::Return
        ]
    );
}

#[test]
fn grouping_overrides_precedence() {
    let (chunk, success, _) = compile_source("(1 + 2) * 3");
    assert!(success);
    let ops: Vec<OpCode> = opcodes(&chunk).into_iter().map(|r| r.0).collect();
    assert_eq!(
        ops,
        vec![
            OpCode::Constant,
            OpCode::Constant,
            OpCode::Add,
            OpCode::Constant,
            OpCode::Multiply,
            OpCode::Return
        ]
    );
}

#[test]
fn negation_is_emitted_after_its_operand() {
    let (chunk, success, _) = compile_source("-1.5");
    assert!(success);
    assert_eq!(
        opcodes(&chunk),
        vec![(OpCode::Constant, Some(1.5)), (OpCode::Negate, None), (OpCode::Return, None)]
    );
}

#[test]
fn negation_binds_tighter_than_binary_operators() {
    let (chunk, success, _) = compile_source("-1 + 2");
    assert!(success);
    let ops: Vec<OpCode> = opcodes(&chunk).into_iter().map(|r| r.0).collect();
    assert_eq!(
        ops,
        vec![OpCode::Constant, OpCode::Negate, OpCode::Constant, OpCode::Add, OpCode::Return]
    );
    let (chunk, success, _) = compile_source("2 * -3");
    assert!(success);
    let ops: Vec<OpCode> = opcodes(&chunk).into_iter().map(|r| r.0).collect();
    assert_eq!(
        ops,
        vec![OpCode::Constant, OpCode::Constant, OpCode::Negate, OpCode::Multiply, OpCode::Return]
    );
    let (chunk, success, _) = compile_source("--4");
    assert!(success);
    let ops: Vec<OpCode> = opcodes(&chunk).into_iter().map(|r| r.0).collect();
    assert_eq!(ops, vec![OpCode::Constant, OpCode::Negate, OpCode::Negate, OpCode::Return]);
}

#[test]
fn emitted_bytes_carry_the_line_of_their_token() {
    let (chunk, success, _) = compile_source("1 +\n2");
    assert!(success);
    let lines: Vec<u32> = chunk.lines.iter().map(|l| l.0).collect();
    // constant 1 (line 1), constant 2, Add and Return after the 2 (line 2).
    assert_eq!(chunk.code, vec![1, 0, 1, 1, 4, 0]);
    assert_eq!(lines, vec![1, 1, 2, 2, 2, 2]);
}

#[test]
fn unterminated_group_is_a_compile_error() {
    let (chunk, success, messages) = compile_source("(1 +");
    assert!(!success);
    assert_eq!(messages, vec!["[line 1] Error at the end: Expect expression.".to_string()]);
    assert_eq!(chunk.lines.len(), chunk.code.len());
}

#[test]
fn missing_right_paren_is_reported() {
    let (_, success, messages) = compile_source("(1 + 2");
    assert!(!success);
    assert_eq!(
        messages,
        vec!["[line 1] Error at the end: Expect ')' after expression.".to_string()]
    );
}

#[test]
fn empty_source_is_a_compile_error() {
    let (chunk, success, messages) = compile_source("");
    assert!(!success);
    assert_eq!(messages, vec!["[line 1] Error at the end: Expect expression.".to_string()]);
    assert_eq!(chunk.code, vec![0]);
}

#[test]
fn trailing_tokens_are_a_compile_error() {
    let (_, success, messages) = compile_source("1 2");
    assert!(!success);
    assert_eq!(messages, vec!["[line 1] Error at '2': Expected end of expression.".to_string()]);
}

#[test]
fn token_without_prefix_rule_is_a_compile_error() {
    let (_, success, messages) = compile_source("\n* 2");
    assert!(!success);
    assert_eq!(messages, vec!["[line 2] Error at '*': Expect expression.".to_string()]);
}

#[test]
fn scanner_errors_are_reported_once_and_skipped() {
    let (chunk, success, messages) = compile_source("1 + @ # 2");
    assert!(!success);
    assert_eq!(
        messages,
        vec!["[line 1] Error at 'Unexpected character': Scanner error.".to_string()]
    );
    // The error tokens are skipped, so the expression itself compiles.
    assert_eq!(chunk.code, vec![1, 0, 1, 1, 4, 0]);
}

#[test]
fn one_error_suppresses_those_that_follow() {
    let (_, success, messages) = compile_source("(1 2");
    assert!(!success);
    assert_eq!(messages.len(), 1);
    assert_eq!(messages[0], "[line 1] Error at '2': Expect ')' after expression.");
}

#[test]
fn number_without_value_is_a_compile_error() {
    let mut chunk = Chunk::new();
    let numbers = vec![Value(1.0f64.to_bits())];
    let report = compile("1 + 2", &numbers, &mut chunk);
    assert!(!report.success);
    assert_eq!(report.diagnostics.len(), 1);
    assert_eq!(report.diagnostics[0].message, "Expect a value for the number.");
    assert_eq!(report.diagnostics[0].line, 1);
}

#[test]
fn compiler_compile_agrees_with_compile() {
    let numbers = values("4 / (1 - 3)");
    let mut first = Chunk::new();
    let mut second = Chunk::new();
    let a = compile("4 / (1 - 3)", &numbers, &mut first);
    let b = Compiler::compile("4 / (1 - 3)", &numbers, &mut second);
    assert!(a.success && b.success);
    assert_eq!(first.code, second.code);
    assert_eq!(first.constants, second.constants);
    assert_eq!(first.code, vec![1, 0, 1, 1, 1, 2, 5, 7, 0]);
}

#[test]
fn compile_appends_to_the_chunk_it_is_given() {
    let mut chunk = Chunk::new();
    chunk.write_constant(Value(9.0f64.to_bits()), 1);
    let numbers = values("7");
    let report = compile("7", &numbers, &mut chunk);
    assert!(report.success);
    assert_eq!(chunk.code, vec![1, 0, 1, 1, 0]);
    assert_eq!(chunk.constants.len(), 2);
}

#[test]
fn many_constants_use_the_long_form() {
    let mut source = String::from("0");
    for i in 1..300 {
        source.push_str(&format!(" + {}", i));
    }
    let (chunk, success, _) = compile_source(&source);
    assert!(success);
    assert_eq!(chunk.constants.len(), 300);
    let rows = chunk.disassemble().unwrap();
    let long: Vec<usize> = rows
        .iter()
        .filter(|r| r.op == OpCode::ConstantLong)
        .map(|r| r.constant.unwrap().index)
        .collect();
    assert_eq!(long, (256..300).collect::<Vec<usize>>());
    assert_eq!(f64::from_bits(chunk.constants[299].0), 299.0);
}

#[test]
fn precedence_levels() {
    let all = [
        Precedence::Lowest,
        Precedence::Assignment,
        Precedence::Or,
        Precedence::And,
        Precedence::Equality,
        Precedence::Comparison,
        Precedence::Term,
        Precedence::Factor,
        Precedence::Unary,
        Precedence::Call,
        Precedence::Primary,
    ];
    for (level, precedence) in all.iter().enumerate() {
        assert_eq!(precedence.level(), level as u8);
        assert_eq!(Precedence::try_from(level as u8), Ok(*precedence));
    }
    assert_eq!(Precedence::try_from(11), Err(()));
    assert_eq!(Precedence::try_from(255), Err(()));
    assert_eq!(Precedence::Term.next(), Precedence::Factor);
    assert_eq!(Precedence::Factor.next(), Precedence::Unary);
    assert_eq!(Precedence::Primary.next(), Precedence::Primary);
}

#[test]
fn rule_table() {
    assert_eq!(
        get_parse_rule(Kind::LeftParen),
        ParseRule::new_prefix(ParseFn::Grouping, Precedence::Lowest)
    );
    assert_eq!(
        get_parse_rule(Kind::Minus),
        ParseRule::new(ParseFn::Unary, ParseFn::Binary, Precedence::Term)
    );
    assert_eq!(get_parse_rule(Kind::Plus), ParseRule::new_infix(ParseFn::Binary, Precedence::Term));
    assert_eq!(
        get_parse_rule(Kind::Star),
        ParseRule::new_infix(ParseFn::Binary, Precedence::Factor)
    );
    assert_eq!(
        get_parse_rule(Kind::Slash),
        ParseRule::new_infix(ParseFn::Binary, Precedence::Factor)
    );
    assert_eq!(
        get_parse_rule(Kind::Number),
        ParseRule::new_prefix(ParseFn::Number, Precedence::Lowest)
    );
    assert_eq!(get_parse_rule(Kind::EOF), ParseRule::default());
    assert_eq!(get_parse_rule(Kind::Identifier), ParseRule::new_precedence(Precedence::Lowest));
    assert_eq!(get_parse_rule(Kind::RightParen), ParseRule::default());
}

#[test]
fn parser_advance_shifts_the_window() {
    let mut parser = Parser::new(Scanner::new("1 + 2"));
    assert_eq!(parser.current.kind, Kind::False);
    assert!(!parser.had_error);
    assert!(!parser.panic_mode);
    parser.advance();
    assert_eq!(parser.current.kind, Kind::Number);
    parser.advance();
    assert_eq!(parser.previous.kind, Kind::Number);
    assert_eq!(parser.previous.lexeme, b"1");
    assert_eq!(parser.current.kind, Kind::Plus);
    parser.advance();
    parser.advance();
    assert_eq!(parser.previous.lexeme, b"2");
    assert_eq!(parser.current.kind, Kind::EOF);
    parser.advance();
    assert_eq!(parser.previous.kind, Kind::EOF);
    assert_eq!(parser.current.kind, Kind::EOF);
    assert!(!parser.had_error);
}

#[test]
fn parser_consume_reports_a_mismatch_without_advancing() {
    let mut parser = Parser::new(Scanner::new("1 )"));
    parser.advance();
    parser.consume(Kind::RightParen, "Expect ')' after expression.");
    assert!(parser.had_error);
    assert!(parser.panic_mode);
    assert_eq!(parser.current.kind, Kind::Number);
    assert_eq!(parser.diagnostics.len(), 1);
    // In panic mode a second error is not reported.
    parser.error("again");
    parser.error_at_current("and again");
    assert_eq!(parser.diagnostics.len(), 1);
    parser.consume(Kind::Number, "Expect number.");
    assert_eq!(parser.current.kind, Kind::RightParen);
    assert!(parser.had_error);
}

#[test]
fn parser_emits_on_the_line_of_the_previous_token() {
    let mut parser = Parser::new(Scanner::new("\n\n1 2"));
    parser.advance();
    parser.advance();
    let mut chunk = Chunk::new();
    parser.emit_byte(3, &mut chunk);
    parser.emit_bytes(1, 0, &mut chunk);
    assert_eq!(chunk.code, vec![3, 1, 0]);
    let lines: Vec<u32> = chunk.lines.iter().map(|l| l.0).collect();
    assert_eq!(lines, vec![3, 3, 3]);
}

#[test]
fn every_number_has_a_value_when_all_are_supplied() {
    for source in ["1", "1 + 2", "(1 2 3", "1 + + 2 3", "-(4 * 5) / 6 7 8", "9 @ 10", "", "1."] {
        let (_, _, messages) = compile_source(source);
        assert!(
            messages.iter().all(|m| !m.contains("Expect a value for the number.")),
            "{source}: {messages:?}"
        );
    }
}

#[test]
fn a_failed_compilation_reports_exactly_one_error() {
    for source in ["", "(", ")", "1 +", "1 2 3", "@ # $", "((1)", "* * *", "\"open", "1 + (2 * ) 3 )"] {
        let (chunk, success, messages) = compile_source(source);
        assert!(!success, "{source}");
        assert_eq!(messages.len(), 1, "{source}: {messages:?}");
        assert_eq!(chunk.code.len(), chunk.lines.len());
        assert_eq!(chunk.code.last(), Some(&0));
    }
    for source in ["1", "(1)", "-1", "1 + 2 - 3 * 4 / 5", "((((7))))"] {
        let (chunk, success, messages) = compile_source(source);
        assert!(success, "{source}");
        assert!(messages.is_empty());
        assert!(chunk.disassemble().is_ok());
    }
}

#[test]
fn unterminated_string_is_reported_through_the_parser() {
    let (_, success, messages) = compile_source("1 + \"abc");
    assert!(!success);
    assert_eq!(
        messages,
        vec!["[line 1] Error at 'Unterminated string': Scanner error.".to_string()]
    );
}
