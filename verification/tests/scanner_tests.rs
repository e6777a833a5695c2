use rlox::scanner::{number_lexemes, Scanner};
use rlox::token::{Kind, Token};

fn scan_all(source: &str) -> Vec<(Kind, String, u32)> {
    let mut scanner = Scanner::new(source);
    let mut tokens = Vec::new();
    loop {
        let token = scanner.scan_token();
        tokens.push((token.kind, String::from_utf8_lossy(token.lexeme).into_owned(), token.line));
        if token.kind == Kind::EOF {
            return tokens;
        }
    }
}

fn kinds(source: &str) -> Vec<Kind> {
    scan_all(source).into_iter().map(|t| t.0).collect()
}

#[test]
fn empty_source_gives_eof() {
    assert_eq!(scan_all(""), vec![(Kind::EOF, String::new(), 1)]);
}

#[test]
fn eof_is_given_again_and_again() {
    let mut scanner = Scanner::new("  ");
    assert_eq!(scanner.scan_token().kind, Kind::EOF);
    assert_eq!(scanner.scan_token().kind, Kind::EOF);
    let token = scanner.scan_token();
    assert_eq!(token.kind, Kind::EOF);
    assert!(token.lexeme.is_empty());
}

#[test]
fn single_character_tokens() {
    assert_eq!(
        kinds("(){},.-+;*/"),
        vec![
            Kind::LeftParen,
            Kind::RightParen,
            Kind::LeftBrace,
            Kind::RightBrace,
            Kind::Comma,
            Kind::Dot,
            Kind::Minus,
            Kind::Plus,
            Kind::SemiColon,
            Kind::Star,
            Kind::Slash,
            Kind::EOF
        ]
    );
}

#[test]
fn one_or_two_character_operators() {
    assert_eq!(
        kinds("! != = == < <= > >="),
        vec![
            Kind::Bang,
            Kind::BangEquals,
            Kind::Equal,
            Kind::EqualEquals,
            Kind::Less,
            Kind::LessEqual,
            Kind::Greater,
            Kind::GreaterEqual,
            Kind::EOF
        ]
    );
    assert_eq!(
        scan_all("!=="),
        vec![
            (Kind::BangEquals, "!=".to_string(), 1),
            (Kind::Equal, "=".to_string(), 1),
            (Kind::EOF, String::new(), 1)
        ]
    );
    assert_eq!(kinds("!"), vec![Kind::Bang, Kind::EOF]);
}

#[test]
fn numbers_with_and_without_fraction() {
    assert_eq!(
        scan_all("12 3.25 7."),
        vec![
            (Kind::Number, "12".to_string(), 1),
            (Kind::Number, "3.25".to_string(), 1),
            (Kind::Number, "7".to_string(), 1),
            (Kind::Dot, ".".to_string(), 1),
            (Kind::EOF, String::new(), 1)
        ]
    );
}

#[test]
fn a_dot_before_a_letter_is_not_part_of_a_number() {
    assert_eq!(
        scan_all("1.x"),
        vec![
            (Kind::Number, "1".to_string(), 1),
            (Kind::Dot, ".".to_string(), 1),
            (Kind::Identifier, "x".to_string(), 1),
            (Kind::EOF, String::new(), 1)
        ]
    );
    assert_eq!(kinds("1.2.3"), vec![Kind::Number, Kind::Dot, Kind::Number, Kind::EOF]);
}

#[test]
fn keywords_and_identifiers() {
    assert_eq!(
        kinds("and class else if nil or print return super var while"),
        vec![
            Kind::And,
            Kind::Class,
            Kind::Else,
            Kind::If,
            Kind::Nil,
            Kind::Or,
            Kind::Print,
            Kind::Return,
            Kind::Super,
            Kind::Var,
            Kind::While,
            Kind::EOF
        ]
    );
    assert_eq!(
        scan_all("Or orchid _x9 andy"),
        vec![
            (Kind::Identifier, "Or".to_string(), 1),
            (Kind::Identifier, "orchid".to_string(), 1),
            (Kind::Identifier, "_x9".to_string(), 1),
            (Kind::Identifier, "andy".to_string(), 1),
            (Kind::EOF, String::new(), 1)
        ]
    );
}

#[test]
fn strings_keep_their_quotes_and_count_lines() {
    assert_eq!(
        scan_all("\"ab\ncd\" x"),
        vec![
            (Kind::String, "\"ab\ncd\"".to_string(), 2),
            (Kind::Identifier, "x".to_string(), 2),
            (Kind::EOF, String::new(), 2)
        ]
    );
    assert_eq!(scan_all("\"\"")[0], (Kind::String, "\"\"".to_string(), 1));
}

#[test]
fn unterminated_string_is_an_error_token() {
    assert_eq!(
        scan_all("\"abc\nd"),
        vec![
            (Kind::Error, "Unterminated string".to_string(), 2),
            (Kind::EOF, String::new(), 2)
        ]
    );
}

#[test]
fn unexpected_character_is_an_error_token_and_scanning_goes_on() {
    assert_eq!(
        scan_all("1 @ 2"),
        vec![
            (Kind::Number, "1".to_string(), 1),
            (Kind::Error, "Unexpected character".to_string(), 1),
            (Kind::Number, "2".to_string(), 1),
            (Kind::EOF, String::new(), 1)
        ]
    );
}

#[test]
fn bytes_outside_ascii_are_unexpected() {
    let tokens = scan_all("é");
    assert_eq!(tokens.len(), 3);
    assert_eq!(tokens[0].0, Kind::Error);
    assert_eq!(tokens[1].0, Kind::Error);
    assert_eq!(tokens[2].0, Kind::EOF);
}

#[test]
fn whitespace_and_comments_are_skipped() {
    assert_eq!(
        scan_all(" \t\r\n// a comment + 1\n  7 // trailing\n/ // end"),
        vec![
            (Kind::Number, "7".to_string(), 3),
            (Kind::Slash, "/".to_string(), 4),
            (Kind::EOF, String::new(), 4)
        ]
    );
    assert_eq!(kinds("// only a comment"), vec![Kind::EOF]);
    assert_eq!(kinds("1 / 2"), vec![Kind::Number, Kind::Slash, Kind::Number, Kind::EOF]);
}

#[test]
fn lines_are_counted_from_one() {
    assert_eq!(
        scan_all("1\n\n2\n"),
        vec![
            (Kind::Number, "1".to_string(), 1),
            (Kind::Number, "2".to_string(), 3),
            (Kind::EOF, String::new(), 4)
        ]
    );
}

#[test]
fn default_token() {
    let token: Token<'static> = Token::default();
    assert_eq!(token.kind, Kind::False);
    assert!(token.lexeme.is_empty());
    assert_eq!(token.line, u32::MAX);
}

#[test]
fn number_lexemes_in_order() {
    let lexemes = number_lexemes("1 + (2.5 * x) - 30 // 4\n\"5\" 6.");
    let texts: Vec<&str> = lexemes.iter().map(|l| std::str::from_utf8(l).unwrap()).collect();
    assert_eq!(texts, vec!["1", "2.5", "30", "6"]);
    assert!(number_lexemes("a + b").is_empty());
}
