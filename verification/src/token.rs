//! Tokens: the lexical categories of the language and the scanner's output.

use vstd::prelude::*;

verus! {

/// The lexical category of a token.
#[derive(Debug, Copy, Clone, PartialEq, Eq, Structural)]
pub enum Kind {
    // Single-character tokens.
    LeftParen,
    RightParen,
    LeftBrace,
    RightBrace,
    Comma,
    Dot,
    Minus,
    Plus,
    SemiColon,
    Slash,
    Star,
    // One- or two-character tokens.
    Bang,
    BangEquals,
    Equal,
    EqualEquals,
    Greater,
    GreaterEqual,
    Less,
    LessEqual,
    // Literals.
    Identifier,
    String,
    Number,
    // Keywords.
    And,
    Class,
    Else,
    False,
    For,
    Fun,
    If,
    Nil,
    Or,
    Print,
    Return,
    Super,
    This,
    True,
    Var,
    While,
    // A scanning error, and the end of the input.
    Error,
    EOF,
}

/// A token: its kind, its text and the line it ends on. The text is a slice
/// of the source, except for an error token, whose text is a fixed message.
#[derive(Debug, Clone, Copy)]
pub struct Token<'src> {
    pub kind: Kind,
    pub lexeme: &'src [u8],
    pub line: u32,
}

/// What a token holds, with its text as a sequence of bytes.
pub struct TokenView {
    pub kind: Kind,
    pub lexeme: Seq<u8>,
    pub line: u32,
}

impl<'src> View for Token<'src> {
    type V = TokenView;

    open spec fn view(&self) -> TokenView {
        TokenView { kind: self.kind, lexeme: self.lexeme@, line: self.line }
    }
}

/// The token that stands in a parser before the first one is read.
pub open spec fn placeholder_token() -> TokenView {
    TokenView { kind: Kind::False, lexeme: Seq::empty(), line: u32::MAX }
}

impl Default for Token<'static> {
    /// The token that stands in a parser before the first one is read.
    fn default() -> (token: Token<'static>)
        ensures
            token@ == placeholder_token(),
    {
        let empty: &'static [u8] = "".as_bytes();
        proof {
            reveal_strlit("");
            vstd::string::is_ascii_spec_bytes("");
            assert(empty@ =~= Seq::empty());
        }
        Token { kind: Kind::False, lexeme: empty, line: u32::MAX }
    }
}

} // verus!
