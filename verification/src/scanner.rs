//! The scanner: turns source text into tokens, one at a time, on demand.

use vstd::prelude::*;
use vstd::slice::slice_subrange;
use vstd::string::StringSliceAdditionalSpecFns;
use crate::token::Kind;
use crate::token::Token;
use crate::token::TokenView;

verus! {

pub const TAB: u8 = 0x09;
pub const LINE_FEED: u8 = 0x0a;
pub const CARRIAGE_RETURN: u8 = 0x0d;
pub const SPACE: u8 = 0x20;
pub const BANG: u8 = 0x21;
pub const QUOTE: u8 = 0x22;
pub const LEFT_PAREN: u8 = 0x28;
pub const RIGHT_PAREN: u8 = 0x29;
pub const STAR: u8 = 0x2a;
pub const PLUS: u8 = 0x2b;
pub const COMMA: u8 = 0x2c;
pub const MINUS: u8 = 0x2d;
pub const DOT: u8 = 0x2e;
pub const SLASH: u8 = 0x2f;
pub const DIGIT_0: u8 = 0x30;
pub const DIGIT_9: u8 = 0x39;
pub const SEMICOLON: u8 = 0x3b;
pub const LESS: u8 = 0x3c;
pub const EQUAL: u8 = 0x3d;
pub const GREATER: u8 = 0x3e;
pub const UPPER_A: u8 = 0x41;
pub const UPPER_Z: u8 = 0x5a;
pub const UNDERSCORE: u8 = 0x5f;
pub const LOWER_A: u8 = 0x61;
pub const LOWER_Z: u8 = 0x7a;
pub const LEFT_BRACE: u8 = 0x7b;
pub const RIGHT_BRACE: u8 = 0x7d;

/// An ASCII decimal digit.
pub open spec fn is_digit(byte: u8) -> bool {
    DIGIT_0 <= byte <= DIGIT_9
}

/// An ASCII letter or an underscore: what an identifier may start with.
pub open spec fn is_alpha(byte: u8) -> bool {
    (LOWER_A <= byte <= LOWER_Z) || (UPPER_A <= byte <= UPPER_Z) || byte == UNDERSCORE
}

/// The number of line feeds among the first `pos` bytes of `source`.
pub open spec fn newlines(source: Seq<u8>, pos: int) -> nat
    decreases pos,
{
    if pos <= 0 || pos > source.len() {
        0
    } else if source[pos - 1] == LINE_FEED {
        newlines(source, pos - 1) + 1
    } else {
        newlines(source, pos - 1)
    }
}

/// The line, counted from 1, that the byte at `pos` stands on.
pub open spec fn line_at(source: Seq<u8>, pos: int) -> nat {
    1 + newlines(source, pos)
}

/// Where the next token starts when scanning resumes at `pos`: blanks, line
/// feeds and comments are passed over. A comment runs from `//` to the end
/// of its line; `in_comment` says that `pos` lies inside one.
pub open spec fn skip_blank(source: Seq<u8>, pos: int, in_comment: bool) -> int
    decreases source.len() - pos,
{
    if pos < 0 || pos >= source.len() {
        pos
    } else if in_comment {
        skip_blank(source, pos + 1, source[pos] != LINE_FEED)
    } else if source[pos] == SPACE || source[pos] == CARRIAGE_RETURN || source[pos] == TAB || source[pos]
        == LINE_FEED {
        skip_blank(source, pos + 1, false)
    } else if source[pos] == SLASH && pos + 1 < source.len() && source[pos + 1] == SLASH {
        skip_blank(source, pos + 2, true)
    } else {
        pos
    }
}

/// The end of the run of digits that starts at `pos`.
pub open spec fn digits_end(source: Seq<u8>, pos: int) -> int
    decreases source.len() - pos,
{
    if 0 <= pos < source.len() && is_digit(source[pos]) {
        digits_end(source, pos + 1)
    } else {
        pos
    }
}

/// The end of the number literal whose first digit stands before `pos`. A
/// dot belongs to the number only if a digit follows it.
pub open spec fn number_end(source: Seq<u8>, pos: int) -> int {
    let whole = digits_end(source, pos);
    if whole + 1 < source.len() && source[whole] == DOT && is_digit(source[whole + 1]) {
        digits_end(source, whole + 1)
    } else {
        whole
    }
}

/// The end of the run of letters, digits and underscores that starts at `pos`.
pub open spec fn identifier_end(source: Seq<u8>, pos: int) -> int
    decreases source.len() - pos,
{
    if 0 <= pos < source.len() && (is_alpha(source[pos]) || is_digit(source[pos])) {
        identifier_end(source, pos + 1)
    } else {
        pos
    }
}

/// The place of the first double quote at or after `pos`, or the length of
/// the source if there is none.
pub open spec fn quote_at(source: Seq<u8>, pos: int) -> int
    decreases source.len() - pos,
{
    if 0 <= pos < source.len() && source[pos] != QUOTE {
        quote_at(source, pos + 1)
    } else {
        pos
    }
}

/// The kind of a word: a keyword's own kind where the word is one of the
/// reserved words, `Identifier` otherwise.
pub open spec fn keyword_kind(lexeme: Seq<u8>) -> Kind {
    if lexeme == "and".spec_bytes() {
        Kind::And
    } else if lexeme == "class".spec_bytes() {
        Kind::Class
    } else if lexeme == "else".spec_bytes() {
        Kind::Else
    } else if lexeme == "if".spec_bytes() {
        Kind::If
    } else if lexeme == "nil".spec_bytes() {
        Kind::Nil
    } else if lexeme == "or".spec_bytes() {
        Kind::Or
    } else if lexeme == "print".spec_bytes() {
        Kind::Print
    } else if lexeme == "return".spec_bytes() {
        Kind::Return
    } else if lexeme == "super".spec_bytes() {
        Kind::Super
    } else if lexeme == "var".spec_bytes() {
        Kind::Var
    } else if lexeme == "while".spec_bytes() {
        Kind::While
    } else {
        Kind::Identifier
    }
}

/// The kind of a token that is one punctuation character.
pub open spec fn single_kind(byte: u8) -> Option<Kind> {
    if byte == LEFT_PAREN {
        Some(Kind::LeftParen)
    } else if byte == RIGHT_PAREN {
        Some(Kind::RightParen)
    } else if byte == LEFT_BRACE {
        Some(Kind::LeftBrace)
    } else if byte == RIGHT_BRACE {
        Some(Kind::RightBrace)
    } else if byte == SEMICOLON {
        Some(Kind::SemiColon)
    } else if byte == COMMA {
        Some(Kind::Comma)
    } else if byte == DOT {
        Some(Kind::Dot)
    } else if byte == MINUS {
        Some(Kind::Minus)
    } else if byte == PLUS {
        Some(Kind::Plus)
    } else if byte == STAR {
        Some(Kind::Star)
    } else if byte == SLASH {
        Some(Kind::Slash)
    } else {
        None
    }
}

/// The kind of an operator that may be followed by `=`: the two-character
/// kind where it is, the one-character kind where it is not.
pub open spec fn paired_kind(byte: u8, with_equal: bool) -> Option<Kind> {
    if byte == BANG {
        Some(if with_equal { Kind::BangEquals } else { Kind::Bang })
    } else if byte == EQUAL {
        Some(if with_equal { Kind::EqualEquals } else { Kind::Equal })
    } else if byte == LESS {
        Some(if with_equal { Kind::LessEqual } else { Kind::Less })
    } else if byte == GREATER {
        Some(if with_equal { Kind::GreaterEqual } else { Kind::Greater })
    } else {
        None
    }
}

/// The text of the error token for a string that is still open at the end
/// of the input.
pub open spec fn unterminated_string() -> Seq<u8> {
    "Unterminated string".spec_bytes()
}

/// The text of the error token for a character that starts no token.
pub open spec fn unexpected_character() -> Seq<u8> {
    "Unexpected character".spec_bytes()
}

/// One step of scanning: the token found, where it starts and where
/// scanning goes on after it.
pub struct Scan {
    pub token: TokenView,
    pub start: int,
    pub end: int,
}

/// The token of kind `kind` whose text is `source` from `start` to `end`.
pub open spec fn slice_scan(source: Seq<u8>, kind: Kind, start: int, end: int) -> Scan {
    Scan {
        token: TokenView {
            kind,
            lexeme: source.subrange(start, end),
            line: line_at(source, end) as u32,
        },
        start,
        end,
    }
}

/// The error token with the text `message` for `source` from `start` to `end`.
pub open spec fn error_scan(source: Seq<u8>, message: Seq<u8>, start: int, end: int) -> Scan {
    Scan {
        token: TokenView { kind: Kind::Error, lexeme: message, line: line_at(source, end) as u32 },
        start,
        end,
    }
}

/// The next token of `source` when scanning resumes at `pos`.
pub open spec fn scan_at(source: Seq<u8>, pos: int) -> Scan {
    let start = skip_blank(source, pos, false);
    if start < 0 || start >= source.len() {
        slice_scan(source, Kind::EOF, start, start)
    } else {
        let first = source[start];
        let with_equal = start + 1 < source.len() && source[start + 1] == EQUAL;
        if is_digit(first) {
            slice_scan(source, Kind::Number, start, number_end(source, start + 1))
        } else if is_alpha(first) {
            let end = identifier_end(source, start + 1);
            slice_scan(source, keyword_kind(source.subrange(start, end)), start, end)
        } else if single_kind(first) is Some {
            slice_scan(source, single_kind(first)->0, start, start + 1)
        } else if paired_kind(first, with_equal) is Some {
            slice_scan(
                source,
                paired_kind(first, with_equal)->0,
                start,
                if with_equal {
                    start + 2
                } else {
                    start + 1
                },
            )
        } else if first == QUOTE {
            let quote = quote_at(source, start + 1);
            if quote >= source.len() {
                error_scan(source, unterminated_string(), start, quote)
            } else {
                slice_scan(source, Kind::String, start, quote + 1)
            }
        } else {
            error_scan(source, unexpected_character(), start, start + 1)
        }
    }
}

/// No more line feeds stand before a place than bytes do.
pub proof fn lemma_newlines_bound(source: Seq<u8>, pos: int)
    ensures
        newlines(source, pos) <= pos || pos < 0,
    decreases pos,
{
    if 0 < pos <= source.len() {
        lemma_newlines_bound(source, pos - 1);
    }
}

/// Skipping blanks never moves backwards and never leaves the source.
pub proof fn lemma_skip_blank_bounds(source: Seq<u8>, pos: int, in_comment: bool)
    requires
        0 <= pos <= source.len(),
    ensures
        pos <= skip_blank(source, pos, in_comment) <= source.len(),
    decreases source.len() - pos,
{
    if pos < source.len() {
        if in_comment {
            lemma_skip_blank_bounds(source, pos + 1, source[pos] != LINE_FEED);
        } else if source[pos] == SPACE || source[pos] == CARRIAGE_RETURN || source[pos] == TAB
            || source[pos] == LINE_FEED {
            lemma_skip_blank_bounds(source, pos + 1, false);
        } else if source[pos] == SLASH && pos + 1 < source.len() && source[pos + 1] == SLASH {
            lemma_skip_blank_bounds(source, pos + 2, true);
        }
    }
}

/// A source scanner. It walks the text once, front to back, and hands out
/// one token per call.
#[derive(Debug)]
pub struct Scanner<'src> {
    source: &'src [u8],
    start: usize,
    current: usize,
    line: u32,
}

impl<'src> Scanner<'src> {
    /// The bytes of the text being scanned.
    pub closed spec fn source(&self) -> Seq<u8> {
        self.source@
    }

    /// Where the token handed out last starts.
    pub closed spec fn token_start(&self) -> int {
        self.start as int
    }

    /// Where scanning goes on: all bytes before this place are consumed.
    pub closed spec fn position(&self) -> int {
        self.current as int
    }

    /// The line counter.
    pub closed spec fn line(&self) -> u32 {
        self.line
    }

    /// The offsets lie inside the source, in order, and the line counter
    /// agrees with the line feeds consumed so far.
    pub closed spec fn well_formed(&self) -> bool {
        &&& self.start <= self.current <= self.source@.len()
        &&& self.source@.len() < u32::MAX
        &&& self.line == line_at(self.source@, self.current as int)
    }

    /// The offsets lie inside the source and lines can still be counted.
    spec fn in_bounds(&self) -> bool {
        &&& self.start <= self.current <= self.source@.len()
        &&& self.source@.len() < u32::MAX
    }

    /// What well-formedness says of the scanner's place and line.
    pub proof fn lemma_well_formed(&self)
        requires
            self.well_formed(),
        ensures
            0 <= self.token_start() <= self.position() <= self.source().len(),
            self.source().len() < u32::MAX,
            self.line() == line_at(self.source(), self.position()),
    {
    }

    /// A scanner at the start of `source_`, on line 1.
    pub fn new(source_: &'src str) -> (scanner: Scanner<'src>)
        requires
            source_.spec_bytes().len() < u32::MAX,
        ensures
            scanner.well_formed(),
            scanner.source() == source_.spec_bytes(),
            scanner.position() == 0,
            scanner.token_start() == 0,
            scanner.line() == 1,
    {
        Scanner { source: source_.as_bytes(), start: 0, current: 0, line: 1 }
    }

    /// Whether every byte has been consumed.
    fn is_at_end(&self) -> (at_end: bool)
        ensures
            at_end == (self.current >= self.source@.len()),
    {
        self.current >= self.source.len()
    }

    /// The next byte, without consuming it.
    fn peek(&self) -> (next: Option<u8>)
        ensures
            next == if self.current < self.source@.len() {
                Some(self.source@[self.current as int])
            } else {
                None
            },
    {
        if self.current < self.source.len() {
            Some(self.source[self.current])
        } else {
            None
        }
    }

    /// The byte after the next one, without consuming anything.
    fn peek_next(&self) -> (next: Option<u8>)
        ensures
            next == if self.current + 1 < self.source@.len() {
                Some(self.source@[self.current + 1])
            } else {
                None
            },
    {
        if self.current < self.source.len() && self.current + 1 < self.source.len() {
            Some(self.source[self.current + 1])
        } else {
            None
        }
    }

    /// Consumes the next byte and returns it.
    fn advance(&mut self) -> (byte: u8)
        requires
            old(self).in_bounds(),
            old(self).current < old(self).source@.len(),
        ensures
            final(self).in_bounds(),
            byte == old(self).source@[old(self).current as int],
            final(self).current == old(self).current + 1,
            final(self).source == old(self).source,
            final(self).start == old(self).start,
            final(self).line == old(self).line,
    {
        let b: u8 = self.source[self.current];
        self.current += 1;
        b
    }

    /// Consumes the next byte if it is `expect`, and says whether it did.
    fn match_char(&mut self, expect: u8) -> (matched: bool)
        requires
            old(self).in_bounds(),
        ensures
            final(self).in_bounds(),
            matched == (old(self).current < old(self).source@.len() && old(self).source@[old(
                self,
            ).current as int] == expect),
            final(self).current == if matched {
                old(self).current + 1
            } else {
                old(self).current as int
            },
            final(self).source == old(self).source,
            final(self).start == old(self).start,
            final(self).line == old(self).line,
    {
        if self.is_at_end() {
            false
        } else if expect == self.source[self.current] {
            self.current += 1;
            true
        } else {
            false
        }
    }

    /// A token of kind `kind` whose text is the source from `start` to
    /// `current`.
    fn make_token(&self, kind: Kind) -> (token: Token<'src>)
        requires
            self.in_bounds(),
        ensures
            token@ == (TokenView {
                kind,
                lexeme: self.source@.subrange(self.start as int, self.current as int),
                line: self.line,
            }),
    {
        Token { kind, lexeme: slice_subrange(self.source, self.start, self.current), line: self.line }
    }

    /// An error token that carries `msg` in place of source text.
    fn error_token(&self, msg: &'static str) -> (token: Token<'src>)
        ensures
            token@ == (TokenView { kind: Kind::Error, lexeme: msg.spec_bytes(), line: self.line }),
    {
        Token { kind: Kind::Error, lexeme: msg.as_bytes(), line: self.line }
    }
}

/// Whether two byte strings hold the same bytes.
fn bytes_equal(left: &[u8], right: &[u8]) -> (same: bool)
    ensures
        same == (left@ == right@),
{
    if left.len() != right.len() {
        return false;
    }
    let mut i: usize = 0;
    while i < left.len()
        invariant
            left@.len() == right@.len(),
            i <= left@.len(),
            forall|k: int| 0 <= k < i ==> left@[k] == right@[k],
        decreases left.len() - i,
    {
        if left[i] != right[i] {
            return false;
        }
        i += 1;
    }
    assert(left@ =~= right@);
    true
}

/// Whether a byte is an ASCII decimal digit.
fn is_digit_byte(byte: u8) -> (digit: bool)
    ensures
        digit == is_digit(byte),
{
    DIGIT_0 <= byte && byte <= DIGIT_9
}

impl<'src> Scanner<'src> {
    /// Whether a byte is an ASCII letter or an underscore.
    fn is_alpha(ch: u8) -> (alpha: bool)
        ensures
            alpha == is_alpha(ch),
    {
        (LOWER_A <= ch && ch <= LOWER_Z) || (UPPER_A <= ch && ch <= UPPER_Z) || ch == UNDERSCORE
    }

    /// Consumes blanks, line feeds and comments up to the next token.
    fn skip_whitespace(&mut self)
        requires
            old(self).well_formed(),
        ensures
            final(self).well_formed(),
            final(self).current == skip_blank(old(self).source@, old(self).current as int, false),
            final(self).source == old(self).source,
            final(self).start == old(self).start,
    {
        let ghost origin = self.current as int;
        loop
            invariant
                self.well_formed(),
                self.source == old(self).source,
                self.start == old(self).start,
                origin == old(self).current,
                skip_blank(self.source@, origin, false) == skip_blank(
                    self.source@,
                    self.current as int,
                    false,
                ),
            ensures
                self.well_formed(),
                self.source == old(self).source,
                self.start == old(self).start,
                self.current == skip_blank(self.source@, origin, false),
            decreases self.source@.len() - self.current,
        {
            let ghost before = self.current;
            let ch: Option<u8> = self.peek();
            match ch {
                None => {
                    break ;
                },
                Some(c) => {
                    if c == SPACE || c == CARRIAGE_RETURN || c == TAB {
                        let _ = self.advance();
                    } else if c == LINE_FEED {
                        proof {
                            lemma_newlines_bound(self.source@, self.current as int);
                        }
                        let _ = self.advance();
                        self.line += 1;
                    } else if c == SLASH {
                        let after: Option<u8> = self.peek_next();
                        if after == Some(SLASH) {
                            let _ = self.advance();
                            assert(self.well_formed());
                            let _ = self.advance();
                            assert(self.well_formed());
                            while !self.is_at_end() && self.source[self.current] != LINE_FEED
                                invariant
                                    self.well_formed(),
                                    self.source == old(self).source,
                                    self.start == old(self).start,
                                    self.current > before,
                                    skip_blank(self.source@, origin, false) == skip_blank(
                                        self.source@,
                                        self.current as int,
                                        true,
                                    ),
                                decreases self.source@.len() - self.current,
                            {
                                let _ = self.advance();
                            }
                            if self.is_at_end() {
                                break ;
                            }
                        } else {
                            break ;
                        }
                    } else {
                        break ;
                    }
                },
            }
        }
    }
}

/// Where skipping stops short of the end, a token starts: the byte there is
/// no blank and no line feed, and no comment opens there.
pub proof fn lemma_skip_blank_stops(source: Seq<u8>, pos: int, in_comment: bool)
    requires
        0 <= pos <= source.len(),
    ensures
        ({
            let stop = skip_blank(source, pos, in_comment);
            stop < source.len() ==> {
                &&& source[stop] != SPACE
                &&& source[stop] != CARRIAGE_RETURN
                &&& source[stop] != TAB
                &&& source[stop] != LINE_FEED
                &&& !(source[stop] == SLASH && stop + 1 < source.len() && source[stop + 1]
                    == SLASH)
            }
        }),
    decreases source.len() - pos,
{
    if pos < source.len() {
        if in_comment {
            lemma_skip_blank_stops(source, pos + 1, source[pos] != LINE_FEED);
        } else if source[pos] == SPACE || source[pos] == CARRIAGE_RETURN || source[pos] == TAB
            || source[pos] == LINE_FEED {
            lemma_skip_blank_stops(source, pos + 1, false);
        } else if source[pos] == SLASH && pos + 1 < source.len() && source[pos + 1] == SLASH {
            lemma_skip_blank_bounds(source, pos + 2, true);
            lemma_skip_blank_stops(source, pos + 2, true);
        }
    }
}

impl<'src> Scanner<'src> {
    /// Consumes a run of digits.
    fn digits(&mut self)
        requires
            old(self).well_formed(),
        ensures
            final(self).well_formed(),
            final(self).current == digits_end(old(self).source@, old(self).current as int),
            final(self).source == old(self).source,
            final(self).start == old(self).start,
    {
        while !self.is_at_end() && is_digit_byte(self.source[self.current])
            invariant
                self.well_formed(),
                self.source == old(self).source,
                self.start == old(self).start,
                old(self).current <= self.current,
                digits_end(self.source@, old(self).current as int) == digits_end(
                    self.source@,
                    self.current as int,
                ),
            decreases self.source@.len() - self.current,
        {
            let _ = self.advance();
        }
    }

    /// Scans the rest of a number literal whose first digit is consumed.
    fn number(&mut self) -> (token: Token<'src>)
        requires
            old(self).well_formed(),
        ensures
            final(self).well_formed(),
            final(self).current == number_end(old(self).source@, old(self).current as int),
            final(self).source == old(self).source,
            final(self).start == old(self).start,
            token@ == (TokenView {
                kind: Kind::Number,
                lexeme: final(self).source@.subrange(
                    final(self).start as int,
                    final(self).current as int,
                ),
                line: final(self).line,
            }),
    {
        self.digits();
        if self.peek() == Some(DOT) {
            let after: Option<u8> = self.peek_next();
            let fraction: bool = match after {
                Some(c) => is_digit_byte(c),
                None => false,
            };
            if fraction {
                let _ = self.advance();
                assert(self.well_formed());
                self.digits();
            }
        }
        self.make_token(Kind::Number)
    }

    /// `kind` if the text of the current token is `word`, `Identifier` if
    /// it is not.
    fn check_keyword(&self, word: &'static str, kind: Kind) -> (found: Kind)
        requires
            self.in_bounds(),
        ensures
            found == if self.source@.subrange(self.start as int, self.current as int)
                == word.spec_bytes() {
                kind
            } else {
                Kind::Identifier
            },
    {
        if bytes_equal(slice_subrange(self.source, self.start, self.current), word.as_bytes()) {
            kind
        } else {
            Kind::Identifier
        }
    }

    /// The kind of the word that is the current token's text.
    fn identifier_type(&mut self) -> (kind: Kind)
        requires
            old(self).in_bounds(),
        ensures
            *final(self) == *old(self),
            kind == keyword_kind(
                old(self).source@.subrange(old(self).start as int, old(self).current as int),
            ),
    {
        let mut kind: Kind = self.check_keyword("and", Kind::And);
        if kind == Kind::Identifier {
            kind = self.check_keyword("class", Kind::Class);
        }
        if kind == Kind::Identifier {
            kind = self.check_keyword("else", Kind::Else);
        }
        if kind == Kind::Identifier {
            kind = self.check_keyword("if", Kind::If);
        }
        if kind == Kind::Identifier {
            kind = self.check_keyword("nil", Kind::Nil);
        }
        if kind == Kind::Identifier {
            kind = self.check_keyword("or", Kind::Or);
        }
        if kind == Kind::Identifier {
            kind = self.check_keyword("print", Kind::Print);
        }
        if kind == Kind::Identifier {
            kind = self.check_keyword("return", Kind::Return);
        }
        if kind == Kind::Identifier {
            kind = self.check_keyword("super", Kind::Super);
        }
        if kind == Kind::Identifier {
            kind = self.check_keyword("var", Kind::Var);
        }
        if kind == Kind::Identifier {
            kind = self.check_keyword("while", Kind::While);
        }
        kind
    }

    /// Scans the rest of a word whose first character is consumed.
    fn identifier(&mut self) -> (token: Token<'src>)
        requires
            old(self).well_formed(),
        ensures
            final(self).well_formed(),
            final(self).current == identifier_end(old(self).source@, old(self).current as int),
            final(self).source == old(self).source,
            final(self).start == old(self).start,
            token@ == (TokenView {
                kind: keyword_kind(
                    final(self).source@.subrange(
                        final(self).start as int,
                        final(self).current as int,
                    ),
                ),
                lexeme: final(self).source@.subrange(
                    final(self).start as int,
                    final(self).current as int,
                ),
                line: final(self).line,
            }),
    {
        while !self.is_at_end() && (Self::is_alpha(self.source[self.current]) || is_digit_byte(
            self.source[self.current],
        ))
            invariant
                self.well_formed(),
                self.source == old(self).source,
                self.start == old(self).start,
                old(self).current <= self.current,
                identifier_end(self.source@, old(self).current as int) == identifier_end(
                    self.source@,
                    self.current as int,
                ),
            decreases self.source@.len() - self.current,
        {
            let _ = self.advance();
        }
        let kind: Kind = self.identifier_type();
        self.make_token(kind)
    }

    /// Scans the rest of a string literal whose opening quote is consumed.
    /// A string that runs to the end of the input is an error token.
    fn string(&mut self) -> (token: Token<'src>)
        requires
            old(self).well_formed(),
        ensures
            final(self).well_formed(),
            final(self).source == old(self).source,
            final(self).start == old(self).start,
            ({
                let quote = quote_at(old(self).source@, old(self).current as int);
                if quote >= old(self).source@.len() {
                    &&& final(self).current == quote
                    &&& token@ == (TokenView {
                        kind: Kind::Error,
                        lexeme: unterminated_string(),
                        line: final(self).line,
                    })
                } else {
                    &&& final(self).current == quote + 1
                    &&& token@ == (TokenView {
                        kind: Kind::String,
                        lexeme: final(self).source@.subrange(
                            final(self).start as int,
                            final(self).current as int,
                        ),
                        line: final(self).line,
                    })
                }
            }),
    {
        while !self.is_at_end() && self.source[self.current] != QUOTE
            invariant
                self.well_formed(),
                self.source == old(self).source,
                self.start == old(self).start,
                old(self).current <= self.current,
                quote_at(self.source@, old(self).current as int) == quote_at(
                    self.source@,
                    self.current as int,
                ),
            decreases self.source@.len() - self.current,
        {
            proof {
                lemma_newlines_bound(self.source@, self.current as int);
            }
            let byte: u8 = self.advance();
            if byte == LINE_FEED {
                self.line += 1;
            }
        }
        if self.is_at_end() {
            return self.error_token("Unterminated string");
        }
        let _ = self.advance();
        self.make_token(Kind::String)
    }

    /// Scans and returns the next token. At the end of the input it returns
    /// an `EOF` token, and goes on doing so.
    pub fn scan_token(&mut self) -> (token: Token<'src>)
        requires
            old(self).well_formed(),
        ensures
            final(self).well_formed(),
            final(self).source() == old(self).source(),
            token@ == scan_at(old(self).source(), old(self).position()).token,
            final(self).token_start() == scan_at(old(self).source(), old(self).position()).start,
            final(self).position() == scan_at(old(self).source(), old(self).position()).end,
    {
        proof {
            lemma_skip_blank_bounds(self.source@, self.current as int, false);
            lemma_skip_blank_stops(self.source@, self.current as int, false);
        }
        self.skip_whitespace();
        self.start = self.current;
        if self.is_at_end() {
            return self.make_token(Kind::EOF);
        }
        let ch: u8 = self.advance();
        assert(self.well_formed());
        if is_digit_byte(ch) {
            return self.number();
        }
        if Self::is_alpha(ch) {
            return self.identifier();
        }
        if ch == LEFT_PAREN {
            self.make_token(Kind::LeftParen)
        } else if ch == RIGHT_PAREN {
            self.make_token(Kind::RightParen)
        } else if ch == LEFT_BRACE {
            self.make_token(Kind::LeftBrace)
        } else if ch == RIGHT_BRACE {
            self.make_token(Kind::RightBrace)
        } else if ch == SEMICOLON {
            self.make_token(Kind::SemiColon)
        } else if ch == COMMA {
            self.make_token(Kind::Comma)
        } else if ch == DOT {
            self.make_token(Kind::Dot)
        } else if ch == MINUS {
            self.make_token(Kind::Minus)
        } else if ch == PLUS {
            self.make_token(Kind::Plus)
        } else if ch == STAR {
            self.make_token(Kind::Star)
        } else if ch == SLASH {
            self.make_token(Kind::Slash)
        } else if ch == BANG {
            if self.match_char(EQUAL) {
                self.make_token(Kind::BangEquals)
            } else {
                self.make_token(Kind::Bang)
            }
        } else if ch == EQUAL {
            if self.match_char(EQUAL) {
                self.make_token(Kind::EqualEquals)
            } else {
                self.make_token(Kind::Equal)
            }
        } else if ch == LESS {
            if self.match_char(EQUAL) {
                self.make_token(Kind::LessEqual)
            } else {
                self.make_token(Kind::Less)
            }
        } else if ch == GREATER {
            if self.match_char(EQUAL) {
                self.make_token(Kind::GreaterEqual)
            } else {
                self.make_token(Kind::Greater)
            }
        } else if ch == QUOTE {
            self.string()
        } else {
            self.error_token("Unexpected character")
        }
    }
}

/// A run of digits ends at or after its start, inside the source.
pub proof fn lemma_digits_end_bounds(source: Seq<u8>, pos: int)
    requires
        0 <= pos <= source.len(),
    ensures
        pos <= digits_end(source, pos) <= source.len(),
    decreases source.len() - pos,
{
    if pos < source.len() && is_digit(source[pos]) {
        lemma_digits_end_bounds(source, pos + 1);
    }
}

/// A word ends at or after its start, inside the source.
pub proof fn lemma_identifier_end_bounds(source: Seq<u8>, pos: int)
    requires
        0 <= pos <= source.len(),
    ensures
        pos <= identifier_end(source, pos) <= source.len(),
    decreases source.len() - pos,
{
    if pos < source.len() && (is_alpha(source[pos]) || is_digit(source[pos])) {
        lemma_identifier_end_bounds(source, pos + 1);
    }
}

/// The closing quote is found at or after the start of the search, or the
/// search ends at the end of the source.
pub proof fn lemma_quote_at_bounds(source: Seq<u8>, pos: int)
    requires
        0 <= pos <= source.len(),
    ensures
        pos <= quote_at(source, pos) <= source.len(),
    decreases source.len() - pos,
{
    if pos < source.len() && source[pos] != QUOTE {
        lemma_quote_at_bounds(source, pos + 1);
    }
}

/// Scanning makes progress: a token starts at or after the place where
/// scanning resumed and ends inside the source; every token but `EOF`
/// holds at least one byte; and `EOF` comes exactly when nothing but blanks
/// and comments is left.
pub proof fn lemma_scan_progress(source: Seq<u8>, pos: int)
    ensures
        ({
            let scan = scan_at(source, pos);
            &&& pos <= scan.start <= scan.end
            &&& 0 <= pos <= source.len() ==> scan.end <= source.len()
            &&& scan.token.kind != Kind::EOF ==> 0 <= scan.start < scan.end <= source.len()
            &&& scan.token.kind == Kind::EOF ==> scan.end == scan.start && (0 <= pos
                <= source.len() ==> scan.start == source.len())
        }),
{
    let start = skip_blank(source, pos, false);
    if 0 <= pos <= source.len() {
        lemma_skip_blank_bounds(source, pos, false);
    }
    if 0 <= start < source.len() {
        lemma_digits_end_bounds(source, start + 1);
        lemma_identifier_end_bounds(source, start + 1);
        lemma_quote_at_bounds(source, start + 1);
        let whole = digits_end(source, start + 1);
        if whole + 1 < source.len() {
            lemma_digits_end_bounds(source, whole + 1);
        }
    }
}

/// The texts of the number literals of `source` from `pos` on, in the
/// order they occur.
pub open spec fn number_lexemes_from(source: Seq<u8>, pos: int) -> Seq<Seq<u8>>
    decreases source.len() - pos,
{
    let scan = scan_at(source, pos);
    if scan.token.kind == Kind::EOF {
        Seq::empty()
    } else {
        proof {
            lemma_scan_progress(source, pos);
        }
        let rest = number_lexemes_from(source, scan.end);
        if scan.token.kind == Kind::Number {
            seq![scan.token.lexeme] + rest
        } else {
            rest
        }
    }
}

/// The byte strings of a list, each by its view.
pub open spec fn lexemes_view(list: Seq<&[u8]>) -> Seq<Seq<u8>> {
    list.map_values(|lexeme: &[u8]| lexeme@)
}

/// Scans `source` to its end and returns the texts of its number literals,
/// in the order they occur.
pub fn number_lexemes<'src>(source: &'src str) -> (lexemes: Vec<&'src [u8]>)
    requires
        source.spec_bytes().len() < u32::MAX,
    ensures
        lexemes_view(lexemes@) == number_lexemes_from(source.spec_bytes(), 0),
{
    let mut scanner: Scanner<'src> = Scanner::new(source);
    let mut lexemes: Vec<&'src [u8]> = Vec::new();
    assert(lexemes_view(lexemes@) =~= Seq::empty());
    loop
        invariant_except_break
            number_lexemes_from(source.spec_bytes(), 0) == lexemes_view(lexemes@)
                + number_lexemes_from(scanner.source(), scanner.position()),
        invariant
            scanner.well_formed(),
            scanner.source() == source.spec_bytes(),
        ensures
            lexemes_view(lexemes@) == number_lexemes_from(source.spec_bytes(), 0),
        decreases scanner.source().len() - scanner.position(),
    {
        proof {
            scanner.lemma_well_formed();
            lemma_scan_progress(scanner.source(), scanner.position());
        }
        let ghost before = lexemes_view(lexemes@);
        let ghost rest = number_lexemes_from(scanner.source(), scanner.position());
        let token: Token<'src> = scanner.scan_token();
        if token.kind == Kind::EOF {
            assert(before + rest =~= before);
            break ;
        }
        if token.kind == Kind::Number {
            lexemes.push(token.lexeme);
            assert(lexemes_view(lexemes@) =~= before.push(token.lexeme@));
            assert(before.push(token.lexeme@) + number_lexemes_from(
                scanner.source(),
                scanner.position(),
            ) =~= before + rest);
        }
    }
    lexemes
}

} // verus!
