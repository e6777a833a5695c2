//! The parser's token window and its error reporting.

use vstd::prelude::*;
use crate::chunk::Chunk;
use crate::scanner::lemma_scan_progress;
use crate::scanner::scan_at;
use crate::scanner::Scanner;
use crate::token::placeholder_token;
use crate::token::Kind;
use crate::token::Token;
use crate::token::TokenView;

verus! {

/// Where in the source an error was found.
#[derive(Debug, Clone, Copy)]
pub enum Location<'src> {
    /// At the end of the input.
    AtEnd,
    /// At a token with this text.
    At(&'src [u8]),
}

/// One reported error: the line, the place and what was expected there.
#[derive(Debug, Clone, Copy)]
pub struct Diagnostic<'src> {
    pub line: u32,
    pub location: Location<'src>,
    pub message: &'static str,
}

/// What a location holds, with the token's text as a sequence of bytes.
pub enum LocationView {
    AtEnd,
    At(Seq<u8>),
}

/// What a diagnostic holds, with its texts as sequences.
pub struct DiagnosticView {
    pub line: u32,
    pub location: LocationView,
    pub message: Seq<char>,
}

impl<'src> View for Location<'src> {
    type V = LocationView;

    open spec fn view(&self) -> LocationView {
        match *self {
            Location::AtEnd => LocationView::AtEnd,
            Location::At(lexeme) => LocationView::At(lexeme@),
        }
    }
}

impl<'src> View for Diagnostic<'src> {
    type V = DiagnosticView;

    open spec fn view(&self) -> DiagnosticView {
        DiagnosticView { line: self.line, location: self.location@, message: self.message@ }
    }
}

/// The diagnostics of a list, each by its view.
pub open spec fn diagnostics_view(list: Seq<Diagnostic>) -> Seq<DiagnosticView> {
    list.map_values(|d: Diagnostic| d@)
}

/// The state of a parser: the source and how far it has been scanned, the
/// token window, the two error flags and the errors reported so far.
pub struct ParserView {
    pub source: Seq<u8>,
    pub position: int,
    pub current: TokenView,
    pub previous: TokenView,
    pub had_error: bool,
    pub panic_mode: bool,
    pub diagnostics: Seq<DiagnosticView>,
}

/// The place that an error at `token` is reported at.
pub open spec fn location_of(token: TokenView) -> LocationView {
    if token.kind == Kind::EOF {
        LocationView::AtEnd
    } else {
        LocationView::At(token.lexeme)
    }
}

/// The parser after an error at `token` has been reported. In panic mode
/// nothing changes; otherwise the error is recorded, panic mode begins and
/// the compilation counts as failed from here on.
pub open spec fn reported(parser: ParserView, token: TokenView, message: Seq<char>) -> ParserView {
    if parser.panic_mode {
        parser
    } else {
        ParserView {
            had_error: true,
            panic_mode: true,
            diagnostics: parser.diagnostics.push(
                DiagnosticView { line: token.line, location: location_of(token), message },
            ),
            ..parser
        }
    }
}

/// The message reported for an error token.
pub open spec fn scanner_error() -> Seq<char> {
    "Scanner error."@
}

/// The parser after the next token that is no error token has become its
/// current one. Each error token met on the way is reported and dropped.
pub open spec fn next_valid(parser: ParserView) -> ParserView
    decreases parser.source.len() - parser.position,
{
    let scan = scan_at(parser.source, parser.position);
    let moved = ParserView { current: scan.token, position: scan.end, ..parser };
    if scan.token.kind == Kind::Error {
        proof {
            lemma_scan_progress(parser.source, parser.position);
        }
        next_valid(reported(moved, scan.token, scanner_error()))
    } else {
        moved
    }
}

/// The parser after one step forward: the current token becomes the
/// previous one, and the next valid token the current one.
pub open spec fn advanced(parser: ParserView) -> ParserView {
    next_valid(ParserView { previous: parser.current, ..parser })
}

/// The parser after a token of kind `kind` was required: one step forward
/// if the current token is of that kind, an error at it if not.
pub open spec fn consumed(parser: ParserView, kind: Kind, message: Seq<char>) -> ParserView {
    if parser.current.kind == kind {
        advanced(parser)
    } else {
        reported(parser, parser.current, message)
    }
}

/// How much is left to parse: the bytes not yet scanned, and one more while
/// the current token is not the end of the input.
pub open spec fn remaining(parser: ParserView) -> nat {
    let unread: nat = if parser.position < parser.source.len() {
        (parser.source.len() - parser.position) as nat
    } else {
        0
    };
    if parser.current.kind == Kind::EOF {
        unread
    } else {
        unread + 1
    }
}

/// Looking for the next valid token keeps the source and the previous
/// token, never moves backwards, ends on a token that is no error token,
/// and leaves less to scan unless it ends on `EOF`.
pub proof fn lemma_next_valid(parser: ParserView)
    ensures
        next_valid(parser).source == parser.source,
        next_valid(parser).previous == parser.previous,
        next_valid(parser).position >= parser.position,
        0 <= parser.position <= parser.source.len() ==> next_valid(parser).position
            <= parser.source.len(),
        next_valid(parser).current.kind != Kind::Error,
        next_valid(parser).current.kind != Kind::EOF ==> 0 <= parser.position < next_valid(
            parser,
        ).position <= parser.source.len(),
        parser.had_error ==> next_valid(parser).had_error,
    decreases parser.source.len() - parser.position,
{
    let scan = scan_at(parser.source, parser.position);
    let moved = ParserView { current: scan.token, position: scan.end, ..parser };
    lemma_scan_progress(parser.source, parser.position);
    if scan.token.kind == Kind::Error {
        lemma_next_valid(reported(moved, scan.token, scanner_error()));
    }
}

/// A step forward makes the current token the previous one and leaves no
/// more to parse than before; it leaves less unless the parser already
/// stood at the end of the input.
pub proof fn lemma_advanced(parser: ParserView)
    ensures
        advanced(parser).source == parser.source,
        advanced(parser).previous == parser.current,
        advanced(parser).position >= parser.position,
        0 <= parser.position <= parser.source.len() ==> advanced(parser).position
            <= parser.source.len(),
        advanced(parser).current.kind != Kind::Error,
        remaining(advanced(parser)) <= remaining(parser),
        parser.current.kind != Kind::EOF ==> remaining(advanced(parser)) < remaining(parser),
        parser.had_error ==> advanced(parser).had_error,
{
    lemma_next_valid(ParserView { previous: parser.current, ..parser });
}

/// Requiring a token leaves no more to parse than before.
pub proof fn lemma_consumed(parser: ParserView, kind: Kind, message: Seq<char>)
    ensures
        consumed(parser, kind, message).source == parser.source,
        consumed(parser, kind, message).position >= parser.position,
        0 <= parser.position <= parser.source.len() ==> consumed(parser, kind, message).position
            <= parser.source.len(),
        remaining(consumed(parser, kind, message)) <= remaining(parser),
        parser.had_error ==> consumed(parser, kind, message).had_error,
{
    lemma_advanced(parser);
}

/// The parser's working state: the scanner it pulls tokens from, the
/// current and the previous token, and the errors met so far.
#[derive(Debug)]
pub struct Parser<'src> {
    pub scanner: Scanner<'src>,
    pub current: Token<'src>,
    pub previous: Token<'src>,
    /// Set by the first error and never cleared.
    pub had_error: bool,
    /// Set by an error; while it is set, further errors are not reported.
    pub panic_mode: bool,
    pub diagnostics: Vec<Diagnostic<'src>>,
}

impl<'src> View for Parser<'src> {
    type V = ParserView;

    open spec fn view(&self) -> ParserView {
        ParserView {
            source: self.scanner.source(),
            position: self.scanner.position(),
            current: self.current@,
            previous: self.previous@,
            had_error: self.had_error,
            panic_mode: self.panic_mode,
            diagnostics: diagnostics_view(self.diagnostics@),
        }
    }
}

impl<'src> Parser<'src> {
    /// The scanner is well formed.
    pub open spec fn well_formed(&self) -> bool {
        self.scanner.well_formed()
    }

    /// A parser on `scanner_` that has read no token yet and met no error.
    pub fn new(scanner_: Scanner<'src>) -> (parser: Parser<'src>)
        requires
            scanner_.well_formed(),
        ensures
            parser.well_formed(),
            parser.scanner == scanner_,
            parser@ == (ParserView {
                source: scanner_.source(),
                position: scanner_.position(),
                current: placeholder_token(),
                previous: placeholder_token(),
                had_error: false,
                panic_mode: false,
                diagnostics: Seq::empty(),
            }),
    {
        let parser = Parser {
            scanner: scanner_,
            current: Token::default(),
            previous: Token::default(),
            had_error: false,
            panic_mode: false,
            diagnostics: Vec::new(),
        };
        assert(diagnostics_view(parser.diagnostics@) =~= Seq::empty());
        parser
    }

    /// Reports an error at `token`, unless the parser is in panic mode.
    pub fn error_at(&mut self, token: &Token<'src>, message: &'static str)
        ensures
            final(self)@ == reported(old(self)@, token@, message@),
            final(self).scanner == old(self).scanner,
    {
        if self.panic_mode {
            return ;
        }
        self.panic_mode = true;
        let location: Location<'src> = match token.kind {
            Kind::EOF => Location::AtEnd,
            _ => Location::At(token.lexeme),
        };
        let diagnostic = Diagnostic { line: token.line, location, message };
        self.diagnostics.push(diagnostic);
        self.had_error = true;
        assert(diagnostics_view(self.diagnostics@) =~= diagnostics_view(old(self).diagnostics@).push(
            diagnostic@,
        ));
    }

    /// Reports an error at the current token.
    pub fn error_at_current(&mut self, message: &'static str)
        ensures
            final(self)@ == reported(old(self)@, old(self)@.current, message@),
            final(self).scanner == old(self).scanner,
    {
        let token: Token<'src> = self.current;
        self.error_at(&token, message);
    }

    /// Reports an error at the previous token.
    pub fn error(&mut self, message: &'static str)
        ensures
            final(self)@ == reported(old(self)@, old(self)@.previous, message@),
            final(self).scanner == old(self).scanner,
    {
        let token: Token<'src> = self.previous;
        self.error_at(&token, message);
    }

    /// Steps forward by one token. Error tokens are reported and skipped.
    pub fn advance(&mut self)
        requires
            old(self).well_formed(),
        ensures
            final(self).well_formed(),
            final(self)@ == advanced(old(self)@),
    {
        self.previous = self.current;
        let ghost begin = self@;
        loop
            invariant_except_break
                next_valid(begin) == next_valid(self@),
            invariant
                self.well_formed(),
            ensures
                self.well_formed(),
                self@ == next_valid(begin),
            decreases self.scanner.source().len() - self.scanner.position(),
        {
            proof {
                self.scanner.lemma_well_formed();
                lemma_scan_progress(self.scanner.source(), self.scanner.position());
            }
            let temp: Token<'src> = self.scanner.scan_token();
            self.current = temp;
            if self.current.kind != Kind::Error {
                break ;
            }
            self.error_at_current("Scanner error.");
        }
    }

    /// Requires the current token to be of kind `kind`: steps past it if it
    /// is, reports `msg` at it if it is not.
    pub fn consume(&mut self, kind: Kind, msg: &'static str)
        requires
            old(self).well_formed(),
        ensures
            final(self).well_formed(),
            final(self)@ == consumed(old(self)@, kind, msg@),
    {
        if self.current.kind == kind {
            self.advance();
            return ;
        }
        self.error_at_current(msg);
    }

    /// Appends a byte to `chunk`, on the line of the previous token.
    pub fn emit_byte(&self, byte: u8, chunk: &mut Chunk)
        ensures
            final(chunk)@ == old(chunk)@.write(byte, self.previous.line),
            old(chunk).well_formed() ==> final(chunk).well_formed(),
    {
        chunk.write(byte, self.previous.line);
    }

    /// Appends two bytes to `chunk`, both on the line of the previous token.
    pub fn emit_bytes(&self, byte_1: u8, byte_2: u8, chunk: &mut Chunk)
        ensures
            final(chunk)@ == old(chunk)@.write(byte_1, self.previous.line).write(
                byte_2,
                self.previous.line,
            ),
            old(chunk).well_formed() ==> final(chunk).well_formed(),
    {
        chunk.write(byte_1, self.previous.line);
        chunk.write(byte_2, self.previous.line);
    }
}

} // verus!
