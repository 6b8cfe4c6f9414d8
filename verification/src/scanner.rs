//! The scanner itself: a cursor over the source text that hands out one
//! token per request.
use vstd::prelude::*;
use vstd::string::*;
use vstd::utf8::encode_utf8;
use crate::chars::{blank, digit, escape, punctuation_kind, word_part, word_start};
use crate::diagnostics::DiagnosticsEngine;
use crate::errors::{LexerError, LexerErrorKind};
use crate::grammar::{
    blanks_end, digits_end, errors_from, lemma_step_advances, number_end, number_is_float, origin,
    scan_string, span_of, step, token_at, tokens_from, word_end, word_kind, Position, Step,
};
use crate::span::{FileId, Span};
use crate::text::{byte_len, byte_offset, chars_of, same_text, slice_bytes, utf8_width};
use crate::text::{
    lemma_byte_offset_ends, lemma_byte_offset_grows, lemma_byte_offset_step,
    lemma_bytes_between, lemma_encoding_is_injective, lemma_offset_is_boundary,
};
use crate::laws::lemma_spans_in_order;
use crate::tokens::{views, Token, TokenType, TokenView};

verus! {

/// The character at place `i` of `source`, if the text reaches that far.
pub open spec fn char_at(source: Seq<char>, i: int) -> Option<char> {
    if 0 <= i < source.len() {
        Some(source[i])
    } else {
        None
    }
}

/// Splits source text into tokens, one per call of [`Lexer::next_token`].
///
/// The fields are public so that contracts can speak of them. Only a value
/// that [`Lexer::new`] made, and that the methods below moved on, is well
/// formed; every method asks for that.
pub struct Lexer<'a> {
    /// Where errors are reported.
    pub diagnostics: &'a mut DiagnosticsEngine,
    /// The whole source text.
    pub source: &'a str,
    /// The characters of `source`, for looking ahead by index.
    pub chars: Vec<char>,
    /// The file that `source` is the text of.
    pub file_id: FileId,
    /// Number of characters consumed so far.
    pub cursor: usize,
    /// Number of bytes consumed so far.
    pub current_pos: usize,
    /// Where the token in the making starts, in characters.
    pub token_start: usize,
    /// Where the token in the making starts, in bytes.
    pub start_pos: usize,
    /// Length of `source` in bytes.
    pub source_len: usize,
    /// Line of the next character, counted from 1. The counter is wider than
    /// any index into the text, so it cannot overflow.
    pub line: u128,
    /// Column of the next character, counted from 1 and in characters. As
    /// wide as `line`, for the same reason.
    pub column: u128,
}

impl<'a> Lexer<'a> {
    /// The text being scanned.
    pub open spec fn text(&self) -> Seq<char> {
        self.source@
    }

    /// The place the scan has reached.
    pub open spec fn position(&self) -> Position {
        Position { index: self.cursor as int, line: self.line as nat, column: self.column as nat }
    }

    /// The errors that the collector holds.
    pub open spec fn reported(&self) -> Seq<LexerError> {
        self.diagnostics@
    }

    /// The byte that the scan has reached: where the next character starts.
    pub open spec fn offset(&self) -> nat {
        byte_offset(self.text(), self.cursor as int)
    }

    /// What the next request for a token will yield.
    pub open spec fn upcoming(&self) -> Step {
        step(self.text(), self.file_id, self.position())
    }

    /// The representation is consistent: the character buffer mirrors the
    /// text, both cursors point at the same place, the token in the making
    /// starts at or before it, and the counters have counted no more than
    /// the characters consumed.
    pub closed spec fn wf(&self) -> bool {
        &&& self.chars@ == self.source@
        &&& self.source_len == self.source.spec_bytes().len()
        &&& self.token_start <= self.cursor <= self.chars@.len()
        &&& self.start_pos == byte_offset(self.source@, self.token_start as int)
        &&& self.current_pos == byte_offset(self.source@, self.cursor as int)
        &&& 1 <= self.line <= self.cursor + 1
        &&& 1 <= self.column <= self.cursor + 1
    }

    /// Same text, same file, same token start: what consuming a character
    /// leaves alone.
    pub open spec fn same_token(&self, before: &Self) -> bool {
        &&& self.source == before.source
        &&& self.chars == before.chars
        &&& self.source_len == before.source_len
        &&& self.file_id == before.file_id
        &&& self.token_start == before.token_start
        &&& self.start_pos == before.start_pos
    }

    /// A scanner at the start of `source`, on line 1 at column 1, that will
    /// report to `diagnostics`.
    pub fn new(source: &'a str, file_id: FileId, diagnostics: &'a mut DiagnosticsEngine) -> (lexer:
        Lexer<'a>)
        ensures
            lexer.wf(),
            lexer.text() == source@,
            lexer.file_id == file_id,
            lexer.position() == origin(),
            lexer.reported() == old(diagnostics)@,
            *final(lexer.diagnostics) == *final(diagnostics),
    {
        let chars = chars_of(source);
        let source_len = byte_len(source);
        proof {
            lemma_byte_offset_ends(source@);
        }
        Lexer {
            diagnostics,
            source,
            chars,
            source_len,
            file_id,
            cursor: 0,
            current_pos: 0,
            token_start: 0,
            start_pos: 0,
            line: 1,
            column: 1,
        }
    }

    /// Consumes the next character and returns it; at the end of the text
    /// nothing changes.
    fn advance(&mut self) -> (c: Option<char>)
        requires
            old(self).wf(),
        ensures
            final(self).wf(),
            final(self).same_token(old(self)),
            final(self).diagnostics == old(self).diagnostics,
            final(self).line == old(self).line,
            c == char_at(old(self).text(), old(self).cursor as int),
            c is Some ==> {
                &&& final(self).cursor == old(self).cursor + 1
                &&& final(self).column == old(self).column + 1
            },
            c is None ==> {
                &&& final(self).cursor == old(self).cursor
                &&& final(self).column == old(self).column
            },
    {
        proof {
            lemma_byte_offset_ends(self.text());
            lemma_byte_offset_grows(self.text(), 0, self.text().len() as int);
            lemma_byte_offset_grows(self.text(), self.cursor as int, self.text().len() as int);
        }
        if self.current_pos < self.source_len {
            let c = self.chars[self.cursor];
            proof {
                lemma_byte_offset_step(self.text(), self.cursor as int);
                lemma_byte_offset_grows(
                    self.text(),
                    self.cursor as int + 1,
                    self.text().len() as int,
                );
            }
            self.current_pos += utf8_width(c);
            self.cursor += 1;
            self.column += 1;
            Some(c)
        } else {
            None
        }
    }

    /// The character `ahead` places in front of the cursor, without
    /// consuming anything.
    fn peek_at(&self, ahead: usize) -> (c: Option<char>)
        requires
            self.wf(),
        ensures
            c == char_at(self.text(), self.cursor + ahead),
    {
        if ahead < self.chars.len() - self.cursor {
            Some(self.chars[self.cursor + ahead])
        } else {
            None
        }
    }

    /// The next character, without consuming it.
    fn peek(&self) -> (c: Option<char>)
        requires
            self.wf(),
        ensures
            c == char_at(self.text(), self.cursor as int),
    {
        self.peek_at(0)
    }

    /// The text between the token start and the cursor.
    fn lexeme_so_far(&self) -> (piece: &'a str)
        requires
            self.wf(),
        ensures
            piece@ == self.text().subrange(self.token_start as int, self.cursor as int),
    {
        proof {
            lemma_offset_is_boundary(self.text(), self.token_start as int);
            lemma_offset_is_boundary(self.text(), self.cursor as int);
            lemma_bytes_between(self.text(), self.token_start as int, self.cursor as int);
        }
        let piece = slice_bytes(self.source, self.start_pos, self.current_pos);
        proof {
            lemma_encoding_is_injective(
                piece@,
                self.text().subrange(self.token_start as int, self.cursor as int),
            );
        }
        piece
    }

    /// The span from the token start to the cursor.
    fn span_so_far(&self) -> (span: Span)
        requires
            self.wf(),
        ensures
            span == span_of(self.text(), self.file_id, self.token_start as int, self.cursor as int),
    {
        Span { file_id: self.file_id, start: self.start_pos, end: self.current_pos }
    }

    /// The token of kind `kind` that reaches from the token start to the
    /// cursor.
    fn make_token(&self, kind: TokenType) -> (token: Token)
        requires
            self.wf(),
        ensures
            token@ == token_at(
                self.text(),
                self.file_id,
                kind,
                self.token_start as int,
                self.cursor as int,
            ),
    {
        let lexeme = self.lexeme_so_far().to_owned();
        Token { kind, lexeme, span: self.span_so_far() }
    }

    /// Consumes blanks up to the next character that is none. A line feed
    /// is not a blank.
    fn skip_whitespace(&mut self)
        requires
            old(self).wf(),
        ensures
            final(self).wf(),
            final(self).same_token(old(self)),
            final(self).diagnostics == old(self).diagnostics,
            final(self).line == old(self).line,
            final(self).cursor == blanks_end(old(self).text(), old(self).cursor as int),
            final(self).column == old(self).column + (final(self).cursor - old(self).cursor),
    {
        loop
            invariant
                self.wf(),
                self.same_token(old(self)),
                self.diagnostics == old(self).diagnostics,
                self.line == old(self).line,
                old(self).cursor <= self.cursor,
                self.column == old(self).column + (self.cursor - old(self).cursor),
                blanks_end(self.text(), self.cursor as int) == blanks_end(
                    old(self).text(),
                    old(self).cursor as int,
                ),
            ensures
                self.cursor == blanks_end(self.text(), self.cursor as int),
            decreases self.chars@.len() - self.cursor,
        {
            match self.peek() {
                Some(c) => {
                    if blank(c) {
                        self.advance();
                    } else {
                        break;
                    }
                },
                None => {
                    break;
                },
            }
        }
    }

    /// Consumes digits up to the next character that is none.
    fn skip_digits(&mut self)
        requires
            old(self).wf(),
        ensures
            final(self).wf(),
            final(self).same_token(old(self)),
            final(self).diagnostics == old(self).diagnostics,
            final(self).line == old(self).line,
            final(self).cursor == digits_end(old(self).text(), old(self).cursor as int),
            final(self).column == old(self).column + (final(self).cursor - old(self).cursor),
    {
        loop
            invariant
                self.wf(),
                self.same_token(old(self)),
                self.diagnostics == old(self).diagnostics,
                self.line == old(self).line,
                old(self).cursor <= self.cursor,
                self.column == old(self).column + (self.cursor - old(self).cursor),
                digits_end(self.text(), self.cursor as int) == digits_end(
                    old(self).text(),
                    old(self).cursor as int,
                ),
            ensures
                self.cursor == digits_end(self.text(), self.cursor as int),
            decreases self.chars@.len() - self.cursor,
        {
            match self.peek() {
                Some(c) => {
                    if digit(c) {
                        self.advance();
                    } else {
                        break;
                    }
                },
                None => {
                    break;
                },
            }
        }
    }

    /// Scans the rest of a number whose first digit was just consumed: more
    /// digits, and a fraction if a `.` with a digit behind it follows.
    fn scan_number(&mut self) -> (token: Token)
        requires
            old(self).wf(),
            old(self).cursor == old(self).token_start + 1,
        ensures
            final(self).wf(),
            final(self).same_token(old(self)),
            final(self).diagnostics == old(self).diagnostics,
            final(self).line == old(self).line,
            final(self).cursor == number_end(old(self).text(), old(self).token_start as int),
            final(self).column == old(self).column + (final(self).cursor - old(self).cursor),
            token@ == token_at(
                old(self).text(),
                old(self).file_id,
                if number_is_float(old(self).text(), old(self).token_start as int) {
                    TokenType::Float
                } else {
                    TokenType::Integer
                },
                old(self).token_start as int,
                final(self).cursor as int,
            ),
    {
        self.skip_digits();
        let mut is_float = false;
        if self.peek() == Some('.') {
            if let Some(after_dot) = self.peek_at(1) {
                if digit(after_dot) {
                    is_float = true;
                    self.advance();
                    self.skip_digits();
                }
            }
        }
        if is_float {
            self.make_token(TokenType::Float)
        } else {
            self.make_token(TokenType::Integer)
        }
    }

    /// Scans the inside of a string literal whose opening quote was just
    /// consumed, up to and including the closing quote. If the text ends
    /// first, that is reported and the token is illegal.
    fn scan_string(&mut self) -> (token: Token)
        requires
            old(self).wf(),
        ensures
            final(self).wf(),
            final(self).same_token(old(self)),
            *final(final(self).diagnostics) == *final(old(self).diagnostics),
            ({
                let inside = scan_string(
                    old(self).text(),
                    old(self).file_id,
                    old(self).token_start as int,
                    old(self).cursor as int,
                    old(self).line as nat,
                    old(self).column as nat,
                );
                &&& final(self).cursor == inside.end
                &&& final(self).line == inside.line
                &&& final(self).column == inside.column
                &&& final(self).reported() == old(self).reported() + inside.errors
                &&& token@ == token_at(
                    old(self).text(),
                    old(self).file_id,
                    if inside.closed {
                        TokenType::String
                    } else {
                        TokenType::Illegal
                    },
                    old(self).token_start as int,
                    inside.end,
                )
            }),
    {
        let ghost goal = scan_string(
            self.text(),
            self.file_id,
            self.token_start as int,
            self.cursor as int,
            self.line as nat,
            self.column as nat,
        );
        loop
            invariant
                self.wf(),
                self.same_token(old(self)),
                *final(self.diagnostics) == *final(old(self).diagnostics),
                old(self).cursor <= self.cursor,
                goal == scan_string(
                    old(self).text(),
                    old(self).file_id,
                    old(self).token_start as int,
                    old(self).cursor as int,
                    old(self).line as nat,
                    old(self).column as nat,
                ),
                ({
                    let rest = scan_string(
                        self.text(),
                        self.file_id,
                        self.token_start as int,
                        self.cursor as int,
                        self.line as nat,
                        self.column as nat,
                    );
                    &&& goal.end == rest.end
                    &&& goal.closed == rest.closed
                    &&& goal.line == rest.line
                    &&& goal.column == rest.column
                    &&& old(self).reported() + goal.errors == self.reported() + rest.errors
                }),
            decreases self.chars@.len() - self.cursor,
        {
            match self.peek() {
                Some('"') => {
                    self.advance();
                    return self.make_token(TokenType::String);
                },
                None => {
                    let error = LexerError::new(
                        LexerErrorKind::UnterminatedString,
                        self.span_so_far(),
                    );
                    self.diagnostics.add_error(error);
                    return self.make_token(TokenType::Illegal);
                },
                Some('\n') => {
                    self.advance();
                    self.line += 1;
                    self.column = 1;
                },
                Some('\\') => {
                    let slash_pos = self.current_pos;
                    self.advance();
                    match self.peek() {
                        None => {
                            let error = LexerError::new(
                                LexerErrorKind::UnterminatedString,
                                self.span_so_far(),
                            );
                            self.diagnostics.add_error(error);
                            return self.make_token(TokenType::Illegal);
                        },
                        Some(c) => {
                            self.advance();
                            if !escape(c) {
                                let span = Span {
                                    file_id: self.file_id,
                                    start: slash_pos,
                                    end: self.current_pos,
                                };
                                let error = LexerError::new(
                                    LexerErrorKind::InvalidEscapeSequence(c),
                                    span,
                                );
                                self.diagnostics.add_error(error);
                            }
                        },
                    }
                },
                Some(_) => {
                    self.advance();
                },
            }
        }
    }

    /// Scans the rest of a word whose first character was just consumed,
    /// and tells keywords and boolean literals from identifiers.
    fn scan_identifier(&mut self) -> (token: Token)
        requires
            old(self).wf(),
        ensures
            final(self).wf(),
            final(self).same_token(old(self)),
            final(self).diagnostics == old(self).diagnostics,
            final(self).line == old(self).line,
            final(self).cursor == word_end(old(self).text(), old(self).cursor as int),
            final(self).column == old(self).column + (final(self).cursor - old(self).cursor),
            token@ == token_at(
                old(self).text(),
                old(self).file_id,
                word_kind(
                    old(self).text().subrange(
                        old(self).token_start as int,
                        final(self).cursor as int,
                    ),
                ),
                old(self).token_start as int,
                final(self).cursor as int,
            ),
    {
        loop
            invariant
                self.wf(),
                self.same_token(old(self)),
                self.diagnostics == old(self).diagnostics,
                self.line == old(self).line,
                old(self).cursor <= self.cursor,
                self.column == old(self).column + (self.cursor - old(self).cursor),
                word_end(self.text(), self.cursor as int) == word_end(
                    old(self).text(),
                    old(self).cursor as int,
                ),
            ensures
                self.cursor == word_end(self.text(), self.cursor as int),
            decreases self.chars@.len() - self.cursor,
        {
            match self.peek() {
                Some(c) => {
                    if word_part(c) {
                        self.advance();
                    } else {
                        break;
                    }
                },
                None => {
                    break;
                },
            }
        }
        let kind = keyword_or_identifier(self.lexeme_so_far());
        self.make_token(kind)
    }

    /// Hands out the next token and moves behind it.
    ///
    /// Blanks in front of the token are skipped. At the end of the text the
    /// token is `Eof`, with an empty lexeme and an empty span at the end;
    /// asking again gives the same. Malformed input never fails the call: an
    /// error is appended to the collector where the grammar asks for one,
    /// the token handed out is `Illegal`, and the scan goes on behind it.
    ///
    /// The clauses on the token, the position and the collector say exactly
    /// what is handed out, reached and reported. The clauses behind them
    /// spell out what follows for the span, the progress of the scan and the
    /// line counter.
    pub fn next_token(&mut self) -> (token: Token)
        requires
            old(self).wf(),
        ensures
            final(self).wf(),
            final(self).source == old(self).source,
            final(self).file_id == old(self).file_id,
            token@ == old(self).upcoming().token,
            final(self).position() == old(self).upcoming().after,
            final(self).reported() == old(self).reported() + old(self).upcoming().errors,
            *final(final(self).diagnostics) == *final(old(self).diagnostics),
            token.span.file_id == old(self).file_id,
            old(self).offset() <= token.span.start <= token.span.end,
            token.span.end == final(self).offset(),
            token.span.width() == encode_utf8(token.lexeme@).len(),
            token.kind != TokenType::Eof ==> {
                &&& token.span.start < token.span.end
                &&& old(self).cursor < final(self).cursor
            },
            token.kind == TokenType::Eof ==> final(self).cursor == old(self).text().len(),
            token.kind == TokenType::Newline ==> {
                &&& final(self).line == old(self).line + 1
                &&& final(self).column == 1
            },
    {
        proof {
            lemma_step_advances(self.text(), self.file_id, self.position());
            lemma_spans_in_order(self.text(), self.file_id, self.position());
            lemma_byte_offset_grows(
                self.text(),
                blanks_end(self.text(), self.cursor as int),
                self.upcoming().after.index,
            );
        }
        self.skip_whitespace();
        self.token_start = self.cursor;
        self.start_pos = self.current_pos;
        match self.advance() {
            None => self.make_token(TokenType::Eof),
            Some(c) => {
                if let Some(kind) = punctuation_kind(c) {
                    self.make_token(kind)
                } else if c == '-' {
                    if self.peek() == Some('>') {
                        self.advance();
                        self.make_token(TokenType::Arrow)
                    } else {
                        self.make_token(TokenType::Minus)
                    }
                } else if c == ':' {
                    if self.peek() == Some(':') {
                        self.advance();
                        self.make_token(TokenType::DoubleColon)
                    } else {
                        self.make_token(TokenType::Colon)
                    }
                } else if c == '\n' {
                    let token = self.make_token(TokenType::Newline);
                    self.line += 1;
                    self.column = 1;
                    token
                } else if c == '"' {
                    self.scan_string()
                } else if digit(c) {
                    self.scan_number()
                } else if c == ';' {
                    let error = LexerError::new(
                        LexerErrorKind::UnnecessarySemicolon,
                        self.span_so_far(),
                    );
                    self.diagnostics.add_error(error);
                    self.make_token(TokenType::Illegal)
                } else if word_start(c) {
                    self.scan_identifier()
                } else {
                    self.make_token(TokenType::Illegal)
                }
            },
        }
    }

    /// The next token of the stream: `None` once the text is used up, so
    /// that `Eof` ends the stream without being part of it.
    pub fn next(&mut self) -> (item: Option<Token>)
        requires
            old(self).wf(),
        ensures
            final(self).wf(),
            final(self).source == old(self).source,
            final(self).file_id == old(self).file_id,
            final(self).position() == old(self).upcoming().after,
            final(self).reported() == old(self).reported() + old(self).upcoming().errors,
            *final(final(self).diagnostics) == *final(old(self).diagnostics),
            match item {
                Some(token) => token@ == old(self).upcoming().token && token.kind
                    != TokenType::Eof,
                None => old(self).upcoming().token.kind == TokenType::Eof,
            },
    {
        let token = self.next_token();
        if token.kind == TokenType::Eof {
            None
        } else {
            Some(token)
        }
    }

    /// Runs the scan to the end of the text and returns every token on the
    /// way, in order, without the closing `Eof`. The collector has by then
    /// received every error of the rest of the text, in order, behind what
    /// it held before.
    pub fn collect(self) -> (tokens: Vec<Token>)
        requires
            self.wf(),
        ensures
            views(tokens@) == tokens_from(self.text(), self.file_id, self.position()),
            final(self.diagnostics)@ == self.reported() + errors_from(
                self.text(),
                self.file_id,
                self.position(),
            ),
    {
        let mut lexer = self;
        let mut tokens: Vec<Token> = Vec::new();
        assert(views(tokens@) == Seq::<TokenView>::empty());
        loop
            invariant
                lexer.wf(),
                lexer.source == self.source,
                lexer.file_id == self.file_id,
                *final(lexer.diagnostics) == *final(self.diagnostics),
                views(tokens@) + tokens_from(lexer.text(), lexer.file_id, lexer.position())
                    == tokens_from(self.text(), self.file_id, self.position()),
                lexer.reported() + errors_from(lexer.text(), lexer.file_id, lexer.position())
                    == self.reported() + errors_from(self.text(), self.file_id, self.position()),
            ensures
                views(tokens@) == tokens_from(self.text(), self.file_id, self.position()),
                lexer.reported() == self.reported() + errors_from(
                    self.text(),
                    self.file_id,
                    self.position(),
                ),
                *final(lexer.diagnostics) == *final(self.diagnostics),
            decreases lexer.text().len() - lexer.cursor,
        {
            proof {
                lemma_step_advances(lexer.text(), lexer.file_id, lexer.position());
            }
            let ghost before = views(tokens@);
            match lexer.next() {
                Some(token) => {
                    tokens.push(token);
                    assert(views(tokens@) == before.push(token@));
                },
                None => {
                    break;
                },
            }
        }
        tokens
    }
}

/// The kind of the word `word`: a keyword, a boolean literal, or else an
/// identifier.
pub fn keyword_or_identifier(word: &str) -> (kind: TokenType)
    ensures
        kind == word_kind(word@),
{
    if same_text(word, "true") || same_text(word, "false") {
        TokenType::Bool
    } else if same_text(word, "fun") {
        TokenType::Fun
    } else if same_text(word, "let") {
        TokenType::Let
    } else if same_text(word, "if") {
        TokenType::If
    } else if same_text(word, "else") {
        TokenType::Else
    } else if same_text(word, "while") {
        TokenType::While
    } else if same_text(word, "struct") {
        TokenType::Struct
    } else if same_text(word, "return") {
        TokenType::Return
    } else if same_text(word, "pub") {
        TokenType::Pub
    } else if same_text(word, "use") {
        TokenType::Use
    } else {
        TokenType::Identifier
    }
}

} // verus!
