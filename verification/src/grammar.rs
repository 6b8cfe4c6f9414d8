//! What scanning means, as mathematics: the token that starts at a given
//! place of a text, the errors it raises, and the place where the next one
//! starts.
//!
//! Places are counted in characters here. A token's span is in bytes; the two
//! meet in [`span_of`].
use vstd::prelude::*;
use crate::chars::{continues_word, is_blank, is_digit, is_escape, punctuation, starts_word};
use crate::errors::{LexerError, LexerErrorKind};
use crate::span::{FileId, Span};
use crate::text::byte_offset;
use crate::tokens::{TokenType, TokenView};

verus! {

/// A place in a text: in front of character number `index`, which is on
/// line `line` at column `column` (both counted from 1, the column in
/// characters).
pub struct Position {
    pub index: int,
    pub line: nat,
    pub column: nat,
}

/// Where every scan begins.
pub open spec fn origin() -> Position {
    Position { index: 0, line: 1, column: 1 }
}

/// One request for a token: the token, the errors reported on the way, and
/// the place reached.
pub struct Step {
    pub token: TokenView,
    pub errors: Seq<LexerError>,
    pub after: Position,
}

/// The bytes that the characters `[from, to)` of `source` occupy.
pub open spec fn span_of(source: Seq<char>, file_id: FileId, from: int, to: int) -> Span {
    Span {
        file_id,
        start: byte_offset(source, from) as usize,
        end: byte_offset(source, to) as usize,
    }
}

/// The token of kind `kind` that covers the characters `[from, to)`.
pub open spec fn token_at(
    source: Seq<char>,
    file_id: FileId,
    kind: TokenType,
    from: int,
    to: int,
) -> TokenView {
    TokenView { kind, lexeme: source.subrange(from, to), span: span_of(source, file_id, from, to) }
}

/// The first place at or after `i` whose character is not in `class`; the
/// end of the text if there is none.
pub open spec fn run_end(source: Seq<char>, i: int, class: spec_fn(char) -> bool) -> int
    decreases source.len() - i,
{
    if 0 <= i < source.len() && class(source[i]) {
        run_end(source, i + 1, class)
    } else {
        i
    }
}

/// Where the blanks that start at `i` end.
pub open spec fn blanks_end(source: Seq<char>, i: int) -> int {
    run_end(source, i, |c: char| is_blank(c))
}

/// Where the digits that start at `i` end.
pub open spec fn digits_end(source: Seq<char>, i: int) -> int {
    run_end(source, i, |c: char| is_digit(c))
}

/// Where the word characters that start at `i` end.
pub open spec fn word_end(source: Seq<char>, i: int) -> int {
    run_end(source, i, |c: char| continues_word(c))
}

/// Whether a fraction starts at `dot`: a `.` with a digit right behind it.
pub open spec fn fraction_at(source: Seq<char>, dot: int) -> bool {
    0 <= dot && dot + 1 < source.len() && source[dot] == '.' && is_digit(source[dot + 1])
}

/// Whether the number whose first digit is at `first` is a float.
pub open spec fn number_is_float(source: Seq<char>, first: int) -> bool {
    fraction_at(source, digits_end(source, first + 1))
}

/// Where the number whose first digit is at `first` ends. A `.` that no
/// digit follows is not part of the number.
pub open spec fn number_end(source: Seq<char>, first: int) -> int {
    let dot = digits_end(source, first + 1);
    if fraction_at(source, dot) {
        digits_end(source, dot + 2)
    } else {
        dot
    }
}

/// The kind of a whole word: a keyword, a boolean literal, or else an
/// identifier. Case matters.
pub open spec fn word_kind(word: Seq<char>) -> TokenType {
    if word == "true"@ || word == "false"@ {
        TokenType::Bool
    } else if word == "fun"@ {
        TokenType::Fun
    } else if word == "let"@ {
        TokenType::Let
    } else if word == "if"@ {
        TokenType::If
    } else if word == "else"@ {
        TokenType::Else
    } else if word == "while"@ {
        TokenType::While
    } else if word == "struct"@ {
        TokenType::Struct
    } else if word == "return"@ {
        TokenType::Return
    } else if word == "pub"@ {
        TokenType::Pub
    } else if word == "use"@ {
        TokenType::Use
    } else {
        TokenType::Identifier
    }
}

/// How the inside of a string literal ends.
pub struct StringScan {
    /// The place behind the literal.
    pub end: int,
    /// Whether a closing quote was found.
    pub closed: bool,
    /// The errors reported inside the literal, in the order of the text.
    pub errors: Seq<LexerError>,
    pub line: nat,
    pub column: nat,
}

/// The error for a string literal that opened at `open` and was cut off by
/// the end of the text at `at`.
pub open spec fn unterminated(source: Seq<char>, file_id: FileId, open: int, at: int) -> LexerError {
    LexerError {
        kind: LexerErrorKind::UnterminatedString,
        span: span_of(source, file_id, open, at),
    }
}

/// The error for a backslash at `slash` with a character behind it that
/// starts no escape.
pub open spec fn invalid_escape(source: Seq<char>, file_id: FileId, slash: int) -> LexerError {
    LexerError {
        kind: LexerErrorKind::InvalidEscapeSequence(source[slash + 1]),
        span: span_of(source, file_id, slash, slash + 2),
    }
}

/// Scans the inside of the string literal whose opening quote is at `open`,
/// from place `i` on, which is on `line` at `column`.
///
/// A `"` closes the literal. A line feed is content and starts a new line. A
/// backslash takes the next character with it, line feed or quote included;
/// if that character starts no escape an error is reported and the scan goes
/// on. The end of the text, also right behind a backslash, leaves the
/// literal unterminated.
pub open spec fn scan_string(
    source: Seq<char>,
    file_id: FileId,
    open: int,
    i: int,
    line: nat,
    column: nat,
) -> StringScan
    decreases source.len() - i,
{
    if i < 0 || i >= source.len() {
        StringScan {
            end: i,
            closed: false,
            errors: seq![unterminated(source, file_id, open, i)],
            line,
            column,
        }
    } else if source[i] == '"' {
        StringScan { end: i + 1, closed: true, errors: seq![], line, column: column + 1 }
    } else if source[i] == '\n' {
        scan_string(source, file_id, open, i + 1, line + 1, 1)
    } else if source[i] == '\\' {
        if i + 1 >= source.len() {
            StringScan {
                end: i + 1,
                closed: false,
                errors: seq![unterminated(source, file_id, open, i + 1)],
                line,
                column: column + 1,
            }
        } else {
            let rest = scan_string(source, file_id, open, i + 2, line, column + 2);
            if is_escape(source[i + 1]) {
                rest
            } else {
                StringScan {
                    end: rest.end,
                    closed: rest.closed,
                    errors: seq![invalid_escape(source, file_id, i)] + rest.errors,
                    line: rest.line,
                    column: rest.column,
                }
            }
        }
    } else {
        scan_string(source, file_id, open, i + 1, line, column + 1)
    }
}

/// A step that reports no error: the token `[from, to)` of kind `kind`, and
/// the place behind it.
pub open spec fn quiet(
    source: Seq<char>,
    file_id: FileId,
    kind: TokenType,
    from: int,
    to: int,
    line: nat,
    column: nat,
) -> Step {
    Step {
        token: token_at(source, file_id, kind, from, to),
        errors: seq![],
        after: Position { index: to, line, column },
    }
}

/// The token that a scan standing at `at` hands out next.
///
/// Blanks are skipped first. At the end of the text the token is an empty
/// `Eof`. Otherwise the first character decides: fixed punctuation; `-` and
/// `:`, which take a following `>` or `:` with them; a line feed; a string
/// literal; a number; `;`, which is illegal and reported; a word; anything
/// else is illegal and not reported.
pub open spec fn step(source: Seq<char>, file_id: FileId, at: Position) -> Step {
    let start = blanks_end(source, at.index);
    let line = at.line;
    let column = (at.column + (start - at.index)) as nat;
    if !(0 <= start < source.len()) {
        quiet(source, file_id, TokenType::Eof, start, start, line, column)
    } else {
        let c = source[start];
        let follower = if start + 1 < source.len() {
            Some(source[start + 1])
        } else {
            None
        };
        if let Some(kind) = punctuation(c) {
            quiet(source, file_id, kind, start, start + 1, line, column + 1)
        } else if c == '-' {
            if follower == Some('>') {
                quiet(source, file_id, TokenType::Arrow, start, start + 2, line, column + 2)
            } else {
                quiet(source, file_id, TokenType::Minus, start, start + 1, line, column + 1)
            }
        } else if c == ':' {
            if follower == Some(':') {
                quiet(source, file_id, TokenType::DoubleColon, start, start + 2, line, column + 2)
            } else {
                quiet(source, file_id, TokenType::Colon, start, start + 1, line, column + 1)
            }
        } else if c == '\n' {
            quiet(source, file_id, TokenType::Newline, start, start + 1, line + 1, 1)
        } else if c == '"' {
            let inside = scan_string(source, file_id, start, start + 1, line, column + 1);
            let kind = if inside.closed {
                TokenType::String
            } else {
                TokenType::Illegal
            };
            Step {
                token: token_at(source, file_id, kind, start, inside.end),
                errors: inside.errors,
                after: Position { index: inside.end, line: inside.line, column: inside.column },
            }
        } else if is_digit(c) {
            let end = number_end(source, start);
            let kind = if number_is_float(source, start) {
                TokenType::Float
            } else {
                TokenType::Integer
            };
            quiet(source, file_id, kind, start, end, line, (column + (end - start)) as nat)
        } else if c == ';' {
            Step {
                token: token_at(source, file_id, TokenType::Illegal, start, start + 1),
                errors: seq![
                    LexerError {
                        kind: LexerErrorKind::UnnecessarySemicolon,
                        span: span_of(source, file_id, start, start + 1),
                    },
                ],
                after: Position { index: start + 1, line, column: column + 1 },
            }
        } else if starts_word(c) {
            let end = word_end(source, start + 1);
            let kind = word_kind(source.subrange(start, end));
            quiet(source, file_id, kind, start, end, line, (column + (end - start)) as nat)
        } else {
            quiet(source, file_id, TokenType::Illegal, start, start + 1, line, column + 1)
        }
    }
}

/// A run ends inside the text, at or behind the place where it starts.
pub proof fn lemma_run_end_bounds(source: Seq<char>, i: int, class: spec_fn(char) -> bool)
    requires
        0 <= i <= source.len(),
    ensures
        i <= run_end(source, i, class) <= source.len(),
    decreases source.len() - i,
{
    if i < source.len() && class(source[i]) {
        lemma_run_end_bounds(source, i + 1, class);
    }
}

/// A run holds nothing but characters of its class, and is followed by none.
pub proof fn lemma_run_end_is_maximal(source: Seq<char>, i: int, class: spec_fn(char) -> bool)
    requires
        0 <= i <= source.len(),
    ensures
        forall|k: int| i <= k < run_end(source, i, class) ==> class(#[trigger] source[k]),
        run_end(source, i, class) < source.len() ==> !class(source[run_end(source, i, class)]),
    decreases source.len() - i,
{
    if i < source.len() && class(source[i]) {
        lemma_run_end_is_maximal(source, i + 1, class);
    }
}

/// A string literal ends inside the text, at or behind the place from which
/// its inside is scanned; if it is not closed, it ends where the text ends.
pub proof fn lemma_scan_string_bounds(
    source: Seq<char>,
    file_id: FileId,
    open: int,
    i: int,
    line: nat,
    column: nat,
)
    requires
        0 <= i <= source.len(),
    ensures
        i <= scan_string(source, file_id, open, i, line, column).end <= source.len(),
        !scan_string(source, file_id, open, i, line, column).closed ==> scan_string(
            source,
            file_id,
            open,
            i,
            line,
            column,
        ).end == source.len(),
    decreases source.len() - i,
{
    if i >= source.len() {
    } else if source[i] == '"' {
    } else if source[i] == '\n' {
        lemma_scan_string_bounds(source, file_id, open, i + 1, line + 1, 1);
    } else if source[i] == '\\' {
        if i + 1 < source.len() {
            lemma_scan_string_bounds(source, file_id, open, i + 2, line, column + 2);
        }
    } else {
        lemma_scan_string_bounds(source, file_id, open, i + 1, line, column + 1);
    }
}

/// A number ends inside the text, behind its first digit.
pub proof fn lemma_number_end_bounds(source: Seq<char>, first: int)
    requires
        0 <= first < source.len(),
    ensures
        first < number_end(source, first) <= source.len(),
{
    let dot = digits_end(source, first + 1);
    lemma_run_end_bounds(source, first + 1, |c: char| is_digit(c));
    if fraction_at(source, dot) {
        lemma_run_end_bounds(source, dot + 2, |c: char| is_digit(c));
    }
}

/// Every step stays inside the text and never goes backwards: the token
/// starts at or behind the place the step started from, and the step ends
/// where the token ends. Every token but `Eof` holds at least one character.
pub proof fn lemma_step_advances(source: Seq<char>, file_id: FileId, at: Position)
    requires
        0 <= at.index <= source.len(),
    ensures
        at.index <= blanks_end(source, at.index) <= step(source, file_id, at).after.index
            <= source.len(),
        step(source, file_id, at).token.kind != TokenType::Eof ==> blanks_end(source, at.index)
            < step(source, file_id, at).after.index,
        step(source, file_id, at).token.kind == TokenType::Eof ==> step(
            source,
            file_id,
            at,
        ).after.index == source.len(),
{
    let start = blanks_end(source, at.index);
    lemma_run_end_bounds(source, at.index, |c: char| is_blank(c));
    if start < source.len() {
        let column = (at.column + (start - at.index)) as nat;
        lemma_scan_string_bounds(source, file_id, start, start + 1, at.line, column + 1);
        lemma_number_end_bounds(source, start);
        lemma_run_end_bounds(source, start + 1, |c: char| continues_word(c));
    }
}

/// The tokens that a scan standing at `at` hands out until the text ends,
/// without the closing `Eof`.
pub open spec fn tokens_from(source: Seq<char>, file_id: FileId, at: Position) -> Seq<TokenView>
    decreases source.len() - at.index,
    via tokens_from_terminates
{
    let s = step(source, file_id, at);
    if 0 <= at.index <= source.len() && s.token.kind != TokenType::Eof {
        seq![s.token] + tokens_from(source, file_id, s.after)
    } else {
        seq![]
    }
}

#[via_fn]
proof fn tokens_from_terminates(source: Seq<char>, file_id: FileId, at: Position) {
    if 0 <= at.index <= source.len() {
        lemma_step_advances(source, file_id, at);
    }
}

/// The errors that a scan standing at `at` reports until the text ends, in
/// the order in which it reports them.
pub open spec fn errors_from(source: Seq<char>, file_id: FileId, at: Position) -> Seq<LexerError>
    decreases source.len() - at.index,
    via errors_from_terminates
{
    let s = step(source, file_id, at);
    if 0 <= at.index <= source.len() && s.token.kind != TokenType::Eof {
        s.errors + errors_from(source, file_id, s.after)
    } else {
        seq![]
    }
}

#[via_fn]
proof fn errors_from_terminates(source: Seq<char>, file_id: FileId, at: Position) {
    if 0 <= at.index <= source.len() {
        lemma_step_advances(source, file_id, at);
    }
}

/// All tokens of `source`, in order.
pub open spec fn tokens_of(source: Seq<char>, file_id: FileId) -> Seq<TokenView> {
    tokens_from(source, file_id, origin())
}

/// All errors in `source`, in order.
pub open spec fn errors_of(source: Seq<char>, file_id: FileId) -> Seq<LexerError> {
    errors_from(source, file_id, origin())
}

} // verus!
