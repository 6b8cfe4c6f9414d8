//! What holds of every scan, proved from the definitions in
//! [`crate::grammar`].
use vstd::prelude::*;
use vstd::utf8::encode_utf8;
use crate::chars::{continues_word, is_blank, is_digit, is_escape, punctuation, starts_word};
use crate::errors::{LexerError, LexerErrorKind};
use crate::grammar::{
    blanks_end, digits_end, errors_from, errors_of, fraction_at, lemma_number_end_bounds,
    lemma_run_end_bounds, lemma_run_end_is_maximal, lemma_step_advances, origin, scan_string,
    span_of, step, tokens_from, tokens_of, unterminated, word_kind, Position,
};
use crate::span::{FileId, Span};
use crate::text::{
    byte_offset, lemma_byte_offset_ends, lemma_byte_offset_grows, lemma_byte_offset_step,
    lemma_bytes_between, lemma_utf8_len_bounds,
};
use crate::tokens::{TokenType, TokenView};

verus! {

/// A text that holds nothing but blanks (spaces, tabs, carriage returns)
/// has no tokens and no errors. The empty text is such a text.
pub proof fn lemma_blank_text_has_no_tokens(source: Seq<char>, file_id: FileId)
    requires
        forall|i: int| 0 <= i < source.len() ==> is_blank(#[trigger] source[i]),
    ensures
        tokens_of(source, file_id) == Seq::<TokenView>::empty(),
        errors_of(source, file_id) == Seq::<LexerError>::empty(),
        step(source, file_id, origin()).token.kind == TokenType::Eof,
{
    lemma_run_end_bounds(source, 0, |c: char| is_blank(c));
    lemma_run_end_is_maximal(source, 0, |c: char| is_blank(c));
}

/// A text that is one punctuation character and nothing else has exactly
/// one token: of that character's kind, with the character as its lexeme
/// and a span one byte wide. It has no errors.
pub proof fn lemma_punctuation_alone(c: char, file_id: FileId)
    requires
        punctuation(c) is Some,
    ensures
        tokens_of(seq![c], file_id) == seq![
            TokenView {
                kind: punctuation(c)->0,
                lexeme: seq![c],
                span: Span { file_id, start: 0, end: 1 },
            },
        ],
        errors_of(seq![c], file_id) == Seq::<LexerError>::empty(),
{
    let source = seq![c];
    let first = step(source, file_id, origin());
    assert(blanks_end(source, 0) == 0);
    lemma_byte_offset_ends(source);
    lemma_byte_offset_step(source, 0);
    lemma_utf8_len_bounds(c);
    assert(source.subrange(0, 1) == source);
    assert(first.token == TokenView {
        kind: punctuation(c)->0,
        lexeme: seq![c],
        span: Span { file_id, start: 0, end: 1 },
    });
    assert(blanks_end(source, 1) == 1);
    assert(step(source, file_id, first.after).token.kind == TokenType::Eof);
    assert(tokens_from(source, file_id, first.after) == Seq::<TokenView>::empty());
    assert(errors_from(source, file_id, first.after) == Seq::<LexerError>::empty());
}

/// Behind a line feed token the scan stands on the next line, at column 1.
/// No other token but a string literal, or what is left of one, changes the
/// line.
pub proof fn lemma_newline_accounting(source: Seq<char>, file_id: FileId, at: Position)
    requires
        0 <= at.index <= source.len(),
    ensures
        step(source, file_id, at).token.kind == TokenType::Newline ==> {
            &&& step(source, file_id, at).after.line == at.line + 1
            &&& step(source, file_id, at).after.column == 1
            &&& step(source, file_id, at).token.lexeme == seq!['\n']
        },
        step(source, file_id, at).token.kind != TokenType::Newline && step(
            source,
            file_id,
            at,
        ).token.kind != TokenType::String && step(source, file_id, at).token.kind
            != TokenType::Illegal ==> step(source, file_id, at).after.line == at.line,
{
    let start = blanks_end(source, at.index);
    lemma_run_end_bounds(source, at.index, |c: char| is_blank(c));
    if start < source.len() && source[start] == '\n' {
        assert(source.subrange(start, start + 1) == seq!['\n']);
    }
}

/// Nothing but blanks is skipped: the characters between the place a step
/// starts from and its token are all blanks, the token's lexeme is the text
/// from there to the place the step ends at, and it starts with a character
/// that is no blank.
pub proof fn lemma_only_blanks_are_skipped(source: Seq<char>, file_id: FileId, at: Position)
    requires
        0 <= at.index <= source.len(),
    ensures
        ({
            let first = blanks_end(source, at.index);
            let one = step(source, file_id, at);
            &&& forall|k: int| at.index <= k < first ==> is_blank(#[trigger] source[k])
            &&& one.token.lexeme == source.subrange(first, one.after.index)
            &&& one.token.kind != TokenType::Eof ==> {
                &&& one.token.lexeme.len() >= 1
                &&& one.token.lexeme[0] == source[first]
                &&& !is_blank(source[first])
            }
        }),
{
    lemma_run_end_bounds(source, at.index, |c: char| is_blank(c));
    lemma_run_end_is_maximal(source, at.index, |c: char| is_blank(c));
    lemma_step_advances(source, file_id, at);
}

/// Once the end of the text is reached it stays reached: asking again
/// gives `Eof` again, from the same place, and reports nothing.
pub proof fn lemma_eof_is_final(source: Seq<char>, file_id: FileId, at: Position)
    requires
        0 <= at.index <= source.len(),
        step(source, file_id, at).token.kind == TokenType::Eof,
    ensures
        step(source, file_id, at).errors == Seq::<LexerError>::empty(),
        step(source, file_id, at).token.lexeme == Seq::<char>::empty(),
        step(source, file_id, step(source, file_id, at).after) == step(source, file_id, at),
{
    let start = blanks_end(source, at.index);
    lemma_run_end_bounds(source, at.index, |c: char| is_blank(c));
    lemma_step_advances(source, file_id, at);
    assert(blanks_end(source, start) == start);
    assert(source.subrange(start, start) == Seq::<char>::empty());
}

/// Spans lie in the text and follow one another: a token's span does not
/// end before it starts, is as wide as the encoding of its lexeme, starts at
/// or behind the byte the step started from, and ends where the step ends;
/// so the token of the following step starts at or behind that end.
pub proof fn lemma_spans_in_order(source: Seq<char>, file_id: FileId, at: Position)
    requires
        0 <= at.index <= source.len(),
        encode_utf8(source).len() <= usize::MAX,
    ensures
        ({
            let one = step(source, file_id, at);
            let two = step(source, file_id, one.after);
            &&& one.token.span.file_id == file_id
            &&& byte_offset(source, at.index) <= one.token.span.start
            &&& one.token.span.start <= one.token.span.end
            &&& one.token.span.end == byte_offset(source, one.after.index)
            &&& one.token.span.end <= encode_utf8(source).len()
            &&& one.token.span.width() == encode_utf8(one.token.lexeme).len()
            &&& one.token.span.end <= two.token.span.start
        }),
{
    let one = step(source, file_id, at);
    let start = blanks_end(source, at.index);
    lemma_step_advances(source, file_id, at);
    lemma_step_advances(source, file_id, one.after);
    let next_start = blanks_end(source, one.after.index);
    lemma_byte_offset_grows(source, at.index, start);
    lemma_byte_offset_grows(source, one.after.index, next_start);
    lemma_bytes_between(source, start, one.after.index);
    lemma_bytes_between(source, next_start, source.len() as int);
    lemma_byte_offset_ends(source);
}

/// A number never swallows a `.` that no digit follows: the number in
/// front of it is an integer that ends before the `.`, and the `.` is the
/// next token, a `Dot`.
pub proof fn lemma_dot_after_integer(source: Seq<char>, file_id: FileId, at: Position)
    requires
        0 <= at.index <= source.len(),
        blanks_end(source, at.index) < source.len(),
        is_digit(source[blanks_end(source, at.index)]),
        ({
            let dot = digits_end(source, blanks_end(source, at.index) + 1);
            dot < source.len() && source[dot] == '.' && !fraction_at(source, dot)
        }),
    ensures
        ({
            let first = blanks_end(source, at.index);
            let dot = digits_end(source, first + 1);
            let one = step(source, file_id, at);
            let two = step(source, file_id, one.after);
            &&& one.token.kind == TokenType::Integer
            &&& one.token.lexeme == source.subrange(first, dot)
            &&& forall|k: int| 0 <= k < one.token.lexeme.len() ==> is_digit(one.token.lexeme[k])
            &&& two.token.kind == TokenType::Dot
            &&& two.token.lexeme == seq!['.']
        }),
{
    let first = blanks_end(source, at.index);
    let dot = digits_end(source, first + 1);
    lemma_run_end_bounds(source, at.index, |c: char| is_blank(c));
    lemma_run_end_bounds(source, first + 1, |c: char| is_digit(c));
    lemma_run_end_is_maximal(source, first + 1, |c: char| is_digit(c));
    let one = step(source, file_id, at);
    assert(one.after.index == dot);
    assert(blanks_end(source, dot) == dot);
    assert(source.subrange(dot, dot + 1) == seq!['.']);
    assert forall|k: int| 0 <= k < one.token.lexeme.len() implies is_digit(
        one.token.lexeme[k],
    ) by {
        assert(one.token.lexeme[k] == source[first + k]);
    }
}

/// The lexeme of a number: an integer is digits and nothing else; a float
/// is digits, one `.`, and digits again. Either way it starts and ends with
/// a digit.
pub proof fn lemma_number_shape(source: Seq<char>, file_id: FileId, at: Position)
    requires
        0 <= at.index <= source.len(),
    ensures
        ({
            let token = step(source, file_id, at).token;
            let first = blanks_end(source, at.index);
            let dot = digits_end(source, first + 1) - first;
            &&& token.kind == TokenType::Integer ==> token.lexeme.len() > 0 && forall|k: int|
                0 <= k < token.lexeme.len() ==> is_digit(#[trigger] token.lexeme[k])
            &&& token.kind == TokenType::Float ==> {
                &&& 0 < dot < token.lexeme.len() - 1
                &&& token.lexeme[dot] == '.'
                &&& forall|k: int|
                    0 <= k < token.lexeme.len() && k != dot ==> is_digit(
                        #[trigger] token.lexeme[k],
                    )
            }
        }),
{
    let first = blanks_end(source, at.index);
    lemma_run_end_bounds(source, at.index, |c: char| is_blank(c));
    let token = step(source, file_id, at).token;
    if first < source.len() && (token.kind == TokenType::Integer || token.kind
        == TokenType::Float) {
        let dot = digits_end(source, first + 1);
        lemma_run_end_bounds(source, first + 1, |c: char| is_digit(c));
        lemma_run_end_is_maximal(source, first + 1, |c: char| is_digit(c));
        lemma_number_end_bounds(source, first);
        if fraction_at(source, dot) {
            lemma_run_end_bounds(source, dot + 2, |c: char| is_digit(c));
            lemma_run_end_is_maximal(source, dot + 2, |c: char| is_digit(c));
        }
        assert forall|k: int| 0 <= k < token.lexeme.len() && k != dot - first implies is_digit(
            #[trigger] token.lexeme[k],
        ) by {
            assert(token.lexeme[k] == source[first + k]);
        }
    }
}

/// Only a `;` and a string literal report anything. A `;` is always one
/// `Illegal` token with one `UnnecessarySemicolon` error that spans just the
/// `;`, and the scan goes on right behind it.
pub proof fn lemma_who_reports(source: Seq<char>, file_id: FileId, at: Position)
    requires
        0 <= at.index <= source.len(),
    ensures
        ({
            let first = blanks_end(source, at.index);
            let one = step(source, file_id, at);
            &&& one.errors.len() > 0 ==> first < source.len() && (source[first] == ';'
                || source[first] == '"')
            &&& first < source.len() && source[first] == ';' ==> {
                &&& one.token.kind == TokenType::Illegal
                &&& one.token.lexeme == seq![';']
                &&& one.errors == seq![
                    LexerError {
                        kind: LexerErrorKind::UnnecessarySemicolon,
                        span: span_of(source, file_id, first, first + 1),
                    },
                ]
                &&& one.after.index == first + 1
            }
        }),
{
    let first = blanks_end(source, at.index);
    lemma_run_end_bounds(source, at.index, |c: char| is_blank(c));
    if first < source.len() && source[first] == ';' {
        assert(source.subrange(first, first + 1) == seq![';']);
    }
}

/// A string literal either closes or runs into the end of the text. If it
/// closes, the token is a `String` that ends with the closing quote. If it
/// does not, the token is `Illegal` and reaches to the end of the text, the
/// last error reported is `UnterminatedString` with a span from the opening
/// quote to the end of the text, and the next request finds the end of the
/// text.
pub proof fn lemma_string_outcome(source: Seq<char>, file_id: FileId, at: Position)
    requires
        0 <= at.index <= source.len(),
        blanks_end(source, at.index) < source.len(),
        source[blanks_end(source, at.index)] == '"',
    ensures
        ({
            let open = blanks_end(source, at.index);
            let one = step(source, file_id, at);
            let two = step(source, file_id, one.after);
            &&& one.token.kind == TokenType::String || one.token.kind == TokenType::Illegal
            &&& one.token.lexeme.len() >= 1
            &&& one.token.lexeme[0] == '"'
            &&& one.token.kind == TokenType::String ==> {
                &&& one.token.lexeme.len() >= 2
                &&& one.token.lexeme.last() == '"'
                &&& forall|k: int|
                    0 <= k < one.errors.len() ==> (#[trigger] one.errors[k]).kind
                        != LexerErrorKind::UnterminatedString
            }
            &&& one.token.kind == TokenType::Illegal ==> {
                &&& one.after.index == source.len()
                &&& one.errors.len() >= 1
                &&& one.errors.last() == unterminated(source, file_id, open, source.len() as int)
                &&& two.token.kind == TokenType::Eof
            }
        }),
{
    let open = blanks_end(source, at.index);
    lemma_run_end_bounds(source, at.index, |c: char| is_blank(c));
    let column = (at.column + (open - at.index)) as nat;
    lemma_scan_string_shape(source, file_id, open, open + 1, at.line, column + 1);
}

/// What [`scan_string`] promises wherever it starts: how it ends, and which
/// errors it can report.
proof fn lemma_scan_string_shape(
    source: Seq<char>,
    file_id: FileId,
    open: int,
    i: int,
    line: nat,
    column: nat,
)
    requires
        0 <= open < i <= source.len(),
    ensures
        ({
            let inside = scan_string(source, file_id, open, i, line, column);
            &&& i <= inside.end <= source.len()
            &&& inside.closed ==> {
                &&& i < inside.end
                &&& source[inside.end - 1] == '"'
                &&& forall|k: int|
                    0 <= k < inside.errors.len() ==> (#[trigger] inside.errors[k]).kind
                        != LexerErrorKind::UnterminatedString
            }
            &&& !inside.closed ==> {
                &&& inside.end == source.len()
                &&& inside.errors.len() >= 1
                &&& inside.errors.last() == unterminated(
                    source,
                    file_id,
                    open,
                    source.len() as int,
                )
            }
        }),
    decreases source.len() - i,
{
    if i >= source.len() {
    } else if source[i] == '"' {
    } else if source[i] == '\n' {
        lemma_scan_string_shape(source, file_id, open, i + 1, line + 1, 1);
    } else if source[i] == '\\' {
        if i + 1 < source.len() {
            lemma_scan_string_shape(source, file_id, open, i + 2, line, column + 2);
        }
    } else {
        lemma_scan_string_shape(source, file_id, open, i + 1, line, column + 1);
    }
}

/// A backslash in front of a character that starts no escape does not end
/// the literal: the error names that character and spans the two, and the
/// scan goes on behind them as if they were content.
pub proof fn lemma_invalid_escape_goes_on(
    source: Seq<char>,
    file_id: FileId,
    open: int,
    i: int,
    line: nat,
    column: nat,
)
    requires
        0 <= i,
        i + 1 < source.len(),
        source[i] == '\\',
        !is_escape(source[i + 1]),
    ensures
        ({
            let here = scan_string(source, file_id, open, i, line, column);
            let behind = scan_string(source, file_id, open, i + 2, line, column + 2);
            &&& here.errors == seq![
                LexerError {
                    kind: LexerErrorKind::InvalidEscapeSequence(source[i + 1]),
                    span: span_of(source, file_id, i, i + 2),
                },
            ] + behind.errors
            &&& here.end == behind.end
            &&& here.closed == behind.closed
            &&& here.line == behind.line
            &&& here.column == behind.column
        }),
{
}

/// The kinds that a word can have: identifier, boolean literal, keyword.
pub open spec fn is_word_kind(kind: TokenType) -> bool {
    kind == TokenType::Identifier || kind == TokenType::Bool || kind == TokenType::Let || kind
        == TokenType::If || kind == TokenType::Else || kind == TokenType::While || kind
        == TokenType::Struct || kind == TokenType::Fun || kind == TokenType::Return || kind
        == TokenType::Pub || kind == TokenType::Use
}

/// An identifier, boolean literal or keyword is a whole word: it starts
/// with a character that may start a word, goes on with characters that may
/// continue one, and is followed by none. Its kind is decided by the whole
/// lexeme, and it reports no error.
pub proof fn lemma_word_shape(source: Seq<char>, file_id: FileId, at: Position)
    requires
        0 <= at.index <= source.len(),
        is_word_kind(step(source, file_id, at).token.kind),
    ensures
        ({
            let one = step(source, file_id, at);
            &&& one.token.kind == word_kind(one.token.lexeme)
            &&& one.errors == Seq::<LexerError>::empty()
            &&& one.token.lexeme.len() >= 1
            &&& starts_word(one.token.lexeme[0])
            &&& forall|k: int|
                1 <= k < one.token.lexeme.len() ==> continues_word(#[trigger] one.token.lexeme[k])
            &&& one.after.index < source.len() ==> !continues_word(source[one.after.index])
        }),
{
    let first = blanks_end(source, at.index);
    lemma_run_end_bounds(source, at.index, |c: char| is_blank(c));
    lemma_run_end_bounds(source, first + 1, |c: char| continues_word(c));
    lemma_run_end_is_maximal(source, first + 1, |c: char| continues_word(c));
    let one = step(source, file_id, at);
    assert forall|k: int| 1 <= k < one.token.lexeme.len() implies continues_word(
        #[trigger] one.token.lexeme[k],
    ) by {
        assert(one.token.lexeme[k] == source[first + k]);
    }
}

/// No token of a stream is `Eof`, every span of a stream lies in the text at
/// or behind the byte the scan started from, and the spans follow one
/// another without overlap.
pub proof fn lemma_stream_in_order(source: Seq<char>, file_id: FileId, at: Position)
    requires
        0 <= at.index <= source.len(),
        encode_utf8(source).len() <= usize::MAX,
    ensures
        ({
            let stream = tokens_from(source, file_id, at);
            &&& forall|k: int|
                0 <= k < stream.len() ==> {
                    &&& (#[trigger] stream[k]).kind != TokenType::Eof
                    &&& byte_offset(source, at.index) <= stream[k].span.start
                    &&& stream[k].span.start < stream[k].span.end
                    &&& stream[k].span.end <= encode_utf8(source).len()
                }
            &&& forall|j: int, k: int|
                0 <= j < k < stream.len() ==> (#[trigger] stream[j]).span.end <= (
                #[trigger] stream[k]).span.start
        }),
    decreases source.len() - at.index,
{
    let one = step(source, file_id, at);
    let stream = tokens_from(source, file_id, at);
    lemma_step_advances(source, file_id, at);
    lemma_spans_in_order(source, file_id, at);
    if one.token.kind != TokenType::Eof {
        let rest = tokens_from(source, file_id, one.after);
        lemma_stream_in_order(source, file_id, one.after);
        let start = blanks_end(source, at.index);
        lemma_byte_offset_grows(source, start, one.after.index);
        lemma_byte_offset_grows(source, at.index, one.after.index);
        assert forall|k: int| 0 <= k < stream.len() implies {
            &&& (#[trigger] stream[k]).kind != TokenType::Eof
            &&& byte_offset(source, at.index) <= stream[k].span.start
            &&& stream[k].span.start < stream[k].span.end
            &&& stream[k].span.end <= encode_utf8(source).len()
        } by {
            if k > 0 {
                assert(stream[k] == rest[k - 1]);
            }
        }
        assert forall|j: int, k: int| 0 <= j < k < stream.len() implies (
        #[trigger] stream[j]).span.end <= (#[trigger] stream[k]).span.start by {
            assert(stream[k] == rest[k - 1]);
            if j > 0 {
                assert(stream[j] == rest[j - 1]);
            }
        }
    }
}

} // verus!
