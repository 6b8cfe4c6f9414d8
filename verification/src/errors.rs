//! Lexical errors.
use vstd::prelude::*;
use crate::span::Span;

verus! {

/// What went wrong.
#[derive(Debug, Clone, Copy, PartialEq, Eq, Structural)]
pub enum LexerErrorKind {
    /// A string literal was still open at the end of the input.
    UnterminatedString,
    /// A backslash inside a string literal was followed by this character,
    /// which starts no escape.
    InvalidEscapeSequence(char),
    /// A `;` was found; the language has no use for it.
    UnnecessarySemicolon,
}

/// A lexical error together with the bytes it is about.
#[derive(Debug, Clone, Copy, PartialEq, Eq, Structural)]
pub struct LexerError {
    pub kind: LexerErrorKind,
    pub span: Span,
}

impl LexerError {
    pub fn new(kind: LexerErrorKind, span: Span) -> (error: LexerError)
        ensures
            error == (LexerError { kind, span }),
    {
        LexerError { kind, span }
    }
}

} // verus!
