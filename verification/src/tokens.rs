//! Tokens and their kinds.
use vstd::prelude::*;
use crate::span::Span;

verus! {

/// The closed set of token kinds.
#[derive(Debug, Clone, Copy, PartialEq, Eq, Hash, Structural)]
pub enum TokenType {
    // Punctuation and operators.
    LeftBrace,
    RightBrace,
    LeftParen,
    RightParen,
    Colon,
    DoubleColon,
    Equal,
    Arrow,
    Caret,
    Ampersand,
    Dot,
    Comma,
    Plus,
    Minus,
    Star,
    Slash,
    // Literals.
    Identifier,
    Integer,
    Float,
    String,
    Bool,
    // Keywords.
    Let,
    If,
    Else,
    While,
    Struct,
    Fun,
    Return,
    Pub,
    Use,
    // Structure.
    Newline,
    /// End of input. Returned by the scanner, never part of a token stream.
    Eof,
    /// Placeholder for text that forms no token.
    Illegal,
}

/// A classified piece of source text.
#[derive(Debug, Clone, PartialEq)]
pub struct Token {
    pub kind: TokenType,
    /// The exact text the token covers.
    pub lexeme: String,
    pub span: Span,
}

/// What a [`Token`] is to a contract: its kind, its text as characters, and
/// its span.
pub struct TokenView {
    pub kind: TokenType,
    pub lexeme: Seq<char>,
    pub span: Span,
}

/// The views of a run of tokens, in order.
pub open spec fn views(tokens: Seq<Token>) -> Seq<TokenView> {
    tokens.map_values(|token: Token| token@)
}

impl View for Token {
    type V = TokenView;

    open spec fn view(&self) -> TokenView {
        TokenView { kind: self.kind, lexeme: self.lexeme@, span: self.span }
    }
}

} // verus!
