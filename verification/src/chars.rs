//! The character classes that the scanner tells apart.
use vstd::prelude::*;
use crate::tokens::TokenType;

verus! {

/// Horizontal whitespace: space, tab and carriage return. A line feed is a
/// token of its own and is not part of this class.
pub open spec fn is_blank(c: char) -> bool {
    c == ' ' || c == '\t' || c == '\r'
}

/// An ASCII decimal digit.
pub open spec fn is_digit(c: char) -> bool {
    '0' <= c <= '9'
}

/// What `char::is_alphabetic` answers for `c`: whether `c` has Unicode's
/// `Alphabetic` property, by the tables of the standard library in use.
pub uninterp spec fn unicode_alphabetic(c: char) -> bool;

/// What `char::is_alphanumeric` answers for `c`: whether `c` is alphabetic
/// or numeric in Unicode's sense, by the tables of the standard library in
/// use.
pub uninterp spec fn unicode_alphanumeric(c: char) -> bool;

/// Taken on trust from the standard library, not proved: the answer of
/// `char::is_alphabetic` depends on nothing but `c`. Which characters it
/// accepts is not stated; the answer only gets the name
/// [`unicode_alphabetic`].
pub assume_specification[ char::is_alphabetic ](c: char) -> (yes: bool)
    ensures
        yes == unicode_alphabetic(c),
;

/// Taken on trust from the standard library, not proved: the answer of
/// `char::is_alphanumeric` depends on nothing but `c`. Which characters it
/// accepts is not stated; the answer only gets the name
/// [`unicode_alphanumeric`].
pub assume_specification[ char::is_alphanumeric ](c: char) -> (yes: bool)
    ensures
        yes == unicode_alphanumeric(c),
;

/// A character that may begin an identifier or keyword.
pub open spec fn starts_word(c: char) -> bool {
    unicode_alphabetic(c) || c == '_'
}

/// A character that may continue an identifier or keyword.
pub open spec fn continues_word(c: char) -> bool {
    unicode_alphanumeric(c) || c == '_'
}

/// A character that may follow a backslash inside a string literal.
pub open spec fn is_escape(c: char) -> bool {
    c == '"' || c == '\\' || c == 'n' || c == 'r' || c == 't'
}

/// The kind of the token that `c` forms all by itself, whatever follows it;
/// `None` if `c` is no such character.
pub open spec fn punctuation(c: char) -> Option<TokenType> {
    if c == '{' {
        Some(TokenType::LeftBrace)
    } else if c == '}' {
        Some(TokenType::RightBrace)
    } else if c == '(' {
        Some(TokenType::LeftParen)
    } else if c == ')' {
        Some(TokenType::RightParen)
    } else if c == '=' {
        Some(TokenType::Equal)
    } else if c == '^' {
        Some(TokenType::Caret)
    } else if c == '&' {
        Some(TokenType::Ampersand)
    } else if c == '.' {
        Some(TokenType::Dot)
    } else if c == ',' {
        Some(TokenType::Comma)
    } else if c == '+' {
        Some(TokenType::Plus)
    } else if c == '*' {
        Some(TokenType::Star)
    } else if c == '/' {
        Some(TokenType::Slash)
    } else {
        None
    }
}

/// Whether `c` is a blank.
pub fn blank(c: char) -> (yes: bool)
    ensures
        yes == is_blank(c),
{
    c == ' ' || c == '\t' || c == '\r'
}

/// Whether `c` is an ASCII decimal digit.
pub fn digit(c: char) -> (yes: bool)
    ensures
        yes == is_digit(c),
{
    '0' <= c && c <= '9'
}

/// Whether `c` may begin an identifier or keyword.
pub fn word_start(c: char) -> (yes: bool)
    ensures
        yes == starts_word(c),
{
    c.is_alphabetic() || c == '_'
}

/// Whether `c` may continue an identifier or keyword.
pub fn word_part(c: char) -> (yes: bool)
    ensures
        yes == continues_word(c),
{
    c.is_alphanumeric() || c == '_'
}

/// Whether `c` may follow a backslash inside a string literal.
pub fn escape(c: char) -> (yes: bool)
    ensures
        yes == is_escape(c),
{
    c == '"' || c == '\\' || c == 'n' || c == 'r' || c == 't'
}

/// The kind of the token that `c` forms all by itself, if it forms one.
pub fn punctuation_kind(c: char) -> (kind: Option<TokenType>)
    ensures
        kind == punctuation(c),
{
    match c {
        '{' => Some(TokenType::LeftBrace),
        '}' => Some(TokenType::RightBrace),
        '(' => Some(TokenType::LeftParen),
        ')' => Some(TokenType::RightParen),
        '=' => Some(TokenType::Equal),
        '^' => Some(TokenType::Caret),
        '&' => Some(TokenType::Ampersand),
        '.' => Some(TokenType::Dot),
        ',' => Some(TokenType::Comma),
        '+' => Some(TokenType::Plus),
        '*' => Some(TokenType::Star),
        '/' => Some(TokenType::Slash),
        _ => None,
    }
}

} // verus!
