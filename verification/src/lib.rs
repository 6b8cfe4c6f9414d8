//! A hand-written scanner that turns source text into classified tokens.
//!
//! The scanner walks the text one character at a time, keeps byte-accurate
//! positions for every token, and reports malformed input to a diagnostics
//! collector without ever aborting the scan.
//!
//! [`grammar`] says what scanning means, [`scanner`] does it, and [`laws`]
//! proves what holds of every scan.
pub mod span;
pub mod tokens;
pub mod errors;
pub mod diagnostics;
pub mod text;
pub mod chars;
pub mod grammar;
pub mod scanner;
pub mod laws;

pub use diagnostics::DiagnosticsEngine;
pub use errors::{LexerError, LexerErrorKind};
pub use scanner::Lexer;
pub use span::{FileId, Span};
pub use tokens::{Token, TokenType, TokenView};
