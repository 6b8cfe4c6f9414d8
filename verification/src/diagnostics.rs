//! The collector that error records are appended to.
use vstd::prelude::*;
use crate::errors::LexerError;

verus! {

/// An append-only list of the errors reported so far, oldest first.
#[derive(Debug)]
pub struct DiagnosticsEngine {
    errors: Vec<LexerError>,
}

impl View for DiagnosticsEngine {
    type V = Seq<LexerError>;

    closed spec fn view(&self) -> Seq<LexerError> {
        self.errors@
    }
}

impl DiagnosticsEngine {
    /// A collector that holds no error yet.
    pub fn new() -> (engine: DiagnosticsEngine)
        ensures
            engine@ == Seq::<LexerError>::empty(),
    {
        DiagnosticsEngine { errors: Vec::new() }
    }

    /// Appends `error`; what was recorded before stays as it is.
    pub fn add_error(&mut self, error: LexerError)
        ensures
            final(self)@ == old(self)@.push(error),
    {
        self.errors.push(error);
    }

    /// Whether any error was recorded.
    pub fn has_errors(&self) -> (any: bool)
        ensures
            any == (self@.len() > 0),
    {
        self.errors.len() > 0
    }

    /// The recorded errors, oldest first.
    pub fn errors(&self) -> (errors: &Vec<LexerError>)
        ensures
            errors@ == self@,
    {
        &self.errors
    }
}

} // verus!
