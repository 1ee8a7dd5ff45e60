//! The record of one lexical failure.

use vstd::prelude::*;
use vstd::string::StringExecFns;
use crate::text::{decimal, push_decimal};

verus! {

/// What a [`LexError`] stands for: where the failure was found and what it
/// was.
pub struct ErrorRecord {
    pub line: nat,
    pub offset: nat,
    pub message: Seq<char>,
}

impl ErrorRecord {
    /// The one-line report of the failure: `[line N] Error: message`, with
    /// the line in decimal.
    pub open spec fn report(self) -> Seq<char> {
        "[line "@ + decimal(self.line) + "] Error: "@ + self.message
    }
}

/// One lexical failure: the line it was found on, the absolute character
/// offset of the lexeme that caused it, and a static message.
#[derive(Debug, Clone, Copy, PartialEq, Eq)]
pub struct LexError {
    line: usize,
    location: usize,
    error: &'static str,
}

impl View for LexError {
    type V = ErrorRecord;

    closed spec fn view(&self) -> ErrorRecord {
        ErrorRecord { line: self.line as nat, offset: self.location as nat, message: self.error@ }
    }
}

impl From<(usize, usize, &'static str)> for LexError {
    /// The record of the failure `tuple.2`, found on line `tuple.0` at
    /// character offset `tuple.1`.
    fn from(tuple: (usize, usize, &'static str)) -> (record: Self)
        ensures
            record@ == (ErrorRecord {
                line: tuple.0 as nat,
                offset: tuple.1 as nat,
                message: tuple.2@,
            }),
    {
        let (line, location, error) = tuple;
        Self { line, location, error }
    }
}

impl vstd::std_specs::convert::FromSpecImpl<(usize, usize, &'static str)> for LexError {
    open spec fn obeys_from_spec() -> bool {
        true
    }

    closed spec fn from_spec(tuple: (usize, usize, &'static str)) -> Self {
        LexError { line: tuple.0, location: tuple.1, error: tuple.2 }
    }
}

impl LexError {
    /// The line counter at the time the failure was recorded.
    pub fn line(&self) -> (line: usize)
        ensures
            line == self@.line,
    {
        self.line
    }

    /// The absolute character offset of the failing lexeme's first character.
    pub fn location(&self) -> (location: usize)
        ensures
            location == self@.offset,
    {
        self.location
    }

    /// The static message that names the failure.
    pub fn message(&self) -> (message: &'static str)
        ensures
            message@ == self@.message,
    {
        self.error
    }

    /// The one-line report of the failure, as it is shown to a user:
    /// `[line N] Error: message`.
    pub fn to_string(&self) -> (text: String)
        ensures
            text@ == self@.report(),
    {
        let mut text = String::from_str("[line ");
        push_decimal(&mut text, self.line);
        text.append("] Error: ");
        text.append(self.error);
        text
    }
}

} // verus!
