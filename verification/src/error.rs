//! The error type shared by the parser, the string utilities and the conversions.
use vstd::prelude::*;

verus! {

/// The errors that the operations of this library can report.
#[derive(Debug, Clone, PartialEq, Eq)]
pub enum Error {
    /// A free-form error message.
    Message(String),
    /// An escape sequence with an unknown escape character.
    InvalidEscape(char),
    /// A `\u` escape sequence whose four characters are not a valid unicode code point.
    InvalidUnicodeCodePoint(String),
    /// The input ended in the middle of an escape sequence.
    Eof,
    /// The input is not a valid HCL document.
    Parse,
}

impl Error {
    /// Creates an error with a free-form message.
    pub fn new(msg: String) -> (e: Error)
        ensures
            e == Error::Message(msg),
    {
        Error::Message(msg)
    }
}

} // verus!
