//! The ways in which an operation of the library can fail.

use vstd::prelude::*;

verus! {

/// How reading or writing a file failed.
#[derive(Copy, Clone, Debug, PartialEq, Eq, Structural)]
pub enum IoFailure {
    /// The file does not exist.
    NotFound,
    /// The file may not be read or written.
    PermissionDenied,
    /// Any other failure.
    Other,
}

/// An error of the object mapping protocol, with the message of its cause.
#[derive(Clone, Debug, PartialEq, Eq)]
pub enum WXFError {
    /// Any failure, by its message.
    Custom(String),
}

/// All errors that the library reports.
#[derive(Clone, Debug, PartialEq, Eq)]
pub enum WolframError {
    /// A value that had to be present was missing.
    NullException(String),
    /// A document could not be parsed; holds the parser's message.
    SyntaxError(String),
    /// A file could not be read or written.
    IOError(IoFailure),
    /// A namespace or a name holds a character that no symbol may hold.
    InvalidSymbol(String),
    /// The value holds a variant that has no encoding.
    NotImplemented,
    /// The value holds a binary64 number whose text was not supplied.
    MissingDecimal,
}

} // verus!
