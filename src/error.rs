//! The one error type of the lexer and the generator.
use vstd::prelude::*;
use crate::token::Location;

verus! {

/// What went wrong.
#[derive(Debug, Clone, Copy, PartialEq, Eq, Structural)]
pub enum ErrorKind {
    /// A backslash inside a quoted string is followed by a character that the
    /// escape table does not hold.
    BadEscape,
    /// The input ends inside a quoted string.
    UnterminatedString,
    /// A key was expected and another token came.
    ExpectedIdentifier,
    /// A `:` was expected after a key and another token came.
    ExpectedColon,
    /// A quoted value was expected after `:` and another token came.
    ExpectedString,
    /// The input ends after a key or after its `:`.
    IncompletePair,
}

/// An error and the location it is reported at.
#[derive(Debug)]
pub struct Error {
    pub kind: ErrorKind,
    pub location: Location,
}

/// The mathematical value of an error: its kind and position.
pub struct Fault {
    pub kind: ErrorKind,
    pub line: nat,
    pub column: nat,
}

impl View for Error {
    type V = Fault;

    open spec fn view(&self) -> Fault {
        Fault {
            kind: self.kind,
            line: self.location.line_number as nat,
            column: self.location.column_number as nat,
        }
    }
}

/// The words that report each kind of error.
pub open spec fn message_of(k: ErrorKind) -> Seq<char> {
    match k {
        ErrorKind::BadEscape => "unsupported escape sequence"@,
        ErrorKind::UnterminatedString => "unexpected end of input within string"@,
        ErrorKind::ExpectedIdentifier => "expected identifier"@,
        ErrorKind::ExpectedColon => "expected `:`"@,
        ErrorKind::ExpectedString => "expected string"@,
        ErrorKind::IncompletePair => "unexpected end of input, incomplete key/value pair"@,
    }
}

impl ErrorKind {
    /// The words that report this kind of error.
    pub fn message(&self) -> (r: &'static str)
        ensures
            r@ == message_of(*self),
    {
        match self {
            ErrorKind::BadEscape => "unsupported escape sequence",
            ErrorKind::UnterminatedString => "unexpected end of input within string",
            ErrorKind::ExpectedIdentifier => "expected identifier",
            ErrorKind::ExpectedColon => "expected `:`",
            ErrorKind::ExpectedString => "expected string",
            ErrorKind::IncompletePair => "unexpected end of input, incomplete key/value pair",
        }
    }
}

} // verus!
