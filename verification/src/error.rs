//! The error kind surfaced by the request parser and the connection layer.

use vstd::prelude::*;

verus! {

/// One error kind per failure class of the connection layer: a failed line
/// read, a failed value parse, and a malformed request head.  Every hard
/// parser failure is surfaced as `ReadHeaderError`.
#[derive(Clone, Copy, PartialEq, Eq, Structural, Debug)]
pub enum ServerError {
    ReadLineError,
    ParseError,
    ReadHeaderError,
}

impl ServerError {
    /// A short fixed name for the error kind.
    pub fn as_str(self) -> (r: &'static str)
        ensures
            self is ReadLineError ==> r@ == "ReadLineError"@,
            self is ParseError ==> r@ == "ParseError"@,
            self is ReadHeaderError ==> r@ == "ReadHeaderError"@,
    {
        match self {
            ServerError::ReadLineError => "ReadLineError",
            ServerError::ParseError => "ParseError",
            ServerError::ReadHeaderError => "ReadHeaderError",
        }
    }
}

} // verus!
