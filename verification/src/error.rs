//! What the parser reports.

use vstd::prelude::*;

verus! {

#[derive(Debug, Clone, Copy, PartialEq, Eq, Structural)]
pub enum ErrorKind {
    /// A token stands where no rule of the grammar can take it.
    UnexpectedToken,
}

/// An error with the byte span of the source text that it is about.
#[derive(Debug, Clone, Copy, PartialEq, Eq, Structural)]
pub struct Error {
    pub kind: ErrorKind,
    pub index: usize,
    pub len: usize,
}

impl Error {
    pub fn new(kind: ErrorKind, index: usize, len: usize) -> (e: Error)
        ensures
            e == (Error { kind, index, len }),
    {
        Error { kind, index, len }
    }
}

} // verus!
