//! The outcome of a parser that did not produce a value.
use vstd::prelude::*;

verus! {

/// Why a parser rejected its input.
#[derive(Debug, Clone, Copy, PartialEq, Eq, Structural)]
pub enum ErrorKind {
    /// The input does not start with the expected fixed bytes.
    Tag,
    /// A parsed value failed its check.
    Verify,
    /// The input ended before a field that must be complete.
    Eof,
}

/// A parser's failure.
#[derive(Debug, Clone, Copy, PartialEq, Eq, Structural)]
pub enum ParseError {
    /// The input is a proper prefix of what the parser could accept: at least
    /// `needed` more bytes must arrive before it can decide.
    Incomplete { needed: usize },
    /// The input is rejected; `offset` is the position in the input at which
    /// the rejected element starts.
    Error { offset: usize, kind: ErrorKind },
}

} // verus!
