//! Errors of the library.

use vstd::prelude::*;

verus! {

/// Matcher related errors.
#[derive(Debug, Clone)]
pub enum Matcher {
    /// The matcher definition could not be parsed.
    Parse(String),
}

/// Handler related errors.
#[derive(Debug, Clone)]
pub struct Handler {
    pub reason: String,
}

impl Handler {
    /// Creates a handler error with the given reason.
    pub fn new(reason: &str) -> (r: Self)
        ensures
            r.reason@ == reason@,
    {
        Handler { reason: reason.to_string() }
    }
}

/// A byte which is not expected at the given place of the input.
#[derive(Debug, Clone, Copy, PartialEq, Eq, Structural)]
pub struct IncorrectInput {
    pub byte: u8,
    pub idx: usize,
}

impl IncorrectInput {
    /// Creates a new incorrect input error.
    pub fn new(byte: u8, idx: usize) -> (r: Self)
        ensures
            r.byte == byte,
            r.idx == idx,
    {
        IncorrectInput { byte, idx }
    }
}

/// Input data stream ended but data were still expected.
#[derive(Debug, Clone, Copy, PartialEq, Eq, Structural)]
pub struct InputTerminated {
    pub idx: usize,
}

impl InputTerminated {
    /// Creates a new input terminated error.
    pub fn new(idx: usize) -> (r: Self)
        ensures
            r.idx == idx,
    {
        InputTerminated { idx }
    }
}

/// Path related error.
#[derive(Debug, Clone)]
pub struct Path {
    pub path: String,
}

impl Path {
    /// Creates a new path error for the given path string.
    pub fn new(path: &str) -> (r: Self)
        ensures
            r.path@ == path@,
    {
        Path { path: path.to_string() }
    }
}

/// Bytes which are not valid UTF-8.
#[derive(Debug, Clone, Copy, PartialEq, Eq, Structural)]
pub struct Utf8Error {
    /// Index in the whole input where the invalid sequence starts.
    pub idx: usize,
}

/// General error.
#[derive(Debug, Clone)]
pub enum General {
    Path(Path),
    Handler(Handler),
    Matcher(Matcher),
    Utf8Error(Utf8Error),
    IncorrectInput(IncorrectInput),
    InputTerminated(InputTerminated),
}

} // verus!
