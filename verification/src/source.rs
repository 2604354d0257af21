//! What a caller read from a counter source, and the ways a sample can fail.

use vstd::prelude::*;

verus! {

/// Why the text of a counter source was rejected.
#[derive(Clone, Copy, Debug, PartialEq, Eq, Structural)]
pub enum ParseError {
    /// The line has fewer fields than the counters take.
    MissingField,
    /// A field that holds a counter is not an integer of the kind the counter takes.
    InvalidNumber,
}

/// Why a sample could not be taken.
#[derive(Clone, Copy, Debug, PartialEq, Eq, Structural)]
pub enum MonitorError {
    /// The counter source could not be read.
    Io,
    /// The counter source does not exist: the process is gone.
    NotFound,
    /// The counter source was read, and its text is malformed.
    Parse(ParseError),
}

/// The outcome of one attempt to read a counter source.
#[derive(Clone, Debug)]
pub enum Reading {
    /// The bytes that were read.
    Content(Vec<u8>),
    /// The source does not exist.
    NotFound,
    /// The source exists and could not be read.
    Unreadable,
}

} // verus!
