//! Fatal decode and consistency errors.
//!
//! Every failure is fatal to the whole run: coverage reports are expected to
//! be exact, so no partial output is ever produced. Each kind of failure has
//! a distinct nonzero code, suitable as a process exit status.

use vstd::prelude::*;

verus! {

/// The two input files use a little-endian magic number; a mismatch means a
/// wrong file type, a wrong byte order, or a truncated header.
pub const MAGIC_MISMATCH: i32 = 2;

/// A length-prefixed string field held invalid UTF-8, ran past its record,
/// or a line record listed a line number before any filename switch.
pub const MALFORMED_STRING: i32 = 3;

/// A record's declared length disagrees with the bytes its decoder consumed,
/// or a record ran past the end of the buffer.
pub const RECORD_LENGTH_MISMATCH: i32 = 4;

/// A blocks, arcs, lines or counts record appeared before any function record
/// had established the current function.
pub const MISSING_FUNCTION_CONTEXT: i32 = 5;

/// The data file's checksums for a function disagree with the notes file:
/// the two files come from different compilations.
pub const CHECKSUM_MISMATCH: i32 = 6;

/// A function's recorded raw counts are fewer or more than its instrumented
/// (non-spanning-tree) arcs.
pub const COUNT_ARITY_MISMATCH: i32 = 7;

/// Flow conservation failed to determine every arc count: the graph is
/// inconsistent with the spanning-tree instrumentation scheme.
pub const UNRESOLVABLE_FLOW_GRAPH: i32 = 8;

/// A fatal decode or consistency error, carrying its distinct nonzero code.
#[derive(Clone, Copy, Debug, PartialEq, Eq, Structural)]
pub struct ParseError {
    pub code: i32,
}

impl ParseError {
    /// Wraps a raw error code.
    pub fn new(code: i32) -> (r: ParseError)
        ensures
            r.code == code,
    {
        ParseError { code }
    }
}

} // verus!
