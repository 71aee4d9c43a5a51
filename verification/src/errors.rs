//! Error taxonomy for the record-parsing stage.
//!
//! A malformed individual record never aborts a whole run: these values are
//! reported per record, and processing continues.

use vstd::prelude::*;

verus! {

/// What went wrong with one input record.
#[derive(Clone, Copy, PartialEq, Eq, Structural, Debug)]
pub enum ParseError {
    /// The record's severity token does not name any recognized severity.
    UnknownSeverity,
    /// The transport failed to produce the raw record at all.
    RecordReadError,
    /// The raw record does not have the expected shape (field count or types).
    DeserializeError,
}

} // verus!
