//! The error types of the crate.

use vstd::prelude::*;

verus! {

/// Why a buffer (or a file) was refused as a document.
#[derive(Clone, Copy, Debug, PartialEq, Eq, Structural)]
pub enum OpenError {
    /// The path could not be read. Only path-based loading reports this;
    /// parsing a buffer never does.
    FileNotFound,
    /// The buffer is shorter than the fixed container header.
    TooShort,
    /// The container signature is wrong, the record count is zero, or a
    /// record offset is out of order or past the end of the buffer.
    MalformedContainer,
    /// Record 0 is too short for the declared header fields, or the EXTH
    /// block is truncated.
    MalformedHeader,
}

/// Why the text stream could not be extracted. Metadata accessors are not
/// affected by any of these.
#[derive(Clone, Copy, Debug, PartialEq, Eq, Structural)]
pub enum ExtractionError {
    /// The header names a compression scheme this reader does not decode.
    UnsupportedCompression,
    /// The header declares more text records than the container holds.
    MissingTextRecords,
    /// A compressed text record does not decode.
    CorruptRecord,
}

/// The queried metadata tag is not in the document: a normal, expected
/// outcome, not a fault.
#[derive(Clone, Copy, Debug, PartialEq, Eq, Structural)]
pub struct FieldAbsent;

} // verus!
