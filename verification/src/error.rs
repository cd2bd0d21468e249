//! Error taxonomy for the corpus I/O components.

use vstd::prelude::*;

verus! {

/// Kind of an underlying I/O failure, as far as the library distinguishes them.
///
/// `NotFound` matters to the split reader: a missing part file is the normal
/// end-of-sequence signal once at least one part has been read, and a fatal
/// failure otherwise.
#[derive(Debug, Clone, Copy, PartialEq, Eq, Structural)]
pub enum IoKind {
    NotFound,
    Other,
}

/// Failures surfaced by the library.
///
/// Every failure is returned to the immediate caller; nothing is retried or
/// silently skipped.
#[derive(Debug, Clone, Copy, PartialEq, Eq, Structural)]
pub enum Error {
    /// An underlying I/O operation failed.
    Io(IoKind),
    /// A rotation or insertion target already exists; never overwritten.
    AlreadyExists,
    /// A record failed to parse.
    MalformedRecord,
}

} // verus!
