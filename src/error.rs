use vstd::prelude::*;

verus! {

/// The kinds of failure that the index and the segment format report.
#[derive(Clone, Copy, Debug, PartialEq, Eq, Structural)]
pub enum DbError {
    /// Row counts or vector lengths do not match what the call needs.
    PreconditionViolation,
    /// A file could not be created, written, read, renamed or synced.
    IoFailure,
    /// A segment's metadata or contents are inconsistent.
    DataCorruption,
    /// A score that is not a number was met while ordering results.
    UnsupportedNumericState,
}

} // verus!
