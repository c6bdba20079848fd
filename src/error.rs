//! Errors of a synchronisation run and of the store.

use vstd::prelude::*;

verus! {

/// What can end a run or a store operation.
#[derive(Clone, Copy, Debug, PartialEq, Eq, Structural)]
pub enum SyncError {
    /// Transport failure or a non-success status.
    FetchError,
    /// A malformed compact-index line or page.
    ParseError,
    /// Bytes that do not match the identifier claimed for them.
    IntegrityMismatch,
    /// An archive without a `metadata.gz` member.
    MetadataMissing,
    /// A blob that the store does not hold.
    NotFound,
    /// A failure to persist.
    StoreIoError,
    /// An answer that does not fit the request the run is waiting on.
    UnexpectedEvent,
}

} // verus!
