//! The failures the storage layer reports.

use vstd::prelude::*;

use crate::store::Store;

verus! {

#[verifier::external_type_specification]
#[verifier::external_body]
pub struct ExError(failure::Error);

/// Why a storage operation failed. No failure is retried or repaired here.
#[derive(Debug)]
pub enum StorageError {
    /// A store that already holds bytes does not begin with the header of its
    /// kind.
    FormatMismatch {
        /// The store whose header was refused.
        store: Store,
    },
    /// A record does not have the size or shape its format fixes.
    Corrupt {
        /// The store the record belongs to.
        store: Store,
        /// The position of the record in that store.
        index: usize,
    },
    /// The length of a block differs from the length the tree records for it.
    SizeMismatch {
        /// The length the tree records.
        expected: usize,
        /// The length that was handed in.
        actual: usize,
    },
    /// A tree node needed to place a block is not among the cached nodes.
    MissingNode {
        /// The position of the absent node in the flat tree.
        index: usize,
    },
    /// A backend failed; its error is passed on as it came.
    BackendFailure {
        /// The store that failed.
        store: Store,
        /// The byte offset of the request.
        offset: usize,
        /// The logical position the request was made for.
        index: usize,
        /// The backend's own error.
        cause: failure::Error,
    },
}

} // verus!
