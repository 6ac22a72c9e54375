//! The store's error taxonomy.
use vstd::prelude::*;

verus! {

/// Why an upload was rejected before anything was reserved.
#[derive(Clone, Copy, Debug, PartialEq, Eq, Structural)]
pub enum InvalidInput {
    Empty,
    TooLarge,
    UnknownType,
}

#[derive(Clone, Copy, Debug, PartialEq, Eq, Structural)]
pub enum StoreError {
    /// The charge would pass the tenant's limit; nothing was committed.
    QuotaExceeded,
    /// The object, entry or token is absent.
    NotFound,
    /// An item with the same key is already stored.
    Conflict,
    /// A blob read, write or delete failed.
    IoFailure,
    /// The input was refused before any state changed.
    Invalid(InvalidInput),
}

} // verus!
