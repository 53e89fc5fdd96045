//! Errors the relay reports to its callers.

use vstd::prelude::*;

verus! {

/// What can go wrong in the relay.
#[derive(Clone, Copy, Debug, PartialEq, Eq, Structural)]
pub enum RelayError {
    /// A user with the name already exists: the store's unique index refused
    /// a second row. Resolution treats it as "someone else created it".
    IdentityConflict,
    /// The store cannot take the operation (it is full, or its clock cannot
    /// be read).
    StoreUnavailable,
    /// The name cannot identify a user: it is empty.
    UserResolutionFailed,
}

} // verus!
