//! The error taxonomy of the library.
//!
//! Storage-engine and lock failures are wrapped into these variants at the
//! store boundary; no raw engine error ever reaches a caller.

use vstd::prelude::*;

verus! {

/// Everything a store operation can report.
#[derive(Clone, Copy, Debug, PartialEq, Eq, Structural)]
pub enum DocuError {
    /// A scriptlet with the same name already exists; nothing was written.
    Conflict,
    /// A targeted name or id does not exist (distinct from an empty result).
    NotFound,
    /// The backing storage cannot be used (also reported when the id space
    /// is exhausted, so that no two rows ever share an id).
    StorageUnavailable,
    /// The exclusive access point to the store could not be acquired. The
    /// store itself serializes access by `&mut` ownership; this variant is
    /// for an edge that shares one store behind a lock and finds that lock
    /// unusable.
    AccessContention,
}

impl DocuError {
    /// A short human-readable description, in place of `Display`.
    pub fn message(&self) -> (r: &'static str)
        ensures
            *self is Conflict ==> r@ == "a scriptlet with this name already exists"@,
            *self is NotFound ==> r@ == "no such tool or scriptlet"@,
            *self is StorageUnavailable ==> r@ == "the scriptlet storage is unavailable"@,
            *self is AccessContention ==> r@ == "the scriptlet storage is locked"@,
    {
        match self {
            DocuError::Conflict => "a scriptlet with this name already exists",
            DocuError::NotFound => "no such tool or scriptlet",
            DocuError::StorageUnavailable => "the scriptlet storage is unavailable",
            DocuError::AccessContention => "the scriptlet storage is locked",
        }
    }
}

} // verus!
