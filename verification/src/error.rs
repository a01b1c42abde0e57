//! The error taxonomy of the library. Every failure is an expected,
//! recoverable condition reported through a `Result`; no operation
//! panics on inputs within its documented domain.

use vstd::prelude::*;

verus! {

/// What can go wrong when addressing bills and items.
#[derive(Clone, Copy, Debug, PartialEq, Eq, Structural)]
pub enum BillError {
    /// A malformed identifier was supplied by the caller; this is
    /// raised at the boundary and never reaches the store.
    InvalidId,
    /// A well-formed bill identifier with no corresponding bill.
    NotFound,
    /// A well-formed item identifier with no corresponding item.
    ItemNotFound,
}

impl BillError {
    /// A human-readable description of the error.
    pub fn message(&self) -> (s: String)
        ensures
            (match self {
                BillError::InvalidId => s@ == "Invalid UUID"@,
                BillError::NotFound => s@ == "Bill not found"@,
                BillError::ItemNotFound => s@ == "Item not found"@,
            }),
    {
        match self {
            BillError::InvalidId => "Invalid UUID".to_owned(),
            BillError::NotFound => "Bill not found".to_owned(),
            BillError::ItemNotFound => "Item not found".to_owned(),
        }
    }
}

} // verus!
