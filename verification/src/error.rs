//! Error kinds of the graph store.

use vstd::prelude::*;

verus! {

/// Why a graph-store operation was refused.
#[derive(Debug, Clone, Copy, PartialEq, Eq, Hash, Structural)]
pub enum GraphStoreError {
    /// A cube, node or edge that the operation names does not exist.
    NotFound,
    /// A bound is zero where it must be positive.
    InvalidArgument,
    /// The store has run out of ids.
    Internal,
}

impl GraphStoreError {
    /// A short human-readable description.
    pub fn message(&self) -> (s: String)
        ensures
            s@ == match *self {
                GraphStoreError::NotFound => "not found"@,
                GraphStoreError::InvalidArgument => "invalid argument"@,
                GraphStoreError::Internal => "graph store error"@,
            },
    {
        match self {
            GraphStoreError::NotFound => "not found".to_owned(),
            GraphStoreError::InvalidArgument => "invalid argument".to_owned(),
            GraphStoreError::Internal => "graph store error".to_owned(),
        }
    }
}

} // verus!
