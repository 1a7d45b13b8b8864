//! The errors the tree operations surface.

use vstd::prelude::*;
use crate::db::StoreError;

verus! {

/// Why a tree operation failed.
#[derive(Debug)]
pub enum SmtError {
    /// Stored bytes did not decode as a branch node.
    CodecError,
    /// The underlying store failed.
    Store(StoreError),
    /// A serialized proof is not well formed.
    CorruptedProof,
    /// A proof was asked for with no keys.
    EmptyKeys,
    /// The keys handed to proof compilation do not match the proof.
    IncorrectNumberOfLeaves { expected: usize, actual: usize },
    /// A serialized proof leaves the wrong stack behind.
    CorruptedStack,
    /// A serialized proof holds an unknown op code.
    InvalidCode(u8),
}

impl SmtError {
    /// A short description of the failure.
    pub fn message(&self) -> &'static str {
        match self {
            SmtError::CodecError => "Corrupted store, malformed branch bytes",
            SmtError::Store(e) => e.message(),
            SmtError::CorruptedProof => "Corrupted proof",
            SmtError::EmptyKeys => "Empty keys",
            SmtError::IncorrectNumberOfLeaves { .. } => "Incorrect number of leaves",
            SmtError::CorruptedStack => "Corrupted serialized proof stack",
            SmtError::InvalidCode(_) => "Invalid serialized proof code",
        }
    }
}

} // verus!
