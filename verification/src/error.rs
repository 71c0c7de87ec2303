//! The single error kind of this crate.

use vstd::prelude::*;

verus! {

/// An error produced while decoding wire data: buffer underflow, a malformed
/// varint, a stray end-group marker, or a wire-shape mismatch during typed
/// decoding.  It carries only a human-readable description; callers decide
/// whether to propagate or convert it.
#[derive(Clone, Debug, PartialEq, Eq)]
pub struct DecodeError {
    description: String,
}

impl DecodeError {
    /// Builds an error from a description.
    pub fn new(description: String) -> DecodeError {
        DecodeError { description }
    }

    /// The human-readable description of the failure.
    pub fn description(&self) -> &String {
        &self.description
    }
}

} // verus!
