//! The extension accessor: statically-typed reads of extension fields.
//!
//! An extension field is declared outside a message's base schema, so the
//! base schema's decoder stores it among the unknown fields.  The accessor
//! is a stateless view bound to one field number and one target type: `get`
//! looks the number up in the owning message's unknown-field set and decodes
//! the stored raw shape into the target type on demand.  Every call
//! re-parses the stored bytes; nothing is cached, so shared read-only access
//! from many readers is safe.

use vstd::prelude::*;

use crate::error::DecodeError;
use crate::message::Message;
use crate::unknown_field_set::lookup_entry;

verus! {

/// A statically-typed optional extension field: field number plus the owning
/// message type `M` and the target type `F` it decodes into.
pub struct ExtFieldOptional<M, F> {
    pub field_number: u32,
    pub phantom: core::marker::PhantomData<(M, F)>,
}

impl<M, F> ExtFieldOptional<M, F> {
    /// Reads this extension from `m`'s unknown-field set.  A field number
    /// that is not present yields `None` — absence is not an error — while a
    /// present field yields the decoded value, or the decode error when the
    /// stored wire shape does not fit `F`.
    pub fn get(&self, m: &M) -> (r: Option<Result<F, DecodeError>>)
        where F: Message, M: Message,
        requires
            m.inv(),
        ensures
            match m.unknown_of() {
                None => r is None,
                Some(entries) => match lookup_entry(entries, self.field_number) {
                    None => r is None,
                    Some(data) => match r {
                        Some(Ok(v)) => v.inv() && F::from_unknown_of(data) == Some(v.mview()),
                        Some(Err(_)) => F::from_unknown_of(data) is None,
                        None => false,
                    },
                },
            },
    {
        match m.get_unknown_fields() {
            None => None,
            Some(set) => match set.get(self.field_number) {
                None => None,
                Some(field) => Some(F::decode_from_unknown(field)),
            },
        }
    }
}

} // verus!
