//! The generic message capability.
//!
//! A message can encode itself, merge one field read off the wire, report
//! its encoded length, reset to its default value, and materialize itself
//! from a raw value stored in some other message's unknown-field set.  The
//! scalar wrapper adapters implement it for primitive types, and the
//! extension accessor requires it of both the owning message and the target
//! type it decodes.

use vstd::prelude::*;

use crate::encoding::{ReadBuf, WireType};
use crate::error::DecodeError;
use crate::unknown_field_set::{UnknownField, UnknownFieldDataView, UnknownFieldSet,
    UnknownFieldView};

verus! {

/// The generic message capability: wire encoding and decoding against a
/// mathematical view of the message value.
///
/// Each implementation supplies the spec-level story — its view type, the
/// bytes it encodes to, which values are default, what it can be decoded
/// from — and the executable operations are specified, and proved, against
/// that story.
pub trait Message: Sized {
    /// The mathematical value this message type carries.
    type VMsg;

    /// The mathematical value of this message.
    spec fn mview(&self) -> Self::VMsg;

    /// The internal invariant of this message type.
    spec fn inv(&self) -> bool;

    /// The bytes [`Message::encode_raw`] emits for a value.
    spec fn encoding_of(v: Self::VMsg) -> Seq<u8>;

    /// Whether a value is the type's default.  Default values encode to zero
    /// bytes: proto3 implicit presence.
    spec fn is_default_of(v: Self::VMsg) -> bool;

    /// The type's default value.
    spec fn default_view() -> Self::VMsg;

    /// What merging one field does to a value: the merged value and the
    /// bytes consumed, or `None` when the field is malformed for this type.
    spec fn merge_of(v: Self::VMsg, tag: u32, wire_type: WireType, s: Seq<u8>) -> Option<
        (Self::VMsg, int),
    >;

    /// The value decoded from a raw stored wire shape, or `None` when the
    /// shape does not fit this type.
    spec fn from_unknown_of(data: UnknownFieldDataView) -> Option<Self::VMsg>;

    /// The unknown-field store of this message, if it keeps one.  Scalar
    /// wrapper adapters keep none.
    spec fn unknown_of(&self) -> Option<Seq<UnknownFieldView>>;

    /// Appends this message's wire encoding to `buf`.  A default value
    /// appends nothing.
    fn encode_raw(&self, buf: &mut Vec<u8>)
        requires
            self.inv(),
        ensures
            final(buf)@ == old(buf)@ + Self::encoding_of(self.mview()),
    ;

    /// Merges one field, whose key has already been consumed, into this
    /// message.  A tag the type does not declare is skipped and discarded.
    fn merge_field(&mut self, tag: u32, wire_type: WireType, buf: &mut ReadBuf) -> (r: Result<
        (),
        DecodeError,
    >)
        requires
            old(self).inv(),
            old(buf).wf(),
        ensures
            final(self).inv(),
            final(buf).wf(),
            final(buf).data == old(buf).data,
            old(buf).pos <= final(buf).pos,
            match r {
                Ok(_) => Self::merge_of(
                    old(self).mview(),
                    tag,
                    wire_type,
                    old(buf).remaining_bytes(),
                ) == Some((final(self).mview(), final(buf).pos - old(buf).pos)),
                Err(_) => Self::merge_of(
                    old(self).mview(),
                    tag,
                    wire_type,
                    old(buf).remaining_bytes(),
                ) is None,
            },
    ;

    /// The byte length [`Message::encode_raw`] would produce; zero exactly
    /// for default values.
    fn encoded_len(&self) -> (n: usize)
        requires
            self.inv(),
            Self::encoding_of(self.mview()).len() <= usize::MAX,
        ensures
            n == Self::encoding_of(self.mview()).len(),
            (n == 0) <==> Self::is_default_of(self.mview()),
    ;

    /// Resets this message to its default value.
    fn clear(&mut self)
        requires
            old(self).inv(),
        ensures
            final(self).inv(),
            final(self).mview() == Self::default_view(),
            Self::is_default_of(final(self).mview()),
    ;

    /// Decodes a value of this type from a raw field stored in some
    /// message's unknown-field set, validating wire-shape compatibility.
    fn decode_from_unknown(field: &UnknownField) -> (r: Result<Self, DecodeError>)
        ensures
            match r {
                Ok(v) => v.inv() && Self::from_unknown_of(field@.data) == Some(v.mview()),
                Err(_) => Self::from_unknown_of(field@.data) is None,
            },
    ;

    /// The unknown-field store of this message, for the extension accessor
    /// to read; `None` for types that keep none.
    fn get_unknown_fields(&self) -> (r: Option<&UnknownFieldSet>)
        requires
            self.inv(),
        ensures
            match r {
                Some(set) => set.wf() && self.unknown_of() == Some(set@),
                None => self.unknown_of() is None,
            },
    ;

    /// Law: the default value encodes to zero bytes, and every non-default
    /// value encodes to at least one byte.
    proof fn lemma_default_omission(&self)
        requires
            self.inv(),
        ensures
            Self::is_default_of(self.mview()) <==> Self::encoding_of(self.mview()).len() == 0,
    ;
}

} // verus!
