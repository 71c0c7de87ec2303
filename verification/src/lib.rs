//! Unknown-field preservation and extension access for the Protocol Buffers
//! wire format.
//!
//! A decoder that meets protobuf's forward-compatibility contract must carry
//! every field it does not recognize through an unmodified decode/re-encode
//! cycle.  This crate provides the pieces that make that possible: the tagged
//! wire shapes a field can take ([`UnknownFieldData`]), the per-message store
//! of unrecognized fields ([`UnknownFieldSet`]), scalar wrapper adapters that
//! let primitive values act as single-field messages, and a typed extension
//! accessor ([`ExtFieldOptional`]) that reads one field number out of a
//! message's unknown-field store on demand.

pub mod derive_field;
pub mod encoding;
pub mod error;
pub mod ext;
pub mod message;
pub mod roundtrip;
pub mod types;
pub mod unknown_field_set;

pub use derive_field::Field;
pub use encoding::ReadBuf;
pub use encoding::WireType;
pub use error::DecodeError;
pub use ext::ExtFieldOptional;
pub use message::Message;
pub use unknown_field_set::{UnknownField, UnknownFieldData, UnknownFieldDataView,
    UnknownFieldSet, UnknownFieldView};
