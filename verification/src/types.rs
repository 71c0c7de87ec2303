//! Scalar wrapper adapters: [`Message`] implementations for primitive types.
//!
//! These model the protobuf well-known wrapper messages (a boxed scalar as a
//! single-field message, field number 1), and double as the target types
//! extension fields decode into.  Uniformly, a default value (zero, empty)
//! encodes to zero bytes — proto3 implicit presence — and unrecognized tags
//! merged into a wrapper are skipped and dropped: wrapper types keep no
//! unknown-field set of their own.

use vstd::prelude::*;

use crate::encoding::{
    decode_varint, encode_key, encode_varint, encoded_len_key, encoded_len_varint, key_encoding,
    lemma_varint_roundtrip, put_slice, skip_field, skip_field_spec, varint_decode,
    varint_encoding, ReadBuf,
    WireType,
};
use crate::error::DecodeError;
use crate::message::Message;
use crate::unknown_field_set::{insert_entry, merge_from_buf, message_fields_decode,
    parse_field_spec, set_encoding, data_wire_type, FieldParse, UnknownField, UnknownFieldData,
    UnknownFieldDataView, UnknownFieldSet, UnknownFieldView};

verus! {

/// The 64-bit unsigned value whose low 32 bits, read as two's complement,
/// give this signed 32-bit value; how protobuf varints carry an `int32`.
pub open spec fn low_bits_as_i32(value: u64) -> i32 {
    let low = value % 0x100000000;
    if low < 0x80000000 {
        low as i32
    } else {
        (low - 0x100000000) as i32
    }
}

/// The 64 bits of a varint read as a two's-complement signed 64-bit value;
/// how protobuf varints carry an `int64`.
pub open spec fn bits_as_i64(value: u64) -> i64 {
    if value < 0x8000000000000000 {
        value as i64
    } else {
        (value - 0x10000000000000000) as i64
    }
}

/// The sign-extended 64 bits a signed 32-bit value puts on the wire as a
/// varint.
pub open spec fn i32_wire_bits(value: i32) -> u64 {
    if value >= 0 {
        value as u64
    } else {
        (value + 0x10000000000000000) as u64
    }
}

/// The 64 bits a signed 64-bit value puts on the wire as a varint.
pub open spec fn i64_wire_bits(value: i64) -> u64 {
    if value >= 0 {
        value as u64
    } else {
        (value + 0x10000000000000000) as u64
    }
}

/// `google.protobuf.UInt64Value`
impl Message for u64 {
    type VMsg = u64;

    open spec fn mview(&self) -> u64 {
        *self
    }

    open spec fn inv(&self) -> bool {
        true
    }

    open spec fn encoding_of(v: u64) -> Seq<u8> {
        if v == 0 {
            Seq::empty()
        } else {
            key_encoding(1, WireType::Varint) + varint_encoding(v)
        }
    }

    open spec fn is_default_of(v: u64) -> bool {
        v == 0
    }

    open spec fn default_view() -> u64 {
        0
    }

    open spec fn merge_of(v: u64, tag: u32, wire_type: WireType, s: Seq<u8>) -> Option<
        (u64, int),
    > {
        if tag == 1 {
            if wire_type == WireType::Varint {
                match varint_decode(s) {
                    None => None,
                    Some((value, n)) => if value <= u64::MAX {
                        Some(((value as u64), n))
                    } else {
                        None
                    },
                }
            } else {
                None
            }
        } else {
            match skip_field_spec(wire_type, tag, s) {
                None => None,
                Some(n) => Some((v, n)),
            }
        }
    }

    open spec fn from_unknown_of(data: UnknownFieldDataView) -> Option<u64> {
        match data {
            UnknownFieldDataView::Varint(value) => Some(value),
            UnknownFieldDataView::SixtyFourBit(value) => Some(value),
            _ => None,
        }
    }

    open spec fn unknown_of(&self) -> Option<Seq<UnknownFieldView>> {
        None
    }

    fn encode_raw(&self, buf: &mut Vec<u8>) {
        if *self != 0 {
            encode_key(1, WireType::Varint, buf);
            encode_varint(*self, buf);
            proof {
                assert(buf@ =~= old(buf)@ + Self::encoding_of(*self));
            }
        } else {
            proof {
                assert(buf@ =~= old(buf)@ + Self::encoding_of(*self));
            }
        }
    }

    fn merge_field(&mut self, tag: u32, wire_type: WireType, buf: &mut ReadBuf) -> (r: Result<
        (),
        DecodeError,
    >) {
        if tag == 1 {
            if wire_type == WireType::Varint {
                match decode_varint(buf) {
                    Ok(value) => {
                        *self = value;
                        Ok(())
                    },
                    Err(e) => Err(e),
                }
            } else {
                Err(DecodeError::new("invalid wire type".to_string()))
            }
        } else {
            skip_field(wire_type, tag, buf)
        }
    }

    fn encoded_len(&self) -> (n: usize) {
        if *self != 0 {
            encoded_len_key(1, WireType::Varint) + encoded_len_varint(*self)
        } else {
            0
        }
    }

    fn clear(&mut self) {
        *self = 0;
    }

    fn decode_from_unknown(field: &UnknownField) -> (r: Result<Self, DecodeError>) {
        match &field.data {
            UnknownFieldData::Varint(value) => Ok(*value),
            UnknownFieldData::SixtyFourBit(value) => Ok(*value),
            _ => Err(DecodeError::new("cannot decode u64 from this wire shape".to_string())),
        }
    }

    fn get_unknown_fields(&self) -> (r: Option<&UnknownFieldSet>) {
        None
    }

    proof fn lemma_default_omission(&self) {
    }

}

/// `google.protobuf.UInt32Value`
impl Message for u32 {
    type VMsg = u32;

    open spec fn mview(&self) -> u32 {
        *self
    }

    open spec fn inv(&self) -> bool {
        true
    }

    open spec fn encoding_of(v: u32) -> Seq<u8> {
        if v == 0 {
            Seq::empty()
        } else {
            key_encoding(1, WireType::Varint) + varint_encoding(v as u64)
        }
    }

    open spec fn is_default_of(v: u32) -> bool {
        v == 0
    }

    open spec fn default_view() -> u32 {
        0
    }

    open spec fn merge_of(v: u32, tag: u32, wire_type: WireType, s: Seq<u8>) -> Option<
        (u32, int),
    > {
        if tag == 1 {
            if wire_type == WireType::Varint {
                match varint_decode(s) {
                    None => None,
                    Some((value, n)) => if value <= u64::MAX {
                        Some(((((value as u64) % 0x100000000) as u32), n))
                    } else {
                        None
                    },
                }
            } else {
                None
            }
        } else {
            match skip_field_spec(wire_type, tag, s) {
                None => None,
                Some(n) => Some((v, n)),
            }
        }
    }

    open spec fn from_unknown_of(data: UnknownFieldDataView) -> Option<u32> {
        match data {
            UnknownFieldDataView::Varint(value) => Some(((value % 0x100000000) as u32)),
            UnknownFieldDataView::ThirtyTwoBit(value) => Some(value),
            _ => None,
        }
    }

    open spec fn unknown_of(&self) -> Option<Seq<UnknownFieldView>> {
        None
    }

    fn encode_raw(&self, buf: &mut Vec<u8>) {
        if *self != 0 {
            encode_key(1, WireType::Varint, buf);
            encode_varint(*self as u64, buf);
            proof {
                assert(buf@ =~= old(buf)@ + Self::encoding_of(*self));
            }
        } else {
            proof {
                assert(buf@ =~= old(buf)@ + Self::encoding_of(*self));
            }
        }
    }

    fn merge_field(&mut self, tag: u32, wire_type: WireType, buf: &mut ReadBuf) -> (r: Result<
        (),
        DecodeError,
    >) {
        if tag == 1 {
            if wire_type == WireType::Varint {
                match decode_varint(buf) {
                    Ok(value) => {
                        *self = (value % 0x100000000) as u32;
                        Ok(())
                    },
                    Err(e) => Err(e),
                }
            } else {
                Err(DecodeError::new("invalid wire type".to_string()))
            }
        } else {
            skip_field(wire_type, tag, buf)
        }
    }

    fn encoded_len(&self) -> (n: usize) {
        if *self != 0 {
            encoded_len_key(1, WireType::Varint) + encoded_len_varint(*self as u64)
        } else {
            0
        }
    }

    fn clear(&mut self) {
        *self = 0;
    }

    fn decode_from_unknown(field: &UnknownField) -> (r: Result<Self, DecodeError>) {
        match &field.data {
            UnknownFieldData::Varint(value) => Ok(((*value % 0x100000000) as u32)),
            UnknownFieldData::ThirtyTwoBit(value) => Ok(*value),
            _ => Err(DecodeError::new("cannot decode u32 from this wire shape".to_string())),
        }
    }

    fn get_unknown_fields(&self) -> (r: Option<&UnknownFieldSet>) {
        None
    }

    proof fn lemma_default_omission(&self) {
    }

}

/// `google.protobuf.BoolValue`
impl Message for bool {
    type VMsg = bool;

    open spec fn mview(&self) -> bool {
        *self
    }

    open spec fn inv(&self) -> bool {
        true
    }

    open spec fn encoding_of(v: bool) -> Seq<u8> {
        if v {
            key_encoding(1, WireType::Varint) + varint_encoding(1)
        } else {
            Seq::empty()
        }
    }

    open spec fn is_default_of(v: bool) -> bool {
        !v
    }

    open spec fn default_view() -> bool {
        false
    }

    open spec fn merge_of(v: bool, tag: u32, wire_type: WireType, s: Seq<u8>) -> Option<
        (bool, int),
    > {
        if tag == 1 {
            if wire_type == WireType::Varint {
                match varint_decode(s) {
                    None => None,
                    Some((value, n)) => if value <= u64::MAX {
                        Some((value != 0, n))
                    } else {
                        None
                    },
                }
            } else {
                None
            }
        } else {
            match skip_field_spec(wire_type, tag, s) {
                None => None,
                Some(n) => Some((v, n)),
            }
        }
    }

    open spec fn from_unknown_of(data: UnknownFieldDataView) -> Option<bool> {
        match data {
            UnknownFieldDataView::Varint(value) => Some(value != 0),
            _ => None,
        }
    }

    open spec fn unknown_of(&self) -> Option<Seq<UnknownFieldView>> {
        None
    }

    fn encode_raw(&self, buf: &mut Vec<u8>) {
        if *self {
            encode_key(1, WireType::Varint, buf);
            encode_varint(1, buf);
            proof {
                assert(buf@ =~= old(buf)@ + Self::encoding_of(*self));
            }
        } else {
            proof {
                assert(buf@ =~= old(buf)@ + Self::encoding_of(*self));
            }
        }
    }

    fn merge_field(&mut self, tag: u32, wire_type: WireType, buf: &mut ReadBuf) -> (r: Result<
        (),
        DecodeError,
    >) {
        if tag == 1 {
            if wire_type == WireType::Varint {
                match decode_varint(buf) {
                    Ok(value) => {
                        *self = value != 0;
                        Ok(())
                    },
                    Err(e) => Err(e),
                }
            } else {
                Err(DecodeError::new("invalid wire type".to_string()))
            }
        } else {
            skip_field(wire_type, tag, buf)
        }
    }

    fn encoded_len(&self) -> (n: usize) {
        if *self {
            encoded_len_key(1, WireType::Varint) + encoded_len_varint(1)
        } else {
            0
        }
    }

    fn clear(&mut self) {
        *self = false;
    }

    fn decode_from_unknown(field: &UnknownField) -> (r: Result<Self, DecodeError>) {
        match &field.data {
            UnknownFieldData::Varint(value) => Ok(*value != 0),
            _ => Err(DecodeError::new("cannot decode bool from this wire shape".to_string())),
        }
    }

    fn get_unknown_fields(&self) -> (r: Option<&UnknownFieldSet>) {
        None
    }

    proof fn lemma_default_omission(&self) {
    }

}

/// `google.protobuf.Int32Value`
impl Message for i32 {
    type VMsg = i32;

    open spec fn mview(&self) -> i32 {
        *self
    }

    open spec fn inv(&self) -> bool {
        true
    }

    open spec fn encoding_of(v: i32) -> Seq<u8> {
        if v == 0 {
            Seq::empty()
        } else {
            key_encoding(1, WireType::Varint) + varint_encoding(i32_wire_bits(v))
        }
    }

    open spec fn is_default_of(v: i32) -> bool {
        v == 0
    }

    open spec fn default_view() -> i32 {
        0
    }

    open spec fn merge_of(v: i32, tag: u32, wire_type: WireType, s: Seq<u8>) -> Option<
        (i32, int),
    > {
        if tag == 1 {
            if wire_type == WireType::Varint {
                match varint_decode(s) {
                    None => None,
                    Some((value, n)) => if value <= u64::MAX {
                        Some((low_bits_as_i32(value as u64), n))
                    } else {
                        None
                    },
                }
            } else {
                None
            }
        } else {
            match skip_field_spec(wire_type, tag, s) {
                None => None,
                Some(n) => Some((v, n)),
            }
        }
    }

    open spec fn from_unknown_of(data: UnknownFieldDataView) -> Option<i32> {
        match data {
            UnknownFieldDataView::Varint(value) => Some(low_bits_as_i32(value)),
            UnknownFieldDataView::ThirtyTwoBit(value) => Some(low_bits_as_i32(value as u64)),
            _ => None,
        }
    }

    open spec fn unknown_of(&self) -> Option<Seq<UnknownFieldView>> {
        None
    }

    fn encode_raw(&self, buf: &mut Vec<u8>) {
        if *self != 0 {
            encode_key(1, WireType::Varint, buf);
            let bits = i32_bits(*self);
            encode_varint(bits, buf);
            proof {
                assert(buf@ =~= old(buf)@ + Self::encoding_of(*self));
            }
        } else {
            proof {
                assert(buf@ =~= old(buf)@ + Self::encoding_of(*self));
            }
        }
    }

    fn merge_field(&mut self, tag: u32, wire_type: WireType, buf: &mut ReadBuf) -> (r: Result<
        (),
        DecodeError,
    >) {
        if tag == 1 {
            if wire_type == WireType::Varint {
                match decode_varint(buf) {
                    Ok(value) => {
                        *self = i32_from_bits(value);
                        Ok(())
                    },
                    Err(e) => Err(e),
                }
            } else {
                Err(DecodeError::new("invalid wire type".to_string()))
            }
        } else {
            skip_field(wire_type, tag, buf)
        }
    }

    fn encoded_len(&self) -> (n: usize) {
        if *self != 0 {
            encoded_len_key(1, WireType::Varint) + encoded_len_varint(i32_bits(*self))
        } else {
            0
        }
    }

    fn clear(&mut self) {
        *self = 0;
    }

    fn decode_from_unknown(field: &UnknownField) -> (r: Result<Self, DecodeError>) {
        match &field.data {
            UnknownFieldData::Varint(value) => Ok(i32_from_bits(*value)),
            UnknownFieldData::ThirtyTwoBit(value) => Ok(i32_from_bits(*value as u64)),
            _ => Err(DecodeError::new("cannot decode i32 from this wire shape".to_string())),
        }
    }

    fn get_unknown_fields(&self) -> (r: Option<&UnknownFieldSet>) {
        None
    }

    proof fn lemma_default_omission(&self) {
    }

}

/// The sign-extended varint bits of a signed 32-bit value.
fn i32_bits(value: i32) -> (bits: u64)
    ensures
        bits == i32_wire_bits(value),
{
    if value >= 0 {
        value as u64
    } else {
        let wide: i64 = value as i64;
        let below: u64 = (-(wide + 1)) as u64;
        u64::MAX - below
    }
}

/// Reads a varint's low 32 bits as a two's-complement `i32`.
fn i32_from_bits(value: u64) -> (r: i32)
    ensures
        r == low_bits_as_i32(value),
{
    let low: u64 = value % 0x100000000;
    if low < 0x80000000 {
        low as i32
    } else {
        ((low as i64) - 0x100000000i64) as i32
    }
}

/// `google.protobuf.Int64Value`
impl Message for i64 {
    type VMsg = i64;

    open spec fn mview(&self) -> i64 {
        *self
    }

    open spec fn inv(&self) -> bool {
        true
    }

    open spec fn encoding_of(v: i64) -> Seq<u8> {
        if v == 0 {
            Seq::empty()
        } else {
            key_encoding(1, WireType::Varint) + varint_encoding(i64_wire_bits(v))
        }
    }

    open spec fn is_default_of(v: i64) -> bool {
        v == 0
    }

    open spec fn default_view() -> i64 {
        0
    }

    open spec fn merge_of(v: i64, tag: u32, wire_type: WireType, s: Seq<u8>) -> Option<
        (i64, int),
    > {
        if tag == 1 {
            if wire_type == WireType::Varint {
                match varint_decode(s) {
                    None => None,
                    Some((value, n)) => if value <= u64::MAX {
                        Some((bits_as_i64(value as u64), n))
                    } else {
                        None
                    },
                }
            } else {
                None
            }
        } else {
            match skip_field_spec(wire_type, tag, s) {
                None => None,
                Some(n) => Some((v, n)),
            }
        }
    }

    open spec fn from_unknown_of(data: UnknownFieldDataView) -> Option<i64> {
        match data {
            UnknownFieldDataView::Varint(value) => Some(bits_as_i64(value)),
            UnknownFieldDataView::SixtyFourBit(value) => Some(bits_as_i64(value)),
            _ => None,
        }
    }

    open spec fn unknown_of(&self) -> Option<Seq<UnknownFieldView>> {
        None
    }

    fn encode_raw(&self, buf: &mut Vec<u8>) {
        if *self != 0 {
            encode_key(1, WireType::Varint, buf);
            let bits = i64_bits(*self);
            encode_varint(bits, buf);
            proof {
                assert(buf@ =~= old(buf)@ + Self::encoding_of(*self));
            }
        } else {
            proof {
                assert(buf@ =~= old(buf)@ + Self::encoding_of(*self));
            }
        }
    }

    fn merge_field(&mut self, tag: u32, wire_type: WireType, buf: &mut ReadBuf) -> (r: Result<
        (),
        DecodeError,
    >) {
        if tag == 1 {
            if wire_type == WireType::Varint {
                match decode_varint(buf) {
                    Ok(value) => {
                        *self = i64_from_bits(value);
                        Ok(())
                    },
                    Err(e) => Err(e),
                }
            } else {
                Err(DecodeError::new("invalid wire type".to_string()))
            }
        } else {
            skip_field(wire_type, tag, buf)
        }
    }

    fn encoded_len(&self) -> (n: usize) {
        if *self != 0 {
            encoded_len_key(1, WireType::Varint) + encoded_len_varint(i64_bits(*self))
        } else {
            0
        }
    }

    fn clear(&mut self) {
        *self = 0;
    }

    fn decode_from_unknown(field: &UnknownField) -> (r: Result<Self, DecodeError>) {
        match &field.data {
            UnknownFieldData::Varint(value) => Ok(i64_from_bits(*value)),
            UnknownFieldData::SixtyFourBit(value) => Ok(i64_from_bits(*value)),
            _ => Err(DecodeError::new("cannot decode i64 from this wire shape".to_string())),
        }
    }

    fn get_unknown_fields(&self) -> (r: Option<&UnknownFieldSet>) {
        None
    }

    proof fn lemma_default_omission(&self) {
    }

}

/// The varint bits of a signed 64-bit value.
fn i64_bits(value: i64) -> (bits: u64)
    ensures
        bits == i64_wire_bits(value),
{
    if value >= 0 {
        value as u64
    } else {
        let below: u64 = (-(value + 1)) as u64;
        u64::MAX - below
    }
}

/// Reads 64 varint bits as a two's-complement `i64`.
fn i64_from_bits(value: u64) -> (r: i64)
    ensures
        r == bits_as_i64(value),
{
    if value < 0x8000000000000000 {
        value as i64
    } else {
        let above: u64 = u64::MAX - value;
        -(above as i64) - 1
    }
}

/// An owned copy of a byte vector.
fn copy_bytes(bytes: &Vec<u8>) -> (r: Vec<u8>)
    ensures
        r@ == bytes@,
{
    let mut r: Vec<u8> = Vec::new();
    let mut i: usize = 0;
    while i < bytes.len()
        invariant
            i <= bytes@.len(),
            r@ == bytes@.take(i as int),
        decreases bytes@.len() - i,
    {
        r.push(bytes[i]);
        proof {
            assert(r@ =~= bytes@.take(i + 1));
        }
        i = i + 1;
    }
    proof {
        assert(r@ =~= bytes@);
    }
    r
}

/// Relies on `String::from_utf8` (std): it returns `Ok` exactly when the
/// bytes are valid UTF-8, and the resulting string's characters are their
/// UTF-8 decoding.  The error case is mapped to its description.
#[verifier::external_body]
fn string_from_utf8(bytes: Vec<u8>) -> (r: Result<String, String>)
    ensures
        match r {
            Ok(s) => vstd::utf8::valid_utf8(bytes@) && s@ == vstd::utf8::decode_utf8(bytes@),
            Err(_) => !vstd::utf8::valid_utf8(bytes@),
        },
{
    String::from_utf8(bytes).map_err(|e| e.to_string())
}

/// Relies on `str::as_bytes` (std): a string's backing bytes are the UTF-8
/// encoding of its characters.
#[verifier::external_body]
fn string_utf8_bytes(s: &String) -> (r: Vec<u8>)
    ensures
        r@ == vstd::utf8::encode_utf8(s@),
{
    s.as_bytes().to_vec()
}

/// A non-empty character sequence has a non-empty UTF-8 encoding.
proof fn lemma_encode_utf8_empty(chars: Seq<char>)
    ensures
        (vstd::utf8::encode_utf8(chars).len() == 0) <==> (chars.len() == 0),
{
    if chars.len() > 0 {
        assert(vstd::utf8::encode_scalar(chars[0] as u32).len() >= 1);
    }
}

/// `google.protobuf.StringValue`
impl Message for String {
    type VMsg = Seq<char>;

    open spec fn mview(&self) -> Seq<char> {
        self@
    }

    open spec fn inv(&self) -> bool {
        vstd::utf8::encode_utf8(self@).len() <= usize::MAX
    }

    open spec fn encoding_of(v: Seq<char>) -> Seq<u8> {
        if v.len() == 0 {
            Seq::empty()
        } else {
            let bytes = vstd::utf8::encode_utf8(v);
            key_encoding(1, WireType::LengthDelimited) + varint_encoding(bytes.len() as u64)
                + bytes
        }
    }

    open spec fn is_default_of(v: Seq<char>) -> bool {
        v.len() == 0
    }

    open spec fn default_view() -> Seq<char> {
        Seq::empty()
    }

    open spec fn merge_of(v: Seq<char>, tag: u32, wire_type: WireType, s: Seq<u8>) -> Option<
        (Seq<char>, int),
    > {
        if tag == 1 {
            if wire_type == WireType::LengthDelimited {
                match varint_decode(s) {
                    None => None,
                    Some((len, n)) => if n + len <= s.len() && vstd::utf8::valid_utf8(
                        s.subrange(n, n + len),
                    ) {
                        Some((vstd::utf8::decode_utf8(s.subrange(n, n + len)), n + len))
                    } else {
                        None
                    },
                }
            } else {
                None
            }
        } else {
            match skip_field_spec(wire_type, tag, s) {
                None => None,
                Some(n) => Some((v, n)),
            }
        }
    }

    open spec fn from_unknown_of(data: UnknownFieldDataView) -> Option<Seq<char>> {
        match data {
            UnknownFieldDataView::LengthDelimited(bytes) => if vstd::utf8::valid_utf8(bytes) {
                Some(vstd::utf8::decode_utf8(bytes))
            } else {
                None
            },
            _ => None,
        }
    }

    open spec fn unknown_of(&self) -> Option<Seq<UnknownFieldView>> {
        None
    }

    fn encode_raw(&self, buf: &mut Vec<u8>) {
        let bytes = string_utf8_bytes(self);
        proof {
            lemma_encode_utf8_empty(self@);
        }
        if bytes.len() != 0 {
            encode_key(1, WireType::LengthDelimited, buf);
            encode_varint(bytes.len() as u64, buf);
            put_slice(&bytes, buf);
            proof {
                assert(buf@ =~= old(buf)@ + Self::encoding_of(self@));
            }
        } else {
            proof {
                assert(buf@ =~= old(buf)@ + Self::encoding_of(self@));
            }
        }
    }

    fn merge_field(&mut self, tag: u32, wire_type: WireType, buf: &mut ReadBuf) -> (r: Result<
        (),
        DecodeError,
    >) {
        let ghost s = old(buf).remaining_bytes();
        if tag == 1 {
            if wire_type == WireType::LengthDelimited {
                let ghost pos0 = buf.pos;
                match decode_varint(buf) {
                    Err(e) => {
                        proof {
                            vstd::std_specs::vec::axiom_spec_len(&buf.data);
                            crate::encoding::lemma_varint_decode_bounds(s);
                        }
                        Err(e)
                    },
                    Ok(len) => {
                        let rem = buf.remaining();
                        if len <= rem as u64 {
                            let ghost n = buf.pos - pos0;
                            let bytes = buf.read_bytes(len as usize);
                            proof {
                                assert(bytes@ =~= s.subrange(n, n + len));
                            }
                            match string_from_utf8(bytes) {
                                Ok(decoded) => {
                                    proof {
                                        vstd::std_specs::vec::axiom_spec_len(&buf.data);
                                        vstd::utf8::decode_utf8_encode_utf8(
                                            s.subrange(n, n + len),
                                        );
                                    }
                                    *self = decoded;
                                    Ok(())
                                },
                                Err(description) => Err(DecodeError::new(description)),
                            }
                        } else {
                            Err(DecodeError::new("buffer underflow".to_string()))
                        }
                    },
                }
            } else {
                Err(DecodeError::new("invalid wire type".to_string()))
            }
        } else {
            skip_field(wire_type, tag, buf)
        }
    }

    fn encoded_len(&self) -> (n: usize) {
        let bytes = string_utf8_bytes(self);
        proof {
            lemma_encode_utf8_empty(self@);
        }
        if bytes.len() != 0 {
            let key_len = encoded_len_key(1, WireType::LengthDelimited);
            let prefix_len = encoded_len_varint(bytes.len() as u64);
            key_len + prefix_len + bytes.len()
        } else {
            0
        }
    }

    fn clear(&mut self) {
        *self = String::new();
    }

    fn decode_from_unknown(field: &UnknownField) -> (r: Result<Self, DecodeError>) {
        match &field.data {
            UnknownFieldData::LengthDelimited(bytes) => {
                let copied = copy_bytes(bytes);
                match string_from_utf8(copied) {
                    Ok(decoded) => {
                        proof {
                            vstd::std_specs::vec::axiom_spec_len(bytes);
                            vstd::utf8::decode_utf8_encode_utf8(bytes@);
                        }
                        Ok(decoded)
                    },
                    Err(description) => Err(DecodeError::new(description)),
                }
            },
            _ => Err(DecodeError::new("cannot decode String from this wire shape".to_string())),
        }
    }

    fn get_unknown_fields(&self) -> (r: Option<&UnknownFieldSet>) {
        None
    }

    proof fn lemma_default_omission(&self) {
        lemma_encode_utf8_empty(self@);
    }

}

/// `google.protobuf.BytesValue`
impl Message for Vec<u8> {
    type VMsg = Seq<u8>;

    open spec fn mview(&self) -> Seq<u8> {
        self@
    }

    open spec fn inv(&self) -> bool {
        true
    }

    open spec fn encoding_of(v: Seq<u8>) -> Seq<u8> {
        if v.len() == 0 {
            Seq::empty()
        } else {
            key_encoding(1, WireType::LengthDelimited) + varint_encoding(v.len() as u64) + v
        }
    }

    open spec fn is_default_of(v: Seq<u8>) -> bool {
        v.len() == 0
    }

    open spec fn default_view() -> Seq<u8> {
        Seq::empty()
    }

    open spec fn merge_of(v: Seq<u8>, tag: u32, wire_type: WireType, s: Seq<u8>) -> Option<
        (Seq<u8>, int),
    > {
        if tag == 1 {
            if wire_type == WireType::LengthDelimited {
                match varint_decode(s) {
                    None => None,
                    Some((len, n)) => if n + len <= s.len() {
                        Some((s.subrange(n, n + len), n + len))
                    } else {
                        None
                    },
                }
            } else {
                None
            }
        } else {
            match skip_field_spec(wire_type, tag, s) {
                None => None,
                Some(n) => Some((v, n)),
            }
        }
    }

    open spec fn from_unknown_of(data: UnknownFieldDataView) -> Option<Seq<u8>> {
        match data {
            UnknownFieldDataView::LengthDelimited(bytes) => Some(bytes),
            _ => None,
        }
    }

    open spec fn unknown_of(&self) -> Option<Seq<UnknownFieldView>> {
        None
    }

    fn encode_raw(&self, buf: &mut Vec<u8>) {
        if self.len() != 0 {
            encode_key(1, WireType::LengthDelimited, buf);
            encode_varint(self.len() as u64, buf);
            put_slice(self, buf);
            proof {
                assert(buf@ =~= old(buf)@ + Self::encoding_of(self@));
            }
        } else {
            proof {
                assert(buf@ =~= old(buf)@ + Self::encoding_of(self@));
            }
        }
    }

    fn merge_field(&mut self, tag: u32, wire_type: WireType, buf: &mut ReadBuf) -> (r: Result<
        (),
        DecodeError,
    >) {
        let ghost s = old(buf).remaining_bytes();
        if tag == 1 {
            if wire_type == WireType::LengthDelimited {
                let ghost pos0 = buf.pos;
                match decode_varint(buf) {
                    Err(e) => {
                        proof {
                            vstd::std_specs::vec::axiom_spec_len(&buf.data);
                            crate::encoding::lemma_varint_decode_bounds(s);
                        }
                        Err(e)
                    },
                    Ok(len) => {
                        let rem = buf.remaining();
                        if len <= rem as u64 {
                            let ghost n = buf.pos - pos0;
                            let bytes = buf.read_bytes(len as usize);
                            proof {
                                assert(bytes@ =~= s.subrange(n, n + len));
                            }
                            *self = bytes;
                            Ok(())
                        } else {
                            Err(DecodeError::new("buffer underflow".to_string()))
                        }
                    },
                }
            } else {
                Err(DecodeError::new("invalid wire type".to_string()))
            }
        } else {
            skip_field(wire_type, tag, buf)
        }
    }

    fn encoded_len(&self) -> (n: usize) {
        proof {
            vstd::std_specs::vec::axiom_spec_len(self);
        }
        if self.len() != 0 {
            let key_len = encoded_len_key(1, WireType::LengthDelimited);
            let prefix_len = encoded_len_varint(self.len() as u64);
            key_len + prefix_len + self.len()
        } else {
            0
        }
    }

    fn clear(&mut self) {
        *self = Vec::new();
    }

    fn decode_from_unknown(field: &UnknownField) -> (r: Result<Self, DecodeError>) {
        match &field.data {
            UnknownFieldData::LengthDelimited(bytes) => Ok(copy_bytes(bytes)),
            _ => Err(DecodeError::new("cannot decode bytes from this wire shape".to_string())),
        }
    }

    fn get_unknown_fields(&self) -> (r: Option<&UnknownFieldSet>) {
        None
    }

    proof fn lemma_default_omission(&self) {
    }

}

/// `google.protobuf.Empty`
impl Message for () {
    type VMsg = ();

    open spec fn mview(&self) -> () {
        ()
    }

    open spec fn inv(&self) -> bool {
        true
    }

    open spec fn encoding_of(v: ()) -> Seq<u8> {
        Seq::empty()
    }

    open spec fn is_default_of(v: ()) -> bool {
        true
    }

    open spec fn default_view() -> () {
        ()
    }

    open spec fn merge_of(v: (), tag: u32, wire_type: WireType, s: Seq<u8>) -> Option<
        ((), int),
    > {
        match skip_field_spec(wire_type, tag, s) {
            None => None,
            Some(n) => Some(((), n)),
        }
    }

    open spec fn from_unknown_of(data: UnknownFieldDataView) -> Option<()> {
        Some(())
    }

    open spec fn unknown_of(&self) -> Option<Seq<UnknownFieldView>> {
        None
    }

    fn encode_raw(&self, buf: &mut Vec<u8>) {
        proof {
            assert(buf@ =~= old(buf)@ + Self::encoding_of(()));
        }
    }

    fn merge_field(&mut self, tag: u32, wire_type: WireType, buf: &mut ReadBuf) -> (r: Result<
        (),
        DecodeError,
    >) {
        skip_field(wire_type, tag, buf)
    }

    fn encoded_len(&self) -> (n: usize) {
        0
    }

    fn clear(&mut self) {
    }

    fn decode_from_unknown(field: &UnknownField) -> (r: Result<Self, DecodeError>) {
        Ok(())
    }

    fn get_unknown_fields(&self) -> (r: Option<&UnknownFieldSet>) {
        None
    }

    proof fn lemma_default_omission(&self) {
    }

}

/// The reference-counted byte buffer of the `bytes` crate, declared so that
/// it can stand in signatures; its contents are named by [`bytes_contents`].
#[verifier::external_type_specification]
#[verifier::external_body]
pub struct ExBytes(bytes::Bytes);

/// The bytes a `bytes::Bytes` buffer holds.
pub uninterp spec fn bytes_contents(b: bytes::Bytes) -> Seq<u8>;

/// Relies on `Bytes::from(Vec<u8>)` of the `bytes` crate: the new buffer
/// holds exactly the vector's bytes.
#[verifier::external_body]
fn bytes_from_vec(vec: Vec<u8>) -> (r: bytes::Bytes)
    ensures
        bytes_contents(r) == vec@,
{
    bytes::Bytes::from(vec)
}

/// Relies on `Bytes::new` of the `bytes` crate: the new buffer is empty.
#[verifier::external_body]
fn bytes_new() -> (r: bytes::Bytes)
    ensures
        bytes_contents(r) == Seq::<u8>::empty(),
{
    bytes::Bytes::new()
}

/// Relies on `Bytes::len` of the `bytes` crate: the byte count of the
/// contents.
#[verifier::external_body]
fn bytes_len(b: &bytes::Bytes) -> (n: usize)
    ensures
        n == bytes_contents(*b).len(),
{
    b.len()
}

/// Relies on the slice view of `Bytes` (`Deref`): the contents, copied out
/// as an owned vector.
#[verifier::external_body]
fn bytes_to_vec(b: &bytes::Bytes) -> (r: Vec<u8>)
    ensures
        r@ == bytes_contents(*b),
{
    b.as_ref().to_vec()
}

/// `google.protobuf.BytesValue`, over the `bytes` crate's shared buffer.
impl Message for bytes::Bytes {
    type VMsg = Seq<u8>;

    open spec fn mview(&self) -> Seq<u8> {
        bytes_contents(*self)
    }

    open spec fn inv(&self) -> bool {
        bytes_contents(*self).len() <= usize::MAX
    }

    open spec fn encoding_of(v: Seq<u8>) -> Seq<u8> {
        if v.len() == 0 {
            Seq::empty()
        } else {
            key_encoding(1, WireType::LengthDelimited) + varint_encoding(v.len() as u64) + v
        }
    }

    open spec fn is_default_of(v: Seq<u8>) -> bool {
        v.len() == 0
    }

    open spec fn default_view() -> Seq<u8> {
        Seq::empty()
    }

    open spec fn merge_of(v: Seq<u8>, tag: u32, wire_type: WireType, s: Seq<u8>) -> Option<
        (Seq<u8>, int),
    > {
        if tag == 1 {
            if wire_type == WireType::LengthDelimited {
                match varint_decode(s) {
                    None => None,
                    Some((len, n)) => if n + len <= s.len() {
                        Some((s.subrange(n, n + len), n + len))
                    } else {
                        None
                    },
                }
            } else {
                None
            }
        } else {
            match skip_field_spec(wire_type, tag, s) {
                None => None,
                Some(n) => Some((v, n)),
            }
        }
    }

    open spec fn from_unknown_of(data: UnknownFieldDataView) -> Option<Seq<u8>> {
        match data {
            UnknownFieldDataView::LengthDelimited(bytes) => Some(bytes),
            _ => None,
        }
    }

    open spec fn unknown_of(&self) -> Option<Seq<UnknownFieldView>> {
        None
    }

    fn encode_raw(&self, buf: &mut Vec<u8>) {
        let contents = bytes_to_vec(self);
        if contents.len() != 0 {
            encode_key(1, WireType::LengthDelimited, buf);
            encode_varint(contents.len() as u64, buf);
            put_slice(&contents, buf);
            proof {
                assert(buf@ =~= old(buf)@ + Self::encoding_of(self.mview()));
            }
        } else {
            proof {
                assert(buf@ =~= old(buf)@ + Self::encoding_of(self.mview()));
            }
        }
    }

    fn merge_field(&mut self, tag: u32, wire_type: WireType, buf: &mut ReadBuf) -> (r: Result<
        (),
        DecodeError,
    >) {
        let ghost s = old(buf).remaining_bytes();
        if tag == 1 {
            if wire_type == WireType::LengthDelimited {
                let ghost pos0 = buf.pos;
                match decode_varint(buf) {
                    Err(e) => {
                        proof {
                            vstd::std_specs::vec::axiom_spec_len(&buf.data);
                            crate::encoding::lemma_varint_decode_bounds(s);
                        }
                        Err(e)
                    },
                    Ok(len) => {
                        let rem = buf.remaining();
                        if len <= rem as u64 {
                            let ghost n = buf.pos - pos0;
                            let bytes = buf.read_bytes(len as usize);
                            proof {
                                assert(bytes@ =~= s.subrange(n, n + len));
                                vstd::std_specs::vec::axiom_spec_len(&bytes);
                            }
                            *self = bytes_from_vec(bytes);
                            Ok(())
                        } else {
                            Err(DecodeError::new("buffer underflow".to_string()))
                        }
                    },
                }
            } else {
                Err(DecodeError::new("invalid wire type".to_string()))
            }
        } else {
            skip_field(wire_type, tag, buf)
        }
    }

    fn encoded_len(&self) -> (n: usize) {
        let count = bytes_len(self);
        if count != 0 {
            let key_len = encoded_len_key(1, WireType::LengthDelimited);
            let prefix_len = encoded_len_varint(count as u64);
            key_len + prefix_len + count
        } else {
            0
        }
    }

    fn clear(&mut self) {
        *self = bytes_new();
    }

    fn decode_from_unknown(field: &UnknownField) -> (r: Result<Self, DecodeError>) {
        match &field.data {
            UnknownFieldData::LengthDelimited(bytes) => {
                let copied = copy_bytes(bytes);
                proof {
                    vstd::std_specs::vec::axiom_spec_len(&copied);
                }
                Ok(bytes_from_vec(copied))
            },
            _ => Err(DecodeError::new("cannot decode bytes from this wire shape".to_string())),
        }
    }

    fn get_unknown_fields(&self) -> (r: Option<&UnknownFieldSet>) {
        None
    }

    proof fn lemma_default_omission(&self) {
    }

}

/// Law, shared shape of the wrapper round-trip statements below: the
/// encoding of a non-default wrapper value is one field-1 record, its key
/// followed by a payload, and merging that payload (with anything after it)
/// into the default value consumes exactly the payload and reproduces the
/// value.
pub open spec fn wrapper_roundtrip_holds<T: Message>(v: T::VMsg, wire_type: WireType, rest: Seq<u8>) -> bool {
    let key = key_encoding(1, wire_type);
    let e = T::encoding_of(v);
    let payload = e.skip(key.len() as int);
    &&& e.len() >= key.len()
    &&& e.take(key.len() as int) == key
    &&& T::merge_of(T::default_view(), 1, wire_type, payload + rest) == Some((v, payload.len() as int))
}

/// Law: the `u64` wrapper's encoding merges back to the value it encoded.
pub proof fn lemma_u64_wrapper_roundtrip(value: u64, rest: Seq<u8>)
    requires
        value != 0,
    ensures
        wrapper_roundtrip_holds::<u64>(value, WireType::Varint, rest),
{
    let key = key_encoding(1, WireType::Varint);
    let e = <u64 as Message>::encoding_of(value);
    let payload = e.skip(key.len() as int);
    assert(e.take(key.len() as int) =~= key);
    assert(payload =~= varint_encoding(value));
    lemma_varint_roundtrip(value, rest);
    assert(payload + rest =~= varint_encoding(value) + rest);
}

/// Law: the `u32` wrapper's encoding merges back to the value it encoded.
pub proof fn lemma_u32_wrapper_roundtrip(value: u32, rest: Seq<u8>)
    requires
        value != 0,
    ensures
        wrapper_roundtrip_holds::<u32>(value, WireType::Varint, rest),
{
    let key = key_encoding(1, WireType::Varint);
    let e = <u32 as Message>::encoding_of(value);
    let payload = e.skip(key.len() as int);
    assert(e.take(key.len() as int) =~= key);
    assert(payload =~= varint_encoding(value as u64));
    lemma_varint_roundtrip(value as u64, rest);
    assert(payload + rest =~= varint_encoding(value as u64) + rest);
}

/// Law: the `bool` wrapper's encoding merges back to the value it encoded.
pub proof fn lemma_bool_wrapper_roundtrip(value: bool, rest: Seq<u8>)
    requires
        value,
    ensures
        wrapper_roundtrip_holds::<bool>(value, WireType::Varint, rest),
{
    let key = key_encoding(1, WireType::Varint);
    let e = <bool as Message>::encoding_of(value);
    let payload = e.skip(key.len() as int);
    assert(e.take(key.len() as int) =~= key);
    assert(payload =~= varint_encoding(1));
    lemma_varint_roundtrip(1, rest);
    assert(payload + rest =~= varint_encoding(1) + rest);
}

/// Law: the `i32` wrapper's encoding merges back to the value it encoded
/// (negative values travel sign-extended to 64 bits and are truncated back).
pub proof fn lemma_i32_wrapper_roundtrip(value: i32, rest: Seq<u8>)
    requires
        value != 0,
    ensures
        wrapper_roundtrip_holds::<i32>(value, WireType::Varint, rest),
{
    let key = key_encoding(1, WireType::Varint);
    let e = <i32 as Message>::encoding_of(value);
    let payload = e.skip(key.len() as int);
    assert(e.take(key.len() as int) =~= key);
    assert(payload =~= varint_encoding(i32_wire_bits(value)));
    lemma_varint_roundtrip(i32_wire_bits(value), rest);
    assert(payload + rest =~= varint_encoding(i32_wire_bits(value)) + rest);
    assert(low_bits_as_i32(i32_wire_bits(value)) == value);
}

/// Law: the `i64` wrapper's encoding merges back to the value it encoded.
pub proof fn lemma_i64_wrapper_roundtrip(value: i64, rest: Seq<u8>)
    requires
        value != 0,
    ensures
        wrapper_roundtrip_holds::<i64>(value, WireType::Varint, rest),
{
    let key = key_encoding(1, WireType::Varint);
    let e = <i64 as Message>::encoding_of(value);
    let payload = e.skip(key.len() as int);
    assert(e.take(key.len() as int) =~= key);
    assert(payload =~= varint_encoding(i64_wire_bits(value)));
    lemma_varint_roundtrip(i64_wire_bits(value), rest);
    assert(payload + rest =~= varint_encoding(i64_wire_bits(value)) + rest);
    assert(bits_as_i64(i64_wire_bits(value)) == value);
}

/// Law: the `String` wrapper's encoding merges back to the characters it
/// encoded.
pub proof fn lemma_string_wrapper_roundtrip(value: Seq<char>, rest: Seq<u8>)
    requires
        value.len() != 0,
        vstd::utf8::encode_utf8(value).len() <= usize::MAX,
    ensures
        wrapper_roundtrip_holds::<String>(value, WireType::LengthDelimited, rest),
{
    let bytes = vstd::utf8::encode_utf8(value);
    let key = key_encoding(1, WireType::LengthDelimited);
    let e = <String as Message>::encoding_of(value);
    let payload = e.skip(key.len() as int);
    assert(e.take(key.len() as int) =~= key);
    assert(payload =~= varint_encoding(bytes.len() as u64) + bytes);
    lemma_varint_roundtrip(bytes.len() as u64, bytes + rest);
    assert(payload + rest =~= varint_encoding(bytes.len() as u64) + (bytes + rest));
    let n = varint_encoding(bytes.len() as u64).len() as int;
    let s = payload + rest;
    assert(s.subrange(n, n + bytes.len()) =~= bytes);
    vstd::utf8::encode_utf8_valid_utf8(value);
    vstd::utf8::encode_utf8_decode_utf8(value);
    lemma_encode_utf8_empty(value);
}

/// Law: the byte-sequence wrappers' encoding merges back to the bytes it
/// encoded (the same statement covers `Vec<u8>` and `bytes::Bytes`, whose
/// views and specs coincide).
pub proof fn lemma_bytes_wrapper_roundtrip(value: Seq<u8>, rest: Seq<u8>)
    requires
        value.len() != 0,
        value.len() <= usize::MAX,
    ensures
        wrapper_roundtrip_holds::<Vec<u8>>(value, WireType::LengthDelimited, rest),
        wrapper_roundtrip_holds::<bytes::Bytes>(value, WireType::LengthDelimited, rest),
{
    let key = key_encoding(1, WireType::LengthDelimited);
    let e = <Vec<u8> as Message>::encoding_of(value);
    let payload = e.skip(key.len() as int);
    assert(e.take(key.len() as int) =~= key);
    assert(payload =~= varint_encoding(value.len() as u64) + value);
    lemma_varint_roundtrip(value.len() as u64, value + rest);
    assert(payload + rest =~= varint_encoding(value.len() as u64) + (value + rest));
    let n = varint_encoding(value.len() as u64).len() as int;
    let s = payload + rest;
    assert(s.subrange(n, n + value.len()) =~= value);
    let e2 = <bytes::Bytes as Message>::encoding_of(value);
    let payload2 = e2.skip(key.len() as int);
    assert(e2.take(key.len() as int) =~= key);
    assert(payload2 =~= payload);
}

/// A message consisting only of its unknown-field store: every field read
/// off the wire is unrecognized and funnels into the set, and encoding
/// re-emits the stored fields.  This is the shape the derive-time glue
/// splices into generated messages, realized directly; it also serves as an
/// owning message for extension access.
impl Message for UnknownFieldSet {
    type VMsg = Seq<UnknownFieldView>;

    open spec fn mview(&self) -> Seq<UnknownFieldView> {
        self@
    }

    open spec fn inv(&self) -> bool {
        self.wf()
    }

    open spec fn encoding_of(v: Seq<UnknownFieldView>) -> Seq<u8> {
        set_encoding(v)
    }

    open spec fn is_default_of(v: Seq<UnknownFieldView>) -> bool {
        v.len() == 0
    }

    open spec fn default_view() -> Seq<UnknownFieldView> {
        Seq::empty()
    }

    open spec fn merge_of(
        v: Seq<UnknownFieldView>,
        tag: u32,
        wire_type: WireType,
        s: Seq<u8>,
    ) -> Option<(Seq<UnknownFieldView>, int)> {
        match parse_field_spec(tag, wire_type, s) {
            FieldParse::Malformed => None,
            FieldParse::Value(data, n) => Some(
                (insert_entry(v, UnknownFieldView { tag, data }), n),
            ),
            FieldParse::Skipped(n) => Some((v, n)),
        }
    }

    open spec fn from_unknown_of(data: UnknownFieldDataView) -> Option<Seq<UnknownFieldView>> {
        match data {
            UnknownFieldDataView::LengthDelimited(bytes) => message_fields_decode(
                Seq::empty(),
                bytes,
            ),
            _ => None,
        }
    }

    open spec fn unknown_of(&self) -> Option<Seq<UnknownFieldView>> {
        Some(self@)
    }

    fn encode_raw(&self, buf: &mut Vec<u8>) {
        self.encode(buf);
    }

    fn merge_field(&mut self, tag: u32, wire_type: WireType, buf: &mut ReadBuf) -> (r: Result<
        (),
        DecodeError,
    >) {
        self.skip_unknown_field(tag, wire_type, buf)
    }

    fn encoded_len(&self) -> (n: usize) {
        proof {
            if self@.len() > 0 {
                lemma_set_encoding_not_empty(self@);
            }
        }
        self.encoded_len()
    }

    fn clear(&mut self) {
        self.data = None;
        proof {
            assert(self@ =~= Seq::<UnknownFieldView>::empty());
        }
    }

    fn decode_from_unknown(field: &UnknownField) -> (r: Result<Self, DecodeError>) {
        match &field.data {
            UnknownFieldData::LengthDelimited(bytes) => {
                let mut set = UnknownFieldSet::new();
                let mut rb = ReadBuf::new(copy_bytes(bytes));
                match merge_from_buf(&mut set, &mut rb) {
                    Ok(_) => Ok(set),
                    Err(e) => Err(e),
                }
            },
            _ => Err(
                DecodeError::new("cannot decode a message from this wire shape".to_string()),
            ),
        }
    }

    fn get_unknown_fields(&self) -> (r: Option<&UnknownFieldSet>) {
        Some(self)
    }

    proof fn lemma_default_omission(&self) {
        if self@.len() > 0 {
            lemma_set_encoding_not_empty(self@);
        }
    }
}

/// A set with at least one entry encodes to at least one byte: every field
/// record starts with a key of at least one byte.
pub proof fn lemma_set_encoding_not_empty(entries: Seq<UnknownFieldView>)
    requires
        entries.len() > 0,
    ensures
        set_encoding(entries).len() > 0,
{
    let first = entries[0];
    assert(varint_encoding(((first.tag * 8 + crate::encoding::spec_wire_type_code(
        data_wire_type(first.data),
    )) as u64)).len() >= 1);
}

} // verus!
