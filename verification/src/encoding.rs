//! Wire-level primitives of the protobuf encoding: the wire-type codes, a
//! byte cursor for decoding, the LEB128 varint codec, little-endian fixed
//! words, field keys, and the generic field skipper.
//!
//! Every encoder in this module appends to a `Vec<u8>` and is specified
//! against a spec-level byte sequence; every decoder consumes from a
//! [`ReadBuf`] cursor and is specified against a spec-level parse of the
//! bytes remaining at entry.

use vstd::prelude::*;

use crate::error::DecodeError;

verus! {

/// The largest field number the wire format can carry in a key that fits a
/// 32-bit tag: `2^29 - 1`.
pub const MAX_TAG: u32 = 536870911;

/// The five physical wire shapes of the protobuf encoding, plus the legacy
/// group framing markers.  The on-wire code of each variant is given by
/// [`wire_type_code`].
#[derive(Clone, Copy, Debug, PartialEq, Eq, Structural)]
pub enum WireType {
    Varint,
    SixtyFourBit,
    LengthDelimited,
    StartGroup,
    EndGroup,
    ThirtyTwoBit,
}

/// The on-wire code of a wire type.
pub open spec fn spec_wire_type_code(wire_type: WireType) -> u64 {
    match wire_type {
        WireType::Varint => 0,
        WireType::SixtyFourBit => 1,
        WireType::LengthDelimited => 2,
        WireType::StartGroup => 3,
        WireType::EndGroup => 4,
        WireType::ThirtyTwoBit => 5,
    }
}

/// The wire type denoted by an on-wire code, if the code is assigned.
pub open spec fn spec_wire_type_from_code(code: u64) -> Option<WireType> {
    if code == 0 {
        Some(WireType::Varint)
    } else if code == 1 {
        Some(WireType::SixtyFourBit)
    } else if code == 2 {
        Some(WireType::LengthDelimited)
    } else if code == 3 {
        Some(WireType::StartGroup)
    } else if code == 4 {
        Some(WireType::EndGroup)
    } else if code == 5 {
        Some(WireType::ThirtyTwoBit)
    } else {
        None
    }
}

/// The on-wire code of a wire type.
pub fn wire_type_code(wire_type: WireType) -> (code: u64)
    ensures
        code == spec_wire_type_code(wire_type),
{
    match wire_type {
        WireType::Varint => 0,
        WireType::SixtyFourBit => 1,
        WireType::LengthDelimited => 2,
        WireType::StartGroup => 3,
        WireType::EndGroup => 4,
        WireType::ThirtyTwoBit => 5,
    }
}

/// The wire type denoted by an on-wire code; an unassigned code is a decode
/// error.
pub fn wire_type_from_code(code: u64) -> (r: Result<WireType, DecodeError>)
    ensures
        match r {
            Ok(wire_type) => spec_wire_type_from_code(code) == Some(wire_type),
            Err(_) => spec_wire_type_from_code(code) is None,
        },
{
    if code == 0 {
        Ok(WireType::Varint)
    } else if code == 1 {
        Ok(WireType::SixtyFourBit)
    } else if code == 2 {
        Ok(WireType::LengthDelimited)
    } else if code == 3 {
        Ok(WireType::StartGroup)
    } else if code == 4 {
        Ok(WireType::EndGroup)
    } else if code == 5 {
        Ok(WireType::ThirtyTwoBit)
    } else {
        Err(DecodeError::new("invalid wire type value".to_string()))
    }
}

/// A read-only cursor over a byte buffer: the decode-side buffer capability.
/// Decoders consume from the front of [`ReadBuf::remaining_bytes`] by
/// advancing `pos`; the underlying bytes are never modified.
pub struct ReadBuf {
    pub data: Vec<u8>,
    pub pos: usize,
}

impl ReadBuf {
    /// The cursor is within bounds.
    pub open spec fn wf(&self) -> bool {
        self.pos <= self.data@.len()
    }

    /// The bytes not yet consumed.
    pub open spec fn remaining_bytes(&self) -> Seq<u8> {
        self.data@.subrange(self.pos as int, self.data@.len() as int)
    }

    /// Builds a cursor at the start of a buffer.
    pub fn new(data: Vec<u8>) -> (r: ReadBuf)
        ensures
            r.wf(),
            r.remaining_bytes() == data@,
            r.data == data,
            r.pos == 0,
    {
        let r = ReadBuf { data, pos: 0 };
        proof {
            assert(r.remaining_bytes() =~= r.data@);
        }
        r
    }

    /// How many bytes are left to consume.
    pub fn remaining(&self) -> (n: usize)
        requires
            self.wf(),
        ensures
            n == self.remaining_bytes().len(),
    {
        self.data.len() - self.pos
    }
}

/// The canonical LEB128 encoding of an unsigned integer: seven payload bits
/// per byte, least significant first, continuation bit high on every byte but
/// the last.
pub open spec fn varint_encoding(value: u64) -> Seq<u8>
    decreases value,
{
    if value < 128 {
        seq![value as u8]
    } else {
        seq![(value % 128 + 128) as u8] + varint_encoding(value / 128)
    }
}

/// The LEB128 parse of the front of a byte sequence: the decoded value (as an
/// unbounded integer, so that over-long inputs are described too) and the
/// number of bytes consumed, or `None` if no terminating byte is found.
pub open spec fn varint_decode(s: Seq<u8>) -> Option<(int, int)>
    decreases s.len(),
{
    if s.len() == 0 {
        None
    } else if s[0] < 128 {
        Some((s[0] as int, 1))
    } else {
        match varint_decode(s.skip(1)) {
            None => None,
            Some((value, n)) => Some(((s[0] - 128) + 128 * value, n + 1)),
        }
    }
}

/// A successful LEB128 parse consumes between one byte and the whole input,
/// and yields a non-negative value.
pub proof fn lemma_varint_decode_bounds(s: Seq<u8>)
    ensures
        match varint_decode(s) {
            Some((value, n)) => 0 <= value && 1 <= n <= s.len(),
            None => true,
        },
    decreases s.len(),
{
    if s.len() > 0 && s[0] >= 128 {
        lemma_varint_decode_bounds(s.skip(1));
    }
}

/// Decoding inverts encoding: the canonical encoding of `value`, followed by
/// anything, parses back to `value`, consuming exactly the encoding.
pub proof fn lemma_varint_roundtrip(value: u64, rest: Seq<u8>)
    ensures
        varint_decode(varint_encoding(value) + rest) == Some(
            (value as int, varint_encoding(value).len() as int),
        ),
    decreases value,
{
    let s = varint_encoding(value) + rest;
    if value < 128 {
        assert(s[0] == value as u8);
    } else {
        lemma_varint_roundtrip(value / 128, rest);
        assert(s.skip(1) =~= varint_encoding(value / 128) + rest);
        assert(s[0] == (value % 128 + 128) as u8);
        assert((s[0] - 128) + 128 * (value as int / 128) == value) by {
            vstd::arithmetic::div_mod::lemma_fundamental_div_mod(value as int, 128);
        }
    }
}

/// Appends the LEB128 encoding of `value` to `buf`.
pub fn encode_varint(value: u64, buf: &mut Vec<u8>)
    ensures
        final(buf)@ == old(buf)@ + varint_encoding(value),
    decreases value,
{
    if value < 128 {
        buf.push(value as u8);
        proof {
            assert(buf@ =~= old(buf)@ + varint_encoding(value));
        }
    } else {
        buf.push((value % 128 + 128) as u8);
        encode_varint(value / 128, buf);
        proof {
            assert(buf@ =~= old(buf)@ + varint_encoding(value));
        }
    }
}

/// The byte length of the LEB128 encoding of `value`, without writing it.
pub fn encoded_len_varint(value: u64) -> (n: usize)
    ensures
        n == varint_encoding(value).len(),
        1 <= n <= 10,
    decreases value,
{
    if value < 128 {
        1
    } else {
        proof {
            lemma_varint_encoding_len(value);
        }
        1 + encoded_len_varint(value / 128)
    }
}

/// A LEB128 encoding of a 64-bit value is at most ten bytes.
pub proof fn lemma_varint_encoding_len(value: u64)
    ensures
        1 <= varint_encoding(value).len() <= 10,
    decreases value,
{
    if value >= 128 {
        lemma_varint_encoding_len(value / 128);
        if varint_encoding(value / 128).len() >= 10 {
            lemma_varint_encoding_floor(value / 128, 10);
            assert(vstd::arithmetic::power::pow(128, 9) == 0x8000000000000000) by {
                reveal_with_fuel(vstd::arithmetic::power::pow, 10);
            };
            vstd::arithmetic::div_mod::lemma_div_is_ordered(
                value as int,
                u64::MAX as int,
                128,
            );
            assert(false);
        }
    }
}

/// A value whose encoding takes at least `n >= 2` bytes is at least
/// `128^(n-1)`; used to bound encodings of 64-bit values by ten bytes.
proof fn lemma_varint_encoding_floor(value: u64, n: int)
    requires
        varint_encoding(value).len() >= n,
        2 <= n <= 10,
    ensures
        value as int >= vstd::arithmetic::power::pow(128, (n - 1) as nat),
    decreases n,
{
    assert(value >= 128);
    if n == 2 {
        vstd::arithmetic::power::lemma_pow1(128);
    } else {
        lemma_varint_encoding_floor(value / 128, n - 1);
        assert(value as int >= 128 * (value as int / 128)) by {
            vstd::arithmetic::div_mod::lemma_fundamental_div_mod(value as int, 128);
        };
        assert(vstd::arithmetic::power::pow(128, (n - 1) as nat) == 128
            * vstd::arithmetic::power::pow(128, (n - 2) as nat)) by {
            vstd::arithmetic::power::lemma_pow_adds(128, 1, (n - 2) as nat);
            vstd::arithmetic::power::lemma_pow1(128);
        };
        vstd::arithmetic::mul::lemma_mul_inequality(
            vstd::arithmetic::power::pow(128, (n - 2) as nat),
            value as int / 128,
            128,
        );
    }
}

/// Reads one LEB128 varint starting at `pos`, returning the value and the
/// position after it.  Fails when the buffer ends before a terminating byte,
/// or when the encoded value does not fit in 64 bits.
fn decode_varint_at(data: &Vec<u8>, pos: usize) -> (r: Result<(u64, usize), DecodeError>)
    requires
        pos <= data@.len(),
    ensures
        match r {
            Ok((value, end)) => {
                &&& pos < end <= data@.len()
                &&& varint_decode(suffix_from(data@, pos as int)) == Some(
                    (value as int, end - pos),
                )
            },
            Err(_) => ({
                let d = varint_decode(suffix_from(data@, pos as int));
                d is None || d->Some_0.0 > u64::MAX
            }),
        },
    decreases data@.len() - pos,
{
    let ghost s = suffix_from(data@, pos as int);
    if pos == data.len() {
        return Err(DecodeError::new("buffer underflow decoding varint".to_string()));
    }
    let b = data[pos];
    proof {
        assert(s[0] == b);
    }
    if b < 128 {
        Ok((b as u64, pos + 1))
    } else {
        proof {
            assert(s.skip(1) =~= suffix_from(data@, pos + 1));
        }
        match decode_varint_at(data, pos + 1) {
            Err(e) => Err(e),
            Ok((tail, end)) => {
                let payload = (b - 128) as u64;
                if tail <= (u64::MAX - payload) / 128 {
                    Ok((payload + 128 * tail, end))
                } else {
                    Err(DecodeError::new("varint overflows 64 bits".to_string()))
                }
            },
        }
    }
}

/// The bytes of `data` from `pos` to the end.
pub open spec fn suffix_from(data: Seq<u8>, pos: int) -> Seq<u8> {
    data.subrange(pos, data.len() as int)
}

/// Consumes one LEB128 varint from the cursor.  Fails, consuming nothing,
/// when the buffer ends before a terminating byte or the value overflows 64
/// bits.
pub fn decode_varint(buf: &mut ReadBuf) -> (r: Result<u64, DecodeError>)
    requires
        old(buf).wf(),
    ensures
        final(buf).wf(),
        final(buf).data == old(buf).data,
        match r {
            Ok(value) => {
                &&& old(buf).pos < final(buf).pos
                &&& varint_decode(old(buf).remaining_bytes()) == Some(
                    (value as int, final(buf).pos - old(buf).pos),
                )
            },
            Err(_) => {
                let d = varint_decode(old(buf).remaining_bytes());
                &&& final(buf).pos == old(buf).pos
                &&& (d is None || d->Some_0.0 > u64::MAX)
            },
        },
{
    match decode_varint_at(&buf.data, buf.pos) {
        Ok((value, end)) => {
            buf.pos = end;
            Ok(value)
        },
        Err(e) => Err(e),
    }
}

/// The four-byte little-endian encoding of a 32-bit word.
pub open spec fn le32_encoding(value: u32) -> Seq<u8> {
    seq![
        (value & 0xff) as u8,
        ((value >> 8) & 0xff) as u8,
        ((value >> 16) & 0xff) as u8,
        ((value >> 24) & 0xff) as u8,
    ]
}

/// The 32-bit word held little-endian in the first four bytes of `s`.
pub open spec fn le32_value(s: Seq<u8>) -> u32
    recommends
        s.len() >= 4,
{
    (s[0] as u32) | ((s[1] as u32) << 8) | ((s[2] as u32) << 16) | ((s[3] as u32) << 24)
}

/// Reading four little-endian bytes inverts writing them.
pub proof fn lemma_le32_roundtrip(value: u32)
    ensures
        le32_value(le32_encoding(value)) == value,
{
    assert((((value & 0xff) as u8) as u32 | ((((value >> 8) & 0xff) as u8) as u32) << 8 | ((((
    value >> 16) & 0xff) as u8) as u32) << 16 | ((((value >> 24) & 0xff) as u8) as u32) << 24)
        == value) by (bit_vector);
}

/// The eight-byte little-endian encoding of a 64-bit word.
pub open spec fn le64_encoding(value: u64) -> Seq<u8> {
    seq![
        (value & 0xff) as u8,
        ((value >> 8) & 0xff) as u8,
        ((value >> 16) & 0xff) as u8,
        ((value >> 24) & 0xff) as u8,
        ((value >> 32) & 0xff) as u8,
        ((value >> 40) & 0xff) as u8,
        ((value >> 48) & 0xff) as u8,
        ((value >> 56) & 0xff) as u8,
    ]
}

/// The 64-bit word held little-endian in the first eight bytes of `s`.
pub open spec fn le64_value(s: Seq<u8>) -> u64
    recommends
        s.len() >= 8,
{
    (s[0] as u64) | ((s[1] as u64) << 8) | ((s[2] as u64) << 16) | ((s[3] as u64) << 24) | ((
    s[4] as u64) << 32) | ((s[5] as u64) << 40) | ((s[6] as u64) << 48) | ((s[7] as u64) << 56)
}

/// Reading eight little-endian bytes inverts writing them.
pub proof fn lemma_le64_roundtrip(value: u64)
    ensures
        le64_value(le64_encoding(value)) == value,
{
    assert((((value & 0xff) as u8) as u64 | ((((value >> 8) & 0xff) as u8) as u64) << 8 | ((((
    value >> 16) & 0xff) as u8) as u64) << 16 | ((((value >> 24) & 0xff) as u8) as u64) << 24 | ((((
    value >> 32) & 0xff) as u8) as u64) << 32 | ((((value >> 40) & 0xff) as u8) as u64) << 40 | ((((
    value >> 48) & 0xff) as u8) as u64) << 48 | ((((value >> 56) & 0xff) as u8) as u64) << 56)
        == value) by (bit_vector);
}

/// Appends the four-byte little-endian encoding of `value` to `buf`.
pub fn put_u32_le(value: u32, buf: &mut Vec<u8>)
    ensures
        final(buf)@ == old(buf)@ + le32_encoding(value),
{
    buf.push((value & 0xff) as u8);
    buf.push(((value >> 8) & 0xff) as u8);
    buf.push(((value >> 16) & 0xff) as u8);
    buf.push(((value >> 24) & 0xff) as u8);
    proof {
        assert(buf@ =~= old(buf)@ + le32_encoding(value));
    }
}

/// Appends the eight-byte little-endian encoding of `value` to `buf`.
pub fn put_u64_le(value: u64, buf: &mut Vec<u8>)
    ensures
        final(buf)@ == old(buf)@ + le64_encoding(value),
{
    buf.push((value & 0xff) as u8);
    buf.push(((value >> 8) & 0xff) as u8);
    buf.push(((value >> 16) & 0xff) as u8);
    buf.push(((value >> 24) & 0xff) as u8);
    buf.push(((value >> 32) & 0xff) as u8);
    buf.push(((value >> 40) & 0xff) as u8);
    buf.push(((value >> 48) & 0xff) as u8);
    buf.push(((value >> 56) & 0xff) as u8);
    proof {
        assert(buf@ =~= old(buf)@ + le64_encoding(value));
    }
}

/// Appends every byte of `bytes` to `buf`.
pub fn put_slice(bytes: &Vec<u8>, buf: &mut Vec<u8>)
    ensures
        final(buf)@ == old(buf)@ + bytes@,
{
    let mut i: usize = 0;
    while i < bytes.len()
        invariant
            i <= bytes@.len(),
            buf@ == old(buf)@ + bytes@.take(i as int),
        decreases bytes@.len() - i,
    {
        buf.push(bytes[i]);
        proof {
            assert(old(buf)@ + bytes@.take(i as int) + seq![bytes@[i as int]] =~= old(buf)@
                + bytes@.take(i + 1));
        }
        i = i + 1;
    }
    proof {
        assert(buf@ =~= old(buf)@ + bytes@);
    }
}

impl ReadBuf {
    /// Consumes a 32-bit little-endian word.
    pub fn get_u32_le(&mut self) -> (value: u32)
        requires
            old(self).wf(),
            old(self).remaining_bytes().len() >= 4,
        ensures
            final(self).wf(),
            final(self).data == old(self).data,
            final(self).pos == old(self).pos + 4,
            value == le32_value(old(self).remaining_bytes()),
    {
        let ghost n = self.data@.len();
        proof {
            vstd::std_specs::vec::axiom_spec_len(&self.data);
            assert(self.pos + 4 <= n <= usize::MAX);
        }
        let b0 = self.data[self.pos] as u32;
        let b1 = self.data[self.pos + 1] as u32;
        let b2 = self.data[self.pos + 2] as u32;
        let b3 = self.data[self.pos + 3] as u32;
        self.pos = self.pos + 4;
        b0 | (b1 << 8) | (b2 << 16) | (b3 << 24)
    }

    /// Consumes a 64-bit little-endian word.
    pub fn get_u64_le(&mut self) -> (value: u64)
        requires
            old(self).wf(),
            old(self).remaining_bytes().len() >= 8,
        ensures
            final(self).wf(),
            final(self).data == old(self).data,
            final(self).pos == old(self).pos + 8,
            value == le64_value(old(self).remaining_bytes()),
    {
        let ghost n = self.data@.len();
        proof {
            vstd::std_specs::vec::axiom_spec_len(&self.data);
            assert(self.pos + 8 <= n <= usize::MAX);
        }
        let b0 = self.data[self.pos] as u64;
        let b1 = self.data[self.pos + 1] as u64;
        let b2 = self.data[self.pos + 2] as u64;
        let b3 = self.data[self.pos + 3] as u64;
        let b4 = self.data[self.pos + 4] as u64;
        let b5 = self.data[self.pos + 5] as u64;
        let b6 = self.data[self.pos + 6] as u64;
        let b7 = self.data[self.pos + 7] as u64;
        self.pos = self.pos + 8;
        b0 | (b1 << 8) | (b2 << 16) | (b3 << 24) | (b4 << 32) | (b5 << 40) | (b6 << 48) | (b7
            << 56)
    }

    /// Consumes `count` bytes, returning them as an owned vector.
    pub fn read_bytes(&mut self, count: usize) -> (bytes: Vec<u8>)
        requires
            old(self).wf(),
            old(self).remaining_bytes().len() >= count,
        ensures
            final(self).wf(),
            final(self).data == old(self).data,
            final(self).pos == old(self).pos + count,
            bytes@ == old(self).remaining_bytes().take(count as int),
    {
        proof {
            vstd::std_specs::vec::axiom_spec_len(&self.data);
            assert(old(self).pos + count <= self.data@.len() <= usize::MAX);
        }
        let mut bytes: Vec<u8> = Vec::new();
        let mut i: usize = 0;
        while i < count
            invariant
                i <= count,
                self.wf(),
                self == old(self),
                old(self).remaining_bytes().len() >= count,
                self.pos + count <= self.data@.len() <= usize::MAX,
                bytes@ == old(self).remaining_bytes().take(i as int),
            decreases count - i,
        {
            bytes.push(self.data[self.pos + i]);
            proof {
                assert(bytes@ =~= old(self).remaining_bytes().take(i + 1));
            }
            i = i + 1;
        }
        self.pos = self.pos + count;
        bytes
    }
}

/// The wire encoding of a field key: the varint of `tag * 8 + code`.
pub open spec fn key_encoding(tag: u32, wire_type: WireType) -> Seq<u8> {
    varint_encoding((tag * 8 + spec_wire_type_code(wire_type)) as u64)
}

/// The parse of a field key from the front of `s`: the tag, the wire type,
/// and the bytes consumed.  Fails on a malformed varint, a key that does not
/// fit 32 bits, or an unassigned wire-type code.
pub open spec fn key_decode(s: Seq<u8>) -> Option<(u32, WireType, int)> {
    match varint_decode(s) {
        None => None,
        Some((key, n)) => if key > u32::MAX {
            None
        } else {
            match spec_wire_type_from_code((key % 8) as u64) {
                None => None,
                Some(wire_type) => Some(((key / 8) as u32, wire_type, n)),
            }
        },
    }
}

/// Decoding a key inverts encoding it, for any in-range tag.
pub proof fn lemma_key_roundtrip(tag: u32, wire_type: WireType, rest: Seq<u8>)
    requires
        tag <= MAX_TAG,
    ensures
        key_decode(key_encoding(tag, wire_type) + rest) == Some(
            (tag, wire_type, key_encoding(tag, wire_type).len() as int),
        ),
{
    let code = spec_wire_type_code(wire_type);
    let key = (tag * 8 + code) as u64;
    lemma_varint_roundtrip(key, rest);
    assert(key as int % 8 == code && key as int / 8 == tag) by {
        vstd::arithmetic::div_mod::lemma_fundamental_div_mod_converse(
            key as int,
            8,
            tag as int,
            code as int,
        );
    }
}

/// Appends the key for `tag` with `wire_type` to `buf`.
pub fn encode_key(tag: u32, wire_type: WireType, buf: &mut Vec<u8>)
    ensures
        final(buf)@ == old(buf)@ + key_encoding(tag, wire_type),
{
    let key: u64 = (tag as u64) * 8 + wire_type_code(wire_type);
    encode_varint(key, buf);
}

/// The byte length the key for `tag` with `wire_type` takes on the wire.
pub fn encoded_len_key(tag: u32, wire_type: WireType) -> (n: usize)
    ensures
        n == key_encoding(tag, wire_type).len(),
        1 <= n <= 10,
{
    let key: u64 = (tag as u64) * 8 + wire_type_code(wire_type);
    encoded_len_varint(key)
}

/// Reads one field key starting at `pos`, returning the tag, the wire type,
/// and the position after the key.
fn decode_key_at(data: &Vec<u8>, pos: usize) -> (r: Result<(u32, WireType, usize), DecodeError>)
    requires
        pos <= data@.len(),
    ensures
        match r {
            Ok((tag, wire_type, end)) => {
                &&& pos < end <= data@.len()
                &&& key_decode(suffix_from(data@, pos as int)) == Some(
                    (tag, wire_type, end - pos),
                )
            },
            Err(_) => key_decode(suffix_from(data@, pos as int)) is None,
        },
{
    match decode_varint_at(data, pos) {
        Err(e) => Err(e),
        Ok((key, end)) => {
            if key > 0xffffffff {
                return Err(DecodeError::new("invalid key value".to_string()));
            }
            match wire_type_from_code(key % 8) {
                Err(e) => Err(e),
                Ok(wire_type) => Ok((#[verifier::truncate] ((key / 8) as u32), wire_type, end)),
            }
        },
    }
}

/// Consumes one field key from the cursor.
pub fn decode_key(buf: &mut ReadBuf) -> (r: Result<(u32, WireType), DecodeError>)
    requires
        old(buf).wf(),
    ensures
        final(buf).wf(),
        final(buf).data == old(buf).data,
        old(buf).pos <= final(buf).pos,
        match r {
            Ok((tag, wire_type)) => {
                &&& old(buf).pos < final(buf).pos
                &&& key_decode(old(buf).remaining_bytes()) == Some(
                    (tag, wire_type, final(buf).pos - old(buf).pos),
                )
            },
            Err(_) => key_decode(old(buf).remaining_bytes()) is None,
        },
{
    match decode_key_at(&buf.data, buf.pos) {
        Ok((tag, wire_type, end)) => {
            buf.pos = end;
            Ok((tag, wire_type))
        },
        Err(e) => Err(e),
    }
}

/// How many bytes the field whose key announced `wire_type` occupies at the
/// front of `s`, or `None` when the field is malformed or truncated.  A
/// start-group marker covers its whole group body; a bare end-group marker is
/// always malformed.
pub open spec fn skip_field_spec(wire_type: WireType, tag: u32, s: Seq<u8>) -> Option<int>
    decreases s.len(), 1int,
{
    match wire_type {
        WireType::Varint => match varint_decode(s) {
            None => None,
            Some((value, n)) => if value > u64::MAX {
                None
            } else {
                Some(n)
            },
        },
        WireType::SixtyFourBit => if s.len() >= 8 {
            Some(8)
        } else {
            None
        },
        WireType::ThirtyTwoBit => if s.len() >= 4 {
            Some(4)
        } else {
            None
        },
        WireType::LengthDelimited => match varint_decode(s) {
            None => None,
            Some((len, n)) => if 1 <= n && 0 <= len && n + len <= s.len() {
                Some(n + len)
            } else {
                None
            },
        },
        WireType::StartGroup => group_skip_spec(tag, s),
        WireType::EndGroup => None,
    }
}

/// How many bytes the body of a group opened with `tag` occupies at the front
/// of `s`, including its closing end-group key.  Nested groups are skipped in
/// turn; an end-group key bearing a different tag is malformed.
pub open spec fn group_skip_spec(tag: u32, s: Seq<u8>) -> Option<int>
    decreases s.len(), 0int,
{
    match key_decode(s) {
        None => None,
        Some((t, wire_type, n)) => if !(1 <= n <= s.len()) {
            None
        } else if wire_type == WireType::EndGroup {
            if t == tag {
                Some(n)
            } else {
                None
            }
        } else {
            match skip_field_spec(wire_type, t, s.skip(n)) {
                None => None,
                Some(m) => if !(0 <= m && n + m <= s.len()) {
                    None
                } else {
                    match group_skip_spec(tag, s.skip(n + m)) {
                        None => None,
                        Some(k) => Some(n + m + k),
                    }
                },
            }
        },
    }
}

/// Skips one field's payload starting at `pos`, returning the position after
/// it.
fn skip_field_at(wire_type: WireType, tag: u32, data: &Vec<u8>, pos: usize) -> (r: Result<
    usize,
    DecodeError,
>)
    requires
        pos <= data@.len(),
    ensures
        match r {
            Ok(end) => {
                &&& pos <= end <= data@.len()
                &&& skip_field_spec(wire_type, tag, suffix_from(data@, pos as int)) == Some(
                    end - pos,
                )
            },
            Err(_) => skip_field_spec(wire_type, tag, suffix_from(data@, pos as int)) is None,
        },
    decreases data@.len() - pos, 1int,
{
    let ghost s = suffix_from(data@, pos as int);
    proof {
        vstd::std_specs::vec::axiom_spec_len(data);
    }
    match wire_type {
        WireType::Varint => match decode_varint_at(data, pos) {
            Ok((_, end)) => Ok(end),
            Err(e) => Err(e),
        },
        WireType::SixtyFourBit => {
            if data.len() - pos >= 8 {
                Ok(pos + 8)
            } else {
                Err(DecodeError::new("buffer underflow".to_string()))
            }
        },
        WireType::ThirtyTwoBit => {
            if data.len() - pos >= 4 {
                Ok(pos + 4)
            } else {
                Err(DecodeError::new("buffer underflow".to_string()))
            }
        },
        WireType::LengthDelimited => match decode_varint_at(data, pos) {
            Ok((len, end)) => {
                if len <= (data.len() - end) as u64 {
                    Ok(end + len as usize)
                } else {
                    Err(DecodeError::new("buffer underflow".to_string()))
                }
            },
            Err(e) => Err(e),
        },
        WireType::StartGroup => skip_group_at(tag, data, pos),
        WireType::EndGroup => Err(DecodeError::new("unexpected end group tag".to_string())),
    }
}

/// Skips a group body opened with `tag`, starting at `pos`, through its
/// closing end-group key.
fn skip_group_at(tag: u32, data: &Vec<u8>, pos: usize) -> (r: Result<usize, DecodeError>)
    requires
        pos <= data@.len(),
    ensures
        match r {
            Ok(end) => {
                &&& pos <= end <= data@.len()
                &&& group_skip_spec(tag, suffix_from(data@, pos as int)) == Some(end - pos)
            },
            Err(_) => group_skip_spec(tag, suffix_from(data@, pos as int)) is None,
        },
    decreases data@.len() - pos, 0int,
{
    let mut cur: usize = pos;
    loop
        invariant
            pos <= cur <= data@.len(),
            group_skip_spec(tag, suffix_from(data@, pos as int)) == (match group_skip_spec(
                tag,
                suffix_from(data@, cur as int),
            ) {
                None => None::<int>,
                Some(k) => Some(k + cur - pos),
            }),
        decreases data@.len() - cur,
    {
        let ghost s_cur = suffix_from(data@, cur as int);
        match decode_key_at(data, cur) {
            Err(e) => {
                return Err(e);
            },
            Ok((t, wire_type, kend)) => {
                if wire_type == WireType::EndGroup {
                    if t == tag {
                        return Ok(kend);
                    } else {
                        return Err(DecodeError::new("unexpected end group tag".to_string()));
                    }
                } else {
                    proof {
                        assert(s_cur.skip(kend - cur) =~= suffix_from(data@, kend as int));
                    }
                    match skip_field_at(wire_type, t, data, kend) {
                        Err(e) => {
                            return Err(e);
                        },
                        Ok(fend) => {
                            proof {
                                assert(s_cur.skip(fend - cur) =~= suffix_from(
                                    data@,
                                    fend as int,
                                ));
                            }
                            cur = fend;
                        },
                    }
                }
            },
        }
    }
}

/// Skips one field's payload from the cursor; the single write-free entry
/// point generated decode loops use for fields they route past entirely.
pub fn skip_field(wire_type: WireType, tag: u32, buf: &mut ReadBuf) -> (r: Result<
    (),
    DecodeError,
>)
    requires
        old(buf).wf(),
    ensures
        final(buf).wf(),
        final(buf).data == old(buf).data,
        old(buf).pos <= final(buf).pos,
        match r {
            Ok(_) => skip_field_spec(wire_type, tag, old(buf).remaining_bytes()) == Some(
                final(buf).pos - old(buf).pos,
            ),
            Err(_) => skip_field_spec(wire_type, tag, old(buf).remaining_bytes()) is None,
        },
{
    match skip_field_at(wire_type, tag, &buf.data, buf.pos) {
        Ok(end) => {
            buf.pos = end;
            Ok(())
        },
        Err(e) => Err(e),
    }
}

} // verus!
