//! The structural round-trip law: encoding an unknown-field set and
//! decoding the bytes through a fresh set reproduces the same entries.
//!
//! Re-encoding emits fields in ascending field-number order, whatever order
//! they were first seen in, so the round trip is structural — same field
//! numbers, same stored values — rather than byte-for-byte with the
//! original input.

use vstd::prelude::*;

use crate::encoding::{
    key_decode, key_encoding, lemma_key_roundtrip, lemma_varint_roundtrip, varint_encoding,
    MAX_TAG,
};
use crate::unknown_field_set::{
    data_wire_type, field_encoding, insert_entry, lemma_set_encoding_split, lookup_entry,
    message_fields_decode, parse_field_spec, payload_encoding, set_encoding, sorted_by_tag,
    FieldParse, UnknownFieldDataView, UnknownFieldView,
};

verus! {

/// An entry the wire format can carry faithfully: its field number fits a
/// key, and a length-delimited payload's length fits the 64-bit length
/// prefix.  Every entry that was parsed off an actual buffer satisfies
/// this.
pub open spec fn entry_encodable(entry: UnknownFieldView) -> bool {
    &&& entry.tag <= MAX_TAG
    &&& match entry.data {
        UnknownFieldDataView::LengthDelimited(bytes) => bytes.len() <= u64::MAX,
        _ => true,
    }
}

/// Parsing a stored value's payload, after its key, reproduces the value
/// and consumes exactly the payload.
proof fn lemma_parse_payload_roundtrip(tag: u32, data: UnknownFieldDataView, rest: Seq<u8>)
    requires
        entry_encodable(UnknownFieldView { tag, data }),
    ensures
        parse_field_spec(tag, data_wire_type(data), payload_encoding(data) + rest)
            == FieldParse::Value(data, payload_encoding(data).len() as int),
{
    let payload = payload_encoding(data);
    let s = payload + rest;
    match data {
        UnknownFieldDataView::Varint(value) => {
            lemma_varint_roundtrip(value, rest);
            assert(s =~= varint_encoding(value) + rest);
        },
        UnknownFieldDataView::SixtyFourBit(value) => {
            crate::encoding::lemma_le64_roundtrip(value);
            let e = crate::encoding::le64_encoding(value);
            assert forall|i: int| 0 <= i < 8 implies s[i] == e[i] by {}
            assert(crate::encoding::le64_value(s) == crate::encoding::le64_value(e));
        },
        UnknownFieldDataView::ThirtyTwoBit(value) => {
            crate::encoding::lemma_le32_roundtrip(value);
            let e = crate::encoding::le32_encoding(value);
            assert forall|i: int| 0 <= i < 4 implies s[i] == e[i] by {}
            assert(crate::encoding::le32_value(s) == crate::encoding::le32_value(e));
        },
        UnknownFieldDataView::LengthDelimited(bytes) => {
            lemma_varint_roundtrip(bytes.len() as u64, bytes + rest);
            assert(s =~= varint_encoding(bytes.len() as u64) + (bytes + rest));
            let n = varint_encoding(bytes.len() as u64).len() as int;
            assert(s.subrange(n, n + bytes.len()) =~= bytes);
        },
    }
}

/// Inserting an entry whose field number is above every stored one appends
/// it.
proof fn lemma_insert_entry_append(entries: Seq<UnknownFieldView>, field: UnknownFieldView)
    requires
        forall|i: int| 0 <= i < entries.len() ==> entries[i].tag < field.tag,
    ensures
        insert_entry(entries, field) == entries.push(field),
    decreases entries.len(),
{
    if entries.len() == 0 {
        assert(insert_entry(entries, field) =~= entries.push(field));
    } else {
        lemma_insert_entry_append(entries.skip(1), field);
        assert(seq![entries[0]] + entries.skip(1).push(field) =~= entries.push(field));
    }
}

/// Decoding the encoding of sorted entries, all above the tags already in
/// `acc`, appends them to `acc` in order.
proof fn lemma_decode_all(acc: Seq<UnknownFieldView>, entries: Seq<UnknownFieldView>)
    requires
        sorted_by_tag(entries),
        forall|i: int| 0 <= i < entries.len() ==> #[trigger] entry_encodable(entries[i]),
        forall|i: int, j: int|
            0 <= i < acc.len() && 0 <= j < entries.len() ==> acc[i].tag < entries[j].tag,
    ensures
        message_fields_decode(acc, set_encoding(entries)) == Some(acc + entries),
    decreases entries.len(),
{
    if entries.len() == 0 {
        assert(set_encoding(entries).len() == 0);
        assert(acc + entries =~= acc);
    } else {
        let first = entries[0];
        assert(entry_encodable(first));
        let tail = entries.skip(1);
        let wire_type = data_wire_type(first.data);
        let key = key_encoding(first.tag, wire_type);
        let payload = payload_encoding(first.data);
        let s = set_encoding(entries);
        assert(s == field_encoding(first.tag, first.data) + set_encoding(tail));
        assert(s =~= key + (payload + set_encoding(tail)));
        lemma_key_roundtrip(first.tag, wire_type, payload + set_encoding(tail));
        let n = key.len() as int;
        assert(key_decode(s) == Some((first.tag, wire_type, n)));
        assert(s.skip(n) =~= payload + set_encoding(tail));
        lemma_parse_payload_roundtrip(first.tag, first.data, set_encoding(tail));
        let m = payload.len() as int;
        assert(parse_field_spec(first.tag, wire_type, s.skip(n)) == FieldParse::Value(
            first.data,
            m,
        ));
        assert(s.skip(n + m) =~= set_encoding(tail));
        lemma_insert_entry_append(acc, first);
        assert(UnknownFieldView { tag: first.tag, data: first.data } == first);
        let acc2 = acc.push(first);
        assert forall|i: int, j: int|
            0 <= i < acc2.len() && 0 <= j < tail.len() implies acc2[i].tag < tail[j].tag by {
            assert(tail[j] == entries[j + 1]);
        }
        assert forall|i: int| 0 <= i < tail.len() implies #[trigger] entry_encodable(
            tail[i],
        ) by {
            assert(tail[i] == entries[i + 1]);
        }
        lemma_decode_all(acc2, tail);
        assert(acc2 + tail =~= acc + entries);
    }
}

/// Law: for any sorted set of encodable entries — what any sequence of
/// successfully stored fields looks like — encoding the set and decoding
/// the bytes through a fresh, empty set reproduces exactly the same
/// entries.
pub proof fn lemma_set_roundtrip(entries: Seq<UnknownFieldView>)
    requires
        sorted_by_tag(entries),
        forall|i: int| 0 <= i < entries.len() ==> #[trigger] entry_encodable(entries[i]),
    ensures
        message_fields_decode(Seq::empty(), set_encoding(entries)) == Some(entries),
{
    lemma_decode_all(Seq::empty(), entries);
    assert(Seq::empty() + entries =~= entries);
}

} // verus!
