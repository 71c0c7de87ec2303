use unknown_fields::encoding::{decode_key, decode_varint, encode_varint, encoded_len_varint};
use unknown_fields::unknown_field_set::merge_from_buf;
use unknown_fields::{Message, ReadBuf, UnknownField, UnknownFieldData, UnknownFieldSet, WireType};

fn feed(set: &mut UnknownFieldSet, bytes: Vec<u8>) -> Result<(), unknown_fields::DecodeError> {
    let mut buf = ReadBuf::new(bytes);
    merge_from_buf(set, &mut buf)
}

fn stored(set: &UnknownFieldSet, tag: u32) -> UnknownFieldData {
    set.get(tag).expect("field not stored").data.clone()
}

#[test]
fn varint_roundtrip_values() {
    for value in [0u64, 1, 127, 128, 300, 16383, 16384, u64::MAX] {
        let mut buf: Vec<u8> = Vec::new();
        encode_varint(value, &mut buf);
        assert_eq!(buf.len(), encoded_len_varint(value));
        let mut rb = ReadBuf::new(buf);
        assert_eq!(decode_varint(&mut rb).unwrap(), value);
        assert_eq!(rb.remaining(), 0);
    }
}

#[test]
fn varint_lengths() {
    assert_eq!(encoded_len_varint(0), 1);
    assert_eq!(encoded_len_varint(127), 1);
    assert_eq!(encoded_len_varint(128), 2);
    assert_eq!(encoded_len_varint(u64::MAX), 10);
}

#[test]
fn scenario_varint_field_roundtrip() {
    let mut set = UnknownFieldSet::default();
    feed(&mut set, vec![0x08, 0x05]).unwrap();
    assert_eq!(stored(&set, 1), UnknownFieldData::Varint(5));
    let mut out: Vec<u8> = Vec::new();
    set.encode(&mut out);
    assert_eq!(out, vec![0x08, 0x05]);
}

#[test]
fn scenario_fixed64_decodes_as_u64() {
    let mut set = UnknownFieldSet::default();
    feed(&mut set, vec![0x11, 16, 0, 0, 0, 0, 0, 0, 0]).unwrap();
    let field = set.get(2).expect("field 2 missing");
    assert_eq!(field.data, UnknownFieldData::SixtyFourBit(16));
    let value = <u64 as Message>::decode_from_unknown(field).unwrap();
    assert_eq!(value, 16);
}

#[test]
fn encode_orders_by_field_number() {
    let mut set = UnknownFieldSet::default();
    for tag in [5u32, 1, 3] {
        set.insert(
            tag,
            UnknownField {
                tag,
                data: UnknownFieldData::Varint(9),
            },
        );
    }
    let mut out: Vec<u8> = Vec::new();
    set.encode(&mut out);
    assert_eq!(out, vec![0x08, 9, 0x18, 9, 0x28, 9]);
}

#[test]
fn empty_set_allocates_nothing() {
    let set = UnknownFieldSet::default();
    assert!(set.data.is_none());
    assert_eq!(set.encoded_len(), 0);
    let mut out: Vec<u8> = Vec::new();
    set.encode(&mut out);
    assert!(out.is_empty());

    let mut set = UnknownFieldSet::new();
    assert!(set.data.is_none());
    set.insert(
        4,
        UnknownField {
            tag: 4,
            data: UnknownFieldData::Varint(0),
        },
    );
    assert!(set.data.is_some());
}

#[test]
fn duplicate_tag_keeps_last_value() {
    let mut set = UnknownFieldSet::default();
    set.insert(
        7,
        UnknownField {
            tag: 7,
            data: UnknownFieldData::Varint(1),
        },
    );
    set.insert(
        7,
        UnknownField {
            tag: 7,
            data: UnknownFieldData::Varint(2),
        },
    );
    assert_eq!(stored(&set, 7), UnknownFieldData::Varint(2));
    let mut out: Vec<u8> = Vec::new();
    set.encode(&mut out);
    assert_eq!(out, vec![0x38, 2]);
}

#[test]
fn structural_roundtrip_mixed_fields() {
    // Fields arrive out of numeric order and in all four wire shapes.
    let mut input: Vec<u8> = Vec::new();
    input.extend([0x28, 0xac, 0x02]); // field 5, varint 300
    input.extend([0x0d, 1, 2, 3, 4]); // field 1, fixed32
    input.extend([0x1a, 3, 9, 8, 7]); // field 3, 3 length-delimited bytes
    input.extend([0x21, 8, 0, 0, 0, 0, 0, 0, 0]); // field 4, fixed64

    let mut first = UnknownFieldSet::default();
    feed(&mut first, input).unwrap();

    let mut encoded: Vec<u8> = Vec::new();
    first.encode(&mut encoded);

    let mut second = UnknownFieldSet::default();
    feed(&mut second, encoded.clone()).unwrap();
    assert_eq!(first, second);

    // Re-encoding is deterministic and field-number ordered.
    let mut encoded_again: Vec<u8> = Vec::new();
    second.encode(&mut encoded_again);
    assert_eq!(encoded, encoded_again);
    assert_eq!(second.encoded_len(), encoded.len());
}

#[test]
fn groups_are_skipped_not_stored() {
    // field 1 start group, containing field 2 varint 5, then end group.
    let mut set = UnknownFieldSet::default();
    feed(&mut set, vec![0x0b, 0x10, 0x05, 0x0c]).unwrap();
    assert!(set.data.is_none());
}

#[test]
fn nested_groups_are_skipped() {
    // field 1 group containing a field 2 group, each properly closed.
    let mut set = UnknownFieldSet::default();
    feed(&mut set, vec![0x0b, 0x13, 0x08, 0x01, 0x14, 0x0c]).unwrap();
    assert!(set.data.is_none());
}

#[test]
fn stray_end_group_is_an_error() {
    let mut set = UnknownFieldSet::default();
    assert!(feed(&mut set, vec![0x0c]).is_err());
    assert!(set.data.is_none());
}

#[test]
fn mismatched_group_end_tag_is_an_error() {
    // field 1 start group closed by field 2 end group.
    let mut set = UnknownFieldSet::default();
    assert!(feed(&mut set, vec![0x0b, 0x14]).is_err());
}

#[test]
fn truncated_fixed32_is_an_error() {
    let mut set = UnknownFieldSet::default();
    assert!(feed(&mut set, vec![0x15, 1, 2]).is_err());
}

#[test]
fn unterminated_varint_is_an_error() {
    let mut set = UnknownFieldSet::default();
    assert!(feed(&mut set, vec![0x08, 0x80]).is_err());
}

#[test]
fn short_length_delimited_is_an_error() {
    let mut set = UnknownFieldSet::default();
    assert!(feed(&mut set, vec![0x1a, 5, 1, 2]).is_err());
}

#[test]
fn length_delimited_payload_is_kept_verbatim() {
    let mut set = UnknownFieldSet::default();
    feed(&mut set, vec![0x1a, 4, 0xde, 0xad, 0xbe, 0xef]).unwrap();
    assert_eq!(
        stored(&set, 3),
        UnknownFieldData::LengthDelimited(vec![0xde, 0xad, 0xbe, 0xef])
    );
    assert_eq!(set.encoded_len(), 6);
}

#[test]
fn field_encoded_len_matches_encode() {
    let fields = [
        UnknownField {
            tag: 1,
            data: UnknownFieldData::Varint(u64::MAX),
        },
        UnknownField {
            tag: 300,
            data: UnknownFieldData::ThirtyTwoBit(7),
        },
        UnknownField {
            tag: 2,
            data: UnknownFieldData::SixtyFourBit(u64::MAX),
        },
        UnknownField {
            tag: 536870911,
            data: UnknownFieldData::LengthDelimited(vec![1, 2, 3]),
        },
    ];
    for field in fields {
        let mut out: Vec<u8> = Vec::new();
        field.encode(&mut out);
        assert_eq!(out.len(), field.encoded_len());
    }
}

#[test]
fn embedded_message_decodes_into_a_set() {
    let field = UnknownField {
        tag: 9,
        data: UnknownFieldData::LengthDelimited(vec![0x08, 0x05]),
    };
    let inner = <UnknownFieldSet as Message>::decode_from_unknown(&field).unwrap();
    assert_eq!(stored(&inner, 1), UnknownFieldData::Varint(5));
}

#[test]
fn decode_key_splits_tag_and_wire_type() {
    let mut rb = ReadBuf::new(vec![0x11]);
    assert_eq!(decode_key(&mut rb).unwrap(), (2, WireType::SixtyFourBit));
    let mut rb = ReadBuf::new(vec![0xf8, 0xff, 0xff, 0xff, 0x0f]);
    assert_eq!(decode_key(&mut rb).unwrap(), (536870911, WireType::Varint));
    let mut rb = ReadBuf::new(vec![0x0e]);
    assert!(decode_key(&mut rb).is_err()); // wire type code 6 is unassigned
}
