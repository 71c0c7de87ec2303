use core::marker::PhantomData;

use unknown_fields::{
    DecodeError, ExtFieldOptional, Field, Message, ReadBuf, UnknownField, UnknownFieldData,
    UnknownFieldSet, WireType,
};

fn encode_one<T: Message>(value: &T) -> Vec<u8> {
    let mut buf: Vec<u8> = Vec::new();
    value.encode_raw(&mut buf);
    buf
}

fn merge_back<T: Message>(mut target: T, bytes: Vec<u8>) -> Result<T, DecodeError> {
    let mut rb = ReadBuf::new(bytes);
    let (tag, wire_type) = unknown_fields::encoding::decode_key(&mut rb)?;
    target.merge_field(tag, wire_type, &mut rb)?;
    assert_eq!(rb.remaining(), 0);
    Ok(target)
}

#[test]
fn defaults_encode_to_nothing() {
    assert!(encode_one(&false).is_empty());
    assert!(encode_one(&0u32).is_empty());
    assert!(encode_one(&0u64).is_empty());
    assert!(encode_one(&0i32).is_empty());
    assert!(encode_one(&0i64).is_empty());
    assert!(encode_one(&String::new()).is_empty());
    assert!(encode_one(&Vec::<u8>::new()).is_empty());
    assert!(encode_one(&bytes::Bytes::new()).is_empty());
    assert!(encode_one(&()).is_empty());
    assert_eq!(false.encoded_len(), 0);
    assert_eq!(0u64.encoded_len(), 0);
    assert_eq!(String::new().encoded_len(), 0);
}

#[test]
fn bool_wrapper_roundtrip() {
    let encoded = encode_one(&true);
    assert_eq!(encoded, vec![0x08, 0x01]);
    assert_eq!(true.encoded_len(), 2);
    assert_eq!(merge_back(false, encoded).unwrap(), true);
}

#[test]
fn u32_wrapper_roundtrip() {
    let encoded = encode_one(&300u32);
    assert_eq!(encoded, vec![0x08, 0xac, 0x02]);
    assert_eq!(300u32.encoded_len(), encoded.len());
    assert_eq!(merge_back(0u32, encoded).unwrap(), 300);
}

#[test]
fn u64_wrapper_roundtrip() {
    let encoded = encode_one(&u64::MAX);
    assert_eq!(u64::MAX.encoded_len(), encoded.len());
    assert_eq!(merge_back(0u64, encoded).unwrap(), u64::MAX);
}

#[test]
fn i32_wrapper_roundtrip_negative() {
    let encoded = encode_one(&-3i32);
    // Negative int32 values travel sign-extended to 64 bits: ten bytes.
    assert_eq!(
        encoded,
        vec![0x08, 0xfd, 0xff, 0xff, 0xff, 0xff, 0xff, 0xff, 0xff, 0xff, 0x01]
    );
    assert_eq!((-3i32).encoded_len(), encoded.len());
    assert_eq!(merge_back(0i32, encoded).unwrap(), -3);
}

#[test]
fn i64_wrapper_roundtrip_negative() {
    let encoded = encode_one(&-13i64);
    assert_eq!((-13i64).encoded_len(), encoded.len());
    assert_eq!(merge_back(0i64, encoded).unwrap(), -13);
}

#[test]
fn string_wrapper_roundtrip() {
    let value = String::from("Hello world!");
    let encoded = encode_one(&value);
    let mut expected = vec![0x0a, 12];
    expected.extend(b"Hello world!");
    assert_eq!(encoded, expected);
    assert_eq!(value.encoded_len(), encoded.len());
    assert_eq!(merge_back(String::new(), encoded).unwrap(), value);
}

#[test]
fn string_wrapper_encodes_utf8() {
    let value = String::from("héllo");
    let encoded = encode_one(&value);
    let mut expected = vec![0x0a, 6];
    expected.extend("héllo".as_bytes());
    assert_eq!(encoded, expected);
    assert_eq!(merge_back(String::new(), encoded).unwrap(), value);
}

#[test]
fn byte_wrappers_roundtrip() {
    let value: Vec<u8> = vec![1, 2, 3];
    let encoded = encode_one(&value);
    assert_eq!(encoded, vec![0x0a, 3, 1, 2, 3]);
    assert_eq!(value.encoded_len(), encoded.len());
    assert_eq!(merge_back(Vec::<u8>::new(), encoded.clone()).unwrap(), value);

    let shared = bytes::Bytes::from(vec![1u8, 2, 3]);
    let encoded_shared = encode_one(&shared);
    assert_eq!(encoded_shared, encoded);
    assert_eq!(shared.encoded_len(), encoded_shared.len());
    let merged = merge_back(bytes::Bytes::new(), encoded_shared).unwrap();
    assert_eq!(merged, bytes::Bytes::from(vec![1u8, 2, 3]));
}

#[test]
fn wrappers_skip_unrecognized_tags() {
    // Field 2 is not the wrapper's single field: merged and discarded.
    let mut value = 7u32;
    let mut rb = ReadBuf::new(vec![0x05]);
    value.merge_field(2, WireType::Varint, &mut rb).unwrap();
    assert_eq!(value, 7);
    assert_eq!(rb.remaining(), 0);
}

#[test]
fn wrapper_rejects_wrong_wire_type() {
    let mut value = 0u32;
    let mut rb = ReadBuf::new(vec![0x03, 1, 2, 3]);
    assert!(value
        .merge_field(1, WireType::LengthDelimited, &mut rb)
        .is_err());
    let mut text = String::new();
    let mut rb = ReadBuf::new(vec![0x05]);
    assert!(text.merge_field(1, WireType::Varint, &mut rb).is_err());
}

#[test]
fn clear_resets_to_default() {
    let mut value = 42u64;
    value.clear();
    assert_eq!(value, 0);
    let mut text = String::from("abc");
    Message::clear(&mut text);
    assert!(text.is_empty());
    let mut set = UnknownFieldSet::default();
    set.insert(
        1,
        UnknownField {
            tag: 1,
            data: UnknownFieldData::Varint(1),
        },
    );
    Message::clear(&mut set);
    assert!(set.data.is_none());
}

fn varint_field(tag: u32, value: u64) -> UnknownField {
    UnknownField {
        tag,
        data: UnknownFieldData::Varint(value),
    }
}

#[test]
fn decode_from_unknown_accepts_matching_shapes() {
    assert_eq!(
        <bool as Message>::decode_from_unknown(&varint_field(1, 0)).unwrap(),
        false
    );
    assert_eq!(
        <bool as Message>::decode_from_unknown(&varint_field(1, 9)).unwrap(),
        true
    );
    assert_eq!(
        <u32 as Message>::decode_from_unknown(&UnknownField {
            tag: 1,
            data: UnknownFieldData::ThirtyTwoBit(6),
        })
        .unwrap(),
        6
    );
    assert_eq!(
        <u64 as Message>::decode_from_unknown(&varint_field(1, 15)).unwrap(),
        15
    );
    // Truncation, not zig-zag: the sign-extended bits come back as -3.
    assert_eq!(
        <i32 as Message>::decode_from_unknown(&varint_field(1, -3i64 as u64)).unwrap(),
        -3
    );
    assert_eq!(
        <i32 as Message>::decode_from_unknown(&UnknownField {
            tag: 1,
            data: UnknownFieldData::ThirtyTwoBit(0xffff_fffd),
        })
        .unwrap(),
        -3
    );
    assert_eq!(
        <i64 as Message>::decode_from_unknown(&UnknownField {
            tag: 1,
            data: UnknownFieldData::SixtyFourBit(-17i64 as u64),
        })
        .unwrap(),
        -17
    );
    assert_eq!(
        <String as Message>::decode_from_unknown(&UnknownField {
            tag: 1,
            data: UnknownFieldData::LengthDelimited(b"Hello world!".to_vec()),
        })
        .unwrap(),
        "Hello world!"
    );
    assert_eq!(
        <Vec<u8> as Message>::decode_from_unknown(&UnknownField {
            tag: 1,
            data: UnknownFieldData::LengthDelimited(vec![1, 2, 3]),
        })
        .unwrap(),
        vec![1, 2, 3]
    );
    assert_eq!(
        <bytes::Bytes as Message>::decode_from_unknown(&UnknownField {
            tag: 1,
            data: UnknownFieldData::LengthDelimited(vec![1, 2, 3]),
        })
        .unwrap(),
        bytes::Bytes::from(vec![1u8, 2, 3])
    );
    assert!(<() as Message>::decode_from_unknown(&varint_field(1, 5)).is_ok());
}

#[test]
fn decode_from_unknown_rejects_mismatched_shapes() {
    let delimited = UnknownField {
        tag: 1,
        data: UnknownFieldData::LengthDelimited(vec![1, 2, 3]),
    };
    assert!(<bool as Message>::decode_from_unknown(&delimited).is_err());
    assert!(<u32 as Message>::decode_from_unknown(&delimited).is_err());
    assert!(<u64 as Message>::decode_from_unknown(&delimited).is_err());
    assert!(<i32 as Message>::decode_from_unknown(&delimited).is_err());
    assert!(<i64 as Message>::decode_from_unknown(&delimited).is_err());
    let fixed = UnknownField {
        tag: 1,
        data: UnknownFieldData::SixtyFourBit(1),
    };
    assert!(<String as Message>::decode_from_unknown(&fixed).is_err());
    assert!(<Vec<u8> as Message>::decode_from_unknown(&fixed).is_err());
    assert!(<bytes::Bytes as Message>::decode_from_unknown(&fixed).is_err());
    assert!(<u64 as Message>::decode_from_unknown(&UnknownField {
        tag: 1,
        data: UnknownFieldData::ThirtyTwoBit(1),
    })
    .is_err());
}

#[test]
fn string_decode_rejects_invalid_utf8() {
    let field = UnknownField {
        tag: 1,
        data: UnknownFieldData::LengthDelimited(vec![0xff, 0xfe]),
    };
    assert!(<String as Message>::decode_from_unknown(&field).is_err());
}

#[test]
fn extension_absent_field_is_none() {
    let mut owner = UnknownFieldSet::default();
    owner.insert(10, varint_field(10, 5));
    let ext: ExtFieldOptional<UnknownFieldSet, u32> = ExtFieldOptional {
        field_number: 99,
        phantom: PhantomData,
    };
    assert!(ext.get(&owner).is_none());

    let empty = UnknownFieldSet::default();
    assert!(ext.get(&empty).is_none());
}

#[test]
fn extension_shape_mismatch_is_an_error_not_absence() {
    let mut owner = UnknownFieldSet::default();
    owner.insert(
        10,
        UnknownField {
            tag: 10,
            data: UnknownFieldData::LengthDelimited(vec![1, 2, 3]),
        },
    );
    let ext: ExtFieldOptional<UnknownFieldSet, u32> = ExtFieldOptional {
        field_number: 10,
        phantom: PhantomData,
    };
    let outcome = ext.get(&owner).expect("field is present");
    assert!(outcome.is_err());
}

#[test]
fn extension_present_field_decodes() {
    let mut owner = UnknownFieldSet::default();
    owner.insert(10, varint_field(10, 5));
    owner.insert(
        13,
        UnknownField {
            tag: 13,
            data: UnknownFieldData::LengthDelimited(b"Hello world!".to_vec()),
        },
    );
    let number: ExtFieldOptional<UnknownFieldSet, u64> = ExtFieldOptional {
        field_number: 10,
        phantom: PhantomData,
    };
    assert_eq!(number.get(&owner).unwrap().unwrap(), 5);
    let text: ExtFieldOptional<UnknownFieldSet, String> = ExtFieldOptional {
        field_number: 13,
        phantom: PhantomData,
    };
    assert_eq!(text.get(&owner).unwrap().unwrap(), "Hello world!");
}

#[test]
fn marker_recognition_validates_attribute_count() {
    assert!(Field::new(&Vec::new()).is_err());
    assert!(Field::new(&vec![
        String::from("unknown_field_set"),
        String::from("extra")
    ])
    .is_err());
    assert_eq!(
        Field::new(&vec![String::from("unknown_field_set")]).unwrap(),
        Some(Field)
    );
    assert_eq!(Field::new(&vec![String::from("serde")]).unwrap(), None);
}
