use std::borrow::Cow;

use rustybit::bencode::de::{checked_from_bytes, from_bytes, from_str};
use rustybit::bencode::ser::{to_bytes, to_string, to_writer};
use rustybit::bencode::{BencodeValue, Bytes, ErrorKind};

fn text(s: &'static str) -> BencodeValue<'static> {
    BencodeValue::Bytes(Bytes(Cow::Borrowed(s.as_bytes())))
}

fn key(s: &'static str) -> Bytes<'static> {
    Bytes(Cow::Borrowed(s.as_bytes()))
}

#[test]
fn can_roundtrip_int() {
    let value: BencodeValue = 888i64.into();
    let serialized = to_string(&value).expect("failed to serialize an integer");
    assert_eq!(serialized, "i888e");
    let deserialized = from_str(&serialized).expect("failed to deserialize an integer");
    assert_eq!(deserialized, value)
}

#[test]
fn can_roundtrip_negative_int() {
    let value: BencodeValue = (-888i64).into();
    let serialized = to_string(&value).expect("failed to serialize a neg integer");
    assert_eq!(serialized, "i-888e");
    let deserialized = from_str(&serialized).expect("failed to deserialize a neg integer");
    assert_eq!(deserialized, value)
}

#[test]
fn can_roundtrip_bytes() {
    let value: BencodeValue = text("a nice value");
    let serialized = to_string(&value).expect("failed to serialize a string");
    assert_eq!(serialized, "12:a nice value");
    let deserialized = from_str(&serialized).expect("failed to deserialize a string");
    assert_eq!(deserialized, value)
}

#[test]
fn can_roundtrip_list_of_bytes() {
    let list: Vec<BencodeValue> = vec![text("a nice value"), text("another")];
    let value: BencodeValue = list.into();
    let serialized = to_string(&value).expect("failed to serialize a list of bytes");
    assert_eq!(serialized, "l12:a nice value7:anothere");
    let deserialized = from_str(&serialized).expect("failed to deserialize a list of bytes");
    assert_eq!(deserialized, value)
}

#[test]
fn can_roundtrip_list_of_ints() {
    let list: Vec<BencodeValue> = vec![10i64.into(), 11i64.into()];
    let value: BencodeValue = list.into();
    let serialized = to_string(&value).expect("failed to serialize a list of ints");
    assert_eq!(serialized, "li10ei11ee");
    let deserialized = from_str(&serialized).expect("failed to deserialize a list of ints");
    assert_eq!(deserialized, value)
}

#[test]
fn can_roundtrip_list_of_lists() {
    let list: Vec<BencodeValue> = vec![
        BencodeValue::List(vec![text("bytes")]),
        BencodeValue::List(vec![20i64.into()]),
    ];
    let value: BencodeValue = list.into();
    let serialized = to_string(&value).expect("failed to serialize a list of lists");
    assert_eq!(serialized, "ll5:byteseli20eee");
    let deserialized = from_str(&serialized).expect("failed to deserialize a list of lists");
    assert_eq!(deserialized, value)
}

#[test]
fn can_roundtrip_list_of_dicts() {
    let dict_1 = BencodeValue::Dict(vec![(key("test"), BencodeValue::List(vec![21i64.into()]))]);
    let dict_2 = BencodeValue::Dict(vec![(key("another"), BencodeValue::Dict(Vec::new()))]);

    let list: Vec<BencodeValue> = vec![dict_1, dict_2];
    let value: BencodeValue = list.into();
    let serialized = to_string(&value).expect("failed to serialize a list of dicts");
    assert_eq!(serialized, "ld4:testli21eeed7:anotherdeee");
    let deserialized = from_str(&serialized).expect("failed to deserialize a list of dicts");
    assert_eq!(deserialized, value)
}

#[test]
fn can_roundtrip_dict_of_ints() {
    let value = BencodeValue::Dict(vec![(key("key1"), 4i64.into())]);
    let serialized = to_string(&value).expect("failed to serialize a dict of ints");
    assert_eq!(serialized, "d4:key1i4ee");
    let deserialized = from_str(&serialized).expect("failed to deserialize a dict of ints");
    assert_eq!(deserialized, value)
}

#[test]
fn can_roundtrip_dict_of_bytes() {
    let value = BencodeValue::Dict(vec![(key("key1"), text("my value"))]);
    let serialized = to_string(&value).expect("failed to serialize a dict of bytes");
    assert_eq!(serialized, "d4:key18:my valuee");
    let deserialized = from_str(&serialized).expect("failed to deserialize a dict of bytes");
    assert_eq!(deserialized, value)
}

#[test]
fn can_roundtrip_dict_of_lists() {
    let value = BencodeValue::Dict(vec![(key("key1"), vec![BencodeValue::Dict(Vec::new())].into())]);
    let serialized = to_string(&value).expect("failed to serialize a dict of lists");
    assert_eq!(serialized, "d4:key1ldeee");
    let deserialized = from_str(&serialized).expect("failed to deserialize a dict of lists");
    assert_eq!(deserialized, value)
}

#[test]
fn can_roundtrip_dict_of_dicts() {
    let value = BencodeValue::Dict(vec![(
        key("key1"),
        BencodeValue::Dict(vec![(key("inner"), BencodeValue::Dict(Vec::new()))]),
    )]);
    let serialized = to_string(&value).expect("failed to serialize a dict of dicts");
    assert_eq!(serialized, "d4:key1d5:innerdeee");
    let deserialized = from_str(&serialized).expect("failed to deserialize a dict of dicts");
    assert_eq!(deserialized, value)
}

#[test]
fn dict_entries_are_written_in_their_order() {
    let value = BencodeValue::Dict(vec![(key("b"), 2i64.into()), (key("a"), 1i64.into())]);
    assert_eq!(to_string(&value).unwrap(), "d1:bi2e1:ai1ee");
}

#[test]
fn decoding_what_was_encoded_gives_the_value_back() {
    let value: BencodeValue = vec![
        BencodeValue::Dict(vec![(key("a"), (-3i64).into()), (key("z"), text(""))]),
        0i64.into(),
        text("xyz"),
    ]
    .into();
    let bytes = to_bytes(&value);
    assert_eq!(from_bytes(&bytes).unwrap(), value);
}

#[test]
fn to_writer_appends() {
    let mut out = b"prefix".to_vec();
    let value: BencodeValue = 5i64.into();
    to_writer(&value, &mut out).unwrap();
    assert_eq!(out, b"prefixi5e".to_vec());
}

#[test]
fn extreme_integers_round_trip() {
    for i in [i64::MIN, i64::MAX, 0, -1] {
        let value: BencodeValue = i.into();
        let bytes = to_bytes(&value);
        assert_eq!(from_bytes(&bytes).unwrap(), value);
    }
    assert_eq!(to_bytes(&i64::MIN.into()), b"i-9223372036854775808e".to_vec());
}

#[test]
fn truncated_input_is_rejected() {
    assert!(from_bytes(b"l4:spam").is_err());
    assert!(checked_from_bytes(b"5:abc").is_none());
}

#[test]
fn bad_input_is_rejected() {
    assert!(from_bytes(b"x").is_err());
    assert!(from_bytes(b"ie").is_err());
    assert!(from_bytes(b"i12").is_err());
    assert!(from_bytes(b"").is_err());
}

#[test]
fn non_utf8_encoding_cannot_be_a_string() {
    let value = BencodeValue::Bytes(Bytes(Cow::Owned(vec![0xff, 0xfe])));
    let err = to_string(&value).unwrap_err();
    assert!(matches!(err.kind, ErrorKind::Custom(_)));
    assert_eq!(to_bytes(&value), vec![b'2', b':', 0xff, 0xfe]);
}

#[test]
fn error_messages() {
    let e = rustybit::bencode::Error { kind: ErrorKind::BadInputData("x"), position: Some(3) };
    assert_eq!(e.message(), "Error at position 3: Input data is broken: x");
    let e: rustybit::bencode::Error = ErrorKind::UnexpectedEof("e").into();
    assert_eq!(e.message(), "Error: Unexpected EOF encounetered, expected \"e\" instead");
    assert_eq!(ErrorKind::Unsupported("bool").message(), "Bencode doesn't support bool");
    let trailing = from_bytes(b"i1e22").unwrap_err();
    assert_eq!(trailing.message(), "Error: Trailing bytes after deserialization: 2");
}

#[test]
fn a_repeated_key_keeps_its_last_value() {
    let v = from_bytes(b"d1:ai1e1:bi2e1:ai3ee").unwrap();
    assert_eq!(
        v,
        BencodeValue::Dict(vec![(key("a"), BencodeValue::Int(3)), (key("b"), BencodeValue::Int(2))])
    );
    let bytes = to_bytes(&v);
    assert_eq!(bytes, b"d1:ai3e1:bi2ee".to_vec());
    assert_eq!(from_bytes(&bytes).unwrap(), v);
}
