//! Tests for characters, skipping, identifiers and ownership conversions.

use serde_brief::Deserializer;
use serde_brief::Serializer;
use serde_brief::error::Error;
use serde_brief::from_slice;
use serde_brief::to_vec;
use serde_brief::value::ByteBuf;
use serde_brief::value::Integer;
use serde_brief::value::Iter;
use serde_brief::value::OwnedValue;
use serde_brief::value::StrBuf;
use serde_brief::value::Value;
use serde_brief::value::decode::IdentifierRead;

/// A character round-trips through its string-item form, at every encoding
/// width.
#[test]
fn char_round_trip() {
    for c in ['a', '\u{e4}', '\u{20ac}', '\u{1f63b}'] {
        let mut ser = Serializer::new(Vec::new());
        ser.serialize_char(c).unwrap();
        let bytes = ser.into_output();
        assert_eq!(bytes[0], 11);
        assert_eq!(bytes.len(), 2 + c.len_utf8());
        let mut de = Deserializer::new(bytes.as_slice());
        assert_eq!(de.read_char().unwrap(), Some(c));
    }
}

/// A string of any other length than one character is refused as a char.
#[test]
fn char_must_be_single() {
    let data = [11u8, 2, b'a', b'b'];
    let mut de = Deserializer::new(data.as_slice());
    assert!(matches!(de.read_char(), Err(Error::NotOneChar)));

    let data = [11u8, 0];
    let mut de = Deserializer::new(data.as_slice());
    assert!(matches!(de.read_char(), Err(Error::NotOneChar)));

    // A two-byte encoding of a single character is still one character.
    let data = [11u8, 2, 0xC3, 0xA4];
    let mut de = Deserializer::new(data.as_slice());
    assert_eq!(de.read_char().unwrap(), Some('\u{e4}'));

    // Null stands for an absent character.
    let data = [0u8];
    let mut de = Deserializer::new(data.as_slice());
    assert_eq!(de.read_char().unwrap(), None);
}

/// Skipping consumes exactly one value, including nested structure and the
/// float widths that decoding refuses.
#[test]
fn skip_one_value() {
    let value = Value::Mapping(vec![
        (
            Value::String(StrBuf::Owned("k".to_string())),
            Value::Array(vec![Value::Bool(true), Value::Integer(Integer::Unsigned(300))]),
        ),
    ]);
    let mut bytes = to_vec(&value).unwrap();
    bytes.push(2); // trailing BooleanTrue
    let mut de = Deserializer::new(bytes.as_slice());
    de.skip_value().unwrap();
    // Exactly the map was skipped; the trailing boolean is still there.
    assert_eq!(de.peek_type().unwrap(), serde_brief::Type::BooleanTrue);

    // A 16-bit float item cannot be decoded, but can be skipped.
    let data = [5u8, 0, 60, 2];
    let mut de = Deserializer::new(data.as_slice());
    de.skip_value().unwrap();
    assert_eq!(de.peek_type().unwrap(), serde_brief::Type::BooleanTrue);

    // Skipping does not validate string payloads.
    let data = [11u8, 1, 0xFF, 2];
    let mut de = Deserializer::new(data.as_slice());
    de.skip_value().unwrap();
    assert_eq!(de.peek_type().unwrap(), serde_brief::Type::BooleanTrue);

    // A truncated value cannot be skipped.
    let data = [10u8, 4, 1, 2];
    let mut de = Deserializer::new(data.as_slice());
    assert!(matches!(de.skip_value(), Err(Error::UnexpectedEnd)));
}

/// Identifiers are an index or a name, depending on what the stream holds.
#[test]
fn identifier_reads() {
    let data = [3u8, 7];
    let mut de = Deserializer::new(data.as_slice());
    assert!(matches!(de.read_identifier().unwrap(), IdentifierRead::Index(7)));

    let data = [11u8, 2, b'i', b'd'];
    let mut de = Deserializer::new(data.as_slice());
    match de.read_identifier().unwrap() {
        IdentifierRead::Name(n) => assert_eq!(n.as_str(), "id"),
        other => panic!("expected a name, got {other:?}"),
    }

    let data = [1u8];
    let mut de = Deserializer::new(data.as_slice());
    match de.read_identifier() {
        Err(Error::WrongType(found, expected)) => {
            assert_eq!(found, serde_brief::Type::BooleanFalse);
            assert_eq!(
                expected.types(),
                vec![serde_brief::Type::UnsignedInt, serde_brief::Type::String]
            );
        }
        other => panic!("expected a wrong-type error, got {other:?}"),
    }
}

/// A borrow-clone shares the data; into-owned lifts it.
#[test]
fn ownership_conversions() {
    let data = [11u8, 3, b's', b'h', b'y'];
    let parsed = from_slice(&data).unwrap();
    assert!(matches!(parsed, Value::String(StrBuf::Borrowed(_))));

    let owned = parsed.into_owned();
    let inner = owned.into_inner();
    assert!(matches!(inner, Value::String(StrBuf::Owned(_))));
    assert_eq!(inner.as_string(), Some("shy"));

    let clone = inner.borrow_clone();
    assert!(matches!(clone, Value::String(StrBuf::Borrowed(_))));
    assert_eq!(clone.as_string(), Some("shy"));

    let nested = Value::Array(vec![
        Value::Bytes(ByteBuf::Owned(vec![1, 2])),
        Value::String(StrBuf::Owned("x".to_string())),
    ]);
    let clone = nested.borrow_clone();
    let items = clone.as_array().unwrap();
    assert!(matches!(items[0], Value::Bytes(ByteBuf::Borrowed(_))));
    assert!(matches!(items[1], Value::String(StrBuf::Borrowed(_))));

    let lifted = OwnedValue::new(nested.borrow_clone());
    let items_owned = lifted.as_value().as_array().unwrap();
    assert!(matches!(items_owned[0], Value::Bytes(ByteBuf::Owned(_))));
    assert!(matches!(items_owned[1], Value::String(StrBuf::Owned(_))));
}

/// Iterating the values of arrays and maps.
#[test]
fn into_values_iterates() {
    let arr = Value::Array(vec![
        Value::Integer(Integer::Unsigned(1)),
        Value::Integer(Integer::Unsigned(2)),
    ]);
    let mut it = arr.into_values();
    assert_eq!(it.len(), 2);
    assert_eq!(it.next().unwrap().as_int(), Some(Integer::Unsigned(1)));
    assert_eq!(it.next().unwrap().as_int(), Some(Integer::Unsigned(2)));
    assert!(it.next().is_none());

    let map = Value::Mapping(vec![
        (
            Value::String(StrBuf::Owned("a".to_string())),
            Value::Integer(Integer::Unsigned(3)),
        ),
    ]);
    let mut it = map.into_values();
    assert_eq!(it.next().unwrap().as_int(), Some(Integer::Unsigned(3)));
    assert!(it.next().is_none());

    let mut it: Iter<Value<'static>> = Value::Null.into_values();
    assert!(it.next().is_none());
}
