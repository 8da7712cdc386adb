//! Tests for the value tree: round trips, configuration policies, errors.

use serde_brief::Config;
use serde_brief::Deserializer;
use serde_brief::error::Error;
use serde_brief::error::Expected;
use serde_brief::format::Type;
use serde_brief::from_slice;
use serde_brief::from_slice_with_config;
use serde_brief::to_bounded_vec;
use serde_brief::to_vec;
use serde_brief::to_vec_with_config;
use serde_brief::value::ByteBuf;
use serde_brief::value::Float;
use serde_brief::value::Integer;
use serde_brief::value::StrBuf;
use serde_brief::value::Value;

fn sample_value() -> Value<'static> {
    Value::Mapping(vec![
        (
            Value::String(StrBuf::Owned("name".to_string())),
            Value::String(StrBuf::Owned("Holla".to_string())),
        ),
        (
            Value::String(StrBuf::Owned("age".to_string())),
            Value::Integer(Integer::Unsigned(21)),
        ),
        (
            Value::String(StrBuf::Owned("tags".to_string())),
            Value::Array(vec![
                Value::Null,
                Value::Bool(true),
                Value::Bool(false),
                Value::Integer(Integer::Signed(-65)),
                Value::Float(Float::F32(1078530011)),
                Value::Float(Float::F64(0x400921FB54442D18)),
                Value::Bytes(ByteBuf::Owned(vec![1, 2, 3])),
            ]),
        ),
    ])
}

/// Round trip: decoding an encoding gives the value back, and encoding the
/// decoded value reproduces the bytes exactly.
#[test]
fn value_round_trip() {
    let value = sample_value();
    let bytes = to_vec(&value).unwrap();
    let parsed = from_slice(&bytes).unwrap();
    let reencoded = to_vec(&parsed).unwrap();
    assert_eq!(bytes, reencoded);
    // Value equality is structural and ignores borrowed-versus-owned leaves.
    assert_eq!(parsed, value);

    // The shape survives too.
    let entries = match &parsed {
        Value::Mapping(entries) => entries,
        _ => panic!("expected a map"),
    };
    assert_eq!(entries.len(), 3);
    assert_eq!(entries[0].0.as_string(), Some("name"));
    assert_eq!(entries[0].1.as_string(), Some("Holla"));
    assert_eq!(entries[1].1.as_int(), Some(Integer::Unsigned(21)));
    let tags = entries[2].1.as_array().unwrap();
    assert!(tags[0].is_empty());
    assert_eq!(tags[1].as_bool(), Some(true));
    assert_eq!(tags[3].as_int(), Some(Integer::Signed(-65)));
    assert_eq!(tags[4].as_float(), Some(Float::F32(1078530011)));
    assert_eq!(tags[5].as_float(), Some(Float::F64(0x400921FB54442D18)));
    assert_eq!(tags[6].as_bytes(), Some([1u8, 2, 3].as_slice()));
}

/// The naming mode does not change how a value tree is encoded: its maps
/// already carry their keys as values.
#[test]
fn value_round_trip_both_modes() {
    let value = sample_value();
    let named = to_vec_with_config(&value, Config::default()).unwrap();
    let indexed = to_vec_with_config(
        &value,
        Config { use_indices: true, ..Config::default() },
    )
    .unwrap();
    assert_eq!(named, indexed);
    let parsed = from_slice_with_config(
        &indexed,
        Config { use_indices: true, ..Config::default() },
    )
    .unwrap();
    assert_eq!(to_vec(&parsed).unwrap(), named);
}

/// The documented example encoding: a two-field map with string keys.
#[test]
fn known_bytes() {
    let value = Value::Mapping(vec![
        (
            Value::String(StrBuf::Owned("name".to_string())),
            Value::String(StrBuf::Owned("Holla".to_string())),
        ),
        (
            Value::String(StrBuf::Owned("age".to_string())),
            Value::Integer(Integer::Unsigned(21)),
        ),
    ]);
    let bytes = to_vec(&value).unwrap();
    assert_eq!(
        bytes,
        vec![
            17, 11, 4, b'n', b'a', b'm', b'e', 11, 5, b'H', b'o', b'l', b'l', b'a', 11, 3, b'a',
            b'g', b'e', 3, 21, 18
        ]
    );
}

#[test]
fn test_excess_data() {
    let config = Config { error_on_excess_data: true, ..Config::default() };
    let data = [Type::String.to_byte(), 1, b'a', 0];
    let result = from_slice_with_config(&data, config);
    assert!(matches!(result, Err(Error::ExcessData)));
}

/// With the excess-data check off, trailing bytes are ignored.
#[test]
fn excess_data_ignored() {
    let config = Config { error_on_excess_data: false, ..Config::default() };
    let data = [Type::String.to_byte(), 1, b'a', 0];
    let parsed = from_slice_with_config(&data, config).unwrap();
    assert_eq!(parsed.as_string(), Some("a"));
}

#[test]
fn test_max_size() {
    let config = Config { max_size: Some(5), ..Config::default() };
    let data = [Type::Bytes.to_byte(), 4, 1, 2, 3, 4];
    let result = from_slice_with_config(&data, config);
    assert!(matches!(result, Err(Error::LimitReached)));

    let config = Config { max_size: Some(5), ..Config::default() };
    let data = [Type::Bytes.to_byte(), 3, 1, 2, 3];
    let result = from_slice_with_config(&data, config);
    assert!(result.is_ok());

    let config = Config { max_size: Some(5), ..Config::default() };
    let data = Value::Bytes(ByteBuf::Owned(vec![1, 2, 3, 4]));
    let result = to_vec_with_config(&data, config);
    assert!(matches!(result, Err(Error::LimitReached)));

    let config = Config { max_size: Some(5), ..Config::default() };
    let data = Value::Bytes(ByteBuf::Owned(vec![1, 2, 3]));
    let result = to_vec_with_config(&data, config);
    assert!(result.is_ok());
}

#[test]
fn test_borrowing() {
    let data = [Type::String.to_byte(), 3, b's', b'h', b'y'];
    let parsed = from_slice(&data).unwrap();
    assert_eq!(parsed.as_string(), Some("shy"));
    assert!(matches!(parsed, Value::String(StrBuf::Borrowed(_))));

    let data = [Type::Bytes.to_byte(), 3, 1, 1, 1];
    let parsed = from_slice(&data).unwrap();
    assert_eq!(parsed.as_bytes(), Some([1u8, 1, 1].as_slice()));
    assert!(matches!(parsed, Value::Bytes(ByteBuf::Borrowed(_))));
}

#[test]
fn test_unexpected_eof() {
    let data = [Type::String.to_byte(), 2, b'a'];
    let result = from_slice(&data);
    assert!(matches!(result, Err(Error::UnexpectedEnd)));
}

/// A boolean tag where null is expected: the error names the tag found and
/// the set that was accepted.
#[test]
fn wrong_type_cites_found_and_expected() {
    let data = [Type::BooleanFalse.to_byte()];
    let mut de = Deserializer::new(data.as_slice());
    match de.read_unit() {
        Err(Error::WrongType(found, expected)) => {
            assert_eq!(found, Type::BooleanFalse);
            assert_eq!(expected.types(), vec![Type::Null]);
        }
        other => panic!("expected a wrong-type error, got {other:?}"),
    }

    // And null where a value of a concrete kind is expected is accepted as
    // "absent" instead of an error.
    let data = [Type::Null.to_byte()];
    let mut de = Deserializer::new(data.as_slice());
    assert!(de.read_unit().is_ok());
}

#[test]
fn invalid_tags_are_errors() {
    assert!(matches!(from_slice(&[9]), Err(Error::InvalidType(9))));
    assert!(matches!(from_slice(&[12]), Err(Error::InvalidType(12))));
    assert!(matches!(
        from_slice(&[Type::SeqEnd.to_byte()]),
        Err(Error::WrongType(Type::SeqEnd, Expected::AnyValue))
    ));
    assert!(matches!(from_slice(&[11, 1, 0xFF]), Err(Error::StringNotUtf8)));
    let wide = [3u8, 0x80, 0x80, 0x80, 0x80, 0x80, 0x80, 0x80, 0x80, 0x80, 0x80, 0x80, 0x80,
        0x80, 0x80, 0x80, 0x80, 0x80, 0x80, 0x80, 0x01];
    assert!(matches!(from_slice(&wide), Err(Error::VarIntTooLarge)));
}

/// A redundant zero high byte still decodes to the same integer.
#[test]
fn redundant_varint_bytes_accepted() {
    let data = [Type::UnsignedInt.to_byte(), 0x80, 0x80, 0x00];
    let parsed = from_slice(&data).unwrap();
    assert_eq!(parsed.as_int(), Some(Integer::Unsigned(0)));
}

/// Map entries come back in stream order, whatever that order is; matching
/// reordered fields to a structure is the adapter layer's job.
#[test]
fn map_entries_keep_stream_order() {
    let ab = Value::Mapping(vec![
        (
            Value::String(StrBuf::Owned("a".to_string())),
            Value::Integer(Integer::Unsigned(1)),
        ),
        (
            Value::String(StrBuf::Owned("b".to_string())),
            Value::Integer(Integer::Unsigned(2)),
        ),
    ]);
    let ba = Value::Mapping(vec![
        (
            Value::String(StrBuf::Owned("b".to_string())),
            Value::Integer(Integer::Unsigned(2)),
        ),
        (
            Value::String(StrBuf::Owned("a".to_string())),
            Value::Integer(Integer::Unsigned(1)),
        ),
    ]);
    let ab_bytes = to_vec(&ab).unwrap();
    let parsed = from_slice(&ab_bytes).unwrap();
    let entries = parsed.as_map().unwrap();
    assert_eq!(entries[0].0.as_string(), Some("a"));
    assert_eq!(entries[1].0.as_string(), Some("b"));
    let ba_bytes = to_vec(&ba).unwrap();
    let parsed = from_slice(&ba_bytes).unwrap();
    let entries = parsed.as_map().unwrap();
    assert_eq!(entries[0].0.as_string(), Some("b"));
    assert_eq!(entries[1].0.as_string(), Some("a"));
}

#[test]
fn bounded_encode_behaves() {
    let value = Value::String(StrBuf::Owned("hallo".to_string()));
    let result = to_bounded_vec(&value, 5);
    assert!(matches!(result, Err(Error::BufferTooSmall)));
    let bytes = to_bounded_vec(&value, 7).unwrap();
    assert_eq!(bytes, vec![11, 5, b'h', b'a', b'l', b'l', b'o']);
}

#[test]
fn empty_composites() {
    let bytes = to_vec(&Value::Array(vec![])).unwrap();
    assert_eq!(bytes, vec![15, 16]);
    let parsed = from_slice(&bytes).unwrap();
    assert_eq!(parsed.as_array().unwrap().len(), 0);
    assert!(parsed.is_empty());

    let bytes = to_vec(&Value::Mapping(vec![])).unwrap();
    assert_eq!(bytes, vec![17, 18]);
    let parsed = from_slice(&bytes).unwrap();
    assert!(parsed.is_empty());

    assert!(Value::Null.is_empty());
    assert!(!Value::Bool(false).is_empty());
}

#[test]
fn config_default_values() {
    let config = Config::default();
    assert!(!config.use_indices);
    assert!(config.error_on_excess_data);
    assert!(config.max_size.is_none());
}
