//! Tests for the type-tag table and the VarInt codec.

use serde_brief::error::Error;
use serde_brief::format::Type;
use serde_brief::io::BoundedOutput;
use serde_brief::varint::decode_varint_i16;
use serde_brief::varint::decode_varint_i32;
use serde_brief::varint::decode_varint_u16;
use serde_brief::varint::encode_varint;
use serde_brief::varint::encode_varint_signed;

#[test]
fn type_conversion_works() {
    let valid_types = [0, 1, 2, 3, 4, 5, 6, 7, 8, 10, 11, 15, 16, 17, 18];
    for byte in 0..=u8::MAX {
        match Type::try_from_byte(byte) {
            Ok(t) => {
                assert!(
                    valid_types.contains(&byte),
                    "Type {t:?} should should have been recognized from {byte} here"
                );
                assert_eq!(t.to_byte(), byte);
            }
            Err(_) => assert!(
                !valid_types.contains(&byte),
                "Type should have been recognized from {byte}"
            ),
        }
    }
}

#[test]
fn unsigned_varint_encode_works() {
    let mut output = BoundedOutput::new(1);
    encode_varint(&mut output, 0).unwrap();
    assert_eq!(output.as_slice(), &[0]);
    let mut output = BoundedOutput::new(1);
    encode_varint(&mut output, 0x7F).unwrap();
    assert_eq!(output.as_slice(), &[0x7F]);
    let mut output = BoundedOutput::new(1);
    let result = encode_varint(&mut output, 0xFF);
    assert!(matches!(result, Err(Error::BufferTooSmall)));

    let mut bytes: Vec<u8> = Vec::new();
    encode_varint(&mut bytes, 0xFF).unwrap();
    assert_eq!(&bytes[0..2], &[0xFF, 0x01]);
    let mut bytes: Vec<u8> = Vec::new();
    encode_varint(&mut bytes, 64).unwrap();
    assert_eq!(&bytes[0..1], &[0x40]);
    let mut bytes: Vec<u8> = Vec::new();
    encode_varint(&mut bytes, 0xFFFF_FFFF).unwrap();
    assert_eq!(&bytes, &[0xFF, 0xFF, 0xFF, 0xFF, 0x0F]);
    let mut bytes: Vec<u8> = Vec::new();
    encode_varint(&mut bytes, 0x0196_0713).unwrap();
    assert_eq!(&bytes[0..4], &[0x93, 0x8E, 0xD8, 0x0C]);
}

#[test]
fn unsigned_varint_decode_works() {
    let bytes = &[0x00, 0x00];
    let mut input = bytes.as_slice();
    let value = decode_varint_u16(&mut input).unwrap();
    assert_eq!(input.len(), 1); // Only one byte read.
    assert_eq!(value, 0);

    let bytes: &[u8] = &[0x80, 0x80, 0x00];
    let value = decode_varint_u16(&mut { bytes }).unwrap();
    assert_eq!(value, 0);

    let bytes: &[u8] = &[0x80, 0x80, 0x80, 0x00];
    let result = decode_varint_u16(&mut { bytes });
    assert!(matches!(result, Err(Error::VarIntTooLarge)));

    let bytes: &[u8] = &[0xFF, 0xFF, 0x03];
    let value = decode_varint_u16(&mut { bytes }).unwrap();
    assert_eq!(value, 0xFFFF);

    let bytes: &[u8] = &[0xFF, 0xFF, 0x07];
    let result = decode_varint_u16(&mut { bytes });
    assert!(matches!(result, Err(Error::VarIntTooLarge)));
}

#[test]
fn signed_varint_encode_works() {
    let mut output = BoundedOutput::new(1);
    encode_varint_signed(&mut output, 0).unwrap();
    assert_eq!(output.as_slice(), &[0]);
    let mut output = BoundedOutput::new(1);
    encode_varint_signed(&mut output, -1).unwrap();
    assert_eq!(output.as_slice(), &[0x01]);
    let mut output = BoundedOutput::new(1);
    encode_varint_signed(&mut output, 1).unwrap();
    assert_eq!(output.as_slice(), &[0x02]);
    let mut output = BoundedOutput::new(1);
    let result = encode_varint_signed(&mut output, 64);
    assert!(matches!(result, Err(Error::BufferTooSmall)));

    let mut bytes: Vec<u8> = Vec::new();
    encode_varint_signed(&mut bytes, 64).unwrap();
    assert_eq!(&bytes[0..2], &[0x80, 0x01]);
    let mut bytes: Vec<u8> = Vec::new();
    encode_varint_signed(&mut bytes, -65).unwrap();
    assert_eq!(&bytes[0..2], &[0x81, 0x01]);

    let mut bytes: Vec<u8> = Vec::new();
    encode_varint_signed(&mut bytes, 0x7FFF).unwrap();
    assert_eq!(&bytes[0..3], &[0xFE, 0xFF, 0x03]);
    let mut bytes: Vec<u8> = Vec::new();
    encode_varint_signed(&mut bytes, -0x8000).unwrap();
    assert_eq!(&bytes[0..3], &[0xFF, 0xFF, 0x03]);
}

#[test]
fn signed_varint_decode_works() {
    let bytes = &[0x00, 0x00];
    let mut input = bytes.as_slice();
    let value = decode_varint_i16(&mut input).unwrap();
    assert_eq!(input.len(), 1); // Only one byte read.
    assert_eq!(value, 0);

    let bytes: &[u8] = &[0x80, 0x80, 0x00];
    let value = decode_varint_i16(&mut { bytes }).unwrap();
    assert_eq!(value, 0);

    let bytes: &[u8] = &[0x80, 0x80, 0x80, 0x00];
    let result = decode_varint_i16(&mut { bytes });
    assert!(matches!(result, Err(Error::VarIntTooLarge)));

    let bytes: &[u8] = &[0x80, 0x01];
    let value = decode_varint_i16(&mut { bytes }).unwrap();
    assert_eq!(value, 64);

    let bytes: &[u8] = &[0x81, 0x01];
    let value = decode_varint_i16(&mut { bytes }).unwrap();
    assert_eq!(value, -65);

    let bytes: &[u8] = &[0xFE, 0xFF, 0x03];
    let value = decode_varint_i16(&mut { bytes }).unwrap();
    assert_eq!(value, 0x7FFF);

    let bytes: &[u8] = &[0xFF, 0xFF, 0x03];
    let value = decode_varint_i16(&mut { bytes }).unwrap();
    assert_eq!(value, -0x8000);

    let bytes: &[u8] = &[0xFF, 0xFF, 0x07];
    let result = decode_varint_i16(&mut { bytes });
    assert!(matches!(result, Err(Error::VarIntTooLarge)));

    let bytes: &[u8] = &[0xFE, 0xFF, 0xFF, 0xFF, 0x0F];
    let value = decode_varint_i32(&mut { bytes }).unwrap();
    assert_eq!(value, i32::MAX);
}
