//! Tests for the typed decoder reads and the scratch-buffer machinery.

use serde_brief::Deserializer;
use serde_brief::Type;
use serde_brief::de::FloatRead;
use serde_brief::de::ScalarRead;
use serde_brief::error::Error;

#[test]
fn scalar_reads_accept_the_documented_tags() {
    // Booleans are integer-compatible: a boolean tag satisfies an unsigned
    // integer request.
    let data = [2u8];
    let mut de = Deserializer::new(data.as_slice());
    assert_eq!(de.read_uint(8).unwrap(), ScalarRead::Bool(true));

    // And an integer item satisfies a boolean request, at pointer width.
    let data = [3u8, 5];
    let mut de = Deserializer::new(data.as_slice());
    assert_eq!(de.read_bool().unwrap(), ScalarRead::Unsigned(5));

    let data = [4u8, 0x81, 0x01];
    let mut de = Deserializer::new(data.as_slice());
    assert_eq!(de.read_bool().unwrap(), ScalarRead::Signed(-65));

    // Null always stands for an absent value.
    let data = [0u8];
    let mut de = Deserializer::new(data.as_slice());
    assert_eq!(de.read_int(32).unwrap(), ScalarRead::Null);

    // Signed requests refuse boolean tags.
    let data = [1u8];
    let mut de = Deserializer::new(data.as_slice());
    match de.read_int(32) {
        Err(Error::WrongType(found, expected)) => {
            assert_eq!(found, Type::BooleanFalse);
            assert_eq!(expected.types(), vec![Type::SignedInt]);
        }
        other => panic!("expected a wrong-type error, got {other:?}"),
    }

    // A value too wide for the requested width is refused.
    let data = [3u8, 0x80, 0x02];
    let mut de = Deserializer::new(data.as_slice());
    assert!(matches!(de.read_uint(8), Err(Error::VarIntTooLarge)));
}

#[test]
fn float_reads_move_the_bits() {
    let data = [6u8, 0xDB, 0x0F, 0x49, 0x40];
    let mut de = Deserializer::new(data.as_slice());
    match de.read_float().unwrap() {
        FloatRead::F32(bits) => assert_eq!(f32::from_bits(bits), 3.1415927f32),
        other => panic!("expected a 32-bit float, got {other:?}"),
    }

    let data = [7u8, 0x18, 0x2D, 0x44, 0x54, 0xFB, 0x21, 0x09, 0x40];
    let mut de = Deserializer::new(data.as_slice());
    match de.read_float().unwrap() {
        FloatRead::F64(bits) => assert_eq!(f64::from_bits(bits), core::f64::consts::PI),
        other => panic!("expected a 64-bit float, got {other:?}"),
    }

    // The 16-bit width has no supported representation to decode into.
    let data = [5u8, 0, 60];
    let mut de = Deserializer::new(data.as_slice());
    match de.read_float() {
        Err(Error::WrongType(found, expected)) => {
            assert_eq!(found, Type::Float16);
            assert_eq!(
                expected.types(),
                vec![Type::Float16, Type::Float32, Type::Float64, Type::Float128]
            );
        }
        other => panic!("expected a wrong-type error, got {other:?}"),
    }
}

#[test]
fn read_bytes_borrows_or_copies() {
    // A slice-backed source hands out a borrowed view and clears the
    // scratch buffer.
    let data = [1u8, 2, 3, 4];
    let mut de = Deserializer::new(data.as_slice()).with_buffer(vec![9u8]);
    let got = de.read_bytes(3).unwrap().to_vec();
    assert_eq!(got, vec![1, 2, 3]);
    assert!(de.has_buffer());
    assert_eq!(de.buffer_slice().unwrap(), &[]);

    // Reading past the end is refused without consuming anything.
    let data = [1u8, 2];
    let mut de: Deserializer<&[u8], ()> = Deserializer::new(data.as_slice());
    assert!(matches!(de.read_bytes(3), Err(Error::UnexpectedEnd)));
    assert_eq!(de.read_bytes(2).unwrap(), &[1, 2]);
}

#[test]
fn buffer_management() {
    let data = [0u8];
    let mut de = Deserializer::new(data.as_slice()).with_buffer(vec![1u8, 2]);
    assert!(de.has_buffer());
    assert_eq!(de.buffer_slice().unwrap(), &[1, 2]);
    de.reset_buffer();
    assert_eq!(de.buffer_slice().unwrap(), &[]);

    let mut de: Deserializer<&[u8], ()> = Deserializer::new(data.as_slice());
    assert!(!de.has_buffer());
    assert!(matches!(de.buffer_slice(), Err(Error::BufferTooSmall)));
    let (input, buffer) = de.into_parts();
    assert_eq!(input, &[0u8]);
    assert!(buffer.is_none());
}
