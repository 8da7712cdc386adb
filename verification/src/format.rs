//! The wire format: type tags.
//!
//! Every encoded value starts with a single tag byte identifying its kind.
//! Tag values are stable; bytes outside the table below are invalid and are
//! rejected by the decoder.

use vstd::prelude::*;

use crate::error::Error;

verus! {

/// The binary type identifier, one byte on the wire.
#[derive(Clone, Copy, Debug, Hash, PartialEq, Eq, Structural)]
pub enum Type {
    /// The `null` / unit / none type; no payload. Tag byte 0.
    Null,
    /// The `boolean` type with value false; no payload. Tag byte 1.
    BooleanFalse,
    /// The `boolean` type with value true; no payload. Tag byte 2.
    BooleanTrue,
    /// The unsigned `integer` type; a VarInt payload follows. Tag byte 3.
    UnsignedInt,
    /// The signed `integer` type; a zig-zag VarInt payload follows. Tag byte 4.
    SignedInt,
    /// The `float16` type; the next 2 bytes are the value. Tag byte 5.
    Float16,
    /// The `float32` type; the next 4 bytes are the value. Tag byte 6.
    Float32,
    /// The `float64` type; the next 8 bytes are the value. Tag byte 7.
    Float64,
    /// The `float128` type; the next 16 bytes are the value. Tag byte 8.
    Float128,
    /// The `bytes` type: a VarInt length N, then N raw bytes. Tag byte 10.
    Bytes,
    /// The `string` type: as bytes, but the payload is valid UTF-8. Tag byte 11.
    String,
    /// Start of a `sequence`: elements follow until the end tag. Tag byte 15.
    SeqStart,
    /// End of a `sequence`. Tag byte 16.
    SeqEnd,
    /// Start of a `map`: key/value pairs follow until the end tag. Tag byte 17.
    MapStart,
    /// End of a `map`. Tag byte 18.
    MapEnd,
}

impl Type {
    /// The tag byte of this type.
    pub open spec fn code(self) -> u8 {
        match self {
            Type::Null => 0,
            Type::BooleanFalse => 1,
            Type::BooleanTrue => 2,
            Type::UnsignedInt => 3,
            Type::SignedInt => 4,
            Type::Float16 => 5,
            Type::Float32 => 6,
            Type::Float64 => 7,
            Type::Float128 => 8,
            Type::Bytes => 10,
            Type::String => 11,
            Type::SeqStart => 15,
            Type::SeqEnd => 16,
            Type::MapStart => 17,
            Type::MapEnd => 18,
        }
    }

    /// The type a tag byte stands for, if any.
    pub open spec fn spec_from_byte(b: u8) -> Option<Type> {
        match b {
            0u8 => Some(Type::Null),
            1u8 => Some(Type::BooleanFalse),
            2u8 => Some(Type::BooleanTrue),
            3u8 => Some(Type::UnsignedInt),
            4u8 => Some(Type::SignedInt),
            5u8 => Some(Type::Float16),
            6u8 => Some(Type::Float32),
            7u8 => Some(Type::Float64),
            8u8 => Some(Type::Float128),
            10u8 => Some(Type::Bytes),
            11u8 => Some(Type::String),
            15u8 => Some(Type::SeqStart),
            16u8 => Some(Type::SeqEnd),
            17u8 => Some(Type::MapStart),
            18u8 => Some(Type::MapEnd),
            _ => None,
        }
    }

    /// Emit the tag byte.
    pub fn to_byte(self) -> (b: u8)
        ensures
            b == self.code(),
    {
        match self {
            Type::Null => 0,
            Type::BooleanFalse => 1,
            Type::BooleanTrue => 2,
            Type::UnsignedInt => 3,
            Type::SignedInt => 4,
            Type::Float16 => 5,
            Type::Float32 => 6,
            Type::Float64 => 7,
            Type::Float128 => 8,
            Type::Bytes => 10,
            Type::String => 11,
            Type::SeqStart => 15,
            Type::SeqEnd => 16,
            Type::MapStart => 17,
            Type::MapEnd => 18,
        }
    }

    /// Recognize a tag byte; an unknown byte is an [`Error::InvalidType`].
    pub fn try_from_byte(b: u8) -> (r: Result<Type, Error>)
        ensures
            match r {
                Ok(t) => Type::spec_from_byte(b) == Some(t) && t.code() == b,
                Err(e) => Type::spec_from_byte(b) is None && e == Error::InvalidType(b),
            },
    {
        match b {
            0u8 => Ok(Type::Null),
            1u8 => Ok(Type::BooleanFalse),
            2u8 => Ok(Type::BooleanTrue),
            3u8 => Ok(Type::UnsignedInt),
            4u8 => Ok(Type::SignedInt),
            5u8 => Ok(Type::Float16),
            6u8 => Ok(Type::Float32),
            7u8 => Ok(Type::Float64),
            8u8 => Ok(Type::Float128),
            10u8 => Ok(Type::Bytes),
            11u8 => Ok(Type::String),
            15u8 => Ok(Type::SeqStart),
            16u8 => Ok(Type::SeqEnd),
            17u8 => Ok(Type::MapStart),
            18u8 => Ok(Type::MapEnd),
            _ => Err(Error::InvalidType(b)),
        }
    }
}

/// The two conversions between tags and bytes invert each other.
pub proof fn lemma_type_byte_roundtrip()
    ensures
        forall|t: Type| Type::spec_from_byte(#[trigger] t.code()) == Some(t),
        forall|b: u8| (#[trigger] Type::spec_from_byte(b)) matches Some(t) ==> t.code() == b,
{
}

/// The maximum number of bytes a VarInt of a `bits`-wide integer can span:
/// one byte for each started group of 7 bits.
pub fn varint_max(bits: u32) -> (r: usize)
    requires
        1 <= bits <= 128,
    ensures
        r == spec_varint_max(bits as nat),
{
    ((bits + 6) / 7) as usize
}

/// Mathematical version of [`varint_max`].
pub open spec fn spec_varint_max(bits: nat) -> nat {
    (bits + 6) / 7
}

} // verus!
