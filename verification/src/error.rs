//! Error type shared by encoding and decoding.

use vstd::prelude::*;

use crate::format::Type;

verus! {

/// The set of type tags that the decoder would have accepted at the point
/// where a mismatching tag was found. Each variant stands for one fixed set;
/// [`Expected::types`] lists the members.
#[derive(Clone, Copy, Debug, PartialEq, Eq, Structural)]
pub enum Expected {
    /// A boolean tag.
    Boolean,
    /// An unsigned integer tag.
    UnsignedInt,
    /// A signed integer tag.
    SignedInt,
    /// Either integer tag (pointer-sized integer decode).
    Integer,
    /// The null tag.
    Null,
    /// A string tag.
    String,
    /// A bytes tag.
    Bytes,
    /// The sequence start tag.
    SeqStart,
    /// The sequence end tag.
    SeqEnd,
    /// The map start tag.
    MapStart,
    /// The map end tag.
    MapEnd,
    /// A float tag of any width.
    Float,
    /// A field or variant identifier: an index or a name.
    Identifier,
    /// An enum variant: a bare selector or a selector-keyed map.
    Enum,
    /// Any tag that starts a value.
    AnyValue,
}

/// Error when encoding or decoding.
#[derive(Clone, Copy, Debug, PartialEq, Eq, Structural)]
pub enum Error {
    /// Expected more data but encountered the end of the input.
    UnexpectedEnd,
    /// Excess data appeared at the end of the input.
    ExcessData,
    /// Buffer was too small.
    BufferTooSmall,
    /// Allocation failure.
    Allocation,
    /// Usize overflow.
    UsizeOverflow,
    /// Configured size limit reached.
    LimitReached,
    /// Invalid data type designator encountered.
    InvalidType(u8),
    /// VarInt too large for the given expected type.
    VarIntTooLarge,
    /// Wrong data type encountered (found, expected).
    WrongType(Type, Expected),
    /// String is not exactly one character.
    NotOneChar,
    /// Parsed string is not valid UTF-8.
    StringNotUtf8,
    /// Generic error raised by a structure-level adapter.
    Custom,
}

impl Expected {
    /// The members of the set, in the order the decoder checks them.
    pub fn types(&self) -> (r: Vec<Type>)
        ensures
            r@ == self.type_seq(),
    {
        match self {
            Expected::Boolean => vec![Type::BooleanFalse, Type::BooleanTrue],
            Expected::UnsignedInt => vec![Type::UnsignedInt],
            Expected::SignedInt => vec![Type::SignedInt],
            Expected::Integer => vec![Type::UnsignedInt, Type::SignedInt],
            Expected::Null => vec![Type::Null],
            Expected::String => vec![Type::String],
            Expected::Bytes => vec![Type::Bytes],
            Expected::SeqStart => vec![Type::SeqStart],
            Expected::SeqEnd => vec![Type::SeqEnd],
            Expected::MapStart => vec![Type::MapStart],
            Expected::MapEnd => vec![Type::MapEnd],
            Expected::Float => vec![
                Type::Float16,
                Type::Float32,
                Type::Float64,
                Type::Float128,
            ],
            Expected::Identifier => vec![Type::UnsignedInt, Type::String],
            Expected::Enum => vec![Type::Null, Type::String, Type::MapStart],
            Expected::AnyValue => vec![
                Type::Null,
                Type::BooleanFalse,
                Type::BooleanTrue,
                Type::UnsignedInt,
                Type::SignedInt,
                Type::Float16,
                Type::Float32,
                Type::Float64,
                Type::Float128,
                Type::Bytes,
                Type::String,
                Type::SeqStart,
                Type::MapStart,
            ],
        }
    }

    /// The members of the set, as a mathematical sequence.
    pub open spec fn type_seq(self) -> Seq<Type> {
        match self {
            Expected::Boolean => seq![Type::BooleanFalse, Type::BooleanTrue],
            Expected::UnsignedInt => seq![Type::UnsignedInt],
            Expected::SignedInt => seq![Type::SignedInt],
            Expected::Integer => seq![Type::UnsignedInt, Type::SignedInt],
            Expected::Null => seq![Type::Null],
            Expected::String => seq![Type::String],
            Expected::Bytes => seq![Type::Bytes],
            Expected::SeqStart => seq![Type::SeqStart],
            Expected::SeqEnd => seq![Type::SeqEnd],
            Expected::MapStart => seq![Type::MapStart],
            Expected::MapEnd => seq![Type::MapEnd],
            Expected::Float => seq![
                Type::Float16,
                Type::Float32,
                Type::Float64,
                Type::Float128,
            ],
            Expected::Identifier => seq![Type::UnsignedInt, Type::String],
            Expected::Enum => seq![Type::Null, Type::String, Type::MapStart],
            Expected::AnyValue => seq![
                Type::Null,
                Type::BooleanFalse,
                Type::BooleanTrue,
                Type::UnsignedInt,
                Type::SignedInt,
                Type::Float16,
                Type::Float32,
                Type::Float64,
                Type::Float128,
                Type::Bytes,
                Type::String,
                Type::SeqStart,
                Type::MapStart,
            ],
        }
    }
}

} // verus!
