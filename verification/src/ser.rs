//! The encoder: writes tagged wire-format items to any [`Output`].
//!
//! Every method writes one complete item: the type tag, then its payload.
//! The byte sequences are pinned down by the `enc_*` functions, so callers
//! know the exact bytes a successful call appends.

use vstd::prelude::*;
use vstd::string::StringSliceAdditionalSpecFns;

use crate::error::Error;
use crate::format::Type;
use crate::io::Output;
use crate::varint::varint_enc;
use crate::varint::zigzag;
use crate::varint::encode_varint;
use crate::varint::encode_varint_signed;

verus! {

/// The wire bytes of the null item.
pub open spec fn enc_null() -> Seq<u8> {
    seq![0u8]
}

/// The wire bytes of a boolean item.
pub open spec fn enc_bool(v: bool) -> Seq<u8> {
    if v {
        seq![2u8]
    } else {
        seq![1u8]
    }
}

/// The wire bytes of an unsigned integer item.
pub open spec fn enc_unsigned(v: nat) -> Seq<u8> {
    seq![3u8] + varint_enc(v)
}

/// The wire bytes of a signed integer item.
pub open spec fn enc_signed(v: int) -> Seq<u8> {
    seq![4u8] + varint_enc(zigzag(v))
}

/// The four little-endian bytes of a 32-bit value.
pub open spec fn le4(x: u32) -> Seq<u8> {
    seq![
        (x % 256) as u8,
        ((x / 256) % 256) as u8,
        ((x / 65536) % 256) as u8,
        ((x / 16777216) % 256) as u8,
    ]
}

/// The eight little-endian bytes of a 64-bit value.
pub open spec fn le8(x: u64) -> Seq<u8> {
    seq![
        (x % 256) as u8,
        ((x / 256) % 256) as u8,
        ((x / 0x10000) % 256) as u8,
        ((x / 0x100_0000) % 256) as u8,
        ((x / 0x1_0000_0000) % 256) as u8,
        ((x / 0x100_0000_0000) % 256) as u8,
        ((x / 0x1_0000_0000_0000) % 256) as u8,
        ((x / 0x100_0000_0000_0000) % 256) as u8,
    ]
}

/// The wire bytes of a 32-bit float item, from its bit pattern.
pub open spec fn enc_f32(bits: u32) -> Seq<u8> {
    seq![6u8] + le4(bits)
}

/// The wire bytes of a 64-bit float item, from its bit pattern.
pub open spec fn enc_f64(bits: u64) -> Seq<u8> {
    seq![7u8] + le8(bits)
}

/// The wire bytes of a byte-blob item: tag, VarInt length, raw bytes.
pub open spec fn enc_bytes(b: Seq<u8>) -> Seq<u8> {
    seq![10u8] + varint_enc(b.len()) + b
}

/// The wire bytes of a string item: tag, VarInt length, UTF-8 bytes.
pub open spec fn enc_string(b: Seq<u8>) -> Seq<u8> {
    seq![11u8] + varint_enc(b.len()) + b
}

/// The sequence and map bracket tags.
pub open spec fn enc_seq_start() -> Seq<u8> {
    seq![15u8]
}

/// The sequence end tag.
pub open spec fn enc_seq_end() -> Seq<u8> {
    seq![16u8]
}

/// The map start tag.
pub open spec fn enc_map_start() -> Seq<u8> {
    seq![17u8]
}

/// The map end tag.
pub open spec fn enc_map_end() -> Seq<u8> {
    seq![18u8]
}

/// The encoder for the binary format.
pub struct Serializer<O> {
    /// The output to write to.
    pub output: O,
    /// Encode enum variants and struct fields by index instead of name.
    pub use_indices: bool,
}

/// The contract shared by every encoder method: writing the item whose wire
/// form is `bytes` succeeds exactly when the sink has room for all of it, and
/// then appends exactly those bytes. A refused write reports the sink's error
/// for some write that did not fit, and never changes the configuration.
pub open spec fn ser_ensures<O: Output>(
    pre: Serializer<O>,
    post: Serializer<O>,
    bytes: Seq<u8>,
    r: Result<(), Error>,
) -> bool {
    &&& post.use_indices == pre.use_indices
    &&& (r is Ok <==> pre.output.space() >= bytes.len())
    &&& r is Ok ==> {
        &&& post.output.out_bytes() == pre.output.out_bytes() + bytes
        &&& post.output.space() == pre.output.space() - bytes.len()
        &&& forall|n: nat| post.output.write_err(n) == pre.output.write_err(n + bytes.len())
    }
    &&& r is Err ==> exists|m: nat|
        pre.output.space() < m <= bytes.len() && r->Err_0 == pre.output.write_err(m)
}

impl<O: Output> Serializer<O> {
    /// Create a new encoder over any [`Output`] compatible type.
    pub fn new(output: O) -> (r: Self)
        ensures
            r.output == output,
            r.use_indices == false,
    {
        Serializer { output, use_indices: false }
    }

    /// Set whether to use indices instead of names for enum variants and
    /// struct fields.
    pub fn use_indices(self, use_indices: bool) -> (r: Self)
        ensures
            r.output == self.output,
            r.use_indices == use_indices,
    {
        Serializer { output: self.output, use_indices }
    }

    /// Consume the encoder to get the output back.
    pub fn into_output(self) -> (r: O)
        ensures
            r == self.output,
    {
        self.output
    }

    /// Write a single tag byte.
    fn write_tag(&mut self, t: Type) -> (r: Result<(), Error>)
        ensures
            ser_ensures(*old(self), *final(self), seq![t.code()], r),
    {
        let b: u8 = t.to_byte();
        match self.output.write_byte(b) {
            Ok(()) => {
                proof {
                    assert(self.output.out_bytes() =~= old(self).output.out_bytes() + seq![
                        t.code(),
                    ]);
                }
                Ok(())
            },
            Err(e) => {
                proof {
                    assert(old(self).output.space() < 1nat <= seq![t.code()].len() && e == old(
                        self,
                    ).output.write_err(1nat));
                }
                Err(e)
            },
        }
    }

    /// Write the null item: `None`, the unit value and unit structs.
    pub fn serialize_none(&mut self) -> (r: Result<(), Error>)
        ensures
            ser_ensures(*old(self), *final(self), enc_null(), r),
    {
        self.write_tag(Type::Null)
    }

    /// Write the null item; the unit value is indistinguishable from `None`
    /// on the wire.
    pub fn serialize_unit(&mut self) -> (r: Result<(), Error>)
        ensures
            ser_ensures(*old(self), *final(self), enc_null(), r),
    {
        self.write_tag(Type::Null)
    }

    /// Write a boolean item.
    pub fn serialize_bool(&mut self, v: bool) -> (r: Result<(), Error>)
        ensures
            ser_ensures(*old(self), *final(self), enc_bool(v), r),
    {
        if v {
            self.write_tag(Type::BooleanTrue)
        } else {
            self.write_tag(Type::BooleanFalse)
        }
    }

    /// Write an unsigned integer item: tag, then the minimal VarInt form of
    /// the runtime value, whatever the declared width.
    pub fn serialize_unsigned(&mut self, v: u128) -> (r: Result<(), Error>)
        ensures
            ser_ensures(*old(self), *final(self), enc_unsigned(v as nat), r),
    {
        let ghost pre = *self;
        let ghost bytes = enc_unsigned(v as nat);
        match self.write_tag(Type::UnsignedInt) {
            Ok(()) => {},
            Err(e) => {
                proof {
                    assert(pre.output.space() < 1nat <= bytes.len());
                }
                return Err(e);
            },
        }
        let ghost mid = *self;
        match encode_varint(&mut self.output, v) {
            Ok(()) => {
                proof {
                    assert(self.output.out_bytes() =~= pre.output.out_bytes() + bytes);
                }
                Ok(())
            },
            Err(e) => {
                proof {
                    assert(e == pre.output.write_err((pre.output.space() + 1) as nat));
                    assert(pre.output.space() < (pre.output.space() + 1) as nat <= bytes.len());
                }
                Err(e)
            },
        }
    }

    /// Write a signed integer item: tag, then the zig-zag VarInt form.
    pub fn serialize_signed(&mut self, v: i128) -> (r: Result<(), Error>)
        ensures
            ser_ensures(*old(self), *final(self), enc_signed(v as int), r),
    {
        let ghost pre = *self;
        let ghost bytes = enc_signed(v as int);
        match self.write_tag(Type::SignedInt) {
            Ok(()) => {},
            Err(e) => {
                proof {
                    assert(pre.output.space() < 1nat <= bytes.len());
                }
                return Err(e);
            },
        }
        match encode_varint_signed(&mut self.output, v) {
            Ok(()) => {
                proof {
                    assert(self.output.out_bytes() =~= pre.output.out_bytes() + bytes);
                }
                Ok(())
            },
            Err(e) => {
                proof {
                    assert(e == pre.output.write_err((pre.output.space() + 1) as nat));
                    assert(pre.output.space() < (pre.output.space() + 1) as nat <= bytes.len());
                }
                Err(e)
            },
        }
    }

    /// Write a length-prefixed payload after the given tag: the shared body
    /// of byte-blob and string items.
    fn serialize_len_prefixed(&mut self, t: Type, payload: &[u8]) -> (r: Result<(), Error>)
        ensures
            ser_ensures(
                *old(self),
                *final(self),
                seq![t.code()] + varint_enc(payload@.len()) + payload@,
                r,
            ),
    {
        let ghost pre = *self;
        let ghost bytes = seq![t.code()] + varint_enc(payload@.len()) + payload@;
        match self.write_tag(t) {
            Ok(()) => {},
            Err(e) => {
                proof {
                    assert(pre.output.space() < 1nat <= bytes.len());
                }
                return Err(e);
            },
        }
        match encode_varint(&mut self.output, payload.len() as u128) {
            Ok(()) => {},
            Err(e) => {
                proof {
                    assert(e == pre.output.write_err((pre.output.space() + 1) as nat));
                    assert(pre.output.space() < (pre.output.space() + 1) as nat <= bytes.len());
                }
                return Err(e);
            },
        }
        let ghost mid = *self;
        match self.output.write_all(payload) {
            Ok(()) => {
                proof {
                    assert(self.output.out_bytes() =~= pre.output.out_bytes() + bytes);
                }
                Ok(())
            },
            Err(e) => {
                proof {
                    let k: nat = 1 + varint_enc(payload@.len()).len();
                    assert(e == mid.output.write_err(payload@.len()));
                    assert(e == pre.output.write_err(bytes.len()));
                    assert(mid.output.space() < payload@.len());
                    assert(pre.output.space() < bytes.len());
                }
                Err(e)
            },
        }
    }

    /// Write a character item: its 1-to-4-byte UTF-8 form as a string item.
    pub fn serialize_char(&mut self, v: char) -> (r: Result<(), Error>)
        ensures
            ser_ensures(
                *old(self),
                *final(self),
                enc_string(vstd::utf8::encode_scalar(v as u32)),
                r,
            ),
    {
        let u: u32 = v as u32;
        proof {
            vstd::utf8::char_is_scalar(v);
        }
        let mut buf: Vec<u8> = Vec::new();
        if u < 0x80 {
            buf.push((u & 0x7F) as u8);
        } else if u < 0x800 {
            buf.push(0xC0u8 | (((u >> 6) & 0x1F) as u8));
            buf.push(0x80u8 | ((u & 0x3F) as u8));
        } else if u < 0x10000 {
            buf.push(0xE0u8 | (((u >> 12) & 0x0F) as u8));
            buf.push(0x80u8 | (((u >> 6) & 0x3F) as u8));
            buf.push(0x80u8 | ((u & 0x3F) as u8));
        } else {
            buf.push(0xF0u8 | (((u >> 18) & 0x7) as u8));
            buf.push(0x80u8 | (((u >> 12) & 0x3F) as u8));
            buf.push(0x80u8 | (((u >> 6) & 0x3F) as u8));
            buf.push(0x80u8 | ((u & 0x3F) as u8));
        }
        proof {
            assert(buf@ =~= vstd::utf8::encode_scalar(u));
        }
        let r = self.serialize_len_prefixed(Type::String, buf.as_slice());
        proof {
            assert(seq![Type::String.code()] + varint_enc(buf@.len()) + buf@ =~= enc_string(
                vstd::utf8::encode_scalar(v as u32),
            ));
        }
        r
    }

    /// Write a byte-blob item.
    pub fn serialize_bytes(&mut self, v: &[u8]) -> (r: Result<(), Error>)
        ensures
            ser_ensures(*old(self), *final(self), enc_bytes(v@), r),
    {
        let r = self.serialize_len_prefixed(Type::Bytes, v);
        proof {
            assert(seq![Type::Bytes.code()] + varint_enc(v@.len()) + v@ =~= enc_bytes(v@));
        }
        r
    }

    /// Write a string item from its UTF-8 bytes.
    pub fn serialize_str(&mut self, v: &str) -> (r: Result<(), Error>)
        ensures
            ser_ensures(*old(self), *final(self), enc_string(v.spec_bytes()), r),
    {
        let bytes: &[u8] = v.as_bytes();
        let r = self.serialize_len_prefixed(Type::String, bytes);
        proof {
            assert(seq![Type::String.code()] + varint_enc(v.spec_bytes().len()) + v.spec_bytes()
                =~= enc_string(v.spec_bytes()));
        }
        r
    }

    /// Write a 32-bit float item from its IEEE-754 bit pattern, little
    /// endian.
    pub fn serialize_f32_bits(&mut self, bits: u32) -> (r: Result<(), Error>)
        ensures
            ser_ensures(*old(self), *final(self), enc_f32(bits), r),
    {
        let ghost pre = *self;
        let ghost enc = enc_f32(bits);
        let b0: u8 = (bits % 256) as u8;
        let b1: u8 = ((bits / 256) % 256) as u8;
        let b2: u8 = ((bits / 65536) % 256) as u8;
        let b3: u8 = ((bits / 16777216) % 256) as u8;
        match self.write_tag(Type::Float32) {
            Ok(()) => {},
            Err(e) => {
                proof {
                    assert(pre.output.space() < 1nat <= enc.len());
                }
                return Err(e);
            },
        }
        let payload: [u8; 4] = [b0, b1, b2, b3];
        match self.output.write_all(payload.as_slice()) {
            Ok(()) => {
                proof {
                    assert(payload@ =~= le4(bits));
                    assert(self.output.out_bytes() =~= pre.output.out_bytes() + enc);
                }
                Ok(())
            },
            Err(e) => {
                proof {
                    assert(payload@ =~= le4(bits));
                    assert(e == pre.output.write_err(enc.len()));
                    assert(pre.output.space() < enc.len());
                }
                Err(e)
            },
        }
    }

    /// Write a 64-bit float item from its IEEE-754 bit pattern, little
    /// endian.
    pub fn serialize_f64_bits(&mut self, bits: u64) -> (r: Result<(), Error>)
        ensures
            ser_ensures(*old(self), *final(self), enc_f64(bits), r),
    {
        let ghost pre = *self;
        let ghost enc = enc_f64(bits);
        let b0: u8 = (bits % 256) as u8;
        let b1: u8 = ((bits / 256) % 256) as u8;
        let b2: u8 = ((bits / 0x10000) % 256) as u8;
        let b3: u8 = ((bits / 0x100_0000) % 256) as u8;
        let b4: u8 = ((bits / 0x1_0000_0000) % 256) as u8;
        let b5: u8 = ((bits / 0x100_0000_0000) % 256) as u8;
        let b6: u8 = ((bits / 0x1_0000_0000_0000) % 256) as u8;
        let b7: u8 = ((bits / 0x100_0000_0000_0000) % 256) as u8;
        match self.write_tag(Type::Float64) {
            Ok(()) => {},
            Err(e) => {
                proof {
                    assert(pre.output.space() < 1nat <= enc.len());
                }
                return Err(e);
            },
        }
        let payload: [u8; 8] = [b0, b1, b2, b3, b4, b5, b6, b7];
        match self.output.write_all(payload.as_slice()) {
            Ok(()) => {
                proof {
                    assert(payload@ =~= le8(bits));
                    assert(self.output.out_bytes() =~= pre.output.out_bytes() + enc);
                }
                Ok(())
            },
            Err(e) => {
                proof {
                    assert(payload@ =~= le8(bits));
                    assert(e == pre.output.write_err(enc.len()));
                    assert(pre.output.space() < enc.len());
                }
                Err(e)
            },
        }
    }

    /// Write the sequence start tag; elements follow, then
    /// [`Serializer::end_seq`].
    pub fn begin_seq(&mut self) -> (r: Result<(), Error>)
        ensures
            ser_ensures(*old(self), *final(self), enc_seq_start(), r),
    {
        self.write_tag(Type::SeqStart)
    }

    /// Write the sequence end tag.
    pub fn end_seq(&mut self) -> (r: Result<(), Error>)
        ensures
            ser_ensures(*old(self), *final(self), enc_seq_end(), r),
    {
        self.write_tag(Type::SeqEnd)
    }

    /// Write the map start tag; key/value pairs follow, then
    /// [`Serializer::end_map`].
    pub fn begin_map(&mut self) -> (r: Result<(), Error>)
        ensures
            ser_ensures(*old(self), *final(self), enc_map_start(), r),
    {
        self.write_tag(Type::MapStart)
    }

    /// Write the map end tag.
    pub fn end_map(&mut self) -> (r: Result<(), Error>)
        ensures
            ser_ensures(*old(self), *final(self), enc_map_end(), r),
    {
        self.write_tag(Type::MapEnd)
    }

    /// Write a field or variant identifier: the name as a string item, or the
    /// zero-based index as an unsigned item when indexed mode is on.
    pub fn serialize_identifier(&mut self, index: u32, name: &str) -> (r: Result<(), Error>)
        ensures
            ser_ensures(
                *old(self),
                *final(self),
                if old(self).use_indices {
                    enc_unsigned(index as nat)
                } else {
                    enc_string(name.spec_bytes())
                },
                r,
            ),
    {
        if self.use_indices {
            self.serialize_unsigned(index as u128)
        } else {
            self.serialize_str(name)
        }
    }
}

/// Struct encoder that keeps track of the field index, so that skipped
/// fields still advance the index in indexed mode.
pub struct StructSerializer<O> {
    /// The inner encoder.
    pub serializer: Serializer<O>,
    /// The index of the next field.
    pub field_index: u32,
}

impl<O: Output> StructSerializer<O> {
    /// Start encoding the fields of a struct; the caller has already written
    /// the opening map tag.
    pub fn new(serializer: Serializer<O>) -> (r: Self)
        ensures
            r.serializer == serializer,
            r.field_index == 0,
    {
        StructSerializer { serializer, field_index: 0 }
    }

    /// Write the key of the next field and advance the field index; the
    /// caller writes the value next.
    pub fn field_key(&mut self, name: &str) -> (r: Result<(), Error>)
        requires
            old(self).field_index < u32::MAX,
        ensures
            final(self).field_index == old(self).field_index + 1,
            ser_ensures(
                old(self).serializer,
                final(self).serializer,
                if old(self).serializer.use_indices {
                    enc_unsigned(old(self).field_index as nat)
                } else {
                    enc_string(name.spec_bytes())
                },
                r,
            ),
    {
        let idx = self.field_index;
        self.field_index = self.field_index + 1;
        self.serializer.serialize_identifier(idx, name)
    }

    /// Skip a field: contributes nothing to the stream, but advances the
    /// index so later fields keep their positions in indexed mode.
    pub fn skip_field(&mut self)
        requires
            old(self).field_index < u32::MAX,
        ensures
            final(self).field_index == old(self).field_index + 1,
            final(self).serializer == old(self).serializer,
    {
        self.field_index = self.field_index + 1;
    }

    /// Finish the struct: write the closing map tag and hand the encoder
    /// back.
    pub fn end(self) -> (r: (Serializer<O>, Result<(), Error>))
        ensures
            ser_ensures(self.serializer, r.0, enc_map_end(), r.1),
    {
        let mut ser = self.serializer;
        let r = ser.end_map();
        (ser, r)
    }
}

} // verus!
