//! The decoder: reads tagged wire-format items from any [`Input`].
//!
//! Each read peeks the type tag, validates it against what the caller asked
//! for, and only then consumes the item. A mismatching tag is a
//! [`Error::WrongType`] carrying the tag found and the accepted set. Null is
//! accepted wherever a value is requested (it stands for "absent"), and
//! boolean tags are accepted where a fixed-width unsigned integer is
//! requested.

use vstd::prelude::*;

use crate::buffer::Buffer;
use crate::error::Error;
use crate::error::Expected;
use crate::format::Type;
use crate::format::spec_varint_max;
use crate::io::Input;
use crate::varint::VarIntOutcome;
use crate::varint::varint_parse;
use crate::varint::unzigzag;
use crate::varint::decode_varint;
use crate::varint::decode_varint_usize;
use crate::varint::decode_varint_isize;
use crate::varint::zigzag_decode;
use crate::varint::lemma_varint_parse_bound;

verus! {

broadcast use vstd::seq_lib::lemma_seq_skip_of_skip;

/// The tag at the front of the stream: `None` when the stream is empty or
/// the first byte is not a valid tag.
pub open spec fn tag_at(s: Seq<u8>) -> Option<Type> {
    if s.len() == 0 {
        None
    } else {
        Type::spec_from_byte(s[0])
    }
}

/// The input moved forward by exactly `k` bytes.
pub open spec fn consumed<'de, I: Input<'de>>(pre: I, post: I, k: nat) -> bool {
    &&& post.bytes() == pre.bytes().skip(k as int)
    &&& forall|c: nat, n: nat| post.fail_err(c, n) == pre.fail_err(c + k, n)
}

/// The input did not move.
pub open spec fn unmoved<'de, I: Input<'de>>(pre: I, post: I) -> bool {
    &&& post.bytes() == pre.bytes()
    &&& forall|c: nat, n: nat| post.fail_err(c, n) == pre.fail_err(c, n)
}

/// The error reported when the front of the stream holds no valid tag:
/// the source's own error on an empty stream, else the invalid byte.
pub open spec fn peek_fail<'de, I: Input<'de>>(pre: I, e: Error) -> bool {
    if pre.bytes().len() == 0 {
        e == pre.fail_err(0, 1)
    } else {
        e == Error::InvalidType(pre.bytes()[0])
    }
}

/// Reading an unsigned integer item of width `bits` whose tag byte is
/// already known to sit at the front: the VarInt payload after the tag
/// decides the outcome.
pub open spec fn unsigned_item_ensures<'de, I: Input<'de>>(
    pre: I,
    post: I,
    bits: nat,
    r: Result<u128, Error>,
) -> bool {
    match varint_parse(pre.bytes().drop_first(), bits, spec_varint_max(bits)) {
        VarIntOutcome::Value { value, used } => {
            &&& r is Ok
            &&& r->Ok_0 as nat == value
            &&& consumed(pre, post, 1 + used)
        },
        VarIntOutcome::TooLarge => r == Err::<u128, Error>(Error::VarIntTooLarge),
        VarIntOutcome::Incomplete => r == Err::<u128, Error>(
            pre.fail_err(pre.bytes().len(), 1),
        ),
    }
}

/// The signed counterpart of [`unsigned_item_ensures`]: the VarInt payload
/// is mapped back through [`unzigzag`].
pub open spec fn signed_item_ensures<'de, I: Input<'de>>(
    pre: I,
    post: I,
    bits: nat,
    r: Result<i128, Error>,
) -> bool {
    match varint_parse(pre.bytes().drop_first(), bits, spec_varint_max(bits)) {
        VarIntOutcome::Value { value, used } => {
            &&& r is Ok
            &&& r->Ok_0 as int == unzigzag(value)
            &&& consumed(pre, post, 1 + used)
        },
        VarIntOutcome::TooLarge => r == Err::<i128, Error>(Error::VarIntTooLarge),
        VarIntOutcome::Incomplete => r == Err::<i128, Error>(
            pre.fail_err(pre.bytes().len(), 1),
        ),
    }
}

/// Consuming the tag byte and then decoding its VarInt payload adds up to
/// reading one whole unsigned integer item.
proof fn lemma_unsigned_item<'de, I: Input<'de>>(
    pre: I,
    mid: I,
    post: I,
    bits: nat,
    r: Result<u128, Error>,
)
    requires
        pre.bytes().len() >= 1,
        consumed(pre, mid, 1),
        crate::varint::varint_decode_ensures(mid, post, bits, r),
    ensures
        unsigned_item_ensures(pre, post, bits, r),
{
    assert(mid.bytes() =~= pre.bytes().drop_first());
    lemma_varint_parse_bound(mid.bytes(), bits, spec_varint_max(bits));
    match varint_parse(mid.bytes(), bits, spec_varint_max(bits)) {
        VarIntOutcome::Value { value, used } => {
            assert(post.bytes() =~= pre.bytes().skip(1 + used as int));
        },
        VarIntOutcome::TooLarge => {
        },
        VarIntOutcome::Incomplete => {
            assert(mid.fail_err(mid.bytes().len(), 1) == pre.fail_err(pre.bytes().len(), 1));
        },
    }
}

/// The signed counterpart of [`lemma_unsigned_item`].
proof fn lemma_signed_item<'de, I: Input<'de>>(
    pre: I,
    mid: I,
    post: I,
    bits: nat,
    r: Result<i128, Error>,
)
    requires
        pre.bytes().len() >= 1,
        consumed(pre, mid, 1),
        crate::varint::varint_decode_signed_ensures(mid, post, bits, r),
    ensures
        signed_item_ensures(pre, post, bits, r),
{
    assert(mid.bytes() =~= pre.bytes().drop_first());
    lemma_varint_parse_bound(mid.bytes(), bits, spec_varint_max(bits));
    match varint_parse(mid.bytes(), bits, spec_varint_max(bits)) {
        VarIntOutcome::Value { value, used } => {
            assert(post.bytes() =~= pre.bytes().skip(1 + used as int));
        },
        VarIntOutcome::TooLarge => {
        },
        VarIntOutcome::Incomplete => {
            assert(mid.fail_err(mid.bytes().len(), 1) == pre.fail_err(pre.bytes().len(), 1));
        },
    }
}

/// A decoded scalar: the null item, a boolean, or an integer of either sign.
#[derive(Clone, Copy, Debug, PartialEq, Eq, Structural)]
pub enum ScalarRead {
    /// The null item stood where the value was requested.
    Null,
    /// A boolean item.
    Bool(bool),
    /// An unsigned integer item.
    Unsigned(u128),
    /// A signed integer item.
    Signed(i128),
}

/// A decoded float item, as its IEEE-754 bit pattern.
#[derive(Clone, Copy, Debug, PartialEq, Eq, Structural)]
pub enum FloatRead {
    /// The null item stood where the value was requested.
    Null,
    /// A 32-bit float item.
    F32(u32),
    /// A 64-bit float item.
    F64(u64),
}

/// The decoder for the binary format.
#[derive(Debug)]
pub struct Deserializer<I, B> {
    /// The input to read from.
    pub input: I,
    /// The scratch buffer for reads that cannot borrow, if one was supplied.
    pub buffer: Option<B>,
}

impl<I> Deserializer<I, ()> {
    /// Create a new decoder from the given input, without a scratch buffer.
    /// When reading from a non-borrowing source, set a buffer with
    /// [`Deserializer::with_buffer`] or length-prefixed reads will fail.
    pub fn new<'de>(input: I) -> (r: Self) where I: Input<'de>
        ensures
            r.input == input,
            r.buffer is None,
    {
        Deserializer { input, buffer: None }
    }

    /// Supply a scratch buffer for reads that cannot borrow from the source.
    pub fn with_buffer<B: Buffer>(self, buffer: B) -> (r: Deserializer<I, B>)
        ensures
            r.input == self.input,
            r.buffer == Some(buffer),
    {
        Deserializer { input: self.input, buffer: Some(buffer) }
    }
}

impl<I, B> Deserializer<I, B> {
    /// Consume the decoder and return the input.
    pub fn into_input(self) -> (r: I)
        ensures
            r == self.input,
    {
        self.input
    }

    /// Consume the decoder and return the inner parts.
    pub fn into_parts(self) -> (r: (I, Option<B>))
        ensures
            r.0 == self.input,
            r.1 == self.buffer,
    {
        (self.input, self.buffer)
    }
}

impl<'de, I: Input<'de>, B: Buffer> Deserializer<I, B> {
    /// Clear the scratch buffer, if one is present.
    pub fn reset_buffer(&mut self)
        ensures
            final(self).input == old(self).input,
            final(self).buffer is Some <==> old(self).buffer is Some,
            final(self).buffer matches Some(b) ==> b.buf() == Seq::<u8>::empty() && b.buf_space()
                == b.buf_capacity(),
            old(self).buffer matches Some(b0) ==> final(self).buffer matches Some(b1)
                && b1.buf_capacity() == b0.buf_capacity(),
    {
        match &mut self.buffer {
            Some(b) => b.clear(),
            None => {},
        }
    }

    /// The scratch buffer's bytes; fails when no buffer was supplied.
    pub fn buffer_slice(&self) -> (r: Result<&[u8], Error>)
        ensures
            match r {
                Ok(s) => self.buffer matches Some(b) && s@ == b.buf(),
                Err(e) => self.buffer is None && e == Error::BufferTooSmall,
            },
    {
        match &self.buffer {
            Some(b) => Ok(b.as_slice()),
            None => Err(Error::BufferTooSmall),
        }
    }

    /// Whether a scratch buffer was supplied.
    pub fn has_buffer(&self) -> (r: bool)
        ensures
            r == (self.buffer is Some),
    {
        match &self.buffer {
            Some(_) => true,
            None => false,
        }
    }

    /// Read `len` bytes, borrowed from the source when it can borrow, else
    /// copied into the scratch buffer. Without a buffer such a read fails
    /// with [`Error::BufferTooSmall`] before consuming anything.
    pub fn read_bytes<'s>(&'s mut self, len: usize) -> (r: Result<&'s [u8], Error>) where 'de: 's
        ensures
            final(self).input.can_borrow() == old(self).input.can_borrow(),
            (final(self).buffer is Some) == (old(self).buffer is Some),
            old(self).buffer matches Some(b0) ==> final(self).buffer matches Some(b1)
                && b1.buf_capacity() == b0.buf_capacity(),
            !old(self).input.can_borrow() && (old(self).buffer matches Some(b) && b.buf_capacity()
                >= len) && old(self).input.bytes().len() >= len ==> r is Ok,
            r matches Ok(s) ==> {
                &&& old(self).input.bytes().len() >= len
                &&& s@ == old(self).input.bytes().take(len as int)
                &&& consumed(old(self).input, final(self).input, len as nat)
            },
            old(self).input.can_borrow() ==> {
                &&& (r is Ok <==> old(self).input.bytes().len() >= len)
                &&& r is Err ==> r->Err_0 == old(self).input.fail_err(0, len as nat) && unmoved(
                    old(self).input,
                    final(self).input,
                )
            },
            !old(self).input.can_borrow() && old(self).buffer is None ==> r == Err::<
                &'s [u8],
                Error,
            >(Error::BufferTooSmall) && unmoved(old(self).input, final(self).input),
            !old(self).input.can_borrow() && old(self).buffer is Some && old(
                self,
            ).input.bytes().len() < len && r is Err ==> r->Err_0 == old(self).input.fail_err(
                0,
                len as nat,
            ) && unmoved(old(self).input, final(self).input),
    {
        match self.input.read_borrowed(len) {
            Ok(Some(s)) => {
                self.reset_buffer();
                Ok(s)
            },
            Ok(None) => {
                if !self.has_buffer() {
                    return Err(Error::BufferTooSmall);
                }
                self.reset_buffer();
                let data = match self.input.read_fixed(len) {
                    Ok(v) => v,
                    Err(e) => {
                        return Err(e);
                    },
                };
                match &mut self.buffer {
                    Some(b) => {
                        match b.extend_from_slice(data.as_slice()) {
                            Ok(()) => {},
                            Err(e) => {
                                return Err(e);
                            },
                        }
                        proof {
                            assert(b.buf() =~= data@);
                        }
                        Ok(b.as_slice())
                    },
                    None => Err(Error::BufferTooSmall),
                }
            },
            Err(e) => Err(e),
        }
    }

    /// Peek the type tag at the front without consuming it.
    pub fn peek_type(&mut self) -> (r: Result<Type, Error>)
        ensures
            final(self).input.can_borrow() == old(self).input.can_borrow(),
            final(self).buffer == old(self).buffer,
            unmoved(old(self).input, final(self).input),
            match r {
                Ok(t) => tag_at(old(self).input.bytes()) == Some(t),
                Err(e) => tag_at(old(self).input.bytes()) is None && peek_fail(
                    old(self).input,
                    e,
                ),
            },
    {
        let b = match self.input.peek_byte() {
            Ok(b) => b,
            Err(e) => {
                return Err(e);
            },
        };
        Type::try_from_byte(b)
    }

    /// Consume the single tag byte that a peek has already classified.
    pub fn consume_tag(&mut self) -> (r: Result<u8, Error>)
        requires
            old(self).input.bytes().len() >= 1,
        ensures
            final(self).input.can_borrow() == old(self).input.can_borrow(),
            final(self).buffer == old(self).buffer,
            r is Ok,
            consumed(old(self).input, final(self).input, 1),
    {
        match self.input.read_byte() {
            Ok(b) => Ok(b),
            Err(e) => Err(e),
        }
    }

    /// Read the null item, the only encoding of the unit value.
    pub fn read_unit(&mut self) -> (r: Result<(), Error>)
        ensures
            final(self).input.can_borrow() == old(self).input.can_borrow(),
            final(self).buffer == old(self).buffer,
            match tag_at(old(self).input.bytes()) {
                Some(Type::Null) => r is Ok && consumed(old(self).input, final(self).input, 1),
                Some(t) => r == Err::<(), Error>(Error::WrongType(t, Expected::Null)) && unmoved(
                    old(self).input,
                    final(self).input,
                ),
                None => r is Err && peek_fail(old(self).input, r->Err_0) && unmoved(
                    old(self).input,
                    final(self).input,
                ),
            },
    {
        let t = match self.peek_type() {
            Ok(t) => t,
            Err(e) => {
                return Err(e);
            },
        };
        match t {
            Type::Null => {
                let _ = self.consume_tag();
                Ok(())
            },
            _ => Err(Error::WrongType(t, Expected::Null)),
        }
    }

    /// Read a boolean item. Null stands for "absent"; a bare integer item is
    /// accepted too and handed back at pointer width, as the boolean-integer
    /// compatibility rule asks.
    pub fn read_bool(&mut self) -> (r: Result<ScalarRead, Error>)
        ensures
            final(self).input.can_borrow() == old(self).input.can_borrow(),
            final(self).buffer == old(self).buffer,
            match tag_at(old(self).input.bytes()) {
                Some(Type::Null) => r == Ok::<ScalarRead, Error>(ScalarRead::Null) && consumed(
                    old(self).input,
                    final(self).input,
                    1,
                ),
                Some(Type::BooleanFalse) => r == Ok::<ScalarRead, Error>(
                    ScalarRead::Bool(false),
                ) && consumed(old(self).input, final(self).input, 1),
                Some(Type::BooleanTrue) => r == Ok::<ScalarRead, Error>(ScalarRead::Bool(true))
                    && consumed(old(self).input, final(self).input, 1),
                Some(Type::UnsignedInt) => unsigned_item_ensures(
                    old(self).input,
                    final(self).input,
                    usize::BITS as nat,
                    match r {
                        Ok(ScalarRead::Unsigned(v)) => Ok::<u128, Error>(v),
                        Ok(_) => Ok::<u128, Error>(0),
                        Err(e) => Err::<u128, Error>(e),
                    },
                ) && (r is Ok ==> r->Ok_0 is Unsigned),
                Some(Type::SignedInt) => signed_item_ensures(
                    old(self).input,
                    final(self).input,
                    usize::BITS as nat,
                    match r {
                        Ok(ScalarRead::Signed(v)) => Ok::<i128, Error>(v),
                        Ok(_) => Ok::<i128, Error>(0),
                        Err(e) => Err::<i128, Error>(e),
                    },
                ) && (r is Ok ==> r->Ok_0 is Signed),
                Some(t) => r == Err::<ScalarRead, Error>(
                    Error::WrongType(t, Expected::Boolean),
                ) && unmoved(old(self).input, final(self).input),
                None => r is Err && peek_fail(old(self).input, r->Err_0) && unmoved(
                    old(self).input,
                    final(self).input,
                ),
            },
    {
        let t = match self.peek_type() {
            Ok(t) => t,
            Err(e) => {
                return Err(e);
            },
        };
        match t {
            Type::Null => {
                let _ = self.consume_tag();
                Ok(ScalarRead::Null)
            },
            Type::BooleanFalse => {
                let _ = self.consume_tag();
                Ok(ScalarRead::Bool(false))
            },
            Type::BooleanTrue => {
                let _ = self.consume_tag();
                Ok(ScalarRead::Bool(true))
            },
            Type::UnsignedInt => {
                let _ = self.consume_tag();
                let ghost mid = self.input;
                match decode_varint_usize(&mut self.input) {
                    Ok(v) => {
                        proof {
                            lemma_unsigned_item(
                                old(self).input,
                                mid,
                                self.input,
                                usize::BITS as nat,
                                Ok(v as u128),
                            );
                        }
                        Ok(ScalarRead::Unsigned(v as u128))
                    },
                    Err(e) => {
                        proof {
                            lemma_unsigned_item(
                                old(self).input,
                                mid,
                                self.input,
                                usize::BITS as nat,
                                Err(e),
                            );
                        }
                        Err(e)
                    },
                }
            },
            Type::SignedInt => {
                let _ = self.consume_tag();
                let ghost mid = self.input;
                match decode_varint_isize(&mut self.input) {
                    Ok(v) => {
                        proof {
                            lemma_signed_item(
                                old(self).input,
                                mid,
                                self.input,
                                usize::BITS as nat,
                                Ok(v as i128),
                            );
                        }
                        Ok(ScalarRead::Signed(v as i128))
                    },
                    Err(e) => {
                        proof {
                            lemma_signed_item(
                                old(self).input,
                                mid,
                                self.input,
                                usize::BITS as nat,
                                Err(e),
                            );
                        }
                        Err(e)
                    },
                }
            },
            _ => Err(Error::WrongType(t, Expected::Boolean)),
        }
    }

    /// Read an unsigned integer item at the given width. Null stands for
    /// "absent" and boolean items are accepted as integers.
    pub fn read_uint(&mut self, bits: u32) -> (r: Result<ScalarRead, Error>)
        requires
            1 <= bits <= 128,
        ensures
            final(self).input.can_borrow() == old(self).input.can_borrow(),
            final(self).buffer == old(self).buffer,
            match tag_at(old(self).input.bytes()) {
                Some(Type::Null) => r == Ok::<ScalarRead, Error>(ScalarRead::Null) && consumed(
                    old(self).input,
                    final(self).input,
                    1,
                ),
                Some(Type::BooleanFalse) => r == Ok::<ScalarRead, Error>(
                    ScalarRead::Bool(false),
                ) && consumed(old(self).input, final(self).input, 1),
                Some(Type::BooleanTrue) => r == Ok::<ScalarRead, Error>(ScalarRead::Bool(true))
                    && consumed(old(self).input, final(self).input, 1),
                Some(Type::UnsignedInt) => unsigned_item_ensures(
                    old(self).input,
                    final(self).input,
                    bits as nat,
                    match r {
                        Ok(ScalarRead::Unsigned(v)) => Ok::<u128, Error>(v),
                        Ok(_) => Ok::<u128, Error>(0),
                        Err(e) => Err::<u128, Error>(e),
                    },
                ) && (r is Ok ==> r->Ok_0 is Unsigned),
                Some(t) => r == Err::<ScalarRead, Error>(
                    Error::WrongType(t, Expected::UnsignedInt),
                ) && unmoved(old(self).input, final(self).input),
                None => r is Err && peek_fail(old(self).input, r->Err_0) && unmoved(
                    old(self).input,
                    final(self).input,
                ),
            },
    {
        let t = match self.peek_type() {
            Ok(t) => t,
            Err(e) => {
                return Err(e);
            },
        };
        match t {
            Type::Null => {
                let _ = self.consume_tag();
                Ok(ScalarRead::Null)
            },
            Type::BooleanFalse => {
                let _ = self.consume_tag();
                Ok(ScalarRead::Bool(false))
            },
            Type::BooleanTrue => {
                let _ = self.consume_tag();
                Ok(ScalarRead::Bool(true))
            },
            Type::UnsignedInt => {
                let _ = self.consume_tag();
                let ghost mid = self.input;
                match decode_varint(&mut self.input, bits) {
                    Ok(v) => {
                        proof {
                            lemma_unsigned_item(old(self).input, mid, self.input, bits as nat, Ok(v));
                        }
                        Ok(ScalarRead::Unsigned(v))
                    },
                    Err(e) => {
                        proof {
                            lemma_unsigned_item(old(self).input, mid, self.input, bits as nat, Err(e));
                        }
                        Err(e)
                    },
                }
            },
            _ => Err(Error::WrongType(t, Expected::UnsignedInt)),
        }
    }

    /// Read a signed integer item at the given width. Null stands for
    /// "absent"; booleans are not accepted here.
    pub fn read_int(&mut self, bits: u32) -> (r: Result<ScalarRead, Error>)
        requires
            1 <= bits <= 128,
        ensures
            final(self).input.can_borrow() == old(self).input.can_borrow(),
            final(self).buffer == old(self).buffer,
            match tag_at(old(self).input.bytes()) {
                Some(Type::Null) => r == Ok::<ScalarRead, Error>(ScalarRead::Null) && consumed(
                    old(self).input,
                    final(self).input,
                    1,
                ),
                Some(Type::SignedInt) => signed_item_ensures(
                    old(self).input,
                    final(self).input,
                    bits as nat,
                    match r {
                        Ok(ScalarRead::Signed(v)) => Ok::<i128, Error>(v),
                        Ok(_) => Ok::<i128, Error>(0),
                        Err(e) => Err::<i128, Error>(e),
                    },
                ) && (r is Ok ==> r->Ok_0 is Signed),
                Some(t) => r == Err::<ScalarRead, Error>(
                    Error::WrongType(t, Expected::SignedInt),
                ) && unmoved(old(self).input, final(self).input),
                None => r is Err && peek_fail(old(self).input, r->Err_0) && unmoved(
                    old(self).input,
                    final(self).input,
                ),
            },
    {
        let t = match self.peek_type() {
            Ok(t) => t,
            Err(e) => {
                return Err(e);
            },
        };
        match t {
            Type::Null => {
                let _ = self.consume_tag();
                Ok(ScalarRead::Null)
            },
            Type::SignedInt => {
                let _ = self.consume_tag();
                let ghost mid = self.input;
                match decode_varint(&mut self.input, bits) {
                    Ok(u) => {
                        proof {
                            lemma_varint_parse_bound(
                                old(self).input.bytes().drop_first(),
                                bits as nat,
                                spec_varint_max(bits as nat),
                            );
                            crate::varint::lemma_zigzag_bounds(u as nat, bits as nat);
                            vstd::arithmetic::power2::lemma2_to64();
                            assert(vstd::arithmetic::power2::pow2(128)
                                == vstd::arithmetic::power2::pow2(64)
                                * vstd::arithmetic::power2::pow2(64)) by {
                                vstd::arithmetic::power2::lemma_pow2_adds(64, 64);
                            }
                            assert(vstd::arithmetic::power2::pow2(127)
                                == vstd::arithmetic::power2::pow2(64)
                                * vstd::arithmetic::power2::pow2(63)) by {
                                vstd::arithmetic::power2::lemma_pow2_adds(64, 63);
                            }
                            if (bits as nat) < 128 {
                                vstd::arithmetic::power2::lemma_pow2_strictly_increases(
                                    (bits - 1) as nat,
                                    127,
                                );
                            }
                        }
                        let sv: i128 = zigzag_decode(u);
                        proof {
                            lemma_signed_item(old(self).input, mid, self.input, bits as nat, Ok(sv));
                        }
                        Ok(ScalarRead::Signed(sv))
                    },
                    Err(e) => {
                        proof {
                            lemma_signed_item(old(self).input, mid, self.input, bits as nat, Err(e));
                        }
                        Err(e)
                    },
                }
            },
            _ => Err(Error::WrongType(t, Expected::SignedInt)),
        }
    }

    /// Read a float item: 32- or 64-bit, little endian, as its bit pattern.
    /// Null stands for "absent". The 16- and 128-bit float tags are refused,
    /// as no supported representation holds them.
    pub fn read_float(&mut self) -> (r: Result<FloatRead, Error>)
        ensures
            final(self).input.can_borrow() == old(self).input.can_borrow(),
            final(self).buffer == old(self).buffer,
            match tag_at(old(self).input.bytes()) {
                Some(Type::Null) => r == Ok::<FloatRead, Error>(FloatRead::Null) && consumed(
                    old(self).input,
                    final(self).input,
                    1,
                ),
                Some(Type::Float32) => {
                    if old(self).input.bytes().len() >= 5 {
                        &&& r is Ok
                        &&& r->Ok_0 matches FloatRead::F32(bits) && crate::ser::le4(bits) == old(
                            self,
                        ).input.bytes().subrange(1, 5)
                        &&& consumed(old(self).input, final(self).input, 5)
                    } else {
                        r == Err::<FloatRead, Error>(old(self).input.fail_err(1, 4))
                    }
                },
                Some(Type::Float64) => {
                    if old(self).input.bytes().len() >= 9 {
                        &&& r is Ok
                        &&& r->Ok_0 matches FloatRead::F64(bits) && crate::ser::le8(bits) == old(
                            self,
                        ).input.bytes().subrange(1, 9)
                        &&& consumed(old(self).input, final(self).input, 9)
                    } else {
                        r == Err::<FloatRead, Error>(old(self).input.fail_err(1, 8))
                    }
                },
                Some(t) => r == Err::<FloatRead, Error>(Error::WrongType(t, Expected::Float))
                    && unmoved(old(self).input, final(self).input),
                None => r is Err && peek_fail(old(self).input, r->Err_0) && unmoved(
                    old(self).input,
                    final(self).input,
                ),
            },
    {
        let t = match self.peek_type() {
            Ok(t) => t,
            Err(e) => {
                return Err(e);
            },
        };
        match t {
            Type::Null => {
                let _ = self.consume_tag();
                Ok(FloatRead::Null)
            },
            Type::Float32 => {
                let _ = self.consume_tag();
                let ghost mid = self.input;
                match read_u32_le(&mut self.input) {
                    Ok(bits) => {
                        proof {
                            assert(crate::ser::le4(bits) =~= old(self).input.bytes().subrange(
                                1,
                                5,
                            ));
                            assert(self.input.bytes() =~= old(self).input.bytes().skip(5));
                        }
                        Ok(FloatRead::F32(bits))
                    },
                    Err(e) => Err(e),
                }
            },
            Type::Float64 => {
                let _ = self.consume_tag();
                let ghost mid = self.input;
                match read_u64_le(&mut self.input) {
                    Ok(bits) => {
                        proof {
                            assert(crate::ser::le8(bits) =~= old(self).input.bytes().subrange(
                                1,
                                9,
                            ));
                            assert(self.input.bytes() =~= old(self).input.bytes().skip(9));
                        }
                        Ok(FloatRead::F64(bits))
                    },
                    Err(e) => Err(e),
                }
            },
            _ => Err(Error::WrongType(t, Expected::Float)),
        }
    }
}

/// Read four little-endian bytes as a 32-bit value.
fn read_u32_le<'de, I: Input<'de>>(input: &mut I) -> (r: Result<u32, Error>)
    ensures
        final(input).can_borrow() == old(input).can_borrow(),
        r is Ok <==> old(input).bytes().len() >= 4,
        r is Ok ==> crate::ser::le4(r->Ok_0) == old(input).bytes().take(4) && consumed(
            *old(input),
            *final(input),
            4,
        ),
        r is Err ==> r->Err_0 == old(input).fail_err(0, 4) && unmoved(*old(input), *final(input)),
{
    match input.read_fixed(4) {
        Ok(bs) => {
            let b0 = *bs.get(0).unwrap();
            let b1 = *bs.get(1).unwrap();
            let b2 = *bs.get(2).unwrap();
            let b3 = *bs.get(3).unwrap();
            let bits: u32 = (b0 as u32) + (b1 as u32) * 256 + (b2 as u32) * 65536 + (b3 as u32)
                * 16777216;
            proof {
                assert(bits % 256 == b0);
                assert((bits / 256) % 256 == b1);
                assert((bits / 65536) % 256 == b2);
                assert((bits / 16777216) % 256 == b3);
                assert(crate::ser::le4(bits) =~= old(input).bytes().take(4));
            }
            Ok(bits)
        },
        Err(e) => Err(e),
    }
}

/// Read eight little-endian bytes as a 64-bit value.
#[verifier::rlimit(50)]
fn read_u64_le<'de, I: Input<'de>>(input: &mut I) -> (r: Result<u64, Error>)
    ensures
        final(input).can_borrow() == old(input).can_borrow(),
        r is Ok <==> old(input).bytes().len() >= 8,
        r is Ok ==> crate::ser::le8(r->Ok_0) == old(input).bytes().take(8) && consumed(
            *old(input),
            *final(input),
            8,
        ),
        r is Err ==> r->Err_0 == old(input).fail_err(0, 8) && unmoved(*old(input), *final(input)),
{
    match input.read_fixed(8) {
        Ok(bs) => {
            let b0 = *bs.get(0).unwrap();
            let b1 = *bs.get(1).unwrap();
            let b2 = *bs.get(2).unwrap();
            let b3 = *bs.get(3).unwrap();
            let b4 = *bs.get(4).unwrap();
            let b5 = *bs.get(5).unwrap();
            let b6 = *bs.get(6).unwrap();
            let b7 = *bs.get(7).unwrap();
            let bits: u64 = (b0 as u64) + (b1 as u64) * 256 + (b2 as u64) * 0x10000 + (b3 as u64)
                * 0x100_0000 + (b4 as u64) * 0x1_0000_0000 + (b5 as u64) * 0x100_0000_0000 + (
            b6 as u64) * 0x1_0000_0000_0000 + (b7 as u64) * 0x100_0000_0000_0000;
            proof {
                assert(bits % 256 == b0 && (bits / 256) % 256 == b1 && (bits / 0x10000) % 256
                    == b2 && (bits / 0x100_0000) % 256 == b3 && (bits / 0x1_0000_0000) % 256 == b4
                    && (bits / 0x100_0000_0000) % 256 == b5 && (bits / 0x1_0000_0000_0000) % 256
                    == b6 && (bits / 0x100_0000_0000_0000) % 256 == b7) by (bit_vector)
                    requires
                        bits == (b0 as u64) + (b1 as u64) * 256 + (b2 as u64) * 0x10000 + (
                        b3 as u64) * 0x100_0000 + (b4 as u64) * 0x1_0000_0000 + (b5 as u64)
                            * 0x100_0000_0000 + (b6 as u64) * 0x1_0000_0000_0000 + (b7 as u64)
                            * 0x100_0000_0000_0000;
                assert(crate::ser::le8(bits) =~= old(input).bytes().take(8));
            }
            Ok(bits)
        },
        Err(e) => Err(e),
    }
}

} // verus!
