//! Decoding a value tree from wire bytes.
//!
//! [`value_parse`] is the mathematical parser: it says, for any byte
//! stream, which value shape its front holds, how many bytes it spans, and
//! which error a malformed front carries. [`Deserializer::decode_value`]
//! follows it exactly, borrowing string and byte payloads whenever the
//! source can hand out slices of the original input.

use vstd::prelude::*;
use vstd::utf8::valid_utf8;
use vstd::arithmetic::power2::pow2;
use vstd::arithmetic::power2::lemma2_to64;
use vstd::arithmetic::power2::lemma_pow2_adds;
use vstd::string::StringSliceAdditionalSpecFns;

use crate::buffer::Buffer;
use crate::de::Deserializer;
use crate::de::ScalarRead;
use crate::de::FloatRead;
use crate::de::consumed;
use crate::de::tag_at;
use crate::de::peek_fail;
use crate::de::unmoved;
use crate::error::Error;
use crate::error::Expected;
use crate::format::Type;
use crate::format::spec_varint_max;
use crate::io::Input;
use crate::value::Value;
use crate::value::ValueModel;
use crate::value::Integer;
use crate::value::Float;
use crate::value::ByteBuf;
use crate::value::StrBuf;
use crate::value::view_list;
use crate::value::view_pairs;
use crate::value::encode::value_enc;
use crate::value::encode::value_enc_list;
use crate::value::encode::value_enc_pairs;
use crate::value::all_borrowed;
use crate::value::all_owned;
use crate::value::all_borrowed_pairs;
use crate::value::all_owned_pairs;
use crate::varint::VarIntOutcome;
use crate::varint::varint_parse;
use crate::varint::unzigzag;

verus! {

broadcast use vstd::seq_lib::lemma_seq_skip_of_skip;

/// What parsing one value from the front of a stream yields.
pub enum ValueParse {
    /// A value shape, spanning the first `used` bytes.
    Found { v: ValueModel, used: nat },
    /// The front is malformed; decoding reports exactly this error.
    Bad { e: Error },
    /// A read of `want` more bytes, issued after consuming `at` bytes,
    /// cannot be served; decoding reports the source's error for it.
    Incomplete { at: nat, want: nat },
}

/// What parsing sequence elements up to the closing tag yields.
pub enum ListParse {
    /// The element shapes, spanning `used` bytes including the end tag.
    Found { vs: Seq<ValueModel>, used: nat },
    /// An element is malformed.
    Bad { e: Error },
    /// The stream ended early.
    Incomplete { at: nat, want: nat },
}

/// What parsing map entries up to the closing tag yields.
pub enum PairsParse {
    /// The entry shapes, spanning `used` bytes including the end tag.
    Found { ps: Seq<(ValueModel, ValueModel)>, used: nat },
    /// An entry is malformed.
    Bad { e: Error },
    /// The stream ended early.
    Incomplete { at: nat, want: nat },
}

/// The 32-bit value held by four little-endian bytes.
pub open spec fn le4_inv(s: Seq<u8>) -> u32 {
    (s[0] + s[1] * 256 + s[2] * 65536 + s[3] * 16777216) as u32
}

/// The 64-bit value held by eight little-endian bytes.
pub open spec fn le8_inv(s: Seq<u8>) -> u64 {
    (s[0] + s[1] * 256 + s[2] * 0x10000 + s[3] * 0x100_0000 + s[4] * 0x1_0000_0000 + s[5]
        * 0x100_0000_0000 + s[6] * 0x1_0000_0000_0000 + s[7] * 0x100_0000_0000_0000) as u64
}

/// Parse one value from the front of `s`.
pub open spec fn value_parse(s: Seq<u8>) -> ValueParse
    decreases s.len(), 0nat,
{
    if s.len() == 0 {
        ValueParse::Incomplete { at: 0, want: 1 }
    } else {
        match Type::spec_from_byte(s[0]) {
            None => ValueParse::Bad { e: Error::InvalidType(s[0]) },
            Some(Type::Null) => ValueParse::Found { v: ValueModel::Null, used: 1 },
            Some(Type::BooleanFalse) => ValueParse::Found { v: ValueModel::Bool(false), used: 1 },
            Some(Type::BooleanTrue) => ValueParse::Found { v: ValueModel::Bool(true), used: 1 },
            Some(Type::UnsignedInt) => match varint_parse(
                s.drop_first(),
                128,
                spec_varint_max(128),
            ) {
                VarIntOutcome::Value { value, used } => ValueParse::Found {
                    v: ValueModel::Unsigned(value as u128),
                    used: 1 + used,
                },
                VarIntOutcome::TooLarge => ValueParse::Bad { e: Error::VarIntTooLarge },
                VarIntOutcome::Incomplete => ValueParse::Incomplete { at: s.len(), want: 1 },
            },
            Some(Type::SignedInt) => match varint_parse(
                s.drop_first(),
                128,
                spec_varint_max(128),
            ) {
                VarIntOutcome::Value { value, used } => ValueParse::Found {
                    v: ValueModel::Signed(unzigzag(value) as i128),
                    used: 1 + used,
                },
                VarIntOutcome::TooLarge => ValueParse::Bad { e: Error::VarIntTooLarge },
                VarIntOutcome::Incomplete => ValueParse::Incomplete { at: s.len(), want: 1 },
            },
            Some(Type::Float16) => ValueParse::Bad {
                e: Error::WrongType(Type::Float16, Expected::Float),
            },
            Some(Type::Float32) => if s.len() >= 5 {
                ValueParse::Found { v: ValueModel::F32(le4_inv(s.subrange(1, 5))), used: 5 }
            } else {
                ValueParse::Incomplete { at: 1, want: 4 }
            },
            Some(Type::Float64) => if s.len() >= 9 {
                ValueParse::Found { v: ValueModel::F64(le8_inv(s.subrange(1, 9))), used: 9 }
            } else {
                ValueParse::Incomplete { at: 1, want: 8 }
            },
            Some(Type::Float128) => ValueParse::Bad {
                e: Error::WrongType(Type::Float128, Expected::Float),
            },
            Some(Type::Bytes) => match varint_parse(
                s.drop_first(),
                usize::BITS as nat,
                spec_varint_max(usize::BITS as nat),
            ) {
                VarIntOutcome::Value { value, used } => if s.len() >= 1 + used + value {
                    ValueParse::Found {
                        v: ValueModel::Bytes(
                            s.subrange(1 + used as int, 1 + used as int + value as int),
                        ),
                        used: 1 + used + value,
                    }
                } else {
                    ValueParse::Incomplete { at: 1 + used, want: value }
                },
                VarIntOutcome::TooLarge => ValueParse::Bad { e: Error::VarIntTooLarge },
                VarIntOutcome::Incomplete => ValueParse::Incomplete { at: s.len(), want: 1 },
            },
            Some(Type::String) => match varint_parse(
                s.drop_first(),
                usize::BITS as nat,
                spec_varint_max(usize::BITS as nat),
            ) {
                VarIntOutcome::Value { value, used } => if s.len() >= 1 + used + value {
                    if valid_utf8(s.subrange(1 + used as int, 1 + used as int + value as int)) {
                        ValueParse::Found {
                            v: ValueModel::Text(
                                s.subrange(1 + used as int, 1 + used as int + value as int),
                            ),
                            used: 1 + used + value,
                        }
                    } else {
                        ValueParse::Bad { e: Error::StringNotUtf8 }
                    }
                } else {
                    ValueParse::Incomplete { at: 1 + used, want: value }
                },
                VarIntOutcome::TooLarge => ValueParse::Bad { e: Error::VarIntTooLarge },
                VarIntOutcome::Incomplete => ValueParse::Incomplete { at: s.len(), want: 1 },
            },
            Some(Type::SeqStart) => match list_parse(s.drop_first()) {
                ListParse::Found { vs, used } => ValueParse::Found {
                    v: ValueModel::Array(vs),
                    used: 1 + used,
                },
                ListParse::Bad { e } => ValueParse::Bad { e },
                ListParse::Incomplete { at, want } => ValueParse::Incomplete {
                    at: 1 + at,
                    want,
                },
            },
            Some(Type::SeqEnd) => ValueParse::Bad {
                e: Error::WrongType(Type::SeqEnd, Expected::AnyValue),
            },
            Some(Type::MapStart) => match pairs_parse(s.drop_first()) {
                PairsParse::Found { ps, used } => ValueParse::Found {
                    v: ValueModel::Mapping(ps),
                    used: 1 + used,
                },
                PairsParse::Bad { e } => ValueParse::Bad { e },
                PairsParse::Incomplete { at, want } => ValueParse::Incomplete {
                    at: 1 + at,
                    want,
                },
            },
            Some(Type::MapEnd) => ValueParse::Bad {
                e: Error::WrongType(Type::MapEnd, Expected::AnyValue),
            },
        }
    }
}

/// Parse sequence elements from the front of `s` until a sequence end tag.
pub open spec fn list_parse(s: Seq<u8>) -> ListParse
    decreases s.len(), 2nat,
{
    if s.len() == 0 {
        ListParse::Incomplete { at: 0, want: 1 }
    } else if s[0] == 16 {
        ListParse::Found { vs: Seq::empty(), used: 1 }
    } else {
        match value_parse(s) {
            ValueParse::Found { v, used } => if 1 <= used <= s.len() {
                match list_parse(s.skip(used as int)) {
                    ListParse::Found { vs, used: u2 } => ListParse::Found {
                        vs: seq![v] + vs,
                        used: used + u2,
                    },
                    ListParse::Bad { e } => ListParse::Bad { e },
                    ListParse::Incomplete { at, want } => ListParse::Incomplete {
                        at: used + at,
                        want,
                    },
                }
            } else {
                // Never reached: a parsed value spans between one byte and
                // the whole stream.
                ListParse::Bad { e: Error::Custom }
            },
            ValueParse::Bad { e } => ListParse::Bad { e },
            ValueParse::Incomplete { at, want } => ListParse::Incomplete { at, want },
        }
    }
}

/// Parse map entries from the front of `s` until a map end tag.
pub open spec fn pairs_parse(s: Seq<u8>) -> PairsParse
    decreases s.len(), 2nat,
{
    if s.len() == 0 {
        PairsParse::Incomplete { at: 0, want: 1 }
    } else if s[0] == 18 {
        PairsParse::Found { ps: Seq::empty(), used: 1 }
    } else {
        match value_parse(s) {
            ValueParse::Found { v: k, used: uk } => if 1 <= uk <= s.len() {
                match value_parse(s.skip(uk as int)) {
                    ValueParse::Found { v, used: uv } => if 1 <= uv <= s.len() - uk {
                        match pairs_parse(s.skip(uk as int + uv as int)) {
                            PairsParse::Found { ps, used: u2 } => PairsParse::Found {
                                ps: seq![(k, v)] + ps,
                                used: uk + uv + u2,
                            },
                            PairsParse::Bad { e } => PairsParse::Bad { e },
                            PairsParse::Incomplete { at, want } => PairsParse::Incomplete {
                                at: uk + uv + at,
                                want,
                            },
                        }
                    } else {
                        PairsParse::Bad { e: Error::Custom }
                    },
                    ValueParse::Bad { e } => PairsParse::Bad { e },
                    ValueParse::Incomplete { at, want } => PairsParse::Incomplete {
                        at: uk + at,
                        want,
                    },
                }
            } else {
                PairsParse::Bad { e: Error::Custom }
            },
            ValueParse::Bad { e } => PairsParse::Bad { e },
            ValueParse::Incomplete { at, want } => PairsParse::Incomplete { at, want },
        }
    }
}

/// A parsed value spans at least one byte and at most the whole stream.
pub proof fn lemma_parse_used_value(s: Seq<u8>)
    ensures
        value_parse(s) matches ValueParse::Found { v, used } ==> 1 <= used <= s.len(),
    decreases s.len(), 1nat,
{
    if s.len() == 0 {
        return ;
    }
    match Type::spec_from_byte(s[0]) {
        Some(Type::UnsignedInt) | Some(Type::SignedInt) => {
            crate::varint::lemma_varint_parse_bound(s.drop_first(), 128, spec_varint_max(128));
        },
        Some(Type::Bytes) | Some(Type::String) => {
            crate::varint::lemma_varint_parse_bound(
                s.drop_first(),
                usize::BITS as nat,
                spec_varint_max(usize::BITS as nat),
            );
        },
        Some(Type::SeqStart) => {
            lemma_parse_used_list(s.drop_first());
        },
        Some(Type::MapStart) => {
            lemma_parse_used_pairs(s.drop_first());
        },
        _ => {},
    }
}

/// An element run spans at least the end tag and at most the whole stream.
pub proof fn lemma_parse_used_list(s: Seq<u8>)
    ensures
        list_parse(s) matches ListParse::Found { vs, used } ==> 1 <= used <= s.len(),
    decreases s.len(), 3nat,
{
    if s.len() == 0 || s[0] == 16 {
        return ;
    }
    lemma_parse_used_value(s);
    match value_parse(s) {
        ValueParse::Found { v, used } => {
            if 1 <= used <= s.len() {
                lemma_parse_used_list(s.skip(used as int));
            }
        },
        _ => {},
    }
}

/// An entry run spans at least the end tag and at most the whole stream.
pub proof fn lemma_parse_used_pairs(s: Seq<u8>)
    ensures
        pairs_parse(s) matches PairsParse::Found { ps, used } ==> 1 <= used <= s.len(),
    decreases s.len(), 3nat,
{
    if s.len() == 0 || s[0] == 18 {
        return ;
    }
    lemma_parse_used_value(s);
    match value_parse(s) {
        ValueParse::Found { v: k, used: uk } => {
            if 1 <= uk <= s.len() {
                lemma_parse_used_value(s.skip(uk as int));
                match value_parse(s.skip(uk as int)) {
                    ValueParse::Found { v, used: uv } => {
                        if 1 <= uv <= s.len() - uk {
                            lemma_parse_used_pairs(s.skip(uk as int + uv as int));
                        }
                    },
                    _ => {},
                }
            }
        },
        _ => {},
    }
}

/// Whether copying reads can be served: the source borrows, or a scratch
/// buffer with room for any read within the remaining input is present.
pub open spec fn scratch_ok<'de, I: Input<'de>, B: Buffer>(d: Deserializer<I, B>) -> bool {
    d.input.can_borrow() || (d.buffer matches Some(b) && b.buf_capacity()
        >= d.input.bytes().len())
}


/// The parts of a decoder state that decoding never changes: whether the
/// source borrows, and the scratch buffer's presence and capacity.
pub open spec fn meta_kept<'de, I: Input<'de>, B: Buffer>(
    pre: Deserializer<I, B>,
    post: Deserializer<I, B>,
) -> bool {
    &&& post.input.can_borrow() == pre.input.can_borrow()
    &&& (post.buffer is Some) == (pre.buffer is Some)
    &&& (pre.buffer matches Some(b0) ==> post.buffer matches Some(b1) && b1.buf_capacity()
        == b0.buf_capacity())
}

/// Splice one parsed prefix into an element run: what the run looks like
/// from `c` bytes further left, with the shapes in `vs0` already taken.
pub open spec fn list_combine(vs0: Seq<ValueModel>, c: nat, o: ListParse) -> ListParse {
    match o {
        ListParse::Found { vs, used } => ListParse::Found { vs: vs0 + vs, used: c + used },
        ListParse::Bad { e } => ListParse::Bad { e },
        ListParse::Incomplete { at, want } => ListParse::Incomplete { at: c + at, want },
    }
}

/// The entry-run counterpart of [`list_combine`].
pub open spec fn pairs_combine(
    ps0: Seq<(ValueModel, ValueModel)>,
    c: nat,
    o: PairsParse,
) -> PairsParse {
    match o {
        PairsParse::Found { ps, used } => PairsParse::Found { ps: ps0 + ps, used: c + used },
        PairsParse::Bad { e } => PairsParse::Bad { e },
        PairsParse::Incomplete { at, want } => PairsParse::Incomplete { at: c + at, want },
    }
}

/// Four little-endian bytes read back as the value they were written from.
proof fn lemma_le4_inv(x: u32)
    ensures
        le4_inv(crate::ser::le4(x)) == x,
{
    assert(x % 256 + ((x / 256) % 256) * 256 + ((x / 65536) % 256) * 65536 + ((x / 16777216)
        % 256) * 16777216 == x) by (bit_vector);
}

/// Eight little-endian bytes read back as the value they were written from.
proof fn lemma_le8_inv(x: u64)
    ensures
        le8_inv(crate::ser::le8(x)) == x,
{
    assert(x % 256 + ((x / 256) % 256) * 256 + ((x / 0x10000) % 256) * 0x10000 + ((x / 0x100_0000)
        % 256) * 0x100_0000 + ((x / 0x1_0000_0000) % 256) * 0x1_0000_0000 + ((x
        / 0x100_0000_0000) % 256) * 0x100_0000_0000 + ((x / 0x1_0000_0000_0000) % 256)
        * 0x1_0000_0000_0000 + ((x / 0x100_0000_0000_0000) % 256) * 0x100_0000_0000_0000 == x)
        by (bit_vector);
}

/// Relies on `core::str::from_utf8`: it succeeds exactly on valid UTF-8 and
/// the resulting string slice is a view of the same bytes.
#[verifier::external_body]
fn str_from_utf8<'a>(b: &'a [u8]) -> (r: Option<&'a str>)
    ensures
        r is Some <==> valid_utf8(b@),
        r matches Some(s) ==> s.spec_bytes() == b@,
{
    core::str::from_utf8(b).ok()
}

/// Relies on `alloc::string::String::from_utf8`: it succeeds exactly on
/// valid UTF-8 and the resulting string owns the same bytes.
#[verifier::external_body]
fn string_from_utf8(v: Vec<u8>) -> (r: Option<String>)
    ensures
        r is Some <==> valid_utf8(v@),
        r matches Some(s) ==> vstd::utf8::encode_utf8(s@) == v@,
{
    std::string::String::from_utf8(v).ok()
}


/// One parsed element extends the element run: splice it into the combine
/// form and move the split point past it.
proof fn lemma_list_step(s_l: Seq<u8>, vs0: Seq<ValueModel>, c: nat, vm: ValueModel, used: nat)
    requires
        c + used <= s_l.len(),
        s_l.skip(c as int).len() > 0,
        s_l.skip(c as int)[0] != 16,
        value_parse(s_l.skip(c as int)) == (ValueParse::Found { v: vm, used }),
        1 <= used,
        list_parse(s_l) == list_combine(vs0, c, list_parse(s_l.skip(c as int))),
    ensures
        list_parse(s_l) == list_combine(
            vs0.push(vm),
            c + used,
            list_parse(s_l.skip(c as int + used as int)),
        ),
{
    let tcur = s_l.skip(c as int);
    assert(tcur.skip(used as int) =~= s_l.skip(c as int + used as int));
    assert(used <= tcur.len());
    match list_parse(tcur.skip(used as int)) {
        ListParse::Found { vs, used: u2 } => {
            assert(list_parse(tcur) == (ListParse::Found {
                vs: seq![vm] + vs,
                used: (used + u2) as nat,
            }));
            assert(vs0 + (seq![vm] + vs) =~= vs0.push(vm) + vs);
        },
        ListParse::Bad { e } => {
        },
        ListParse::Incomplete { at, want } => {
        },
    }
}

/// One parsed key/value pair extends the entry run.
proof fn lemma_pairs_step(
    s_l: Seq<u8>,
    ps0: Seq<(ValueModel, ValueModel)>,
    c: nat,
    km: ValueModel,
    uk: nat,
    vm: ValueModel,
    uv: nat,
)
    requires
        c + uk + uv <= s_l.len(),
        s_l.skip(c as int).len() > 0,
        s_l.skip(c as int)[0] != 18,
        value_parse(s_l.skip(c as int)) == (ValueParse::Found { v: km, used: uk }),
        value_parse(s_l.skip(c as int + uk as int)) == (ValueParse::Found { v: vm, used: uv }),
        1 <= uk,
        1 <= uv,
        pairs_parse(s_l) == pairs_combine(ps0, c, pairs_parse(s_l.skip(c as int))),
    ensures
        pairs_parse(s_l) == pairs_combine(
            ps0.push((km, vm)),
            c + uk + uv,
            pairs_parse(s_l.skip(c as int + uk as int + uv as int)),
        ),
{
    let tcur = s_l.skip(c as int);
    assert(tcur.skip(uk as int) =~= s_l.skip(c as int + uk as int));
    assert(tcur.skip(uk as int + uv as int) =~= s_l.skip(c as int + uk as int + uv as int));
    assert(uk <= tcur.len());
    assert(uv <= tcur.len() - uk);
    match pairs_parse(tcur.skip(uk as int + uv as int)) {
        PairsParse::Found { ps, used: u2 } => {
            assert(pairs_parse(tcur) == (PairsParse::Found {
                ps: seq![(km, vm)] + ps,
                used: (uk + uv + u2) as nat,
            }));
            assert(ps0 + (seq![(km, vm)] + ps) =~= ps0.push((km, vm)) + ps);
        },
        PairsParse::Bad { e } => {
        },
        PairsParse::Incomplete { at, want } => {
        },
    }
}

/// A decoded field or variant identifier.
#[derive(Debug)]
pub enum IdentifierRead<'de> {
    /// A zero-based index.
    Index(u32),
    /// A name.
    Name(StrBuf<'de>),
}

impl<'de, I: Input<'de>, B: Buffer> Deserializer<I, B> {
    /// Read the payload of a byte-blob item whose tag is at the front:
    /// consume the tag, the length, and the bytes, borrowed when possible.
    #[verifier::loop_isolation(false)]
    pub fn read_bytes_item(&mut self) -> (r: Result<ByteBuf<'de>, Error>)
        requires
            tag_at(old(self).input.bytes()) == Some(Type::Bytes),
        ensures
            meta_kept(*old(self), *final(self)),
            match value_parse(old(self).input.bytes()) {
                ValueParse::Found { v, used } => {
                    &&& (scratch_ok(*old(self)) ==> r is Ok)
                    &&& r matches Ok(res) ==> {
                        &&& ValueModel::Bytes(res.data()) == v
                        &&& consumed(old(self).input, final(self).input, used)
                        &&& res.is_borrowed() == old(self).input.can_borrow()
                    }
                },
                ValueParse::Bad { e } => r is Err && (scratch_ok(*old(self)) ==> r->Err_0 == e),
                ValueParse::Incomplete { at, want } => r is Err && (scratch_ok(*old(self))
                    ==> r->Err_0 == old(self).input.fail_err(at, want)),
            },
    {
        let ghost s0 = old(self).input.bytes();
        let _ = match self.consume_tag() {
            Ok(b) => b,
            Err(e) => {
                return Err(e);
            },
        };
        proof {
            assert(self.input.bytes() =~= s0.drop_first());
        }
        let len = match crate::varint::decode_varint_usize(&mut self.input) {
            Ok(len) => len,
            Err(e) => {
                return Err(e);
            },
        };
        proof {
            crate::varint::lemma_varint_parse_bound(
                s0.drop_first(),
                usize::BITS as nat,
                spec_varint_max(usize::BITS as nat),
            );
        }
        let ghost cur = *self;
        proof {
            match varint_parse(
                s0.drop_first(),
                usize::BITS as nat,
                spec_varint_max(usize::BITS as nat),
            ) {
                VarIntOutcome::Value { value, used } => {
                    assert(cur.input.bytes() =~= s0.skip(1 + used as int));
                },
                _ => {
                    assert(false);
                },
            }
        }
        if self.input.is_borrowing() {
            match self.input.read_borrowed(len) {
                Ok(Some(sl)) => {
                    proof {
                        lemma_payload_subrange(s0, cur.input.bytes(), sl@, len as nat);
                    }
                    Ok(ByteBuf::Borrowed(sl))
                },
                Ok(None) => {
                    proof {
                        assert(false);
                    }
                    Err(Error::Custom)
                },
                Err(e) => Err(e),
            }
        } else {
            match self.read_bytes(len) {
                Ok(data) => {
                    let copy: Vec<u8> = vstd::slice::slice_to_vec(data);
                    proof {
                        lemma_payload_subrange(s0, cur.input.bytes(), copy@, len as nat);
                    }
                    Ok(ByteBuf::Owned(copy))
                },
                Err(e) => Err(e),
            }
        }
    }

    /// Read the payload of a string item whose tag is at the front: as a
    /// byte blob, plus UTF-8 validation.
    #[verifier::loop_isolation(false)]
    pub fn read_string_item(&mut self) -> (r: Result<StrBuf<'de>, Error>)
        requires
            tag_at(old(self).input.bytes()) == Some(Type::String),
        ensures
            meta_kept(*old(self), *final(self)),
            match value_parse(old(self).input.bytes()) {
                ValueParse::Found { v, used } => {
                    &&& (scratch_ok(*old(self)) ==> r is Ok)
                    &&& r matches Ok(res) ==> {
                        &&& ValueModel::Text(res.data()) == v
                        &&& consumed(old(self).input, final(self).input, used)
                        &&& res.is_borrowed() == old(self).input.can_borrow()
                    }
                },
                ValueParse::Bad { e } => r is Err && (scratch_ok(*old(self)) ==> r->Err_0 == e),
                ValueParse::Incomplete { at, want } => r is Err && (scratch_ok(*old(self))
                    ==> r->Err_0 == old(self).input.fail_err(at, want)),
            },
    {
        let ghost s0 = old(self).input.bytes();
        let _ = match self.consume_tag() {
            Ok(b) => b,
            Err(e) => {
                return Err(e);
            },
        };
        proof {
            assert(self.input.bytes() =~= s0.drop_first());
        }
        let len = match crate::varint::decode_varint_usize(&mut self.input) {
            Ok(len) => len,
            Err(e) => {
                return Err(e);
            },
        };
        proof {
            crate::varint::lemma_varint_parse_bound(
                s0.drop_first(),
                usize::BITS as nat,
                spec_varint_max(usize::BITS as nat),
            );
        }
        let ghost cur = *self;
        proof {
            match varint_parse(
                s0.drop_first(),
                usize::BITS as nat,
                spec_varint_max(usize::BITS as nat),
            ) {
                VarIntOutcome::Value { value, used } => {
                    assert(cur.input.bytes() =~= s0.skip(1 + used as int));
                },
                _ => {
                    assert(false);
                },
            }
        }
        if self.input.is_borrowing() {
            match self.input.read_borrowed(len) {
                Ok(Some(sl)) => {
                    proof {
                        lemma_payload_subrange(s0, cur.input.bytes(), sl@, len as nat);
                    }
                    match str_from_utf8(sl) {
                        Some(st) => Ok(StrBuf::Borrowed(st)),
                        None => Err(Error::StringNotUtf8),
                    }
                },
                Ok(None) => {
                    proof {
                        assert(false);
                    }
                    Err(Error::Custom)
                },
                Err(e) => Err(e),
            }
        } else {
            match self.read_bytes(len) {
                Ok(data) => {
                    let copy: Vec<u8> = vstd::slice::slice_to_vec(data);
                    proof {
                        lemma_payload_subrange(s0, cur.input.bytes(), copy@, len as nat);
                    }
                    match string_from_utf8(copy) {
                        Some(st) => Ok(StrBuf::Owned(st)),
                        None => Err(Error::StringNotUtf8),
                    }
                },
                Err(e) => Err(e),
            }
        }
    }

    /// Decode sequence elements up to and including the closing tag; the
    /// opening tag has already been consumed.
    #[verifier::loop_isolation(false)]
    #[verifier::rlimit(100)]
    #[verifier::spinoff_prover]
    pub(crate) fn decode_array_rest(&mut self) -> (r: Result<Vec<Value<'de>>, Error>)
        ensures
            meta_kept(*old(self), *final(self)),
            match list_parse(old(self).input.bytes()) {
                ListParse::Found { vs, used } => {
                    &&& (scratch_ok(*old(self)) ==> r is Ok)
                    &&& r matches Ok(items) ==> {
                        &&& view_list(items@) == vs
                        &&& consumed(old(self).input, final(self).input, used)
                        &&& old(self).input.can_borrow() ==> all_borrowed(items@)
                        &&& !old(self).input.can_borrow() ==> all_owned(items@)
                    }
                },
                ListParse::Bad { e } => r is Err && (scratch_ok(*old(self)) ==> r->Err_0 == e),
                ListParse::Incomplete { at, want } => r is Err && (scratch_ok(*old(self))
                    ==> r->Err_0 == old(self).input.fail_err(at, want)),
            },
        decreases old(self).input.bytes().len(), 1nat,
    {
        let ghost s_l = old(self).input.bytes();
        let mut items: Vec<Value<'de>> = Vec::new();
        let ghost mut c: nat = 0nat;
        proof {
            assert(s_l.skip(0) =~= s_l);
            assert(view_list(items@) =~= Seq::<ValueModel>::empty());
            assert(list_parse(s_l) == list_combine(
                view_list(items@),
                c,
                list_parse(self.input.bytes()),
            )) by {
                match list_parse(s_l) {
                    ListParse::Found { vs, used } => {
                        assert(Seq::<ValueModel>::empty() + vs =~= vs);
                    },
                    _ => {},
                }
            }
        }
        loop
            invariant
                meta_kept(*old(self), *self),
                c <= s_l.len(),
                consumed(old(self).input, self.input, c),
                self.input.bytes() == s_l.skip(c as int),
                list_parse(s_l) == list_combine(view_list(items@), c, list_parse(
                    self.input.bytes(),
                )),
                old(self).input.can_borrow() ==> all_borrowed(items@),
                !old(self).input.can_borrow() ==> all_owned(items@),
            decreases self.input.bytes().len(),
        {
            let ghost tcur = self.input.bytes();
            let t2 = match self.peek_type() {
                Ok(t2) => t2,
                Err(e) => {
                    return Err(e);
                },
            };
            proof {
                crate::format::lemma_type_byte_roundtrip();
                assert(tcur[0] == t2.code());
            }
            match t2 {
                Type::SeqEnd => {
                    let _ = self.consume_tag();
                    proof {
                        assert(list_parse(tcur) == (ListParse::Found {
                            vs: Seq::<ValueModel>::empty(),
                            used: 1nat,
                        }));
                        assert(view_list(items@) + Seq::<ValueModel>::empty() =~= view_list(
                            items@,
                        ));
                    }
                    return Ok(items);
                },
                _ => {},
            }
            match self.decode_value() {
                Ok(v) => {
                    proof {
                        lemma_parse_used_value(tcur);
                        match value_parse(tcur) {
                            ValueParse::Found { v: vm, used } => {
                                lemma_list_step(s_l, view_list(items@), c, vm, used);
                                crate::value::lemma_view_list_snoc(items@, v);
                                crate::value::lemma_all_borrowed_snoc(items@, v);
                                crate::value::lemma_all_owned_snoc(items@, v);
                                assert(view_list(items@).push(vm) =~= view_list(items@.push(v)));
                                assert(self.input.bytes() =~= s_l.skip(c as int + used as int));
                                c = c + used;
                            },
                            _ => {
                                assert(false);
                            },
                        }
                    }
                    items.push(v);
                },
                Err(e) => {
                    return Err(e);
                },
            }
        }
    }

    /// Decode map entries up to and including the closing tag; the opening
    /// tag has already been consumed.
    #[verifier::loop_isolation(false)]
    #[verifier::rlimit(100)]
    #[verifier::spinoff_prover]
    pub(crate) fn decode_map_rest(&mut self) -> (r: Result<Vec<(Value<'de>, Value<'de>)>, Error>)
        ensures
            meta_kept(*old(self), *final(self)),
            match pairs_parse(old(self).input.bytes()) {
                PairsParse::Found { ps, used } => {
                    &&& (scratch_ok(*old(self)) ==> r is Ok)
                    &&& r matches Ok(entries) ==> {
                        &&& view_pairs(entries@) == ps
                        &&& consumed(old(self).input, final(self).input, used)
                        &&& old(self).input.can_borrow() ==> all_borrowed_pairs(entries@)
                        &&& !old(self).input.can_borrow() ==> all_owned_pairs(entries@)
                    }
                },
                PairsParse::Bad { e } => r is Err && (scratch_ok(*old(self)) ==> r->Err_0 == e),
                PairsParse::Incomplete { at, want } => r is Err && (scratch_ok(*old(self))
                    ==> r->Err_0 == old(self).input.fail_err(at, want)),
            },
        decreases old(self).input.bytes().len(), 1nat,
    {
        let ghost s_l = old(self).input.bytes();
        let mut entries: Vec<(Value<'de>, Value<'de>)> = Vec::new();
        let ghost mut c: nat = 0nat;
        proof {
            assert(s_l.skip(0) =~= s_l);
            assert(view_pairs(entries@) =~= Seq::<(ValueModel, ValueModel)>::empty());
            assert(pairs_parse(s_l) == pairs_combine(
                view_pairs(entries@),
                c,
                pairs_parse(self.input.bytes()),
            )) by {
                match pairs_parse(s_l) {
                    PairsParse::Found { ps, used } => {
                        assert(Seq::<(ValueModel, ValueModel)>::empty() + ps =~= ps);
                    },
                    _ => {},
                }
            }
        }
        loop
            invariant
                meta_kept(*old(self), *self),
                c <= s_l.len(),
                consumed(old(self).input, self.input, c),
                self.input.bytes() == s_l.skip(c as int),
                pairs_parse(s_l) == pairs_combine(view_pairs(entries@), c, pairs_parse(
                    self.input.bytes(),
                )),
                old(self).input.can_borrow() ==> all_borrowed_pairs(entries@),
                !old(self).input.can_borrow() ==> all_owned_pairs(entries@),
            decreases self.input.bytes().len(),
        {
            let ghost tcur = self.input.bytes();
            let t2 = match self.peek_type() {
                Ok(t2) => t2,
                Err(e) => {
                    return Err(e);
                },
            };
            proof {
                crate::format::lemma_type_byte_roundtrip();
                assert(tcur[0] == t2.code());
            }
            match t2 {
                Type::MapEnd => {
                    let _ = self.consume_tag();
                    proof {
                        assert(pairs_parse(tcur) == (PairsParse::Found {
                            ps: Seq::<(ValueModel, ValueModel)>::empty(),
                            used: 1nat,
                        }));
                        assert(view_pairs(entries@) + Seq::<(ValueModel, ValueModel)>::empty()
                            =~= view_pairs(entries@));
                    }
                    return Ok(entries);
                },
                _ => {},
            }
            let key = match self.decode_value() {
                Ok(k) => k,
                Err(e) => {
                    return Err(e);
                },
            };
            let ghost uk: nat = match value_parse(tcur) {
                ValueParse::Found { v: vm, used } => used,
                _ => 0nat,
            };
            let ghost tmid = self.input.bytes();
            proof {
                lemma_parse_used_value(tcur);
                assert(value_parse(tcur) is Found);
                assert(tmid =~= tcur.skip(uk as int));
                assert(tmid =~= s_l.skip(c as int + uk as int));
            }
            let val = match self.decode_value() {
                Ok(v) => v,
                Err(e) => {
                    proof {
                        lemma_pairs_err(tcur, uk);
                    }
                    return Err(e);
                },
            };
            proof {
                lemma_parse_used_value(tmid);
                match value_parse(tcur) {
                    ValueParse::Found { v: km, used: uk2 } => {
                        match value_parse(tmid) {
                            ValueParse::Found { v: vm, used: uv } => {
                                lemma_pairs_step(s_l, view_pairs(entries@), c, km, uk, vm, uv);
                                crate::value::lemma_view_pairs_snoc(entries@, key, val);
                                crate::value::lemma_all_borrowed_pairs_snoc(entries@, key, val);
                                crate::value::lemma_all_owned_pairs_snoc(entries@, key, val);
                                assert(view_pairs(entries@).push((km, vm)) =~= view_pairs(
                                    entries@.push((key, val)),
                                ));
                                assert(self.input.bytes() =~= s_l.skip(
                                    c as int + uk as int + uv as int,
                                ));
                                c = c + uk + uv;
                            },
                            _ => {
                                assert(false);
                            },
                        }
                    },
                    _ => {
                        assert(false);
                    },
                }
            }
            entries.push((key, val));
        }
    }

    /// Read a character: a string item holding exactly one UTF-8 codepoint.
    /// Null stands for "absent"; a string of any other character count is
    /// [`Error::NotOneChar`].
    pub fn read_char(&mut self) -> (r: Result<Option<char>, Error>)
        ensures
            meta_kept(*old(self), *final(self)),
            match tag_at(old(self).input.bytes()) {
                Some(Type::Null) => r == Ok::<Option<char>, Error>(None) && consumed(
                    old(self).input,
                    final(self).input,
                    1,
                ),
                Some(Type::String) => match value_parse(old(self).input.bytes()) {
                    ValueParse::Found { v, used } => {
                        &&& v matches ValueModel::Text(b) ==> {
                            let cs = vstd::utf8::decode_utf8(b);
                            if cs.len() == 1 {
                                &&& (scratch_ok(*old(self)) ==> r == Ok::<Option<char>, Error>(
                                    Some(cs[0]),
                                ))
                                &&& r is Ok ==> r->Ok_0 == Some(cs[0]) && consumed(
                                    old(self).input,
                                    final(self).input,
                                    used,
                                )
                            } else {
                                r is Err && (scratch_ok(*old(self)) ==> r->Err_0
                                    == Error::NotOneChar)
                            }
                        }
                    },
                    ValueParse::Bad { e } => r is Err && (scratch_ok(*old(self)) ==> r->Err_0
                        == e),
                    ValueParse::Incomplete { at, want } => r is Err && (scratch_ok(*old(self))
                        ==> r->Err_0 == old(self).input.fail_err(at, want)),
                },
                Some(t) => r == Err::<Option<char>, Error>(
                    Error::WrongType(t, Expected::String),
                ) && unmoved(old(self).input, final(self).input),
                None => r is Err && peek_fail(old(self).input, r->Err_0) && unmoved(
                    old(self).input,
                    final(self).input,
                ),
            },
    {
        broadcast use vstd::string::axiom_spec_iter;
        broadcast use vstd::string::next_postcondition;
        broadcast use vstd::utf8::encode_utf8_decode_utf8;

        let t = match self.peek_type() {
            Ok(t) => t,
            Err(e) => {
                return Err(e);
            },
        };
        match t {
            Type::Null => {
                let _ = self.consume_tag();
                Ok(None)
            },
            Type::String => {
                let st = match self.read_string_item() {
                    Ok(st) => st,
                    Err(e) => {
                        return Err(e);
                    },
                };
                let text = st.as_str();
                proof {
                    assert(vstd::utf8::encode_utf8(text@) == st.data());
                    assert(vstd::utf8::decode_utf8(st.data()) == text@);
                }
                let mut it = text.chars();
                match it.next() {
                    None => Err(Error::NotOneChar),
                    Some(c) => match it.next() {
                        Some(_) => Err(Error::NotOneChar),
                        None => Ok(Some(c)),
                    },
                }
            },
            _ => Err(Error::WrongType(t, Expected::String)),
        }
    }

    /// Read a field or variant identifier: a zero-based index as an
    /// unsigned item, or a name as a string item.
    pub fn read_identifier(&mut self) -> (r: Result<IdentifierRead<'de>, Error>)
        ensures
            meta_kept(*old(self), *final(self)),
            match tag_at(old(self).input.bytes()) {
                Some(Type::UnsignedInt) => crate::de::unsigned_item_ensures(
                    old(self).input,
                    final(self).input,
                    32,
                    match r {
                        Ok(IdentifierRead::Index(v)) => Ok::<u128, Error>(v as u128),
                        Ok(_) => Ok::<u128, Error>(0),
                        Err(e) => Err::<u128, Error>(e),
                    },
                ) && (r is Ok ==> r->Ok_0 is Index),
                Some(Type::String) => match value_parse(old(self).input.bytes()) {
                    ValueParse::Found { v, used } => {
                        &&& (scratch_ok(*old(self)) ==> r is Ok)
                        &&& r matches Ok(res) ==> {
                            &&& res matches IdentifierRead::Name(n) && ValueModel::Text(n.data())
                                == v
                            &&& consumed(old(self).input, final(self).input, used)
                        }
                    },
                    ValueParse::Bad { e } => r is Err && (scratch_ok(*old(self)) ==> r->Err_0
                        == e),
                    ValueParse::Incomplete { at, want } => r is Err && (scratch_ok(*old(self))
                        ==> r->Err_0 == old(self).input.fail_err(at, want)),
                },
                Some(t) => r == Err::<IdentifierRead<'de>, Error>(
                    Error::WrongType(t, Expected::Identifier),
                ) && unmoved(old(self).input, final(self).input),
                None => r is Err && peek_fail(old(self).input, r->Err_0) && unmoved(
                    old(self).input,
                    final(self).input,
                ),
            },
    {
        let ghost s0 = old(self).input.bytes();
        let t = match self.peek_type() {
            Ok(t) => t,
            Err(e) => {
                return Err(e);
            },
        };
        match t {
            Type::UnsignedInt => {
                let _ = self.consume_tag();
                let ghost mid = *self;
                proof {
                    assert(mid.input.bytes() =~= s0.drop_first());
                }
                match crate::varint::decode_varint_u32(&mut self.input) {
                    Ok(v) => {
                        proof {
                            crate::varint::lemma_varint_parse_bound(
                                s0.drop_first(),
                                32,
                                spec_varint_max(32),
                            );
                            match varint_parse(s0.drop_first(), 32, spec_varint_max(32)) {
                                VarIntOutcome::Value { value, used } => {
                                    assert(self.input.bytes() =~= s0.skip(1 + used as int));
                                },
                                _ => {
                                    assert(false);
                                },
                            }
                        }
                        Ok(IdentifierRead::Index(v))
                    },
                    Err(e) => Err(e),
                }
            },
            Type::String => {
                match self.read_string_item() {
                    Ok(st) => Ok(IdentifierRead::Name(st)),
                    Err(e) => Err(e),
                }
            },
            _ => Err(Error::WrongType(t, Expected::Identifier)),
        }
    }

    /// Skip sequence elements up to and including the closing tag; the
    /// opening tag has already been consumed.
    #[verifier::loop_isolation(false)]
    #[verifier::rlimit(100)]
    #[verifier::spinoff_prover]
    pub(crate) fn skip_list_rest(&mut self) -> (r: Result<(), Error>)
        ensures
            meta_kept(*old(self), *final(self)),
            match skip_list(old(self).input.bytes()) {
                SkipParse::Done { used } => r is Ok && consumed(
                    old(self).input,
                    final(self).input,
                    used,
                ),
                SkipParse::Bad { e } => r == Err::<(), Error>(e),
                SkipParse::Incomplete { at, want } => r == Err::<(), Error>(
                    old(self).input.fail_err(at, want),
                ),
            },
        decreases old(self).input.bytes().len(), 1nat,
    {
        let ghost s_l = old(self).input.bytes();
        let ghost mut c: nat = 0nat;
        proof {
            assert(s_l.skip(0) =~= s_l);
        }
        loop
            invariant
                meta_kept(*old(self), *self),
                c <= s_l.len(),
                consumed(old(self).input, self.input, c),
                self.input.bytes() == s_l.skip(c as int),
                skip_list(s_l) == skip_combine(c, skip_list(self.input.bytes())),
            decreases self.input.bytes().len(),
        {
            let ghost tcur = self.input.bytes();
            let t2 = match self.peek_type() {
                Ok(t2) => t2,
                Err(e) => {
                    return Err(e);
                },
            };
            proof {
                crate::format::lemma_type_byte_roundtrip();
                assert(tcur[0] == t2.code());
            }
            match t2 {
                Type::SeqEnd => {
                    let _ = self.consume_tag();
                    proof {
                        assert(skip_list(tcur) == (SkipParse::Done { used: 1nat }));
                    }
                    return Ok(());
                },
                _ => {},
            }
            match self.skip_value() {
                Ok(()) => {
                    proof {
                        lemma_skip_used(tcur);
                        match skip_parse(tcur) {
                            SkipParse::Done { used } => {
                                assert(tcur.skip(used as int) =~= s_l.skip(
                                    c as int + used as int,
                                ));
                                c = c + used;
                            },
                            _ => {
                                assert(false);
                            },
                        }
                    }
                },
                Err(e) => {
                    return Err(e);
                },
            }
        }
    }

    /// Skip map entries up to and including the closing tag; the opening
    /// tag has already been consumed.
    #[verifier::loop_isolation(false)]
    #[verifier::rlimit(100)]
    #[verifier::spinoff_prover]
    pub(crate) fn skip_pairs_rest(&mut self) -> (r: Result<(), Error>)
        ensures
            meta_kept(*old(self), *final(self)),
            match skip_pairs(old(self).input.bytes()) {
                SkipParse::Done { used } => r is Ok && consumed(
                    old(self).input,
                    final(self).input,
                    used,
                ),
                SkipParse::Bad { e } => r == Err::<(), Error>(e),
                SkipParse::Incomplete { at, want } => r == Err::<(), Error>(
                    old(self).input.fail_err(at, want),
                ),
            },
        decreases old(self).input.bytes().len(), 1nat,
    {
        let ghost s_l = old(self).input.bytes();
        let ghost mut c: nat = 0nat;
        proof {
            assert(s_l.skip(0) =~= s_l);
        }
        loop
            invariant
                meta_kept(*old(self), *self),
                c <= s_l.len(),
                consumed(old(self).input, self.input, c),
                self.input.bytes() == s_l.skip(c as int),
                skip_pairs(s_l) == skip_combine(c, skip_pairs(self.input.bytes())),
            decreases self.input.bytes().len(),
        {
            let ghost tcur = self.input.bytes();
            let t2 = match self.peek_type() {
                Ok(t2) => t2,
                Err(e) => {
                    return Err(e);
                },
            };
            proof {
                crate::format::lemma_type_byte_roundtrip();
                assert(tcur[0] == t2.code());
            }
            match t2 {
                Type::MapEnd => {
                    let _ = self.consume_tag();
                    proof {
                        assert(skip_pairs(tcur) == (SkipParse::Done { used: 1nat }));
                    }
                    return Ok(());
                },
                _ => {},
            }
            match self.skip_value() {
                Ok(()) => {
                    proof {
                        lemma_skip_used(tcur);
                    }
                },
                Err(e) => {
                    return Err(e);
                },
            }
            let ghost uk: nat = match skip_parse(tcur) {
                SkipParse::Done { used } => used,
                _ => 0nat,
            };
            let ghost tmid = self.input.bytes();
            proof {
                assert(tmid =~= tcur.skip(uk as int));
            }
            match self.skip_value() {
                Ok(()) => {
                    proof {
                        lemma_skip_used(tmid);
                        match skip_parse(tmid) {
                            SkipParse::Done { used: uv } => {
                                assert(tmid.skip(uv as int) =~= s_l.skip(
                                    c as int + uk as int + uv as int,
                                ));
                                c = c + uk + uv;
                            },
                            _ => {
                                assert(false);
                            },
                        }
                    }
                },
                Err(e) => {
                    proof {
                        match skip_parse(tmid) {
                            SkipParse::Done { used } => {
                                assert(false);
                            },
                            _ => {},
                        }
                    }
                    return Err(e);
                },
            }
        }
    }

    /// Skip one value without materializing it: primitive items by their
    /// fixed or length-prefixed size, sequences and maps by structural
    /// recursion. More permissive than decoding: floats of any width are
    /// skipped, string payloads are not validated, and no scratch buffer is
    /// needed.
    #[verifier::loop_isolation(false)]
    #[verifier::rlimit(100)]
    #[verifier::spinoff_prover]
    pub fn skip_value(&mut self) -> (r: Result<(), Error>)
        ensures
            meta_kept(*old(self), *final(self)),
            match skip_parse(old(self).input.bytes()) {
                SkipParse::Done { used } => r is Ok && consumed(
                    old(self).input,
                    final(self).input,
                    used,
                ),
                SkipParse::Bad { e } => r == Err::<(), Error>(e),
                SkipParse::Incomplete { at, want } => r == Err::<(), Error>(
                    old(self).input.fail_err(at, want),
                ),
            },
        decreases old(self).input.bytes().len(), 0nat,
    {
        let ghost s0 = old(self).input.bytes();
        let t = match self.peek_type() {
            Ok(t) => t,
            Err(e) => {
                return Err(e);
            },
        };
        proof {
            crate::format::lemma_type_byte_roundtrip();
            assert(s0[0] == t.code());
        }
        match t {
            Type::Null | Type::BooleanFalse | Type::BooleanTrue => {
                let _ = self.consume_tag();
                Ok(())
            },
            Type::UnsignedInt | Type::SignedInt => {
                let _ = self.consume_tag();
                let ghost s1 = s0.drop_first();
                proof {
                    assert(self.input.bytes() =~= s1);
                }
                let ghost mut k: nat = 0nat;
                proof {
                    assert(s1.skip(0) =~= s1);
                }
                loop
                    invariant
                        meta_kept(*old(self), *self),
                        k <= s1.len(),
                        consumed(old(self).input, self.input, 1 + k),
                        self.input.bytes() == s1.skip(k as int),
                        varint_scan(s1) == match varint_scan(self.input.bytes()) {
                            Some(u) => Some((k + u) as nat),
                            None => None,
                        },
                    decreases self.input.bytes().len(),
                {
                    let b = match self.input.read_byte() {
                        Ok(b) => b,
                        Err(e) => {
                            proof {
                                assert(s1.skip(k as int).len() == 0);
                            }
                            return Err(e);
                        },
                    };
                    proof {
                        assert(s1.skip(k as int).drop_first() =~= s1.skip(k as int + 1));
                        k = k + 1;
                    }
                    if b < 128 {
                        return Ok(());
                    }
                }
            },
            Type::Float16 => {
                match self.input.skip_bytes(3) {
                    Ok(()) => Ok(()),
                    Err(e) => Err(e),
                }
            },
            Type::Float32 => {
                match self.input.skip_bytes(5) {
                    Ok(()) => Ok(()),
                    Err(e) => Err(e),
                }
            },
            Type::Float64 => {
                match self.input.skip_bytes(9) {
                    Ok(()) => Ok(()),
                    Err(e) => Err(e),
                }
            },
            Type::Float128 => {
                match self.input.skip_bytes(17) {
                    Ok(()) => Ok(()),
                    Err(e) => Err(e),
                }
            },
            Type::Bytes | Type::String => {
                let _ = self.consume_tag();
                proof {
                    assert(self.input.bytes() =~= s0.drop_first());
                }
                let len = match crate::varint::decode_varint_usize(&mut self.input) {
                    Ok(len) => len,
                    Err(e) => {
                        return Err(e);
                    },
                };
                proof {
                    crate::varint::lemma_varint_parse_bound(
                        s0.drop_first(),
                        usize::BITS as nat,
                        spec_varint_max(usize::BITS as nat),
                    );
                }
                match self.input.skip_bytes(len) {
                    Ok(()) => {
                        proof {
                            match varint_parse(
                                s0.drop_first(),
                                usize::BITS as nat,
                                spec_varint_max(usize::BITS as nat),
                            ) {
                                VarIntOutcome::Value { value, used } => {
                                    assert(self.input.bytes() =~= s0.skip(
                                        1 + used as int + value as int,
                                    ));
                                },
                                _ => {
                                    assert(false);
                                },
                            }
                        }
                        Ok(())
                    },
                    Err(e) => Err(e),
                }
            },
            Type::SeqStart => {
                let _ = self.consume_tag();
                let ghost mid = *self;
                proof {
                    assert(mid.input.bytes() =~= s0.drop_first());
                    assert(mid.input.bytes() =~= s0.skip(1));
                }
                match self.skip_list_rest() {
                    Ok(()) => {
                        proof {
                            lemma_skip_list_used(mid.input.bytes());
                            match skip_list(mid.input.bytes()) {
                                SkipParse::Done { used } => {
                                    assert(self.input.bytes() =~= s0.skip(1 + used as int));
                                },
                                _ => {
                                    assert(false);
                                },
                            }
                        }
                        Ok(())
                    },
                    Err(e) => Err(e),
                }
            },
            Type::MapStart => {
                let _ = self.consume_tag();
                let ghost mid = *self;
                proof {
                    assert(mid.input.bytes() =~= s0.drop_first());
                    assert(mid.input.bytes() =~= s0.skip(1));
                }
                match self.skip_pairs_rest() {
                    Ok(()) => {
                        proof {
                            lemma_skip_pairs_used(mid.input.bytes());
                            match skip_pairs(mid.input.bytes()) {
                                SkipParse::Done { used } => {
                                    assert(self.input.bytes() =~= s0.skip(1 + used as int));
                                },
                                _ => {
                                    assert(false);
                                },
                            }
                        }
                        Ok(())
                    },
                    Err(e) => Err(e),
                }
            },
            Type::SeqEnd => Err(Error::WrongType(Type::SeqEnd, Expected::AnyValue)),
            Type::MapEnd => Err(Error::WrongType(Type::MapEnd, Expected::AnyValue)),
        }
    }

    /// Decode one value, of whatever shape the stream holds.
    ///
    /// The result and the bytes consumed are exactly what [`value_parse`]
    /// says of the available bytes. String and byte payloads borrow from the
    /// original input when the source can borrow, and are owned copies
    /// otherwise; a source that neither borrows nor has a scratch buffer
    /// with room fails cleanly on such payloads.
    #[verifier::loop_isolation(false)]
    pub fn decode_value(&mut self) -> (r: Result<Value<'de>, Error>)
        ensures
            meta_kept(*old(self), *final(self)),
            match value_parse(old(self).input.bytes()) {
                ValueParse::Found { v, used } => {
                    &&& (scratch_ok(*old(self)) ==> r is Ok)
                    &&& r matches Ok(res) ==> {
                        &&& res.view() == v
                        &&& consumed(old(self).input, final(self).input, used)
                        &&& old(self).input.can_borrow() ==> res.is_fully_borrowed()
                        &&& !old(self).input.can_borrow() ==> res.is_fully_owned()
                    }
                },
                ValueParse::Bad { e } => r is Err && (scratch_ok(*old(self)) ==> r->Err_0 == e),
                ValueParse::Incomplete { at, want } => r is Err && (scratch_ok(*old(self))
                    ==> r->Err_0 == old(self).input.fail_err(at, want)),
            },
        decreases old(self).input.bytes().len(), 0nat,
    {
        let ghost s0 = old(self).input.bytes();
        let t = match self.peek_type() {
            Ok(t) => t,
            Err(e) => {
                return Err(e);
            },
        };
        proof {
            crate::format::lemma_type_byte_roundtrip();
            assert(s0[0] == t.code());
        }
        match t {
            Type::Null => {
                let _ = self.consume_tag();
                Ok(Value::Null)
            },
            Type::BooleanFalse => {
                let _ = self.consume_tag();
                Ok(Value::Bool(false))
            },
            Type::BooleanTrue => {
                let _ = self.consume_tag();
                Ok(Value::Bool(true))
            },
            Type::UnsignedInt => {
                match self.read_uint(128) {
                    Ok(ScalarRead::Unsigned(v)) => {
                        proof {
                            crate::varint::lemma_varint_parse_bound(
                                s0.drop_first(),
                                128,
                                spec_varint_max(128),
                            );
                        }
                        Ok(Value::Integer(Integer::Unsigned(v)))
                    },
                    Ok(_) => {
                        proof {
                            assert(false);
                        }
                        Err(Error::Custom)
                    },
                    Err(e) => Err(e),
                }
            },
            Type::SignedInt => {
                match self.read_int(128) {
                    Ok(ScalarRead::Signed(v)) => {
                        proof {
                            crate::varint::lemma_varint_parse_bound(
                                s0.drop_first(),
                                128,
                                spec_varint_max(128),
                            );
                            crate::varint::lemma_zigzag_roundtrip();
                        }
                        Ok(Value::Integer(Integer::Signed(v)))
                    },
                    Ok(_) => {
                        proof {
                            assert(false);
                        }
                        Err(Error::Custom)
                    },
                    Err(e) => Err(e),
                }
            },
            Type::Float16 | Type::Float32 | Type::Float64 | Type::Float128 => {
                match self.read_float() {
                    Ok(FloatRead::F32(bits)) => {
                        proof {
                            lemma_le4_inv(bits);
                        }
                        Ok(Value::Float(Float::F32(bits)))
                    },
                    Ok(FloatRead::F64(bits)) => {
                        proof {
                            lemma_le8_inv(bits);
                        }
                        Ok(Value::Float(Float::F64(bits)))
                    },
                    Ok(FloatRead::Null) => {
                        proof {
                            assert(false);
                        }
                        Err(Error::Custom)
                    },
                    Err(e) => Err(e),
                }
            },
            Type::Bytes => {
                match self.read_bytes_item() {
                    Ok(b) => Ok(Value::Bytes(b)),
                    Err(e) => Err(e),
                }
            },
            Type::String => {
                match self.read_string_item() {
                    Ok(st) => Ok(Value::String(st)),
                    Err(e) => Err(e),
                }
            },
            Type::SeqStart => {
                let _ = self.consume_tag();
                let ghost mid = *self;
                proof {
                    assert(mid.input.bytes() =~= s0.drop_first());
                    assert(mid.input.bytes() =~= s0.skip(1));
                }
                match self.decode_array_rest() {
                    Ok(items) => {
                        proof {
                            lemma_parse_used_list(mid.input.bytes());
                            match list_parse(mid.input.bytes()) {
                                ListParse::Found { vs, used } => {
                                    assert(self.input.bytes() =~= s0.skip(1 + used as int));
                                },
                                _ => {
                                    assert(false);
                                },
                            }
                        }
                        Ok(Value::Array(items))
                    },
                    Err(e) => {
                        proof {
                            assert(scratch_ok(*old(self)) ==> scratch_ok(mid));
                        }
                        Err(e)
                    },
                }
            },
            Type::MapStart => {
                let _ = self.consume_tag();
                let ghost mid = *self;
                proof {
                    assert(mid.input.bytes() =~= s0.drop_first());
                    assert(mid.input.bytes() =~= s0.skip(1));
                }
                match self.decode_map_rest() {
                    Ok(entries) => {
                        proof {
                            lemma_parse_used_pairs(mid.input.bytes());
                            match pairs_parse(mid.input.bytes()) {
                                PairsParse::Found { ps, used } => {
                                    assert(self.input.bytes() =~= s0.skip(1 + used as int));
                                },
                                _ => {
                                    assert(false);
                                },
                            }
                        }
                        Ok(Value::Mapping(entries))
                    },
                    Err(e) => {
                        proof {
                            assert(scratch_ok(*old(self)) ==> scratch_ok(mid));
                        }
                        Err(e)
                    },
                }
            },
            Type::SeqEnd => Err(Error::WrongType(Type::SeqEnd, Expected::AnyValue)),
            Type::MapEnd => Err(Error::WrongType(Type::MapEnd, Expected::AnyValue)),
        }
    }
}

/// The payload read after a length prefix is the matching subrange of the
/// whole stream.
proof fn lemma_payload_subrange(s0: Seq<u8>, cur: Seq<u8>, got: Seq<u8>, len: nat)
    requires
        exists|k: int|
            0 <= k <= s0.len() && cur =~= s0.skip(k) && len <= cur.len() && got =~= cur.take(
                len as int,
            ),
    ensures
        forall|k: int|
            0 <= k <= s0.len() && cur =~= s0.skip(k) && len <= cur.len() ==> got =~= s0.subrange(
                k,
                k + len as int,
            ),
{
}

/// When the value of a map entry fails to parse, the entry run reports the
/// same failure, shifted by the key's bytes.
proof fn lemma_pairs_err(tcur: Seq<u8>, uk: nat)
    requires
        tcur.len() > 0,
        tcur[0] != 18,
        value_parse(tcur) is Found,
        uk == value_parse(tcur)->Found_used,
        1 <= uk <= tcur.len(),
    ensures
        value_parse(tcur.skip(uk as int)) is Bad ==> pairs_parse(tcur) == (PairsParse::Bad {
            e: value_parse(tcur.skip(uk as int))->Bad_e,
        }),
        value_parse(tcur.skip(uk as int)) is Incomplete ==> pairs_parse(tcur)
            == (PairsParse::Incomplete {
            at: uk + value_parse(tcur.skip(uk as int))->Incomplete_at,
            want: value_parse(tcur.skip(uk as int))->Incomplete_want,
        }),
{
}


/// A value shape the machine can hold: every byte-blob and text payload
/// fits the platform's length type, and text payloads are valid UTF-8.
/// The shape of any [`Value`] built from machine data satisfies this.
pub open spec fn model_wf(v: ValueModel) -> bool
    decreases v,
{
    match v {
        ValueModel::Bytes(b) => b.len() <= usize::MAX,
        ValueModel::Text(b) => b.len() <= usize::MAX && valid_utf8(b),
        ValueModel::Array(vs) => model_wf_list(vs),
        ValueModel::Mapping(ps) => model_wf_pairs(ps),
        _ => true,
    }
}

/// [`model_wf`] for every element.
pub open spec fn model_wf_list(s: Seq<ValueModel>) -> bool
    decreases s,
{
    s.len() == 0 || (model_wf(s[0]) && model_wf_list(s.drop_first()))
}

/// [`model_wf`] for every entry.
pub open spec fn model_wf_pairs(s: Seq<(ValueModel, ValueModel)>) -> bool
    decreases s,
{
    s.len() == 0 || (model_wf(s[0].0) && model_wf(s[0].1) && model_wf_pairs(s.drop_first()))
}

/// An encoded value never starts with an end tag.
proof fn lemma_enc_first_byte(v: ValueModel)
    ensures
        value_enc(v).len() >= 1,
        value_enc(v)[0] != 16,
        value_enc(v)[0] != 18,
{
}

/// The platform's length type is as wide as its VarInt width says.
proof fn lemma_usize_bits()
    ensures
        usize::MAX as nat == pow2(usize::BITS as nat) - 1,
{
    lemma2_to64();
    if usize::BITS == 32 {
        assert(usize::MAX as nat == pow2(32) - 1);
    } else {
        assert(usize::MAX as nat == pow2(64) - 1);
    }
}

/// Round trip: parsing right after encoding gives the same value shape
/// back, spanning exactly the encoded bytes, whatever follows them in the
/// stream. Together with the encoder and decoder contracts this says that
/// decoding an encoded value yields the value again, and that re-encoding
/// a decoded value reproduces the original bytes.
#[verifier::rlimit(100)]
#[verifier::spinoff_prover]
pub proof fn lemma_value_roundtrip(v: ValueModel, rest: Seq<u8>)
    requires
        model_wf(v),
    ensures
        value_parse(value_enc(v) + rest) == (ValueParse::Found { v, used: value_enc(v).len() }),
    decreases v, 0nat,
{
    let s = value_enc(v) + rest;
    lemma_usize_bits();
    lemma2_to64();
    assert(pow2(128) == pow2(64) * pow2(64)) by {
        lemma_pow2_adds(64, 64);
    }
    match v {
        ValueModel::Null => {
        },
        ValueModel::Bool(b) => {
        },
        ValueModel::Unsigned(u) => {
            assert(s.drop_first() =~= crate::varint::varint_enc(u as nat) + rest);
            crate::varint::lemma_varint_enc_parse(u as nat, 128, spec_varint_max(128), rest);
        },
        ValueModel::Signed(i) => {
            let z = crate::varint::zigzag(i as int);
            assert(s.drop_first() =~= crate::varint::varint_enc(z) + rest);
            assert(z < pow2(128)) by {
                assert(pow2(127) == pow2(64) * pow2(63)) by {
                    lemma_pow2_adds(64, 63);
                }
            }
            crate::varint::lemma_varint_enc_parse(z, 128, spec_varint_max(128), rest);
            crate::varint::lemma_zigzag_roundtrip();
        },
        ValueModel::F32(b) => {
            assert(s.subrange(1, 5) =~= crate::ser::le4(b));
            lemma_le4_inv(b);
        },
        ValueModel::F64(b) => {
            assert(s.subrange(1, 9) =~= crate::ser::le8(b));
            lemma_le8_inv(b);
        },
        ValueModel::Bytes(b) => {
            let lenc = crate::varint::varint_enc(b.len());
            assert(s.drop_first() =~= lenc + (b + rest));
            crate::varint::lemma_varint_enc_parse(
                b.len(),
                usize::BITS as nat,
                spec_varint_max(usize::BITS as nat),
                b + rest,
            );
            assert(s.subrange(1 + lenc.len() as int, 1 + lenc.len() as int + b.len() as int)
                =~= b);
        },
        ValueModel::Text(b) => {
            let lenc = crate::varint::varint_enc(b.len());
            assert(s.drop_first() =~= lenc + (b + rest));
            crate::varint::lemma_varint_enc_parse(
                b.len(),
                usize::BITS as nat,
                spec_varint_max(usize::BITS as nat),
                b + rest,
            );
            assert(s.subrange(1 + lenc.len() as int, 1 + lenc.len() as int + b.len() as int)
                =~= b);
        },
        ValueModel::Array(vs) => {
            assert(s.drop_first() =~= value_enc_list(vs) + (seq![16u8] + rest));
            lemma_list_roundtrip(vs, seq![16u8] + rest, rest);
            assert(value_enc(v).len() == 2 + value_enc_list(vs).len());
        },
        ValueModel::Mapping(ps) => {
            assert(s.drop_first() =~= value_enc_pairs(ps) + (seq![18u8] + rest));
            lemma_pairs_roundtrip(ps, seq![18u8] + rest, rest);
            assert(value_enc(v).len() == 2 + value_enc_pairs(ps).len());
        },
    }
}

/// Round trip for an element run: the encoded elements followed by the end
/// tag parse back to the same shapes.
proof fn lemma_list_roundtrip(vs: Seq<ValueModel>, tail: Seq<u8>, rest: Seq<u8>)
    requires
        model_wf_list(vs),
        tail =~= seq![16u8] + rest,
    ensures
        list_parse(value_enc_list(vs) + tail) == (ListParse::Found {
            vs,
            used: value_enc_list(vs).len() + 1,
        }),
    decreases vs, 1nat,
{
    let s = value_enc_list(vs) + tail;
    if vs.len() == 0 {
        assert(value_enc_list(vs) =~= Seq::<u8>::empty());
        assert(s =~= tail);
        assert(s[0] == 16);
        assert(vs =~= Seq::<ValueModel>::empty());
    } else {
        let v0 = vs[0];
        let e0 = value_enc(v0);
        lemma_enc_first_byte(v0);
        assert(s[0] == e0[0]);
        assert(s =~= e0 + (value_enc_list(vs.drop_first()) + tail));
        lemma_value_roundtrip(v0, value_enc_list(vs.drop_first()) + tail);
        assert(value_parse(s) == (ValueParse::Found { v: v0, used: e0.len() }));
        assert(s.skip(e0.len() as int) =~= value_enc_list(vs.drop_first()) + tail);
        lemma_list_roundtrip(vs.drop_first(), tail, rest);
        assert(seq![v0] + vs.drop_first() =~= vs);
    }
}

/// Round trip for an entry run.
proof fn lemma_pairs_roundtrip(ps: Seq<(ValueModel, ValueModel)>, tail: Seq<u8>, rest: Seq<u8>)
    requires
        model_wf_pairs(ps),
        tail =~= seq![18u8] + rest,
    ensures
        pairs_parse(value_enc_pairs(ps) + tail) == (PairsParse::Found {
            ps,
            used: value_enc_pairs(ps).len() + 1,
        }),
    decreases ps, 1nat,
{
    let s = value_enc_pairs(ps) + tail;
    if ps.len() == 0 {
        assert(value_enc_pairs(ps) =~= Seq::<u8>::empty());
        assert(s =~= tail);
        assert(s[0] == 18);
        assert(ps =~= Seq::<(ValueModel, ValueModel)>::empty());
    } else {
        let km = ps[0].0;
        let vm = ps[0].1;
        let ek = value_enc(km);
        let ev = value_enc(vm);
        lemma_enc_first_byte(km);
        assert(s[0] == ek[0]);
        assert(s =~= ek + (ev + (value_enc_pairs(ps.drop_first()) + tail)));
        lemma_value_roundtrip(km, ev + (value_enc_pairs(ps.drop_first()) + tail));
        assert(s.skip(ek.len() as int) =~= ev + (value_enc_pairs(ps.drop_first()) + tail));
        lemma_value_roundtrip(vm, value_enc_pairs(ps.drop_first()) + tail);
        assert(s.skip(ek.len() as int + ev.len() as int) =~= value_enc_pairs(ps.drop_first())
            + tail);
        lemma_pairs_roundtrip(ps.drop_first(), tail, rest);
        assert(seq![(km, vm)] + ps.drop_first() =~= ps);
    }
}



/// What skipping one value from the front of a stream yields. Skipping is
/// more permissive than parsing: floats of any width are skipped by size,
/// string payloads are not validated, and integers are scanned to their
/// final byte without a width check.
pub enum SkipParse {
    /// The value spans the first `used` bytes.
    Done { used: nat },
    /// The front is malformed; skipping reports exactly this error.
    Bad { e: Error },
    /// A read of `want` more bytes, issued after consuming `at` bytes,
    /// cannot be served.
    Incomplete { at: nat, want: nat },
}

/// The bytes of a continuation-bit run including its final byte, if the
/// stream holds one.
pub open spec fn varint_scan(s: Seq<u8>) -> Option<nat>
    decreases s.len(),
{
    if s.len() == 0 {
        None
    } else if s[0] < 128 {
        Some(1nat)
    } else {
        match varint_scan(s.drop_first()) {
            Some(u) => Some((1 + u) as nat),
            None => None,
        }
    }
}

/// Skip one value from the front of `s`.
pub open spec fn skip_parse(s: Seq<u8>) -> SkipParse
    decreases s.len(), 0nat,
{
    if s.len() == 0 {
        SkipParse::Incomplete { at: 0, want: 1 }
    } else {
        match Type::spec_from_byte(s[0]) {
            None => SkipParse::Bad { e: Error::InvalidType(s[0]) },
            Some(Type::Null) => SkipParse::Done { used: 1 },
            Some(Type::BooleanFalse) => SkipParse::Done { used: 1 },
            Some(Type::BooleanTrue) => SkipParse::Done { used: 1 },
            Some(Type::UnsignedInt) | Some(Type::SignedInt) => match varint_scan(
                s.drop_first(),
            ) {
                Some(u) => SkipParse::Done { used: 1 + u },
                None => SkipParse::Incomplete { at: s.len(), want: 1 },
            },
            Some(Type::Float16) => if s.len() >= 3 {
                SkipParse::Done { used: 3 }
            } else {
                SkipParse::Incomplete { at: 0, want: 3 }
            },
            Some(Type::Float32) => if s.len() >= 5 {
                SkipParse::Done { used: 5 }
            } else {
                SkipParse::Incomplete { at: 0, want: 5 }
            },
            Some(Type::Float64) => if s.len() >= 9 {
                SkipParse::Done { used: 9 }
            } else {
                SkipParse::Incomplete { at: 0, want: 9 }
            },
            Some(Type::Float128) => if s.len() >= 17 {
                SkipParse::Done { used: 17 }
            } else {
                SkipParse::Incomplete { at: 0, want: 17 }
            },
            Some(Type::Bytes) | Some(Type::String) => match varint_parse(
                s.drop_first(),
                usize::BITS as nat,
                spec_varint_max(usize::BITS as nat),
            ) {
                VarIntOutcome::Value { value, used } => if s.len() >= 1 + used + value {
                    SkipParse::Done { used: 1 + used + value }
                } else {
                    SkipParse::Incomplete { at: 1 + used, want: value }
                },
                VarIntOutcome::TooLarge => SkipParse::Bad { e: Error::VarIntTooLarge },
                VarIntOutcome::Incomplete => SkipParse::Incomplete { at: s.len(), want: 1 },
            },
            Some(Type::SeqStart) => match skip_list(s.drop_first()) {
                SkipParse::Done { used } => SkipParse::Done { used: 1 + used },
                SkipParse::Bad { e } => SkipParse::Bad { e },
                SkipParse::Incomplete { at, want } => SkipParse::Incomplete {
                    at: 1 + at,
                    want,
                },
            },
            Some(Type::SeqEnd) => SkipParse::Bad {
                e: Error::WrongType(Type::SeqEnd, Expected::AnyValue),
            },
            Some(Type::MapStart) => match skip_pairs(s.drop_first()) {
                SkipParse::Done { used } => SkipParse::Done { used: 1 + used },
                SkipParse::Bad { e } => SkipParse::Bad { e },
                SkipParse::Incomplete { at, want } => SkipParse::Incomplete {
                    at: 1 + at,
                    want,
                },
            },
            Some(Type::MapEnd) => SkipParse::Bad {
                e: Error::WrongType(Type::MapEnd, Expected::AnyValue),
            },
        }
    }
}

/// Skip sequence elements up to and including the closing tag.
pub open spec fn skip_list(s: Seq<u8>) -> SkipParse
    decreases s.len(), 2nat,
{
    if s.len() == 0 {
        SkipParse::Incomplete { at: 0, want: 1 }
    } else if s[0] == 16 {
        SkipParse::Done { used: 1 }
    } else {
        match skip_parse(s) {
            SkipParse::Done { used } => if 1 <= used <= s.len() {
                match skip_list(s.skip(used as int)) {
                    SkipParse::Done { used: u2 } => SkipParse::Done { used: used + u2 },
                    SkipParse::Bad { e } => SkipParse::Bad { e },
                    SkipParse::Incomplete { at, want } => SkipParse::Incomplete {
                        at: used + at,
                        want,
                    },
                }
            } else {
                SkipParse::Bad { e: Error::Custom }
            },
            o => o,
        }
    }
}

/// Skip map entries up to and including the closing tag.
pub open spec fn skip_pairs(s: Seq<u8>) -> SkipParse
    decreases s.len(), 2nat,
{
    if s.len() == 0 {
        SkipParse::Incomplete { at: 0, want: 1 }
    } else if s[0] == 18 {
        SkipParse::Done { used: 1 }
    } else {
        match skip_parse(s) {
            SkipParse::Done { used: uk } => if 1 <= uk <= s.len() {
                match skip_parse(s.skip(uk as int)) {
                    SkipParse::Done { used: uv } => if 1 <= uv <= s.len() - uk {
                        match skip_pairs(s.skip(uk as int + uv as int)) {
                            SkipParse::Done { used: u2 } => SkipParse::Done {
                                used: uk + uv + u2,
                            },
                            SkipParse::Bad { e } => SkipParse::Bad { e },
                            SkipParse::Incomplete { at, want } => SkipParse::Incomplete {
                                at: uk + uv + at,
                                want,
                            },
                        }
                    } else {
                        SkipParse::Bad { e: Error::Custom }
                    },
                    SkipParse::Bad { e } => SkipParse::Bad { e },
                    SkipParse::Incomplete { at, want } => SkipParse::Incomplete {
                        at: uk + at,
                        want,
                    },
                }
            } else {
                SkipParse::Bad { e: Error::Custom }
            },
            o => o,
        }
    }
}

/// A skipped value spans at least one byte and at most the whole stream.
pub proof fn lemma_skip_used(s: Seq<u8>)
    ensures
        skip_parse(s) matches SkipParse::Done { used } ==> 1 <= used <= s.len(),
    decreases s.len(), 1nat,
{
    if s.len() == 0 {
        return ;
    }
    match Type::spec_from_byte(s[0]) {
        Some(Type::UnsignedInt) | Some(Type::SignedInt) => {
            lemma_varint_scan_len(s.drop_first());
        },
        Some(Type::Bytes) | Some(Type::String) => {
            crate::varint::lemma_varint_parse_bound(
                s.drop_first(),
                usize::BITS as nat,
                spec_varint_max(usize::BITS as nat),
            );
        },
        Some(Type::SeqStart) => {
            lemma_skip_list_used(s.drop_first());
        },
        Some(Type::MapStart) => {
            lemma_skip_pairs_used(s.drop_first());
        },
        _ => {},
    }
}

/// A continuation run spans at most the whole stream.
proof fn lemma_varint_scan_len(s: Seq<u8>)
    ensures
        varint_scan(s) matches Some(u) ==> 1 <= u <= s.len(),
    decreases s.len(),
{
    if s.len() > 0 && s[0] >= 128 {
        lemma_varint_scan_len(s.drop_first());
    }
}

/// A skipped element run spans at most the whole stream.
pub proof fn lemma_skip_list_used(s: Seq<u8>)
    ensures
        skip_list(s) matches SkipParse::Done { used } ==> 1 <= used <= s.len(),
    decreases s.len(), 3nat,
{
    if s.len() == 0 || s[0] == 16 {
        return ;
    }
    lemma_skip_used(s);
    match skip_parse(s) {
        SkipParse::Done { used } => {
            if 1 <= used <= s.len() {
                lemma_skip_list_used(s.skip(used as int));
            }
        },
        _ => {},
    }
}

/// A skipped entry run spans at most the whole stream.
pub proof fn lemma_skip_pairs_used(s: Seq<u8>)
    ensures
        skip_pairs(s) matches SkipParse::Done { used } ==> 1 <= used <= s.len(),
    decreases s.len(), 3nat,
{
    if s.len() == 0 || s[0] == 18 {
        return ;
    }
    lemma_skip_used(s);
    match skip_parse(s) {
        SkipParse::Done { used: uk } => {
            if 1 <= uk <= s.len() {
                lemma_skip_used(s.skip(uk as int));
                match skip_parse(s.skip(uk as int)) {
                    SkipParse::Done { used: uv } => {
                        if 1 <= uv <= s.len() - uk {
                            lemma_skip_pairs_used(s.skip(uk as int + uv as int));
                        }
                    },
                    _ => {},
                }
            }
        },
        _ => {},
    }
}

/// Splice a skipped prefix of `c` bytes into a run.
pub open spec fn skip_combine(c: nat, o: SkipParse) -> SkipParse {
    match o {
        SkipParse::Done { used } => SkipParse::Done { used: c + used },
        SkipParse::Bad { e } => SkipParse::Bad { e },
        SkipParse::Incomplete { at, want } => SkipParse::Incomplete { at: c + at, want },
    }
}


} // verus!
