//! Variable-length integer encoding, with zig-zag mapping for signed values.
//!
//! An unsigned integer is written as a little-endian base-128 stream: each
//! byte carries 7 value bits, and its high bit says whether another byte
//! follows. The encoder always emits the minimal form; the decoder accepts
//! redundant zero high bytes but refuses encodings that need more bits than
//! the requested integer width, and never reads more than
//! [`crate::format::varint_max`] bytes.

use vstd::prelude::*;
use vstd::arithmetic::power2::*;

use crate::error::Error;
use crate::format::spec_varint_max;
use crate::io::Input;
use crate::io::Output;

verus! {

/// The minimal base-128 encoding of `v`: 7 value bits per byte, high bit set
/// on every byte but the last.
pub open spec fn varint_enc(v: nat) -> Seq<u8>
    decreases v,
{
    if v < 128 {
        seq![v as u8]
    } else {
        seq![((v % 128) + 128) as u8] + varint_enc(v / 128)
    }
}

/// What reading a VarInt of width `bits` from the stream `s` yields, when at
/// most `budget` bytes may be consumed.
pub enum VarIntOutcome {
    /// A value, spanning the first `used` bytes of the stream.
    Value { value: nat, used: nat },
    /// The encoding carries bits beyond the requested width, or does not end
    /// within the byte budget.
    TooLarge,
    /// The stream ended inside the encoding.
    Incomplete,
}

/// Read a VarInt of width `bits` from the front of `s`, consuming at most
/// `budget` bytes. Each byte is checked against the bits still admissible, so
/// a value wider than `bits` is refused even when redundant high bytes would
/// let it fit the budget.
pub open spec fn varint_parse(s: Seq<u8>, bits: nat, budget: nat) -> VarIntOutcome
    decreases budget,
{
    if budget == 0 {
        VarIntOutcome::TooLarge
    } else if s.len() == 0 {
        VarIntOutcome::Incomplete
    } else {
        let b = s[0] as nat;
        if bits < 8 && b % 128 >= pow2(bits) {
            VarIntOutcome::TooLarge
        } else if b < 128 {
            VarIntOutcome::Value { value: b, used: 1 }
        } else {
            match varint_parse(
                s.drop_first(),
                if bits >= 7 {
                    (bits - 7) as nat
                } else {
                    0
                },
                (budget - 1) as nat,
            ) {
                VarIntOutcome::Value { value, used } => VarIntOutcome::Value {
                    value: ((b - 128) + 128 * value) as nat,
                    used: used + 1,
                },
                o => o,
            }
        }
    }
}

/// A parsed VarInt of width `bits` is below `pow2(bits)` and spans at least
/// one and at most `budget` bytes of the stream.
pub proof fn lemma_varint_parse_bound(s: Seq<u8>, bits: nat, budget: nat)
    ensures
        varint_parse(s, bits, budget) matches VarIntOutcome::Value { value, used } ==> {
            &&& value < pow2(bits)
            &&& 1 <= used <= budget
            &&& used <= s.len()
        },
    decreases budget,
{
    lemma_pow2_pos(bits);
    if budget > 0 && s.len() > 0 {
        let b = s[0] as nat;
        if bits < 8 && b % 128 >= pow2(bits) {
        } else if b < 128 {
            if bits < 8 {
                assert(b % 128 == b);
            } else {
                lemma_pow2_adds(7, (bits - 7) as nat);
                lemma_pow2_pos((bits - 7) as nat);
                assert(pow2(7) == 128) by {
                    lemma2_to64();
                }
                assert(b < pow2(bits));
            }
        } else {
            let bits2 = if bits >= 7 {
                (bits - 7) as nat
            } else {
                0
            };
            lemma_varint_parse_bound(s.drop_first(), bits2, (budget - 1) as nat);
            match varint_parse(s.drop_first(), bits2, (budget - 1) as nat) {
                VarIntOutcome::Value { value, used } => {
                    if bits < 8 {
                        // The width check already passed, so the low bits of b
                        // are below pow2(bits) <= 128; b >= 128 means the
                        // continuation bit is set and the rest must be zero.
                        assert(b % 128 == b - 128);
                        assert(pow2(bits2) >= 1);
                        if value > 0 {
                            // value < pow2(bits2) and bits2 == 0 here is
                            // impossible unless value == 0.
                            assert(bits2 == 0 ==> value < pow2(0));
                            assert(pow2(0) == 1) by {
                                lemma2_to64();
                            }
                            if bits2 == 0 {
                                assert(false);
                            } else {
                                assert(bits >= 7);
                            }
                        }
                        if bits2 == 0 {
                            assert(value == 0) by {
                                assert(pow2(0) == 1) by {
                                    lemma2_to64();
                                }
                            }
                            assert((b - 128) + 128 * value == b % 128);
                        } else {
                            assert(bits >= 7 && bits < 8);
                            assert(bits == 7);
                            assert(pow2(7) == 128) by {
                                lemma2_to64();
                            }
                            assert((b - 128) + 128 * value < 128 + 128 * value);
                            lemma_pow2_adds(7, bits2);
                            assert((b - 128) + 128 * value < pow2(bits));
                        }
                    } else {
                        lemma_pow2_adds(7, (bits - 7) as nat);
                        assert(pow2(7) == 128) by {
                            lemma2_to64();
                        }
                        assert((b - 128) + 128 * value <= 127 + 128 * (pow2(bits2) - 1));
                        assert((b - 128) + 128 * value < 128 * pow2(bits2));
                        assert(128 * pow2(bits2) == pow2(bits));
                    }
                },
                _ => {},
            }
        }
    }
}

/// Parsing right after encoding gives the value back: the minimal encoding of
/// any `v < pow2(bits)` is accepted by a parse at width `bits`, whatever
/// follows it in the stream.
pub proof fn lemma_varint_enc_parse(v: nat, bits: nat, budget: nat, rest: Seq<u8>)
    requires
        bits >= 1,
        v < pow2(bits),
        budget >= spec_varint_max(bits),
    ensures
        varint_parse(varint_enc(v) + rest, bits, budget) == (VarIntOutcome::Value {
            value: v,
            used: varint_enc(v).len(),
        }),
    decreases v,
{
    let s = varint_enc(v) + rest;
    lemma_pow2_pos(bits);
    assert(budget >= 1);
    if v < 128 {
        assert(varint_enc(v) == seq![v as u8]);
        assert(s.len() >= 1 && s[0] == v as u8);
        if bits < 8 {
            assert((v as nat) % 128 == v);
        }
        assert(varint_parse(s, bits, budget) == (VarIntOutcome::Value { value: v, used: 1nat }));
    } else {
        // v >= 128 forces bits >= 8: pow2(bits) > v >= 128 and pow2(b) <= 128
        // for b <= 7.
        if bits <= 7 {
            lemma_pow2_ordered(bits, 7);
            assert(pow2(7) == 128) by {
                lemma2_to64();
            }
            assert(false);
        }
        let b0 = (v % 128) + 128;
        assert(varint_enc(v) == seq![b0 as u8] + varint_enc(v / 128));
        assert(s[0] == b0 as u8);
        assert(s.drop_first() =~= varint_enc(v / 128) + rest);
        let bits2 = (bits - 7) as nat;
        assert(pow2(bits) == 128 * pow2(bits2)) by {
            lemma_pow2_adds(7, bits2);
            lemma2_to64();
        }
        assert(v / 128 < pow2(bits2)) by {
            vstd::arithmetic::div_mod::lemma_fundamental_div_mod(v as int, 128);
        }
        assert(spec_varint_max(bits2) == spec_varint_max(bits) - 1);
        lemma_varint_enc_parse(v / 128, bits2, (budget - 1) as nat, rest);
        assert((b0 as u8) as nat == b0);
        assert(b0 % 128 == v % 128);
        assert((b0 - 128) + 128 * (v / 128) == v) by {
            vstd::arithmetic::div_mod::lemma_fundamental_div_mod(v as int, 128);
        }
        assert(varint_enc(v).len() == 1 + varint_enc(v / 128).len());
    }
}

/// pow2 is monotonic; small helper for the proofs above.
proof fn lemma_pow2_ordered(a: nat, b: nat)
    requires
        a <= b,
    ensures
        pow2(a) <= pow2(b),
{
    if a < b {
        lemma_pow2_strictly_increases(a, b);
    }
}

/// The zig-zag mapping of signed to unsigned integers: the sign lands in the
/// least-significant bit (1 for negative values).
pub open spec fn zigzag(v: int) -> nat {
    if v >= 0 {
        (2 * v) as nat
    } else {
        (-2 * v - 1) as nat
    }
}

/// The inverse of [`zigzag`].
pub open spec fn unzigzag(n: nat) -> int {
    if n % 2 == 0 {
        (n / 2) as int
    } else {
        -((n + 1) / 2)
    }
}

/// Zig-zag is a bijection between signed and unsigned integers.
pub proof fn lemma_zigzag_roundtrip()
    ensures
        forall|v: int| unzigzag(#[trigger] zigzag(v)) == v,
        forall|n: nat| zigzag(#[trigger] unzigzag(n)) == n,
{
}

/// Zig-zag maps the `bits`-wide signed range onto the `bits`-wide unsigned
/// range: narrowing a decoded value is safe exactly within these bounds.
pub proof fn lemma_zigzag_bounds(n: nat, bits: nat)
    requires
        bits >= 1,
        n < pow2(bits),
    ensures
        -(pow2((bits - 1) as nat) as int) <= unzigzag(n) < pow2((bits - 1) as nat),
{
    assert(pow2(bits) == 2 * pow2((bits - 1) as nat)) by {
        lemma_pow2_adds(1, (bits - 1) as nat);
        lemma2_to64();
    }
}

/// Executable zig-zag of a signed value.
pub fn zigzag_encode(v: i128) -> (r: u128)
    ensures
        r as nat == zigzag(v as int),
{
    if v >= 0 {
        (v as u128) * 2
    } else {
        let m: i128 = -(v + 1);
        (m as u128) * 2 + 1
    }
}

/// Executable inverse zig-zag.
pub fn zigzag_decode(n: u128) -> (r: i128)
    ensures
        r as int == unzigzag(n as nat),
{
    if n % 2 == 0 {
        (n / 2) as i128
    } else {
        let h: u128 = (n - 1) / 2;
        -(h as i128) - 1
    }
}

/// The contract of writing the VarInt encoding of `v` to a sink that moved
/// from `pre` to `post`: on success exactly the bytes [`varint_enc`]`(v)` are
/// appended; a refused write reports the sink's own error for the first byte
/// that did not fit.
pub open spec fn varint_encode_ensures<O: Output>(
    pre: O,
    post: O,
    v: nat,
    r: Result<(), Error>,
) -> bool {
    &&& (r is Ok <==> pre.space() >= varint_enc(v).len())
    &&& r is Ok ==> {
        &&& post.out_bytes() == pre.out_bytes() + varint_enc(v)
        &&& post.space() == pre.space() - varint_enc(v).len()
        &&& forall|n: nat| post.write_err(n) == pre.write_err(n + varint_enc(v).len())
    }
    &&& r is Err ==> r->Err_0 == pre.write_err(pre.space() + 1)
}

/// Write the minimal VarInt encoding of `value` to the sink: the bytes
/// [`varint_enc`]`(value)` in order, one at a time. On a refused write the
/// sink keeps the prefix that fit and the sink's own error is returned.
#[verifier::loop_isolation(false)]
pub fn encode_varint<O: Output>(out: &mut O, value: u128) -> (r: Result<(), Error>)
    ensures
        varint_encode_ensures(*old(out), *final(out), value as nat, r),
{
    let ghost enc = varint_enc(value as nat);
    let ghost orig = *out;
    let mut v: u128 = value;
    let ghost mut k: nat = 0nat;
    loop
        invariant
            enc == out.out_bytes().skip(orig.out_bytes().len() as int) + varint_enc(v as nat),
            out.out_bytes().len() == orig.out_bytes().len() + k,
            out.out_bytes().take(orig.out_bytes().len() as int) == orig.out_bytes(),
            orig.space() >= k,
            out.space() == orig.space() - k,
            k + varint_enc(v as nat).len() == enc.len(),
            forall|n: nat| out.write_err(n) == orig.write_err(n + k),
        decreases v,
    {
        let b: u8 = (v % 128) as u8;
        if v < 128 {
            match out.write_byte(b) {
                Ok(()) => {
                    proof {
                        assert(varint_enc(v as nat) == seq![b]);
                        assert(out.out_bytes() =~= orig.out_bytes() + enc);
                    }
                    return Ok(());
                },
                Err(e) => {
                    proof {
                        assert(orig.space() == k);
                    }
                    return Err(e);
                },
            }
        } else {
            match out.write_byte(b + 128) {
                Ok(()) => {
                    proof {
                        assert(varint_enc(v as nat) == seq![(b + 128) as u8] + varint_enc(
                            (v / 128) as nat,
                        ));
                        k = k + 1;
                        assert(enc =~= out.out_bytes().skip(orig.out_bytes().len() as int)
                            + varint_enc((v / 128) as nat));
                        assert(out.out_bytes().take(orig.out_bytes().len() as int)
                            =~= orig.out_bytes());
                    }
                    v = v / 128;
                },
                Err(e) => {
                    proof {
                        assert(orig.space() == k);
                    }
                    return Err(e);
                },
            }
        }
    }
}


/// Executable table of the small powers of two used by the width checks.
fn pow2_table(e: u32) -> (r: u8)
    requires
        e < 8,
    ensures
        r as nat == pow2(e as nat),
{
    proof {
        lemma2_to64();
    }
    if e == 0 {
        1
    } else if e == 1 {
        2
    } else if e == 2 {
        4
    } else if e == 3 {
        8
    } else if e == 4 {
        16
    } else if e == 5 {
        32
    } else if e == 6 {
        64
    } else {
        128
    }
}

/// Glue [`varint_parse`] onto the parse result of `pow2(7 * i)`-scaled
/// continuation: what a parse looks like from `i` bytes further left.
pub open spec fn vp_extend(acc: nat, i: nat, o: VarIntOutcome) -> VarIntOutcome {
    match o {
        VarIntOutcome::Value { value, used } => VarIntOutcome::Value {
            value: acc + pow2(7 * i) * value,
            used: used + i,
        },
        other => other,
    }
}

/// The contract of a VarInt decode of width `bits` against an input that
/// moved from `pre` to `post`: the result and the bytes consumed are exactly
/// what [`varint_parse`] says of the available bytes.
pub open spec fn varint_decode_ensures<'de, I: Input<'de>>(
    pre: I,
    post: I,
    bits: nat,
    r: Result<u128, Error>,
) -> bool {
    &&& post.can_borrow() == pre.can_borrow()
    &&& match varint_parse(pre.bytes(), bits, spec_varint_max(bits)) {
        VarIntOutcome::Value { value, used } => {
            &&& r is Ok
            &&& r->Ok_0 as nat == value
            &&& post.bytes() == pre.bytes().skip(used as int)
            &&& forall|c: nat, n: nat| post.fail_err(c, n) == pre.fail_err(c + used, n)
        },
        VarIntOutcome::TooLarge => r == Err::<u128, Error>(Error::VarIntTooLarge),
        VarIntOutcome::Incomplete => r == Err::<u128, Error>(
            pre.fail_err(pre.bytes().len(), 1),
        ),
    }
}

/// The same contract for a signed decode: the unsigned value is mapped back
/// through [`unzigzag`].
pub open spec fn varint_decode_signed_ensures<'de, I: Input<'de>>(
    pre: I,
    post: I,
    bits: nat,
    r: Result<i128, Error>,
) -> bool {
    &&& post.can_borrow() == pre.can_borrow()
    &&& match varint_parse(pre.bytes(), bits, spec_varint_max(bits)) {
        VarIntOutcome::Value { value, used } => {
            &&& r is Ok
            &&& r->Ok_0 as int == unzigzag(value)
            &&& post.bytes() == pre.bytes().skip(used as int)
            &&& forall|c: nat, n: nat| post.fail_err(c, n) == pre.fail_err(c + used, n)
        },
        VarIntOutcome::TooLarge => r == Err::<i128, Error>(Error::VarIntTooLarge),
        VarIntOutcome::Incomplete => r == Err::<i128, Error>(
            pre.fail_err(pre.bytes().len(), 1),
        ),
    }
}

/// Read a VarInt of width `bits` from the source. Redundant zero high bytes
/// are accepted; bits beyond `bits`, or a missing final byte, are errors.
#[verifier::loop_isolation(false)]
pub fn decode_varint<'de, I: Input<'de>>(input: &mut I, bits: u32) -> (r: Result<u128, Error>)
    requires
        1 <= bits <= 128,
    ensures
        varint_decode_ensures(*old(input), *final(input), bits as nat, r),
{
    let ghost s0 = old(input).bytes();
    let maxb: usize = crate::format::varint_max(bits);
    let mut value: u128 = 0;
    let mut pow: u128 = 1;
    let mut bits_rem: u32 = bits;
    let mut i: usize = 0;
    proof {
        lemma2_to64();
        assert(pow2(128) == pow2(64) * pow2(64)) by {
            lemma_pow2_adds(64, 64);
        }
        assert(u128::MAX as nat == pow2(128) - 1);
    }
    loop
        invariant
            i < maxb,
            i <= s0.len(),
            input.bytes() == s0.skip(i as int),
            input.can_borrow() == old(input).can_borrow(),
            forall|c: nat, n: nat|
                input.fail_err(c, n) == old(input).fail_err(c + i as nat, n),
            bits_rem as int == if bits as int - 7 * (i as int) >= 0 {
                bits as int - 7 * (i as int)
            } else {
                0
            },
            7 * i <= 126,
            pow as nat == pow2((7 * i) as nat),
            (value as nat) < pow2((7 * i) as nat),
            varint_parse(s0, bits as nat, maxb as nat) == vp_extend(
                value as nat,
                i as nat,
                varint_parse(input.bytes(), bits_rem as nat, (maxb - i) as nat),
            ),
        decreases maxb - i,
    {
        let ghost si = input.bytes();
        let ghost iold = i as nat;
        let ghost vold = value as nat;
        let ghost powold = pow as nat;
        let ghost brold = bits_rem as nat;
        let b: u8 = match input.read_byte() {
            Ok(b) => b,
            Err(e) => {
                proof {
                    assert(si.len() == 0);
                    assert(s0.len() == i);
                }
                return Err(e);
            },
        };
        proof {
            assert(si[0] == b);
            assert(input.bytes() =~= s0.skip((i + 1) as int));
        }
        if bits_rem < 8 {
            let p: u8 = pow2_table(bits_rem);
            if b % 128 >= p {
                return Err(Error::VarIntTooLarge);
            }
        }
        let bl: u8 = b % 128;
        proof {
            lemma_pow2_pos(brold);
            lemma_pow2_pos((7 * iold) as nat);
            if brold >= 8 {
                assert(pow2(7) == 128);
                lemma_pow2_strictly_increases(7, brold);
            } else {
                assert((bl as nat) < pow2(brold));
            }
            // The new accumulated value stays strictly below pow2(7*(i+1)),
            // and below pow2(128), so the arithmetic cannot overflow.
            lemma_pow2_adds((7 * iold) as nat, 7);
            if brold < 8 {
                if brold > 0 {
                    assert(7 * iold + brold <= 128);
                    lemma_pow2_adds((7 * iold) as nat, brold);
                    assert(vold + (bl as nat) * powold < pow2((7 * iold + brold) as nat))
                        by (nonlinear_arith)
                        requires
                            vold < powold,
                            (bl as nat) < pow2(brold),
                            powold == pow2((7 * iold) as nat),
                            pow2((7 * iold + brold) as nat) == pow2((7 * iold) as nat) * pow2(
                                brold,
                            ),
                            pow2(brold) >= 1,
                            powold >= 1;
                    assert(pow2((7 * iold + brold) as nat) <= pow2(128)) by {
                        if 7 * iold + brold < 128 {
                            lemma_pow2_strictly_increases((7 * iold + brold) as nat, 128);
                        }
                    }
                    assert(pow2((7 * iold + brold) as nat) <= pow2((7 * iold + 7) as nat)) by {
                        if brold < 7 {
                            lemma_pow2_strictly_increases(
                                (7 * iold + brold) as nat,
                                (7 * iold + 7) as nat,
                            );
                        }
                    }
                } else {
                    assert(pow2(0) == 1);
                    assert(bl == 0);
                    assert(vold + (bl as nat) * powold == vold);
                    lemma_pow2_strictly_increases((7 * iold) as nat, (7 * iold + 7) as nat);
                    assert(pow2((7 * iold) as nat) <= pow2(126));
                }
            } else {
                assert(vold + (bl as nat) * powold < pow2((7 * iold + 7) as nat))
                    by (nonlinear_arith)
                    requires
                        vold < powold,
                        (bl as nat) < 128,
                        powold == pow2((7 * iold) as nat),
                        pow2((7 * iold + 7) as nat) == pow2((7 * iold) as nat) * 128,
                        powold >= 1;
                assert(7 * iold + 7 < bits);
                assert(pow2((7 * iold + 7) as nat) <= pow2(128)) by {
                    lemma_pow2_strictly_increases((7 * iold + 7) as nat, 128);
                }
            }
            assert(pow2(126) < pow2(128)) by {
                lemma_pow2_strictly_increases(126, 128);
            }
            assert(vold + (bl as nat) * powold < pow2(128));
        }
        let part: u128 = (bl as u128) * pow;
        value = value + part;
        proof {
            assert(value as nat == vold + (bl as nat) * powold);
            assert((value as nat) < pow2((7 * iold + 7) as nat));
        }
        if b < 128 {
            proof {
                assert(varint_parse(si, brold, (maxb - iold) as nat) == (VarIntOutcome::Value {
                    value: b as nat,
                    used: 1nat,
                }));
                assert((bl as nat) == b as nat);
                assert(value as nat == vold + powold * (b as nat)) by (nonlinear_arith)
                    requires
                        value as nat == vold + (bl as nat) * powold,
                        (bl as nat) == b as nat;
                assert(varint_parse(s0, bits as nat, maxb as nat) == (VarIntOutcome::Value {
                    value: value as nat,
                    used: (iold + 1) as nat,
                }));
            }
            return Ok(value);
        }
        proof {
            // One parse step: peel the continuation byte.
            let brnew: nat = if brold >= 7 {
                (brold - 7) as nat
            } else {
                0
            };
            let inner = varint_parse(si.drop_first(), brnew, (maxb - iold - 1) as nat);
            assert(si.drop_first() =~= s0.skip((iold + 1) as int));
            match inner {
                VarIntOutcome::Value { value: v, used: u } => {
                    assert(varint_parse(si, brold, (maxb - iold) as nat) == (VarIntOutcome::Value {
                        value: ((b as nat - 128) + 128 * v) as nat,
                        used: (u + 1) as nat,
                    }));
                    assert(vold + pow2((7 * iold) as nat) * ((b as nat - 128) + 128 * v) == (value
                        as nat) + pow2((7 * (iold + 1)) as nat) * v) by (nonlinear_arith)
                        requires
                            value as nat == vold + (bl as nat) * powold,
                            (bl as nat) == b as nat - 128,
                            powold == pow2((7 * iold) as nat),
                            pow2((7 * (iold + 1)) as nat) == pow2((7 * iold) as nat) * 128;
                },
                _ => {},
            }
        }
        i = i + 1;
        if i == maxb {
            return Err(Error::VarIntTooLarge);
        }
        proof {
            lemma_pow2_adds((7 * iold) as nat, 7);
            assert(7 * iold + 7 <= 126);
            assert(pow2((7 * iold + 7) as nat) <= pow2(126)) by {
                if 7 * iold + 7 < 126 {
                    lemma_pow2_strictly_increases((7 * iold + 7) as nat, 126);
                }
            }
            assert(pow2(126) < pow2(128)) by {
                lemma_pow2_strictly_increases(126, 128);
            }
        }
        pow = pow * 128;
        bits_rem = if bits_rem >= 7 {
            bits_rem - 7
        } else {
            0
        };
        proof {
            lemma_pow2_adds((7 * iold) as nat, 7);
            assert(pow as nat == pow2((7 * i) as nat));
        }
    }
}


/// Write the zig-zag VarInt encoding of a signed value.
pub fn encode_varint_signed<O: Output>(out: &mut O, value: i128) -> (r: Result<(), Error>)
    ensures
        varint_encode_ensures(*old(out), *final(out), zigzag(value as int), r),
{
    let u: u128 = zigzag_encode(value);
    encode_varint(out, u)
}

/// Read a VarInt as a `u8`.
pub fn decode_varint_u8<'de, I: Input<'de>>(input: &mut I) -> (r: Result<u8, Error>)
    ensures
        varint_decode_ensures(
            *old(input),
            *final(input),
            8,
            match r {
                Ok(v) => Ok::<u128, Error>(v as u128),
                Err(e) => Err::<u128, Error>(e),
            },
        ),
{
    let ghost pre = *input;
    match decode_varint(input, 8) {
        Ok(v) => {
            proof {
                lemma_varint_parse_bound(pre.bytes(), 8, spec_varint_max(8));
                lemma2_to64();
            }
            Ok(v as u8)
        },
        Err(e) => Err(e),
    }
}

/// Read a VarInt as a `u16`.
pub fn decode_varint_u16<'de, I: Input<'de>>(input: &mut I) -> (r: Result<u16, Error>)
    ensures
        varint_decode_ensures(
            *old(input),
            *final(input),
            16,
            match r {
                Ok(v) => Ok::<u128, Error>(v as u128),
                Err(e) => Err::<u128, Error>(e),
            },
        ),
{
    let ghost pre = *input;
    match decode_varint(input, 16) {
        Ok(v) => {
            proof {
                lemma_varint_parse_bound(pre.bytes(), 16, spec_varint_max(16));
                lemma2_to64();
            }
            Ok(v as u16)
        },
        Err(e) => Err(e),
    }
}

/// Read a VarInt as a `u32`.
pub fn decode_varint_u32<'de, I: Input<'de>>(input: &mut I) -> (r: Result<u32, Error>)
    ensures
        varint_decode_ensures(
            *old(input),
            *final(input),
            32,
            match r {
                Ok(v) => Ok::<u128, Error>(v as u128),
                Err(e) => Err::<u128, Error>(e),
            },
        ),
{
    let ghost pre = *input;
    match decode_varint(input, 32) {
        Ok(v) => {
            proof {
                lemma_varint_parse_bound(pre.bytes(), 32, spec_varint_max(32));
                lemma2_to64();
            }
            Ok(v as u32)
        },
        Err(e) => Err(e),
    }
}

/// Read a VarInt as a `u64`.
pub fn decode_varint_u64<'de, I: Input<'de>>(input: &mut I) -> (r: Result<u64, Error>)
    ensures
        varint_decode_ensures(
            *old(input),
            *final(input),
            64,
            match r {
                Ok(v) => Ok::<u128, Error>(v as u128),
                Err(e) => Err::<u128, Error>(e),
            },
        ),
{
    let ghost pre = *input;
    match decode_varint(input, 64) {
        Ok(v) => {
            proof {
                lemma_varint_parse_bound(pre.bytes(), 64, spec_varint_max(64));
                lemma2_to64();
            }
            Ok(v as u64)
        },
        Err(e) => Err(e),
    }
}

/// Read a VarInt as a `u128`.
pub fn decode_varint_u128<'de, I: Input<'de>>(input: &mut I) -> (r: Result<u128, Error>)
    ensures
        varint_decode_ensures(*old(input), *final(input), 128, r),
{
    decode_varint(input, 128)
}

/// Read a VarInt as a `usize`, at the platform's pointer width.
pub fn decode_varint_usize<'de, I: Input<'de>>(input: &mut I) -> (r: Result<usize, Error>)
    ensures
        varint_decode_ensures(
            *old(input),
            *final(input),
            usize::BITS as nat,
            match r {
                Ok(v) => Ok::<u128, Error>(v as u128),
                Err(e) => Err::<u128, Error>(e),
            },
        ),
{
    let ghost pre = *input;
    let bits: u32 = usize::BITS;
    match decode_varint(input, bits) {
        Ok(v) => {
            proof {
                lemma_varint_parse_bound(pre.bytes(), bits as nat, spec_varint_max(bits as nat));
                lemma2_to64();
                assert(pow2(32) == 0x1_0000_0000);
                assert(pow2(64) == 0x1_0000_0000_0000_0000);
            }
            Ok(v as usize)
        },
        Err(e) => Err(e),
    }
}

/// Read a zig-zag VarInt as an `i8`.
pub fn decode_varint_i8<'de, I: Input<'de>>(input: &mut I) -> (r: Result<i8, Error>)
    ensures
        varint_decode_signed_ensures(
            *old(input),
            *final(input),
            8,
            match r {
                Ok(v) => Ok::<i128, Error>(v as i128),
                Err(e) => Err::<i128, Error>(e),
            },
        ),
{
    let ghost pre = *input;
    match decode_varint(input, 8) {
        Ok(u) => {
            proof {
                lemma_varint_parse_bound(pre.bytes(), 8, spec_varint_max(8));
                lemma_zigzag_bounds(u as nat, 8);
                lemma2_to64();
            }
            let sv: i128 = zigzag_decode(u);
            Ok(sv as i8)
        },
        Err(e) => Err(e),
    }
}

/// Read a zig-zag VarInt as an `i16`.
pub fn decode_varint_i16<'de, I: Input<'de>>(input: &mut I) -> (r: Result<i16, Error>)
    ensures
        varint_decode_signed_ensures(
            *old(input),
            *final(input),
            16,
            match r {
                Ok(v) => Ok::<i128, Error>(v as i128),
                Err(e) => Err::<i128, Error>(e),
            },
        ),
{
    let ghost pre = *input;
    match decode_varint(input, 16) {
        Ok(u) => {
            proof {
                lemma_varint_parse_bound(pre.bytes(), 16, spec_varint_max(16));
                lemma_zigzag_bounds(u as nat, 16);
                lemma2_to64();
            }
            let sv: i128 = zigzag_decode(u);
            Ok(sv as i16)
        },
        Err(e) => Err(e),
    }
}

/// Read a zig-zag VarInt as an `i32`.
pub fn decode_varint_i32<'de, I: Input<'de>>(input: &mut I) -> (r: Result<i32, Error>)
    ensures
        varint_decode_signed_ensures(
            *old(input),
            *final(input),
            32,
            match r {
                Ok(v) => Ok::<i128, Error>(v as i128),
                Err(e) => Err::<i128, Error>(e),
            },
        ),
{
    let ghost pre = *input;
    match decode_varint(input, 32) {
        Ok(u) => {
            proof {
                lemma_varint_parse_bound(pre.bytes(), 32, spec_varint_max(32));
                lemma_zigzag_bounds(u as nat, 32);
                lemma2_to64();
            }
            let sv: i128 = zigzag_decode(u);
            Ok(sv as i32)
        },
        Err(e) => Err(e),
    }
}

/// Read a zig-zag VarInt as an `i64`.
pub fn decode_varint_i64<'de, I: Input<'de>>(input: &mut I) -> (r: Result<i64, Error>)
    ensures
        varint_decode_signed_ensures(
            *old(input),
            *final(input),
            64,
            match r {
                Ok(v) => Ok::<i128, Error>(v as i128),
                Err(e) => Err::<i128, Error>(e),
            },
        ),
{
    let ghost pre = *input;
    match decode_varint(input, 64) {
        Ok(u) => {
            proof {
                lemma_varint_parse_bound(pre.bytes(), 64, spec_varint_max(64));
                lemma_zigzag_bounds(u as nat, 64);
                lemma2_to64();
            }
            let sv: i128 = zigzag_decode(u);
            Ok(sv as i64)
        },
        Err(e) => Err(e),
    }
}

/// Read a zig-zag VarInt as an `i128`.
pub fn decode_varint_i128<'de, I: Input<'de>>(input: &mut I) -> (r: Result<i128, Error>)
    ensures
        varint_decode_signed_ensures(*old(input), *final(input), 128, r),
{
    let ghost pre = *input;
    match decode_varint(input, 128) {
        Ok(u) => {
            proof {
                lemma_varint_parse_bound(pre.bytes(), 128, spec_varint_max(128));
                lemma_zigzag_bounds(u as nat, 128);
                lemma2_to64();
                assert(pow2(128) == pow2(64) * pow2(64)) by {
                    lemma_pow2_adds(64, 64);
                }
                assert(pow2(127) == pow2(64) * pow2(63)) by {
                    lemma_pow2_adds(64, 63);
                }
            }
            let sv: i128 = zigzag_decode(u);
            Ok(sv)
        },
        Err(e) => Err(e),
    }
}

/// Read a zig-zag VarInt as an `isize`, at the platform's pointer width.
pub fn decode_varint_isize<'de, I: Input<'de>>(input: &mut I) -> (r: Result<isize, Error>)
    ensures
        varint_decode_signed_ensures(
            *old(input),
            *final(input),
            usize::BITS as nat,
            match r {
                Ok(v) => Ok::<i128, Error>(v as i128),
                Err(e) => Err::<i128, Error>(e),
            },
        ),
{
    let ghost pre = *input;
    let bits: u32 = usize::BITS;
    match decode_varint(input, bits) {
        Ok(u) => {
            proof {
                lemma_varint_parse_bound(pre.bytes(), bits as nat, spec_varint_max(bits as nat));
                lemma_zigzag_bounds(u as nat, bits as nat);
                lemma2_to64();
            }
            let sv: i128 = zigzag_decode(u);
            Ok(sv as isize)
        },
        Err(e) => Err(e),
    }
}

} // verus!
