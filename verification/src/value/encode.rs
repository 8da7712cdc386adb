//! Encoding a value tree to wire bytes.
//!
//! [`value_enc`] pins down the exact byte sequence of every value shape;
//! [`encode_value`] writes it through any [`Output`]-backed encoder.

use vstd::prelude::*;

use crate::error::Error;
use crate::io::Output;
use crate::ser::Serializer;
use crate::ser::ser_ensures;
use crate::ser::enc_null;
use crate::ser::enc_bool;
use crate::ser::enc_unsigned;
use crate::ser::enc_signed;
use crate::ser::enc_f32;
use crate::ser::enc_f64;
use crate::ser::enc_bytes;
use crate::ser::enc_string;
use crate::ser::enc_seq_start;
use crate::ser::enc_seq_end;
use crate::ser::enc_map_start;
use crate::ser::enc_map_end;
use crate::value::Value;
use crate::value::ValueModel;
use crate::value::Integer;
use crate::value::Float;
use crate::value::view_list;
use crate::value::view_pairs;
use crate::value::lemma_view_list_len;
use crate::value::lemma_view_pairs_len;

verus! {

/// The wire bytes of a value shape: one tagged item, with sequences and
/// maps bracketed by start and end tags.
pub open spec fn value_enc(v: ValueModel) -> Seq<u8>
    decreases v,
{
    match v {
        ValueModel::Null => enc_null(),
        ValueModel::Bool(b) => enc_bool(b),
        ValueModel::Unsigned(u) => enc_unsigned(u as nat),
        ValueModel::Signed(i) => enc_signed(i as int),
        ValueModel::F32(b) => enc_f32(b),
        ValueModel::F64(b) => enc_f64(b),
        ValueModel::Bytes(b) => enc_bytes(b),
        ValueModel::Text(b) => enc_string(b),
        ValueModel::Array(vs) => enc_seq_start() + value_enc_list(vs) + enc_seq_end(),
        ValueModel::Mapping(ps) => enc_map_start() + value_enc_pairs(ps) + enc_map_end(),
    }
}

/// The concatenated wire bytes of a sequence of value shapes.
pub open spec fn value_enc_list(s: Seq<ValueModel>) -> Seq<u8>
    decreases s,
{
    if s.len() == 0 {
        Seq::empty()
    } else {
        value_enc(s[0]) + value_enc_list(s.drop_first())
    }
}

/// The concatenated wire bytes of a sequence of key/value shape pairs.
pub open spec fn value_enc_pairs(s: Seq<(ValueModel, ValueModel)>) -> Seq<u8>
    decreases s,
{
    if s.len() == 0 {
        Seq::empty()
    } else {
        value_enc(s[0].0) + value_enc(s[0].1) + value_enc_pairs(s.drop_first())
    }
}

/// An encoded item always spans at least one byte.
pub proof fn lemma_value_enc_nonempty(v: ValueModel)
    ensures
        value_enc(v).len() >= 1,
{
}

/// Encode one value: write exactly [`value_enc`] of its shape. Success is
/// owed whenever the sink has room for all of it; on a refused write the
/// sink's own error comes back and the bytes written so far stay.
#[verifier::loop_isolation(false)]
pub fn encode_value<'a, O: Output>(ser: &mut Serializer<O>, v: &Value<'a>) -> (r: Result<
    (),
    Error,
>)
    ensures
        ser_ensures(*old(ser), *final(ser), value_enc(v.view()), r),
    decreases *v,
{
    let ghost pre = *ser;
    let ghost total = value_enc(v.view());
    match v {
        Value::Null => ser.serialize_none(),
        Value::Bool(b) => ser.serialize_bool(*b),
        Value::Integer(Integer::Unsigned(u)) => ser.serialize_unsigned(*u),
        Value::Integer(Integer::Signed(i)) => ser.serialize_signed(*i),
        Value::Float(Float::F32(bits)) => ser.serialize_f32_bits(*bits),
        Value::Float(Float::F64(bits)) => ser.serialize_f64_bits(*bits),
        Value::Bytes(b) => ser.serialize_bytes(b.as_slice()),
        Value::String(s) => ser.serialize_str(s.as_str()),
        Value::Array(items) => {
            let ghost vl = view_list(items@);
            proof {
                lemma_view_list_len(items@);
            }
            match ser.begin_seq() {
                Ok(()) => {},
                Err(e) => {
                    proof {
                        lemma_value_enc_nonempty(v.view());
                    }
                    return Err(e);
                },
            }
            let ghost mut done: Seq<u8> = Seq::empty();
            proof {
                assert(vl.skip(0) =~= vl);
                assert(done + value_enc_list(vl) =~= value_enc_list(vl));
            }
            let mut i: usize = 0;
            while i < items.len()
                invariant
                    i <= items@.len(),
                    ser.use_indices == pre.use_indices,
                    ser.output.out_bytes() == pre.output.out_bytes() + enc_seq_start() + done,
                    done + value_enc_list(vl.skip(i as int)) == value_enc_list(vl),
                    pre.output.space() >= 1 + done.len(),
                    ser.output.space() == pre.output.space() - (1 + done.len()),
                    forall|n: nat|
                        ser.output.write_err(n) == pre.output.write_err(n + 1 + done.len()),
                decreases items@.len() - i,
            {
                let c = items.get(i).unwrap();
                proof {
                    crate::value::lemma_view_list_index(items@, i as int);
                    assert(vl.skip(i as int).drop_first() =~= vl.skip(i as int + 1));
                    assert(vl.skip(i as int).len() > 0);
                    assert(vl.skip(i as int)[0] == vl[i as int]);
                    assert(value_enc_list(vl.skip(i as int)) == value_enc(vl[i as int])
                        + value_enc_list(vl.skip(i as int + 1)));
                }
                let ghost mid = *ser;
                match encode_value(ser, c) {
                    Ok(()) => {
                        proof {
                            done = done + value_enc(c.view());
                            assert(ser.output.out_bytes() =~= pre.output.out_bytes()
                                + enc_seq_start() + done);
                            assert(done + value_enc_list(vl.skip(i as int + 1)) =~= value_enc_list(
                                vl,
                            ));
                        }
                        i = i + 1;
                    },
                    Err(e) => {
                        proof {
                            let k: nat = 1 + done.len();
                            let ghost m2 = choose|m2: nat|
                                mid.output.space() < m2 <= value_enc(c.view()).len() && e
                                    == mid.output.write_err(m2);
                            assert(e == pre.output.write_err(m2 + k));
                            assert(value_enc(c.view()).len() <= value_enc_list(
                                vl.skip(i as int),
                            ).len());
                            assert(total == enc_seq_start() + value_enc_list(vl) + enc_seq_end());
                            assert(total.len() == 2 + value_enc_list(vl).len());
                            assert(value_enc_list(vl).len() == done.len() + value_enc_list(
                                vl.skip(i as int),
                            ).len());
                            assert(pre.output.space() < m2 + k);
                            assert(m2 + k <= total.len());
                        }
                        return Err(e);
                    },
                }
            }
            proof {
                assert(vl.skip(items@.len() as int) =~= Seq::<ValueModel>::empty());
                assert(done =~= value_enc_list(vl));
            }
            match ser.end_seq() {
                Ok(()) => {
                    proof {
                        assert(ser.output.out_bytes() =~= pre.output.out_bytes() + total);
                    }
                    Ok(())
                },
                Err(e) => {
                    proof {
                        assert(e == pre.output.write_err(pre.output.space() + 1));
                        assert(pre.output.space() < pre.output.space() + 1 <= total.len());
                    }
                    Err(e)
                },
            }
        },
        Value::Mapping(entries) => {
            let ghost vp = view_pairs(entries@);
            proof {
                lemma_view_pairs_len(entries@);
            }
            match ser.begin_map() {
                Ok(()) => {},
                Err(e) => {
                    proof {
                        lemma_value_enc_nonempty(v.view());
                    }
                    return Err(e);
                },
            }
            let ghost mut done: Seq<u8> = Seq::empty();
            proof {
                assert(vp.skip(0) =~= vp);
                assert(done + value_enc_pairs(vp) =~= value_enc_pairs(vp));
            }
            let mut i: usize = 0;
            while i < entries.len()
                invariant
                    i <= entries@.len(),
                    ser.use_indices == pre.use_indices,
                    ser.output.out_bytes() == pre.output.out_bytes() + enc_map_start() + done,
                    done + value_enc_pairs(vp.skip(i as int)) == value_enc_pairs(vp),
                    pre.output.space() >= 1 + done.len(),
                    ser.output.space() == pre.output.space() - (1 + done.len()),
                    forall|n: nat|
                        ser.output.write_err(n) == pre.output.write_err(n + 1 + done.len()),
                decreases entries@.len() - i,
            {
                let pair = entries.get(i).unwrap();
                proof {
                    crate::value::lemma_view_pairs_index(entries@, i as int);
                    assert(vp.skip(i as int).drop_first() =~= vp.skip(i as int + 1));
                    assert(vp.skip(i as int).len() > 0);
                    assert(vp.skip(i as int)[0] == vp[i as int]);
                    assert(value_enc_pairs(vp.skip(i as int)) == value_enc(vp[i as int].0)
                        + value_enc(vp[i as int].1) + value_enc_pairs(vp.skip(i as int + 1)));
                }
                let ghost mid0 = *ser;
                match encode_value(ser, &pair.0) {
                    Ok(()) => {},
                    Err(e) => {
                        proof {
                            let k: nat = 1 + done.len();
                            let ghost m2 = choose|m2: nat|
                                mid0.output.space() < m2 <= value_enc(pair.0.view()).len() && e
                                    == mid0.output.write_err(m2);
                            assert(e == pre.output.write_err(m2 + k));
                            assert(value_enc(pair.0.view()).len() <= value_enc_pairs(
                                vp.skip(i as int),
                            ).len());
                            assert(total.len() == 2 + value_enc_pairs(vp).len());
                            assert(value_enc_pairs(vp).len() == done.len() + value_enc_pairs(
                                vp.skip(i as int),
                            ).len());
                            assert(pre.output.space() < m2 + k);
                            assert(m2 + k <= total.len());
                        }
                        return Err(e);
                    },
                }
                let ghost mid1 = *ser;
                match encode_value(ser, &pair.1) {
                    Ok(()) => {
                        proof {
                            done = done + value_enc(pair.0.view()) + value_enc(pair.1.view());
                            assert(ser.output.out_bytes() =~= pre.output.out_bytes()
                                + enc_map_start() + done);
                            assert(done + value_enc_pairs(vp.skip(i as int + 1)) =~= value_enc_pairs(
                                vp,
                            ));
                        }
                        i = i + 1;
                    },
                    Err(e) => {
                        proof {
                            let k: nat = 1 + done.len() + value_enc(pair.0.view()).len();
                            let ghost m2 = choose|m2: nat|
                                mid1.output.space() < m2 <= value_enc(pair.1.view()).len() && e
                                    == mid1.output.write_err(m2);
                            assert(e == pre.output.write_err(m2 + k));
                            assert(value_enc(pair.0.view()).len() + value_enc(pair.1.view()).len()
                                <= value_enc_pairs(vp.skip(i as int)).len());
                            assert(total.len() == 2 + value_enc_pairs(vp).len());
                            assert(value_enc_pairs(vp).len() == done.len() + value_enc_pairs(
                                vp.skip(i as int),
                            ).len());
                            assert(pre.output.space() < m2 + k);
                            assert(m2 + k <= total.len());
                        }
                        return Err(e);
                    },
                }
            }
            proof {
                assert(vp.skip(entries@.len() as int) =~= Seq::<(ValueModel, ValueModel)>::empty());
                assert(done =~= value_enc_pairs(vp));
            }
            match ser.end_map() {
                Ok(()) => {
                    proof {
                        assert(ser.output.out_bytes() =~= pre.output.out_bytes() + total);
                    }
                    Ok(())
                },
                Err(e) => {
                    proof {
                        assert(e == pre.output.write_err(pre.output.space() + 1));
                        assert(pre.output.space() < pre.output.space() + 1 <= total.len());
                    }
                    Err(e)
                },
            }
        },
    }
}

} // verus!
