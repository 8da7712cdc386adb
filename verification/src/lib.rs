//! A self-describing binary encoding for structured data.
//!
//! Values are encoded as a flat stream of tagged items: a one-byte type tag,
//! then a payload. Integers use a variable-length base-128 encoding (signed
//! ones via a zig-zag mapping), strings and byte blobs are length-prefixed,
//! and sequences and maps are bracketed by start and end tags, so nested
//! structure of unknown size can be streamed.
//!
//! The encoder and decoder never touch memory directly: all bytes flow
//! through the [`io::Input`] and [`io::Output`] traits, so the same logic
//! runs over a borrowing slice, a growable buffer, a bounded fixed-capacity
//! buffer, or a caller-supplied streaming backend, optionally wrapped in the
//! [`io::SizeLimit`] byte budget.
//!
//! The [`value::Value`] tree is a schema-less representation of any decodable
//! value; [`to_vec`] and [`from_slice`] and their variants encode and decode
//! such trees directly.

use vstd::prelude::*;

pub mod buffer;
pub mod config;
pub mod de;
pub mod error;
pub mod format;
pub mod io;
pub mod ser;
pub mod value;
pub mod varint;

pub use crate::config::Config;
pub use crate::de::Deserializer;
pub use crate::error::Error;
pub use crate::error::Expected;
pub use crate::format::Type;
pub use crate::io::BoundedOutput;
pub use crate::io::SizeLimit;
pub use crate::ser::Serializer;
pub use crate::value::Value;

use crate::io::Input;
use crate::io::Output;
use crate::value::decode::ValueParse;
use crate::value::decode::value_parse;
use crate::value::encode::value_enc;

verus! {

/// The part of the input a decode can see: all of it, or the first
/// `max_size` bytes when a byte budget is configured.
pub open spec fn visible_input(s: Seq<u8>, max: Option<usize>) -> Seq<u8> {
    match max {
        None => s,
        Some(m) => if (m as nat) < s.len() {
            s.take(m as int)
        } else {
            s
        },
    }
}

/// The error a read past the visible end reports: the byte budget when it
/// binds, else the end of the input.
pub open spec fn end_err(max: Option<usize>, at: nat, want: nat) -> Error {
    match max {
        None => Error::UnexpectedEnd,
        Some(m) => if at + want > m as nat {
            Error::LimitReached
        } else {
            Error::UnexpectedEnd
        },
    }
}

/// Decode a value from a slice of bytes using the given configuration.
///
/// The result is exactly what [`value_parse`] says of the visible input:
/// its value with string and byte payloads borrowed from `bytes`, its
/// error, or — when bytes remain after a complete value and the
/// configuration refuses excess data — [`Error::ExcessData`].
pub fn from_slice_with_config<'de>(bytes: &'de [u8], config: Config) -> (r: Result<
    Value<'de>,
    Error,
>)
    ensures
        ({
            let vis = visible_input(bytes@, config.max_size);
            match value_parse(vis) {
                ValueParse::Found { v, used } => {
                    if config.error_on_excess_data && used < vis.len() {
                        r == Err::<Value<'de>, Error>(Error::ExcessData)
                    } else {
                        &&& r matches Ok(res)
                        &&& res.view() == v
                        &&& res.is_fully_borrowed()
                    }
                },
                ValueParse::Bad { e } => r == Err::<Value<'de>, Error>(e),
                ValueParse::Incomplete { at, want } => r == Err::<Value<'de>, Error>(
                    end_err(config.max_size, at, want),
                ),
            }
        }),
{
    match config.max_size {
        Some(m) => {
            let input: SizeLimit<&'de [u8]> = SizeLimit::new(bytes, m);
            proof {
                assert(input.bytes() =~= visible_input(bytes@, config.max_size));
            }
            let mut de: Deserializer<SizeLimit<&'de [u8]>, ()> = Deserializer::new(input);
            let value = match de.decode_value() {
                Ok(v) => v,
                Err(e) => {
                    return Err(e);
                },
            };
            proof {
                crate::value::decode::lemma_parse_used_value(
                    visible_input(bytes@, config.max_size),
                );
            }
            let mut rest: SizeLimit<&'de [u8]> = de.into_input();
            let more = match rest.peek_byte() {
                Ok(_) => true,
                Err(_) => false,
            };
            if config.error_on_excess_data && more {
                return Err(Error::ExcessData);
            }
            Ok(value)
        },
        None => {
            let mut de: Deserializer<&'de [u8], ()> = Deserializer::new(bytes);
            let value = match de.decode_value() {
                Ok(v) => v,
                Err(e) => {
                    return Err(e);
                },
            };
            proof {
                crate::value::decode::lemma_parse_used_value(
                    visible_input(bytes@, config.max_size),
                );
            }
            let mut rest: &'de [u8] = de.into_input();
            let more = match rest.peek_byte() {
                Ok(_) => true,
                Err(_) => false,
            };
            if config.error_on_excess_data && more {
                return Err(Error::ExcessData);
            }
            Ok(value)
        },
    }
}

/// Decode a value from a slice of bytes with the default configuration:
/// excess data refused, no byte budget.
pub fn from_slice<'de>(bytes: &'de [u8]) -> (r: Result<Value<'de>, Error>)
    ensures
        ({
            match value_parse(bytes@) {
                ValueParse::Found { v, used } => {
                    if used < bytes@.len() {
                        r == Err::<Value<'de>, Error>(Error::ExcessData)
                    } else {
                        &&& r matches Ok(res)
                        &&& res.view() == v
                        &&& res.is_fully_borrowed()
                    }
                },
                ValueParse::Bad { e } => r == Err::<Value<'de>, Error>(e),
                ValueParse::Incomplete { at, want } => r == Err::<Value<'de>, Error>(
                    Error::UnexpectedEnd,
                ),
            }
        }),
{
    from_slice_with_config(bytes, Config::default())
}

/// Encode a value into a growable byte vector using the given
/// configuration: exactly [`value_enc`] of its shape, or
/// [`Error::LimitReached`] when the configured byte budget is smaller.
pub fn to_vec_with_config(value: &Value<'_>, config: Config) -> (r: Result<Vec<u8>, Error>)
    ensures
        ({
            let enc = value_enc(value.view());
            match config.max_size {
                None => {
                    &&& (r is Ok <==> enc.len() <= usize::MAX)
                    &&& r matches Ok(out) ==> out@ == enc
                    &&& r is Err ==> r->Err_0 == Error::Allocation
                },
                Some(m) => {
                    &&& (r is Ok <==> enc.len() <= m as nat)
                    &&& r matches Ok(out) ==> out@ == enc
                    &&& r is Err ==> r->Err_0 == Error::LimitReached
                },
            }
        }),
{
    match config.max_size {
        Some(m) => {
            let out: SizeLimit<Vec<u8>> = SizeLimit::new(Vec::new(), m);
            let mut ser: Serializer<SizeLimit<Vec<u8>>> = Serializer::new(out).use_indices(
                config.use_indices,
            );
            match crate::value::encode::encode_value(&mut ser, value) {
                Ok(()) => Ok(ser.into_output().into_inner()),
                Err(e) => Err(e),
            }
        },
        None => {
            let mut ser: Serializer<Vec<u8>> = Serializer::new(Vec::new()).use_indices(
                config.use_indices,
            );
            match crate::value::encode::encode_value(&mut ser, value) {
                Ok(()) => Ok(ser.into_output()),
                Err(e) => Err(e),
            }
        },
    }
}

/// Encode a value into a growable byte vector with the default
/// configuration.
pub fn to_vec(value: &Value<'_>) -> (r: Result<Vec<u8>, Error>)
    ensures
        ({
            let enc = value_enc(value.view());
            &&& (r is Ok <==> enc.len() <= usize::MAX)
            &&& r matches Ok(out) ==> out@ == enc
            &&& r is Err ==> r->Err_0 == Error::Allocation
        }),
{
    to_vec_with_config(value, Config::default())
}

/// Encode a value into a fixed-capacity buffer using the given
/// configuration: the written prefix is returned, or
/// [`Error::BufferTooSmall`] when the value does not fit the capacity, or
/// [`Error::LimitReached`] when the byte budget is smaller still.
pub fn to_bounded_vec_with_config(value: &Value<'_>, cap: usize, config: Config) -> (r: Result<
    Vec<u8>,
    Error,
>)
    ensures
        ({
            let enc = value_enc(value.view());
            match config.max_size {
                None => {
                    &&& (r is Ok <==> enc.len() <= cap as nat)
                    &&& r matches Ok(out) ==> out@ == enc
                    &&& r is Err ==> r->Err_0 == Error::BufferTooSmall
                },
                Some(m) => {
                    &&& (r is Ok <==> enc.len() <= cap as nat && enc.len() <= m as nat)
                    &&& r matches Ok(out) ==> out@ == enc
                    &&& r is Err ==> (r->Err_0 == Error::BufferTooSmall || r->Err_0
                        == Error::LimitReached)
                    &&& r is Err && cap as nat >= m as nat ==> r->Err_0 == Error::LimitReached
                },
            }
        }),
{
    match config.max_size {
        Some(m) => {
            let out: SizeLimit<BoundedOutput> = SizeLimit::new(BoundedOutput::new(cap), m);
            let mut ser: Serializer<SizeLimit<BoundedOutput>> = Serializer::new(out).use_indices(
                config.use_indices,
            );
            match crate::value::encode::encode_value(&mut ser, value) {
                Ok(()) => Ok(ser.into_output().into_inner().into_inner()),
                Err(e) => Err(e),
            }
        },
        None => {
            let mut ser: Serializer<BoundedOutput> = Serializer::new(BoundedOutput::new(cap))
                .use_indices(config.use_indices);
            match crate::value::encode::encode_value(&mut ser, value) {
                Ok(()) => Ok(ser.into_output().into_inner()),
                Err(e) => Err(e),
            }
        },
    }
}

/// Encode a value into a fixed-capacity buffer with the default
/// configuration.
pub fn to_bounded_vec(value: &Value<'_>, cap: usize) -> (r: Result<Vec<u8>, Error>)
    ensures
        ({
            let enc = value_enc(value.view());
            &&& (r is Ok <==> enc.len() <= cap as nat)
            &&& r matches Ok(out) ==> out@ == enc
            &&& r is Err ==> r->Err_0 == Error::BufferTooSmall
        }),
{
    to_bounded_vec_with_config(value, cap, Config::default())
}

} // verus!
