//! Scratch buffers: append-only byte accumulators.
//!
//! A decoder reading from a source that cannot hand out borrowed slices
//! copies length-prefixed payloads into a scratch buffer. The unit type is
//! the "no buffer" buffer: every non-empty write fails, so decoding borrowed
//! data without a real buffer fails cleanly instead of allocating.

use vstd::prelude::*;

use crate::error::Error;

verus! {

/// Scratch buffer interface for different environments.
pub trait Buffer: Sized {
    /// The bytes accumulated so far.
    spec fn buf(&self) -> Seq<u8>;

    /// Appends of at most this many bytes succeed.
    spec fn buf_space(&self) -> nat;

    /// The room the buffer offers right after a clear.
    spec fn buf_capacity(&self) -> nat;

    /// The error reported when an append of `n` bytes is refused.
    spec fn buf_err(&self, n: nat) -> Error;

    /// Clear the buffer.
    fn clear(&mut self)
        ensures
            final(self).buf() == Seq::<u8>::empty(),
            final(self).buf_space() >= old(self).buf_space(),
            final(self).buf_space() == final(self).buf_capacity(),
            final(self).buf_capacity() == old(self).buf_capacity(),
            forall|n: nat| final(self).buf_err(n) == old(self).buf_err(n),
    ;

    /// The accumulated bytes as a slice.
    fn as_slice(&self) -> (r: &[u8])
        ensures
            r@ == self.buf(),
    ;

    /// Append a byte.
    fn push(&mut self, byte: u8) -> (r: Result<(), Error>)
        ensures
            r is Ok <==> old(self).buf_space() >= 1,
            r is Ok ==> final(self).buf() == old(self).buf().push(byte),
            r is Ok ==> final(self).buf_space() == old(self).buf_space() - 1,
            final(self).buf_capacity() == old(self).buf_capacity(),
            r is Err ==> *final(self) == *old(self) && r->Err_0 == old(self).buf_err(1),
    ;

    /// Append all bytes of the given slice, or nothing at all.
    fn extend_from_slice(&mut self, bytes: &[u8]) -> (r: Result<(), Error>)
        ensures
            r is Ok <==> old(self).buf_space() >= bytes@.len(),
            r is Ok ==> final(self).buf() == old(self).buf() + bytes@,
            r is Ok ==> final(self).buf_space() == old(self).buf_space() - bytes@.len(),
            final(self).buf_capacity() == old(self).buf_capacity(),
            r is Err ==> *final(self) == *old(self) && r->Err_0 == old(self).buf_err(bytes@.len()),
    ;
}

/// The "no buffer" buffer: holds nothing and refuses every non-empty append
/// with [`Error::BufferTooSmall`].
impl Buffer for () {
    open spec fn buf(&self) -> Seq<u8> {
        Seq::empty()
    }

    open spec fn buf_space(&self) -> nat {
        0
    }

    open spec fn buf_capacity(&self) -> nat {
        0
    }

    open spec fn buf_err(&self, n: nat) -> Error {
        Error::BufferTooSmall
    }

    fn clear(&mut self) {
    }

    fn as_slice(&self) -> (r: &[u8]) {
        &[]
    }

    fn push(&mut self, byte: u8) -> (r: Result<(), Error>) {
        Err(Error::BufferTooSmall)
    }

    fn extend_from_slice(&mut self, bytes: &[u8]) -> (r: Result<(), Error>) {
        if bytes.len() == 0 {
            Ok(())
        } else {
            Err(Error::BufferTooSmall)
        }
    }
}

impl Buffer for Vec<u8> {
    open spec fn buf(&self) -> Seq<u8> {
        self@
    }

    open spec fn buf_space(&self) -> nat {
        if self@.len() <= usize::MAX {
            (usize::MAX - self@.len()) as nat
        } else {
            0
        }
    }

    open spec fn buf_capacity(&self) -> nat {
        usize::MAX as nat
    }

    open spec fn buf_err(&self, n: nat) -> Error {
        Error::Allocation
    }

    fn clear(&mut self) {
        Vec::clear(self)
    }

    fn as_slice(&self) -> (r: &[u8]) {
        Vec::as_slice(self)
    }

    fn push(&mut self, byte: u8) -> (r: Result<(), Error>) {
        if Vec::len(self) < usize::MAX {
            Vec::push(self, byte);
            Ok(())
        } else {
            Err(Error::Allocation)
        }
    }

    fn extend_from_slice(&mut self, bytes: &[u8]) -> (r: Result<(), Error>) {
        if bytes.len() <= usize::MAX - Vec::len(self) {
            let ghost orig = self@;
            let mut i: usize = 0;
            while i < bytes.len()
                invariant
                    i <= bytes@.len(),
                    self@ == orig + bytes@.take(i as int),
                    orig.len() + bytes@.len() <= usize::MAX,
                decreases bytes@.len() - i,
            {
                Vec::push(self, *vstd::slice::slice_index_get(bytes, i));
                assert(bytes@.take(i + 1) == bytes@.take(i as int).push(bytes@[i as int]));
                i = i + 1;
            }
            assert(bytes@.take(bytes@.len() as int) == bytes@);
            Ok(())
        } else {
            Err(Error::Allocation)
        }
    }
}

} // verus!
