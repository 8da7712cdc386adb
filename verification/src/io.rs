//! Reading and writing bytes: the source and sink abstraction.
//!
//! The same encoder and decoder logic runs over any implementation of these
//! traits. The crate ships a borrowing slice source, a growable sink, a
//! bounded fixed-capacity sink and the [`SizeLimit`] budget wrapper; callers
//! may implement the traits for their own streaming backends.

use vstd::prelude::*;

use crate::error::Error;

verus! {

/// Generic interface for writing bytes to somewhere.
///
/// `out_bytes` abstracts the bytes accepted so far, `space` bounds how many
/// more bytes will be accepted, and `write_err` names the error a refused
/// write of `n` bytes reports.
pub trait Output: Sized {
    /// The bytes written so far.
    spec fn out_bytes(&self) -> Seq<u8>;

    /// Writes of at most this many bytes succeed.
    spec fn space(&self) -> nat;

    /// The error reported when a write of `n` bytes is refused.
    spec fn write_err(&self, n: nat) -> Error;

    /// Write a single byte.
    fn write_byte(&mut self, byte: u8) -> (r: Result<(), Error>)
        ensures
            r is Ok <==> old(self).space() >= 1,
            r is Ok ==> final(self).out_bytes() == old(self).out_bytes().push(byte),
            r is Ok ==> final(self).space() == old(self).space() - 1,
            r is Ok ==> forall|n: nat| final(self).write_err(n) == old(self).write_err(n + 1),
            r is Err ==> final(self).out_bytes() == old(self).out_bytes(),
            r is Err ==> final(self).space() == old(self).space(),
            r is Err ==> forall|n: nat| final(self).write_err(n) == old(self).write_err(n),
            r is Err ==> r->Err_0 == old(self).write_err(1),
    ;

    /// Write all bytes from the given slice, or nothing at all.
    fn write_all(&mut self, bytes: &[u8]) -> (r: Result<(), Error>)
        ensures
            r is Ok <==> old(self).space() >= bytes@.len(),
            r is Ok ==> final(self).out_bytes() == old(self).out_bytes() + bytes@,
            r is Ok ==> final(self).space() == old(self).space() - bytes@.len(),
            r is Ok ==> forall|n: nat|
                final(self).write_err(n) == old(self).write_err(n + bytes@.len()),
            r is Err ==> final(self).out_bytes() == old(self).out_bytes(),
            r is Err ==> final(self).space() == old(self).space(),
            r is Err ==> forall|n: nat| final(self).write_err(n) == old(self).write_err(n),
            r is Err ==> r->Err_0 == old(self).write_err(bytes@.len()),
    ;
}

/// Generic interface for reading bytes from somewhere.
///
/// `bytes` abstracts the bytes still available, `can_borrow` says whether the
/// source can hand out slices that outlive the read (`'de`), and `fail_err`
/// names the error a read of `n` bytes reports when it cannot be served after
/// `consumed` further bytes have been consumed.
pub trait Input<'de>: Sized {
    /// The bytes still available to read.
    spec fn bytes(&self) -> Seq<u8>;

    /// Whether reads can return slices borrowed from the original input.
    spec fn can_borrow(&self) -> bool;

    /// The error reported by a read of `n` bytes that cannot be served, in
    /// the state reached after consuming `consumed` more bytes.
    spec fn fail_err(&self, consumed: nat, n: nat) -> Error;

    /// Exposes [`Input::can_borrow`] to executable callers.
    fn is_borrowing(&self) -> (b: bool)
        ensures
            b == self.can_borrow(),
    ;

    /// Peek at the next byte without consuming it.
    fn peek_byte(&mut self) -> (r: Result<u8, Error>)
        ensures
            final(self).bytes() == old(self).bytes(),
            final(self).can_borrow() == old(self).can_borrow(),
            forall|c: nat, n: nat| final(self).fail_err(c, n) == old(self).fail_err(c, n),
            r is Ok <==> old(self).bytes().len() >= 1,
            r is Ok ==> r->Ok_0 == old(self).bytes()[0],
            r is Err ==> r->Err_0 == old(self).fail_err(0, 1),
    ;

    /// Read a single byte.
    fn read_byte(&mut self) -> (r: Result<u8, Error>)
        ensures
            final(self).can_borrow() == old(self).can_borrow(),
            r is Ok <==> old(self).bytes().len() >= 1,
            r is Ok ==> r->Ok_0 == old(self).bytes()[0],
            r is Ok ==> final(self).bytes() == old(self).bytes().drop_first(),
            r is Ok ==> forall|c: nat, n: nat|
                final(self).fail_err(c, n) == old(self).fail_err(c + 1nat, n),
            r is Err ==> final(self).bytes() == old(self).bytes(),
            r is Err ==> forall|c: nat, n: nat| final(self).fail_err(c, n) == old(self).fail_err(c, n),
            r is Err ==> r->Err_0 == old(self).fail_err(0, 1),
    ;

    /// Read exactly `len` bytes into a fresh, owned buffer, or nothing at all.
    fn read_fixed(&mut self, len: usize) -> (r: Result<Vec<u8>, Error>)
        ensures
            final(self).can_borrow() == old(self).can_borrow(),
            r is Ok <==> old(self).bytes().len() >= len,
            r is Ok ==> r->Ok_0@ == old(self).bytes().take(len as int),
            r is Ok ==> final(self).bytes() == old(self).bytes().skip(len as int),
            r is Ok ==> forall|c: nat, n: nat|
                final(self).fail_err(c, n) == old(self).fail_err(c + len as nat, n),
            r is Err ==> final(self).bytes() == old(self).bytes(),
            r is Err ==> forall|c: nat, n: nat| final(self).fail_err(c, n) == old(self).fail_err(c, n),
            r is Err ==> r->Err_0 == old(self).fail_err(0, len as nat),
    ;

    /// Read exactly `len` bytes as a slice borrowed from the original input.
    /// A source that cannot borrow returns `None` and consumes nothing; the
    /// caller falls back to a copying read.
    fn read_borrowed(&mut self, len: usize) -> (r: Result<Option<&'de [u8]>, Error>)
        ensures
            final(self).can_borrow() == old(self).can_borrow(),
            !old(self).can_borrow() ==> r is Ok && r->Ok_0 is None
                && final(self).bytes() == old(self).bytes()
                && forall|c: nat, n: nat| final(self).fail_err(c, n) == old(self).fail_err(c, n),
            old(self).can_borrow() ==> (r is Ok <==> old(self).bytes().len() >= len),
            old(self).can_borrow() && r is Ok ==> r->Ok_0 is Some,
            r matches Ok(Some(s)) ==> s@ == old(self).bytes().take(len as int)
                && final(self).bytes() == old(self).bytes().skip(len as int)
                && forall|c: nat, n: nat|
                    final(self).fail_err(c, n) == old(self).fail_err(c + len as nat, n),
            r is Err ==> final(self).bytes() == old(self).bytes()
                && (forall|c: nat, n: nat| final(self).fail_err(c, n) == old(self).fail_err(c, n))
                && r->Err_0 == old(self).fail_err(0, len as nat),
    ;

    /// Skip `len` bytes without materializing them, or nothing at all.
    fn skip_bytes(&mut self, len: usize) -> (r: Result<(), Error>)
        ensures
            final(self).can_borrow() == old(self).can_borrow(),
            r is Ok <==> old(self).bytes().len() >= len,
            r is Ok ==> final(self).bytes() == old(self).bytes().skip(len as int),
            r is Ok ==> forall|c: nat, n: nat|
                final(self).fail_err(c, n) == old(self).fail_err(c + len as nat, n),
            r is Err ==> final(self).bytes() == old(self).bytes(),
            r is Err ==> forall|c: nat, n: nat| final(self).fail_err(c, n) == old(self).fail_err(c, n),
            r is Err ==> r->Err_0 == old(self).fail_err(0, len as nat),
    ;
}

impl Output for Vec<u8> {
    open spec fn out_bytes(&self) -> Seq<u8> {
        self@
    }

    open spec fn space(&self) -> nat {
        if self@.len() <= usize::MAX {
            (usize::MAX - self@.len()) as nat
        } else {
            0
        }
    }

    open spec fn write_err(&self, n: nat) -> Error {
        Error::Allocation
    }

    fn write_byte(&mut self, byte: u8) -> (r: Result<(), Error>) {
        if self.len() < usize::MAX {
            self.push(byte);
            Ok(())
        } else {
            Err(Error::Allocation)
        }
    }

    fn write_all(&mut self, bytes: &[u8]) -> (r: Result<(), Error>) {
        if bytes.len() <= usize::MAX - self.len() {
            let ghost orig = self@;
            let mut i: usize = 0;
            while i < bytes.len()
                invariant
                    i <= bytes@.len(),
                    self@ == orig + bytes@.take(i as int),
                    orig.len() + bytes@.len() <= usize::MAX,
                decreases bytes@.len() - i,
            {
                self.push(*vstd::slice::slice_index_get(bytes, i));
                assert(bytes@.take(i + 1) == bytes@.take(i as int).push(bytes@[i as int]));
                i = i + 1;
            }
            assert(bytes@.take(bytes@.len() as int) == bytes@);
            Ok(())
        } else {
            Err(Error::Allocation)
        }
    }
}

/// A sink with a fixed byte capacity. Stands in for encoding into a
/// caller-provided buffer: writes past the capacity fail with
/// [`Error::BufferTooSmall`] and leave the sink unchanged.
#[derive(Debug)]
pub struct BoundedOutput {
    /// The bytes written so far; never longer than `cap`.
    pub data: Vec<u8>,
    /// The capacity in bytes.
    pub cap: usize,
}

impl BoundedOutput {
    /// Create an empty sink that accepts at most `cap` bytes.
    pub fn new(cap: usize) -> (r: Self)
        ensures
            r.out_bytes() == Seq::<u8>::empty(),
            r.space() == cap,
    {
        BoundedOutput { data: Vec::new(), cap }
    }

    /// The capacity the sink was created with.
    pub fn capacity(&self) -> (r: usize)
        ensures
            r == self.cap,
    {
        self.cap
    }

    /// Consume the sink and return the bytes written.
    pub fn into_inner(self) -> (r: Vec<u8>)
        ensures
            r@ == self.out_bytes(),
    {
        self.data
    }

    /// The bytes written so far.
    pub fn as_slice(&self) -> (r: &[u8])
        ensures
            r@ == self.out_bytes(),
    {
        self.data.as_slice()
    }
}

impl Output for BoundedOutput {
    open spec fn out_bytes(&self) -> Seq<u8> {
        self.data@
    }

    open spec fn space(&self) -> nat {
        if self.data@.len() <= self.cap {
            (self.cap - self.data@.len()) as nat
        } else {
            0
        }
    }

    open spec fn write_err(&self, n: nat) -> Error {
        Error::BufferTooSmall
    }

    fn write_byte(&mut self, byte: u8) -> (r: Result<(), Error>) {
        if self.data.len() < self.cap {
            self.data.push(byte);
            Ok(())
        } else {
            Err(Error::BufferTooSmall)
        }
    }

    fn write_all(&mut self, bytes: &[u8]) -> (r: Result<(), Error>) {
        if bytes.len() == 0 {
            assert(self.data@ =~= self.data@ + bytes@);
            return Ok(());
        }
        if bytes.len() <= self.cap && self.data.len() <= self.cap - bytes.len() {
            let ghost orig = self.data@;
            let ghost cap0 = self.cap;
            let mut i: usize = 0;
            while i < bytes.len()
                invariant
                    i <= bytes@.len(),
                    self.cap == cap0,
                    self.data@ == orig + bytes@.take(i as int),
                    orig.len() + bytes@.len() <= cap0,
                decreases bytes@.len() - i,
            {
                self.data.push(*vstd::slice::slice_index_get(bytes, i));
                assert(bytes@.take(i + 1) == bytes@.take(i as int).push(bytes@[i as int]));
                i = i + 1;
            }
            assert(bytes@.take(bytes@.len() as int) == bytes@);
            Ok(())
        } else {
            Err(Error::BufferTooSmall)
        }
    }
}

impl<'de> Input<'de> for &'de [u8] {
    open spec fn bytes(&self) -> Seq<u8> {
        (*self)@
    }

    open spec fn can_borrow(&self) -> bool {
        true
    }

    open spec fn fail_err(&self, consumed: nat, n: nat) -> Error {
        Error::UnexpectedEnd
    }

    fn is_borrowing(&self) -> (b: bool) {
        true
    }

    fn peek_byte(&mut self) -> (r: Result<u8, Error>) {
        if self.len() >= 1 {
            Ok(*vstd::slice::slice_index_get(*self, 0))
        } else {
            Err(Error::UnexpectedEnd)
        }
    }

    fn read_byte(&mut self) -> (r: Result<u8, Error>) {
        if self.len() >= 1 {
            let b: u8 = *vstd::slice::slice_index_get(*self, 0);
            *self = vstd::slice::slice_subrange(*self, 1, self.len());
            Ok(b)
        } else {
            Err(Error::UnexpectedEnd)
        }
    }

    fn read_fixed(&mut self, len: usize) -> (r: Result<Vec<u8>, Error>) {
        if self.len() >= len {
            let front = vstd::slice::slice_subrange(*self, 0, len);
            *self = vstd::slice::slice_subrange(*self, len, self.len());
            Ok(vstd::slice::slice_to_vec(front))
        } else {
            Err(Error::UnexpectedEnd)
        }
    }

    fn read_borrowed(&mut self, len: usize) -> (r: Result<Option<&'de [u8]>, Error>) {
        if self.len() >= len {
            let front = vstd::slice::slice_subrange(*self, 0, len);
            *self = vstd::slice::slice_subrange(*self, len, self.len());
            Ok(Some(front))
        } else {
            Err(Error::UnexpectedEnd)
        }
    }

    fn skip_bytes(&mut self, len: usize) -> (r: Result<(), Error>) {
        if self.len() >= len {
            *self = vstd::slice::slice_subrange(*self, len, self.len());
            Ok(())
        } else {
            Err(Error::UnexpectedEnd)
        }
    }
}

/// Wrapper that limits the number of bytes being read or written.
///
/// The budget is decremented exactly when the wrapped operation succeeds; a
/// failed operation leaves the budget untouched. An operation that would
/// exceed the budget fails with [`Error::LimitReached`] before touching the
/// wrapped source or sink.
#[derive(Debug)]
pub struct SizeLimit<IO> {
    /// The inner input or output.
    pub inner: IO,
    /// The remaining number of bytes that can be read or written.
    pub limit: usize,
}

impl<IO> SizeLimit<IO> {
    /// Create a new size limit from the given input or output and limit.
    pub fn new(inner: IO, limit: usize) -> (r: Self)
        ensures
            r.inner == inner,
            r.limit == limit,
    {
        SizeLimit { inner, limit }
    }

    /// Consume the size limit and return the inner input or output.
    pub fn into_inner(self) -> (r: IO)
        ensures
            r == self.inner,
    {
        self.inner
    }

    /// The remaining budget in bytes.
    pub fn remaining(&self) -> (r: usize)
        ensures
            r == self.limit,
    {
        self.limit
    }
}

impl<O: Output> Output for SizeLimit<O> {
    open spec fn out_bytes(&self) -> Seq<u8> {
        self.inner.out_bytes()
    }

    open spec fn space(&self) -> nat {
        if self.limit as nat <= self.inner.space() {
            self.limit as nat
        } else {
            self.inner.space()
        }
    }

    open spec fn write_err(&self, n: nat) -> Error {
        if n > self.limit as nat {
            Error::LimitReached
        } else {
            self.inner.write_err(n)
        }
    }

    fn write_byte(&mut self, byte: u8) -> (r: Result<(), Error>) {
        if self.limit == 0 {
            return Err(Error::LimitReached);
        }
        match self.inner.write_byte(byte) {
            Ok(()) => {
                self.limit = self.limit - 1;
                Ok(())
            },
            Err(e) => Err(e),
        }
    }

    fn write_all(&mut self, bytes: &[u8]) -> (r: Result<(), Error>) {
        if bytes.len() > self.limit {
            return Err(Error::LimitReached);
        }
        match self.inner.write_all(bytes) {
            Ok(()) => {
                self.limit = self.limit - bytes.len();
                Ok(())
            },
            Err(e) => Err(e),
        }
    }
}

impl<'de, I: Input<'de>> Input<'de> for SizeLimit<I> {
    open spec fn bytes(&self) -> Seq<u8> {
        if (self.limit as nat) < self.inner.bytes().len() {
            self.inner.bytes().take(self.limit as int)
        } else {
            self.inner.bytes()
        }
    }

    open spec fn can_borrow(&self) -> bool {
        self.inner.can_borrow()
    }

    open spec fn fail_err(&self, consumed: nat, n: nat) -> Error {
        if consumed + n > self.limit as nat {
            Error::LimitReached
        } else {
            self.inner.fail_err(consumed, n)
        }
    }

    fn is_borrowing(&self) -> (b: bool) {
        self.inner.is_borrowing()
    }

    fn peek_byte(&mut self) -> (r: Result<u8, Error>) {
        if self.limit == 0 {
            return Err(Error::LimitReached);
        }
        self.inner.peek_byte()
    }

    fn read_byte(&mut self) -> (r: Result<u8, Error>) {
        if self.limit == 0 {
            return Err(Error::LimitReached);
        }
        match self.inner.read_byte() {
            Ok(b) => {
                self.limit = self.limit - 1;
                assert(self.bytes() =~= old(self).bytes().drop_first());
                Ok(b)
            },
            Err(e) => Err(e),
        }
    }

    fn read_fixed(&mut self, len: usize) -> (r: Result<Vec<u8>, Error>) {
        if len > self.limit {
            return Err(Error::LimitReached);
        }
        match self.inner.read_fixed(len) {
            Ok(v) => {
                self.limit = self.limit - len;
                assert(self.bytes() =~= old(self).bytes().skip(len as int));
                assert(v@ =~= old(self).bytes().take(len as int));
                Ok(v)
            },
            Err(e) => Err(e),
        }
    }

    fn read_borrowed(&mut self, len: usize) -> (r: Result<Option<&'de [u8]>, Error>) {
        if !self.inner.is_borrowing() {
            return Ok(None);
        }
        if len > self.limit {
            return Err(Error::LimitReached);
        }
        match self.inner.read_borrowed(len) {
            Ok(Some(s)) => {
                self.limit = self.limit - len;
                assert(self.bytes() =~= old(self).bytes().skip(len as int));
                assert(s@ =~= old(self).bytes().take(len as int));
                Ok(Some(s))
            },
            Ok(None) => Ok(None),
            Err(e) => Err(e),
        }
    }

    fn skip_bytes(&mut self, len: usize) -> (r: Result<(), Error>) {
        if len > self.limit {
            return Err(Error::LimitReached);
        }
        match self.inner.skip_bytes(len) {
            Ok(()) => {
                self.limit = self.limit - len;
                assert(self.bytes() =~= old(self).bytes().skip(len as int));
                Ok(())
            },
            Err(e) => Err(e),
        }
    }
}

} // verus!
