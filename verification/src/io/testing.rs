//! Sources that behave awkwardly on purpose.

use crate::io::read::{Read, ReadAt};
use crate::io::Result;
use std::marker::PhantomData;
use vstd::prelude::*;

verus! {

/// Can wrap a [`Read`] or [`ReadAt`]. Depending on which of the
/// two traits the wrapped type implements, this struct implements
/// the same. All calls on this struct to [`Read::read`] and
/// [`ReadAt::read_at`] are delegated to the wrapped object, but with
/// a single element buffer. This struct will always only read at
/// most a single element.
/// This is useful for testing implementations that work with a [`Read`]
/// or [`ReadAt`], to ensure that they don't rely on the traits always
/// reading the full buffer.
pub struct SingleRead<T, R> {
    inner: T,
    _result: PhantomData<R>,
}

impl<T, R> SingleRead<T, R> {
    /// The wrapped source.
    pub closed spec fn inner(&self) -> T {
        self.inner
    }

    /// A source that reads from `inner`, one element at a time.
    pub fn new(inner: T) -> (source: Self)
        ensures
            source.inner() == inner,
    {
        Self { inner, _result: PhantomData }
    }
}

impl<T, R> Read<R> for SingleRead<T, R> where T: Read<R> {
    open spec fn remaining(&self) -> Seq<R> {
        self.inner().remaining()
    }

    /// The buffer has room for the one element, and the wrapped source can be read
    /// into one.
    open spec fn can_read(&self, len: nat) -> bool {
        len >= 1 && self.inner().can_read(1)
    }

    open spec fn never_fails(&self) -> bool {
        self.inner().never_fails()
    }

    /// Reads into the first element of `buf` what the wrapped source delivers for a
    /// buffer of one element.
    fn read(&mut self, buf: &mut [R]) -> (result: Result<usize>)
        ensures
            result matches Ok(n) ==> n <= 1,
    {
        let (first, _) = buf.split_at_mut(1);
        let result = self.inner.read(first);
        proof {
            if let Ok(n) = result {
                assert(buf@ =~= old(self).remaining().take(n as int) + old(buf)@.skip(n as int));
            }
        }
        result
    }
}

impl<T, R> ReadAt<R> for SingleRead<T, R> where T: ReadAt<R> {
    /// The buffer has room for the one element, and the wrapped source can be read
    /// into one at that offset.
    open spec fn can_read_at(&self, offset: u64, len: nat) -> bool {
        len >= 1 && self.inner().can_read_at(offset, 1)
    }

    /// Reads into the first element of `buf` what the wrapped source delivers at
    /// `offset` for a buffer of one element.
    fn read_at(&self, offset: u64, buf: &mut [R]) -> (result: Result<usize>)
        ensures
            result matches Ok(n) ==> n <= 1,
    {
        let (first, _) = buf.split_at_mut(1);
        self.inner.read_at(offset, first)
    }
}

} // verus!
