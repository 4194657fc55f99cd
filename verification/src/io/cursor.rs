//! A position over bytes that are held in memory.

use crate::io::read::Read;
use crate::io::seek::{Seek, SeekFrom};
use crate::io::write::Write;
use crate::io::{copy_prefix, Error, Result};
use vstd::prelude::*;

verus! {

/// A value that holds bytes which can be read.
pub trait AsBytes {
    /// The bytes.
    spec fn bytes(&self) -> Seq<u8>;

    /// The bytes.
    fn as_bytes(&self) -> (bytes: &[u8])
        ensures
            bytes@ == self.bytes(),
    ;
}

/// A value that holds bytes which can be changed in place.
pub trait AsBytesMut: AsBytes {
    /// The bytes, to be changed in place. Their number stays as it is.
    fn as_bytes_mut(&mut self) -> (bytes: &mut [u8])
        ensures
            bytes@ == (*old(self)).bytes(),
            (*final(self)).bytes() == final(bytes)@,
    ;
}

impl AsBytes for [u8] {
    open spec fn bytes(&self) -> Seq<u8> {
        self@
    }

    fn as_bytes(&self) -> (bytes: &[u8]) {
        self
    }
}

impl AsBytes for Vec<u8> {
    open spec fn bytes(&self) -> Seq<u8> {
        self@
    }

    fn as_bytes(&self) -> (bytes: &[u8]) {
        self.as_slice()
    }
}

impl<const N: usize> AsBytes for [u8; N] {
    open spec fn bytes(&self) -> Seq<u8> {
        self@
    }

    fn as_bytes(&self) -> (bytes: &[u8]) {
        self.as_slice()
    }
}

impl<B: AsBytes + ?Sized> AsBytes for &B {
    open spec fn bytes(&self) -> Seq<u8> {
        (**self).bytes()
    }

    fn as_bytes(&self) -> (bytes: &[u8]) {
        (**self).as_bytes()
    }
}

impl<B: AsBytes + ?Sized> AsBytes for &mut B {
    open spec fn bytes(&self) -> Seq<u8> {
        (**self).bytes()
    }

    fn as_bytes(&self) -> (bytes: &[u8]) {
        (**self).as_bytes()
    }
}

impl AsBytesMut for [u8] {
    fn as_bytes_mut(&mut self) -> (bytes: &mut [u8]) {
        self
    }
}

impl AsBytesMut for Vec<u8> {
    fn as_bytes_mut(&mut self) -> (bytes: &mut [u8]) {
        self.as_mut_slice()
    }
}

impl<const N: usize> AsBytesMut for [u8; N] {
    fn as_bytes_mut(&mut self) -> (bytes: &mut [u8]) {
        self
    }
}

impl<B: AsBytesMut + ?Sized> AsBytesMut for &mut B {
    fn as_bytes_mut(&mut self) -> (bytes: &mut [u8]) {
        (**self).as_bytes_mut()
    }
}

/// Bytes with a position, at which they are read and written.
pub struct Cursor<T> {
    inner: T,
    pos: u64,
}

impl<T> Cursor<T> {
    /// What the cursor is over.
    pub closed spec fn spec_inner(&self) -> T {
        self.inner
    }

    /// The position.
    pub closed spec fn pos(&self) -> u64 {
        self.pos
    }

    /// A cursor at the start of `inner`.
    pub fn new(inner: T) -> (cursor: Self)
        ensures
            cursor.spec_inner() == inner,
            cursor.pos() == 0,
    {
        Self { inner, pos: 0 }
    }

    /// Gives back what the cursor was over.
    pub fn into_inner(self) -> (inner: T)
        ensures
            inner == self.spec_inner(),
    {
        self.inner
    }

    /// What the cursor is over.
    pub fn get_ref(&self) -> (inner: &T)
        ensures
            *inner == self.spec_inner(),
    {
        &self.inner
    }

    /// What the cursor is over, to be changed in place. The position stays as it is.
    pub fn get_mut(&mut self) -> (inner: &mut T)
        ensures
            *inner == old(self).spec_inner(),
            final(self).spec_inner() == *final(inner),
            final(self).pos() == old(self).pos(),
    {
        &mut self.inner
    }

    /// The position.
    pub fn position(&self) -> (pos: u64)
        ensures
            pos == self.pos(),
    {
        self.pos
    }

    /// Moves the position to `pos`, which may lie behind the end.
    pub fn set_position(&mut self, pos: u64)
        ensures
            final(self).pos() == pos,
            final(self).spec_inner() == old(self).spec_inner(),
    {
        self.pos = pos;
    }
}

impl<T> Cursor<T> where T: AsBytes {
    /// The bytes from the position on: none where the position lies behind the end.
    pub open spec fn rest(&self) -> Seq<u8> {
        if self.pos() <= self.spec_inner().bytes().len() {
            self.spec_inner().bytes().skip(self.pos() as int)
        } else {
            Seq::empty()
        }
    }

    /// The bytes from the position on.
    pub fn remaining_slice(&self) -> (rest: &[u8])
        ensures
            rest@ == self.rest(),
    {
        let data = self.inner.as_bytes();
        let len: u64 = if self.pos < data.len() as u64 {
            self.pos
        } else {
            data.len() as u64
        };
        let rest = vstd::slice::slice_subrange(data, len as usize, data.len());
        assert(rest@ =~= self.rest());
        rest
    }

    /// Whether the position is at the end or behind it.
    pub fn is_empty(&self) -> (b: bool)
        ensures
            b == (self.pos() >= self.spec_inner().bytes().len()),
    {
        self.pos >= self.inner.as_bytes().len() as u64
    }
}

impl<T> Clone for Cursor<T> where T: Clone {
    fn clone(&self) -> (copy: Self)
        ensures
            copy.pos() == self.pos(),
            call_ensures(T::clone, (&self.spec_inner(),), copy.spec_inner()),
    {
        Self { inner: self.inner.clone(), pos: self.pos }
    }
}

impl<T> Seek for Cursor<T> where T: AsBytes {
    open spec fn spec_position(&self) -> u64 {
        self.pos()
    }

    /// The position that `pos` names, where that is a position of a byte: a position at
    /// the end or behind it is refused, and so is one before the start.
    /// `Current` wraps round at the limit of `u64`.
    open spec fn spec_seek(&self, pos: SeekFrom) -> Result<u64> {
        let len = self.spec_inner().bytes().len();
        let target: int = match pos {
            SeekFrom::Start(n) => n as int,
            SeekFrom::End(n) => len - n,
            SeekFrom::Current(n) => self.pos().wrapping_add_signed(n) as int,
        };
        if 0 <= target < len {
            Ok(target as u64)
        } else {
            Err(Error::InvalidOffset)
        }
    }

    fn seek(&mut self, pos: SeekFrom) -> (result: Result<u64>)
        ensures
            final(self).spec_inner() == old(self).spec_inner(),
    {
        let len: u64 = self.inner.as_bytes().len() as u64;
        let new_pos: u64 = match pos {
            SeekFrom::Start(n) => n,
            SeekFrom::End(n) => {
                if n <= 0 || n as u64 > len {
                    return Err(Error::InvalidOffset);
                }
                len - n as u64
            },
            SeekFrom::Current(n) => self.pos.wrapping_add_signed(n),
        };
        if new_pos >= len {
            Err(Error::InvalidOffset)
        } else {
            self.pos = new_pos;
            Ok(self.pos)
        }
    }
}

impl<T> Read<u8> for Cursor<T> where T: AsBytes {
    open spec fn remaining(&self) -> Seq<u8> {
        self.rest()
    }

    /// The position lies within the bytes or at their end.
    open spec fn can_read(&self, len: nat) -> bool {
        self.pos() <= self.spec_inner().bytes().len()
    }

    /// A read of bytes in memory does not fail.
    open spec fn never_fails(&self) -> bool {
        true
    }

    /// Reads as many bytes as are left and as `buf` holds, and moves the position behind
    /// them.
    fn read(&mut self, buf: &mut [u8]) -> (result: Result<usize>)
        ensures
            final(self).spec_inner() == old(self).spec_inner(),
            result == Ok::<usize, Error>(
                if old(self).rest().len() < old(buf)@.len() {
                    old(self).rest().len() as usize
                } else {
                    old(buf)@.len() as usize
                },
            ),
            result matches Ok(n) ==> final(self).pos() == old(self).pos() + n,
    {
        let data = self.inner.as_bytes();
        let left: u64 = data.len() as u64 - self.pos;
        let len: usize = if left < buf.len() as u64 {
            left as usize
        } else {
            buf.len()
        };
        let start: usize = self.pos as usize;
        let (target, _) = buf.split_at_mut(len);
        copy_prefix(target, vstd::slice::slice_subrange(data, start, start + len));
        self.pos = self.pos + len as u64;
        proof {
            assert(buf@ =~= old(self).rest().take(len as int) + old(buf)@.skip(len as int));
            assert(self.rest() =~= old(self).rest().skip(len as int));
        }
        Ok(len)
    }
}

impl<T> Write<u8> for Cursor<T> where T: AsBytesMut {
    /// The bytes before the position.
    open spec fn written(&self) -> Seq<u8> {
        self.spec_inner().bytes().take(self.pos() as int)
    }

    /// The number of bytes from the position to the end.
    open spec fn room(&self) -> nat {
        self.rest().len()
    }

    /// The position lies within the bytes or at their end.
    open spec fn can_write(&self, len: nat) -> bool {
        self.pos() <= self.spec_inner().bytes().len()
    }

    /// A write to bytes in memory does not fail.
    open spec fn never_fails(&self) -> bool {
        true
    }

    /// Writes as many bytes as there is room for from the position to the end, over the
    /// bytes that are there, and moves the position behind them.
    fn write(&mut self, buf: &[u8]) -> (result: Result<usize>)
        ensures
            result == Ok::<usize, Error>(
                if old(self).rest().len() < buf@.len() {
                    old(self).rest().len() as usize
                } else {
                    buf@.len() as usize
                },
            ),
            result matches Ok(n) ==> {
                &&& final(self).pos() == old(self).pos() + n
                &&& final(self).spec_inner().bytes() == old(self).spec_inner().bytes().take(
                    old(self).pos() as int,
                ) + buf@.take(n as int) + old(self).spec_inner().bytes().skip(old(self).pos() + n)
            },
    {
        let start: usize = self.pos as usize;
        let data = self.inner.as_bytes_mut();
        let left: usize = data.len() - start;
        let len: usize = if left < buf.len() {
            left
        } else {
            buf.len()
        };
        let (_, tail) = data.split_at_mut(start);
        copy_prefix(tail, vstd::slice::slice_subrange(buf, 0, len));
        self.pos = self.pos + len as u64;
        proof {
            let before = old(self).spec_inner().bytes();
            assert(self.spec_inner().bytes() =~= before.take(start as int) + buf@.take(len as int)
                + before.skip(start + len));
            assert(self.written() =~= old(self).written() + buf@.take(len as int));
        }
        Ok(len)
    }

    fn flush(&mut self) -> (result: Result<()>)
        ensures
            result is Ok,
            *final(self) == *old(self),
    {
        Ok(())
    }
}

} // verus!
