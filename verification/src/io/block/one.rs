//! A device for trying out what is layered over a device.

use crate::io::block::{BlockDevice, Outcome};
use crate::io::{Error, Result};
use std::sync::atomic::{AtomicUsize, Ordering};
use vstd::prelude::*;

verus! {

/// A device whose every block holds ones, and which counts the calls that it receives.
/// What is written to it is dropped.
pub struct OneDevice {
    /// The number of calls of `block_size`.
    pub block_size_count: AtomicUsize,
    /// The number of calls of `read_block`.
    pub read_block_count: AtomicUsize,
    /// The number of calls of `write_block`.
    pub write_block_count: AtomicUsize,
    /// The number of calls of `block_count`.
    pub block_count_count: AtomicUsize,
    block_size: usize,
    block_count: usize,
}

/// Counts one call.
fn count(counter: &AtomicUsize) {
    let _ = counter.fetch_add(1, Ordering::SeqCst);
}

/// The bytes of a block of `size` bytes that holds ones.
pub open spec fn ones(size: usize) -> Seq<u8> {
    Seq::new(size as nat, |i: int| 1u8)
}

/// Sets the first `size` bytes of `buf` to one.
fn fill_ones(buf: &mut [u8], size: usize)
    requires
        size <= old(buf)@.len(),
    ensures
        final(buf)@ == ones(size) + old(buf)@.skip(size as int),
{
    let mut i: usize = 0;
    while i < size
        invariant
            i <= size <= buf@.len(),
            buf@.len() == old(buf)@.len(),
            forall|j: int| 0 <= j < i ==> buf@[j] == 1u8,
            forall|j: int| i <= j < buf@.len() ==> buf@[j] == old(buf)@[j],
        decreases size - i,
    {
        buf[i] = 1;
        i += 1;
    }
    assert(buf@ =~= ones(size) + old(buf)@.skip(size as int));
}

/// What `fill_ones` leaves: the ones in front, and behind them what was there.
proof fn lemma_filled(before: Seq<u8>, after: Seq<u8>, size: usize)
    requires
        size <= before.len(),
        after == ones(size) + before.skip(size as int),
    ensures
        after.len() == before.len(),
        after.take(size as int) == ones(size),
        after.skip(size as int) == before.skip(size as int),
{
    assert(after.take(size as int) =~= ones(size));
    assert(after.skip(size as int) =~= before.skip(size as int));
}

impl OneDevice {
    /// A device of `block_count` blocks of `block_size` bytes, which has counted no call.
    pub fn new(block_size: usize, block_count: usize) -> (device: Self)
        ensures
            device.spec_block_size() == block_size,
            device.spec_block_count() == Some(block_count),
    {
        Self {
            block_size_count: AtomicUsize::new(0),
            read_block_count: AtomicUsize::new(0),
            write_block_count: AtomicUsize::new(0),
            block_count_count: AtomicUsize::new(0),
            block_size,
            block_count,
        }
    }
}

impl BlockDevice for OneDevice {
    closed spec fn spec_block_size(&self) -> usize {
        self.block_size
    }

    closed spec fn spec_block_count(&self) -> Option<usize> {
        Some(self.block_count)
    }

    /// Every block reads as ones.
    open spec fn spec_read(&self, block: u64) -> Option<Outcome> {
        Some(Ok(ones(self.spec_block_size())))
    }

    fn block_size(&self) -> (size: usize) {
        count(&self.block_size_count);
        self.block_size
    }

    fn block_count(&self) -> (count: usize) {
        count(&self.block_count_count);
        self.block_count
    }

    fn read_block(&self, block: u64, buf: &mut [u8]) -> (result: Result<usize>) {
        count(&self.read_block_count);
        if buf.len() < self.block_size {
            return Err(Error::BufferTooSmall);
        }
        fill_ones(buf, self.block_size);
        proof {
            lemma_filled(old(buf)@, buf@, self.block_size);
        }
        Ok(self.block_size)
    }

    fn write_block(&mut self, block: u64, buf: &[u8]) -> (result: Result<usize>)
        ensures
            result is Ok <==> buf@.len() >= old(self).spec_block_size(),
    {
        count(&self.write_block_count);
        if buf.len() < self.block_size {
            return Err(Error::BufferTooSmall);
        }
        Ok(self.block_size)
    }
}

} // verus!
