//! Devices that are read and written in blocks of a fixed size.

use crate::io::read::ReadAt;
use crate::io::{copy_prefix, Error, Result};
use vstd::arithmetic::div_mod::{lemma_div_is_ordered, lemma_fundamental_div_mod, lemma_mod_pos_bound};
use vstd::prelude::*;

pub mod cache;
pub mod cow;
pub mod one;

verus! {

/// What a read of one block ends in: the bytes of the block, or the error.
pub type Outcome = Result<Seq<u8>>;

/// A store of `block_count()` blocks of `block_size()` bytes each, addressed by block number.
///
/// A device describes itself by three functions, which stand for it in contracts. A
/// device that defines none of them says of itself only that its blocks have one size.
pub trait BlockDevice {
    /// The number of bytes in a block.
    open spec fn spec_block_size(&self) -> usize {
        arbitrary()
    }

    /// The number of blocks, where that is a function of the device's value, and `None`
    /// where it is not.
    open spec fn spec_block_count(&self) -> Option<usize> {
        None
    }

    /// What a read of `block` into a buffer that is large enough ends in, where that is
    /// a function of the device's value. `None` for a device that answers from state
    /// which its value does not show, such as state behind a lock.
    open spec fn spec_read(&self, block: u64) -> Option<Outcome> {
        None
    }

    /// Whether the device keeps what is written to it: a block that was written is read
    /// back as it was written, and a write changes no other block.
    open spec fn keeps_writes(&self) -> bool {
        false
    }

    /// The number of bytes in a block.
    fn block_size(&self) -> (size: usize)
        ensures
            size == self.spec_block_size(),
    ;

    /// The number of blocks.
    fn block_count(&self) -> (count: usize)
        ensures
            self.spec_block_count() matches Some(n) ==> count == n,
    ;

    /// Reads the block with number `block` into the first `block_size()` bytes of `buf`
    /// and returns `block_size()`. A buffer that is shorter than a block is refused with
    /// [`Error::BufferTooSmall`] and left as it was; other errors are the device's own.
    fn read_block(&self, block: u64, buf: &mut [u8]) -> (result: Result<usize>)
        ensures
            final(buf)@.len() == old(buf)@.len(),
            old(buf)@.len() < self.spec_block_size() ==> result == Err::<usize, Error>(
                Error::BufferTooSmall,
            ) && final(buf)@ == old(buf)@,
            result is Ok ==> result == Ok::<usize, Error>(self.spec_block_size()) && final(buf)@.skip(
                self.spec_block_size() as int,
            ) == old(buf)@.skip(self.spec_block_size() as int),
            old(buf)@.len() >= self.spec_block_size() ==> agrees(
                self.spec_read(block),
                result,
                final(buf)@.take(self.spec_block_size() as int),
            ),
    ;

    /// Writes the first `block_size()` bytes of `buf` to the block with number `block`
    /// and returns `block_size()`. A buffer that is shorter than a block is refused with
    /// [`Error::BufferTooSmall`], and no read of the device is affected; other errors
    /// are the device's own. The geometry of the device stays as it is.
    fn write_block(&mut self, block: u64, buf: &[u8]) -> (result: Result<usize>)
        ensures
            final(self).spec_block_size() == old(self).spec_block_size(),
            final(self).spec_block_count() == old(self).spec_block_count(),
            final(self).keeps_writes() == old(self).keeps_writes(),
            buf@.len() < old(self).spec_block_size() ==> result == Err::<usize, Error>(
                Error::BufferTooSmall,
            ) && forall|b: u64| final(self).spec_read(b) == old(self).spec_read(b),
            result is Ok ==> result == Ok::<usize, Error>(old(self).spec_block_size()),
            old(self).keeps_writes() ==> forall|b: u64|
                final(self).spec_read(b) == after_write(
                    old(self).spec_read(b),
                    result is Ok && b == block,
                    buf@.take(old(self).spec_block_size() as int),
                ),
    ;
}

/// What a read of a block ends in after a write to a device that keeps what is written
/// to it ended: the bytes that were written where the write was one of that block and
/// succeeded, and what a read of the block ended in before the write otherwise.
pub open spec fn after_write(before: Option<Outcome>, written: bool, data: Seq<u8>) -> Option<
    Outcome,
> {
    if written {
        Some(Ok(data))
    } else {
        before
    }
}

/// Whether a read that returned `result` and left `bytes` in the first block's length of
/// the buffer is the read that `expected` describes.
pub open spec fn agrees(expected: Option<Outcome>, result: Result<usize>, bytes: Seq<u8>) -> bool {
    match expected {
        Some(Ok(data)) => result is Ok && bytes == data,
        Some(Err(e)) => result == Err::<usize, Error>(e),
        None => true,
    }
}

/// The number of the block that holds the byte at `offset`.
pub open spec fn start_block(offset: u64, size: usize) -> int {
    offset as int / size as int
}

/// The number of the block that holds the byte after the last one of a range of `len`
/// bytes at `offset`.
pub open spec fn end_block(offset: u64, len: nat, size: usize) -> int {
    (offset + len) / size as int
}

/// The place of the byte at `offset` within its block.
pub open spec fn relative_offset(offset: u64, size: usize) -> int {
    offset as int % size as int
}

/// Whether a range of `len` bytes at `offset` is exactly one block.
pub open spec fn is_one_block(offset: u64, len: nat, size: usize) -> bool {
    relative_offset(offset, size) == 0 && len == size
}

/// The number of blocks that are read for a range of `len` bytes at `offset` that is not
/// exactly one block: the blocks from the first to the last but one where the range
/// starts and ends on block boundaries and is not empty, and one more block otherwise.
pub open spec fn staged_blocks(offset: u64, len: nat, size: usize) -> int {
    let start = start_block(offset, size);
    let end = end_block(offset, len, size);
    if relative_offset(offset, size) == 0 && (offset + len) % size as int == 0 && start != end {
        end - start
    } else {
        end - start + 1
    }
}

/// The blocks that are staged reach from the first block of the range to its last, and
/// hold the range.
pub proof fn lemma_staged_blocks(offset: u64, len: nat, size: usize)
    requires
        size > 0,
    ensures
        0 <= start_block(offset, size) <= end_block(offset, len, size),
        1 <= staged_blocks(offset, len, size),
        start_block(offset, size) + staged_blocks(offset, len, size) <= end_block(offset, len, size)
            + 1,
        relative_offset(offset, size) + len <= staged_blocks(offset, len, size) * size,
{
    let s = size as int;
    let o = offset as int;
    let t = o + len;
    let start = o / s;
    let end = t / s;
    let count = staged_blocks(offset, len, size);
    lemma_fundamental_div_mod(o, s);
    lemma_fundamental_div_mod(t, s);
    lemma_mod_pos_bound(o, s);
    lemma_mod_pos_bound(t, s);
    lemma_div_is_ordered(o, t, s);
    lemma_div_is_ordered(0, o, s);
    assert(o == s * start + o % s);
    assert(t == s * end + t % s);
    if count == end - start {
        assert(count * s == s * end - s * start) by (nonlinear_arith)
            requires
                count == end - start,
        ;
    } else {
        assert(count * s == s * end - s * start + s) by (nonlinear_arith)
            requires
                count == end - start + 1,
        ;
    }
}

/// What reading `count` blocks in turn, from block `first` on, ends in: the bytes of all
/// of them, or the error of the first read that fails; `None` where a read before that is
/// not determined by the device's value.
pub open spec fn spec_read_blocks<D: BlockDevice>(device: &D, first: int, count: int) -> Option<
    Outcome,
>
    decreases count,
{
    if count <= 0 {
        Some(Ok(Seq::empty()))
    } else {
        match spec_read_blocks(device, first, count - 1) {
            Some(Ok(before)) => match device.spec_read((first + count - 1) as u64) {
                Some(Ok(data)) => Some(Ok(before + data)),
                other => other,
            },
            other => other,
        }
    }
}

/// Once a read has failed, or is not determined, reading further blocks changes nothing.
pub proof fn lemma_read_blocks_stops<D: BlockDevice>(device: &D, first: int, done: int, count: int)
    requires
        0 <= done <= count,
        !(spec_read_blocks(device, first, done) matches Some(Ok(_))),
    ensures
        spec_read_blocks(device, first, count) == spec_read_blocks(device, first, done),
    decreases count - done,
{
    if done < count {
        lemma_read_blocks_stops(device, first, done, count - 1);
    }
}

impl<D: BlockDevice> ReadAt<u8> for D {
    /// The blocks have a size, the range ends within `u64`, and the blocks to stage fit
    /// in memory. A range of exactly one block needs only the first.
    open spec fn can_read_at(&self, offset: u64, len: nat) -> bool {
        &&& self.spec_block_size() > 0
        &&& !is_one_block(offset, len, self.spec_block_size()) ==> {
            &&& offset + len <= u64::MAX
            &&& staged_blocks(offset, len, self.spec_block_size()) * self.spec_block_size()
                <= usize::MAX
        }
    }

    /// Reads the bytes from `offset` on into the whole of `buf`. A range of exactly one
    /// block is read by `read_block` straight into `buf`. Any other range is staged: the
    /// blocks that hold it are read in turn into a buffer of whole blocks, and the range
    /// is copied out of that. The first read that fails ends the operation with its error.
    fn read_at(&self, offset: u64, buf: &mut [u8]) -> (result: Result<usize>)
        ensures
            result is Ok ==> result == Ok::<usize, Error>(old(buf)@.len() as usize),
            is_one_block(offset, old(buf)@.len(), self.spec_block_size()) ==> agrees(
                self.spec_read(start_block(offset, self.spec_block_size()) as u64),
                result,
                final(buf)@,
            ),
            !is_one_block(offset, old(buf)@.len(), self.spec_block_size()) ==> match spec_read_blocks(
                self,
                start_block(offset, self.spec_block_size()),
                staged_blocks(offset, old(buf)@.len(), self.spec_block_size()),
            ) {
                Some(Ok(staged)) => result is Ok && final(buf)@ == staged.subrange(
                    relative_offset(offset, self.spec_block_size()),
                    relative_offset(offset, self.spec_block_size()) + old(buf)@.len(),
                ),
                Some(Err(e)) => result == Err::<usize, Error>(e),
                None => true,
            },
            !is_one_block(offset, old(buf)@.len(), self.spec_block_size()) && result is Err
                ==> final(buf)@ == old(buf)@,
    {
        let len: usize = buf.len();
        let block_size: usize = self.block_size();
        let relative: usize = (offset % block_size as u64) as usize;
        if relative == 0 && len == block_size {
            let result = self.read_block(offset / block_size as u64, buf);
            assert(buf@.take(block_size as int) =~= buf@);
            return result;
        }
        proof {
            lemma_staged_blocks(offset, len as nat, block_size);
            assert(staged_blocks(offset, len as nat, block_size) <= usize::MAX) by (nonlinear_arith)
                requires
                    staged_blocks(offset, len as nat, block_size) * block_size <= usize::MAX,
                    block_size > 0,
            ;
        }
        let start: u64 = offset / block_size as u64;
        let end: u64 = (offset + len as u64) / block_size as u64;
        let count: usize = if relative == 0 && (offset + len as u64) % block_size as u64 == 0 && start != end {
            (end - start) as usize
        } else {
            (end - start + 1) as usize
        };
        assert(count == staged_blocks(offset, len as nat, block_size));
        let mut data: Vec<u8> = vec![0_u8; count * block_size];
        let mut i: usize = 0;
        while i < count
            invariant
                i <= count,
                buf@ == old(buf)@,
                len == buf@.len(),
                !is_one_block(offset, len as nat, block_size),
                count == staged_blocks(offset, len as nat, block_size),
                start == start_block(offset, block_size),
                block_size == self.spec_block_size(),
                block_size > 0,
                data@.len() == count * block_size,
                count * block_size <= usize::MAX,
                start + count <= u64::MAX + 1,
                match spec_read_blocks(self, start as int, i as int) {
                    Some(Ok(staged)) => staged == data@.take(i * block_size),
                    Some(Err(_)) => false,
                    None => true,
                },
            decreases count - i,
        {
            assert(i * block_size + block_size <= count * block_size) by (nonlinear_arith)
                requires
                    i < count,
            ;
            let start_index: usize = i * block_size;
            let ghost before = data@;
            let (_, rest) = data.as_mut_slice().split_at_mut(start_index);
            let (chunk, _) = rest.split_at_mut(block_size);
            let read = self.read_block(start + i as u64, chunk);
            let ghost bytes = chunk@;
            match read {
                Ok(_) => {},
                Err(e) => {
                    proof {
                        lemma_read_blocks_stops(self, start as int, i + 1, count as int);
                    }
                    return Err(e);
                },
            }
            proof {
                assert(data@.len() == before.len());
                assert(data@.take(start_index as int) =~= before.take(start_index as int));
                assert(data@.subrange(start_index as int, start_index + block_size) =~= bytes);
                assert(bytes.take(block_size as int) =~= bytes);
                assert(data@.take((i + 1) * block_size) =~= data@.take(i * block_size) + bytes) by {
                    assert((i + 1) * block_size == i * block_size + block_size) by (nonlinear_arith);
                }
            }
            i += 1;
        }
        let staged = vstd::slice::slice_subrange(data.as_slice(), relative, relative + len);
        copy_prefix(buf, staged);
        assert(buf@ =~= staged@);
        Ok(len)
    }
}

} // verus!
