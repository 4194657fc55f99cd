//! A device that can be written to while the device behind it stays as it is.

use crate::io::block::{agrees, BlockDevice, Outcome};
use crate::io::{copy_prefix, Error, Result};
use std::collections::BTreeMap;
use vstd::prelude::*;

verus! {

broadcast use vstd::std_specs::btree::group_btree_axioms;

/// A copy-on-write overlay over a backing device. The first write to a block copies it
/// from the backing device into the overlay, and every write goes to the overlay only.
/// Reads are answered from the overlay alone: a block that was never written is absent.
pub struct CowBlockDevice<D> where D: BlockDevice {
    inner: D,
    blocks: BTreeMap<u64, Vec<u8>>,
}

impl<D: BlockDevice> CowBlockDevice<D> {
    /// The backing device.
    pub closed spec fn inner(&self) -> D {
        self.inner
    }

    /// The blocks that were written, by block number.
    pub closed spec fn overlay(&self) -> Map<u64, Seq<u8>> {
        Map::new(|block: u64| self.blocks@.contains_key(block), |block: u64| self.blocks@[block]@)
    }

    #[verifier::type_invariant]
    spec fn whole_blocks(self) -> bool {
        forall|block: u64| #[trigger]
            self.blocks@.contains_key(block) ==> self.blocks@[block]@.len()
                == self.inner.spec_block_size()
    }

    /// An overlay over `inner` in which no block has been written yet.
    pub fn new(inner: D) -> (device: Self)
        ensures
            device.inner() == inner,
            device.overlay() == Map::<u64, Seq<u8>>::empty(),
    {
        let device = CowBlockDevice { inner, blocks: BTreeMap::new() };
        assert(device.overlay() =~= Map::<u64, Seq<u8>>::empty());
        device
    }

    /// Moves the overlay out, which leaves it empty until it is put back.
    fn take_blocks(&mut self) -> (blocks: BTreeMap<u64, Vec<u8>>)
        ensures
            blocks@ == old(self).blocks@,
            final(self).inner == old(self).inner,
            final(self).blocks@ == Map::<u64, Vec<u8>>::empty(),
    {
        let mut blocks = BTreeMap::new();
        core::mem::swap(&mut self.blocks, &mut blocks);
        blocks
    }

    /// Copies the block with number `block` from the backing device into the overlay.
    /// Where the backing device fails, the overlay stays as it was.
    fn load_block(&mut self, block: u64) -> (result: Result<usize>)
        requires
            !old(self).overlay().dom().contains(block),
        ensures
            final(self).inner() == old(self).inner(),
            agrees(
                old(self).inner().spec_read(block),
                result,
                final(self).overlay()[block],
            ),
            match result {
                Ok(n) => n == 0 && final(self).overlay().dom() == old(self).overlay().dom().insert(block)
                    && forall|b: u64| b != block && old(self).overlay().dom().contains(b)
                        ==> final(self).overlay()[b] == old(self).overlay()[b],
                Err(_) => final(self).overlay() == old(self).overlay(),
            },
    {
        proof {
            use_type_invariant(&*self);
        }
        let block_size: usize = self.inner.block_size();
        let mut data: Vec<u8> = vec![0_u8; block_size];
        let read = self.inner.read_block(block, data.as_mut_slice());
        match read {
            Ok(_) => {
                assert(data@.take(block_size as int) =~= data@);
                let mut blocks = self.take_blocks();
                blocks.insert(block, data);
                self.blocks = blocks;
                assert(self.overlay().dom() =~= old(self).overlay().dom().insert(block));
                Ok(0)
            },
            Err(e) => Err(e),
        }
    }
}

/// A block that was never written is absent, whatever the backing device holds there.
pub proof fn lemma_unwritten_block_is_absent<D: BlockDevice>(device: &CowBlockDevice<D>, block: u64)
    requires
        !device.overlay().dom().contains(block),
    ensures
        device.spec_read(block) == Some(Err::<Seq<u8>, Error>(Error::NoSuchBlock)),
{
}

/// A block that was written is read back as it was written, and every other block is
/// read as before: `after` is the device that a successful write of `data` to `block`
/// makes of `before`.
pub proof fn lemma_written_block_is_read_back<D: BlockDevice>(
    before: &CowBlockDevice<D>,
    after: &CowBlockDevice<D>,
    block: u64,
    data: Seq<u8>,
)
    requires
        after.overlay() == before.overlay().insert(block, data),
    ensures
        after.spec_read(block) == Some(Ok::<Seq<u8>, Error>(data)),
        forall|other: u64| other != block ==> after.spec_read(other) == before.spec_read(other),
{
}

impl<D: BlockDevice> BlockDevice for CowBlockDevice<D> {
    open spec fn spec_block_size(&self) -> usize {
        self.inner().spec_block_size()
    }

    open spec fn spec_block_count(&self) -> Option<usize> {
        self.inner().spec_block_count()
    }

    /// The block as it was last written, and [`Error::NoSuchBlock`] for a block that was
    /// never written, whatever the backing device holds.
    open spec fn spec_read(&self, block: u64) -> Option<Outcome> {
        if self.overlay().dom().contains(block) {
            Some(Ok(self.overlay()[block]))
        } else {
            Some(Err(Error::NoSuchBlock))
        }
    }

    /// What is written stays in the overlay.
    open spec fn keeps_writes(&self) -> bool {
        true
    }

    fn block_size(&self) -> (size: usize) {
        self.inner.block_size()
    }

    fn block_count(&self) -> (count: usize) {
        self.inner.block_count()
    }

    fn read_block(&self, block: u64, buf: &mut [u8]) -> (result: Result<usize>) {
        proof {
            use_type_invariant(self);
        }
        let block_size: usize = self.inner.block_size();
        if buf.len() < block_size {
            return Err(Error::BufferTooSmall);
        }
        match self.blocks.get(&block) {
            Some(data) => {
                copy_prefix(buf, data.as_slice());
                assert(buf@.take(block_size as int) =~= data@);
                assert(buf@.skip(block_size as int) =~= old(buf)@.skip(block_size as int));
                Ok(block_size)
            },
            None => Err(Error::NoSuchBlock),
        }
    }

    /// Writes to the overlay. A block that is not in the overlay yet is first read from
    /// the backing device, and the error of that read is the error of the write, which
    /// then leaves the overlay as it was. The backing device is never written.
    fn write_block(&mut self, block: u64, buf: &[u8]) -> (result: Result<usize>)
        ensures
            final(self).inner() == old(self).inner(),
            result is Ok ==> final(self).overlay() == old(self).overlay().insert(
                block,
                buf@.take(old(self).spec_block_size() as int),
            ),
            result is Err ==> final(self).overlay() == old(self).overlay(),
            buf@.len() >= old(self).spec_block_size() ==> {
                if old(self).overlay().dom().contains(block) {
                    result is Ok
                } else {
                    match old(self).inner().spec_read(block) {
                        Some(Ok(_)) => result is Ok,
                        Some(Err(e)) => result == Err::<usize, Error>(e),
                        None => true,
                    }
                }
            },
    {
        proof {
            use_type_invariant(&*self);
        }
        let block_size: usize = self.inner.block_size();
        if buf.len() < block_size {
            return Err(Error::BufferTooSmall);
        }
        if !self.blocks.contains_key(&block) {
            match self.load_block(block) {
                Ok(_) => {},
                Err(e) => {
                    return Err(e);
                },
            }
        }
        let mut data: Vec<u8> = vec![0_u8; block_size];
        copy_prefix(data.as_mut_slice(), vstd::slice::slice_subrange(buf, 0, block_size));
        assert(data@ =~= buf@.take(block_size as int));
        proof {
            use_type_invariant(&*self);
        }
        let ghost before = self.overlay();
        let mut blocks = self.take_blocks();
        blocks.insert(block, data);
        self.blocks = blocks;
        assert(self.overlay() =~= before.insert(block, buf@.take(block_size as int)));
        assert(before.insert(block, buf@.take(block_size as int)) =~= old(self).overlay().insert(
            block,
            buf@.take(block_size as int),
        ));
        Ok(block_size)
    }
}

} // verus!
