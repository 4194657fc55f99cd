//! A cache of blocks in front of a device.

use crate::collections::lru::{first_accepted, promoted, LruCache};
use crate::io::block::{after_write, agrees, BlockDevice, Outcome};
use crate::io::{copy_prefix, Error, Result};
use crate::sync::{
    access, lock, lock_read, lock_write, new_mutex, new_rwlock, read_access, share, write_access,
};
use spin::mutex::Mutex;
use spin::rwlock::RwLock;
use std::rc::Rc;
use vstd::prelude::*;

verus! {

/// A block as it is held in the cache: its number on the device, and its bytes.
pub struct Block {
    num: u64,
    data: Vec<u8>,
}

impl Block {
    /// The number of the block on the device.
    pub closed spec fn num(&self) -> u64 {
        self.num
    }

    /// The bytes of the block.
    pub closed spec fn bytes(&self) -> Seq<u8> {
        self.data@
    }

    /// Whether this is the block with number `block`, held in full for blocks of `size`
    /// bytes.
    pub open spec fn holds(&self, block: u64, size: usize) -> bool {
        self.num() == block && self.bytes().len() == size
    }
}

/// Whether the entry at `i` is the first of `entries` that holds `block`.
pub open spec fn first_hit(entries: Seq<Block>, block: u64, size: usize, i: int) -> bool {
    &&& 0 <= i < entries.len()
    &&& entries[i].holds(block, size)
    &&& forall|j: int| 0 <= j < i ==> !(#[trigger] entries[j]).holds(block, size)
}

/// Whether some entry of `entries` holds `block`.
pub open spec fn is_cached(entries: Seq<Block>, block: u64, size: usize) -> bool {
    exists|i: int| 0 <= i < entries.len() && (#[trigger] entries[i]).holds(block, size)
}

/// Looks for `block` among the cached blocks of `size` bytes. On a hit, the block becomes
/// the most recently used one and its bytes are copied into the first `size` bytes of
/// `buf`. On a miss, nothing changes.
fn lookup(cache: &mut LruCache<Block>, block: u64, size: usize, buf: &mut [u8]) -> (hit: bool)
    requires
        size <= old(buf)@.len(),
    ensures
        final(cache).capacity() == old(cache).capacity(),
        final(cache).evicted() == old(cache).evicted(),
        hit == is_cached(old(cache)@, block, size),
        hit ==> exists|i: int|
            {
                &&& #[trigger] first_hit(old(cache)@, block, size, i)
                &&& final(cache)@ == promoted(old(cache)@, i)
                &&& final(buf)@ == old(cache)@[i].bytes() + old(buf)@.skip(size as int)
            },
        !hit ==> final(cache)@ == old(cache)@ && final(buf)@ == old(buf)@,
{
    let wanted = |entry: &Block| -> (found: bool)
        ensures
            found == entry.holds(block, size),
        { entry.num == block && entry.data.len() == size };
    match cache.find(wanted) {
        Some(entry) => {
            copy_prefix(buf, entry.data.as_slice());
            proof {
                let i = choose|i: int|
                    first_accepted(old(cache)@, wanted, i) && *entry == old(cache)@[i] && cache@
                        == promoted(old(cache)@, i);
                assert(first_hit(old(cache)@, block, size, i));
            }
            true
        },
        None => {
            assert(!is_cached(old(cache)@, block, size));
            false
        },
    }
}

/// The bytes of a block of `size` bytes into which a device has read `data`: the data,
/// and zeroes behind them where the block is longer.
pub open spec fn loaded(data: Seq<u8>, size: usize) -> Seq<u8> {
    data + Seq::new((size - data.len()) as nat, |i: int| 0u8)
}

/// Reads the block with number `block` from `device` into a fresh block of `size` bytes.
fn load<D: BlockDevice>(device: &D, block: u64, size: usize) -> (result: Result<Block>)
    ensures
        size < device.spec_block_size() ==> result == Err::<Block, Error>(Error::BufferTooSmall),
        result matches Ok(entry) ==> entry.holds(block, size),
        size >= device.spec_block_size() ==> match device.spec_read(block) {
            Some(Ok(data)) => result matches Ok(entry) && entry.bytes() == loaded(data, size),
            Some(Err(e)) => result == Err::<Block, Error>(e),
            None => true,
        },
{
    let mut data: Vec<u8> = vec![0_u8; size];
    let ghost fresh = data@;
    assert(forall|i: int| 0 <= i < size ==> fresh[i] == 0u8);
    match device.read_block(block, data.as_mut_slice()) {
        Ok(_) => {
            proof {
                let read = data@.take(device.spec_block_size() as int);
                assert(data@.skip(device.spec_block_size() as int) == fresh.skip(
                    device.spec_block_size() as int,
                ));
                assert forall|i: int| device.spec_block_size() <= i < size implies data@[i]
                    == 0u8 by {
                    assert(data@[i] == data@.skip(device.spec_block_size() as int)[i
                        - device.spec_block_size()]);
                }
                assert(data@ =~= loaded(read, size));
            }
            Ok(Block { num: block, data })
        },
        Err(e) => Err(e),
    }
}

/// What a read of `block` through a cache that holds `entries`, in front of `device`,
/// ends in: the bytes of the first entry that holds the block, and otherwise what the
/// device delivers into a block of `size` bytes.
pub open spec fn served<D: BlockDevice>(entries: Seq<Block>, device: &D, block: u64, size: usize)
    -> Option<Outcome> {
    if is_cached(entries, block, size) {
        Some(Ok(entries[choose|i: int| first_hit(entries, block, size, i)].bytes()))
    } else if size < device.spec_block_size() {
        Some(Err(Error::BufferTooSmall))
    } else {
        match device.spec_read(block) {
            Some(Ok(data)) => Some(Ok(loaded(data, size))),
            other => other,
        }
    }
}

/// Only one entry is the first to hold a block.
pub proof fn lemma_first_hit_is_unique(entries: Seq<Block>, block: u64, size: usize, i: int, j: int)
    requires
        first_hit(entries, block, size, i),
        first_hit(entries, block, size, j),
    ensures
        i == j,
{
}

/// A block that the cache does not hold is read from the device.
pub proof fn lemma_uncached_is_read_from_device<D: BlockDevice>(
    entries: Seq<Block>,
    device: &D,
    block: u64,
    data: Seq<u8>,
)
    requires
        !is_cached(entries, block, device.spec_block_size()),
        device.spec_read(block) == Some(Ok::<Seq<u8>, Error>(data)),
        data.len() == device.spec_block_size(),
    ensures
        served(entries, device, block, device.spec_block_size()) == Some(
            Ok::<Seq<u8>, Error>(data),
        ),
{
    assert(loaded(data, device.spec_block_size()) =~= data);
}

/// A block that was written to a device which keeps what is written to it is read back
/// through the cache as it was written, unless the cache holds the block from before:
/// `after` is the device that a successful write of `data` to `block` makes of `before`.
pub proof fn lemma_written_block_is_read_back<D: BlockDevice>(
    entries: Seq<Block>,
    before: &D,
    after: &D,
    block: u64,
    data: Seq<u8>,
)
    requires
        before.keeps_writes(),
        after.spec_block_size() == before.spec_block_size(),
        data.len() == before.spec_block_size(),
        forall|b: u64|
            after.spec_read(b) == after_write(before.spec_read(b), b == block, data),
        !is_cached(entries, block, before.spec_block_size()),
    ensures
        served(entries, after, block, after.spec_block_size()) == Some(Ok::<Seq<u8>, Error>(data)),
{
    lemma_uncached_is_read_from_device(entries, after, block, data);
}

/// A block that the cache holds is read from the cache, whatever the device holds.
pub proof fn lemma_cached_is_read_from_cache<D: BlockDevice>(
    entries: Seq<Block>,
    device: &D,
    block: u64,
    size: usize,
    i: int,
)
    requires
        first_hit(entries, block, size, i),
    ensures
        served(entries, device, block, size) == Some(Ok::<Seq<u8>, Error>(entries[i].bytes())),
{
    let chosen = choose|k: int| first_hit(entries, block, size, k);
    lemma_first_hit_is_unique(entries, block, size, i, chosen);
}

/// Reads `block` through the cache into the first `size` bytes of `buf`. A block that
/// the cache holds is copied from there and becomes the most recently used one. Any other
/// block is read from `device`, and is returned for the caller to put into the cache.
pub fn read_through<D: BlockDevice>(
    cache: &mut LruCache<Block>,
    device: &D,
    block: u64,
    size: usize,
    buf: &mut [u8],
) -> (result: Result<Option<Block>>)
    requires
        size <= old(buf)@.len(),
    ensures
        final(cache).capacity() == old(cache).capacity(),
        final(cache).evicted() == old(cache).evicted(),
        final(buf)@.len() == old(buf)@.len(),
        agrees(
            served(old(cache)@, device, block, size),
            match result {
                Ok(_) => Ok(size),
                Err(e) => Err(e),
            },
            final(buf)@.take(size as int),
        ),
        match result {
            Ok(None) => exists|i: int|
                {
                    &&& #[trigger] first_hit(old(cache)@, block, size, i)
                    &&& final(cache)@ == promoted(old(cache)@, i)
                    &&& final(buf)@ == old(cache)@[i].bytes() + old(buf)@.skip(size as int)
                },
            Ok(Some(entry)) => {
                &&& !is_cached(old(cache)@, block, size)
                &&& final(cache)@ == old(cache)@
                &&& entry.holds(block, size)
                &&& final(buf)@ == entry.bytes() + old(buf)@.skip(size as int)
            },
            Err(_) => {
                &&& !is_cached(old(cache)@, block, size)
                &&& final(cache)@ == old(cache)@
                &&& final(buf)@ == old(buf)@
            },
        },
{
    if lookup(cache, block, size, buf) {
        proof {
            let i = choose|i: int|
                first_hit(old(cache)@, block, size, i) && cache@ == promoted(old(cache)@, i)
                    && buf@ == old(cache)@[i].bytes() + old(buf)@.skip(size as int);
            lemma_cached_is_read_from_cache(old(cache)@, device, block, size, i);
            assert(buf@.take(size as int) =~= old(cache)@[i].bytes());
        }
        return Ok(None);
    }
    match load(device, block, size) {
        Ok(entry) => {
            copy_prefix(buf, entry.data.as_slice());
            assert(buf@.take(size as int) =~= entry.bytes());
            Ok(Some(entry))
        },
        Err(e) => Err(e),
    }
}

/// Writes a block that has left the cache back to its place on the device. A device
/// that fails leaves the block lost: the error has nowhere to go.
fn write_back<D: BlockDevice>(device: &Rc<RwLock<D>>, block: &Block) {
    let mut guard = lock_write(device);
    let target = write_access(&mut guard);
    let _ = target.write_block(block.num, block.data.as_slice());
}

/// A device that keeps the blocks that were read last, and answers reads from them. A
/// block that leaves the cache, and each block that is left when the cache is dropped, is
/// written back to the device. Writes go to the device and pass the cache by.
#[verifier::reject_recursive_types(D)]
pub struct BlockCache<D> where D: BlockDevice {
    cache: Mutex<LruCache<Block>>,
    block_size: usize,
    device: Rc<RwLock<D>>,
}

impl<D: BlockDevice> BlockCache<D> {
    /// A cache of at most `size` blocks in front of `device`. The size of a block is
    /// asked of the device once, here.
    pub fn new(device: D, size: usize) -> (cache: Self) where D: 'static
        ensures
            cache.spec_block_size() == device.spec_block_size(),
    {
        let block_size = device.block_size();
        let device = Rc::new(new_rwlock(device));
        let writer = share(&device);
        let on_evict = move |block: Block| { write_back(&writer, &block) };
        BlockCache { cache: new_mutex(LruCache::with_evict(size, on_evict)), block_size, device }
    }

    /// The handle by which the cache holds its device: the lock that guards the device
    /// which reads, writes and write-backs of this cache go to.
    pub closed spec fn handle(&self) -> Rc<RwLock<D>> {
        self.device
    }

    /// A handle to the device behind the cache: the cache's own, shared. What is done to
    /// the device through it is done to the device that the cache reads and writes.
    pub fn device(&self) -> (handle: Rc<RwLock<D>>)
        ensures
            handle == self.handle(),
    {
        share(&self.device)
    }
}

impl<D: BlockDevice> BlockDevice for BlockCache<D> {
    closed spec fn spec_block_size(&self) -> usize {
        self.block_size
    }

    /// Not known: the device is asked each time.
    open spec fn spec_block_count(&self) -> Option<usize> {
        None
    }

    /// Not known: a read is answered from the cache or the device, both behind locks.
    open spec fn spec_read(&self, block: u64) -> Option<Outcome> {
        None
    }

    fn block_size(&self) -> (size: usize) {
        self.block_size
    }

    fn block_count(&self) -> (count: usize) {
        let guard = lock_read(&self.device);
        read_access(&guard).block_count()
    }

    /// Answers from the cache where it holds the block. Otherwise the block is read from
    /// the device and becomes the most recently used block of the cache; the error of
    /// that read is the error of this one.
    fn read_block(&self, block: u64, buf: &mut [u8]) -> (result: Result<usize>) {
        let block_size: usize = self.block_size;
        if buf.len() < block_size {
            return Err(Error::BufferTooSmall);
        }
        let mut guard = lock(&self.cache);
        let cache = access(&mut guard);
        let missed = {
            let device = lock_read(&self.device);
            read_through(cache, read_access(&device), block, block_size, buf)
        };
        match missed {
            Ok(Some(entry)) => {
                cache.insert(entry);
            },
            Ok(None) => {},
            Err(e) => {
                return Err(e);
            },
        }
        assert(buf@.skip(block_size as int) =~= old(buf)@.skip(block_size as int));
        Ok(block_size)
    }

    /// Hands the write to the device. A block of the cache is neither looked at nor
    /// changed, so a block that is cached keeps being read as it was.
    fn write_block(&mut self, block: u64, buf: &[u8]) -> (result: Result<usize>) {
        if buf.len() < self.block_size {
            return Err(Error::BufferTooSmall);
        }
        let mut guard = lock_write(&self.device);
        match write_access(&mut guard).write_block(block, buf) {
            Ok(_) => Ok(self.block_size),
            Err(e) => Err(e),
        }
    }
}

} // verus!
