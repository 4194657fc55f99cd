//! Sources of elements.

use crate::io::{Error, Result};
use vstd::prelude::*;

verus! {

/// A source that delivers its elements in order, some at each read.
pub trait Read<T> {
    /// The elements that the source has yet to deliver.
    spec fn remaining(&self) -> Seq<T>;

    /// Whether the source can be read into a buffer of `len` elements.
    spec fn can_read(&self, len: nat) -> bool;

    /// Whether no read of the source fails, now or later.
    spec fn never_fails(&self) -> bool;

    /// Reads from this source once and places the result in `buf`.
    /// Returns the number of elements read. This method does not guarantee
    /// to read `buf` fully. For that, see [`Read::read_exact`]. It reads nothing only
    /// where the buffer is empty or the source is at its end.
    fn read(&mut self, buf: &mut [T]) -> (result: Result<usize>)
        requires
            old(self).can_read(old(buf)@.len()),
        ensures
            final(buf)@.len() == old(buf)@.len(),
            forall|len: nat| old(self).can_read(len) ==> final(self).can_read(len),
            old(self).never_fails() ==> result is Ok && final(self).never_fails(),
            result matches Ok(n) ==> {
                &&& n <= old(buf)@.len()
                &&& n <= old(self).remaining().len()
                &&& n == 0 ==> old(buf)@.len() == 0 || old(self).remaining().len() == 0
                &&& final(buf)@ == old(self).remaining().take(n as int) + old(buf)@.skip(n as int)
                &&& final(self).remaining() == old(self).remaining().skip(n as int)
            },
    ;

    /// Reads the full buffer from this source. Might block if the
    /// implementation of [`Read::read`] blocks. If this returns
    /// `Ok`, then the full buffer has been read. If it
    /// returns `Err`, then either an error occurred during
    /// [`Read::read`] or the source is at its end, in which case
    /// [`Error::PrematureEndOfInput`] is returned. The buffer then holds, in front, the
    /// elements that the source had left.
    fn read_exact(&mut self, buf: &mut [T]) -> (result: Result<()>)
        requires
            forall|len: nat| 1 <= len <= old(buf)@.len() ==> old(self).can_read(len),
        ensures
            final(buf)@.len() == old(buf)@.len(),
            forall|len: nat| old(self).can_read(len) ==> final(self).can_read(len),
            result is Ok ==> {
                &&& old(buf)@.len() <= old(self).remaining().len()
                &&& final(buf)@ == old(self).remaining().take(old(buf)@.len() as int)
                &&& final(self).remaining() == old(self).remaining().skip(old(buf)@.len() as int)
            },
            old(self).never_fails() ==> {
                &&& final(self).never_fails()
                &&& result is Ok <==> old(buf)@.len() <= old(self).remaining().len()
                &&& result is Err ==> {
                    &&& result == Err::<(), Error>(Error::PrematureEndOfInput)
                    &&& final(buf)@ == old(self).remaining() + old(buf)@.skip(
                        old(self).remaining().len() as int,
                    )
                    &&& final(self).remaining() == Seq::<T>::empty()
                }
            },
    {
        let len: usize = buf.len();
        let mut done: usize = 0;
        let mut at_end: bool = false;
        while done < len && !at_end
            invariant
                done <= len,
                len == buf@.len(),
                len == old(buf)@.len(),
                forall|n: nat| 1 <= n <= len ==> self.can_read(n),
                forall|n: nat| old(self).can_read(n) ==> self.can_read(n),
                old(self).never_fails() ==> self.never_fails(),
                done <= old(self).remaining().len(),
                buf@.take(done as int) == old(self).remaining().take(done as int),
                buf@.skip(done as int) == old(buf)@.skip(done as int),
                self.remaining() == old(self).remaining().skip(done as int),
                at_end ==> done < len && self.remaining().len() == 0,
            decreases len - done + (if at_end { 0int } else { 1int }),
        {
            let ghost before = buf@;
            let ghost source = self.remaining();
            let (_, rest) = buf.split_at_mut(done);
            match self.read(rest) {
                Ok(n) => {
                    if n == 0 {
                        assert(buf@ =~= before);
                        at_end = true;
                    } else {
                        proof {
                            assert(buf@.skip(done + n) =~= old(buf)@.skip(done + n));
                            assert(buf@.take(done + n) =~= before.take(done as int) + source.take(
                                n as int,
                            ));
                            assert(old(self).remaining().take(done + n) =~= old(
                                self,
                            ).remaining().take(done as int) + source.take(n as int));
                            assert(self.remaining() =~= old(self).remaining().skip(done + n));
                        }
                        done = done + n;
                    }
                },
                Err(e) => {
                    return Err(e);
                },
            }
        }
        if done == len {
            assert(buf@ =~= buf@.take(len as int));
            Ok(())
        } else {
            proof {
                let left = old(self).remaining();
                assert(left.skip(done as int).len() == 0);
                assert(left.take(done as int) =~= left);
                assert(buf@ =~= buf@.take(done as int) + buf@.skip(done as int));
                assert(self.remaining() =~= Seq::<T>::empty());
            }
            Err(Error::PrematureEndOfInput)
        }
    }
}

/// A source that is read at a given offset and keeps no position.
pub trait ReadAt<T> {
    /// Whether the source can be read at `offset` into a buffer of `len` elements.
    spec fn can_read_at(&self, offset: u64, len: nat) -> bool;

    /// Reads from this source at the specified offset and places the result in `buf`.
    /// Returns the number of elements read, which may be less than the buffer holds.
    fn read_at(&self, offset: u64, buf: &mut [T]) -> (result: Result<usize>)
        requires
            self.can_read_at(offset, old(buf)@.len()),
        ensures
            final(buf)@.len() == old(buf)@.len(),
            result matches Ok(n) ==> n <= old(buf)@.len(),
    ;
}

} // verus!
