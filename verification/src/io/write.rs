//! Sinks of elements.

use crate::io::{Error, Result};
use vstd::prelude::*;

verus! {

/// A sink that takes elements in order, some at each write.
pub trait Write<T> {
    /// The elements that the sink has taken so far.
    spec fn written(&self) -> Seq<T>;

    /// The number of elements that the sink can still take.
    spec fn room(&self) -> nat;

    /// Whether a buffer of `len` elements can be written to the sink.
    spec fn can_write(&self, len: nat) -> bool;

    /// Whether no write to the sink fails, now or later.
    spec fn never_fails(&self) -> bool;

    /// Writes elements from the front of `buf` once and returns how many the sink took,
    /// which may be fewer than the buffer holds. For all of them, see
    /// [`Write::write_all`]. The sink takes nothing only where the buffer is empty or the
    /// sink has no room.
    fn write(&mut self, buf: &[T]) -> (result: Result<usize>)
        requires
            old(self).can_write(buf@.len()),
        ensures
            forall|len: nat| old(self).can_write(len) ==> final(self).can_write(len),
            old(self).never_fails() ==> result is Ok && final(self).never_fails(),
            result matches Ok(n) ==> {
                &&& n <= buf@.len()
                &&& n <= old(self).room()
                &&& n == 0 ==> buf@.len() == 0 || old(self).room() == 0
                &&& final(self).written() == old(self).written() + buf@.take(n as int)
                &&& final(self).room() == old(self).room() - n
            },
    ;

    /// Makes sure that what was written has reached its destination.
    fn flush(&mut self) -> (result: Result<()>)
        ensures
            forall|len: nat| old(self).can_write(len) ==> final(self).can_write(len),
            old(self).never_fails() ==> result is Ok && final(self).never_fails(),
            result is Ok ==> final(self).written() == old(self).written() && final(self).room()
                == old(self).room(),
    ;

    /// Writes the full buffer to this sink. If this returns `Ok`, the sink has taken
    /// every element. If it returns `Err`, then either an error occurred during
    /// [`Write::write`], or the sink took nothing more, in which case
    /// [`Error::WriteError`] is returned. The sink then has taken the elements that it
    /// had room for.
    fn write_all(&mut self, buf: &[T]) -> (result: Result<()>)
        requires
            forall|len: nat| 1 <= len <= buf@.len() ==> old(self).can_write(len),
        ensures
            forall|len: nat| old(self).can_write(len) ==> final(self).can_write(len),
            result is Ok ==> {
                &&& buf@.len() <= old(self).room()
                &&& final(self).written() == old(self).written() + buf@
                &&& final(self).room() == old(self).room() - buf@.len()
            },
            old(self).never_fails() ==> {
                &&& final(self).never_fails()
                &&& result is Ok <==> buf@.len() <= old(self).room()
                &&& result is Err ==> {
                    &&& result == Err::<(), Error>(Error::WriteError)
                    &&& final(self).written() == old(self).written() + buf@.take(
                        old(self).room() as int,
                    )
                    &&& final(self).room() == 0
                }
            },
    {
        let len: usize = buf.len();
        let mut done: usize = 0;
        let mut stuck: bool = false;
        while done < len && !stuck
            invariant
                done <= len,
                len == buf@.len(),
                forall|n: nat| 1 <= n <= len ==> self.can_write(n),
                forall|n: nat| old(self).can_write(n) ==> self.can_write(n),
                old(self).never_fails() ==> self.never_fails(),
                done <= old(self).room(),
                self.room() == old(self).room() - done,
                self.written() == old(self).written() + buf@.take(done as int),
                stuck ==> done < len && self.room() == 0,
            decreases len - done + (if stuck { 0int } else { 1int }),
        {
            let ghost taken = self.written();
            let rest = vstd::slice::slice_subrange(buf, done, len);
            match self.write(rest) {
                Ok(n) => {
                    if n == 0 {
                        stuck = true;
                    } else {
                        assert(buf@.take(done + n) =~= buf@.take(done as int) + rest@.take(n as int));
                        done = done + n;
                    }
                },
                Err(e) => {
                    return Err(e);
                },
            }
        }
        if done == len {
            assert(buf@ =~= buf@.take(len as int));
            Ok(())
        } else {
            Err(Error::WriteError)
        }
    }
}

/// A sink that is written at a given offset and keeps no position.
pub trait WriteAt<T> {
    /// Whether a buffer of `len` elements can be written at `offset`.
    spec fn can_write_at(&self, offset: u64, len: nat) -> bool;

    /// Writes elements from the front of `buf` at the specified offset and returns how
    /// many were written.
    fn write_at(&mut self, offset: u64, buf: &[T]) -> (result: Result<usize>)
        requires
            old(self).can_write_at(offset, buf@.len()),
        ensures
            result matches Ok(n) ==> n <= buf@.len(),
    ;
}

} // verus!
