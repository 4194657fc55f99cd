//! Moving the position of a source or a sink.

use crate::io::Result;
use vstd::prelude::*;

verus! {

/// Where to move a position to.
pub enum SeekFrom {
    /// That many elements behind the start.
    Start(u64),
    /// That many elements before the end.
    End(i64),
    /// That many elements behind the current position, or before it.
    Current(i64),
}

/// A source or sink with a position that can be moved.
pub trait Seek {
    /// The position.
    spec fn spec_position(&self) -> u64;

    /// What moving the position to `pos` ends in: the new position, or the error.
    spec fn spec_seek(&self, pos: SeekFrom) -> Result<u64>;

    /// Moves the position and returns the new one. Where that fails, the position stays
    /// as it was.
    fn seek(&mut self, pos: SeekFrom) -> (result: Result<u64>)
        ensures
            result == old(self).spec_seek(pos),
            final(self).spec_position() == match result {
                Ok(at) => at,
                Err(_) => old(self).spec_position(),
            },
    ;

    /// Moves the position to the start.
    fn rewind(&mut self) -> (result: Result<u64>)
        ensures
            result == old(self).spec_seek(SeekFrom::Start(0)),
            final(self).spec_position() == match result {
                Ok(at) => at,
                Err(_) => old(self).spec_position(),
            },
    {
        self.seek(SeekFrom::Start(0))
    }

    /// The position, counted from the start.
    fn stream_position(&mut self) -> (result: Result<u64>)
        ensures
            result == old(self).spec_seek(SeekFrom::Current(0)),
            final(self).spec_position() == match result {
                Ok(at) => at,
                Err(_) => old(self).spec_position(),
            },
    {
        self.seek(SeekFrom::Current(0))
    }
}

} // verus!
