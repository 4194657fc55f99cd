//! Reading and writing: the error vocabulary and the block-device stack.

use vstd::prelude::*;

pub mod block;
pub mod cursor;
pub mod decode;
pub mod read;
pub mod seek;
pub mod testing;
pub mod write;

pub use crate::io::read::{Read, ReadAt};
pub use crate::io::seek::{Seek, SeekFrom};
pub use crate::io::write::{Write, WriteAt};

verus! {

/// The result of an I/O operation.
pub type Result<T, E = Error> = core::result::Result<T, E>;

/// What can go wrong in an I/O operation.
#[derive(Debug, Copy, Clone, Eq, PartialEq, Structural)]
pub enum Error {
    /// The offset is out of bounds or does not meet
    /// other restrictions.
    InvalidOffset,
    /// The provided buffer was too small to fit all the data
    /// it needs to fit.
    BufferTooSmall,
    /// The input ended although it was expected to
    /// produce more data.
    PrematureEndOfInput,
    /// The requested block is not present on the device.
    NoSuchBlock,
    /// The requested function is not implemented for this
    /// I/O component.
    NotImplemented,
    /// The requested entity is not present on the device or
    /// the registry does not hold an entry matching the
    /// criteria.
    NotFound,
    /// An entry or entity was found, but there must not be
    /// one in order for the operation to continue or succeed.
    ExistsButShouldNot,
    /// The provided address is invalid.
    BadAddress,
    /// An invalid value was encountered while decoding.
    DecodeError,
    /// The magic value in the data does not match the expected one.
    InvalidMagicNumber,
    /// The data provided was not coherent or a checksum did not
    /// match the data.
    IncoherentData,
    /// The provided argument was invalid.
    InvalidArgument,
    /// The found entry is a file, but shouldn't be.
    IsFile,
    /// The found entry is a directory, but shouldn't be.
    IsDir,
    /// The found entry is a symbolic link, but shouldn't be.
    IsSymLink,
    /// An unexpected error occurred during the write, or the write
    /// couldn't be completed.
    WriteError,
}

impl Error {
    /// What the error says of itself.
    pub open spec fn message(self) -> Seq<char> {
        match self {
            Error::InvalidOffset => "invalid offset"@,
            Error::BufferTooSmall => "buffer too small"@,
            Error::PrematureEndOfInput => "premature end of input"@,
            Error::NoSuchBlock => "no such block"@,
            Error::NotImplemented => "not implemented"@,
            Error::NotFound => "not found"@,
            Error::ExistsButShouldNot => "exists, but it should not"@,
            Error::BadAddress => "bad address"@,
            Error::DecodeError => "decode error"@,
            Error::InvalidMagicNumber => "invalid magic number"@,
            Error::IncoherentData => "data is incoherent"@,
            Error::InvalidArgument => "invalid argument"@,
            Error::IsFile => "is a file"@,
            Error::IsDir => "is a directory"@,
            Error::IsSymLink => "is a symlink"@,
            Error::WriteError => "write error"@,
        }
    }

    /// What the error says of itself.
    pub fn to_string(&self) -> (text: String)
        ensures
            text@ == self.message(),
    {
        let text: &str = match self {
            Error::InvalidOffset => "invalid offset",
            Error::BufferTooSmall => "buffer too small",
            Error::PrematureEndOfInput => "premature end of input",
            Error::NoSuchBlock => "no such block",
            Error::NotImplemented => "not implemented",
            Error::NotFound => "not found",
            Error::ExistsButShouldNot => "exists, but it should not",
            Error::BadAddress => "bad address",
            Error::DecodeError => "decode error",
            Error::InvalidMagicNumber => "invalid magic number",
            Error::IncoherentData => "data is incoherent",
            Error::InvalidArgument => "invalid argument",
            Error::IsFile => "is a file",
            Error::IsDir => "is a directory",
            Error::IsSymLink => "is a symlink",
            Error::WriteError => "write error",
        };
        text.to_owned()
    }
}

/// Copies `source` over the first bytes of `target`, which is at least as long.
pub fn copy_prefix(target: &mut [u8], source: &[u8])
    requires
        source@.len() <= old(target)@.len(),
    ensures
        final(target)@ == source@ + old(target)@.skip(source@.len() as int),
{
    let n: usize = source.len();
    let mut i: usize = 0;
    while i < n
        invariant
            i <= n,
            n == source@.len(),
            target@.len() == old(target)@.len(),
            n <= target@.len(),
            forall|j: int| 0 <= j < i ==> target@[j] == source@[j],
            forall|j: int| i <= j < target@.len() ==> target@[j] == old(target)@[j],
        decreases n - i,
    {
        target[i] = source[i];
        i += 1;
    }
    assert(target@ =~= source@ + old(target)@.skip(n as int));
}

} // verus!
