//! Building blocks for a kernel: bounded and ordered collections, paths, and a stack of
//! block devices with a cache and a copy-on-write overlay. What each function returns
//! and changes is stated in its contract and proved.

pub mod collections;
pub mod io;
pub mod path;
pub mod sync;
