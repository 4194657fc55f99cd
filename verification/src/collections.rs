//! Bounded and ordered containers.

pub mod deltaq;
pub mod lru;
