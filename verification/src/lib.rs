//! A task tracker's core: the allocator that issues task identifiers from a
//! persisted counter, and the operations on the persisted task collection.
//!
//! The library works on the contents of the two files as plain values. Reading
//! and writing the files is left to the caller.

pub mod clock;
pub mod task;
pub mod text;
