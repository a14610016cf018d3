//! The sequence allocator and the task store.

pub mod crud;
pub mod laws;
pub mod local_store;
