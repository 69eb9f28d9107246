//! An ordered, persisted list of short text tasks: the task record, the
//! store that owns the list and its id sequence, and the pieces of the
//! load/save path that decide rather than do I/O.

pub mod tasks;
pub mod text;
pub mod store;
pub mod persist;
pub mod laws;
