//! Append-only session log: the single source of the context the model sees. History is
//! projected from the log, compaction only shadows nodes, and `seq` never has gaps.

pub mod error;
pub mod event;
pub mod log;
pub mod session;
pub mod message;
pub mod packing;
pub mod store;
pub mod surface;
