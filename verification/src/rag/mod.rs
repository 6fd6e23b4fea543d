//! Document library: chunking, format rules and the in-process library's decisions.

pub mod chunk;
pub mod client;
pub mod error;
pub mod extract;
pub mod format;
pub mod library;
pub mod native;
pub mod paths;
pub mod search;
pub mod sidecar;
pub mod store;
pub mod tools;
