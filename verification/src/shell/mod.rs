//! Command execution: one seam, four tools. What runs is a process tree, so every command gets
//! its own process group and signals go to the whole group. There is no blocklist: the real
//! defences are approval and the sandbox.

pub mod provider;
pub mod jobs;
pub mod tools;
pub mod plugin;
