//! Verified core of the local AI harness: document chunking and format rules, process
//! confinement policy, the append-only session log and the shell output rules.

pub mod clock;
pub mod rag;
pub mod sandbox;
pub mod session;
pub mod shell;
pub mod text;
