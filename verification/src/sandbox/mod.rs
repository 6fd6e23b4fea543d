//! Process confinement: one seam, three modes, one implementation per operating system.
//! It governs file writes, and the network only when asked; reads are never restricted.
//! [`seam::Enforcement`] reports the truth about this machine, it never promises a boundary.

pub mod policy;
pub mod seam;
pub mod unconfined;
pub mod landlock;
pub mod seatbelt;
pub mod machine;
pub mod plugin;
pub mod runner;
