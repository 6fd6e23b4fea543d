//! The in-process document library: how files are read, how providers are addressed, and
//! the decisions the library takes between its stores and services.

pub mod extract;
pub mod config;
pub mod embedding;
pub mod library;
pub mod vision;
