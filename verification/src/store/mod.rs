//! Key-value stores that belong to a process.
//!
//! The process that makes a call stands outside and is handed in as the caller.

pub mod access;
pub mod laws;
pub mod ordered;
pub mod registry;
pub mod unordered;
