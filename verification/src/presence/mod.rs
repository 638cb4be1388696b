//! Distributed presence: who is where, on every node.

pub mod convert;
pub mod crdt;
pub mod laws;
pub mod server;
pub mod server_laws;
pub mod types;
