//! Distribution: nodes that exchange messages.

pub mod action;
pub mod erlang;
pub mod laws;
pub mod layer;
pub mod manager;
pub mod protocol;
pub mod spawn;
pub mod tcp_transport;
pub mod traits;
