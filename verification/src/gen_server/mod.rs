//! Generic servers: processes that keep a state and answer requests.

pub mod laws;
pub mod protocol;
pub mod server;
pub mod server_ref;
pub mod types;
pub mod v2;
pub mod via;
