//! Publish and subscribe, by topic.

pub mod laws;
pub mod server;
pub mod server_v3;
pub mod subscriptions;
