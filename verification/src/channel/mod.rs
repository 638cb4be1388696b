//! Channels: topic-based, real-time communication with joined clients.

pub mod channels;
pub mod laws;
pub mod server;
pub mod transport;
pub mod websocket;
