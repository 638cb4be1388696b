//! Generic servers whose messages are dispatched by their tags.

pub mod dispatch;
pub mod server;
