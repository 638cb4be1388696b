//! Ambitious: Erlang/OTP-style building blocks, with their behaviour stated and proved.

pub mod application;
pub mod channel;
pub mod codec;
pub mod distribution;
pub mod etf;
pub mod gen_server;
pub mod json;
pub mod laws;
pub mod message;
pub mod names;
pub mod node;
pub mod piece;
pub mod presence;
pub mod process;
pub mod pubsub;
pub mod seqs;
pub mod store;
pub mod table;
pub mod text;
pub mod wire;
