//! Protocols between nodes.

use vstd::prelude::*;

use crate::distribution::protocol;
use crate::distribution::protocol::{DistError, DistMessage};

verus! {

/// How messages between nodes are written and framed.
pub trait Protocol {
    /// Writes a message.
    fn encode(&self, msg: &DistMessage) -> Result<Vec<u8>, DistError>;

    /// Reads a message.
    fn decode(&self, bytes: &[u8]) -> Result<DistMessage, DistError>;

    /// Puts a length before an encoded message.
    fn frame(&self, payload: Vec<u8>) -> Vec<u8>;

    /// Reads the message that a buffer begins with, and says how many bytes it takes up; `None`
    /// if more bytes are needed.
    fn parse_frame(&self, buf: &[u8]) -> Result<Option<(DistMessage, usize)>, DistError>;
}

/// The native protocol: messages as `postcard` writes them, after their length in four bytes.
#[derive(Debug, Clone, Copy)]
pub struct PostcardProtocol;

impl Protocol for PostcardProtocol {
    fn encode(&self, msg: &DistMessage) -> (r: Result<Vec<u8>, DistError>)
        ensures
            r matches Ok(bytes) && bytes@ == protocol::dist_wire(msg@) && protocol::dist_read(
                bytes@,
            ) == Some(msg@),
    {
        Ok(protocol::encode_message(msg))
    }

    fn decode(&self, bytes: &[u8]) -> (r: Result<DistMessage, DistError>)
        ensures
            match r {
                Ok(m) => protocol::dist_read(bytes@) == Some(m@),
                Err(DistError::Decode(text)) => protocol::dist_read(bytes@) is None && text@
                    == protocol::dist_fault(bytes@),
                Err(_) => false,
            },
    {
        protocol::decode_message(bytes)
    }

    fn frame(&self, payload: Vec<u8>) -> (r: Vec<u8>)
        ensures
            r@ == protocol::framed(payload@),
    {
        protocol::frame(payload)
    }

    fn parse_frame(&self, buf: &[u8]) -> (r: Result<Option<(DistMessage, usize)>, DistError>)
        ensures
            if !protocol::is_complete(buf@) {
                r matches Ok(None)
            } else {
                match protocol::dist_read(protocol::frame_payload(buf@)) {
                    Some(m) => r matches Ok(Some((msg, used))) && msg@ == m && used
                        == protocol::frame_length(buf@),
                    None => r matches Err(DistError::Decode(text)) && text@
                        == protocol::dist_fault(protocol::frame_payload(buf@)),
                }
            },
    {
        protocol::parse_frame(buf)
    }
}

/// The transports between nodes.
#[derive(Debug, Clone, Copy, PartialEq, Eq, Structural)]
pub enum TransportType {
    /// QUIC, between native nodes.
    Quic,
    /// TCP.
    Tcp,
}

impl Default for TransportType {
    fn default() -> (r: Self)
        ensures
            r == TransportType::Quic,
    {
        TransportType::Quic
    }
}

} // verus!
