//! Messages over a stream of bytes.
//!
//! A stream hands its bytes out in chunks that have nothing to do with the messages. The buffer
//! gathers them until a message is whole.

use vstd::prelude::*;

use crate::distribution::protocol;
use crate::distribution::protocol::{DistError, DistMessage};
use crate::wire;

verus! {

/// What a read from a stream came to.
pub enum Chunk {
    /// Some bytes; none if the stream was closed.
    Data(Vec<u8>),
    /// The read failed.
    Failed(String),
}

/// The bytes of a stream that have come and are not yet used up.
pub struct ReadBuffer {
    bytes: Vec<u8>,
}

impl View for ReadBuffer {
    type V = Seq<u8>;

    closed spec fn view(&self) -> Seq<u8> {
        self.bytes@
    }
}

impl ReadBuffer {
    /// An empty buffer.
    pub fn new() -> (r: Self)
        ensures
            r@ == Seq::<u8>::empty(),
    {
        ReadBuffer { bytes: Vec::new() }
    }

    /// Takes the next message out of the buffer. `None` says that more bytes are needed. A
    /// message that cannot be read stays in the buffer.
    pub fn next_message(&mut self) -> (r: Result<Option<DistMessage>, DistError>)
        ensures
            if !protocol::is_complete(old(self)@) {
                &&& r matches Ok(None)
                &&& final(self)@ == old(self)@
            } else {
                match protocol::dist_read(protocol::frame_payload(old(self)@)) {
                    Some(m) => {
                        &&& r matches Ok(Some(msg)) && msg@ == m
                        &&& final(self)@ == old(self)@.skip(protocol::frame_length(old(self)@))
                    },
                    None => {
                        &&& r matches Err(DistError::Decode(text)) && text@
                            == protocol::dist_fault(protocol::frame_payload(old(self)@))
                        &&& final(self)@ == old(self)@
                    },
                }
            },
    {
        match protocol::parse_frame(self.bytes.as_slice()) {
            Err(e) => Err(e),
            Ok(None) => Ok(None),
            Ok(Some((msg, used))) => {
                let n: usize = self.bytes.len();
                let ghost before = self.bytes@;
                let rest = wire::bytes_of(
                    vstd::slice::slice_subrange(self.bytes.as_slice(), used, n),
                );
                assert(rest@ =~= before.skip(used as int));
                self.bytes = rest;
                Ok(Some(msg))
            },
        }
    }

    /// Adds what a read came to. An empty chunk says that the connection was closed.
    pub fn feed(&mut self, chunk: Chunk) -> (r: Result<(), DistError>)
        ensures
            match chunk {
                Chunk::Data(data) => if data@.len() == 0 {
                    &&& r == Err::<(), DistError>(DistError::ConnectionClosed)
                    &&& final(self)@ == old(self)@
                } else {
                    &&& r is Ok
                    &&& final(self)@ == old(self)@ + data@
                },
                Chunk::Failed(text) => {
                    &&& r == Err::<(), DistError>(DistError::Io(text))
                    &&& final(self)@ == old(self)@
                },
            },
    {
        match chunk {
            Chunk::Data(data) => {
                if data.len() == 0 {
                    return Err(DistError::ConnectionClosed);
                }
                wire::append_bytes(&mut self.bytes, data.as_slice());
                Ok(())
            },
            Chunk::Failed(text) => Err(DistError::Io(text)),
        }
    }
}

/// A message that has been framed comes out of the buffer as it went in, behind nothing and
/// before whatever follows. Messages of four gigabytes and more are left out.
pub proof fn law_message_comes_out(payload: Seq<u8>, rest: Seq<u8>)
    requires
        payload.len() <= u32::MAX,
    ensures
        protocol::is_complete(protocol::framed(payload) + rest),
        protocol::frame_payload(protocol::framed(payload) + rest) == payload,
        (protocol::framed(payload) + rest).skip(
            protocol::frame_length(protocol::framed(payload) + rest),
        ) == rest,
{
    let f = protocol::framed(payload);
    protocol::law_framing(payload, rest, 0);
    assert(protocol::frame_length(f + rest) == f.len()) by {
        protocol::lemma_length_reads_back(payload.len(), payload + rest);
        assert(f + rest =~= protocol::be_bytes(payload.len()) + (payload + rest));
    }
    assert((f + rest).skip(f.len() as int) =~= rest);
}

} // verus!
