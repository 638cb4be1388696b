//! The messages that callers and generic servers exchange, and the envelopes around them.

use vstd::prelude::*;
use vstd::utf8::*;

use crate::codec;
use crate::process::{DecodeError, ExitReason, ExitReasonView, Pid, PidView, Ref};
use crate::wire;

verus! {

/// The tag of a call envelope.
pub const GEN_CALL_TAG: &'static str = "$gen_call";

/// The tag of a cast envelope.
pub const GEN_CAST_TAG: &'static str = "$gen_cast";

/// What identifies a waiting caller.
pub struct FromView {
    /// The caller's process.
    pub pid: PidView,
    /// The number of the call's reference.
    pub reference: u64,
}

/// A caller waiting for a reply.
#[derive(Debug)]
pub struct From {
    /// The caller's process.
    pub pid: Pid,
    /// The reference of the call.
    pub reference: Ref,
}

impl View for From {
    type V = FromView;

    open spec fn view(&self) -> FromView {
        FromView { pid: self.pid@, reference: self.reference@ }
    }
}

impl Clone for From {
    fn clone(&self) -> (r: Self)
        ensures
            r@ == self@,
    {
        From { pid: self.pid.clone(), reference: self.reference }
    }
}

/// A caller in bytes.
pub open spec fn from_wire(f: FromView) -> Seq<u8> {
    codec::pid_wire(f.pid) + wire::postcard_u64(f.reference)
}

/// The caller at the front of some bytes, with the bytes left over.
pub open spec fn from_read(b: Seq<u8>) -> Option<(FromView, Seq<u8>)> {
    match codec::pid_read(b) {
        None => None,
        Some((pid, b1)) => match wire::postcard_take_u64(b1) {
            None => None,
            Some((reference, b2)) => Some((FromView { pid, reference }, b2)),
        },
    }
}

/// What is wrong with bytes that do not begin with a caller.
pub open spec fn from_fault(b: Seq<u8>) -> Seq<char> {
    match codec::pid_read(b) {
        None => codec::pid_fault(b),
        Some((_, b1)) => wire::postcard_u64_fault(b1),
    }
}

/// The caller reads back from its bytes, whatever follows them.
pub open spec fn from_reads_back(f: FromView) -> bool {
    forall|rest: Seq<u8>| #[trigger] from_read(from_wire(f) + rest) == Some((f, rest))
}

fn put_from(out: &mut Vec<u8>, f: &From)
    ensures
        final(out)@ == old(out)@ + from_wire(f@),
        from_reads_back(f@),
{
    let ghost before = out@;
    codec::put_pid(out, &f.pid);
    let b = wire::put_u64(f.reference.as_raw());
    wire::append_bytes(out, b.as_slice());
    proof {
        assert(out@ =~= before + from_wire(f@));
        assert forall|rest: Seq<u8>| #[trigger] from_read(from_wire(f@) + rest) == Some(
            (f@, rest),
        ) by {
            assert(from_wire(f@) + rest =~= codec::pid_wire(f@.pid) + (b@ + rest));
        }
    }
}

fn take_from(b: &[u8]) -> (r: Result<(From, &[u8]), String>)
    ensures
        match r {
            Ok((f, rest)) => from_read(b@) == Some((f@, rest@)),
            Err(e) => from_read(b@) is None && e@ == from_fault(b@),
        },
{
    match codec::take_pid(b) {
        Err(e) => Err(e),
        Ok((pid, b1)) => match wire::take_u64(b1) {
            Err(e) => Err(e),
            Ok((raw, b2)) => Ok((From { pid, reference: Ref::from_raw(raw) }, b2)),
        },
    }
}

/// A call: who waits for the reply, and the encoded request.
pub struct GenCallEnvelope {
    /// Who waits for the reply.
    pub from: From,
    /// The encoded request.
    pub request: Vec<u8>,
}

/// A cast: the encoded message.
pub struct GenCastEnvelope {
    /// The encoded message.
    pub request: Vec<u8>,
}

/// An envelope: the tag says which behaviour the payload is for.
pub struct TaggedEnvelope {
    /// The tag.
    pub tag: String,
    /// The payload, in the format that the tag stands for.
    pub payload: Vec<u8>,
}

/// An envelope in bytes.
pub open spec fn envelope_wire(tag: Seq<char>, payload: Seq<u8>) -> Seq<u8> {
    wire::postcard_str(tag) + wire::postcard_bytes(payload)
}

/// The envelope that some bytes begin with.
pub open spec fn envelope_read(b: Seq<u8>) -> Option<(Seq<char>, Seq<u8>)> {
    match wire::postcard_take_str(b) {
        None => None,
        Some((tag, b1)) => match wire::postcard_take_bytes(b1) {
            None => None,
            Some((payload, _)) => Some((tag, payload)),
        },
    }
}

/// What is wrong with bytes that do not begin with an envelope.
pub open spec fn envelope_fault(b: Seq<u8>) -> Seq<char> {
    match wire::postcard_take_str(b) {
        None => wire::postcard_str_fault(b),
        Some((_, b1)) => wire::postcard_bytes_fault(b1),
    }
}

/// A call in bytes.
pub open spec fn call_wire(from: FromView, request: Seq<u8>) -> Seq<u8> {
    from_wire(from) + wire::postcard_bytes(request)
}

/// The call that some bytes begin with.
pub open spec fn call_read(b: Seq<u8>) -> Option<(FromView, Seq<u8>)> {
    match from_read(b) {
        None => None,
        Some((from, b1)) => match wire::postcard_take_bytes(b1) {
            None => None,
            Some((request, _)) => Some((from, request)),
        },
    }
}

/// What is wrong with bytes that do not begin with a call.
pub open spec fn call_fault(b: Seq<u8>) -> Seq<char> {
    match from_read(b) {
        None => from_fault(b),
        Some((_, b1)) => wire::postcard_bytes_fault(b1),
    }
}

/// The cast that some bytes begin with.
pub open spec fn cast_read(b: Seq<u8>) -> Option<Seq<u8>> {
    match wire::postcard_take_bytes(b) {
        None => None,
        Some((request, _)) => Some(request),
    }
}

/// What is wrong with bytes that do not begin with a cast.
pub open spec fn cast_fault(b: Seq<u8>) -> Seq<char> {
    wire::postcard_bytes_fault(b)
}

/// The call in an envelope; `None` if the bytes are no call envelope.
pub open spec fn gen_call_read(b: Seq<u8>) -> Option<(FromView, Seq<u8>)> {
    match envelope_read(b) {
        Some((tag, payload)) => if tag == GEN_CALL_TAG@ {
            call_read(payload)
        } else {
            None
        },
        None => None,
    }
}

/// The cast in an envelope; `None` if the bytes are no cast envelope.
pub open spec fn gen_cast_read(b: Seq<u8>) -> Option<Seq<u8>> {
    match envelope_read(b) {
        Some((tag, payload)) => if tag == GEN_CAST_TAG@ {
            cast_read(payload)
        } else {
            None
        },
        None => None,
    }
}

proof fn lemma_tags_differ()
    ensures
        GEN_CALL_TAG@ != GEN_CAST_TAG@,
{
    reveal_strlit("$gen_call");
    reveal_strlit("$gen_cast");
    assert(GEN_CALL_TAG@[7] == 'l');
    assert(GEN_CAST_TAG@[7] == 's');
}

/// Bytes that begin with a number above those of the variants are no protocol message.
pub proof fn lemma_no_message(b: Seq<u8>)
    requires
        b.len() > 0,
        6 <= b[0] < 128,
    ensures
        message_read(b) is None,
{
    reveal(wire::postcard_take_u32);
    assert(wire::unvarint(b, 5) == Some((b[0] as nat, b.skip(1))));
}

/// Bytes that begin with another length than that of the tags of calls and casts are none.
pub proof fn lemma_no_envelope(b: Seq<u8>)
    requires
        b.len() > 0,
        b[0] < 128,
        b[0] != 9,
    ensures
        gen_call_read(b) is None,
        gen_cast_read(b) is None,
{
    broadcast use decode_utf8_encode_utf8;

    reveal(wire::postcard_take_str);
    reveal_strlit("$gen_call");
    reveal_strlit("$gen_cast");
    crate::message::lemma_ascii_length(GEN_CALL_TAG@);
    crate::message::lemma_ascii_length(GEN_CAST_TAG@);
    let rest = b.skip(1);
    assert(wire::unvarint(b, 5) == Some((b[0] as nat, rest)));
    assert(wire::unvarint(b, 10) == Some((b[0] as nat, rest)));
    assert(wire::length(b) == Some((b[0] as nat, rest)));
    match wire::postcard_take_str(b) {
        Some((tag, _)) => {
            let name = rest.take(b[0] as int);
            assert(tag == decode_utf8(name));
            assert(encode_utf8(tag) == name);
            assert(encode_utf8(tag).len() == b[0]);
        },
        None => {},
    }
}

/// A cast reads back from its envelope, as a cast and as no call, if its length can be counted.
pub proof fn law_cast_envelope_reads_back(request: Seq<u8>)
    requires
        wire::postcard_bytes(request).len() <= usize::MAX,
    ensures
        gen_cast_read(envelope_wire(GEN_CAST_TAG@, wire::postcard_bytes(request))) == Some(
            request,
        ),
        gen_call_read(envelope_wire(GEN_CAST_TAG@, wire::postcard_bytes(request))) is None,
{
    let inner = wire::postcard_bytes(request);
    let none = Seq::<u8>::empty();
    reveal_strlit("$gen_cast");
    crate::message::lemma_ascii_length(GEN_CAST_TAG@);
    lemma_tags_differ();
    assert(request.len() <= usize::MAX) by {
        reveal(wire::postcard_bytes);
    }
    wire::law_str_reads_back(GEN_CAST_TAG@, wire::postcard_bytes(inner));
    wire::law_bytes_reads_back(inner, none);
    wire::law_bytes_reads_back(request, none);
    assert(wire::postcard_bytes(inner) + none =~= wire::postcard_bytes(inner));
    assert(inner + none =~= inner);
}

impl TaggedEnvelope {
    /// An envelope with the given tag and payload.
    pub fn new(tag: &str, payload: Vec<u8>) -> (r: Self)
        ensures
            r.tag@ == tag@,
            r.payload@ == payload@,
    {
        TaggedEnvelope { tag: tag.to_owned(), payload }
    }

    /// The envelope in bytes, from which it reads back.
    pub fn encode(&self) -> (r: Vec<u8>)
        ensures
            r@ == envelope_wire(self.tag@, self.payload@),
            envelope_read(r@) == Some((self.tag@, self.payload@)),
    {
        let mut out = wire::put_str(self.tag.as_str());
        let b = wire::put_bytes(self.payload.as_slice());
        let ghost a = out@;
        wire::append_bytes(&mut out, b.as_slice());
        assert(b@ + Seq::<u8>::empty() =~= b@);
        out
    }

    /// Reads an envelope.
    pub fn decode(data: &[u8]) -> (r: Result<Self, DecodeError>)
        ensures
            match r {
                Ok(e) => envelope_read(data@) == Some((e.tag@, e.payload@)),
                Err(DecodeError::Postcard(text)) => envelope_read(data@) is None && text@
                    == envelope_fault(data@),
                Err(_) => false,
            },
    {
        match wire::take_str(data) {
            Err(e) => Err(DecodeError::Postcard(e)),
            Ok((tag, b1)) => match wire::take_bytes(b1) {
                Err(e) => Err(DecodeError::Postcard(e)),
                Ok((payload, _)) => Ok(TaggedEnvelope { tag, payload }),
            },
        }
    }
}

/// A call in its envelope. It reads back as this call, and as no cast.
pub fn encode_gen_call_envelope(from: From, request: Vec<u8>) -> (r: Vec<u8>)
    ensures
        r@ == envelope_wire(GEN_CALL_TAG@, call_wire(from@, request@)),
        gen_call_read(r@) == Some((from@, request@)),
        gen_cast_read(r@) is None,
{
    let mut inner: Vec<u8> = Vec::new();
    put_from(&mut inner, &from);
    let ghost head = inner@;
    let b = wire::put_bytes(request.as_slice());
    wire::append_bytes(&mut inner, b.as_slice());
    proof {
        assert(inner@ =~= call_wire(from@, request@));
        assert(b@ + Seq::<u8>::empty() =~= b@);
        assert(from_wire(from@) + b@ == inner@);
        lemma_tags_differ();
    }
    TaggedEnvelope::new(GEN_CALL_TAG, inner).encode()
}

/// A cast in its envelope. It reads back as this cast, and as no call.
pub fn encode_gen_cast_envelope(request: Vec<u8>) -> (r: Vec<u8>)
    ensures
        r@ == envelope_wire(GEN_CAST_TAG@, wire::postcard_bytes(request@)),
        gen_cast_read(r@) == Some(request@),
        gen_call_read(r@) is None,
{
    let b = wire::put_bytes(request.as_slice());
    proof {
        assert(b@ + Seq::<u8>::empty() =~= b@);
        lemma_tags_differ();
    }
    TaggedEnvelope::new(GEN_CAST_TAG, b).encode()
}

/// Reads a call envelope; `None` if the bytes are none.
pub fn decode_gen_call_envelope(data: &[u8]) -> (r: Option<GenCallEnvelope>)
    ensures
        match r {
            Some(e) => gen_call_read(data@) == Some((e.from@, e.request@)),
            None => gen_call_read(data@) is None,
        },
{
    match TaggedEnvelope::decode(data) {
        Err(_) => None,
        Ok(tagged) => if crate::text::same_str(tagged.tag.as_str(), GEN_CALL_TAG) {
            match take_from(tagged.payload.as_slice()) {
                Err(_) => None,
                Ok((from, b1)) => match wire::take_bytes(b1) {
                    Err(_) => None,
                    Ok((request, _)) => Some(GenCallEnvelope { from, request }),
                },
            }
        } else {
            None
        },
    }
}

/// Reads a cast envelope; `None` if the bytes are none.
pub fn decode_gen_cast_envelope(data: &[u8]) -> (r: Option<GenCastEnvelope>)
    ensures
        match r {
            Some(e) => gen_cast_read(data@) == Some(e.request@),
            None => gen_cast_read(data@) is None,
        },
{
    match TaggedEnvelope::decode(data) {
        Err(_) => None,
        Ok(tagged) => if crate::text::same_str(tagged.tag.as_str(), GEN_CAST_TAG) {
            match wire::take_bytes(tagged.payload.as_slice()) {
                Err(_) => None,
                Ok((request, _)) => Some(GenCastEnvelope { request }),
            }
        } else {
            None
        },
    }
}

/// Reads any envelope: its tag and its payload.
pub fn decode_tagged_envelope(data: &[u8]) -> (r: Option<(String, Vec<u8>)>)
    ensures
        match r {
            Some((tag, payload)) => envelope_read(data@) == Some((tag@, payload@)),
            None => envelope_read(data@) is None,
        },
{
    match TaggedEnvelope::decode(data) {
        Err(_) => None,
        Ok(tagged) => Some((tagged.tag, tagged.payload)),
    }
}

/// What a protocol message stands for.
pub enum MessageView {
    /// A request that waits for a reply.
    Call {
        /// Who waits.
        from: FromView,
        /// The encoded request.
        payload: Seq<u8>,
    },
    /// A message without a reply.
    Cast {
        /// The encoded message.
        payload: Seq<u8>,
    },
    /// The reply to a call.
    Reply {
        /// The reference of the call.
        reference: u64,
        /// The encoded reply.
        payload: Seq<u8>,
    },
    /// A request to stop.
    Stop {
        /// Why.
        reason: ExitReasonView,
        /// Who waits for the acknowledgement.
        from: Option<FromView>,
    },
    /// A timeout has passed.
    Timeout,
    /// An argument that the server handed to itself.
    Continue {
        /// The encoded argument.
        arg: Seq<u8>,
    },
}

/// A protocol message.
pub enum Message {
    /// A request that waits for a reply.
    Call {
        /// Who waits.
        from: From,
        /// The encoded request.
        payload: Vec<u8>,
    },
    /// A message without a reply.
    Cast {
        /// The encoded message.
        payload: Vec<u8>,
    },
    /// The reply to a call.
    Reply {
        /// The reference of the call.
        reference: Ref,
        /// The encoded reply.
        payload: Vec<u8>,
    },
    /// A request to stop.
    Stop {
        /// Why.
        reason: ExitReason,
        /// Who waits for the acknowledgement.
        from: Option<From>,
    },
    /// A timeout has passed.
    Timeout,
    /// An argument that the server handed to itself.
    Continue {
        /// The encoded argument.
        arg: Vec<u8>,
    },
}

/// The view of an optional caller.
pub open spec fn from_option(f: Option<From>) -> Option<FromView> {
    match f {
        Some(from) => Some(from@),
        None => None,
    }
}

impl View for Message {
    type V = MessageView;

    open spec fn view(&self) -> MessageView {
        match *self {
            Message::Call { from, payload } => MessageView::Call {
                from: from@,
                payload: payload@,
            },
            Message::Cast { payload } => MessageView::Cast { payload: payload@ },
            Message::Reply { reference, payload } => MessageView::Reply {
                reference: reference@,
                payload: payload@,
            },
            Message::Stop { reason, from } => MessageView::Stop {
                reason: reason@,
                from: from_option(from),
            },
            Message::Timeout => MessageView::Timeout,
            Message::Continue { arg } => MessageView::Continue { arg: arg@ },
        }
    }
}

/// A protocol message in bytes: its variant, then its fields.
pub open spec fn message_wire(m: MessageView) -> Seq<u8> {
    match m {
        MessageView::Call { from, payload } => wire::postcard_u32(0) + from_wire(from)
            + wire::postcard_bytes(payload),
        MessageView::Cast { payload } => wire::postcard_u32(1) + wire::postcard_bytes(payload),
        MessageView::Reply { reference, payload } => wire::postcard_u32(2) + wire::postcard_u64(
            reference,
        ) + wire::postcard_bytes(payload),
        MessageView::Stop { reason, from: None } => wire::postcard_u32(3) + codec::reason_wire(
            reason,
        ) + wire::postcard_u8(0),
        MessageView::Stop { reason, from: Some(f) } => wire::postcard_u32(3) + codec::reason_wire(
            reason,
        ) + wire::postcard_u8(1) + from_wire(f),
        MessageView::Timeout => wire::postcard_u32(4),
        MessageView::Continue { arg } => wire::postcard_u32(5) + wire::postcard_bytes(arg),
    }
}

/// The protocol message that some bytes begin with.
pub open spec fn message_read(b: Seq<u8>) -> Option<MessageView> {
    match wire::postcard_take_u32(b) {
        None => None,
        Some((kind, b1)) => if kind == 0 {
            match call_read(b1) {
                None => None,
                Some((from, payload)) => Some(MessageView::Call { from, payload }),
            }
        } else if kind == 1 {
            match cast_read(b1) {
                None => None,
                Some(payload) => Some(MessageView::Cast { payload }),
            }
        } else if kind == 2 {
            match wire::postcard_take_u64(b1) {
                None => None,
                Some((reference, b2)) => match cast_read(b2) {
                    None => None,
                    Some(payload) => Some(MessageView::Reply { reference, payload }),
                },
            }
        } else if kind == 3 {
            match codec::reason_read(b1) {
                None => None,
                Some((reason, b2)) => match wire::postcard_take_u8(b2) {
                    None => None,
                    Some((has, b3)) => if has == 0 {
                        Some(MessageView::Stop { reason, from: None })
                    } else if has == 1 {
                        match from_read(b3) {
                            None => None,
                            Some((f, _)) => Some(MessageView::Stop { reason, from: Some(f) }),
                        }
                    } else {
                        None
                    },
                },
            }
        } else if kind == 4 {
            Some(MessageView::Timeout)
        } else if kind == 5 {
            match cast_read(b1) {
                None => None,
                Some(arg) => Some(MessageView::Continue { arg }),
            }
        } else {
            None
        },
    }
}

/// What is wrong with bytes that do not begin with a protocol message.
pub open spec fn message_fault(b: Seq<u8>) -> Seq<char> {
    match wire::postcard_take_u32(b) {
        None => wire::postcard_u32_fault(b),
        Some((kind, b1)) => if kind == 0 {
            call_fault(b1)
        } else if kind == 1 {
            cast_fault(b1)
        } else if kind == 2 {
            match wire::postcard_take_u64(b1) {
                None => wire::postcard_u64_fault(b1),
                Some((_, b2)) => cast_fault(b2),
            }
        } else if kind == 3 {
            match codec::reason_read(b1) {
                None => codec::reason_fault(b1),
                Some((_, b2)) => match wire::postcard_take_u8(b2) {
                    None => wire::postcard_u8_fault(b2),
                    Some((has, b3)) => if has == 1 {
                        from_fault(b3)
                    } else {
                        wire::BAD_OPTION@
                    },
                },
            }
        } else if kind == 5 {
            cast_fault(b1)
        } else {
            wire::BAD_VARIANT@
        },
    }
}

fn put_call(out: &mut Vec<u8>, from: &From, payload: &Vec<u8>)
    ensures
        final(out)@ == old(out)@ + call_wire(from@, payload@),
        call_read(call_wire(from@, payload@)) == Some((from@, payload@)),
{
    let ghost before = out@;
    put_from(out, from);
    let b = wire::put_bytes(payload.as_slice());
    wire::append_bytes(out, b.as_slice());
    proof {
        assert(out@ =~= before + call_wire(from@, payload@));
        assert(b@ + Seq::<u8>::empty() =~= b@);
    }
}

fn put_payload(out: &mut Vec<u8>, payload: &Vec<u8>)
    ensures
        final(out)@ == old(out)@ + wire::postcard_bytes(payload@),
        cast_read(wire::postcard_bytes(payload@)) == Some(payload@),
{
    let b = wire::put_bytes(payload.as_slice());
    wire::append_bytes(out, b.as_slice());
    assert(b@ + Seq::<u8>::empty() =~= b@);
}

fn take_payload(b: &[u8]) -> (r: Result<Vec<u8>, String>)
    ensures
        match r {
            Ok(payload) => cast_read(b@) == Some(payload@),
            Err(e) => cast_read(b@) is None && e@ == cast_fault(b@),
        },
{
    match wire::take_bytes(b) {
        Err(e) => Err(e),
        Ok((payload, _)) => Ok(payload),
    }
}

impl Message {
    /// The message in bytes, from which it reads back.
    pub fn encode(&self) -> (r: Vec<u8>)
        ensures
            r@ == message_wire(self@),
            message_read(r@) == Some(self@),
    {
        match self {
            Message::Call { from, payload } => {
                let mut out = wire::put_u32(0);
                let ghost a = out@;
                put_call(&mut out, from, payload);
                assert(out@ =~= message_wire(self@));
                out
            },
            Message::Cast { payload } => {
                let mut out = wire::put_u32(1);
                put_payload(&mut out, payload);
                out
            },
            Message::Reply { reference, payload } => {
                let mut out = wire::put_u32(2);
                let ghost a = out@;
                let b = wire::put_u64(reference.as_raw());
                wire::append_bytes(&mut out, b.as_slice());
                put_payload(&mut out, payload);
                assert(out@ =~= a + (b@ + wire::postcard_bytes(payload@)));
                out
            },
            Message::Stop { reason, from } => {
                let mut out = wire::put_u32(3);
                let ghost a = out@;
                codec::put_reason(&mut out, reason);
                let ghost w = codec::reason_wire(reason@);
                match from {
                    None => {
                        let c = wire::put_u8(0);
                        wire::append_bytes(&mut out, c.as_slice());
                        assert(out@ =~= a + (w + c@));
                        assert(c@ + Seq::<u8>::empty() =~= c@);
                    },
                    Some(f) => {
                        let c = wire::put_u8(1);
                        wire::append_bytes(&mut out, c.as_slice());
                        put_from(&mut out, f);
                        assert(out@ =~= a + (w + (c@ + from_wire(f@))));
                        assert(from_wire(f@) + Seq::<u8>::empty() =~= from_wire(f@));
                    },
                }
                out
            },
            Message::Timeout => {
                let out = wire::put_u32(4);
                assert(out@ + Seq::<u8>::empty() =~= out@);
                out
            },
            Message::Continue { arg } => {
                let mut out = wire::put_u32(5);
                put_payload(&mut out, arg);
                out
            },
        }
    }

    /// Reads a protocol message.
    pub fn decode(data: &[u8]) -> (r: Result<Self, DecodeError>)
        ensures
            match r {
                Ok(m) => message_read(data@) == Some(m@),
                Err(DecodeError::Postcard(text)) => message_read(data@) is None && text@
                    == message_fault(data@),
                Err(_) => false,
            },
    {
        let (kind, b1) = match wire::take_u32(data) {
            Ok(x) => x,
            Err(e) => {
                return Err(DecodeError::Postcard(e));
            },
        };
        if kind == 0 {
            match take_from(b1) {
                Err(e) => Err(DecodeError::Postcard(e)),
                Ok((from, b2)) => match take_payload(b2) {
                    Err(e) => Err(DecodeError::Postcard(e)),
                    Ok(payload) => Ok(Message::Call { from, payload }),
                },
            }
        } else if kind == 1 {
            match take_payload(b1) {
                Err(e) => Err(DecodeError::Postcard(e)),
                Ok(payload) => Ok(Message::Cast { payload }),
            }
        } else if kind == 2 {
            match wire::take_u64(b1) {
                Err(e) => Err(DecodeError::Postcard(e)),
                Ok((raw, b2)) => match take_payload(b2) {
                    Err(e) => Err(DecodeError::Postcard(e)),
                    Ok(payload) => Ok(Message::Reply { reference: Ref::from_raw(raw), payload }),
                },
            }
        } else if kind == 3 {
            match codec::take_reason(b1) {
                Err(e) => Err(DecodeError::Postcard(e)),
                Ok((reason, b2)) => match wire::take_u8(b2) {
                    Err(e) => Err(DecodeError::Postcard(e)),
                    Ok((has, b3)) => if has == 0 {
                        Ok(Message::Stop { reason, from: None })
                    } else if has == 1 {
                        match take_from(b3) {
                            Err(e) => Err(DecodeError::Postcard(e)),
                            Ok((f, _)) => Ok(Message::Stop { reason, from: Some(f) }),
                        }
                    } else {
                        Err(DecodeError::Postcard(wire::BAD_OPTION.to_owned()))
                    },
                },
            }
        } else if kind == 4 {
            Ok(Message::Timeout)
        } else if kind == 5 {
            match take_payload(b1) {
                Err(e) => Err(DecodeError::Postcard(e)),
                Ok(arg) => Ok(Message::Continue { arg }),
            }
        } else {
            Err(DecodeError::Postcard(wire::BAD_VARIANT.to_owned()))
        }
    }
}

/// A call request, its payload already encoded.
pub fn encode_call(from: From, request: Vec<u8>) -> (r: Vec<u8>)
    ensures
        r@ == message_wire((MessageView::Call { from: from@, payload: request@ })),
        message_read(r@) == Some((MessageView::Call { from: from@, payload: request@ })),
{
    let m = Message::Call { from, payload: request };
    m.encode()
}

/// A cast message, its payload already encoded.
pub fn encode_cast(msg: Vec<u8>) -> (r: Vec<u8>)
    ensures
        r@ == message_wire((MessageView::Cast { payload: msg@ })),
        message_read(r@) == Some((MessageView::Cast { payload: msg@ })),
{
    let m = Message::Cast { payload: msg };
    m.encode()
}

/// A reply, its payload already encoded.
pub fn encode_reply(reference: Ref, payload: &[u8]) -> (r: Vec<u8>)
    ensures
        r@ == message_wire((MessageView::Reply { reference: reference@, payload: payload@ })),
        message_read(r@) == Some(
            (MessageView::Reply { reference: reference@, payload: payload@ }),
        ),
{
    let m = Message::Reply { reference, payload: wire::bytes_of(payload) };
    m.encode()
}

/// A request to stop.
pub fn encode_stop(reason: ExitReason, from: Option<From>) -> (r: Vec<u8>)
    ensures
        r@ == message_wire((MessageView::Stop { reason: reason@, from: from_option(from) })),
        message_read(r@) == Some(
            (MessageView::Stop { reason: reason@, from: from_option(from) }),
        ),
{
    let m = Message::Stop { reason, from };
    m.encode()
}

/// The message that a timeout has passed.
pub fn encode_timeout() -> (r: Vec<u8>)
    ensures
        r@ == message_wire(MessageView::Timeout),
        message_read(r@) == Some(MessageView::Timeout),
{
    let m = Message::Timeout;
    m.encode()
}

/// An argument that a server hands to itself.
pub fn encode_continue(arg: &[u8]) -> (r: Vec<u8>)
    ensures
        r@ == message_wire((MessageView::Continue { arg: arg@ })),
        message_read(r@) == Some((MessageView::Continue { arg: arg@ })),
{
    let m = Message::Continue { arg: wire::bytes_of(arg) };
    m.encode()
}

} // verus!
