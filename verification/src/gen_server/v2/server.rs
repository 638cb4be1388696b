//! The decisions of the loop of a server whose messages are dispatched by their tags, and of its
//! callers.

use std::time::Duration;
use vstd::prelude::*;
use vstd::utf8::*;

use crate::gen_server::protocol;
use crate::gen_server::protocol::{From, FromView, MessageView};
use crate::gen_server::server;
use crate::gen_server::server::Outcome;
use crate::gen_server::types::{Reply, Status};
use crate::message;
use crate::message::Message;
use crate::process::{ExitReason, ExitReasonView, Pid};
use crate::wire;

verus! {

/// The result of handling a call, the reply already encoded.
pub enum RawReply {
    /// Reply, and go on.
    Answer(Vec<u8>),
    /// Reply, then hand the server the argument.
    Continue(Vec<u8>, Vec<u8>),
    /// Reply, then tell the server when the time has passed.
    Timeout(Vec<u8>, Duration),
    /// The reply is sent later.
    NoReply,
    /// Reply, then stop.
    Stop(ExitReason, Vec<u8>),
    /// Stop; the caller gets an error.
    StopNoReply(ExitReason),
}

/// What a received message asks of the server.
pub enum TurnView {
    /// Nothing can be received any more: end the server for this reason.
    Terminate(ExitReasonView),
    /// A call: a handler is looked up by the tag; without one the whole request is handed over.
    Call {
        /// Who waits for the reply.
        from: FromView,
        /// The tag of the request.
        tag: Seq<char>,
        /// The payload behind the tag.
        payload: Seq<u8>,
        /// The whole request.
        raw: Seq<u8>,
    },
    /// A call without a readable tag.
    BadCall {
        /// Who waits for the reply.
        from: FromView,
    },
    /// A cast: a handler is looked up by the tag; without one the whole message is handed over.
    Cast {
        /// The tag of the message.
        tag: Seq<char>,
        /// The payload behind the tag.
        payload: Seq<u8>,
        /// The whole message.
        raw: Seq<u8>,
    },
    /// A cast without a readable tag.
    BadCast,
    /// A request to stop.
    Stop {
        /// Why.
        reason: ExitReasonView,
        /// Who waits for the acknowledgement.
        from: Option<FromView>,
    },
    /// A timeout has passed.
    Timeout,
    /// An argument that the server handed to itself.
    Continue {
        /// The encoded argument.
        arg: Seq<u8>,
    },
    /// Any other message. If it has a tag, a handler is looked up by it first.
    Info {
        /// The tag, with the payload behind it.
        tagged: Option<(Seq<char>, Seq<u8>)>,
        /// The whole message.
        raw: Seq<u8>,
    },
    /// A message that is dropped.
    Skip,
}

/// What a received message asks of the server.
pub enum Turn {
    /// Nothing can be received any more: end the server for this reason.
    Terminate(ExitReason),
    /// A call: a handler is looked up by the tag; without one the whole request is handed over.
    Call {
        /// Who waits for the reply.
        from: From,
        /// The tag of the request.
        tag: String,
        /// The payload behind the tag.
        payload: Vec<u8>,
        /// The whole request.
        raw: Vec<u8>,
    },
    /// A call without a readable tag.
    BadCall {
        /// Who waits for the reply.
        from: From,
    },
    /// A cast: a handler is looked up by the tag; without one the whole message is handed over.
    Cast {
        /// The tag of the message.
        tag: String,
        /// The payload behind the tag.
        payload: Vec<u8>,
        /// The whole message.
        raw: Vec<u8>,
    },
    /// A cast without a readable tag.
    BadCast,
    /// A request to stop.
    Stop {
        /// Why.
        reason: ExitReason,
        /// Who waits for the acknowledgement.
        from: Option<From>,
    },
    /// A timeout has passed.
    Timeout,
    /// An argument that the server handed to itself.
    Continue {
        /// The encoded argument.
        arg: Vec<u8>,
    },
    /// Any other message. If it has a tag, a handler is looked up by it first.
    Info {
        /// The tag, with the payload behind it.
        tagged: Option<(String, Vec<u8>)>,
        /// The whole message.
        raw: Vec<u8>,
    },
    /// A message that is dropped.
    Skip,
}

/// The view of a tag with its payload.
pub open spec fn tagged_view(t: Option<(String, Vec<u8>)>) -> Option<(Seq<char>, Seq<u8>)> {
    match t {
        Some((tag, payload)) => Some((tag@, payload@)),
        None => None,
    }
}

impl View for Turn {
    type V = TurnView;

    open spec fn view(&self) -> TurnView {
        match *self {
            Turn::Terminate(reason) => TurnView::Terminate(reason@),
            Turn::Call { from, tag, payload, raw } => TurnView::Call {
                from: from@,
                tag: tag@,
                payload: payload@,
                raw: raw@,
            },
            Turn::BadCall { from } => TurnView::BadCall { from: from@ },
            Turn::Cast { tag, payload, raw } => TurnView::Cast {
                tag: tag@,
                payload: payload@,
                raw: raw@,
            },
            Turn::BadCast => TurnView::BadCast,
            Turn::Stop { reason, from } => TurnView::Stop {
                reason: reason@,
                from: protocol::from_option(from),
            },
            Turn::Timeout => TurnView::Timeout,
            Turn::Continue { arg } => TurnView::Continue { arg: arg@ },
            Turn::Info { tagged, raw } => TurnView::Info {
                tagged: tagged_view(tagged),
                raw: raw@,
            },
            Turn::Skip => TurnView::Skip,
        }
    }
}

/// What a received message asks of the server: the protocol's own messages come first, everything
/// else is an info message.
pub open spec fn turn_of(raw: Option<Seq<u8>>) -> TurnView {
    match raw {
        None => TurnView::Terminate(ExitReasonView::Normal),
        Some(bytes) => match protocol::message_read(bytes) {
            Some(MessageView::Call { from, payload: request }) => match message::untagged(request) {
                Some((tag, payload)) => TurnView::Call { from, tag, payload, raw: request },
                None => TurnView::BadCall { from },
            },
            Some(MessageView::Cast { payload: request }) => match message::untagged(request) {
                Some((tag, payload)) => TurnView::Cast { tag, payload, raw: request },
                None => TurnView::BadCast,
            },
            Some(MessageView::Stop { reason, from }) => TurnView::Stop { reason, from },
            Some(MessageView::Timeout) => TurnView::Timeout,
            Some(MessageView::Continue { arg }) => TurnView::Continue { arg },
            Some(MessageView::Reply { .. }) => TurnView::Skip,
            None => TurnView::Info { tagged: message::untagged(bytes), raw: bytes },
        },
    }
}

fn tag_of(raw: &[u8]) -> (r: Option<(String, Vec<u8>)>)
    ensures
        tagged_view(r) == message::untagged(raw@),
{
    match message::decode_tag(raw) {
        Ok((tag, payload)) => Some((tag.to_owned(), wire::bytes_of(payload))),
        Err(_) => None,
    }
}

/// Decides what a received message asks of the server; `None` stands for a closed mailbox.
pub fn receive(raw: Option<Vec<u8>>) -> (turn: Turn)
    ensures
        turn@ == turn_of(server::bytes_option(raw)),
{
    let bytes = match raw {
        Some(bytes) => bytes,
        None => {
            return Turn::Terminate(ExitReason::Normal);
        },
    };
    match protocol::Message::decode(bytes.as_slice()) {
        Ok(protocol::Message::Call { from, payload: raw }) => match tag_of(raw.as_slice()) {
            Some((tag, payload)) => Turn::Call { from, tag, payload, raw },
            None => Turn::BadCall { from },
        },
        Ok(protocol::Message::Cast { payload: raw }) => match tag_of(raw.as_slice()) {
            Some((tag, payload)) => Turn::Cast { tag, payload, raw },
            None => Turn::BadCast,
        },
        Ok(protocol::Message::Stop { reason, from }) => Turn::Stop { reason, from },
        Ok(protocol::Message::Timeout) => Turn::Timeout,
        Ok(protocol::Message::Continue { arg }) => Turn::Continue { arg },
        Ok(protocol::Message::Reply { .. }) => Turn::Skip,
        Err(_) => {
            let tagged = tag_of(bytes.as_slice());
            Turn::Info { tagged, raw: bytes }
        },
    }
}

/// The reply to a call without a readable tag: the server stops.
pub fn bad_call() -> (r: RawReply)
    ensures
        r matches RawReply::StopNoReply(ExitReason::Error(text)) && text@ == "decode error"@,
{
    RawReply::StopNoReply(ExitReason::Error("decode error".to_owned()))
}

/// What a cast without a readable tag comes to: the server stops.
pub fn bad_cast() -> (r: Status)
    ensures
        r matches Status::Stop(ExitReason::Error(text)) && text@ == "decode error"@,
{
    Status::Stop(ExitReason::Error("decode error".to_owned()))
}

/// The reply of a server that handles no calls: it stops.
pub fn call_not_implemented() -> (r: RawReply)
    ensures
        r matches RawReply::StopNoReply(ExitReason::Error(text)) && text@
            == "handle_call not implemented"@,
{
    RawReply::StopNoReply(ExitReason::Error("handle_call not implemented".to_owned()))
}

/// What the loop does with an encoded reply.
pub fn handle_raw_reply(from: &From, reply: RawReply) -> (o: Outcome)
    ensures
        match reply {
            RawReply::Answer(bytes) => server::replies(o, from@, bytes@) && server::postponed(
                o,
            ) is None && server::stopped(o) is None,
            RawReply::Continue(bytes, arg) => server::replies(o, from@, bytes@)
                && server::postponed(o) == server::hand_over(arg@) && server::stopped(o) is None,
            RawReply::Timeout(bytes, d) => server::replies(o, from@, bytes@) && server::postponed(
                o,
            ) == server::remind(d) && server::stopped(o) is None,
            RawReply::NoReply => server::sent(o) is None && server::postponed(o) is None
                && server::stopped(o) is None,
            RawReply::Stop(reason, bytes) => server::replies(o, from@, bytes@)
                && server::postponed(o) is None && server::stopped(o) == Some(reason@),
            RawReply::StopNoReply(reason) => server::sent(o) == server::error_to(from@, reason@)
                && server::postponed(o) is None && server::stopped(o) == Some(reason@),
        },
{
    match reply {
        RawReply::Answer(bytes) => Outcome {
            send: server::send_reply(from, bytes.as_slice()),
            later: None,
            stop: None,
        },
        RawReply::Continue(bytes, arg) => Outcome {
            send: server::send_reply(from, bytes.as_slice()),
            later: server::schedule_continue(&arg),
            stop: None,
        },
        RawReply::Timeout(bytes, d) => Outcome {
            send: server::send_reply(from, bytes.as_slice()),
            later: server::schedule_timeout(d),
            stop: None,
        },
        RawReply::NoReply => Outcome { send: None, later: None, stop: None },
        RawReply::Stop(reason, bytes) => Outcome {
            send: server::send_reply(from, bytes.as_slice()),
            later: None,
            stop: Some(reason),
        },
        RawReply::StopNoReply(reason) => {
            let send = server::send_error(from, &reason);
            Outcome { send, later: None, stop: Some(reason) }
        },
    }
}

/// A reply that was put off, ready to be sent: the caller takes it as this value.
pub fn reply<T: Message>(from: &From, value: &T) -> (r: (Pid, Vec<u8>))
    ensures
        Some((r.0@, r.1@)) == server::reply_to(
            from@,
            message::tagged(T::tag_view(), T::payload(value@)),
        ),
        encode_utf8(T::tag_view()).len() < 65536 ==> server::awaited::<T>(
            from@.reference,
            Some(r.1@),
        ) == server::Awaited::<T::V>::Value(value@),
{
    let payload = value.encode_local();
    proof {
        if encode_utf8(T::tag_view()).len() < 65536 {
            message::law_tag_reads_back(T::tag_view(), T::payload(value@));
        }
    }
    (from.pid.clone(), protocol::encode_reply(from.reference, payload.as_slice()))
}

/// A call, ready to be sent: the server takes it as a call with this request.
pub fn call_raw(from: From, payload: Vec<u8>) -> (r: Vec<u8>)
    ensures
        r@ == protocol::message_wire((MessageView::Call { from: from@, payload: payload@ })),
        protocol::message_read(r@) == Some((MessageView::Call { from: from@, payload: payload@ })),
{
    protocol::encode_call(from, payload)
}

/// A call with a typed request, ready to be sent: the server takes it as a call with the
/// request's tag and payload.
pub fn call<M: Message>(from: From, request: &M) -> (r: Vec<u8>)
    ensures
        r@ == protocol::message_wire(
            (MessageView::Call {
                from: from@,
                payload: message::tagged(M::tag_view(), M::payload(request@)),
            }),
        ),
        M::unpacked(M::payload(request@)) == Some(request@),
        encode_utf8(M::tag_view()).len() < 65536 ==> turn_of(Some(r@)) == (TurnView::Call {
            from: from@,
            tag: M::tag_view(),
            payload: M::payload(request@),
            raw: message::tagged(M::tag_view(), M::payload(request@)),
        }),
{
    proof {
        if encode_utf8(M::tag_view()).len() < 65536 {
            message::law_tag_reads_back(M::tag_view(), M::payload(request@));
        }
    }
    call_raw(from, request.encode_local())
}

/// A cast, ready to be sent.
pub fn cast_raw(pid: Pid, payload: Vec<u8>) -> (r: (Pid, Vec<u8>))
    ensures
        r.0 == pid,
        r.1@ == protocol::message_wire((MessageView::Cast { payload: payload@ })),
        protocol::message_read(r.1@) == Some((MessageView::Cast { payload: payload@ })),
{
    (pid, protocol::encode_cast(payload))
}

/// A cast with a typed message, ready to be sent: the server takes it as a cast with the message's
/// tag and payload.
pub fn cast<M: Message>(pid: Pid, msg: &M) -> (r: (Pid, Vec<u8>))
    ensures
        r.0 == pid,
        r.1@ == protocol::message_wire(
            (MessageView::Cast { payload: message::tagged(M::tag_view(), M::payload(msg@)) }),
        ),
        M::unpacked(M::payload(msg@)) == Some(msg@),
        encode_utf8(M::tag_view()).len() < 65536 ==> turn_of(Some(r.1@)) == (TurnView::Cast {
            tag: M::tag_view(),
            payload: M::payload(msg@),
            raw: message::tagged(M::tag_view(), M::payload(msg@)),
        }),
{
    proof {
        if encode_utf8(M::tag_view()).len() < 65536 {
            message::law_tag_reads_back(M::tag_view(), M::payload(msg@));
        }
    }
    cast_raw(pid, msg.encode_local())
}

/// A request to stop, ready to be sent: the server takes it as one.
pub fn stop(reason: ExitReason, from: From) -> (r: Vec<u8>)
    ensures
        r@ == protocol::message_wire(
            (MessageView::Stop { reason: reason@, from: Some(from@) }),
        ),
        turn_of(Some(r@)) == (TurnView::Stop { reason: reason@, from: Some(from@) }),
{
    protocol::encode_stop(reason, Some(from))
}

} // verus!
