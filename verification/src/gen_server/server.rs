//! The decisions of a generic server's loop and of its callers.
//!
//! The loop that receives, awaits handlers and sends stands outside. It hands each received
//! message to [`receive`], asks the server's handler what the turn says, hands the handler's
//! result to [`handle_call_reply`] or [`handle_status`], and performs what comes back.

use std::time::Duration;
use vstd::prelude::*;
use vstd::utf8::*;

use crate::gen_server::protocol;
use crate::gen_server::protocol::{From, FromView, MessageView};
use crate::gen_server::types::{Init, Reply, Status};
use crate::message;
use crate::message::Message;
use crate::process::{
    DecodeError, DecodeErrorView, ExitReason, ExitReasonView, Pid, PidView, Ref,
};
use crate::wire;

verus! {

/// Why an operation on a generic server failed.
#[derive(Debug)]
pub enum Error {
    /// The server chose not to start.
    Ignore,
    /// The server failed to start.
    InitStop(ExitReason),
    /// The server does not run.
    NotFound,
    /// The call took too long.
    Timeout,
    /// The server stopped during the call.
    Stopped(ExitReason),
    /// The reply could not be decoded.
    Decode(DecodeError),
}

impl Error {
    /// The error as text.
    pub fn describe(&self) -> (r: String)
        ensures
            match self {
                Error::Ignore => r@ == "init returned ignore"@,
                Error::InitStop(reason) => r@ == "init returned stop: "@
                    + crate::process::reason_text(reason@),
                Error::NotFound => r@ == "process not found"@,
                Error::Timeout => r@ == "call timed out"@,
                Error::Stopped(reason) => r@ == "gen_server stopped: "@
                    + crate::process::reason_text(reason@),
                Error::Decode(e) => r@ == "decode error: "@ + crate::process::decode_text(e@),
            },
    {
        match self {
            Error::Ignore => "init returned ignore".to_owned(),
            Error::InitStop(reason) => {
                let text = reason.describe();
                crate::text::join2("init returned stop: ", text.as_str())
            },
            Error::NotFound => "process not found".to_owned(),
            Error::Timeout => "call timed out".to_owned(),
            Error::Stopped(reason) => {
                let text = reason.describe();
                crate::text::join2("gen_server stopped: ", text.as_str())
            },
            Error::Decode(e) => {
                let text = e.describe();
                crate::text::join2("decode error: ", text.as_str())
            },
        }
    }
}

/// What a received message asks of the server.
pub enum TurnView {
    /// Nothing can be received any more: end the server for this reason.
    Terminate(ExitReasonView),
    /// A call with this payload, to be answered to `from`.
    Call {
        /// Who waits for the reply.
        from: FromView,
        /// The payload of the request.
        payload: Seq<u8>,
    },
    /// A call without a readable tag: `from` gets an error.
    BadCall {
        /// Who waits for the reply.
        from: FromView,
        /// What was wrong with the tag, in words.
        error: Seq<char>,
    },
    /// A cast with this payload.
    Cast {
        /// The payload of the message.
        payload: Seq<u8>,
    },
    /// A request to stop.
    Stop {
        /// Why.
        reason: ExitReasonView,
        /// Who waits for the acknowledgement.
        from: Option<FromView>,
    },
    /// A timeout has passed.
    Timeout,
    /// An argument that the server handed to itself.
    Continue {
        /// The encoded argument.
        arg: Seq<u8>,
    },
    /// Any other message.
    Info {
        /// The whole message.
        raw: Seq<u8>,
    },
    /// A message that is dropped.
    Skip,
}

/// What a received message asks of the server.
pub enum Turn {
    /// Nothing can be received any more: end the server for this reason.
    Terminate(ExitReason),
    /// A call with this payload, to be answered to `from`.
    Call {
        /// Who waits for the reply.
        from: From,
        /// The payload of the request.
        payload: Vec<u8>,
    },
    /// A call without a readable tag: `from` gets an error.
    BadCall {
        /// Who waits for the reply.
        from: From,
        /// What was wrong with the tag.
        error: DecodeError,
    },
    /// A cast with this payload.
    Cast {
        /// The payload of the message.
        payload: Vec<u8>,
    },
    /// A request to stop.
    Stop {
        /// Why.
        reason: ExitReason,
        /// Who waits for the acknowledgement.
        from: Option<From>,
    },
    /// A timeout has passed.
    Timeout,
    /// An argument that the server handed to itself.
    Continue {
        /// The encoded argument.
        arg: Vec<u8>,
    },
    /// Any other message.
    Info {
        /// The whole message.
        raw: Vec<u8>,
    },
    /// A message that is dropped.
    Skip,
}

impl View for Turn {
    type V = TurnView;

    open spec fn view(&self) -> TurnView {
        match *self {
            Turn::Terminate(reason) => TurnView::Terminate(reason@),
            Turn::Call { from, payload } => TurnView::Call { from: from@, payload: payload@ },
            Turn::BadCall { from, error } => TurnView::BadCall {
                from: from@,
                error: crate::process::decode_text(error@),
            },
            Turn::Cast { payload } => TurnView::Cast { payload: payload@ },
            Turn::Stop { reason, from } => TurnView::Stop {
                reason: reason@,
                from: protocol::from_option(from),
            },
            Turn::Timeout => TurnView::Timeout,
            Turn::Continue { arg } => TurnView::Continue { arg: arg@ },
            Turn::Info { raw } => TurnView::Info { raw: raw@ },
            Turn::Skip => TurnView::Skip,
        }
    }
}

/// What a received message asks of the server: call and cast envelopes come first, then the
/// protocol's own messages; everything else is an info message. A call or cast outside an
/// envelope is an info message too.
pub open spec fn turn_of(raw: Option<Seq<u8>>) -> TurnView {
    match raw {
        None => TurnView::Terminate(ExitReasonView::Normal),
        Some(bytes) => match protocol::gen_call_read(bytes) {
            Some((from, request)) => match message::untagged(request) {
                Some((_, payload)) => TurnView::Call { from, payload },
                None => TurnView::BadCall {
                    from,
                    error: "invalid data: "@ + message::tag_fault(request),
                },
            },
            None => match protocol::gen_cast_read(bytes) {
                Some(request) => match message::untagged(request) {
                    Some((_, payload)) => TurnView::Cast { payload },
                    None => TurnView::Skip,
                },
                None => match protocol::message_read(bytes) {
                    Some(MessageView::Stop { reason, from }) => TurnView::Stop { reason, from },
                    Some(MessageView::Timeout) => TurnView::Timeout,
                    Some(MessageView::Continue { arg }) => TurnView::Continue { arg },
                    Some(MessageView::Reply { .. }) => TurnView::Skip,
                    _ => TurnView::Info { raw: bytes },
                },
            },
        },
    }
}

/// The view of an optional byte vector.
pub open spec fn bytes_option(raw: Option<Vec<u8>>) -> Option<Seq<u8>> {
    match raw {
        Some(bytes) => Some(bytes@),
        None => None,
    }
}

/// Decides what a received message asks of the server; `None` stands for a closed mailbox.
pub fn receive(raw: Option<Vec<u8>>) -> (turn: Turn)
    ensures
        turn@ == turn_of(bytes_option(raw)),
{
    let bytes = match raw {
        Some(bytes) => bytes,
        None => {
            return Turn::Terminate(ExitReason::Normal);
        },
    };
    match protocol::decode_gen_call_envelope(bytes.as_slice()) {
        Some(envelope) => {
            return match message::decode_tag(envelope.request.as_slice()) {
                Ok((_, payload)) => {
                    let payload = wire::bytes_of(payload);
                    Turn::Call { from: envelope.from, payload }
                },
                Err(error) => Turn::BadCall { from: envelope.from, error },
            };
        },
        None => {},
    }
    match protocol::decode_gen_cast_envelope(bytes.as_slice()) {
        Some(envelope) => {
            return match message::decode_tag(envelope.request.as_slice()) {
                Ok((_, payload)) => Turn::Cast { payload: wire::bytes_of(payload) },
                Err(_) => Turn::Skip,
            };
        },
        None => {},
    }
    match protocol::Message::decode(bytes.as_slice()) {
        Ok(protocol::Message::Stop { reason, from }) => Turn::Stop { reason, from },
        Ok(protocol::Message::Timeout) => Turn::Timeout,
        Ok(protocol::Message::Continue { arg }) => Turn::Continue { arg },
        Ok(protocol::Message::Reply { .. }) => Turn::Skip,
        _ => Turn::Info { raw: bytes },
    }
}

/// Something that the server sends to itself.
pub enum Later {
    /// At once: this message.
    Now(Vec<u8>),
    /// After the time: this message.
    After(Duration, Vec<u8>),
}

/// What the loop does after a handler.
pub struct Outcome {
    /// A message to send, and to whom.
    pub send: Option<(Pid, Vec<u8>)>,
    /// A message that the server sends to itself.
    pub later: Option<Later>,
    /// Why the server ends; `None` if it goes on.
    pub stop: Option<ExitReason>,
}

/// The view of what is sent.
pub open spec fn sent(o: Outcome) -> Option<(PidView, Seq<u8>)> {
    match o.send {
        Some((to, bytes)) => Some((to@, bytes@)),
        None => None,
    }
}

/// What the server sends to itself.
pub enum LaterView {
    /// At once: this message.
    Now(Seq<u8>),
    /// After the time: this message.
    After(Duration, Seq<u8>),
}

/// The view of what the server sends to itself.
pub open spec fn postponed(o: Outcome) -> Option<LaterView> {
    match o.later {
        Some(Later::Now(bytes)) => Some(LaterView::Now(bytes@)),
        Some(Later::After(d, bytes)) => Some(LaterView::After(d, bytes@)),
        None => None,
    }
}

/// The view of why the server ends.
pub open spec fn stopped(o: Outcome) -> Option<ExitReasonView> {
    match o.stop {
        Some(reason) => Some(reason@),
        None => None,
    }
}

/// A reply with this payload, to the caller.
pub open spec fn reply_to(from: FromView, payload: Seq<u8>) -> Option<(PidView, Seq<u8>)> {
    Some(
        (
            from.pid,
            protocol::message_wire(MessageView::Reply { reference: from.reference, payload }),
        ),
    )
}

/// The outcome sends a reply with this payload to the caller, who can read it.
pub open spec fn replies(o: Outcome, from: FromView, payload: Seq<u8>) -> bool {
    &&& sent(o) == reply_to(from, payload)
    &&& sent(o) matches Some((to, bytes))
    &&& protocol::message_read(bytes) == Some(
        MessageView::Reply { reference: from.reference, payload },
    )
}

/// The error that a caller gets when the server stops without a reply.
pub open spec fn error_to(from: FromView, reason: ExitReasonView) -> Option<(PidView, Seq<u8>)> {
    reply_to(from, wire::postcard_str("stopped: "@ + crate::process::reason_text(reason)))
}

/// The message by which the server hands itself an argument.
pub open spec fn hand_over(arg: Seq<u8>) -> Option<LaterView> {
    Some(LaterView::Now(protocol::message_wire(MessageView::Continue { arg })))
}

/// The message by which the server tells itself that a time has passed.
pub open spec fn remind(d: Duration) -> Option<LaterView> {
    Some(LaterView::After(d, protocol::message_wire(MessageView::Timeout)))
}

pub(crate) fn send_reply(from: &From, payload: &[u8]) -> (r: Option<(Pid, Vec<u8>)>)
    ensures
        r matches Some((to, bytes)) && Some((to@, bytes@)) == reply_to(from@, payload@)
            && protocol::message_read(bytes@) == Some(
            (MessageView::Reply { reference: from@.reference, payload: payload@ }),
        ),
{
    Some((from.pid.clone(), protocol::encode_reply(from.reference, payload)))
}

pub(crate) fn send_error(from: &From, reason: &ExitReason) -> (r: Option<(Pid, Vec<u8>)>)
    ensures
        r matches Some((to, bytes)) && Some((to@, bytes@)) == error_to(from@, reason@),
{
    let text = reason.describe();
    let whole = crate::text::join2("stopped: ", text.as_str());
    let payload = wire::put_str(whole.as_str());
    send_reply(from, payload.as_slice())
}

pub(crate) fn schedule_continue(arg: &Vec<u8>) -> (r: Option<Later>)
    ensures
        r is Some,
        r->0 is Now,
        Some(LaterView::Now(r->0->Now_0@)) == hand_over(arg@),
{
    Some(Later::Now(protocol::encode_continue(arg.as_slice())))
}

pub(crate) fn schedule_timeout(d: Duration) -> (r: Option<Later>)
    ensures
        r is Some,
        r->0 is After,
        Some(LaterView::After(r->0->After_0, r->0->After_1@)) == remind(d),
{
    Some(Later::After(d, protocol::encode_timeout()))
}

/// What the loop does with the result of a call handler.
pub fn handle_call_reply<T: Message>(from: &From, reply: Reply<T>) -> (o: Outcome)
    ensures
        ({
            let value = |v: T| message::tagged(T::tag_view(), T::payload(v@));
            match reply {
                Reply::Answer(v) => {
                    &&& replies(o, from@, value(v))
                    &&& T::unpacked(T::payload(v@)) == Some(v@)
                    &&& postponed(o) is None
                    &&& stopped(o) is None
                },
                Reply::Continue(v, arg) => {
                    &&& replies(o, from@, value(v))
                    &&& T::unpacked(T::payload(v@)) == Some(v@)
                    &&& postponed(o) == hand_over(arg@)
                    &&& stopped(o) is None
                },
                Reply::Timeout(v, d) => {
                    &&& replies(o, from@, value(v))
                    &&& T::unpacked(T::payload(v@)) == Some(v@)
                    &&& postponed(o) == remind(d)
                    &&& stopped(o) is None
                },
                Reply::NoReply => sent(o) is None && postponed(o) is None && stopped(o) is None,
                Reply::Stop(reason, v) => {
                    &&& replies(o, from@, value(v))
                    &&& T::unpacked(T::payload(v@)) == Some(v@)
                    &&& postponed(o) is None
                    &&& stopped(o) == Some(reason@)
                },
                Reply::StopNoReply(reason) => {
                    &&& sent(o) == error_to(from@, reason@)
                    &&& postponed(o) is None
                    &&& stopped(o) == Some(reason@)
                },
            }
        }),
{
    match reply {
        Reply::Answer(v) => {
            let bytes = v.encode_local();
            Outcome { send: send_reply(from, bytes.as_slice()), later: None, stop: None }
        },
        Reply::Continue(v, arg) => {
            let bytes = v.encode_local();
            Outcome {
                send: send_reply(from, bytes.as_slice()),
                later: schedule_continue(&arg),
                stop: None,
            }
        },
        Reply::Timeout(v, d) => {
            let bytes = v.encode_local();
            Outcome {
                send: send_reply(from, bytes.as_slice()),
                later: schedule_timeout(d),
                stop: None,
            }
        },
        Reply::NoReply => Outcome { send: None, later: None, stop: None },
        Reply::Stop(reason, v) => {
            let bytes = v.encode_local();
            Outcome { send: send_reply(from, bytes.as_slice()), later: None, stop: Some(reason) }
        },
        Reply::StopNoReply(reason) => {
            let send = send_error(from, &reason);
            Outcome { send, later: None, stop: Some(reason) }
        },
    }
}

/// What the loop does with the status that a handler of casts, info messages, timeouts or
/// continues hands back.
pub fn handle_status(status: Status) -> (o: Outcome)
    ensures
        sent(o) is None,
        match status {
            Status::Proceed => postponed(o) is None && stopped(o) is None,
            Status::Continue(arg) => postponed(o) == hand_over(arg@) && stopped(o) is None,
            Status::Timeout(d) => postponed(o) == remind(d) && stopped(o) is None,
            Status::Stop(reason) => postponed(o) is None && stopped(o) == Some(reason@),
        },
{
    match status {
        Status::Proceed => Outcome { send: None, later: None, stop: None },
        Status::Continue(arg) => Outcome {
            send: None,
            later: schedule_continue(&arg),
            stop: None,
        },
        Status::Timeout(d) => Outcome { send: None, later: schedule_timeout(d), stop: None },
        Status::Stop(reason) => Outcome { send: None, later: None, stop: Some(reason) },
    }
}

/// What the loop does with a call that could not be decoded: the caller gets an error, and the
/// server goes on.
pub fn reject_call(from: &From, error: &DecodeError) -> (o: Outcome)
    ensures
        sent(o) == error_to(
            from@,
            ExitReasonView::Error(crate::process::decode_text(error@)),
        ),
        postponed(o) is None,
        stopped(o) is None,
{
    let reason = ExitReason::Error(error.describe());
    Outcome { send: send_error(from, &reason), later: None, stop: None }
}

/// The request in the payload of a call; if it cannot be read, the caller gets an error and the
/// server goes on.
pub fn call_request<M: Message>(from: &From, payload: &[u8]) -> (r: Result<M, Outcome>)
    ensures
        match r {
            Ok(m) => M::unpacked(payload@) == Some(m@),
            Err(o) => {
                &&& M::unpacked(payload@) is None
                &&& sent(o) == error_to(
                    from@,
                    ExitReasonView::Error(
                        crate::process::decode_text(M::unpack_fault(payload@)),
                    ),
                )
                &&& postponed(o) is None
                &&& stopped(o) is None
            },
        },
{
    match M::decode_local(payload) {
        Ok(m) => Ok(m),
        Err(e) => Err(reject_call(from, &e)),
    }
}

/// The message in the payload of a cast, or in the whole of an info message; `None` if it cannot
/// be read, and then it is dropped.
pub fn plain_request<M: Message>(payload: &[u8]) -> (r: Option<M>)
    ensures
        match r {
            Some(m) => M::unpacked(payload@) == Some(m@),
            None => M::unpacked(payload@) is None,
        },
{
    match M::decode_local(payload) {
        Ok(m) => Some(m),
        Err(_) => None,
    }
}

/// The message in an info message: it stands behind its tag, if the message has that tag, and is
/// the whole otherwise.
pub open spec fn info_of<M: Message>(raw: Seq<u8>) -> Option<M::V> {
    match message::stripped(raw, M::tag_view()) {
        Some(payload) => M::unpacked(payload),
        None => M::unpacked(raw),
    }
}

/// The message in an info message; `None` if it cannot be read, and then it is dropped.
pub fn info_request<M: Message>(raw: &[u8]) -> (r: Option<M>)
    ensures
        match r {
            Some(m) => info_of::<M>(raw@) == Some(m@),
            None => info_of::<M>(raw@) is None,
        },
{
    match message::strip_tag(raw, M::tag()) {
        Ok(payload) => plain_request(payload),
        Err(_) => plain_request(raw),
    }
}

/// An info message to `pid`, ready to be sent: the server takes it as one, and reads the same
/// message in it, where the tag cannot be taken for something else.
pub fn info<M: Message>(pid: Pid, msg: &M) -> (r: (Pid, Vec<u8>))
    ensures
        r.0 == pid,
        r.1@ == message::tagged(M::tag_view(), M::payload(msg@)),
        plain_tag(M::tag_view()) ==> turn_of(Some(r.1@)) == (TurnView::Info { raw: r.1@ }),
        plain_tag(M::tag_view()) ==> info_of::<M>(r.1@) == Some(msg@),
{
    proof {
        if plain_tag(M::tag_view()) {
            law_tagged_messages_are_infos(M::tag_view(), M::payload(msg@));
        }
    }
    (pid, msg.encode_local())
}

/// A tag whose length in bytes is that of no protocol message and of no envelope.
pub open spec fn plain_tag(tag: Seq<char>) -> bool {
    6 <= encode_utf8(tag).len() < 128 && encode_utf8(tag).len() != 9
}

/// A tagged message is no call, no cast and no protocol message: the server takes it as an info
/// message, and finds the payload behind the tag.
pub proof fn law_tagged_messages_are_infos(tag: Seq<char>, payload: Seq<u8>)
    requires
        plain_tag(tag),
    ensures
        turn_of(Some(message::tagged(tag, payload))) == (TurnView::Info {
            raw: message::tagged(tag, payload),
        }),
        protocol::message_read(message::tagged(tag, payload)) is None,
        message::untagged(message::tagged(tag, payload)) == Some((tag, payload)),
        message::stripped(message::tagged(tag, payload), tag) == Some(payload),
{
    let bytes = message::tagged(tag, payload);
    let n = encode_utf8(tag).len();
    message::law_tag_reads_back(tag, payload);
    assert(bytes[0] == n as u8);
    protocol::lemma_no_message(bytes);
    protocol::lemma_no_envelope(bytes);
}

/// What the loop does with a request to stop: who waits is told, with the unit value, and the
/// server ends.
pub fn acknowledge_stop(reason: ExitReason, from: &Option<From>) -> (o: Outcome)
    ensures
        match *from {
            Some(f) => replies(o, f@, message::tagged("unit"@, Seq::empty())) && (sent(
                o,
            ) matches Some((_, bytes)) && awaited::<()>(f@.reference, Some(bytes))
                == Awaited::Value(())),
            None => sent(o) is None,
        },
        postponed(o) is None,
        stopped(o) == Some(reason@),
{
    let done = ().encode_local();
    proof {
        reveal_strlit("unit");
        message::lemma_ascii_length("unit"@);
        message::law_tag_reads_back("unit"@, Seq::empty());
    }
    let send = match from {
        Some(f) => send_reply(f, done.as_slice()),
        None => None,
    };
    Outcome { send, later: None, stop: Some(reason) }
}

/// What becomes of a process whose `init` has handed back its result.
pub struct Started<S> {
    /// What the starter is told.
    pub report: Result<(), Error>,
    /// The state with which the loop runs; `None` if it does not.
    pub state: Option<S>,
    /// A message that the server sends to itself first.
    pub later: Option<Later>,
}

/// Decides how a server starts.
pub fn after_init<S>(init: Init<S>) -> (r: Started<S>)
    ensures
        match init {
            Init::Ready(s) => r.report is Ok && r.state == Some(s) && r.later is None,
            Init::Continue(s, arg) => {
                &&& r.report is Ok
                &&& r.state == Some(s)
                &&& r.later matches Some(Later::Now(b))
                &&& Some(LaterView::Now(b@)) == hand_over(arg@)
            },
            Init::Timeout(s, d) => {
                &&& r.report is Ok
                &&& r.state == Some(s)
                &&& r.later matches Some(Later::After(e, b))
                &&& Some(LaterView::After(e, b@)) == remind(d)
            },
            Init::Ignore => {
                &&& r.report matches Err(e)
                &&& e is Ignore
                &&& r.state is None
                &&& r.later is None
            },
            Init::Stop(reason) => {
                &&& r.report matches Err(Error::InitStop(why))
                &&& why == reason
                &&& r.state is None
                &&& r.later is None
            },
        },
{
    match init {
        Init::Ready(s) => Started { report: Ok(()), state: Some(s), later: None },
        Init::Continue(s, arg) => Started {
            report: Ok(()),
            state: Some(s),
            later: schedule_continue(&arg),
        },
        Init::Timeout(s, d) => Started {
            report: Ok(()),
            state: Some(s),
            later: schedule_timeout(d),
        },
        Init::Ignore => Started { report: Err(Error::Ignore), state: None, later: None },
        Init::Stop(reason) => Started {
            report: Err(Error::InitStop(reason)),
            state: None,
            later: None,
        },
    }
}

/// The parent of a new server: none, or, for a linked one, the caller, which there must be.
pub fn link_parent(link: bool, caller: Option<Pid>) -> (r: Result<Option<Pid>, Error>)
    ensures
        match r {
            Ok(parent) => (link ==> caller is Some) && parent == (if link {
                caller
            } else {
                None
            }),
            Err(Error::InitStop(ExitReason::Error(text))) => link && caller is None && text@
                == "start_link requires caller context"@,
            Err(_) => false,
        },
{
    if link {
        match caller {
            Some(pid) => Ok(Some(pid)),
            None => Err(
                Error::InitStop(
                    ExitReason::Error("start_link requires caller context".to_owned()),
                ),
            ),
        }
    } else {
        Ok(None)
    }
}

/// What the starter gets: the process, or the error that it reported; an error too if it ended
/// without a report.
pub fn start_result(pid: Pid, report: Option<Result<(), Error>>) -> (r: Result<Pid, Error>)
    ensures
        match report {
            Some(Ok(())) => r == Ok::<Pid, Error>(pid),
            Some(Err(e)) => r == Err::<Pid, Error>(e),
            None => r matches Err(Error::InitStop(ExitReason::Error(text))) && text@
                == "init channel closed"@,
        },
{
    match report {
        Some(Ok(())) => Ok(pid),
        Some(Err(e)) => Err(e),
        None => Err(Error::InitStop(ExitReason::Error("init channel closed".to_owned()))),
    }
}

/// A call, ready to be sent: the server takes it as a call with this payload.
pub fn call_message<M: Message>(from: From, msg: &M) -> (r: Vec<u8>)
    ensures
        r@ == protocol::envelope_wire(
            protocol::GEN_CALL_TAG@,
            protocol::call_wire(from@, message::tagged(M::tag_view(), M::payload(msg@))),
        ),
        protocol::gen_call_read(r@) == Some(
            (from@, message::tagged(M::tag_view(), M::payload(msg@))),
        ),
        M::unpacked(M::payload(msg@)) == Some(msg@),
        encode_utf8(M::tag_view()).len() < 65536 ==> turn_of(Some(r@)) == (TurnView::Call {
            from: from@,
            payload: M::payload(msg@),
        }),
{
    let request = msg.encode_local();
    proof {
        if encode_utf8(M::tag_view()).len() < 65536 {
            message::law_tag_reads_back(M::tag_view(), M::payload(msg@));
        }
    }
    protocol::encode_gen_call_envelope(from, request)
}

/// A cast to `pid`, ready to be sent: the server takes it as a cast with this payload.
pub fn cast<M: Message>(pid: Pid, msg: &M) -> (r: (Pid, Vec<u8>))
    ensures
        r.0 == pid,
        r.1@ == protocol::envelope_wire(
            protocol::GEN_CAST_TAG@,
            wire::postcard_bytes(message::tagged(M::tag_view(), M::payload(msg@))),
        ),
        protocol::gen_cast_read(r.1@) == Some(
            message::tagged(M::tag_view(), M::payload(msg@)),
        ),
        M::unpacked(M::payload(msg@)) == Some(msg@),
        encode_utf8(M::tag_view()).len() < 65536 ==> turn_of(Some(r.1@)) == (TurnView::Cast {
            payload: M::payload(msg@),
        }),
{
    let request = msg.encode_local();
    proof {
        if encode_utf8(M::tag_view()).len() < 65536 {
            message::law_tag_reads_back(M::tag_view(), M::payload(msg@));
        }
    }
    (pid, protocol::encode_gen_cast_envelope(request))
}

/// What a caller that waits for a reply learns from a received message.
pub enum Awaited<V> {
    /// Nothing: it waits on.
    Nothing,
    /// Its mailbox is closed.
    Closed,
    /// The reply.
    Value(V),
    /// A reply that cannot be read, for this error.
    Unreadable(DecodeErrorView),
}

/// What a caller with this reference learns from a received message.
pub open spec fn awaited<R: Message>(reference: u64, raw: Option<Seq<u8>>) -> Awaited<R::V> {
    match raw {
        None => Awaited::Closed,
        Some(bytes) => match protocol::message_read(bytes) {
            Some(MessageView::Reply { reference: r, payload }) => if r == reference {
                match message::untagged(payload) {
                    Some((_, p)) => match R::unpacked(p) {
                        Some(v) => Awaited::Value(v),
                        None => Awaited::Unreadable(R::unpack_fault(p)),
                    },
                    None => Awaited::Unreadable(
                        DecodeErrorView::InvalidData(message::tag_fault(payload)),
                    ),
                }
            } else {
                Awaited::Nothing
            },
            _ => Awaited::Nothing,
        },
    }
}

/// Decides what a received message means to a caller that waits for a reply: `None` if it waits
/// on.
pub fn wait_for_reply<R: Message>(reference: Ref, raw: Option<Vec<u8>>) -> (r: Option<
    Result<R, Error>,
>)
    ensures
        match r {
            None => awaited::<R>(reference@, bytes_option(raw)) is Nothing,
            Some(Ok(v)) => awaited::<R>(reference@, bytes_option(raw)) == Awaited::Value(v@),
            Some(Err(Error::Stopped(reason))) => reason is Normal && awaited::<R>(
                reference@,
                bytes_option(raw),
            ) is Closed,
            Some(Err(Error::Decode(e))) => awaited::<R>(
                reference@,
                bytes_option(raw),
            ) == Awaited::<R::V>::Unreadable(e@),
            Some(Err(_)) => false,
        },
{
    let bytes = match raw {
        Some(bytes) => bytes,
        None => {
            return Some(Err(Error::Stopped(ExitReason::Normal)));
        },
    };
    match protocol::Message::decode(bytes.as_slice()) {
        Ok(protocol::Message::Reply { reference: got, payload }) => {
            if got.as_raw() == reference.as_raw() {
                match message::decode_tag(payload.as_slice()) {
                    Ok((_, p)) => match R::decode_local(p) {
                        Ok(v) => Some(Ok(v)),
                        Err(e) => Some(Err(Error::Decode(e))),
                    },
                    Err(e) => Some(Err(Error::Decode(e))),
                }
            } else {
                None
            }
        },
        _ => None,
    }
}

/// A caller understands the reply to its call: where the reply's bytes read back, so does its
/// value, and no caller with another reference takes it.
pub proof fn law_reply_reaches_its_caller<R: Message>(
    from: FromView,
    value: R::V,
    bytes: Seq<u8>,
    other: u64,
)
    requires
        protocol::message_read(bytes) == Some(
            (MessageView::Reply {
                reference: from.reference,
                payload: message::tagged(R::tag_view(), R::payload(value)),
            }),
        ),
        R::unpacked(R::payload(value)) == Some(value),
        encode_utf8(R::tag_view()).len() < 65536,
    ensures
        awaited::<R>(from.reference, Some(bytes)) == Awaited::Value(value),
        other != from.reference ==> awaited::<R>(other, Some(bytes)) is Nothing,
{
    message::law_tag_reads_back(R::tag_view(), R::payload(value));
}

} // verus!
