//! What generic servers promise as a whole: how what one operation hands out is taken by another.

use std::time::Duration;
use vstd::prelude::*;
use vstd::utf8::*;

use crate::gen_server::protocol;
use crate::gen_server::protocol::{From, FromView, MessageView};
use crate::gen_server::server;
use crate::gen_server::server::{Awaited, Error, Later, Outcome, Started, Turn, TurnView};
use crate::gen_server::types::{Init, Reply, Status};
use crate::gen_server::v2::dispatch;
use crate::gen_server::v2::server as v2;
use crate::gen_server::v2::server::RawReply;
use crate::message;
use crate::message::Message;
use crate::process::{ExitReason, Pid, Ref};
use crate::wire;

verus! {

/// A small number is one byte.
proof fn lemma_small(n: u32, rest: Seq<u8>)
    requires
        n < 128,
    ensures
        wire::postcard_u32(n) == seq![n as u8],
        (wire::postcard_u32(n) + rest)[0] == n as u8,
        (wire::postcard_u32(n) + rest).len() > 0,
{
    reveal(wire::postcard_u32);
}

/// An argument that a server hands to itself reads back, for servers of either kind.
proof fn lemma_continue(arg: Seq<u8>)
    requires
        arg.len() <= usize::MAX,
    ensures
        server::turn_of(Some(protocol::message_wire(MessageView::Continue { arg }))) == (
        TurnView::Continue { arg }),
        v2::turn_of(Some(protocol::message_wire(MessageView::Continue { arg }))) == (
        v2::TurnView::Continue { arg }),
{
    let none = Seq::<u8>::empty();
    let b = wire::postcard_bytes(arg);
    let bytes = protocol::message_wire(MessageView::Continue { arg });
    lemma_small(5, b);
    wire::law_u32_reads_back(5, b);
    wire::law_bytes_reads_back(arg, none);
    assert(b + none =~= b);
    assert(bytes == wire::postcard_u32(5) + b);
    protocol::lemma_no_envelope(bytes);
}

/// The message that a time has passed reads back, for servers of either kind.
proof fn lemma_timeout()
    ensures
        server::turn_of(Some(protocol::message_wire(MessageView::Timeout))) is Timeout,
        v2::turn_of(Some(protocol::message_wire(MessageView::Timeout))) is Timeout,
{
    let none = Seq::<u8>::empty();
    let bytes = protocol::message_wire(MessageView::Timeout);
    lemma_small(4, none);
    wire::law_u32_reads_back(4, none);
    assert(wire::postcard_u32(4) + none =~= bytes);
    protocol::lemma_no_envelope(bytes);
}

/// A reply reads back.
proof fn lemma_reply(reference: u64, payload: Seq<u8>)
    requires
        payload.len() <= usize::MAX,
    ensures
        protocol::message_read(
            protocol::message_wire(MessageView::Reply { reference, payload }),
        ) == Some(MessageView::Reply { reference, payload }),
        server::turn_of(
            Some(protocol::message_wire(MessageView::Reply { reference, payload })),
        ) is Skip,
        v2::turn_of(
            Some(protocol::message_wire(MessageView::Reply { reference, payload })),
        ) is Skip,
{
    let none = Seq::<u8>::empty();
    let a = wire::postcard_u64(reference);
    let b = wire::postcard_bytes(payload);
    let bytes = protocol::message_wire(MessageView::Reply { reference, payload });
    lemma_small(2, a + b);
    wire::law_u32_reads_back(2, a + b);
    wire::law_u64_reads_back(reference, b);
    wire::law_bytes_reads_back(payload, none);
    assert(b + none =~= b);
    assert(bytes =~= wire::postcard_u32(2) + (a + b));
    protocol::lemma_no_envelope(bytes);
}

/// The payload of a reply is no longer than the reply.
proof fn lemma_reply_length(reference: u64, payload: Seq<u8>)
    ensures
        payload.len() <= protocol::message_wire(MessageView::Reply { reference, payload }).len(),
{
    reveal(wire::postcard_bytes);
}

/// Whether what a server sends to itself at once is taken as its argument, by servers of either
/// kind.
pub open spec fn comes_back(later: Option<Later>, arg: Seq<u8>) -> bool {
    later matches Some(Later::Now(bytes)) && {
        &&& forall|turn: Turn| #[trigger]
            call_ensures(server::receive, (Some(bytes),), turn) ==> (turn matches Turn::Continue {
                arg: back,
            } && back@ == arg)
        &&& forall|turn: v2::Turn| #[trigger]
            call_ensures(v2::receive, (Some(bytes),), turn) ==> (turn matches v2::Turn::Continue {
                arg: back,
            } && back@ == arg)
    }
}

/// Whether what a server sends to itself after a time is taken as the end of that time, by servers
/// of either kind.
pub open spec fn reminds(later: Option<Later>, d: Duration) -> bool {
    later matches Some(Later::After(after, bytes)) && after == d && {
        &&& forall|turn: Turn| #[trigger]
            call_ensures(server::receive, (Some(bytes),), turn) ==> turn is Timeout
        &&& forall|turn: v2::Turn| #[trigger]
            call_ensures(v2::receive, (Some(bytes),), turn) ==> turn is Timeout
    }
}

proof fn lemma_comes_back(later: Option<Later>, arg: Vec<u8>)
    requires
        later matches Some(Later::Now(bytes)) && Some(server::LaterView::Now(bytes@))
            == server::hand_over(arg@),
    ensures
        comes_back(later, arg@),
{
    assert(arg@.len() == arg.len());
    lemma_continue(arg@);
}

proof fn lemma_reminds(later: Option<Later>, d: Duration)
    requires
        later matches Some(Later::After(after, bytes)) && Some(
            server::LaterView::After(after, bytes@),
        ) == server::remind(d),
    ensures
        reminds(later, d),
{
    lemma_timeout();
}

/// What a handler hands to its server comes back to it, whole, and as nothing else; a time that it
/// sets comes back when it is over; and a server that is to go on goes on.
pub proof fn law_status_is_done(status: Status, o: Outcome)
    requires
        call_ensures(server::handle_status, (status,), o),
    ensures
        o.send is None,
        match status {
            Status::Proceed => o.later is None && o.stop is None,
            Status::Continue(arg) => comes_back(o.later, arg@) && o.stop is None,
            Status::Timeout(d) => reminds(o.later, d) && o.stop is None,
            Status::Stop(reason) => o.later is None && (o.stop matches Some(why) && why@ == reason@),
        },
{
    match status {
        Status::Continue(arg) => {
            lemma_comes_back(o.later, arg);
        },
        Status::Timeout(d) => {
            lemma_reminds(o.later, d);
        },
        _ => {},
    }
}

/// What a server hands to itself when it starts comes back to it, and a time that it sets comes
/// back when it is over.
pub proof fn law_start_is_done<S>(init: Init<S>, r: Started<S>)
    requires
        call_ensures(server::after_init::<S>, (init,), r),
    ensures
        match init {
            Init::Ready(s) => r.report is Ok && r.state == Some(s) && r.later is None,
            Init::Continue(s, arg) => r.report is Ok && r.state == Some(s) && comes_back(
                r.later,
                arg@,
            ),
            Init::Timeout(s, d) => r.report is Ok && r.state == Some(s) && reminds(r.later, d),
            Init::Ignore => r.report is Err && r.state is None && r.later is None,
            Init::Stop(_) => r.report is Err && r.state is None && r.later is None,
        },
{
    match init {
        Init::Continue(_, arg) => {
            lemma_comes_back(r.later, arg);
        },
        Init::Timeout(_, d) => {
            lemma_reminds(r.later, d);
        },
        _ => {},
    }
}

/// Whether what is sent reaches the caller as this value: it goes to the caller's process, who
/// waits for it gets the value, and no one who waits for another reply takes it.
pub open spec fn answered<T: Message>(send: Option<(Pid, Vec<u8>)>, from: FromView, value: T::V) ->
    bool {
    send matches Some((to, bytes)) && to@ == from.pid && {
        &&& forall|reference: Ref, r: Option<Result<T, Error>>| #[trigger]
            call_ensures(server::wait_for_reply::<T>, (reference, Some(bytes)), r)
                && reference@ == from.reference ==> (r matches Some(Ok(v)) && v@ == value)
        &&& forall|reference: Ref, r: Option<Result<T, Error>>| #[trigger]
            call_ensures(server::wait_for_reply::<T>, (reference, Some(bytes)), r)
                && reference@ != from.reference ==> r is None
        &&& forall|turn: Turn| #[trigger]
            call_ensures(server::receive, (Some(bytes),), turn) ==> turn is Skip
    }
}

proof fn lemma_answered<T: Message>(send: Option<(Pid, Vec<u8>)>, from: FromView, value: T::V)
    requires
        send matches Some((to, bytes)) && Some((to@, bytes@)) == server::reply_to(
            from,
            message::tagged(T::tag_view(), T::payload(value)),
        ),
        T::unpacked(T::payload(value)) == Some(value),
        encode_utf8(T::tag_view()).len() < 65536,
    ensures
        answered::<T>(send, from, value),
{
    let payload = message::tagged(T::tag_view(), T::payload(value));
    let bytes = (send->0).1;
    assert(bytes@.len() == bytes.len());
    lemma_reply_length(from.reference, payload);
    lemma_reply(from.reference, payload);
    message::law_tag_reads_back(T::tag_view(), T::payload(value));
    assert(server::awaited::<T>(from.reference, Some(bytes@)) == Awaited::<T::V>::Value(value));
    assert forall|reference: Ref, r: Option<Result<T, Error>>| #[trigger]
        call_ensures(server::wait_for_reply::<T>, (reference, Some(bytes)), r) && reference@
            == from.reference implies (r matches Some(Ok(v)) && v@ == value) by {
        assert(server::bytes_option(Some(bytes)) == Some(bytes@));
    }
}

/// The value that a call handler replies with reaches the caller, and no one else; what the
/// handler asks for besides is done; and where it does not reply, nothing is sent, or, if it
/// stops, the caller is told.
pub proof fn law_reply_is_done<T: Message>(from: &From, reply: Reply<T>, o: Outcome)
    requires
        call_ensures(server::handle_call_reply::<T>, (from, reply), o),
        encode_utf8(T::tag_view()).len() < 65536,
    ensures
        match reply {
            Reply::Answer(v) => answered::<T>(o.send, from@, v@) && o.later is None && o.stop is None,
            Reply::Continue(v, arg) => answered::<T>(o.send, from@, v@) && comes_back(
                o.later,
                arg@,
            ) && o.stop is None,
            Reply::Timeout(v, d) => answered::<T>(o.send, from@, v@) && reminds(o.later, d)
                && o.stop is None,
            Reply::NoReply => o.send is None && o.later is None && o.stop is None,
            Reply::Stop(reason, v) => answered::<T>(o.send, from@, v@) && o.later is None
                && (o.stop matches Some(why) && why@ == reason@),
            Reply::StopNoReply(reason) => o.send matches Some((to, _)) && to@ == from@.pid
                && o.later is None && (o.stop matches Some(why) && why@ == reason@),
        },
{
    match reply {
        Reply::Answer(v) => {
            lemma_answered::<T>(o.send, from@, v@);
        },
        Reply::Continue(v, arg) => {
            lemma_answered::<T>(o.send, from@, v@);
            lemma_comes_back(o.later, arg);
        },
        Reply::Timeout(v, d) => {
            lemma_answered::<T>(o.send, from@, v@);
            lemma_reminds(o.later, d);
        },
        Reply::Stop(_, v) => {
            lemma_answered::<T>(o.send, from@, v@);
        },
        _ => {},
    }
}

/// A caller whose server stops without a reply gets an error under the reference of its call; the
/// error's text says why.
pub proof fn law_stop_is_told(
    from: FromView,
    reason: crate::process::ExitReasonView,
    bytes: Vec<u8>,
)
    requires
        server::error_to(from, reason) == Some((from.pid, bytes@)),
    ensures
        protocol::message_read(bytes@) matches Some(MessageView::Reply { reference, payload })
            && reference == from.reference && wire::postcard_take_str(payload) == Some(
            ("stopped: "@ + crate::process::reason_text(reason), Seq::<u8>::empty()),
        ),
{
    let text = "stopped: "@ + crate::process::reason_text(reason);
    let payload = wire::postcard_str(text);
    let none = Seq::<u8>::empty();
    assert(bytes@.len() == bytes.len());
    lemma_reply_length(from.reference, payload);
    lemma_reply(from.reference, payload);
    assert(encode_utf8(text).len() <= payload.len()) by {
        reveal(wire::postcard_str);
    }
    wire::law_str_reads_back(text, none);
    assert(payload + none =~= payload);
}

/// Every error that a server sends goes to the process of the caller.
pub proof fn law_errors_go_to_the_caller(
    from: FromView,
    reason: crate::process::ExitReasonView,
    payload: Seq<u8>,
)
    ensures
        server::error_to(from, reason) matches Some((to, _)) && to == from.pid,
        server::reply_to(from, payload) matches Some((to, _)) && to == from.pid,
{
}

/// A call that cannot be read is answered with an error, and the server goes on.
pub proof fn law_bad_call_is_answered(
    raw: Vec<u8>,
    turn: Turn,
    from: FromView,
    request: Seq<u8>,
    o: Outcome,
)
    requires
        protocol::gen_call_read(raw@) == Some((from, request)),
        message::untagged(request) is None,
        call_ensures(server::receive, (Some(raw),), turn),
        turn matches Turn::BadCall { from: f, error } ==> call_ensures(
            server::reject_call,
            (&f, &error),
            o,
        ),
    ensures
        turn matches Turn::BadCall { from: f, error } && f@ == from
            && crate::process::decode_text(error@) == "invalid data: "@ + message::tag_fault(
            request,
        ),
        o.send matches Some((to, _)) && to@ == from.pid,
        o.later is None,
        o.stop is None,
{
    assert(turn@ == server::turn_of(Some(raw@)));
}

/// A call goes the whole way: the server takes it as a call of this caller, reads the request that
/// was sent, and the value of the reply is what the caller gets.
pub proof fn law_call_goes_the_whole_way<M: Message, T: Message>(
    from: From,
    msg: &M,
    bytes: Vec<u8>,
    turn: Turn,
    value: T,
    o: Outcome,
)
    requires
        encode_utf8(M::tag_view()).len() < 65536,
        encode_utf8(T::tag_view()).len() < 65536,
        call_ensures(server::call_message::<M>, (from, msg), bytes),
        call_ensures(server::receive, (Some(bytes),), turn),
        turn matches Turn::Call { from: f, payload } ==> call_ensures(
            server::handle_call_reply::<T>,
            (&f, Reply::Answer(value)),
            o,
        ),
    ensures
        turn matches Turn::Call { from: f, payload } && f@ == from@ && forall|
            asked: &From,
            p: &[u8],
            r: Result<M, Outcome>,
        |
            p@ == payload@ && #[trigger] call_ensures(server::call_request::<M>, (asked, p), r)
                ==> (r matches Ok(m) && m@ == msg@),
        answered::<T>(o.send, from@, value@),
{
    assert(turn@ == server::turn_of(Some(bytes@)));
    match turn {
        Turn::Call { from: f, payload } => {
            law_reply_is_done::<T>(&f, Reply::Answer(value), o);
        },
        _ => {},
    }
}

/// A cast goes the whole way: the server takes it as a cast and reads the message that was sent.
pub proof fn law_cast_goes_the_whole_way<M: Message>(
    pid: Pid,
    msg: &M,
    sent: (Pid, Vec<u8>),
    turn: Turn,
)
    requires
        encode_utf8(M::tag_view()).len() < 65536,
        call_ensures(server::cast::<M>, (pid, msg), sent),
        call_ensures(server::receive, (Some(sent.1),), turn),
    ensures
        sent.0@ == pid@,
        turn matches Turn::Cast { payload } && forall|p: &[u8], r: Option<M>|
            p@ == payload@ && #[trigger] call_ensures(server::plain_request::<M>, (p,), r) ==> (
            r matches Some(m) && m@ == msg@),
{
    assert(turn@ == server::turn_of(Some(sent.1@)));
}

/// Another message goes the whole way: the server takes it as one, and reads what was sent.
pub proof fn law_info_goes_the_whole_way<M: Message>(
    pid: Pid,
    msg: &M,
    sent: (Pid, Vec<u8>),
    turn: Turn,
)
    requires
        server::plain_tag(M::tag_view()),
        call_ensures(server::info::<M>, (pid, msg), sent),
        call_ensures(server::receive, (Some(sent.1),), turn),
    ensures
        sent.0@ == pid@,
        turn matches Turn::Info { raw } && forall|p: &[u8], r: Option<M>|
            p@ == raw@ && #[trigger] call_ensures(server::info_request::<M>, (p,), r) ==> (
            r matches Some(m) && m@ == msg@),
{
    assert(turn@ == server::turn_of(Some(sent.1@)));
}

/// A message that is no call, no cast and none of the server's own is handed on whole; so is a
/// call or a cast of the protocol outside an envelope.
pub proof fn law_other_messages_are_handed_on(raw: Vec<u8>, turn: Turn)
    requires
        protocol::gen_call_read(raw@) is None,
        protocol::gen_cast_read(raw@) is None,
        match protocol::message_read(raw@) {
            None => true,
            Some(m) => m is Call || m is Cast,
        },
        call_ensures(server::receive, (Some(raw),), turn),
    ensures
        turn matches Turn::Info { raw: whole } && whole@ == raw@,
{
    assert(turn@ == server::turn_of(Some(raw@)));
}

/// A cast that cannot be read is dropped, and a reply that comes too late as well.
pub proof fn law_useless_messages_are_dropped(raw: Vec<u8>, turn: Turn)
    requires
        protocol::gen_call_read(raw@) is None,
        protocol::gen_cast_read(raw@) matches Some(request) && message::untagged(request) is None
            || (protocol::gen_cast_read(raw@) is None && (protocol::message_read(
            raw@,
        ) matches Some(m) && m is Reply)),
        call_ensures(server::receive, (Some(raw),), turn),
    ensures
        turn is Skip,
{
    assert(turn@ == server::turn_of(Some(raw@)));
}

/// A server whose mailbox is closed ends normally; one who waits for a reply learns that the
/// server has stopped.
pub proof fn law_closed_mailbox_ends<R: Message>(
    turn: Turn,
    other: v2::Turn,
    reference: Ref,
    r: Option<Result<R, Error>>,
)
    requires
        call_ensures(server::receive, (None::<Vec<u8>>,), turn),
        call_ensures(v2::receive, (None::<Vec<u8>>,), other),
        call_ensures(server::wait_for_reply::<R>, (reference, None::<Vec<u8>>), r),
    ensures
        turn matches Turn::Terminate(reason) && reason is Normal,
        other matches v2::Turn::Terminate(reason) && reason is Normal,
        r matches Some(Err(Error::Stopped(reason))) && reason is Normal,
{
    assert(turn@ is Terminate);
    assert(other@ is Terminate);
}

/// A request to stop is taken as one, by servers of either kind, with its reason and with who
/// waits; the acknowledgement reaches who waits, and the server ends for that reason.
pub proof fn law_stop_goes_the_whole_way(
    reason: ExitReason,
    from: Option<From>,
    bytes: Vec<u8>,
    turn: Turn,
    other: v2::Turn,
    o: Outcome,
)
    requires
        call_ensures(protocol::encode_stop, (reason, from), bytes),
        call_ensures(server::receive, (Some(bytes),), turn),
        call_ensures(v2::receive, (Some(bytes),), other),
        turn matches Turn::Stop { reason: why, from: f } ==> call_ensures(
            server::acknowledge_stop,
            (why, &f),
            o,
        ),
    ensures
        turn matches Turn::Stop { reason: why, from: f } && why@ == reason@
            && protocol::from_option(f) == protocol::from_option(from),
        other matches v2::Turn::Stop { reason: why, from: f } && why@ == reason@
            && protocol::from_option(f) == protocol::from_option(from),
        (o.stop matches Some(why) && why@ == reason@),
        o.later is None,
        match from {
            Some(f) => answered::<()>(o.send, f@, ()),
            None => o.send is None,
        },
{
    let wire_of = MessageView::Stop { reason: reason@, from: protocol::from_option(from) };
    let w = protocol::message_wire(wire_of);
    let rest = w.skip(1);
    lemma_small(3, rest);
    assert(w[0] == 3) by {
        reveal(wire::postcard_u32);
    }
    assert(w.len() > 0) by {
        reveal(wire::postcard_u32);
    }
    protocol::lemma_no_envelope(w);
    assert(turn@ == server::turn_of(Some(bytes@)));
    assert(other@ == v2::turn_of(Some(bytes@)));
    match from {
        Some(f) => {
            assert(message::tagged(<() as Message>::tag_view(), <() as Message>::payload(()))
                == message::tagged("unit"@, Seq::empty()));
            reveal_strlit("unit");
            message::lemma_ascii_length("unit"@);
            lemma_answered::<()>(o.send, f@, ());
        },
        None => {},
    }
}

/// A server whose handlers are found by tag takes a call as a call of this caller, with the tag and
/// the payload of the request and the request as a whole.
pub proof fn law_tagged_call_goes_the_whole_way<M: Message>(
    from: From,
    msg: &M,
    bytes: Vec<u8>,
    turn: v2::Turn,
)
    requires
        encode_utf8(M::tag_view()).len() < 65536,
        call_ensures(v2::call::<M>, (from, msg), bytes),
        call_ensures(v2::receive, (Some(bytes),), turn),
    ensures
        turn matches v2::Turn::Call { from: f, tag, payload, raw } && f@ == from@ && tag@
            == M::tag_view() && message::untagged(raw@) == Some((tag@, payload@)) && forall|
            p: &[u8],
            r: Result<M, RawReply>,
        |
            p@ == payload@ && #[trigger] call_ensures(dispatch::call_argument::<M>, (p,), r) ==> (
            r matches Ok(m) && m@ == msg@),
{
    assert(turn@ == v2::turn_of(Some(bytes@)));
    message::law_tag_reads_back(M::tag_view(), M::payload(msg@));
}

/// A server whose handlers are found by tag takes a cast as a cast, with the tag and the payload
/// of the message and the message as a whole.
pub proof fn law_tagged_cast_goes_the_whole_way<M: Message>(
    pid: Pid,
    msg: &M,
    sent: (Pid, Vec<u8>),
    turn: v2::Turn,
)
    requires
        encode_utf8(M::tag_view()).len() < 65536,
        call_ensures(v2::cast::<M>, (pid, msg), sent),
        call_ensures(v2::receive, (Some(sent.1),), turn),
    ensures
        sent.0@ == pid@,
        turn matches v2::Turn::Cast { tag, payload, raw } && tag@ == M::tag_view()
            && message::untagged(raw@) == Some((tag@, payload@)) && forall|
            p: &[u8],
            r: Result<M, Status>,
        |
            p@ == payload@ && #[trigger] call_ensures(dispatch::cast_argument::<M>, (p,), r) ==> (
            r matches Ok(m) && m@ == msg@),
{
    assert(turn@ == v2::turn_of(Some(sent.1@)));
    message::law_tag_reads_back(M::tag_view(), M::payload(msg@));
}

/// To a server whose handlers are found by tag, bytes that are no message of the protocol are
/// another message: whole, and with its tag and payload where it has a tag.
pub proof fn law_tagged_messages_are_handed_on(raw: Vec<u8>, turn: v2::Turn)
    requires
        protocol::message_read(raw@) is None,
        call_ensures(v2::receive, (Some(raw),), turn),
    ensures
        turn matches v2::Turn::Info { tagged, raw: whole } && whole@ == raw@ && v2::tagged_view(
            tagged,
        ) == message::untagged(raw@),
{
    assert(turn@ == v2::turn_of(Some(raw@)));
}

/// Calls and casts without a readable tag are told apart, and a late reply is dropped.
pub proof fn law_untagged_requests_are_told_apart(
    raw: Vec<u8>,
    turn: v2::Turn,
    m: MessageView,
)
    requires
        protocol::message_read(raw@) == Some(m),
        call_ensures(v2::receive, (Some(raw),), turn),
    ensures
        match m {
            MessageView::Call { from, payload } => message::untagged(payload) is None ==> (
            turn matches v2::Turn::BadCall { from: f } && f@ == from),
            MessageView::Cast { payload } => message::untagged(payload) is None ==> turn is BadCast,
            _ => true,
        },
        m is Reply ==> turn is Skip,
{
    assert(turn@ == v2::turn_of(Some(raw@)));
}

/// What a handler that is found by tag replies with reaches the caller, and what it asks for
/// besides is done.
pub proof fn law_tagged_reply_is_done<T: Message>(
    from: &From,
    reply: Reply<T>,
    raw: RawReply,
    o: Outcome,
)
    requires
        call_ensures(dispatch::reply_to_raw::<T>, (reply,), raw),
        call_ensures(v2::handle_raw_reply, (from, raw), o),
        encode_utf8(T::tag_view()).len() < 65536,
    ensures
        match reply {
            Reply::Answer(v) => answered::<T>(o.send, from@, v@) && o.later is None && o.stop is None,
            Reply::Continue(v, arg) => answered::<T>(o.send, from@, v@) && comes_back(
                o.later,
                arg@,
            ) && o.stop is None,
            Reply::Timeout(v, d) => answered::<T>(o.send, from@, v@) && reminds(o.later, d)
                && o.stop is None,
            Reply::NoReply => o.send is None && o.later is None && o.stop is None,
            Reply::Stop(reason, v) => answered::<T>(o.send, from@, v@) && o.later is None
                && (o.stop matches Some(why) && why@ == reason@),
            Reply::StopNoReply(reason) => o.send matches Some((to, _)) && to@ == from@.pid
                && o.later is None && (o.stop matches Some(why) && why@ == reason@),
        },
{
    match reply {
        Reply::Answer(v) => {
            lemma_answered::<T>(o.send, from@, v@);
        },
        Reply::Continue(v, arg) => {
            lemma_answered::<T>(o.send, from@, v@);
            lemma_comes_back(o.later, arg);
        },
        Reply::Timeout(v, d) => {
            lemma_answered::<T>(o.send, from@, v@);
            lemma_reminds(o.later, d);
        },
        Reply::Stop(_, v) => {
            lemma_answered::<T>(o.send, from@, v@);
        },
        _ => {},
    }
}

/// A reply that was put off reaches the caller as the value.
pub proof fn law_late_reply_reaches_the_caller<T: Message>(
    from: &From,
    value: &T,
    sent: (Pid, Vec<u8>),
)
    requires
        call_ensures(v2::reply::<T>, (from, value), sent),
        encode_utf8(T::tag_view()).len() < 65536,
        T::unpacked(T::payload(value@)) == Some(value@),
    ensures
        answered::<T>(Some(sent), from@, value@),
{
    lemma_answered::<T>(Some(sent), from@, value@);
}

} // verus!
