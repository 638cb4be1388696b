//! What channels promise as a whole: what reaches whom, and how it reads there.

use serde_json::Value;
use vstd::prelude::*;
use vstd::utf8::*;

use crate::channel::channels;
use crate::channel::channels::{
    ChannelReply, JoinError, RawHandleResult, ReplyStatus, ReplyView, Socket,
};
use crate::channel::server;
use crate::channel::server::{ChannelServer, EventOutcome};
use crate::channel::transport;
use crate::channel::transport::{
    MessageStep, TransportMessage, TransportReply,
};
use crate::channel::websocket;
use crate::channel::websocket::{
    DecodedMessage, MailboxStep, PhxMessage, Serializer, SerializerRegistry, V2JsonSerializer,
    WsSession, WsStep,
};
use crate::json;
use crate::json::Json;
use crate::process::{Pid, PidView};
use crate::table;
use crate::table::Table;
use crate::text;
use crate::wire;

verus! {

/// Whether bytes in a mailbox are an event of a topic for the client: they read as one, and what
/// forwards them hands the client this event.
pub open spec fn is_event(
    bytes: Vec<u8>,
    topic: Seq<char>,
    event: Seq<char>,
    payload: Seq<u8>,
) -> bool {
    &&& forall|data: &[u8], got: Option<ChannelReply>|
        data@ == bytes@ && #[trigger] call_ensures(ChannelReply::decode, (data,), got) ==> (
        got matches Some(ChannelReply::Push { topic: t, event: e, payload: p }) && t@ == topic
            && e@ == event && p@ == payload)
    &&& forall|data: &[u8], got: Option<TransportReply>|
        data@ == bytes@ && #[trigger] call_ensures(transport::forward, (data,), got) ==> (
        got matches Some(TransportReply::Push { join_ref: None, topic: t, event: e, payload: p })
            && t@ == topic && e@ == event && p@ == payload)
}

/// Who gets something.
pub open spec fn receivers(sends: Seq<(Pid, Vec<u8>)>) -> Seq<PidView> {
    Seq::new(sends.len(), |i: int| sends[i].0@)
}

/// What an event is written as reads back.
proof fn lemma_event(bytes: Vec<u8>, topic: Seq<char>, event: Seq<char>, payload: Seq<u8>)
    requires
        bytes@ == channels::event_wire(topic, event, payload),
    ensures
        is_event(bytes, topic, event, payload),
        channels::reply_read(bytes@) == Some(ReplyView::Push { topic, event, payload }),
{
    let none = Seq::<u8>::empty();
    let b = wire::postcard_str(topic);
    let c = wire::postcard_str(event);
    let d = wire::postcard_bytes(payload);
    assert(bytes@.len() == bytes.len());
    assert(bytes@ =~= wire::postcard_u32(3) + (b + (c + d)));
    assert(encode_utf8(topic).len() <= bytes@.len() && encode_utf8(event).len() <= bytes@.len()
        && payload.len() <= bytes@.len()) by {
        reveal(wire::postcard_str);
        reveal(wire::postcard_bytes);
    }
    wire::law_u32_reads_back(3, b + (c + d));
    wire::law_str_reads_back(topic, c + d);
    wire::law_str_reads_back(event, d);
    wire::law_bytes_reads_back(payload, none);
    assert(d + none =~= d);
}

/// What is sent to some members one by one is sent to each of them, and reads as the event.
proof fn lemma_sends(
    sends: Seq<(Pid, Vec<u8>)>,
    members: Seq<PidView>,
    topic: Seq<char>,
    event: Seq<char>,
    payload: Seq<u8>,
)
    requires
        channels::sends(sends) == channels::to_each(
            members,
            channels::event_wire(topic, event, payload),
        ),
    ensures
        receivers(sends) == members,
        forall|i: int|
            0 <= i < sends.len() ==> is_event((#[trigger] sends[i]).1, topic, event, payload),
{
    let all = channels::to_each(members, channels::event_wire(topic, event, payload));
    assert(all.len() == members.len());
    assert forall|i: int| 0 <= i < sends.len() implies is_event(
        (#[trigger] sends[i]).1,
        topic,
        event,
        payload,
    ) && sends[i].0@ == members[i] by {
        assert(channels::sends(sends)[i] == all[i]);
        lemma_event(sends[i].1, topic, event, payload);
    }
    assert(receivers(sends) =~= members);
}

/// Whether a result's broadcast is sent as it should be: to every member of the topic, or to every
/// member but the client, and to no one else; and each reads the event with its payload.
pub open spec fn is_broadcast(
    sends: Seq<(Pid, Vec<u8>)>,
    topic: Seq<char>,
    result: RawHandleResult,
    members: Seq<PidView>,
    client: PidView,
) -> bool {
    match result {
        RawHandleResult::Broadcast { event, payload } => {
            &&& receivers(sends) == members
            &&& forall|i: int|
                0 <= i < sends.len() ==> is_event(
                    (#[trigger] sends[i]).1,
                    topic,
                    event@,
                    payload@,
                )
        },
        RawHandleResult::BroadcastFrom { event, payload } => {
            &&& receivers(sends) == members.filter(|p: PidView| p != client)
            &&& forall|i: int|
                0 <= i < sends.len() ==> is_event(
                    (#[trigger] sends[i]).1,
                    topic,
                    event@,
                    payload@,
                )
        },
        _ => sends.len() == 0,
    }
}

proof fn lemma_broadcast(
    sends: Seq<(Pid, Vec<u8>)>,
    topic: Seq<char>,
    result: RawHandleResult,
    members: Seq<PidView>,
    client: PidView,
)
    requires
        channels::sends(sends) == server::sends_of(topic, result, members, client),
    ensures
        is_broadcast(sends, topic, result, members, client),
{
    match result {
        RawHandleResult::Broadcast { event, payload } => {
            lemma_sends(sends, members, topic, event@, payload@);
        },
        RawHandleResult::BroadcastFrom { event, payload } => {
            crate::seqs::lemma_filter_agree(
                members,
                |p: PidView| p != client,
                channels::other_than(client),
            );
            lemma_sends(sends, channels::others(members, client), topic, event@, payload@);
        },
        _ => {
            assert(channels::sends(sends).len() == 0);
        },
    }
}

/// What a channel makes of an event of its client is done: a broadcast reaches the members of the
/// topic with its payload, a reply answers the event with its status and payload, an event for
/// the client is handed to it, and only a stop ends the channel.
pub proof fn law_event_is_done(
    server: &mut ChannelServer,
    topic: &str,
    msg_ref: String,
    result: RawHandleResult,
    members: &Vec<Pid>,
    r: EventOutcome,
)
    requires
        old(server).wf(),
        old(server).joined().contains_key(topic@),
        call_ensures(
            ChannelServer::handle_event,
            (server, topic, msg_ref, result, members),
            r,
        ),
    ensures
        is_broadcast(r.sends@, topic@, result, table::views(members@), old(server).client()),
        match result {
            RawHandleResult::Reply { status, payload } => r.reply matches Some(
                ChannelReply::Reply { msg_ref: m, status: s, payload: p },
            ) && m@ == msg_ref@ && p@ == payload@ && s@ == (match status {
                ReplyStatus::Okay => "ok"@,
                ReplyStatus::Error => "error"@,
            }),
            RawHandleResult::Push { event, payload } => r.reply matches Some(
                ChannelReply::Push { topic: t, event: e, payload: p },
            ) && t@ == topic@ && e@ == event@ && p@ == payload@,
            _ => r.reply is None,
        },
        result is Stop ==> !final(server).joined().contains_key(topic@) && (
        r.left matches Some(socket) && socket@ == old(server).joined()[topic@]),
        !(result is Stop) ==> final(server).joined() == old(server).joined() && r.left is None,
{
    lemma_broadcast(r.sends@, topic@, result, table::views(members@), old(server).client());
    match r.reply {
        Some(reply) => {
            assert(server::reply_option(r.reply) == Some(reply@));
        },
        None => {},
    }
}

/// The same, over a transport: the reply has the references of the message and its topic.
pub proof fn law_transport_event_is_done(
    server: &mut ChannelServer,
    msg: &TransportMessage,
    result: RawHandleResult,
    members: &Vec<Pid>,
    r: (Option<TransportReply>, Vec<(Pid, Vec<u8>)>, Option<Socket>),
)
    requires
        old(server).wf(),
        old(server).joined().contains_key(msg.topic@),
        call_ensures(transport::event_reply, (server, msg, result, members), r),
    ensures
        is_broadcast(r.1@, msg.topic@, result, table::views(members@), old(server).client()),
        match result {
            RawHandleResult::Reply { status, payload } => r.0 matches Some(
                TransportReply::Reply { join_ref, msg_ref, topic, status: s, payload: p },
            ) && text::str_option(join_ref) == text::str_option(msg.join_ref) && (
            msg_ref matches Some(m) && m@ == (match msg.msg_ref {
                Some(given) => given@,
                None => ""@,
            })) && topic@ == msg.topic@ && p@ == payload@ && s@ == (match status {
                ReplyStatus::Okay => "ok"@,
                ReplyStatus::Error => "error"@,
            }),
            RawHandleResult::Push { event, payload } => r.0 matches Some(
                TransportReply::Push { join_ref, topic, event: e, payload: p },
            ) && text::str_option(join_ref) == text::str_option(msg.join_ref) && topic@
                == msg.topic@ && e@ == event@ && p@ == payload@,
            _ => r.0 is None,
        },
        result is Stop ==> !final(server).joined().contains_key(msg.topic@) && r.2 is Some,
        !(result is Stop) ==> final(server).joined() == old(server).joined() && r.2 is None,
{
    lemma_broadcast(r.1@, msg.topic@, result, table::views(members@), old(server).client());
    match r.0 {
        Some(reply) => {
            assert(transport::transport_option(r.0) == Some(reply@));
        },
        None => {},
    }
}

/// The same, over a WebSocket: a broadcast reaches the members of the topic with its payload, and
/// its sender gets an acknowledgement; a reply and an event for the client are written with what
/// the channel made of them; a stop is not answered.
pub proof fn law_socket_event_is_done<S: Serializer>(
    session: &mut WsSession,
    serializer: &S,
    msg: &DecodedMessage,
    result: RawHandleResult,
    members: &Vec<Pid>,
    r: (Option<Vec<u8>>, Vec<(Pid, Vec<u8>)>, Option<Socket>),
)
    requires
        old(session).wf(),
        call_ensures(
            websocket::event_reply::<S>,
            (session, serializer, msg, Some(result), members),
            r,
        ),
    ensures
        is_broadcast(r.1@, msg@.topic, result, table::views(members@), old(session).pid()),
        match result {
            RawHandleResult::Stop { .. } => r.0 is None && !final(session).joined().contains_key(
                msg@.topic,
            ),
            RawHandleResult::Reply { status, payload } => r.0 matches Some(bytes) && bytes@
                == serializer.reply_bytes(
                old(session).ref_of(msg@.topic),
                msg@.msg_ref,
                msg@.topic,
                match status {
                    ReplyStatus::Okay => "ok"@,
                    ReplyStatus::Error => "error"@,
                },
                payload@,
            ),
            RawHandleResult::Push { event, payload } => r.0 matches Some(bytes) && bytes@
                == serializer.push_bytes(
                old(session).ref_of(msg@.topic),
                msg@.topic,
                event@,
                payload@,
            ),
            _ => r.0 matches Some(bytes) && bytes@ == serializer.reply_bytes(
                old(session).ref_of(msg@.topic),
                msg@.msg_ref,
                msg@.topic,
                "ok"@,
                encode_utf8("{}"@),
            ),
        },
        !(result is Stop) ==> final(session).joined() == old(session).joined() && r.2 is None,
{
    lemma_broadcast(r.1@, msg@.topic, result, table::views(members@), old(session).pid());
    match r.0 {
        Some(bytes) => {
            assert(websocket::bytes_option(r.0) == Some(bytes@));
        },
        None => {},
    }
}

/// A broadcast goes the whole way to a client behind a WebSocket: what its session takes out of the
/// mailbox is written for the client as this event of this topic, with its payload and with the
/// reference of the client's join.
pub proof fn law_broadcast_reaches_the_socket<S: Serializer>(
    bytes: &[u8],
    sent: Vec<u8>,
    topic: Seq<char>,
    event: Seq<char>,
    payload: Seq<u8>,
    session: &WsSession,
    serializer: &S,
    r: MailboxStep,
)
    requires
        session.wf(),
        bytes@ == sent@,
        sent@ == channels::event_wire(topic, event, payload),
        call_ensures(websocket::handle_mailbox::<S>, (session, serializer, bytes), r),
    ensures
        r matches MailboxStep::Forward(written) && written@ == serializer.push_bytes(
            session.ref_of(topic),
            topic,
            event,
            payload,
        ),
{
    lemma_event(sent, topic, event, payload);
}

/// What a channel makes of a message from its mailbox reaches the members of the topic, where it
/// is a broadcast.
pub proof fn law_info_broadcast_reaches_the_members(
    topic: &str,
    event: String,
    payload: Vec<u8>,
    members: &Vec<Pid>,
    r: Vec<(Pid, Vec<u8>)>,
)
    requires
        call_ensures(
            websocket::info_sends,
            (topic, RawHandleResult::Broadcast { event, payload }, members),
            r,
        ),
    ensures
        receivers(r@) == table::views(members@),
        forall|i: int|
            0 <= i < r@.len() ==> is_event((#[trigger] r@[i]).1, topic@, event@, payload@),
{
    lemma_sends(r@, table::views(members@), topic@, event@, payload@);
}

/// What a process outside broadcasts to a topic reaches the members, with its payload; a broadcast
/// from a process reaches all of them but that process.
pub proof fn law_broadcasts_reach_the_members(
    topic: &str,
    from: &Pid,
    event: &str,
    payload: Vec<u8>,
    members: &Vec<Pid>,
    all: Vec<(Pid, Vec<u8>)>,
    others: Vec<(Pid, Vec<u8>)>,
)
    requires
        call_ensures(channels::broadcast_to_topic, (topic, event, payload, members), all),
        call_ensures(
            channels::broadcast_to_topic_from,
            (topic, from, event, payload, members),
            others,
        ),
    ensures
        receivers(all@) == table::views(members@),
        receivers(others@) == table::views(members@).filter(|p: PidView| p != from@),
        forall|i: int|
            0 <= i < all@.len() ==> is_event((#[trigger] all@[i]).1, topic@, event@, payload@),
        forall|i: int|
            0 <= i < others@.len() ==> is_event(
                (#[trigger] others@[i]).1,
                topic@,
                event@,
                payload@,
            ),
{
    let m = table::views(members@);
    lemma_sends(all@, m, topic@, event@, payload@);
    crate::seqs::lemma_filter_agree(m, |p: PidView| p != from@, channels::other_than(from@));
    lemma_sends(others@, channels::others(m, from@), topic@, event@, payload@);
}

/// What is broadcast through a socket reaches the members of the socket's topic, and what is pushed
/// through it reaches its client alone; each with its payload.
pub proof fn law_sockets_reach_their_topic(
    socket: &Socket,
    event: &str,
    payload: Vec<u8>,
    members: &Vec<Pid>,
    all: Vec<(Pid, Vec<u8>)>,
    others: Vec<(Pid, Vec<u8>)>,
    one: (Pid, Vec<u8>),
)
    requires
        call_ensures(channels::broadcast, (socket, event, payload, members), all),
        call_ensures(channels::broadcast_from, (socket, event, payload, members), others),
        call_ensures(channels::push, (socket, event, payload), one),
    ensures
        receivers(all@) == table::views(members@),
        receivers(others@) == table::views(members@).filter(|p: PidView| p != socket@.pid),
        one.0@ == socket@.pid,
        is_event(one.1, socket@.topic, event@, payload@),
        forall|i: int|
            0 <= i < all@.len() ==> is_event(
                (#[trigger] all@[i]).1,
                socket@.topic,
                event@,
                payload@,
            ),
        forall|i: int|
            0 <= i < others@.len() ==> is_event(
                (#[trigger] others@[i]).1,
                socket@.topic,
                event@,
                payload@,
            ),
{
    let m = table::views(members@);
    lemma_sends(all@, m, socket@.topic, event@, payload@);
    crate::seqs::lemma_filter_agree(
        m,
        |p: PidView| p != socket@.pid,
        channels::other_than(socket@.pid),
    );
    lemma_sends(others@, channels::others(m, socket@.pid), socket@.topic, event@, payload@);
    lemma_event(one.1, socket@.topic, event@, payload@);
}

/// The names of what a client can ask for are all different.
proof fn lemma_requests()
    ensures
        "phx_join"@ != "phx_leave"@,
        "phx_join"@ != "heartbeat"@,
        "phx_leave"@ != "heartbeat"@,
{
    reveal_strlit("phx_join");
    reveal_strlit("phx_leave");
    reveal_strlit("heartbeat");
    assert("phx_join"@.len() == 8);
    assert("phx_leave"@.len() == 9);
    assert("heartbeat"@.len() == 9);
    assert("phx_leave"@[0] == 'p');
    assert("heartbeat"@[0] == 'h');
}

/// Whether a reply has the references and the topic of a message, and this status and payload.
pub open spec fn answers(
    reply: TransportReply,
    msg: TransportMessage,
    status: Seq<char>,
    payload: Seq<u8>,
) -> bool {
    reply matches TransportReply::Reply { join_ref, msg_ref, topic, status: s, payload: p }
        && text::str_option(join_ref) == text::str_option(msg.join_ref) && text::str_option(
        msg_ref,
    ) == text::str_option(msg.msg_ref) && topic@ == msg.topic@ && s@ == status && p@ == payload
}

/// The payload that gives a reason, as a transport writes it.
pub open spec fn reason_text(reason: Seq<char>) -> Seq<u8> {
    encode_utf8("{\"reason\":\""@ + reason + "\"}"@)
}

/// The payload that gives a reason, as JSON.
pub open spec fn reason_json(reason: Seq<char>) -> Seq<u8> {
    encode_utf8(
        json::json_text(
            Json::Object(Map::<Seq<char>, Json>::empty().insert("reason"@, Json::Text(reason))),
        ),
    )
}

/// Over a transport, a client that asks to join is sent to the first handler that takes the topic,
/// with a socket of its own for it; it is refused where it has joined, or where no handler takes
/// the topic.
pub proof fn law_join_is_asked(
    server: &mut ChannelServer,
    msg: &TransportMessage,
    timestamp: u64,
    count: u64,
    r: MessageStep,
)
    requires
        old(server).wf(),
        msg.event@ == "phx_join"@,
        call_ensures(transport::handle_message, (server, msg, timestamp, count), r),
    ensures
        *final(server) == *old(server),
        old(server).joined().contains_key(msg.topic@) ==> (r matches MessageStep::Answer {
            reply,
            left,
        } && left is None && answers(reply, *msg, "error"@, reason_text("already joined"@))),
        !old(server).joined().contains_key(msg.topic@) ==> match r {
            MessageStep::Ask { handler, socket } => {
                &&& handler < old(server).patterns().len()
                &&& channels::matches(old(server).patterns()[handler as int], msg.topic@)
                &&& forall|j: int|
                    0 <= j < handler ==> !channels::matches(
                        #[trigger] old(server).patterns()[j],
                        msg.topic@,
                    )
                &&& socket@.pid == old(server).client()
                &&& socket@.topic == msg.topic@
            },
            MessageStep::Answer { reply, left } => {
                &&& left is None
                &&& answers(
                    reply,
                    *msg,
                    "error"@,
                    reason_text("no handler for topic: "@ + msg.topic@),
                )
                &&& forall|j: int|
                    0 <= j < old(server).patterns().len() ==> !channels::matches(
                        #[trigger] old(server).patterns()[j],
                        msg.topic@,
                    )
            },
            _ => false,
        },
{
    lemma_requests();
}

/// Over a transport, a client that asks to leave is told so, and has left; its channel, if it had
/// one, is handed back to be told.
pub proof fn law_leave_is_done(
    server: &mut ChannelServer,
    msg: &TransportMessage,
    timestamp: u64,
    count: u64,
    r: MessageStep,
    other: Seq<char>,
)
    requires
        old(server).wf(),
        msg.event@ == "phx_leave"@,
        call_ensures(transport::handle_message, (server, msg, timestamp, count), r),
    ensures
        !final(server).joined().contains_key(msg.topic@),
        other != msg.topic@ ==> final(server).joined().contains_key(other)
            == old(server).joined().contains_key(other),
        r matches MessageStep::Answer { reply, left } && answers(
            reply,
            *msg,
            "ok"@,
            encode_utf8("{}"@),
        ) && match left {
            Some(socket) => old(server).joined().contains_key(msg.topic@) && socket@
                == old(server).joined()[msg.topic@],
            None => !old(server).joined().contains_key(msg.topic@),
        },
{
    lemma_requests();
}

/// Over a transport, any other event goes to the channel of its topic, if the client has joined it,
/// and to no one if not.
pub proof fn law_event_goes_to_its_channel(
    server: &mut ChannelServer,
    msg: &TransportMessage,
    timestamp: u64,
    count: u64,
    r: MessageStep,
)
    requires
        old(server).wf(),
        msg.event@ != "phx_join"@,
        msg.event@ != "phx_leave"@,
        msg.event@ != "heartbeat"@ || msg.topic@ != "phoenix"@,
        call_ensures(transport::handle_message, (server, msg, timestamp, count), r),
    ensures
        *final(server) == *old(server),
        if old(server).joined().contains_key(msg.topic@) {
            r matches MessageStep::Deliver(socket) && socket@ == old(server).joined()[msg.topic@]
        } else {
            r is Ignore
        },
{
}

/// An admission makes the client a member of the topic's group and a joiner of the topic, and is
/// answered with the payload of the handler; a refusal changes nothing and is answered with the
/// reason.
pub proof fn law_join_is_completed(
    server: &mut ChannelServer,
    socket: Socket,
    msg_ref: String,
    outcome: Result<Option<Vec<u8>>, JoinError>,
    r: (ChannelReply, Option<String>),
    msg: &TransportMessage,
    answer: TransportReply,
)
    requires
        old(server).wf(),
        socket@.pid == old(server).client(),
        !old(server).joined().contains_key(socket@.topic),
        call_ensures(ChannelServer::complete_join, (server, socket, msg_ref, outcome), r),
        call_ensures(transport::join_reply, (msg, r.0), answer),
    ensures
        match outcome {
            Ok(payload) => {
                &&& final(server).joined().contains_key(socket@.topic)
                &&& final(server).joined()[socket@.topic] == socket@
                &&& r.1 matches Some(group) && group@ == "channel:"@ + socket@.topic
                &&& answers(
                    answer,
                    *msg,
                    "ok"@,
                    match payload {
                        Some(given) => given@,
                        None => encode_utf8("{}"@),
                    },
                )
            },
            Err(e) => {
                &&& final(server).joined() == old(server).joined()
                &&& r.1 is None
                &&& answers(answer, *msg, "error"@, reason_text(e.reason@))
            },
        },
{
    assert(answer@ == transport::join_answer(*msg, r.0@));
}

/// Over a WebSocket, a client that asks to join is sent to the first handler that takes the topic,
/// or is refused; a client that leaves has left and is told so; an event goes to the channel of
/// its topic, or is refused where the client has not joined it; and a heartbeat is answered.
pub proof fn law_socket_message_is_done<S: Serializer>(
    session: &mut WsSession,
    serializer: &S,
    msg: &DecodedMessage,
    timestamp: u64,
    count: u64,
    r: WsStep,
)
    requires
        old(session).wf(),
        call_ensures(
            websocket::handle_decoded_message::<S>,
            (session, serializer, msg, timestamp, count),
            r,
        ),
    ensures
        ({
            let m = msg@;
            let joined = old(session).joined().contains_key(m.topic);
            let patterns = old(session).patterns();
            let ok = encode_utf8("{}"@);
            &&& m.event == "phx_join"@ ==> *final(session) == *old(session) && match r {
                WsStep::Ask { handler, socket } => !joined && handler < patterns.len()
                    && channels::matches(patterns[handler as int], m.topic) && (forall|j: int|
                    0 <= j < handler ==> !channels::matches(#[trigger] patterns[j], m.topic))
                    && socket@.pid == old(session).pid() && socket@.topic == m.topic,
                WsStep::Answer { reply, left } => left is None && (joined || forall|j: int|
                    0 <= j < patterns.len() ==> !channels::matches(#[trigger] patterns[j], m.topic))
                    && reply@ == serializer.reply_bytes(
                    m.join_ref,
                    m.msg_ref,
                    m.topic,
                    "error"@,
                    reason_json(
                        if joined {
                            "already joined"@
                        } else {
                            "no handler for topic: "@ + m.topic
                        },
                    ),
                ),
                WsStep::Deliver => false,
            }
            &&& m.event == "phx_leave"@ ==> !final(session).joined().contains_key(m.topic)
                && !final(session).refs().contains_key(m.topic) && (r matches WsStep::Answer {
                reply,
                left,
            } && reply@ == serializer.reply_bytes(None, m.msg_ref, m.topic, "ok"@, ok) && (
            left is Some <==> joined))
            &&& m.event == "heartbeat"@ && m.topic == "phoenix"@ ==> *final(session) == *old(
                session,
            ) && (r matches WsStep::Answer { reply, left } && left is None && reply@
                == serializer.reply_bytes(None, m.msg_ref, "phoenix"@, "ok"@, ok))
            &&& m.event != "phx_join"@ && m.event != "phx_leave"@ && (m.event != "heartbeat"@
                || m.topic != "phoenix"@) ==> *final(session) == *old(session) && (if joined {
                r is Deliver
            } else {
                r matches WsStep::Answer { reply, left } && left is None && reply@
                    == serializer.reply_bytes(
                    None,
                    m.msg_ref,
                    m.topic,
                    "error"@,
                    reason_json("not joined"@),
                )
            })
        }),
{
    lemma_requests();
}

/// The reply to a join over a WebSocket has the references and the topic of the message; it says
/// ok with the handler's payload, or error with the reason.
pub proof fn law_socket_join_is_answered<S: Serializer>(
    serializer: &S,
    msg: &DecodedMessage,
    outcome: Result<Option<Vec<u8>>, JoinError>,
    r: Vec<u8>,
)
    requires
        call_ensures(websocket::join_reply::<S>, (serializer, msg, outcome), r),
    ensures
        match outcome {
            Ok(payload) => r@ == serializer.reply_bytes(
                msg@.join_ref,
                msg@.msg_ref,
                msg@.topic,
                "ok"@,
                match payload {
                    Some(p) => p@,
                    None => encode_utf8("{}"@),
                },
            ),
            Err(e) => r@ == serializer.reply_bytes(
                msg@.join_ref,
                msg@.msg_ref,
                msg@.topic,
                "error"@,
                encode_utf8(
                    json::json_text(
                        Json::Object(
                            Map::<Seq<char>, Json>::empty().insert(
                                "reason"@,
                                Json::Text(e.reason@),
                            ),
                        ),
                    ),
                ),
            ),
        },
{
}

/// A reference as JSON: a string, or null if there is none.
pub open spec fn ref_json(r: Option<Seq<char>>) -> Json {
    match r {
        Some(t) => Json::Text(t),
        None => Json::Null,
    }
}

/// Whether bytes are five items in JSON.
pub open spec fn writes(bytes: Seq<u8>, a: Json, b: Json, c: Json, d: Json, e: Json) -> bool {
    bytes == encode_utf8(json::json_text(Json::Array(seq![a, b, c, d, e])))
}

/// The V2 serializer writes the reference of the join, that of the message, the topic, the event
/// and the payload, in this order. An event has no reference of its own; its payload stands there
/// as JSON, or in an object if it is none. A reply is the event of a reply, with its status and
/// its response.
pub proof fn law_five_items_are_written(
    v2: &V2JsonSerializer,
    join_ref: Option<&str>,
    msg_ref: Option<&str>,
    topic: &str,
    event: &str,
    status: &str,
    payload: &[u8],
    pushed: Vec<u8>,
    replied: Vec<u8>,
)
    requires
        call_ensures(V2JsonSerializer::encode_push, (v2, join_ref, topic, event, payload), pushed),
        call_ensures(
            V2JsonSerializer::encode_reply,
            (v2, join_ref, msg_ref, topic, status, payload),
            replied,
        ),
    ensures
        writes(
            pushed@,
            ref_json(websocket::slice_option(join_ref)),
            Json::Null,
            Json::Text(topic@),
            Json::Text(event@),
            match json::json_parsed(payload@) {
                Some(j) => j,
                None => Json::Object(
                    Map::<Seq<char>, Json>::empty().insert("data"@, json::bytes_json(payload@)),
                ),
            },
        ),
        writes(
            replied@,
            ref_json(websocket::slice_option(join_ref)),
            ref_json(websocket::slice_option(msg_ref)),
            Json::Text(topic@),
            Json::Text("phx_reply"@),
            Json::Object(
                Map::<Seq<char>, Json>::empty().insert("status"@, Json::Text(status@)).insert(
                    "response"@,
                    match json::json_parsed(payload@) {
                        Some(j) => j,
                        None => Json::Object(Map::empty()),
                    },
                ),
            ),
        ),
{
}

/// The V2 serializer reads an array of five items of which the third and the fourth are strings,
/// the topic and the event; the first two are references, and the last one is the payload as it
/// is written. It reads nothing else.
pub proof fn law_five_items_are_read(
    v2: &V2JsonSerializer,
    data: &[u8],
    r: Option<DecodedMessage>,
)
    requires
        call_ensures(V2JsonSerializer::decode, (v2, data), r),
    ensures
        r matches Some(m) ==> valid_utf8(data@) && (json::json_parsed(data@) matches Some(
            Json::Array(items),
        ) && items.len() == 5 && items[2] == Json::Text(m.topic@) && items[3] == Json::Text(
            m.event@,
        ) && m.payload@ == encode_utf8(json::json_text(items[4])) && text::str_option(m.join_ref)
            == (match items[0] {
            Json::Text(t) => Some(t),
            _ => None,
        }) && text::str_option(m.msg_ref) == (match items[1] {
            Json::Text(t) => Some(t),
            _ => None,
        })),
        r is None ==> !valid_utf8(data@) || (match json::json_parsed(data@) {
            Some(Json::Array(items)) => items.len() != 5 || !(items[2] is Text) || !(
            items[3] is Text),
            _ => true,
        }),
{
}

/// A message of the protocol is its five items in this order, and is read from them.
pub proof fn law_message_is_five_items(
    m: &PhxMessage,
    v: Value,
    w: &Value,
    back: Option<PhxMessage>,
)
    requires
        call_ensures(PhxMessage::to_json, (m,), v),
        json::json_of(*w) == json::json_of(v),
        call_ensures(PhxMessage::from_json, (w,), back),
    ensures
        json::json_of(v) == Json::Array(
            seq![
                ref_json(m@.join_ref),
                ref_json(m@.msg_ref),
                Json::Text(m@.topic),
                Json::Text(m@.event),
                m@.payload,
            ],
        ),
        back matches Some(b) && b@ == m@,
{
    websocket::law_message_reads_back(m@);
}

/// Over a transport, a heartbeat is answered with its reference, and changes nothing.
pub proof fn law_heartbeat_is_answered(
    server: &mut ChannelServer,
    msg: &TransportMessage,
    timestamp: u64,
    count: u64,
    r: MessageStep,
)
    requires
        old(server).wf(),
        msg.event@ == "heartbeat"@,
        msg.topic@ == "phoenix"@,
        call_ensures(transport::handle_message, (server, msg, timestamp, count), r),
    ensures
        *final(server) == *old(server),
        r matches MessageStep::Answer { reply, left } && left is None && (
        reply matches TransportReply::Reply { join_ref, msg_ref, topic, status, payload }
            && join_ref is None && text::str_option(msg_ref) == text::str_option(msg.msg_ref)
            && topic@ == "phoenix"@ && status@ == "ok"@ && payload@ == encode_utf8("{}"@)),
{
    lemma_requests();
}

/// An answer to a client reads back from its bytes. From its mailbox a client gets events, and no
/// other answers; over a WebSocket the channels get to see what is no answer at all.
pub proof fn law_only_events_are_forwarded<S: Serializer>(
    answer: &ChannelReply,
    bytes: Vec<u8>,
    data: &[u8],
    back: Option<ChannelReply>,
    forwarded: Option<TransportReply>,
    session: &WsSession,
    serializer: &S,
    other: &[u8],
    read: Option<ChannelReply>,
    step: MailboxStep,
    forwarded_other: MailboxStep,
)
    requires
        session.wf(),
        call_ensures(ChannelReply::encode, (answer,), bytes),
        data@ == bytes@,
        call_ensures(ChannelReply::decode, (data,), back),
        call_ensures(transport::forward, (data,), forwarded),
        call_ensures(websocket::handle_mailbox::<S>, (session, serializer, data), step),
        call_ensures(ChannelReply::decode, (other,), read),
        call_ensures(websocket::handle_mailbox::<S>, (session, serializer, other), forwarded_other),
    ensures
        back matches Some(b) && b@ == answer@,
        forwarded is Some <==> answer is Push,
        step is Forward <==> answer is Push,
        step is Ignore <==> !(answer is Push),
        read is None <==> forwarded_other is Inform,
{
    match forwarded {
        Some(f) => {
            assert(transport::transport_option(forwarded) == Some(f@));
        },
        None => {},
    }
}

/// An event that no channel handles is answered with an error, and nothing is sent.
pub proof fn law_missing_channel_is_an_error<S: Serializer>(
    session: &mut WsSession,
    serializer: &S,
    msg: &DecodedMessage,
    members: &Vec<Pid>,
    r: (Option<Vec<u8>>, Vec<(Pid, Vec<u8>)>, Option<Socket>),
)
    requires
        old(session).wf(),
        call_ensures(
            websocket::event_reply::<S>,
            (session, serializer, msg, None::<RawHandleResult>, members),
            r,
        ),
    ensures
        *final(session) == *old(session),
        r.0 matches Some(bytes) && bytes@ == serializer.reply_bytes(
            old(session).ref_of(msg@.topic),
            msg@.msg_ref,
            msg@.topic,
            "error"@,
            reason_json("handler error"@),
        ),
        r.1@.len() == 0,
        r.2 is None,
{
    assert(channels::sends(r.1@).len() == r.1@.len());
    match r.0 {
        Some(bytes) => {
            assert(websocket::bytes_option(r.0) == Some(bytes@));
        },
        None => {},
    }
}

/// Over a WebSocket, an admission makes the client a joiner of the topic, with the reference that
/// it gave the join, until it leaves; then the topic is not joined and has no reference.
pub proof fn law_socket_join_lasts_until_it_leaves(
    s: &mut WsSession,
    socket: Socket,
    join_ref: Option<String>,
    payload: Option<Vec<u8>>,
    r: (Result<Option<Vec<u8>>, JoinError>, Option<String>),
    mid: &WsSession,
    topic: &str,
    joined: bool,
    given: Option<String>,
    t: &mut WsSession,
    left: Option<Socket>,
    other: Seq<char>,
)
    requires
        old(s).wf(),
        socket@.pid == old(s).pid(),
        !old(s).joined().contains_key(socket@.topic),
        topic@ == socket@.topic,
        other != topic@,
        call_ensures(
            WsSession::complete_join,
            (s, socket, join_ref, Ok::<Option<Vec<u8>>, JoinError>(payload)),
            r,
        ),
        *mid == *final(s),
        call_ensures(WsSession::is_joined, (mid, topic), joined),
        call_ensures(WsSession::get_join_ref, (mid, topic), given),
        *old(t) == *final(s),
        call_ensures(WsSession::handle_leave, (t, topic), left),
    ensures
        joined,
        text::str_option(given) == text::str_option(join_ref),
        r.0 == Ok::<Option<Vec<u8>>, JoinError>(payload),
        r.1 matches Some(group) && group@ == "channel:"@ + topic@,
        left matches Some(l) && l@ == socket@,
        !final(t).joined().contains_key(topic@),
        !final(t).refs().contains_key(topic@),
        final(t).joined().contains_key(other) == old(s).joined().contains_key(other),
        final(s).joined().contains_key(other) == old(s).joined().contains_key(other),
{
}

/// A refused join over a WebSocket changes nothing, and hands the refusal on.
pub proof fn law_refused_socket_join_changes_nothing(
    s: &mut WsSession,
    socket: Socket,
    join_ref: Option<String>,
    refusal: JoinError,
    r: (Result<Option<Vec<u8>>, JoinError>, Option<String>),
)
    requires
        old(s).wf(),
        socket@.pid == old(s).pid(),
        !old(s).joined().contains_key(socket@.topic),
        call_ensures(
            WsSession::complete_join,
            (s, socket, join_ref, Err::<Option<Vec<u8>>, JoinError>(refusal)),
            r,
        ),
    ensures
        *final(s) == *old(s),
        r.0 == Err::<Option<Vec<u8>>, JoinError>(refusal),
        r.1 is None,
{
}

/// Parameters as a query writes them: each key, an equals sign and the value, with an ampersand
/// between two of them.
pub open spec fn query_of(pairs: Seq<(Seq<char>, Seq<char>)>) -> Seq<char>
    decreases pairs.len(),
{
    if pairs.len() == 0 {
        Seq::empty()
    } else if pairs.len() == 1 {
        pairs[0].0 + seq!['='] + pairs[0].1
    } else {
        pairs[0].0 + seq!['='] + pairs[0].1 + seq!['&'] + query_of(pairs.drop_first())
    }
}

/// Whether parameters can be told apart in a query.
pub open spec fn is_clean(pairs: Seq<(Seq<char>, Seq<char>)>) -> bool {
    forall|i: int|
        0 <= i < pairs.len() ==> !(#[trigger] pairs[i]).0.contains('=') && !pairs[i].0.contains(
            '&',
        ) && !pairs[i].1.contains('&')
}

/// A parameter as a query writes it.
spec fn written(pair: (Seq<char>, Seq<char>)) -> Seq<char> {
    pair.0 + seq!['='] + pair.1
}

proof fn lemma_pieces(pairs: Seq<(Seq<char>, Seq<char>)>)
    requires
        pairs.len() > 0,
        is_clean(pairs),
    ensures
        websocket::pieces(query_of(pairs), '&') == Seq::new(
            pairs.len(),
            |i: int| written(pairs[i]),
        ),
    decreases pairs.len(),
{
    let q = query_of(pairs);
    let first = written(pairs[0]);
    let n: int = first.len() as int;
    assert(!pairs[0].0.contains('&') && !pairs[0].1.contains('&'));
    assert forall|j: int| 0 <= j < n implies first[j] != '&' by {
        let k = pairs[0].0;
        let v = pairs[0].1;
        if j < k.len() {
            assert(k[j] == first[j]);
            assert(k.contains(k[j]));
        } else if j > k.len() {
            assert(v[j - k.len() - 1] == first[j]);
            assert(v.contains(v[j - k.len() - 1]));
        }
    }
    if pairs.len() == 1 {
        assert(q == first);
        if q.contains('&') {
            let j = choose|j: int| 0 <= j < q.len() && q[j] == '&';
            assert(first[j] != '&');
        }
        assert(websocket::pieces(q, '&') =~= Seq::new(pairs.len(), |i: int| written(pairs[i])));
    } else {
        let rest = pairs.drop_first();
        assert(is_clean(rest)) by {
            assert forall|i: int| 0 <= i < rest.len() implies !(#[trigger] rest[i]).0.contains('=')
                && !rest[i].0.contains('&') && !rest[i].1.contains('&') by {
                assert(rest[i] == pairs[i + 1]);
            }
        }
        lemma_pieces(rest);
        assert(q =~= first + seq!['&'] + query_of(rest));
        assert(q[n] == '&');
        assert forall|j: int| 0 <= j < n implies q[j] != '&' by {
            assert(q[j] == first[j]);
        }
        assert(text::first_at(q, '&', n));
        text::lemma_cut(q, '&', n);
        assert(q.take(n) =~= first);
        assert(q.skip(n + 1) =~= query_of(rest));
        assert(q.contains('&'));
        assert(websocket::pieces(q, '&') == seq![first] + websocket::pieces(query_of(rest), '&'));
        assert(websocket::pieces(q, '&') =~= Seq::new(pairs.len(), |i: int| written(pairs[i])));
    }
}

proof fn lemma_params(pairs: Seq<(Seq<char>, Seq<char>)>, key: Seq<char>, i: int)
    requires
        is_clean(pairs),
        -1 <= i < pairs.len(),
        i >= 0 ==> pairs[i].0 == key,
        forall|j: int| i < j < pairs.len() ==> (#[trigger] pairs[j]).0 != key,
    ensures
        ({
            let m = websocket::params_of(Seq::new(pairs.len(), |i: int| written(pairs[i])));
            &&& m.contains_key(key) <==> i >= 0
            &&& i >= 0 ==> m[key] == pairs[i].1
        }),
    decreases pairs.len(),
{
    let w = Seq::new(pairs.len(), |i: int| written(pairs[i]));
    if pairs.len() > 0 {
        let rest = pairs.drop_last();
        let last = pairs.last();
        let text = written(last);
        let n: int = last.0.len() as int;
        assert(pairs[pairs.len() - 1] == last);
        assert(!last.0.contains('='));
        assert forall|j: int| 0 <= j < n implies text[j] != '=' by {
            assert(text[j] == last.0[j]);
            assert(last.0.contains(last.0[j]));
        }
        assert(text[n] == '=');
        assert(text::first_at(text, '=', n));
        text::lemma_cut(text, '=', n);
        assert(text.take(n) =~= last.0);
        assert(text.skip(n + 1) =~= last.1);
        assert(w.drop_last() =~= Seq::new(rest.len(), |i: int| written(rest[i])));
        assert(w.last() == text);
        assert(is_clean(rest)) by {
            assert forall|i: int| 0 <= i < rest.len() implies !(#[trigger] rest[i]).0.contains('=')
                && !rest[i].0.contains('&') && !rest[i].1.contains('&') by {
                assert(rest[i] == pairs[i]);
            }
        }
        if i < pairs.len() - 1 {
            assert forall|j: int| i < j < rest.len() implies (#[trigger] rest[j]).0 != key by {
                assert(rest[j] == pairs[j]);
            }
            lemma_params(rest, key, i);
        }
    }
}

/// The parameters of a query are read as they are written: a key has the value that is given last
/// for it, and one that is not there has none. The version that is asked for is the value of its
/// key.
pub proof fn law_query_reads_back(
    uri: &str,
    base: Seq<char>,
    pairs: Seq<(Seq<char>, Seq<char>)>,
    r: Table<String, String>,
    version: Option<String>,
    key: Seq<char>,
    i: int,
)
    requires
        uri@ == base + seq!['?'] + query_of(pairs),
        !base.contains('?'),
        pairs.len() > 0,
        is_clean(pairs),
        call_ensures(websocket::parse_query_params, (uri,), r),
        call_ensures(websocket::negotiated_version, (uri,), version),
        -1 <= i < pairs.len(),
        i >= 0 ==> pairs[i].0 == key,
        forall|j: int| i < j < pairs.len() ==> (#[trigger] pairs[j]).0 != key,
    ensures
        r@.contains_key(key) <==> i >= 0,
        i >= 0 ==> r@[key]@ == pairs[i].1,
        key == "vsn"@ ==> text::str_option(version) == (if i >= 0 {
            Some(pairs[i].1)
        } else {
            None
        }),
{
    let n: int = base.len() as int;
    let u = uri@;
    assert forall|j: int| 0 <= j < n implies u[j] != '?' by {
        assert(u[j] == base[j]);
        assert(base.contains(base[j]));
    }
    assert(u[n] == '?');
    assert(text::first_at(u, '?', n));
    text::lemma_cut(u, '?', n);
    assert(u.skip(n + 1) =~= query_of(pairs));
    lemma_pieces(pairs);
    lemma_params(pairs, key, i);
    let m = websocket::string_table(r);
    assert(m.contains_key(key) == r@.contains_key(key));
}

/// A serializer that is registered for a version is what the version gets; a version without one
/// gets what the default has.
pub proof fn law_registered_version_is_served<S>(
    registry: SerializerRegistry<S>,
    version: &str,
    serializer: S,
    after: SerializerRegistry<S>,
    view: &SerializerRegistry<S>,
    got: Option<&S>,
    other: Option<&str>,
    served: Option<&S>,
)
    requires
        registry.wf(),
        call_ensures(SerializerRegistry::<S>::register, (registry, version, serializer), after),
        *view == after,
        call_ensures(SerializerRegistry::<S>::get, (view, Some(version)), got),
        call_ensures(SerializerRegistry::<S>::get, (view, other), served),
    ensures
        got matches Some(s) && *s == serializer,
        (other matches Some(o) ==> !after.known().contains_key(o@)) && after.fallback() == version@
            ==> (served matches Some(s) && *s == serializer),
{
}

/// A pattern without a wildcard takes its own topic and no other.
pub proof fn law_plain_pattern_takes_its_topic(pattern: Seq<char>, topic: Seq<char>)
    requires
        pattern.len() == 0 || pattern.last() != '*',
    ensures
        channels::matches(pattern, topic) <==> pattern == topic,
{
}

} // verus!
