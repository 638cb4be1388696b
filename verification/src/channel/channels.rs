//! Joining topics, handling events and broadcasting.
//!
//! What a channel does with an event stands outside, in its handler. Here stand the decisions
//! around it: who may join, what is answered, and who is sent what.

use vstd::prelude::*;

use crate::process::{Pid, PidView};
use crate::table;
use crate::table::{Key, Table};
use crate::wire;

verus! {

/// A joined client: its process, the topic, and the reference of the join.
#[derive(Debug)]
pub struct Socket {
    /// The client's process.
    pub pid: Pid,
    /// The topic joined.
    pub topic: String,
    /// The unique reference of the join.
    pub join_ref: String,
}

/// What a socket stands for.
pub struct SocketView {
    /// The client's process.
    pub pid: PidView,
    /// The topic joined.
    pub topic: Seq<char>,
    /// The unique reference of the join.
    pub join_ref: Seq<char>,
}

impl View for Socket {
    type V = SocketView;

    open spec fn view(&self) -> SocketView {
        SocketView { pid: self.pid@, topic: self.topic@, join_ref: self.join_ref@ }
    }
}

/// The reference of the `count`-th join, made at `timestamp`.
pub open spec fn join_reference(timestamp: u64, count: u64) -> Seq<char> {
    crate::text::hexadecimal(timestamp as nat) + "-"@ + crate::text::hexadecimal(count as nat)
}

impl Socket {
    /// A socket whose reference is made of the time, in nanoseconds, and the number of joins
    /// so far.
    pub fn new(pid: Pid, topic: &str, timestamp: u64, count: u64) -> (r: Self)
        ensures
            r@ == (SocketView {
                pid: pid@,
                topic: topic@,
                join_ref: join_reference(timestamp, count),
            }),
    {
        let a = crate::text::hexadecimal_string(timestamp);
        let b = crate::text::hexadecimal_string(count);
        let join_ref = crate::text::join3(a.as_str(), "-", b.as_str());
        Socket { pid, topic: topic.to_owned(), join_ref }
    }
}

impl Clone for Socket {
    fn clone(&self) -> (r: Self)
        ensures
            r@ == self@,
    {
        Socket {
            pid: self.pid.clone(),
            topic: self.topic.clone(),
            join_ref: self.join_ref.clone(),
        }
    }
}

/// The result of a channel's join.
pub enum JoinResult<C> {
    /// The client may join.
    Joined(C),
    /// The client may join and is sent the payload.
    OkReply(C, Vec<u8>),
    /// The client may not join.
    Error(JoinError),
}

/// Why a join was refused.
pub struct JoinError {
    /// The reason.
    pub reason: String,
    /// More about it.
    pub details: Option<Table<String, String>>,
}

impl JoinError {
    /// A refusal with a reason.
    pub fn new(reason: &str) -> (r: Self)
        ensures
            r.reason@ == reason@,
            r.details is None,
    {
        JoinError { reason: reason.to_owned(), details: None }
    }

    /// The refusal with details.
    pub fn with_details(self, details: Table<String, String>) -> (r: Self)
        ensures
            r.reason == self.reason,
            r.details == Some(details),
    {
        JoinError { reason: self.reason, details: Some(details) }
    }
}

/// Whether a reply reports success.
#[derive(Debug, Clone, Copy, PartialEq, Eq, Structural)]
pub enum ReplyStatus {
    /// Success.
    Okay,
    /// An error.
    Error,
}

/// How a status is written in a reply.
pub open spec fn status_text(status: ReplyStatus) -> Seq<char> {
    match status {
        ReplyStatus::Okay => "ok"@,
        ReplyStatus::Error => "error"@,
    }
}

impl ReplyStatus {
    /// How the status is written in a reply.
    pub fn text(self) -> (r: &'static str)
        ensures
            r@ == status_text(self),
    {
        match self {
            ReplyStatus::Okay => "ok",
            ReplyStatus::Error => "error",
        }
    }
}

/// The result of handling an event, its payload of type `O`.
pub enum HandleResult<O> {
    /// Nothing is answered.
    NoReply,
    /// The client gets a reply.
    Reply {
        /// Whether it reports success.
        status: ReplyStatus,
        /// The payload.
        payload: O,
    },
    /// The client gets a reply, its payload already encoded.
    ReplyRaw {
        /// Whether it reports success.
        status: ReplyStatus,
        /// The encoded payload.
        payload: Vec<u8>,
    },
    /// Everyone in the topic gets an event.
    Broadcast {
        /// The event.
        event: String,
        /// The payload.
        payload: O,
    },
    /// Everyone in the topic but the client gets an event.
    BroadcastFrom {
        /// The event.
        event: String,
        /// The payload.
        payload: O,
    },
    /// The client gets an event.
    Push {
        /// The event.
        event: String,
        /// The payload.
        payload: O,
    },
    /// The client gets an event, its payload already encoded.
    PushRaw {
        /// The event.
        event: String,
        /// The encoded payload.
        payload: Vec<u8>,
    },
    /// The client leaves the topic.
    Stop {
        /// Why.
        reason: String,
    },
}

/// Why a channel ends.
pub enum TerminateReason {
    /// A normal end.
    Normal,
    /// The client left.
    Left,
    /// The connection was closed.
    Closed,
    /// The server shuts down.
    Shutdown(String),
    /// An error.
    Error(String),
}

/// The result of handling an event, its payload encoded.
pub enum RawHandleResult {
    /// Nothing is answered.
    NoReply,
    /// The client gets a reply.
    Reply {
        /// Whether it reports success.
        status: ReplyStatus,
        /// The encoded payload.
        payload: Vec<u8>,
    },
    /// Everyone in the topic gets an event.
    Broadcast {
        /// The event.
        event: String,
        /// The encoded payload.
        payload: Vec<u8>,
    },
    /// Everyone in the topic but the client gets an event.
    BroadcastFrom {
        /// The event.
        event: String,
        /// The encoded payload.
        payload: Vec<u8>,
    },
    /// The client gets an event.
    Push {
        /// The event.
        event: String,
        /// The encoded payload.
        payload: Vec<u8>,
    },
    /// The client leaves the topic.
    Stop {
        /// Why.
        reason: String,
    },
}

/// Turns a result into one with an encoded payload. `None` stands for a payload that could not
/// be encoded: nothing is answered then.
pub fn handle_result_to_raw(result: HandleResult<Option<Vec<u8>>>) -> (r: RawHandleResult)
    ensures
        r == (match result {
            HandleResult::NoReply => RawHandleResult::NoReply,
            HandleResult::Reply { status, payload: Some(payload) } => RawHandleResult::Reply {
                status,
                payload,
            },
            HandleResult::ReplyRaw { status, payload } => RawHandleResult::Reply {
                status,
                payload,
            },
            HandleResult::Broadcast { event, payload: Some(payload) } => {
                RawHandleResult::Broadcast { event, payload }
            },
            HandleResult::BroadcastFrom { event, payload: Some(payload) } => {
                RawHandleResult::BroadcastFrom { event, payload }
            },
            HandleResult::Push { event, payload: Some(payload) } => RawHandleResult::Push {
                event,
                payload,
            },
            HandleResult::PushRaw { event, payload } => RawHandleResult::Push { event, payload },
            HandleResult::Stop { reason } => RawHandleResult::Stop { reason },
            _ => RawHandleResult::NoReply,
        }),
{
    match result {
        HandleResult::NoReply => RawHandleResult::NoReply,
        HandleResult::Reply { status, payload } => match payload {
            Some(payload) => RawHandleResult::Reply { status, payload },
            None => RawHandleResult::NoReply,
        },
        HandleResult::ReplyRaw { status, payload } => RawHandleResult::Reply { status, payload },
        HandleResult::Broadcast { event, payload } => match payload {
            Some(payload) => RawHandleResult::Broadcast { event, payload },
            None => RawHandleResult::NoReply,
        },
        HandleResult::BroadcastFrom { event, payload } => match payload {
            Some(payload) => RawHandleResult::BroadcastFrom { event, payload },
            None => RawHandleResult::NoReply,
        },
        HandleResult::Push { event, payload } => match payload {
            Some(payload) => RawHandleResult::Push { event, payload },
            None => RawHandleResult::NoReply,
        },
        HandleResult::PushRaw { event, payload } => RawHandleResult::Push { event, payload },
        HandleResult::Stop { reason } => RawHandleResult::Stop { reason },
    }
}

/// Whether a pattern ends in a wildcard.
pub open spec fn has_wildcard(pattern: Seq<char>) -> bool {
    pattern.len() > 0 && pattern.last() == '*'
}

/// Whether a topic matches a pattern: with a wildcard at its end the pattern is a prefix of the
/// topic, else it is the topic.
pub open spec fn matches(pattern: Seq<char>, topic: Seq<char>) -> bool {
    if has_wildcard(pattern) {
        pattern.drop_last().is_prefix_of(topic)
    } else {
        pattern == topic
    }
}

/// Whether a topic matches a pattern.
pub fn topic_matches(pattern: &str, topic: &str) -> (r: bool)
    ensures
        r == matches(pattern@, topic@),
{
    match crate::text::strip_last(pattern, '*') {
        Some(prefix) => crate::text::begins_with(topic, prefix),
        None => crate::text::same_str(pattern, topic),
    }
}

/// The part of a topic that a pattern's wildcard stands for.
pub fn topic_wildcard<'a>(pattern: &str, topic: &'a str) -> (r: Option<&'a str>)
    ensures
        match r {
            Some(rest) => has_wildcard(pattern@) && matches(pattern@, topic@) && rest@
                == topic@.skip(pattern@.len() - 1),
            None => !(has_wildcard(pattern@) && matches(pattern@, topic@)),
        },
{
    match crate::text::strip_last(pattern, '*') {
        Some(prefix) => crate::text::strip_front(topic, prefix),
        None => None,
    }
}

/// A wildcard pattern matches exactly the topics that consist of its prefix and anything else,
/// and the wildcard stands for that.
pub proof fn law_wildcard_stands_for_the_rest(prefix: Seq<char>, rest: Seq<char>, topic: Seq<char>)
    ensures
        matches(prefix.push('*'), prefix + rest),
        (prefix + rest).skip(prefix.push('*').len() - 1) == rest,
        matches(prefix.push('*'), topic) ==> topic == prefix + topic.skip(prefix.len() as int),
{
    assert(prefix.push('*').drop_last() =~= prefix);
    assert((prefix + rest).take(prefix.len() as int) =~= prefix);
    assert((prefix + rest).skip(prefix.len() as int) =~= rest);
    if matches(prefix.push('*'), topic) {
        assert(topic =~= prefix + topic.skip(prefix.len() as int));
    }
}

/// A message to or from a client.
pub struct Message {
    /// The topic.
    pub topic: String,
    /// The event.
    pub event: String,
    /// The encoded payload.
    pub payload: Vec<u8>,
    /// The reference by which a reply is matched.
    pub msg_ref: Option<String>,
    /// The reference of the join.
    pub join_ref: Option<String>,
}

impl Message {
    /// A message without references.
    pub fn new(topic: &str, event: &str, payload: Vec<u8>) -> (r: Self)
        ensures
            r.topic@ == topic@,
            r.event@ == event@,
            r.payload == payload,
            r.msg_ref is None,
            r.join_ref is None,
    {
        Message {
            topic: topic.to_owned(),
            event: event.to_owned(),
            payload,
            msg_ref: None,
            join_ref: None,
        }
    }

    /// The message with a reference.
    pub fn with_ref(self, msg_ref: String) -> (r: Self)
        ensures
            r == (Message { msg_ref: Some(msg_ref), ..self }),
    {
        Message { msg_ref: Some(msg_ref), ..self }
    }

    /// The message with the reference of a join.
    pub fn with_join_ref(self, join_ref: String) -> (r: Self)
        ensures
            r == (Message { join_ref: Some(join_ref), ..self }),
    {
        Message { join_ref: Some(join_ref), ..self }
    }
}

/// What a server's answer to a client stands for.
pub enum ReplyView {
    /// The client has joined.
    JoinOk {
        /// The reference of the request.
        msg_ref: Seq<char>,
        /// What it is sent.
        payload: Option<Seq<u8>>,
    },
    /// The client may not join.
    JoinError {
        /// The reference of the request.
        msg_ref: Seq<char>,
        /// Why.
        reason: Seq<char>,
    },
    /// The reply to an event.
    Reply {
        /// The reference of the event.
        msg_ref: Seq<char>,
        /// Whether it reports success.
        status: Seq<char>,
        /// The encoded payload.
        payload: Seq<u8>,
    },
    /// An event for the client.
    Push {
        /// The topic.
        topic: Seq<char>,
        /// The event.
        event: Seq<char>,
        /// The encoded payload.
        payload: Seq<u8>,
    },
}

/// A server's answer to a client.
pub enum ChannelReply {
    /// The client has joined.
    JoinOk {
        /// The reference of the request.
        msg_ref: String,
        /// What it is sent.
        payload: Option<Vec<u8>>,
    },
    /// The client may not join.
    JoinError {
        /// The reference of the request.
        msg_ref: String,
        /// Why.
        reason: String,
    },
    /// The reply to an event.
    Reply {
        /// The reference of the event.
        msg_ref: String,
        /// Whether it reports success.
        status: String,
        /// The encoded payload.
        payload: Vec<u8>,
    },
    /// An event for the client.
    Push {
        /// The topic.
        topic: String,
        /// The event.
        event: String,
        /// The encoded payload.
        payload: Vec<u8>,
    },
}

impl View for ChannelReply {
    type V = ReplyView;

    open spec fn view(&self) -> ReplyView {
        match *self {
            ChannelReply::JoinOk { msg_ref, payload } => ReplyView::JoinOk {
                msg_ref: msg_ref@,
                payload: match payload {
                    Some(p) => Some(p@),
                    None => None,
                },
            },
            ChannelReply::JoinError { msg_ref, reason } => ReplyView::JoinError {
                msg_ref: msg_ref@,
                reason: reason@,
            },
            ChannelReply::Reply { msg_ref, status, payload } => ReplyView::Reply {
                msg_ref: msg_ref@,
                status: status@,
                payload: payload@,
            },
            ChannelReply::Push { topic, event, payload } => ReplyView::Push {
                topic: topic@,
                event: event@,
                payload: payload@,
            },
        }
    }
}

/// An answer in bytes: its variant, then its fields.
pub open spec fn reply_wire(r: ReplyView) -> Seq<u8> {
    match r {
        ReplyView::JoinOk { msg_ref, payload: None } => wire::postcard_u32(0) + wire::postcard_str(
            msg_ref,
        ) + wire::postcard_u8(0),
        ReplyView::JoinOk { msg_ref, payload: Some(p) } => wire::postcard_u32(0)
            + wire::postcard_str(msg_ref) + wire::postcard_u8(1) + wire::postcard_bytes(p),
        ReplyView::JoinError { msg_ref, reason } => wire::postcard_u32(1) + wire::postcard_str(
            msg_ref,
        ) + wire::postcard_str(reason),
        ReplyView::Reply { msg_ref, status, payload } => wire::postcard_u32(2)
            + wire::postcard_str(msg_ref) + wire::postcard_str(status) + wire::postcard_bytes(
            payload,
        ),
        ReplyView::Push { topic, event, payload } => wire::postcard_u32(3) + wire::postcard_str(
            topic,
        ) + wire::postcard_str(event) + wire::postcard_bytes(payload),
    }
}

/// The answer that some bytes begin with.
pub open spec fn reply_read(b: Seq<u8>) -> Option<ReplyView> {
    match wire::postcard_take_u32(b) {
        None => None,
        Some((kind, b0)) => match wire::postcard_take_str(b0) {
            None => None,
            Some((first, b1)) => if kind == 0 {
                match wire::postcard_take_u8(b1) {
                    None => None,
                    Some((has, b2)) => if has == 0 {
                        Some(ReplyView::JoinOk { msg_ref: first, payload: None })
                    } else if has == 1 {
                        match wire::postcard_take_bytes(b2) {
                            None => None,
                            Some((p, _)) => Some(
                                ReplyView::JoinOk { msg_ref: first, payload: Some(p) },
                            ),
                        }
                    } else {
                        None
                    },
                }
            } else if kind == 1 {
                match wire::postcard_take_str(b1) {
                    None => None,
                    Some((reason, _)) => Some(ReplyView::JoinError { msg_ref: first, reason }),
                }
            } else if kind == 2 || kind == 3 {
                match wire::postcard_take_str(b1) {
                    None => None,
                    Some((second, b2)) => match wire::postcard_take_bytes(b2) {
                        None => None,
                        Some((payload, _)) => if kind == 2 {
                            Some(ReplyView::Reply { msg_ref: first, status: second, payload })
                        } else {
                            Some(ReplyView::Push { topic: first, event: second, payload })
                        },
                    },
                }
            } else {
                None
            },
        },
    }
}

impl ChannelReply {
    /// The answer in bytes, from which it reads back.
    pub fn encode(&self) -> (r: Vec<u8>)
        ensures
            r@ == reply_wire(self@),
            reply_read(r@) == Some(self@),
    {
        match self {
            ChannelReply::JoinOk { msg_ref, payload } => {
                let mut out = wire::put_u32(0);
                let ghost a = out@;
                let b = wire::put_str(msg_ref.as_str());
                wire::append_bytes(&mut out, b.as_slice());
                match payload {
                    None => {
                        let c = wire::put_u8(0);
                        wire::append_bytes(&mut out, c.as_slice());
                        assert(out@ =~= a + (b@ + c@));
                        assert(c@ + Seq::<u8>::empty() =~= c@);
                    },
                    Some(p) => {
                        let c = wire::put_u8(1);
                        let d = wire::put_bytes(p.as_slice());
                        wire::append_bytes(&mut out, c.as_slice());
                        wire::append_bytes(&mut out, d.as_slice());
                        assert(out@ =~= a + (b@ + (c@ + d@)));
                        assert(d@ + Seq::<u8>::empty() =~= d@);
                    },
                }
                out
            },
            ChannelReply::JoinError { msg_ref, reason } => {
                let mut out = wire::put_u32(1);
                let ghost a = out@;
                let b = wire::put_str(msg_ref.as_str());
                let c = wire::put_str(reason.as_str());
                wire::append_bytes(&mut out, b.as_slice());
                wire::append_bytes(&mut out, c.as_slice());
                assert(out@ =~= a + (b@ + c@));
                assert(c@ + Seq::<u8>::empty() =~= c@);
                out
            },
            ChannelReply::Reply { msg_ref, status, payload } => {
                let mut out = wire::put_u32(2);
                let ghost a = out@;
                let b = wire::put_str(msg_ref.as_str());
                let c = wire::put_str(status.as_str());
                let d = wire::put_bytes(payload.as_slice());
                wire::append_bytes(&mut out, b.as_slice());
                wire::append_bytes(&mut out, c.as_slice());
                wire::append_bytes(&mut out, d.as_slice());
                assert(out@ =~= a + (b@ + (c@ + d@)));
                assert(d@ + Seq::<u8>::empty() =~= d@);
                out
            },
            ChannelReply::Push { topic, event, payload } => {
                let mut out = wire::put_u32(3);
                let ghost a = out@;
                let b = wire::put_str(topic.as_str());
                let c = wire::put_str(event.as_str());
                let d = wire::put_bytes(payload.as_slice());
                wire::append_bytes(&mut out, b.as_slice());
                wire::append_bytes(&mut out, c.as_slice());
                wire::append_bytes(&mut out, d.as_slice());
                assert(out@ =~= a + (b@ + (c@ + d@)));
                assert(d@ + Seq::<u8>::empty() =~= d@);
                out
            },
        }
    }

    /// Reads an answer; `None` if the bytes are none.
    pub fn decode(data: &[u8]) -> (r: Option<Self>)
        ensures
            match r {
                Some(reply) => reply_read(data@) == Some(reply@),
                None => reply_read(data@) is None,
            },
    {
        let (kind, b0) = match wire::take_u32(data) {
            Ok(x) => x,
            Err(_) => {
                return None;
            },
        };
        let (first, b1) = match wire::take_str(b0) {
            Ok(x) => x,
            Err(_) => {
                return None;
            },
        };
        if kind == 0 {
            match wire::take_u8(b1) {
                Err(_) => None,
                Ok((has, b2)) => if has == 0 {
                    Some(ChannelReply::JoinOk { msg_ref: first, payload: None })
                } else if has == 1 {
                    match wire::take_bytes(b2) {
                        Err(_) => None,
                        Ok((p, _)) => Some(
                            ChannelReply::JoinOk { msg_ref: first, payload: Some(p) },
                        ),
                    }
                } else {
                    None
                },
            }
        } else if kind == 1 {
            match wire::take_str(b1) {
                Err(_) => None,
                Ok((reason, _)) => Some(ChannelReply::JoinError { msg_ref: first, reason }),
            }
        } else if kind == 2 || kind == 3 {
            match wire::take_str(b1) {
                Err(_) => None,
                Ok((second, b2)) => match wire::take_bytes(b2) {
                    Err(_) => None,
                    Ok((payload, _)) => if kind == 2 {
                        Some(ChannelReply::Reply { msg_ref: first, status: second, payload })
                    } else {
                        Some(ChannelReply::Push { topic: first, event: second, payload })
                    },
                },
            }
        } else {
            None
        }
    }
}

/// Messages to send, each with its receiver.
pub open spec fn sends(s: Seq<(Pid, Vec<u8>)>) -> Seq<(PidView, Seq<u8>)> {
    Seq::new(s.len(), |i: int| (s[i].0@, s[i].1@))
}

/// One message to each of `members`.
pub open spec fn to_each(members: Seq<PidView>, bytes: Seq<u8>) -> Seq<(PidView, Seq<u8>)> {
    members.map_values(|p: PidView| (p, bytes))
}

/// Whether a process is another than `pid`.
pub open spec fn other_than(pid: PidView) -> spec_fn(PidView) -> bool {
    |p: PidView| p != pid
}

/// The members other than `pid`.
pub open spec fn others(members: Seq<PidView>, pid: PidView) -> Seq<PidView> {
    members.filter(other_than(pid))
}

/// The event as the members of a topic get it.
pub open spec fn event_wire(topic: Seq<char>, event: Seq<char>, payload: Seq<u8>) -> Seq<u8> {
    reply_wire(ReplyView::Push { topic, event, payload })
}

/// The bytes, for each of `members`, or each but one.
pub fn send_to_each(members: &Vec<Pid>, except: Option<&Pid>, bytes: &Vec<u8>) -> (r: Vec<
    (Pid, Vec<u8>),
>)
    ensures
        sends(r@) == to_each(
            match except {
                Some(pid) => others(table::views(members@), pid@),
                None => table::views(members@),
            },
            bytes@,
        ),
{
    let ghost all = table::views(members@);
    let ghost keep = |p: PidView| except is None || p != except->0@;
    let mut out: Vec<(Pid, Vec<u8>)> = Vec::new();
    let mut i: usize = 0;
    proof {
        reveal(Seq::filter);
        assert(sends(out@) =~= to_each(all.take(0).filter(keep), bytes@));
    }
    while i < members.len()
        invariant
            i <= members@.len(),
            all == table::views(members@),
            keep == (|p: PidView| except is None || p != except->0@),
            sends(out@) == to_each(all.take(i as int).filter(keep), bytes@),
        decreases members@.len() - i,
    {
        let ghost o = out@;
        proof {
            assert(all.take(i + 1) =~= all.take(i as int).push(all[i as int]));
            all.take(i as int).lemma_filter_push(all[i as int], keep);
        }
        let skip = match except {
            Some(pid) => members[i].same(pid),
            None => false,
        };
        if !skip {
            out.push((members[i].clone(), crate::presence::crdt::copy_bytes(bytes)));
            assert(sends(out@) =~= sends(o).push((all[i as int], bytes@)));
            assert(to_each(all.take(i as int).filter(keep).push(all[i as int]), bytes@)
                =~= to_each(all.take(i as int).filter(keep), bytes@).push(
                (all[i as int], bytes@),
            ));
        }
        i = i + 1;
    }
    proof {
        assert(all.take(all.len() as int) =~= all);
        match except {
            Some(pid) => {
                crate::seqs::lemma_filter_agree(all, keep, other_than(pid@));
            },
            None => {
                crate::seqs::lemma_filter_all(all, keep);
            },
        }
    }
    out
}

/// The name of the process group of a topic.
pub open spec fn group_name(topic: Seq<char>) -> Seq<char> {
    "channel:"@ + topic
}

/// The name of the process group of a topic.
pub fn topic_group(topic: &str) -> (r: String)
    ensures
        r@ == group_name(topic@),
{
    crate::text::join2("channel:", topic)
}

/// The event, for the client behind a socket.
pub fn push(socket: &Socket, event: &str, payload: Vec<u8>) -> (r: (Pid, Vec<u8>))
    ensures
        r.0@ == socket.pid@,
        r.1@ == event_wire(socket.topic@, event@, payload@),
        reply_read(r.1@) == Some(
            (ReplyView::Push { topic: socket.topic@, event: event@, payload: payload@ }),
        ),
{
    let msg = ChannelReply::Push {
        topic: socket.topic.clone(),
        event: event.to_owned(),
        payload,
    };
    (socket.pid.clone(), msg.encode())
}

/// The event, for every member of the socket's topic.
pub fn broadcast(socket: &Socket, event: &str, payload: Vec<u8>, members: &Vec<Pid>) -> (r: Vec<
    (Pid, Vec<u8>),
>)
    ensures
        sends(r@) == to_each(
            table::views(members@),
            event_wire(socket.topic@, event@, payload@),
        ),
{
    broadcast_to_topic(socket.topic.as_str(), event, payload, members)
}

/// The event, for every member of the socket's topic but the client itself.
pub fn broadcast_from(socket: &Socket, event: &str, payload: Vec<u8>, members: &Vec<Pid>) -> (r:
    Vec<(Pid, Vec<u8>)>)
    ensures
        sends(r@) == to_each(
            others(table::views(members@), socket.pid@),
            event_wire(socket.topic@, event@, payload@),
        ),
{
    broadcast_to_topic_from(socket.topic.as_str(), &socket.pid, event, payload, members)
}

/// The event, for every member of a topic.
pub fn broadcast_to_topic(topic: &str, event: &str, payload: Vec<u8>, members: &Vec<Pid>) -> (r:
    Vec<(Pid, Vec<u8>)>)
    ensures
        sends(r@) == to_each(table::views(members@), event_wire(topic@, event@, payload@)),
{
    let msg = ChannelReply::Push { topic: topic.to_owned(), event: event.to_owned(), payload };
    let bytes = msg.encode();
    send_to_each(members, None, &bytes)
}

/// The event, for every member of a topic but one.
pub fn broadcast_to_topic_from(
    topic: &str,
    from_pid: &Pid,
    event: &str,
    payload: Vec<u8>,
    members: &Vec<Pid>,
) -> (r: Vec<(Pid, Vec<u8>)>)
    ensures
        sends(r@) == to_each(
            others(table::views(members@), from_pid@),
            event_wire(topic@, event@, payload@),
        ),
{
    let msg = ChannelReply::Push { topic: topic.to_owned(), event: event.to_owned(), payload };
    let bytes = msg.encode();
    send_to_each(members, Some(from_pid), &bytes)
}

/// A broadcast from a process reaches everyone that a broadcast reaches, but for the process.
pub proof fn law_broadcast_from_spares_the_sender(
    members: Seq<PidView>,
    from: PidView,
    bytes: Seq<u8>,
    to: PidView,
)
    ensures
        to_each(others(members, from), bytes).contains((to, bytes)) <==> to != from && to_each(
            members,
            bytes,
        ).contains((to, bytes)),
{
    let keep = other_than(from);
    let rest = others(members, from);
    let all = to_each(members, bytes);
    let some = to_each(rest, bytes);
    if some.contains((to, bytes)) {
        let i = choose|i: int| 0 <= i < some.len() && some[i] == (to, bytes);
        assert(rest[i] == to);
        members.lemma_filter_pred(keep, i);
        members.lemma_filter_contains_rev(keep, to);
        let j = choose|j: int| 0 <= j < members.len() && members[j] == to;
        assert(all[j] == (to, bytes));
    }
    if to != from && all.contains((to, bytes)) {
        let j = choose|j: int| 0 <= j < all.len() && all[j] == (to, bytes);
        assert(members[j] == to);
        members.lemma_filter_contains(keep, j);
        let i = choose|i: int| 0 <= i < rest.len() && rest[i] == to;
        assert(some[i] == (to, bytes));
    }
}

/// How payloads are written.
#[derive(Debug, Clone, Copy, PartialEq, Eq, Structural)]
pub enum PayloadFormat {
    /// As JSON.
    Json,
    /// As `postcard` writes them.
    Postcard,
}

/// A message to a channel server.
pub enum ChannelMessage {
    /// A client wants to join.
    Join {
        /// The topic.
        topic: String,
        /// The encoded payload.
        payload: Vec<u8>,
        /// The client's process.
        client_pid: Pid,
        /// The reference of the request.
        msg_ref: String,
    },
    /// An event from a client.
    Event {
        /// The topic.
        topic: String,
        /// The event.
        event: String,
        /// The encoded payload.
        payload: Vec<u8>,
        /// The reference of the event.
        msg_ref: String,
    },
    /// A client leaves.
    Leave {
        /// The topic.
        topic: String,
    },
    /// An event for everyone in a topic.
    Broadcast {
        /// The topic.
        topic: String,
        /// The event.
        event: String,
        /// The encoded payload.
        payload: Vec<u8>,
    },
}

} // verus!
