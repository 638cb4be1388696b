//! The channel server: the topics that one client has joined.
//!
//! The server decides; what the handlers and the process groups do stands outside. A handler is
//! known here by the pattern of the topics that it takes, and by its place among the handlers.

use vstd::prelude::*;

use crate::channel::channels;
use crate::channel::channels::{
    ChannelReply, JoinError, RawHandleResult, ReplyView, Socket, SocketView,
};
use crate::process::{Pid, PidView};
use crate::table;
use crate::table::Table;

verus! {

/// The server of one client.
pub struct ChannelServer {
    client_pid: Pid,
    handlers: Vec<String>,
    channels: Table<String, Socket>,
}

/// Whether handler `i` is the first one that takes a topic.
pub open spec fn is_first_match(patterns: Seq<Seq<char>>, topic: Seq<char>, i: int) -> bool {
    &&& 0 <= i < patterns.len()
    &&& channels::matches(patterns[i], topic)
    &&& forall|j: int| 0 <= j < i ==> !channels::matches(#[trigger] patterns[j], topic)
}

/// Whether no handler takes a topic.
pub open spec fn unmatched(patterns: Seq<Seq<char>>, topic: Seq<char>) -> bool {
    forall|j: int| 0 <= j < patterns.len() ==> !channels::matches(#[trigger] patterns[j], topic)
}

/// What is to be done about a join.
pub enum JoinStep {
    /// The client is answered this, and nothing else happens.
    Refused(ChannelReply),
    /// The handler at `handler` is asked; `complete_join` takes what it says.
    Ask {
        /// The handler's place.
        handler: usize,
        /// The socket of the join.
        socket: Socket,
    },
}

/// What is to be done once an event has been handled.
pub struct EventOutcome {
    /// What the client is answered.
    pub reply: Option<ChannelReply>,
    /// What is sent to whom.
    pub sends: Vec<(Pid, Vec<u8>)>,
    /// The channel that ends: it is told so, and the client leaves the topic's group.
    pub left: Option<Socket>,
}

/// The answer that a result asks for.
pub open spec fn answer_of(
    topic: Seq<char>,
    msg_ref: Seq<char>,
    result: RawHandleResult,
) -> Option<ReplyView> {
    match result {
        RawHandleResult::Reply { status, payload } => Some(
            ReplyView::Reply {
                msg_ref,
                status: channels::status_text(status),
                payload: payload@,
            },
        ),
        RawHandleResult::Push { event, payload } => Some(
            ReplyView::Push { topic, event: event@, payload: payload@ },
        ),
        _ => None,
    }
}

/// What a result sends to the members of a topic.
pub open spec fn sends_of(
    topic: Seq<char>,
    result: RawHandleResult,
    members: Seq<PidView>,
    client: PidView,
) -> Seq<(PidView, Seq<u8>)> {
    match result {
        RawHandleResult::Broadcast { event, payload } => channels::to_each(
            members,
            channels::event_wire(topic, event@, payload@),
        ),
        RawHandleResult::BroadcastFrom { event, payload } => channels::to_each(
            channels::others(members, client),
            channels::event_wire(topic, event@, payload@),
        ),
        _ => Seq::empty(),
    }
}

/// The view of an optional answer.
pub open spec fn reply_option(r: Option<ChannelReply>) -> Option<ReplyView> {
    match r {
        Some(reply) => Some(reply@),
        None => None,
    }
}

/// The view of an optional socket.
pub open spec fn socket_option(r: Option<Socket>) -> Option<SocketView> {
    match r {
        Some(socket) => Some(socket@),
        None => None,
    }
}

impl ChannelServer {
    /// The client.
    pub closed spec fn client(&self) -> PidView {
        self.client_pid@
    }

    /// The patterns of the handlers, in order.
    pub closed spec fn patterns(&self) -> Seq<Seq<char>> {
        table::views(self.handlers@)
    }

    /// The sockets of the topics joined.
    pub closed spec fn joined(&self) -> Map<Seq<char>, SocketView> {
        self.channels@.map_values(|s: Socket| s@)
    }

    /// The sockets in the order of the joins.
    pub closed spec fn sockets(&self) -> Seq<SocketView> {
        Seq::new(self.channels.rows@.len(), |i: int| self.channels.rows@[i].1@)
    }

    /// The server's invariant: a topic is filed under its own name, for the server's client.
    pub closed spec fn wf(&self) -> bool {
        &&& self.channels.wf()
        &&& forall|i: int|
            0 <= i < self.channels.rows@.len() ==> (#[trigger] self.channels.rows@[i]).1.topic@
                == self.channels.rows@[i].0@ && self.channels.rows@[i].1.pid@ == self.client_pid@
    }

    /// The sockets are those of the topics joined, each once.
    pub proof fn law_sockets(&self)
        requires
            self.wf(),
        ensures
            forall|i: int|
                0 <= i < self.sockets().len() ==> {
                    let s = #[trigger] self.sockets()[i];
                    &&& s.pid == self.client()
                    &&& self.joined().contains_key(s.topic)
                    &&& self.joined()[s.topic] == s
                },
            forall|topic: Seq<char>| #[trigger]
                self.joined().contains_key(topic) ==> exists|i: int|
                    0 <= i < self.sockets().len() && #[trigger] self.sockets()[i]
                        == self.joined()[topic] && self.sockets()[i].topic == topic,
            forall|i: int, j: int|
                0 <= i < self.sockets().len() && 0 <= j < self.sockets().len() && i != j
                    ==> #[trigger] self.sockets()[i].topic != #[trigger] self.sockets()[j].topic,
    {
        let rows = self.channels.rows@;
        assert forall|i: int| 0 <= i < self.sockets().len() implies {
            let s = #[trigger] self.sockets()[i];
            &&& s.pid == self.client()
            &&& self.joined().contains_key(s.topic)
            &&& self.joined()[s.topic] == s
        } by {
            table::lemma_row(rows, i);
            assert(rows[i].1.topic@ == rows[i].0@);
        }
        assert forall|topic: Seq<char>| #[trigger] self.joined().contains_key(topic) implies exists|
            i: int,
        |
            0 <= i < self.sockets().len() && #[trigger] self.sockets()[i] == self.joined()[topic]
                && self.sockets()[i].topic == topic by {
            assert(self.channels@.contains_key(topic));
            let i = table::lemma_key(rows, topic);
            table::lemma_row(rows, i);
            assert(rows[i].1.topic@ == rows[i].0@);
            assert(self.sockets()[i] == self.joined()[topic]);
        }
        assert forall|i: int, j: int|
            0 <= i < self.sockets().len() && 0 <= j < self.sockets().len() && i
                != j implies #[trigger] self.sockets()[i].topic
            != #[trigger] self.sockets()[j].topic by {
            assert(rows[i].1.topic@ == rows[i].0@);
            assert(rows[j].1.topic@ == rows[j].0@);
        }
    }

    /// A server without handlers and topics.
    pub fn new(client_pid: Pid) -> (r: Self)
        ensures
            r.wf(),
            r.client() == client_pid@,
            r.patterns() == Seq::<Seq<char>>::empty(),
            r.joined() == Map::<Seq<char>, SocketView>::empty(),
            r.sockets() == Seq::<SocketView>::empty(),
    {
        let r = ChannelServer { client_pid, handlers: Vec::new(), channels: Table::new() };
        assert(r.patterns() =~= Seq::<Seq<char>>::empty());
        assert(r.joined() =~= Map::<Seq<char>, SocketView>::empty());
        assert(r.sockets() =~= Seq::<SocketView>::empty());
        r
    }

    /// The client.
    pub fn client_pid(&self) -> (r: Pid)
        ensures
            r@ == self.client(),
    {
        self.client_pid.clone()
    }

    /// Adds a handler for the topics that match a pattern, behind those already there.
    pub fn add_handler(&mut self, pattern: String)
        requires
            old(self).wf(),
        ensures
            final(self).wf(),
            final(self).client() == old(self).client(),
            final(self).patterns() == old(self).patterns().push(pattern@),
            final(self).joined() == old(self).joined(),
            final(self).sockets() == old(self).sockets(),
    {
        self.handlers.push(pattern);
        assert(self.patterns() =~= old(self).patterns().push(pattern@));
        assert(self.sockets() =~= old(self).sockets());
    }

    /// The place of the first handler that takes a topic.
    pub fn find_handler(&self, topic: &str) -> (r: Option<usize>)
        ensures
            match r {
                Some(i) => is_first_match(self.patterns(), topic@, i as int),
                None => unmatched(self.patterns(), topic@),
            },
    {
        let mut i: usize = 0;
        while i < self.handlers.len()
            invariant
                i <= self.handlers@.len(),
                self.patterns() == table::views(self.handlers@),
                forall|j: int|
                    0 <= j < i ==> !channels::matches(#[trigger] self.patterns()[j], topic@),
            decreases self.handlers@.len() - i,
        {
            assert(self.patterns()[i as int] == self.handlers@[i as int]@);
            if channels::topic_matches(self.handlers[i].as_str(), topic) {
                return Some(i);
            }
            i = i + 1;
        }
        None
    }

    /// Whether the client has joined a topic.
    pub fn is_joined(&self, topic: &str) -> (r: bool)
        requires
            self.wf(),
        ensures
            r == self.joined().contains_key(topic@),
    {
        let key = topic.to_owned();
        self.channels.contains_key(&key)
    }

    /// The socket of a topic that the client has joined.
    pub fn socket(&self, topic: &str) -> (r: Option<Socket>)
        requires
            self.wf(),
        ensures
            socket_option(r) == (if self.joined().contains_key(topic@) {
                Some(self.joined()[topic@])
            } else {
                None
            }),
    {
        let key = topic.to_owned();
        match self.channels.get(&key) {
            Some(s) => Some(s.clone()),
            None => None,
        }
    }

    /// The topics joined, in the order of the joins.
    pub fn joined_topics(&self) -> (r: Vec<String>)
        requires
            self.wf(),
        ensures
            r@.len() == self.sockets().len(),
            forall|i: int| 0 <= i < r@.len() ==> #[trigger] r@[i]@ == self.sockets()[i].topic,
    {
        let mut out: Vec<String> = Vec::new();
        let mut i: usize = 0;
        while i < self.channels.rows.len()
            invariant
                self.wf(),
                i <= self.channels.rows@.len(),
                out@.len() == i,
                forall|j: int| 0 <= j < i ==> #[trigger] out@[j]@ == self.sockets()[j].topic,
            decreases self.channels.rows@.len() - i,
        {
            assert(self.channels.rows@[i as int].1.topic@ == self.channels.rows@[i as int].0@);
            out.push(self.channels.rows[i].0.clone());
            i = i + 1;
        }
        out
    }

    /// Decides about a join: a topic can be joined once, and only with a handler for it.
    pub fn handle_join(&self, topic: &str, msg_ref: String, timestamp: u64, count: u64) -> (r:
        JoinStep)
        requires
            self.wf(),
        ensures
            if self.joined().contains_key(topic@) {
                r matches JoinStep::Refused(reply) && reply@ == (ReplyView::JoinError {
                    msg_ref: msg_ref@,
                    reason: "already joined"@,
                })
            } else if unmatched(self.patterns(), topic@) {
                r matches JoinStep::Refused(reply) && reply@ == (ReplyView::JoinError {
                    msg_ref: msg_ref@,
                    reason: "no handler for topic: "@ + topic@,
                })
            } else {
                r matches JoinStep::Ask { handler, socket } && is_first_match(
                    self.patterns(),
                    topic@,
                    handler as int,
                ) && socket@ == (SocketView {
                    pid: self.client(),
                    topic: topic@,
                    join_ref: channels::join_reference(timestamp, count),
                })
            },
    {
        if self.is_joined(topic) {
            return JoinStep::Refused(
                ChannelReply::JoinError { msg_ref, reason: "already joined".to_owned() },
            );
        }
        match self.find_handler(topic) {
            None => JoinStep::Refused(
                ChannelReply::JoinError {
                    msg_ref,
                    reason: crate::text::join2("no handler for topic: ", topic),
                },
            ),
            Some(handler) => {
                let socket = Socket::new(self.client_pid.clone(), topic, timestamp, count);
                JoinStep::Ask { handler, socket }
            },
        }
    }

    /// Completes a join with what the handler said: an admission, with a payload or without,
    /// or a refusal. On an admission the client joins the group that is handed back.
    pub fn complete_join(
        &mut self,
        socket: Socket,
        msg_ref: String,
        outcome: Result<Option<Vec<u8>>, JoinError>,
    ) -> (r: (ChannelReply, Option<String>))
        requires
            old(self).wf(),
            socket@.pid == old(self).client(),
            !old(self).joined().contains_key(socket@.topic),
        ensures
            final(self).wf(),
            final(self).client() == old(self).client(),
            final(self).patterns() == old(self).patterns(),
            match outcome {
                Ok(payload) => {
                    &&& final(self).joined() == old(self).joined().insert(socket@.topic, socket@)
                    &&& final(self).sockets() == old(self).sockets().push(socket@)
                    &&& r.0 == (ChannelReply::JoinOk { msg_ref, payload })
                    &&& r.1 matches Some(group) && group@ == channels::group_name(socket@.topic)
                },
                Err(e) => {
                    &&& *final(self) == *old(self)
                    &&& r.0 == (ChannelReply::JoinError { msg_ref, reason: e.reason })
                    &&& r.1 is None
                },
            },
    {
        match outcome {
            Ok(payload) => {
                let group = channels::topic_group(socket.topic.as_str());
                let key = socket.topic.clone();
                let ghost before = self.channels;
                let ghost at = socket;
                self.channels.insert(key, socket);
                proof {
                    assert(self.joined() =~= old(self).joined().insert(at@.topic, at@));
                    assert(!before@.contains_key(at.topic@));
                    assert(self.sockets() =~= old(self).sockets().push(at@));
                }
                (ChannelReply::JoinOk { msg_ref, payload }, Some(group))
            },
            Err(e) => (ChannelReply::JoinError { msg_ref, reason: e.reason }, None),
        }
    }

    /// Leaves a topic. If the client had joined it, its socket is handed back: the channel is
    /// told that the client left, and the client leaves the topic's group.
    pub fn handle_leave(&mut self, topic: &str) -> (r: Option<Socket>)
        requires
            old(self).wf(),
        ensures
            final(self).wf(),
            final(self).client() == old(self).client(),
            final(self).patterns() == old(self).patterns(),
            final(self).joined() == old(self).joined().remove(topic@),
            socket_option(r) == (if old(self).joined().contains_key(topic@) {
                Some(old(self).joined()[topic@])
            } else {
                None
            }),
    {
        let key = topic.to_owned();
        let ghost before = self.channels.rows@;
        let r = self.channels.remove(&key);
        proof {
            assert(self.joined() =~= old(self).joined().remove(topic@));
            let after = self.channels.rows@;
            if old(self).channels@.contains_key(topic@) {
                let n = table::lemma_key(before, topic@);
                table::lemma_row(before, n);
                assert forall|i: int| 0 <= i < after.len() implies (#[trigger] after[i]).1.topic@
                    == after[i].0@ && after[i].1.pid@ == self.client_pid@ by {
                    let at = table::row_of(before, topic@);
                    let o = before[if i < at {
                        i
                    } else {
                        i + 1
                    }];
                    assert(after[i] == o);
                }
            }
        }
        r
    }

    /// Acts on what a channel made of an event. `members` are the members of the topic's group.
    /// Nothing happens if the client has not joined the topic.
    pub fn handle_event(
        &mut self,
        topic: &str,
        msg_ref: String,
        result: RawHandleResult,
        members: &Vec<Pid>,
    ) -> (r: EventOutcome)
        requires
            old(self).wf(),
        ensures
            final(self).wf(),
            final(self).client() == old(self).client(),
            final(self).patterns() == old(self).patterns(),
            if old(self).joined().contains_key(topic@) {
                &&& reply_option(r.reply) == answer_of(topic@, msg_ref@, result)
                &&& channels::sends(r.sends@) == sends_of(
                    topic@,
                    result,
                    table::views(members@),
                    old(self).client(),
                )
                &&& final(self).joined() == (if result is Stop {
                    old(self).joined().remove(topic@)
                } else {
                    old(self).joined()
                })
                &&& socket_option(r.left) == (if result is Stop {
                    Some(old(self).joined()[topic@])
                } else {
                    None
                })
            } else {
                &&& r.reply is None
                &&& r.sends@.len() == 0
                &&& r.left is None
                &&& *final(self) == *old(self)
            },
    {
        let mut reply: Option<ChannelReply> = None;
        let mut sends: Vec<(Pid, Vec<u8>)> = Vec::new();
        let mut left: Option<Socket> = None;
        proof {
            assert(channels::sends(sends@) =~= Seq::empty());
        }
        if self.is_joined(topic) {
            match result {
                RawHandleResult::NoReply => {},
                RawHandleResult::Reply { status, payload } => {
                    let status = status.text().to_owned();
                    reply = Some(ChannelReply::Reply { msg_ref, status, payload });
                },
                RawHandleResult::Broadcast { event, payload } => {
                    sends = channels::broadcast_to_topic(topic, event.as_str(), payload, members);
                },
                RawHandleResult::BroadcastFrom { event, payload } => {
                    sends =
                    channels::broadcast_to_topic_from(
                        topic,
                        &self.client_pid,
                        event.as_str(),
                        payload,
                        members,
                    );
                },
                RawHandleResult::Push { event, payload } => {
                    reply = Some(ChannelReply::Push { topic: topic.to_owned(), event, payload });
                },
                RawHandleResult::Stop { reason: _ } => {
                    left = self.handle_leave(topic);
                },
            }
        }
        EventOutcome { reply, sends, left }
    }

    /// Ends all channels, in the order of the joins: each is told so, and the client leaves
    /// each topic's group.
    pub fn terminate(&mut self) -> (r: Vec<Socket>)
        requires
            old(self).wf(),
        ensures
            final(self).wf(),
            final(self).client() == old(self).client(),
            final(self).patterns() == old(self).patterns(),
            final(self).joined() == Map::<Seq<char>, SocketView>::empty(),
            table::views(r@) == old(self).sockets(),
    {
        let mut taken: Table<String, Socket> = Table::new();
        std::mem::swap(&mut taken, &mut self.channels);
        let ghost rows = taken.rows@;
        let mut out: Vec<Socket> = Vec::new();
        let rows_exec = taken.rows;
        for row in it: rows_exec
            invariant
                it.seq() == rows,
                out@.len() == it.index(),
                forall|j: int| 0 <= j < it.index() ==> #[trigger] out@[j] == rows[j].1,
        {
            out.push(row.1);
        }
        proof {
            assert(table::views(out@) =~= old(self).sockets());
            assert(self.joined() =~= Map::<Seq<char>, SocketView>::empty());
        }
        out
    }
}

/// A client that is admitted to a topic and leaves it again has joined what it had before.
/// `admitted` is the server after `complete_join`, and `left` that one after `handle_leave`.
pub proof fn law_leave_undoes_join(
    before: ChannelServer,
    admitted: ChannelServer,
    left: ChannelServer,
    socket: SocketView,
)
    requires
        !before.joined().contains_key(socket.topic),
        admitted.joined() == before.joined().insert(socket.topic, socket),
        left.joined() == admitted.joined().remove(socket.topic),
    ensures
        admitted.joined().contains_key(socket.topic),
        left.joined() == before.joined(),
{
    assert(left.joined() =~= before.joined());
}

/// Gathers the handlers of a server.
pub struct ChannelServerBuilder {
    handlers: Vec<String>,
}

impl ChannelServerBuilder {
    /// The patterns of the handlers, in order.
    pub closed spec fn patterns(&self) -> Seq<Seq<char>> {
        table::views(self.handlers@)
    }

    /// A builder without handlers.
    pub fn new() -> (r: Self)
        ensures
            r.patterns() == Seq::<Seq<char>>::empty(),
    {
        let r = ChannelServerBuilder { handlers: Vec::new() };
        assert(r.patterns() =~= Seq::<Seq<char>>::empty());
        r
    }

    /// Adds a handler for the topics that match a pattern.
    pub fn channel(self, pattern: String) -> (r: Self)
        ensures
            r.patterns() == self.patterns().push(pattern@),
    {
        let mut b = self;
        b.handlers.push(pattern);
        assert(b.patterns() =~= self.patterns().push(pattern@));
        b
    }

    /// The server for a client.
    pub fn build(self, client_pid: Pid) -> (r: ChannelServer)
        ensures
            r.wf(),
            r.client() == client_pid@,
            r.patterns() == self.patterns(),
            r.joined() == Map::<Seq<char>, SocketView>::empty(),
            r.sockets() == Seq::<SocketView>::empty(),
    {
        let r = ChannelServer { client_pid, handlers: self.handlers, channels: Table::new() };
        assert(r.joined() =~= Map::<Seq<char>, SocketView>::empty());
        assert(r.sockets() =~= Seq::<SocketView>::empty());
        r
    }
}

impl Default for ChannelServerBuilder {
    fn default() -> (r: Self)
        ensures
            r.patterns() == Seq::<Seq<char>>::empty(),
    {
        ChannelServerBuilder::new()
    }
}

} // verus!
