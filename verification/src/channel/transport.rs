//! Transports: connections that carry channels over any protocol.
//!
//! A transport reads and writes bytes. Here stand its configuration, and what a message that it
//! has read asks of the channel server. Times are in milliseconds.

use vstd::prelude::*;
use vstd::utf8::*;

use crate::channel::channels;
use crate::channel::channels::{ChannelReply, RawHandleResult, ReplyView, Socket};
use crate::channel::server;
use crate::channel::server::{ChannelServer, JoinStep};
use crate::process::Pid;
use crate::table;
use crate::table::Table;
use crate::text;

verus! {

/// What is known of a connection.
pub struct ConnectionMetadata {
    /// The address of the peer.
    pub peer_addr: Option<String>,
    /// The parameters of the connection.
    pub params: Table<String, String>,
    /// What the transport adds.
    pub custom: Table<String, String>,
}

impl Default for ConnectionMetadata {
    fn default() -> (r: Self)
        ensures
            r.peer_addr is None,
            r.params.wf(),
            r.params@ == Map::<Seq<char>, String>::empty(),
            r.custom.wf(),
            r.custom@ == Map::<Seq<char>, String>::empty(),
    {
        ConnectionMetadata { peer_addr: None, params: Table::new(), custom: Table::new() }
    }
}

/// A control message of a transport.
pub enum ControlMessage {
    /// A ping.
    Ping(Vec<u8>),
    /// The answer to a ping.
    Pong(Vec<u8>),
    /// A close, with its code and its reason.
    Close(Option<u16>, Option<String>),
}

/// The configuration of a transport.
pub struct TransportConfig {
    /// The patterns of the handlers' topics, in order.
    pub handlers: Vec<String>,
    /// How long to wait for a message before the mailbox is looked at again.
    pub recv_timeout: u64,
    /// The time between heartbeats, if there are any.
    pub heartbeat_interval: Option<u64>,
    /// The size of the largest message, in bytes.
    pub max_message_size: Option<usize>,
    /// What else is configured.
    pub custom: Table<String, String>,
}

impl Default for TransportConfig {
    fn default() -> (r: Self)
        ensures
            r.handlers@ == Seq::<String>::empty(),
            r.recv_timeout == 10,
            r.heartbeat_interval == Some(30000u64),
            r.max_message_size == Some(65536usize),
            r.custom.wf(),
            r.custom@ == Map::<Seq<char>, String>::empty(),
    {
        TransportConfig {
            handlers: Vec::new(),
            recv_timeout: 10,
            heartbeat_interval: Some(30000),
            max_message_size: Some(65536),
            custom: Table::new(),
        }
    }
}

impl TransportConfig {
    /// The default configuration.
    pub fn new() -> (r: Self)
        ensures
            r.handlers@ == Seq::<String>::empty(),
            r.recv_timeout == 10,
            r.heartbeat_interval == Some(30000u64),
            r.max_message_size == Some(65536usize),
            r.custom.wf(),
            r.custom@ == Map::<Seq<char>, String>::empty(),
    {
        TransportConfig::default()
    }

    /// Adds a handler for the topics that match a pattern.
    pub fn with_handler(self, pattern: String) -> (r: Self)
        ensures
            r.handlers@ == self.handlers@.push(pattern),
            r.recv_timeout == self.recv_timeout,
            r.heartbeat_interval == self.heartbeat_interval,
            r.max_message_size == self.max_message_size,
            r.custom == self.custom,
    {
        let mut c = self;
        c.handlers.push(pattern);
        c
    }

    /// Sets the time to wait for a message.
    pub fn recv_timeout(self, timeout: u64) -> (r: Self)
        ensures
            r == (TransportConfig { recv_timeout: timeout, ..self }),
    {
        TransportConfig { recv_timeout: timeout, ..self }
    }

    /// Sets the time between heartbeats.
    pub fn heartbeat_interval(self, interval: u64) -> (r: Self)
        ensures
            r == (TransportConfig { heartbeat_interval: Some(interval), ..self }),
    {
        TransportConfig { heartbeat_interval: Some(interval), ..self }
    }

    /// Turns heartbeats off.
    pub fn no_heartbeat(self) -> (r: Self)
        ensures
            r == (TransportConfig { heartbeat_interval: None, ..self }),
    {
        TransportConfig { heartbeat_interval: None, ..self }
    }

    /// Sets the size of the largest message.
    pub fn max_message_size(self, size: usize) -> (r: Self)
        ensures
            r == (TransportConfig { max_message_size: Some(size), ..self }),
    {
        TransportConfig { max_message_size: Some(size), ..self }
    }

    /// The channel server of a client, with the handlers configured.
    pub fn build_server(&self, pid: Pid) -> (r: ChannelServer)
        ensures
            r.wf(),
            r.client() == pid@,
            r.patterns() == table::views(self.handlers@),
            r.joined() == Map::<Seq<char>, channels::SocketView>::empty(),
    {
        let mut server = ChannelServer::new(pid);
        let mut i: usize = 0;
        assert(table::views(self.handlers@.take(0)) =~= Seq::<Seq<char>>::empty());
        while i < self.handlers.len()
            invariant
                i <= self.handlers@.len(),
                server.wf(),
                server.client() == pid@,
                server.patterns() == table::views(self.handlers@.take(i as int)),
                server.joined() == Map::<Seq<char>, channels::SocketView>::empty(),
            decreases self.handlers@.len() - i,
        {
            server.add_handler(self.handlers[i].clone());
            assert(table::views(self.handlers@.take(i + 1)) =~= table::views(
                self.handlers@.take(i as int),
            ).push(self.handlers@[i as int]@));
            i = i + 1;
        }
        assert(self.handlers@.take(self.handlers@.len() as int) =~= self.handlers@);
        server
    }
}

/// Builds the configuration of a transport.
pub struct TransportBuilder {
    /// The configuration so far.
    pub config: TransportConfig,
}

impl TransportBuilder {
    /// Starts from the default configuration.
    pub fn new() -> (r: Self)
        ensures
            r.config.handlers@ == Seq::<String>::empty(),
            r.config.recv_timeout == 10,
            r.config.heartbeat_interval == Some(30000u64),
            r.config.max_message_size == Some(65536usize),
            r.config.custom.wf(),
            r.config.custom@ == Map::<Seq<char>, String>::empty(),
    {
        TransportBuilder { config: TransportConfig::default() }
    }

    /// Adds a handler for the topics that match a pattern.
    pub fn handler(self, pattern: String) -> (r: Self)
        ensures
            r.config.handlers@ == self.config.handlers@.push(pattern),
            r.config.recv_timeout == self.config.recv_timeout,
            r.config.heartbeat_interval == self.config.heartbeat_interval,
            r.config.max_message_size == self.config.max_message_size,
            r.config.custom == self.config.custom,
    {
        TransportBuilder { config: self.config.with_handler(pattern) }
    }

    /// Sets the time between heartbeats.
    pub fn heartbeat_interval(self, interval: u64) -> (r: Self)
        ensures
            r.config == (TransportConfig { heartbeat_interval: Some(interval), ..self.config }),
    {
        TransportBuilder { config: self.config.heartbeat_interval(interval) }
    }

    /// Turns heartbeats off.
    pub fn no_heartbeat(self) -> (r: Self)
        ensures
            r.config == (TransportConfig { heartbeat_interval: None, ..self.config }),
    {
        TransportBuilder { config: self.config.no_heartbeat() }
    }

    /// Sets the size of the largest message.
    pub fn max_message_size(self, size: usize) -> (r: Self)
        ensures
            r.config == (TransportConfig { max_message_size: Some(size), ..self.config }),
    {
        TransportBuilder { config: self.config.max_message_size(size) }
    }

    /// Sets the time to wait for a message.
    pub fn recv_timeout(self, timeout: u64) -> (r: Self)
        ensures
            r.config == (TransportConfig { recv_timeout: timeout, ..self.config }),
    {
        TransportBuilder { config: self.config.recv_timeout(timeout) }
    }

    /// The configuration.
    pub fn build(self) -> (r: TransportConfig)
        ensures
            r == self.config,
    {
        self.config
    }
}

impl Default for TransportBuilder {
    fn default() -> (r: Self)
        ensures
            r.config.handlers@ == Seq::<String>::empty(),
            r.config.recv_timeout == 10,
            r.config.heartbeat_interval == Some(30000u64),
            r.config.max_message_size == Some(65536usize),
            r.config.custom.wf(),
            r.config.custom@ == Map::<Seq<char>, String>::empty(),
    {
        TransportBuilder::new()
    }
}

/// A message that a transport has read.
pub struct TransportMessage {
    /// The reference of the join.
    pub join_ref: Option<String>,
    /// The reference by which a reply is matched.
    pub msg_ref: Option<String>,
    /// The topic.
    pub topic: String,
    /// The event.
    pub event: String,
    /// The encoded payload.
    pub payload: Vec<u8>,
}

/// What handling a message of a transport came to.
pub enum TransportResult {
    /// Nothing is sent.
    Done,
    /// This is sent to the client.
    Reply(Vec<u8>),
    /// All this is sent to the client.
    Replies(Vec<Vec<u8>>),
    /// The connection is closed.
    Close,
    /// The connection is closed with an error.
    Error(String),
}

/// What an outgoing message stands for.
pub enum TransportReplyView {
    /// The reply to a request.
    Reply {
        /// The reference of the join.
        join_ref: Option<Seq<char>>,
        /// The reference of the request.
        msg_ref: Option<Seq<char>>,
        /// The topic.
        topic: Seq<char>,
        /// Whether it reports success.
        status: Seq<char>,
        /// The encoded payload.
        payload: Seq<u8>,
    },
    /// An event for the client.
    Push {
        /// The reference of the join.
        join_ref: Option<Seq<char>>,
        /// The topic.
        topic: Seq<char>,
        /// The event.
        event: Seq<char>,
        /// The encoded payload.
        payload: Seq<u8>,
    },
}

/// An outgoing message, to be encoded.
pub enum TransportReply {
    /// The reply to a request.
    Reply {
        /// The reference of the join.
        join_ref: Option<String>,
        /// The reference of the request.
        msg_ref: Option<String>,
        /// The topic.
        topic: String,
        /// Whether it reports success.
        status: String,
        /// The encoded payload.
        payload: Vec<u8>,
    },
    /// An event for the client.
    Push {
        /// The reference of the join.
        join_ref: Option<String>,
        /// The topic.
        topic: String,
        /// The event.
        event: String,
        /// The encoded payload.
        payload: Vec<u8>,
    },
}

impl View for TransportReply {
    type V = TransportReplyView;

    open spec fn view(&self) -> TransportReplyView {
        match *self {
            TransportReply::Reply { join_ref, msg_ref, topic, status, payload } => {
                TransportReplyView::Reply {
                    join_ref: text::str_option(join_ref),
                    msg_ref: text::str_option(msg_ref),
                    topic: topic@,
                    status: status@,
                    payload: payload@,
                }
            },
            TransportReply::Push { join_ref, topic, event, payload } => TransportReplyView::Push {
                join_ref: text::str_option(join_ref),
                topic: topic@,
                event: event@,
                payload: payload@,
            },
        }
    }
}

/// The payload of a reply that has nothing to say.
pub open spec fn empty_payload() -> Seq<u8> {
    encode_utf8("{}"@)
}

/// The payload of a reply that has nothing to say.
pub fn nothing() -> (r: Vec<u8>)
    ensures
        r@ == empty_payload(),
{
    crate::wire::bytes_of("{}".as_bytes())
}

/// The payload that gives a reason. The reason stands there as it is.
pub open spec fn reason_payload(reason: Seq<char>) -> Seq<u8> {
    encode_utf8("{\"reason\":\""@ + reason + "\"}"@)
}

/// A copy of an optional string.
pub fn copy_option(s: &Option<String>) -> (r: Option<String>)
    ensures
        text::str_option(r) == text::str_option(*s),
{
    match s {
        Some(t) => Some(t.clone()),
        None => None,
    }
}

/// The reference of a message, empty if it has none.
pub open spec fn reference_of(msg: TransportMessage) -> Seq<char> {
    match msg.msg_ref {
        Some(r) => r@,
        None => ""@,
    }
}

/// The reply to a message with the message's own references and topic.
pub open spec fn reply_to(msg: TransportMessage, status: Seq<char>, payload: Seq<u8>) ->
    TransportReplyView {
    TransportReplyView::Reply {
        join_ref: text::str_option(msg.join_ref),
        msg_ref: text::str_option(msg.msg_ref),
        topic: msg.topic@,
        status,
        payload,
    }
}

/// What a message asks for.
#[derive(Debug, Clone, Copy, PartialEq, Eq, Structural)]
pub enum Request {
    /// To join its topic.
    Join,
    /// To leave its topic.
    Leave,
    /// To show that the connection lives.
    Heartbeat,
    /// To handle an event.
    Event,
}

/// What a message asks for, by its event and its topic.
pub open spec fn request(event: Seq<char>, topic: Seq<char>) -> Request {
    if event == "phx_join"@ {
        Request::Join
    } else if event == "phx_leave"@ {
        Request::Leave
    } else if event == "heartbeat"@ && topic == "phoenix"@ {
        Request::Heartbeat
    } else {
        Request::Event
    }
}

/// What a message asks for, by its event and its topic.
pub fn request_of(event: &str, topic: &str) -> (r: Request)
    ensures
        r == request(event@, topic@),
{
    if text::same_str(event, "phx_join") {
        Request::Join
    } else if text::same_str(event, "phx_leave") {
        Request::Leave
    } else if text::same_str(event, "heartbeat") && text::same_str(topic, "phoenix") {
        Request::Heartbeat
    } else {
        Request::Event
    }
}

/// What is to be done about a message.
pub enum MessageStep {
    /// The handler at `handler` is asked about the join; `join_reply` takes the server's answer.
    Ask {
        /// The handler's place.
        handler: usize,
        /// The socket of the join.
        socket: Socket,
    },
    /// The channel of the socket gets the event; `event_reply` takes what it makes of it.
    Deliver(Socket),
    /// The reply is sent. If a channel ends, it is told so and the client leaves its group.
    Answer {
        /// The reply.
        reply: TransportReply,
        /// The channel that ends.
        left: Option<Socket>,
    },
    /// Nothing is done.
    Ignore,
}

/// The reply to a join, by the server's answer.
pub open spec fn join_answer(msg: TransportMessage, reply: ReplyView) -> TransportReplyView {
    match reply {
        ReplyView::JoinOk { payload: Some(p), .. } => reply_to(msg, "ok"@, p),
        ReplyView::JoinError { reason, .. } => reply_to(msg, "error"@, reason_payload(reason)),
        _ => reply_to(msg, "ok"@, empty_payload()),
    }
}

fn make_reply(msg: &TransportMessage, status: &str, payload: Vec<u8>) -> (r: TransportReply)
    ensures
        r@ == reply_to(*msg, status@, payload@),
{
    TransportReply::Reply {
        join_ref: copy_option(&msg.join_ref),
        msg_ref: copy_option(&msg.msg_ref),
        topic: msg.topic.clone(),
        status: status.to_owned(),
        payload,
    }
}

/// The reply to a join, by the server's answer.
pub fn join_reply(msg: &TransportMessage, reply: ChannelReply) -> (r: TransportReply)
    ensures
        r@ == join_answer(*msg, reply@),
{
    match reply {
        ChannelReply::JoinOk { msg_ref: _, payload } => match payload {
            Some(p) => make_reply(msg, "ok", p),
            None => make_reply(msg, "ok", nothing()),
        },
        ChannelReply::JoinError { msg_ref: _, reason } => {
            let payload = text::join3("{\"reason\":\"", reason.as_str(), "\"}");
            make_reply(msg, "error", crate::wire::bytes_of(payload.as_str().as_bytes()))
        },
        _ => make_reply(msg, "ok", nothing()),
    }
}

/// What follows from a message that the transport has read.
pub open spec fn step_of(
    before: ChannelServer,
    after: ChannelServer,
    msg: TransportMessage,
    timestamp: u64,
    count: u64,
    r: MessageStep,
) -> bool {
    let topic = msg.topic@;
    let joined = before.joined().contains_key(topic);
    match request(msg.event@, topic) {
        Request::Join => {
            &&& after == before
            &&& if joined {
                r matches MessageStep::Answer { reply, left } && left is None && reply@
                    == reply_to(msg, "error"@, reason_payload("already joined"@))
            } else if server::unmatched(before.patterns(), topic) {
                r matches MessageStep::Answer { reply, left } && left is None && reply@
                    == reply_to(
                    msg,
                    "error"@,
                    reason_payload("no handler for topic: "@ + topic),
                )
            } else {
                r matches MessageStep::Ask { handler, socket } && server::is_first_match(
                    before.patterns(),
                    topic,
                    handler as int,
                ) && socket@ == (channels::SocketView {
                    pid: before.client(),
                    topic,
                    join_ref: channels::join_reference(timestamp, count),
                })
            }
        },
        Request::Leave => {
            &&& after.joined() == before.joined().remove(topic)
            &&& r matches MessageStep::Answer { reply, left } && reply@ == reply_to(
                msg,
                "ok"@,
                empty_payload(),
            ) && server::socket_option(left) == (if joined {
                Some(before.joined()[topic])
            } else {
                None
            })
        },
        Request::Heartbeat => {
            &&& after == before
            &&& r matches MessageStep::Answer { reply, left } && left is None && reply@
                == (TransportReplyView::Reply {
                join_ref: None,
                msg_ref: text::str_option(msg.msg_ref),
                topic: "phoenix"@,
                status: "ok"@,
                payload: empty_payload(),
            })
        },
        Request::Event => {
            &&& after == before
            &&& if joined {
                r matches MessageStep::Deliver(socket) && socket@ == before.joined()[topic]
            } else {
                r is Ignore
            }
        },
    }
}

/// Decides about a message that the transport has read.
pub fn handle_message(
    server: &mut ChannelServer,
    msg: &TransportMessage,
    timestamp: u64,
    count: u64,
) -> (r: MessageStep)
    requires
        old(server).wf(),
    ensures
        final(server).wf(),
        final(server).client() == old(server).client(),
        final(server).patterns() == old(server).patterns(),
        step_of(*old(server), *final(server), *msg, timestamp, count, r),
{
    let topic = msg.topic.as_str();
    match request_of(msg.event.as_str(), topic) {
        Request::Join => {
            let msg_ref = match &msg.msg_ref {
                Some(r) => r.clone(),
                None => "".to_owned(),
            };
            match server.handle_join(topic, msg_ref, timestamp, count) {
                JoinStep::Refused(reply) => MessageStep::Answer {
                    reply: join_reply(msg, reply),
                    left: None,
                },
                JoinStep::Ask { handler, socket } => MessageStep::Ask { handler, socket },
            }
        },
        Request::Leave => {
            let left = server.handle_leave(topic);
            MessageStep::Answer { reply: make_reply(msg, "ok", nothing()), left }
        },
        Request::Heartbeat => MessageStep::Answer {
            reply: TransportReply::Reply {
                join_ref: None,
                msg_ref: copy_option(&msg.msg_ref),
                topic: "phoenix".to_owned(),
                status: "ok".to_owned(),
                payload: nothing(),
            },
            left: None,
        },
        Request::Event => match server.socket(topic) {
            Some(socket) => MessageStep::Deliver(socket),
            None => MessageStep::Ignore,
        },
    }
}

/// The reply to an event, by the server's answer.
pub open spec fn event_answer(msg: TransportMessage, reply: Option<ReplyView>) -> Option<
    TransportReplyView,
> {
    match reply {
        Some(ReplyView::Reply { msg_ref, status, payload }) => Some(
            TransportReplyView::Reply {
                join_ref: text::str_option(msg.join_ref),
                msg_ref: Some(msg_ref),
                topic: msg.topic@,
                status,
                payload,
            },
        ),
        Some(ReplyView::Push { topic, event, payload }) => Some(
            TransportReplyView::Push {
                join_ref: text::str_option(msg.join_ref),
                topic,
                event,
                payload,
            },
        ),
        _ => None,
    }
}

/// The view of an optional outgoing message.
pub open spec fn transport_option(r: Option<TransportReply>) -> Option<TransportReplyView> {
    match r {
        Some(reply) => Some(reply@),
        None => None,
    }
}

/// Acts on what a channel made of the event of a message. `members` are the members of the
/// topic's group. Hands back the reply, what is sent to whom, and the channel that ends.
pub fn event_reply(
    server: &mut ChannelServer,
    msg: &TransportMessage,
    result: RawHandleResult,
    members: &Vec<Pid>,
) -> (r: (Option<TransportReply>, Vec<(Pid, Vec<u8>)>, Option<Socket>))
    requires
        old(server).wf(),
    ensures
        final(server).wf(),
        final(server).client() == old(server).client(),
        final(server).patterns() == old(server).patterns(),
        if old(server).joined().contains_key(msg.topic@) {
            &&& transport_option(r.0) == event_answer(
                *msg,
                server::answer_of(msg.topic@, reference_of(*msg), result),
            )
            &&& channels::sends(r.1@) == server::sends_of(
                msg.topic@,
                result,
                table::views(members@),
                old(server).client(),
            )
            &&& final(server).joined() == (if result is Stop {
                old(server).joined().remove(msg.topic@)
            } else {
                old(server).joined()
            })
            &&& server::socket_option(r.2) == (if result is Stop {
                Some(old(server).joined()[msg.topic@])
            } else {
                None
            })
        } else {
            &&& r.0 is None
            &&& r.1@.len() == 0
            &&& r.2 is None
            &&& *final(server) == *old(server)
        },
{
    let msg_ref = match &msg.msg_ref {
        Some(r) => r.clone(),
        None => "".to_owned(),
    };
    let outcome = server.handle_event(msg.topic.as_str(), msg_ref, result, members);
    let reply = match outcome.reply {
        Some(ChannelReply::Reply { msg_ref, status, payload }) => Some(
            TransportReply::Reply {
                join_ref: copy_option(&msg.join_ref),
                msg_ref: Some(msg_ref),
                topic: msg.topic.clone(),
                status,
                payload,
            },
        ),
        Some(ChannelReply::Push { topic, event, payload }) => Some(
            TransportReply::Push { join_ref: copy_option(&msg.join_ref), topic, event, payload },
        ),
        _ => None,
    };
    (reply, outcome.sends, outcome.left)
}

/// What of a message from the mailbox goes to the client: an event that another client
/// broadcast.
pub fn forward(bytes: &[u8]) -> (r: Option<TransportReply>)
    ensures
        transport_option(r) == (match channels::reply_read(bytes@) {
            Some(ReplyView::Push { topic, event, payload }) => Some(
                TransportReplyView::Push { join_ref: None, topic, event, payload },
            ),
            _ => None,
        }),
{
    match ChannelReply::decode(bytes) {
        Some(ChannelReply::Push { topic, event, payload }) => Some(
            TransportReply::Push { join_ref: None, topic, event, payload },
        ),
        _ => None,
    }
}

/// A heartbeat is answered, with the reference of the heartbeat, whatever the client has joined;
/// and it changes nothing.
pub proof fn law_heartbeat_is_answered(
    before: ChannelServer,
    after: ChannelServer,
    msg: TransportMessage,
    timestamp: u64,
    count: u64,
    r: MessageStep,
)
    requires
        msg.event@ == "heartbeat"@,
        msg.topic@ == "phoenix"@,
        step_of(before, after, msg, timestamp, count, r),
    ensures
        after == before,
        r matches MessageStep::Answer { reply, left } && reply@ matches TransportReplyView::Reply {
            msg_ref,
            status,
            ..
        } && msg_ref == text::str_option(msg.msg_ref) && status == "ok"@,
{
    reveal_strlit("heartbeat");
    reveal_strlit("phx_join");
    reveal_strlit("phx_leave");
    assert("heartbeat"@.len() == 9);
    assert("phx_join"@.len() == 8);
    assert("phx_leave"@[0] == 'p');
    assert("heartbeat"@[0] == 'h');
}

} // verus!
