//! The distribution manager: which nodes are connected, and what follows from what they send.
//!
//! The manager decides; the connections, the queues and the process registry stand outside and
//! are known here by numbers and names. Times are in milliseconds.

use vstd::prelude::*;

use crate::distribution::action::{Action, ActionView};
use crate::distribution::protocol::{DistError, DistMessage, DistMessageView};
use crate::names::NameTable;
use crate::process::Pid;
use crate::table;
use crate::table::Table;
use crate::text;

verus! {

/// The kinds of nodes.
#[derive(Debug, Clone, Copy, PartialEq, Eq, Structural)]
pub enum NodeType {
    /// A native node.
    Native,
    /// An Erlang node.
    Erlang,
}

/// The time between two heartbeats.
pub const HEARTBEAT_INTERVAL: u64 = 2000;

/// How long a node may stay silent.
pub const HEARTBEAT_TIMEOUT: u64 = 6000;

/// What is known of a node.
pub struct NodeInfoView {
    /// Its name.
    pub name: Seq<char>,
    /// Its address.
    pub addr: Option<Seq<char>>,
    /// Its incarnation.
    pub creation: u32,
}

/// What is known of a node.
#[derive(Debug)]
pub struct NodeInfo {
    /// Its name.
    pub name: String,
    /// Its address.
    pub addr: Option<String>,
    /// Its incarnation.
    pub creation: u32,
}

impl View for NodeInfo {
    type V = NodeInfoView;

    open spec fn view(&self) -> NodeInfoView {
        NodeInfoView {
            name: self.name@,
            addr: text::str_option(self.addr),
            creation: self.creation,
        }
    }
}

impl Clone for NodeInfo {
    fn clone(&self) -> (r: Self)
        ensures
            r@ == self@,
    {
        NodeInfo {
            name: self.name.clone(),
            addr: match &self.addr {
                Some(a) => Some(a.clone()),
                None => None,
            },
            creation: self.creation,
        }
    }
}

/// What a connected node stands for.
pub struct NodeView {
    /// What is known of it.
    pub info: NodeInfoView,
    /// The connection.
    pub connection: u64,
    /// When it was last heard of.
    pub last_seen_ms: u64,
}

/// A connected node.
pub struct ConnectedNode {
    info: NodeInfo,
    connection: u64,
    last_seen_ms: u64,
}

impl View for ConnectedNode {
    type V = NodeView;

    closed spec fn view(&self) -> NodeView {
        NodeView {
            info: self.info@,
            connection: self.connection,
            last_seen_ms: self.last_seen_ms,
        }
    }
}

/// Whether a node has been silent for too long. A clock that goes backwards counts as no time.
pub open spec fn timed_out(node: NodeView, now: u64) -> bool {
    now - node.last_seen_ms > HEARTBEAT_TIMEOUT
}

impl ConnectedNode {
    /// A node that has just been connected.
    pub fn new(info: NodeInfo, connection: u64, now: u64) -> (r: Self)
        ensures
            r@ == (NodeView { info: info@, connection, last_seen_ms: now }),
    {
        ConnectedNode { info, connection, last_seen_ms: now }
    }

    /// Notes that the node has been heard of.
    pub fn touch(&mut self, now: u64)
        ensures
            final(self)@ == (NodeView { last_seen_ms: now, ..old(self)@ }),
    {
        self.last_seen_ms = now;
    }

    /// Whether the node has been silent for too long.
    pub fn is_timed_out(&self, now: u64) -> (r: bool)
        ensures
            r == timed_out(self@, now),
    {
        now.saturating_sub(self.last_seen_ms) > HEARTBEAT_TIMEOUT
    }
}

/// What the manager stands for.
#[verifier::ext_equal]
pub struct ManagerView {
    /// The name of this node.
    pub name: Seq<char>,
    /// The incarnation of this node.
    pub creation: u32,
    /// The native nodes that are connected.
    pub nodes: Map<Seq<char>, NodeView>,
    /// The names of the nodes by address.
    pub addrs: Map<Seq<char>, Seq<char>>,
    /// The addresses of the nodes that have ever been connected.
    pub known: Map<Seq<char>, Seq<char>>,
    /// The nodes to which a new connection is being made.
    pub reconnecting: Set<Seq<char>>,
    /// The Erlang nodes that are connected.
    pub erlang: Map<Seq<char>, NodeInfoView>,
    /// The kinds of the nodes that are connected.
    pub types: Map<Seq<char>, NodeType>,
    /// Who waits for which pong.
    pub pings: Map<(Seq<char>, u64), u64>,
}

/// The distribution manager.
pub struct DistributionManager {
    node_name: String,
    creation: u32,
    nodes: NameTable<ConnectedNode>,
    addr_to_node: NameTable<String>,
    known_nodes: NameTable<String>,
    reconnecting: NameTable<()>,
    erlang_nodes: NameTable<NodeInfo>,
    node_types: NameTable<NodeType>,
    pending_pings: NameTable<Table<u64, u64>>,
}

/// Who waits for which pong, out of a table of nodes.
pub open spec fn waiters(nodes: Map<Seq<char>, Table<u64, u64>>) -> Map<(Seq<char>, u64), u64> {
    Map::new(
        |k: (Seq<char>, u64)| nodes.contains_key(k.0) && nodes[k.0]@.contains_key(k.1),
        |k: (Seq<char>, u64)| nodes[k.0]@[k.1],
    )
}

/// The items that actions stand for.
pub open spec fn actions(s: Seq<Action>) -> Seq<ActionView> {
    table::views(s)
}

/// The addresses without the one of a node.
pub open spec fn without_addr(addrs: Map<Seq<char>, Seq<char>>, info: NodeInfoView) -> Map<
    Seq<char>,
    Seq<char>,
> {
    match info.addr {
        Some(addr) => addrs.remove(addr),
        None => addrs,
    }
}

/// The manager once a native node has been connected.
pub open spec fn stored(
    m: ManagerView,
    node: Seq<char>,
    info: NodeInfoView,
    addr: Seq<char>,
    connection: u64,
    now: u64,
) -> ManagerView {
    ManagerView {
        nodes: m.nodes.insert(node, NodeView { info, connection, last_seen_ms: now }),
        addrs: m.addrs.insert(addr, node),
        types: m.types.insert(node, NodeType::Native),
        known: m.known.insert(node, addr),
        ..m
    }
}

/// The manager without a native node. Its kind is forgotten in any case, its address is kept
/// for a new connection.
pub open spec fn dropped(m: ManagerView, node: Seq<char>) -> ManagerView {
    ManagerView {
        nodes: m.nodes.remove(node),
        addrs: if m.nodes.contains_key(node) {
            without_addr(m.addrs, m.nodes[node].info)
        } else {
            m.addrs
        },
        types: m.types.remove(node),
        ..m
    }
}

/// The manager once the connections to a node of either kind are ended.
pub open spec fn cut(m: ManagerView, node: Seq<char>) -> ManagerView {
    ManagerView { erlang: m.erlang.remove(node), ..dropped(m, node) }
}

/// What is to be done when the connections to a node of either kind are ended.
pub open spec fn cut_actions(m: ManagerView, node: Seq<char>) -> Seq<ActionView> {
    let native = if m.nodes.contains_key(node) {
        seq![
            ActionView::Close {
                connection: m.nodes[node].connection,
                reason: "disconnect requested"@,
            },
        ]
    } else {
        Seq::empty()
    };
    let erlang = if m.erlang.contains_key(node) {
        seq![ActionView::CloseErlang { node }]
    } else {
        Seq::empty()
    };
    if m.nodes.contains_key(node) || m.erlang.contains_key(node) {
        native + erlang + down_actions(node, "disconnect requested"@)
    } else {
        Seq::empty()
    }
}

/// What is to be done when a node goes down.
pub open spec fn down_actions(node: Seq<char>, reason: Seq<char>) -> Seq<ActionView> {
    seq![
        ActionView::NotifyNodeDown { node, reason },
        ActionView::ProcessesDown { node },
        ActionView::RemoveMembers { node },
    ]
}

/// What is to be done once a node has been connected.
pub open spec fn sync_actions(node: Seq<char>) -> Seq<ActionView> {
    seq![ActionView::SyncRegistry { node }, ActionView::SyncGroups { node }]
}

fn push_down(out: &mut Vec<Action>, node: &str, reason: &str)
    ensures
        actions(final(out)@) == actions(old(out)@) + down_actions(node@, reason@),
{
    out.push(Action::NotifyNodeDown { node: node.to_owned(), reason: reason.to_owned() });
    out.push(Action::ProcessesDown { node: node.to_owned() });
    out.push(Action::RemoveMembers { node: node.to_owned() });
    assert(actions(out@) =~= actions(old(out)@) + down_actions(node@, reason@));
}

fn sync(node: &str) -> (r: Vec<Action>)
    ensures
        actions(r@) == sync_actions(node@),
{
    let mut out: Vec<Action> = Vec::new();
    out.push(Action::SyncRegistry { node: node.to_owned() });
    out.push(Action::SyncGroups { node: node.to_owned() });
    assert(actions(out@) =~= sync_actions(node@));
    out
}

fn no_actions() -> (r: Vec<Action>)
    ensures
        r@.len() == 0,
        actions(r@) == Seq::<ActionView>::empty(),
{
    let out: Vec<Action> = Vec::new();
    assert(actions(out@) =~= Seq::<ActionView>::empty());
    out
}

fn one(a: Action) -> (r: Vec<Action>)
    ensures
        actions(r@) == seq![a@],
{
    let mut out: Vec<Action> = Vec::new();
    out.push(a);
    assert(actions(out@) =~= seq![a@]);
    out
}

/// What became of a connection.
#[derive(Debug, Clone, Copy, PartialEq, Eq, Structural)]
pub enum ConnectionState {
    /// It is the node's connection.
    Ours(u64),
    /// The node has another connection now.
    Replaced,
    /// The node has no connection.
    Gone,
}

/// What became of the connection of a node at an address.
pub open spec fn state_of(m: ManagerView, node: Seq<char>, addr: Seq<char>) -> ConnectionState {
    if !m.nodes.contains_key(node) {
        ConnectionState::Gone
    } else if m.nodes[node].info.addr == Some(addr) {
        ConnectionState::Ours(m.nodes[node].connection)
    } else {
        ConnectionState::Replaced
    }
}

/// What is to be done about a message for a remote process.
pub enum SendStep {
    /// It goes into the queue of a connection.
    Queue {
        /// The connection.
        connection: u64,
        /// The message between the nodes.
        msg: DistMessage,
    },
    /// The node is not connected. If there is an address, a new connection is made to it.
    Refused {
        /// The error.
        error: DistError,
        /// The address.
        reconnect: Option<String>,
    },
}

/// The number after `seq`; after the last one comes zero.
pub open spec fn next_seq(seq: u64) -> u64 {
    if seq == u64::MAX {
        0
    } else {
        (seq + 1) as u64
    }
}

/// The number after `seq`; after the last one comes zero.
pub fn advance(seq: u64) -> (r: u64)
    ensures
        r == next_seq(seq),
{
    if seq == u64::MAX {
        0
    } else {
        seq + 1
    }
}

impl DistributionManager {
    /// The manager's invariant.
    pub closed spec fn wf(&self) -> bool {
        &&& self.nodes.wf()
        &&& self.addr_to_node.wf()
        &&& self.known_nodes.wf()
        &&& self.reconnecting.wf()
        &&& self.erlang_nodes.wf()
        &&& self.node_types.wf()
        &&& self.pending_pings.wf()
        &&& forall|n: Seq<char>| #[trigger]
            self.pending_pings@.contains_key(n) ==> self.pending_pings@[n].wf()
    }

    /// The native nodes in the order in which they are walked.
    pub closed spec fn order(&self) -> Seq<Seq<char>> {
        self.nodes.names()
    }

    /// The nodes of either kind in the order in which they are walked.
    pub closed spec fn connected_order(&self) -> Seq<Seq<char>> {
        self.node_types.names()
    }

    /// The Erlang nodes in the order in which they are walked.
    pub closed spec fn erlang_order(&self) -> Seq<Seq<char>> {
        self.erlang_nodes.names()
    }

    /// The nodes are walked each once.
    pub proof fn law_order(&self)
        requires
            self.wf(),
        ensures
            self.order().no_duplicates(),
            forall|k: Seq<char>| self.order().contains(k) <==> #[trigger] self@.nodes.contains_key(
                k,
            ),
    {
        self.nodes.law_names();
        assert forall|k: Seq<char>| self.order().contains(
            k,
        ) <==> #[trigger] self@.nodes.contains_key(k) by {
            assert(self@.nodes.contains_key(k) == self.nodes@.contains_key(k));
        }
    }

    /// A manager that has no connection.
    pub fn new(node_name: String, creation: u32) -> (r: Self)
        ensures
            r.wf(),
            r@ == (ManagerView {
                name: node_name@,
                creation,
                nodes: Map::empty(),
                addrs: Map::empty(),
                known: Map::empty(),
                reconnecting: Set::empty(),
                erlang: Map::empty(),
                types: Map::empty(),
                pings: Map::empty(),
            }),
    {
        let r = DistributionManager {
            node_name,
            creation,
            nodes: NameTable::new(),
            addr_to_node: NameTable::new(),
            known_nodes: NameTable::new(),
            reconnecting: NameTable::new(),
            erlang_nodes: NameTable::new(),
            node_types: NameTable::new(),
            pending_pings: NameTable::new(),
        };
        assert(r@.nodes =~= Map::empty());
        assert(r@.addrs =~= Map::empty());
        assert(r@.known =~= Map::empty());
        assert(r@.reconnecting =~= Set::empty());
        assert(r@.erlang =~= Map::empty());
        assert(r@.types =~= Map::empty());
        assert(r@.pings =~= Map::empty());
        r
    }

    /// The name of this node.
    pub fn node_name(&self) -> (r: &str)
        ensures
            r@ == self@.name,
    {
        self.node_name.as_str()
    }

    /// The incarnation of this node.
    pub fn creation(&self) -> (r: u32)
        ensures
            r == self@.creation,
    {
        self.creation
    }

    /// Begins a connection: the message that opens the handshake, unless there is a connection
    /// to the address.
    pub fn connect_to(&self, addr: &str) -> (r: Result<DistMessage, DistError>)
        requires
            self.wf(),
        ensures
            if self@.addrs.contains_key(addr@) {
                r matches Err(DistError::AlreadyConnected(node)) && node@ == self@.addrs[addr@]
            } else {
                r matches Ok(hello) && hello@ == (DistMessageView::Hello {
                    node_name: self@.name,
                    creation: self@.creation,
                })
            },
    {
        match self.addr_to_node.get(addr) {
            Some(node) => Err(DistError::AlreadyConnected(node.clone())),
            None => Ok(
                DistMessage::Hello {
                    node_name: self.node_name.clone(),
                    creation: self.creation,
                },
            ),
        }
    }

    /// Reads the answer to the message that opened a handshake.
    pub fn perform_handshake(welcome: DistMessage, addr: &str) -> (r: Result<NodeInfo, DistError>)
        ensures
            match welcome@ {
                DistMessageView::Welcome { node_name, creation } => r matches Ok(info) && info@
                    == (NodeInfoView { name: node_name, addr: Some(addr@), creation }),
                _ => r matches Err(DistError::Handshake(text)) && text@
                    == "expected Welcome message"@,
            },
    {
        match welcome {
            DistMessage::Welcome { node_name, creation } => Ok(
                NodeInfo { name: node_name, addr: Some(addr.to_owned()), creation },
            ),
            _ => Err(DistError::Handshake("expected Welcome message".to_owned())),
        }
    }

    fn store(&mut self, info: NodeInfo, addr: &str, connection: u64, now: u64)
        requires
            old(self).wf(),
        ensures
            final(self).wf(),
            final(self)@ == stored(old(self)@, info@.name, info@, addr@, connection, now),
    {
        let node = info.name.clone();
        self.addr_to_node.insert(addr.to_owned(), node.clone());
        self.known_nodes.insert(node.clone(), addr.to_owned());
        self.node_types.insert(node.clone(), NodeType::Native);
        self.nodes.insert(node, ConnectedNode::new(info, connection, now));
        proof {
            let want = stored(old(self)@, info@.name, info@, addr@, connection, now);
            assert(self@.nodes =~= want.nodes);
            assert(self@.addrs =~= want.addrs);
            assert(self@.known =~= want.known);
            assert(self@.types =~= want.types);
            assert(self@ =~= want);
        }
    }

    /// Completes a connection that this node has made. A second connection to a node is closed
    /// again.
    pub fn connected(&mut self, info: NodeInfo, addr: &str, connection: u64, now: u64) -> (r: (
        Result<String, DistError>,
        Vec<Action>,
    ))
        requires
            old(self).wf(),
        ensures
            final(self).wf(),
            if old(self)@.nodes.contains_key(info@.name) {
                &&& *final(self) == *old(self)
                &&& r.0 matches Err(DistError::AlreadyConnected(node)) && node@ == info@.name
                &&& actions(r.1@) == seq![
                    ActionView::Close { connection, reason: "duplicate connection"@ },
                ]
            } else {
                &&& final(self)@ == stored(old(self)@, info@.name, info@, addr@, connection, now)
                &&& r.0 matches Ok(node) && node@ == info@.name
                &&& actions(r.1@) == sync_actions(info@.name)
            },
    {
        let node = info.name.clone();
        if self.nodes.contains_key(node.as_str()) {
            let close = Action::Close { connection, reason: "duplicate connection".to_owned() };
            return (Err(DistError::AlreadyConnected(node)), one(close));
        }
        self.store(info, addr, connection, now);
        let out = sync(node.as_str());
        (Ok(node), out)
    }

    /// Begins a connection that another node has made: its name and its incarnation, with the
    /// answer to send. A connection that the node had is closed.
    pub fn handle_incoming_connection(&mut self, hello: DistMessage) -> (r: (
        Result<(String, u32, DistMessage), DistError>,
        Vec<Action>,
    ))
        requires
            old(self).wf(),
        ensures
            final(self).wf(),
            match hello@ {
                DistMessageView::Hello { node_name, creation } => {
                    &&& r.0 matches Ok((name, remote, welcome)) && name@ == node_name && remote
                        == creation && welcome@ == (DistMessageView::Welcome {
                        node_name: old(self)@.name,
                        creation: old(self)@.creation,
                    })
                    &&& if old(self)@.nodes.contains_key(node_name) {
                        &&& final(self)@ == (ManagerView {
                            types: old(self)@.types,
                            ..dropped(old(self)@, node_name)
                        })
                        &&& actions(r.1@) == seq![
                            ActionView::Close {
                                connection: old(self)@.nodes[node_name].connection,
                                reason: "replaced by new connection"@,
                            },
                            ActionView::RemoveMembers { node: node_name },
                        ]
                    } else {
                        &&& final(self)@ == old(self)@
                        &&& r.1@.len() == 0
                    }
                },
                _ => {
                    &&& r.0 matches Err(DistError::Handshake(text)) && text@
                        == "expected Hello message"@
                    &&& r.1@.len() == 0
                    &&& *final(self) == *old(self)
                },
            },
    {
        match hello {
            DistMessage::Hello { node_name, creation } => {
                let welcome = DistMessage::Welcome {
                    node_name: self.node_name.clone(),
                    creation: self.creation,
                };
                let mut out: Vec<Action> = Vec::new();
                match self.nodes.remove(node_name.as_str()) {
                    Some(was) => {
                        out.push(
                            Action::Close {
                                connection: was.connection,
                                reason: "replaced by new connection".to_owned(),
                            },
                        );
                        match &was.info.addr {
                            Some(addr) => {
                                self.addr_to_node.remove(addr.as_str());
                            },
                            None => {},
                        }
                        out.push(Action::RemoveMembers { node: node_name.clone() });
                        proof {
                            let want = ManagerView {
                                types: old(self)@.types,
                                ..dropped(old(self)@, node_name@)
                            };
                            assert(was@ == old(self)@.nodes[node_name@]);
                            assert(self@.nodes =~= want.nodes);
                            assert(self@.addrs =~= want.addrs);
                            assert(self@ =~= want);
                            assert(actions(out@) =~= seq![
                                ActionView::Close {
                                    connection: old(self)@.nodes[node_name@].connection,
                                    reason: "replaced by new connection"@,
                                },
                                ActionView::RemoveMembers { node: node_name@ },
                            ]);
                        }
                    },
                    None => {
                        assert(self@.nodes =~= old(self)@.nodes);
                        assert(self@ =~= old(self)@);
                    },
                }
                (Ok((node_name, creation, welcome)), out)
            },
            _ => (
                Err(DistError::Handshake("expected Hello message".to_owned())),
                no_actions(),
            ),
        }
    }

    /// Completes a connection that another node has made.
    pub fn accepted(
        &mut self,
        node: String,
        remote_creation: u32,
        addr: &str,
        connection: u64,
        now: u64,
    ) -> (r: Vec<Action>)
        requires
            old(self).wf(),
        ensures
            final(self).wf(),
            final(self)@ == stored(
                old(self)@,
                node@,
                (NodeInfoView { name: node@, addr: Some(addr@), creation: remote_creation }),
                addr@,
                connection,
                now,
            ),
            actions(r@) == sync_actions(node@),
    {
        let out = sync(node.as_str());
        let info = NodeInfo {
            name: node,
            addr: Some(addr.to_owned()),
            creation: remote_creation,
        };
        self.store(info, addr, connection, now);
        out
    }

    fn drop_node(&mut self, node: &str) -> (r: Option<ConnectedNode>)
        requires
            old(self).wf(),
        ensures
            final(self).wf(),
            final(self)@ == dropped(old(self)@, node@),
            match r {
                Some(was) => old(self)@.nodes.contains_key(node@) && was@
                    == old(self)@.nodes[node@],
                None => !old(self)@.nodes.contains_key(node@),
            },
    {
        self.node_types.remove(node);
        let r = self.nodes.remove(node);
        match &r {
            Some(was) => {
                match &was.info.addr {
                    Some(addr) => {
                        self.addr_to_node.remove(addr.as_str());
                    },
                    None => {},
                }
            },
            None => {},
        }
        proof {
            let want = dropped(old(self)@, node@);
            if r is Some {
                assert(r->0@ == old(self)@.nodes[node@]);
            }
            assert(self@.nodes =~= want.nodes);
            assert(self@.addrs =~= want.addrs);
            assert(self@.types =~= want.types);
            assert(self@ =~= want);
        }
        r
    }

    /// Ends the connection of a node, of either kind.
    pub fn disconnect_from(&mut self, node: &str) -> (r: (Result<(), DistError>, Vec<Action>))
        requires
            old(self).wf(),
        ensures
            final(self).wf(),
            final(self)@ == cut(old(self)@, node@),
            actions(r.1@) == cut_actions(old(self)@, node@),
            if old(self)@.nodes.contains_key(node@) || old(self)@.erlang.contains_key(node@) {
                r.0 is Ok
            } else {
                r.0 matches Err(DistError::NotConnected(n)) && n@ == node@
            },
    {
        let mut out = no_actions();
        let native = self.drop_node(node);
        let erlang = self.erlang_nodes.remove(node);
        proof {
            assert(self@.erlang =~= old(self)@.erlang.remove(node@));
            assert(self@ =~= cut(old(self)@, node@));
        }
        let known = native.is_some() || erlang.is_some();
        match native {
            Some(was) => {
                out.push(
                    Action::Close {
                        connection: was.connection,
                        reason: "disconnect requested".to_owned(),
                    },
                );
            },
            None => {},
        }
        match erlang {
            Some(_) => {
                out.push(Action::CloseErlang { node: node.to_owned() });
            },
            None => {},
        }
        if known {
            push_down(&mut out, node, "disconnect requested");
            assert(actions(out@) =~= cut_actions(old(self)@, node@));
            (Ok(()), out)
        } else {
            assert(actions(out@) =~= Seq::<ActionView>::empty());
            (Err(DistError::NotConnected(node.to_owned())), out)
        }
    }

    /// The address to which a new connection is to be made, which is noted. There is none if the
    /// node was never connected, or if a connection is being made.
    pub fn try_reconnect(&mut self, node: &str) -> (r: Option<String>)
        requires
            old(self).wf(),
        ensures
            final(self).wf(),
            if old(self)@.known.contains_key(node@) && !old(self)@.reconnecting.contains(node@) {
                &&& r matches Some(addr) && addr@ == old(self)@.known[node@]
                &&& final(self)@ == (ManagerView {
                    reconnecting: old(self)@.reconnecting.insert(node@),
                    ..old(self)@
                })
            } else {
                &&& r is None
                &&& final(self)@ == old(self)@
            },
    {
        let addr = match self.known_nodes.get(node) {
            Some(addr) => addr.clone(),
            None => {
                return None;
            },
        };
        if self.reconnecting.contains_key(node) {
            return None;
        }
        self.reconnecting.insert(node.to_owned(), ());
        proof {
            assert(self@.reconnecting =~= old(self)@.reconnecting.insert(node@));
            assert(self@ =~= ManagerView {
                reconnecting: old(self)@.reconnecting.insert(node@),
                ..old(self)@
            });
        }
        Some(addr)
    }

    /// Notes that the attempt to make a new connection to a node is over.
    pub fn reconnect_done(&mut self, node: &str)
        requires
            old(self).wf(),
        ensures
            final(self).wf(),
            final(self)@ == (ManagerView {
                reconnecting: old(self)@.reconnecting.remove(node@),
                ..old(self)@
            }),
    {
        self.reconnecting.remove(node);
        proof {
            assert(self@.reconnecting =~= old(self)@.reconnecting.remove(node@));
            assert(self@ =~= ManagerView {
                reconnecting: old(self)@.reconnecting.remove(node@),
                ..old(self)@
            });
        }
    }

    /// Decides about a message for a remote process. A node that is not connected is not waited
    /// for: the message is refused, and a new connection may be made.
    pub fn send_to_remote(&mut self, pid: Pid, from: Option<Pid>, payload: Vec<u8>) -> (r: SendStep)
        requires
            old(self).wf(),
        ensures
            final(self).wf(),
            if old(self)@.nodes.contains_key(pid@.node) {
                &&& final(self)@ == old(self)@
                &&& r matches SendStep::Queue { connection, msg } && connection
                    == old(self)@.nodes[pid@.node].connection && msg@ == (DistMessageView::Send {
                    to: pid@,
                    from: crate::process::pid_option(from),
                    payload: payload@,
                })
            } else {
                &&& r matches SendStep::Refused { error, reconnect }
                &&& error matches DistError::NotConnected(n) && n@ == pid@.node
                &&& if old(self)@.known.contains_key(pid@.node)
                    && !old(self)@.reconnecting.contains(pid@.node) {
                    &&& reconnect matches Some(addr) && addr@ == old(self)@.known[pid@.node]
                    &&& final(self)@ == (ManagerView {
                        reconnecting: old(self)@.reconnecting.insert(pid@.node),
                        ..old(self)@
                    })
                } else {
                    &&& reconnect is None
                    &&& final(self)@ == old(self)@
                }
            },
    {
        match self.nodes.get(pid.node()) {
            Some(node) => {
                let connection = node.connection;
                SendStep::Queue { connection, msg: DistMessage::Send { to: pid, from, payload } }
            },
            None => {
                let node = pid.node().to_owned();
                let reconnect = self.try_reconnect(node.as_str());
                SendStep::Refused { error: DistError::NotConnected(node), reconnect }
            },
        }
    }

    /// What became of the connection of a node at an address.
    pub fn connection_state(&self, node: &str, addr: &str) -> (r: ConnectionState)
        requires
            self.wf(),
        ensures
            r == state_of(self@, node@, addr@),
    {
        match self.nodes.get(node) {
            None => ConnectionState::Gone,
            Some(n) => {
                let ours = match &n.info.addr {
                    Some(a) => text::same_str(a.as_str(), addr),
                    None => false,
                };
                if ours {
                    ConnectionState::Ours(n.connection)
                } else {
                    ConnectionState::Replaced
                }
            },
        }
    }

    /// Cleans up behind the connection of a node at an address, unless the node has another
    /// connection by now.
    pub fn connection_ended(&mut self, node: &str, addr: &str) -> (r: Vec<Action>)
        requires
            old(self).wf(),
        ensures
            final(self).wf(),
            if state_of(old(self)@, node@, addr@) is Ours {
                &&& final(self)@ == dropped(old(self)@, node@)
                &&& actions(r@) == down_actions(node@, "connection closed"@)
            } else {
                &&& *final(self) == *old(self)
                &&& r@.len() == 0
            },
    {
        let mut out: Vec<Action> = Vec::new();
        match self.connection_state(node, addr) {
            ConnectionState::Ours(_) => {
                self.drop_node(node);
                push_down(&mut out, node, "connection closed");
                assert(actions(out@) =~= down_actions(node@, "connection closed"@));
            },
            _ => {},
        }
        out
    }

    /// The nodes that are connected, of either kind.
    pub fn connected_nodes(&self) -> (r: Vec<String>)
        requires
            self.wf(),
        ensures
            table::views(r@) == self.connected_order(),
            table::views(r@).no_duplicates(),
            table::views(r@).to_set() == self@.types.dom(),
    {
        proof {
            self.node_types.law_names();
        }
        let r = self.node_types.keys();
        assert(table::views(r@).to_set() =~= self@.types.dom());
        r
    }

    /// The native nodes that are connected.
    pub fn native_nodes(&self) -> (r: Vec<String>)
        requires
            self.wf(),
        ensures
            table::views(r@) == self.order(),
            table::views(r@).no_duplicates(),
            table::views(r@).to_set() == self@.nodes.dom(),
    {
        proof {
            self.law_order();
        }
        let r = self.nodes.keys();
        assert(table::views(r@).to_set() =~= self@.nodes.dom());
        r
    }

    /// The Erlang nodes that are connected.
    pub fn erlang_nodes(&self) -> (r: Vec<String>)
        requires
            self.wf(),
        ensures
            table::views(r@) == self.erlang_order(),
            table::views(r@).no_duplicates(),
            table::views(r@).to_set() == self@.erlang.dom(),
    {
        proof {
            self.erlang_nodes.law_names();
            assert forall|k: Seq<char>| self@.erlang.contains_key(k)
                == #[trigger] self.erlang_nodes@.contains_key(k) by {}
        }
        let r = self.erlang_nodes.keys();
        assert(table::views(r@).to_set() =~= self@.erlang.dom());
        r
    }

    /// The kind of a node that is connected.
    pub fn node_type(&self, node: &str) -> (r: Option<NodeType>)
        requires
            self.wf(),
        ensures
            r == (if self@.types.contains_key(node@) {
                Some(self@.types[node@])
            } else {
                None
            }),
    {
        match self.node_types.get(node) {
            Some(t) => Some(*t),
            None => None,
        }
    }

    /// Whether a node is a connected Erlang node.
    pub fn is_beam_node(&self, node: &str) -> (r: bool)
        requires
            self.wf(),
        ensures
            r == (self@.types.contains_key(node@) && self@.types[node@] == NodeType::Erlang),
    {
        match self.node_type(node) {
            Some(t) => t == NodeType::Erlang,
            None => false,
        }
    }

    /// What is known of a connected node.
    pub fn get_node_info(&self, node: &str) -> (r: Option<NodeInfo>)
        requires
            self.wf(),
        ensures
            if self@.nodes.contains_key(node@) {
                r matches Some(info) && info@ == self@.nodes[node@].info
            } else if self@.erlang.contains_key(node@) {
                r matches Some(info) && info@ == self@.erlang[node@]
            } else {
                r is None
            },
    {
        match self.nodes.get(node) {
            Some(n) => Some(n.info.clone()),
            None => match self.erlang_nodes.get(node) {
                Some(info) => Some(info.clone()),
                None => None,
            },
        }
    }

    /// The connection of a native node.
    pub fn get_node_tx(&self, node: &str) -> (r: Option<u64>)
        requires
            self.wf(),
        ensures
            r == (if self@.nodes.contains_key(node@) {
                Some(self@.nodes[node@].connection)
            } else {
                None
            }),
    {
        match self.nodes.get(node) {
            Some(n) => Some(n.connection),
            None => None,
        }
    }

    /// Notes who waits for a pong.
    pub fn register_ping(&mut self, node: &str, seq: u64, waiter: u64)
        requires
            old(self).wf(),
        ensures
            final(self).wf(),
            final(self)@ == (ManagerView {
                pings: old(self)@.pings.insert((node@, seq), waiter),
                ..old(self)@
            }),
    {
        let mut seqs: Table<u64, u64> = match self.pending_pings.remove(node) {
            Some(t) => t,
            None => Table::new(),
        };
        seqs.insert(seq, waiter);
        self.pending_pings.insert(node.to_owned(), seqs);
        assert(self@.pings =~= old(self)@.pings.insert((node@, seq), waiter));
        assert(self@ =~= ManagerView {
            pings: old(self)@.pings.insert((node@, seq), waiter),
            ..old(self)@
        });
    }

    /// Takes out who waits for a pong that has come.
    pub fn complete_ping(&mut self, node: &str, seq: u64) -> (r: Option<u64>)
        requires
            old(self).wf(),
        ensures
            final(self).wf(),
            final(self)@ == (ManagerView {
                pings: old(self)@.pings.remove((node@, seq)),
                ..old(self)@
            }),
            r == (if old(self)@.pings.contains_key((node@, seq)) {
                Some(old(self)@.pings[(node@, seq)])
            } else {
                None
            }),
    {
        let r = match self.pending_pings.remove(node) {
            Some(t) => {
                let mut seqs = t;
                let waiter = seqs.remove(&seq);
                self.pending_pings.insert(node.to_owned(), seqs);
                waiter
            },
            None => None,
        };
        assert(self@.pings =~= old(self)@.pings.remove((node@, seq)));
        assert(self@ =~= ManagerView {
            pings: old(self)@.pings.remove((node@, seq)),
            ..old(self)@
        });
        r
    }
}

impl View for DistributionManager {
    type V = ManagerView;

    closed spec fn view(&self) -> ManagerView {
        ManagerView {
            name: self.node_name@,
            creation: self.creation,
            nodes: self.nodes@.map_values(|n: ConnectedNode| n@),
            addrs: self.addr_to_node@.map_values(|s: String| s@),
            known: self.known_nodes@.map_values(|s: String| s@),
            reconnecting: self.reconnecting@.dom(),
            erlang: self.erlang_nodes@.map_values(|i: NodeInfo| i@),
            types: self.node_types@,
            pings: waiters(self.pending_pings@),
        }
    }
}

/// The manager once a node has been heard of.
pub open spec fn touched(m: ManagerView, node: Seq<char>, now: u64) -> ManagerView {
    if m.nodes.contains_key(node) {
        ManagerView {
            nodes: m.nodes.insert(node, NodeView { last_seen_ms: now, ..m.nodes[node] }),
            ..m
        }
    } else {
        m
    }
}

/// What follows from a message of a node. `alive` says of the process that a monitor watches
/// whether it lives, where that is known.
pub open spec fn incoming(
    m: ManagerView,
    from_node: Seq<char>,
    msg: DistMessageView,
    alive: Option<bool>,
    now: u64,
) -> (ManagerView, Seq<ActionView>) {
    match msg {
        DistMessageView::Send { to, from: _, payload } => if to.node == m.name {
            (m, seq![ActionView::Deliver { to, payload }])
        } else {
            (m, Seq::empty())
        },
        DistMessageView::Ping { seq } => if m.nodes.contains_key(from_node) {
            (
                touched(m, from_node, now),
                seq![
                    ActionView::Transmit {
                        connection: m.nodes[from_node].connection,
                        msg: DistMessageView::Pong { seq },
                    },
                ],
            )
        } else {
            (m, Seq::empty())
        },
        DistMessageView::Pong { seq } => (
            ManagerView {
                pings: m.pings.remove((from_node, seq)),
                ..touched(m, from_node, now)
            },
            if m.pings.contains_key((from_node, seq)) {
                seq![ActionView::PongReceived { waiter: m.pings[(from_node, seq)] }]
            } else {
                Seq::empty()
            },
        ),
        DistMessageView::MonitorNode { requesting_pid } => (
            m,
            seq![ActionView::AddNodeMonitor { node: from_node, pid: requesting_pid }],
        ),
        DistMessageView::DemonitorNode { requesting_pid } => (
            m,
            seq![ActionView::RemoveNodeMonitor { node: from_node, pid: requesting_pid }],
        ),
        DistMessageView::GlobalRegistry { payload } => (
            m,
            seq![ActionView::RegistryMessage { node: from_node, payload }],
        ),
        DistMessageView::ProcessGroups { payload } => (
            m,
            seq![ActionView::GroupsMessage { node: from_node, payload }],
        ),
        DistMessageView::MonitorProcess { from, target, reference } => (
            m,
            seq![ActionView::AddMonitor { target, from, reference, node: from_node }] + (
            if alive == Some(false) {
                (if m.nodes.contains_key(from_node) {
                    seq![
                        ActionView::Transmit {
                            connection: m.nodes[from_node].connection,
                            msg: DistMessageView::ProcessDown {
                                reference,
                                pid: target,
                                reason: "noproc"@,
                            },
                        },
                    ]
                } else {
                    Seq::empty()
                }) + seq![ActionView::RemoveMonitor { target, from, reference }]
            } else {
                Seq::empty()
            }),
        ),
        DistMessageView::DemonitorProcess { from, target, reference } => (
            m,
            seq![ActionView::RemoveMonitor { target, from, reference }],
        ),
        DistMessageView::ProcessDown { reference, pid, reason } => (
            m,
            seq![ActionView::ProcessDown { reference, pid, reason }],
        ),
        DistMessageView::Link { from, target } => (
            m,
            seq![ActionView::Link { from, target, node: from_node }],
        ),
        DistMessageView::Unlink { from, target } => (
            m,
            seq![ActionView::Unlink { from, target }],
        ),
        DistMessageView::Exit { from, target, reason } => (
            m,
            seq![ActionView::Exit { from, target, reason }],
        ),
        _ => (m, Seq::empty()),
    }
}

/// One beat for the nodes named. Those that were silent for too long in `start` are dropped, the
/// others get a ping, each with a number of its own.
pub open spec fn beat(
    start: ManagerView,
    names: Seq<Seq<char>>,
    now: u64,
    seq: u64,
) -> (ManagerView, Seq<ActionView>, u64)
    decreases names.len(),
{
    if names.len() == 0 {
        (start, Seq::empty(), seq)
    } else {
        let (m, done, n) = beat(start, names.drop_last(), now, seq);
        let node = names.last();
        if timed_out(start.nodes[node], now) {
            (
                dropped(m, node),
                done + (seq![
                    ActionView::Close {
                        connection: start.nodes[node].connection,
                        reason: "heartbeat timeout"@,
                    },
                ] + down_actions(node, "heartbeat timeout"@)),
                n,
            )
        } else {
            (
                m,
                done.push(
                    ActionView::Transmit {
                        connection: start.nodes[node].connection,
                        msg: DistMessageView::Ping { seq: n },
                    },
                ),
                next_seq(n),
            )
        }
    }
}

/// A beat touches no node but those named, and of those only the silent ones.
pub proof fn lemma_beat(start: ManagerView, names: Seq<Seq<char>>, now: u64, seq: u64)
    ensures
        ({
            let m = beat(start, names, now, seq).0;
            &&& m.known == start.known
            &&& m.name == start.name
            &&& m.creation == start.creation
            &&& m.reconnecting == start.reconnecting
            &&& m.erlang == start.erlang
            &&& m.pings == start.pings
            &&& forall|k: Seq<char>| #[trigger]
                m.nodes.contains_key(k) <==> start.nodes.contains_key(k) && !(names.contains(k)
                    && timed_out(start.nodes[k], now))
            &&& forall|k: Seq<char>| #[trigger]
                m.nodes.contains_key(k) ==> m.nodes[k] == start.nodes[k]
            &&& forall|k: Seq<char>| #[trigger]
                m.types.contains_key(k) <==> start.types.contains_key(k) && !(names.contains(k)
                    && timed_out(start.nodes[k], now))
            &&& forall|k: Seq<char>| #[trigger]
                m.types.contains_key(k) ==> m.types[k] == start.types[k]
        }),
    decreases names.len(),
{
    if names.len() > 0 {
        lemma_beat(start, names.drop_last(), now, seq);
        assert(names =~= names.drop_last().push(names.last()));
        assert forall|k: Seq<char>| names.contains(k) <==> names.drop_last().contains(k) || k
            == names.last() by {
            if names.contains(k) {
                let i = choose|i: int| 0 <= i < names.len() && names[i] == k;
                if i < names.len() - 1 {
                    assert(names.drop_last()[i] == k);
                }
            }
            if names.drop_last().contains(k) {
                let i = choose|i: int|
                    0 <= i < names.drop_last().len() && names.drop_last()[i] == k;
                assert(names[i] == k);
            }
        }
    }
}

impl DistributionManager {
    fn touch(&mut self, node: &str, now: u64)
        requires
            old(self).wf(),
        ensures
            final(self).wf(),
            final(self)@ == touched(old(self)@, node@, now),
    {
        match self.nodes.get(node) {
            Some(n) => {
                let mut fresh = ConnectedNode {
                    info: n.info.clone(),
                    connection: n.connection,
                    last_seen_ms: n.last_seen_ms,
                };
                fresh.touch(now);
                self.nodes.insert(node.to_owned(), fresh);
                assert(self@.nodes =~= touched(old(self)@, node@, now).nodes);
            },
            None => {},
        }
        assert(self@ =~= touched(old(self)@, node@, now));
    }

    /// Decides about a message of a node. A message for a process of another node, an end that
    /// is announced and whatever else is not expected is passed over.
    pub fn handle_incoming_message(
        &mut self,
        from_node: &str,
        msg: DistMessage,
        alive: Option<bool>,
        now: u64,
    ) -> (r: Vec<Action>)
        requires
            old(self).wf(),
        ensures
            final(self).wf(),
            final(self)@ == incoming(old(self)@, from_node@, msg@, alive, now).0,
            actions(r@) == incoming(old(self)@, from_node@, msg@, alive, now).1,
    {
        match msg {
            DistMessage::Send { to, from: _, payload } => if to.is_local(self.node_name.as_str()) {
                one(Action::Deliver { to, payload })
            } else {
                no_actions()
            },
            DistMessage::Ping { seq } => match self.get_node_tx(from_node) {
                Some(connection) => {
                    self.touch(from_node, now);
                    one(Action::Transmit { connection, msg: DistMessage::Pong { seq } })
                },
                None => no_actions(),
            },
            DistMessage::Pong { seq } => {
                self.touch(from_node, now);
                match self.complete_ping(from_node, seq) {
                    Some(waiter) => one(Action::PongReceived { waiter }),
                    None => no_actions(),
                }
            },
            DistMessage::MonitorNode { requesting_pid } => one(
                Action::AddNodeMonitor { node: from_node.to_owned(), pid: requesting_pid },
            ),
            DistMessage::DemonitorNode { requesting_pid } => one(
                Action::RemoveNodeMonitor { node: from_node.to_owned(), pid: requesting_pid },
            ),
            DistMessage::GlobalRegistry { payload } => one(
                Action::RegistryMessage { node: from_node.to_owned(), payload },
            ),
            DistMessage::ProcessGroups { payload } => one(
                Action::GroupsMessage { node: from_node.to_owned(), payload },
            ),
            DistMessage::MonitorProcess { from, target, reference } => {
                let dead = match alive {
                    Some(lives) => !lives,
                    None => false,
                };
                let mut out = one(
                    Action::AddMonitor {
                        target: target.clone(),
                        from: from.clone(),
                        reference,
                        node: from_node.to_owned(),
                    },
                );
                if dead {
                    match self.get_node_tx(from_node) {
                        Some(connection) => {
                            let down = DistMessage::ProcessDown {
                                reference,
                                pid: target.clone(),
                                reason: "noproc".to_owned(),
                            };
                            out.push(Action::Transmit { connection, msg: down });
                        },
                        None => {},
                    }
                    out.push(Action::RemoveMonitor { target, from, reference });
                }
                assert(actions(out@) =~= incoming(
                    old(self)@,
                    from_node@,
                    msg@,
                    alive,
                    now,
                ).1);
                out
            },
            DistMessage::DemonitorProcess { from, target, reference } => one(
                Action::RemoveMonitor { target, from, reference },
            ),
            DistMessage::ProcessDown { reference, pid, reason } => one(
                Action::ProcessDown { reference, pid, reason },
            ),
            DistMessage::Link { from, target } => one(
                Action::Link { from, target, node: from_node.to_owned() },
            ),
            DistMessage::Unlink { from, target } => one(Action::Unlink { from, target }),
            DistMessage::Exit { from, target, reason } => one(
                Action::Exit { from, target, reason },
            ),
            _ => no_actions(),
        }
    }

    /// One beat: nodes that were silent for too long are dropped, the others get a ping.
    pub fn heartbeat(&mut self, now: u64, seq: u64) -> (r: (Vec<Action>, u64))
        requires
            old(self).wf(),
        ensures
            final(self).wf(),
            final(self)@ == beat(old(self)@, old(self).order(), now, seq).0,
            actions(r.0@) == beat(old(self)@, old(self).order(), now, seq).1,
            r.1 == beat(old(self)@, old(self).order(), now, seq).2,
    {
        let ghost start = self@;
        let ghost names = self.order();
        proof {
            self.law_order();
        }
        let keys = self.native_nodes();
        let mut silent: Vec<bool> = Vec::new();
        let mut connections: Vec<u64> = Vec::new();
        let mut i: usize = 0;
        while i < keys.len()
            invariant
                i <= keys@.len(),
                self.wf(),
                self@ == start,
                table::views(keys@) == names,
                forall|k: Seq<char>| names.contains(k) <==> #[trigger] start.nodes.contains_key(k),
                silent@.len() == i,
                connections@.len() == i,
                forall|j: int|
                    0 <= j < i ==> #[trigger] silent@[j] == timed_out(start.nodes[names[j]], now),
                forall|j: int|
                    0 <= j < i ==> #[trigger] connections@[j] == start.nodes[names[j]].connection,
            decreases keys@.len() - i,
        {
            assert(names[i as int] == keys@[i as int]@);
            assert(names.contains(names[i as int]));
            match self.nodes.get(keys[i].as_str()) {
                Some(n) => {
                    silent.push(n.is_timed_out(now));
                    connections.push(n.connection);
                },
                None => {
                    assert(start.nodes.contains_key(names[i as int]));
                    silent.push(false);
                    connections.push(0);
                },
            }
            i = i + 1;
        }
        let mut out: Vec<Action> = Vec::new();
        let mut n: u64 = seq;
        let mut i: usize = 0;
        proof {
            assert(names.take(0) =~= Seq::empty());
            assert(actions(out@) =~= Seq::empty());
        }
        while i < keys.len()
            invariant
                i <= keys@.len(),
                self.wf(),
                table::views(keys@) == names,
                names.no_duplicates(),
                forall|k: Seq<char>| names.contains(k) <==> #[trigger] start.nodes.contains_key(k),
                silent@.len() == keys@.len(),
                connections@.len() == keys@.len(),
                forall|j: int|
                    0 <= j < keys@.len() ==> #[trigger] silent@[j] == timed_out(
                        start.nodes[names[j]],
                        now,
                    ),
                forall|j: int|
                    0 <= j < keys@.len() ==> #[trigger] connections@[j]
                        == start.nodes[names[j]].connection,
                self@ == beat(start, names.take(i as int), now, seq).0,
                actions(out@) == beat(start, names.take(i as int), now, seq).1,
                n == beat(start, names.take(i as int), now, seq).2,
            decreases keys@.len() - i,
        {
            let ghost before = actions(out@);
            let ghost m = self@;
            proof {
                assert(names.take(i + 1).drop_last() =~= names.take(i as int));
                assert(names.take(i + 1).last() == names[i as int]);
                assert(names[i as int] == keys@[i as int]@);
                lemma_beat(start, names.take(i as int), now, seq);
                assert(names.contains(names[i as int]));
                assert(!names.take(i as int).contains(names[i as int]));
            }
            if silent[i] {
                match self.drop_node(keys[i].as_str()) {
                    Some(_) => {
                        out.push(
                            Action::Close {
                                connection: connections[i],
                                reason: "heartbeat timeout".to_owned(),
                            },
                        );
                        let ghost mid = actions(out@);
                        push_down(&mut out, keys[i].as_str(), "heartbeat timeout");
                        proof {
                            let close = ActionView::Close {
                                connection: start.nodes[names[i as int]].connection,
                                reason: "heartbeat timeout"@,
                            };
                            assert(mid =~= before.push(close));
                            assert(actions(out@) =~= before + (seq![close] + down_actions(
                                names[i as int],
                                "heartbeat timeout"@,
                            )));
                        }
                    },
                    None => {
                        assert(m.nodes.contains_key(names[i as int]));
                    },
                }
            } else {
                out.push(
                    Action::Transmit {
                        connection: connections[i],
                        msg: DistMessage::Ping { seq: n },
                    },
                );
                proof {
                    assert(actions(out@) =~= before.push(
                        ActionView::Transmit {
                            connection: start.nodes[names[i as int]].connection,
                            msg: DistMessageView::Ping { seq: n },
                        },
                    ));
                }
                n = advance(n);
            }
            i = i + 1;
        }
        assert(names.take(names.len() as int) =~= names);
        (out, n)
    }

    /// Whether an Erlang node is connected.
    pub fn is_erlang_connected(&self, node: &str) -> (r: bool)
        requires
            self.wf(),
        ensures
            r == self@.erlang.contains_key(node@),
    {
        self.erlang_nodes.contains_key(node)
    }

    /// Whether a connection to an Erlang node can be made: it can, unless there is one.
    pub fn connect_erlang(&self, remote_node: &str) -> (r: Result<(), DistError>)
        requires
            self.wf(),
        ensures
            if self@.erlang.contains_key(remote_node@) {
                r matches Err(DistError::AlreadyConnected(n)) && n@ == remote_node@
            } else {
                r is Ok
            },
    {
        if self.erlang_nodes.contains_key(remote_node) {
            return Err(DistError::AlreadyConnected(remote_node.to_owned()));
        }
        Ok(())
    }

    /// Completes a connection to an Erlang node.
    pub fn erlang_connected(&mut self, remote_node: &str)
        requires
            old(self).wf(),
        ensures
            final(self).wf(),
            final(self)@ == (ManagerView {
                erlang: old(self)@.erlang.insert(
                    remote_node@,
                    NodeInfoView { name: remote_node@, addr: None, creation: 0 },
                ),
                types: old(self)@.types.insert(remote_node@, NodeType::Erlang),
                ..old(self)@
            }),
    {
        let info = NodeInfo { name: remote_node.to_owned(), addr: None, creation: 0 };
        self.erlang_nodes.insert(remote_node.to_owned(), info);
        self.node_types.insert(remote_node.to_owned(), NodeType::Erlang);
        proof {
            assert(self@.erlang =~= old(self)@.erlang.insert(remote_node@, info@));
            assert(self@ =~= ManagerView {
                erlang: old(self)@.erlang.insert(remote_node@, info@),
                types: old(self)@.types.insert(remote_node@, NodeType::Erlang),
                ..old(self)@
            });
        }
    }

    /// Notes that the connection to an Erlang node has ended.
    pub fn erlang_disconnected(&mut self, remote_node: &str)
        requires
            old(self).wf(),
        ensures
            final(self).wf(),
            final(self)@ == (ManagerView {
                erlang: old(self)@.erlang.remove(remote_node@),
                types: old(self)@.types.remove(remote_node@),
                ..old(self)@
            }),
    {
        self.erlang_nodes.remove(remote_node);
        self.node_types.remove(remote_node);
        proof {
            assert(self@.erlang =~= old(self)@.erlang.remove(remote_node@));
            assert(self@ =~= ManagerView {
                erlang: old(self)@.erlang.remove(remote_node@),
                types: old(self)@.types.remove(remote_node@),
                ..old(self)@
            });
        }
    }
}

/// After a beat no node is left that was silent for too long, and every other node is left as
/// it was.
pub proof fn law_beat_drops_exactly_the_silent(
    start: ManagerView,
    names: Seq<Seq<char>>,
    now: u64,
    seq: u64,
    node: Seq<char>,
)
    requires
        forall|k: Seq<char>| names.contains(k) <==> #[trigger] start.nodes.contains_key(k),
    ensures
        beat(start, names, now, seq).0.nodes.contains_key(node) <==> start.nodes.contains_key(node)
            && !timed_out(start.nodes[node], now),
        beat(start, names, now, seq).0.nodes.contains_key(node) ==> beat(
            start,
            names,
            now,
            seq,
        ).0.nodes[node] == start.nodes[node],
{
    lemma_beat(start, names, now, seq);
}

/// In a beat every node that is left gets a ping.
pub proof fn law_beat_pings_the_living(
    start: ManagerView,
    names: Seq<Seq<char>>,
    now: u64,
    seq: u64,
    i: int,
)
    requires
        0 <= i < names.len(),
        !timed_out(start.nodes[names[i]], now),
    ensures
        exists|n: u64|
            beat(start, names, now, seq).1.contains(
                ActionView::Transmit {
                    connection: start.nodes[names[i]].connection,
                    msg: #[trigger] ping_of(n),
                },
            ),
    decreases names.len(),
{
    let (m, done, n) = beat(start, names.drop_last(), now, seq);
    let all = beat(start, names, now, seq).1;
    let connection = start.nodes[names[i]].connection;
    if i == names.len() - 1 {
        let a = ActionView::Transmit { connection, msg: ping_of(n) };
        assert(all == done.push(a));
        assert(all[done.len() as int] == a);
    } else {
        assert(names.drop_last()[i] == names[i]);
        law_beat_pings_the_living(start, names.drop_last(), now, seq, i);
        let k = choose|k: u64|
            done.contains(ActionView::Transmit { connection, msg: #[trigger] ping_of(k) });
        let a = ActionView::Transmit { connection, msg: ping_of(k) };
        let j = choose|j: int| 0 <= j < done.len() && done[j] == a;
        assert(all[j] == a);
    }
}

/// The ping with a number.
pub open spec fn ping_of(n: u64) -> DistMessageView {
    DistMessageView::Ping { seq: n }
}

/// A ping of a connected node is answered with the pong of its number on the node's connection,
/// and counts as a sign of life.
pub proof fn law_ping_is_answered(m: ManagerView, node: Seq<char>, seq: u64, now: u64)
    requires
        m.nodes.contains_key(node),
    ensures
        incoming(m, node, ping_of(seq), None, now).1 == seq![
            ActionView::Transmit {
                connection: m.nodes[node].connection,
                msg: DistMessageView::Pong { seq },
            },
        ],
        !timed_out(incoming(m, node, ping_of(seq), None, now).0.nodes[node], now),
{
}

/// A pong wakes the one who waits for it, once.
pub proof fn law_pong_wakes_once(m: ManagerView, node: Seq<char>, seq: u64, now: u64)
    requires
        m.pings.contains_key((node, seq)),
    ensures
        ({
            let (after, done) = incoming(m, node, DistMessageView::Pong { seq }, None, now);
            &&& done == seq![ActionView::PongReceived { waiter: m.pings[(node, seq)] }]
            &&& incoming(after, node, DistMessageView::Pong { seq }, None, now).1 == Seq::<
                ActionView,
            >::empty()
        }),
{
}

/// The end of a connection that has been replaced leaves the new connection alone.
pub proof fn law_replaced_connection_survives(
    m: ManagerView,
    node: Seq<char>,
    old_addr: Seq<char>,
    new_addr: Seq<char>,
    creation: u32,
    connection: u64,
    now: u64,
)
    requires
        old_addr != new_addr,
    ensures
        state_of(
            stored(
                m,
                node,
                NodeInfoView { name: node, addr: Some(new_addr), creation },
                new_addr,
                connection,
                now,
            ),
            node,
            old_addr,
        ) == ConnectionState::Replaced,
{
}

/// A node that has been connected and dropped again is not connected, but its address is known:
/// a message to it is refused and leads to a new connection.
pub proof fn law_address_outlives_the_connection(
    m: ManagerView,
    node: Seq<char>,
    info: NodeInfoView,
    addr: Seq<char>,
    connection: u64,
    now: u64,
)
    ensures
        ({
            let after = dropped(stored(m, node, info, addr, connection, now), node);
            &&& !after.nodes.contains_key(node)
            &&& !after.types.contains_key(node)
            &&& after.known.contains_key(node)
            &&& after.known[node] == addr
        }),
{
}

} // verus!
