//! What the distribution manager asks to be done.

use vstd::prelude::*;

use crate::distribution::protocol::{DistMessage, DistMessageView};
use crate::process::{Pid, PidView};

verus! {

/// What something to be done stands for.
pub enum ActionView {
    /// Close a connection.
    Close {
        /// The connection.
        connection: u64,
        /// What the peer is told.
        reason: Seq<char>,
    },
    /// Close the connection to an Erlang node.
    CloseErlang {
        /// The node.
        node: Seq<char>,
    },
    /// Tell the processes that watch a node that it is down.
    NotifyNodeDown {
        /// The node.
        node: Seq<char>,
        /// Why.
        reason: Seq<char>,
    },
    /// End the monitors of and the links to the processes of a node.
    ProcessesDown {
        /// The node.
        node: Seq<char>,
    },
    /// Take the processes of a node out of the process groups.
    RemoveMembers {
        /// The node.
        node: Seq<char>,
    },
    /// Ask a node for its part of the global registry.
    SyncRegistry {
        /// The node.
        node: Seq<char>,
    },
    /// Ask a node for its process groups.
    SyncGroups {
        /// The node.
        node: Seq<char>,
    },
    /// Put a message into the queue of a connection.
    Transmit {
        /// The connection.
        connection: u64,
        /// The message.
        msg: DistMessageView,
    },
    /// Put a message into the mailbox of a local process.
    Deliver {
        /// The process.
        to: PidView,
        /// The message.
        payload: Seq<u8>,
    },
    /// A remote process watches this node.
    AddNodeMonitor {
        /// The node of the process.
        node: Seq<char>,
        /// The process.
        pid: PidView,
    },
    /// A remote process no longer watches this node.
    RemoveNodeMonitor {
        /// The node of the process.
        node: Seq<char>,
        /// The process.
        pid: PidView,
    },
    /// Hand a message to the global registry.
    RegistryMessage {
        /// The node that sent it.
        node: Seq<char>,
        /// The message.
        payload: Seq<u8>,
    },
    /// Hand a message to the process groups.
    GroupsMessage {
        /// The node that sent it.
        node: Seq<char>,
        /// The message.
        payload: Seq<u8>,
    },
    /// A remote process watches a local one.
    AddMonitor {
        /// The local process.
        target: PidView,
        /// The remote process.
        from: PidView,
        /// The reference of the monitor.
        reference: u64,
        /// The node of the remote process.
        node: Seq<char>,
    },
    /// A remote process no longer watches a local one.
    RemoveMonitor {
        /// The local process.
        target: PidView,
        /// The remote process.
        from: PidView,
        /// The reference of the monitor.
        reference: u64,
    },
    /// A remote process that is watched has ended.
    ProcessDown {
        /// The reference of the monitor.
        reference: u64,
        /// The process.
        pid: PidView,
        /// Why.
        reason: Seq<char>,
    },
    /// Link a remote process to a local one.
    Link {
        /// The remote process.
        from: PidView,
        /// The local process.
        target: PidView,
        /// The node of the remote process.
        node: Seq<char>,
    },
    /// Take a link back.
    Unlink {
        /// The remote process.
        from: PidView,
        /// The local process.
        target: PidView,
    },
    /// A remote process that is linked has ended.
    Exit {
        /// The remote process.
        from: PidView,
        /// The local process.
        target: PidView,
        /// Why.
        reason: Seq<char>,
    },
    /// Tell the one who waits for a pong that it came.
    PongReceived {
        /// Who waits.
        waiter: u64,
    },
}

/// Something to be done.
pub enum Action {
    /// Close a connection.
    Close {
        /// The connection.
        connection: u64,
        /// What the peer is told.
        reason: String,
    },
    /// Close the connection to an Erlang node.
    CloseErlang {
        /// The node.
        node: String,
    },
    /// Tell the processes that watch a node that it is down.
    NotifyNodeDown {
        /// The node.
        node: String,
        /// Why.
        reason: String,
    },
    /// End the monitors of and the links to the processes of a node.
    ProcessesDown {
        /// The node.
        node: String,
    },
    /// Take the processes of a node out of the process groups.
    RemoveMembers {
        /// The node.
        node: String,
    },
    /// Ask a node for its part of the global registry.
    SyncRegistry {
        /// The node.
        node: String,
    },
    /// Ask a node for its process groups.
    SyncGroups {
        /// The node.
        node: String,
    },
    /// Put a message into the queue of a connection.
    Transmit {
        /// The connection.
        connection: u64,
        /// The message.
        msg: DistMessage,
    },
    /// Put a message into the mailbox of a local process.
    Deliver {
        /// The process.
        to: Pid,
        /// The message.
        payload: Vec<u8>,
    },
    /// A remote process watches this node.
    AddNodeMonitor {
        /// The node of the process.
        node: String,
        /// The process.
        pid: Pid,
    },
    /// A remote process no longer watches this node.
    RemoveNodeMonitor {
        /// The node of the process.
        node: String,
        /// The process.
        pid: Pid,
    },
    /// Hand a message to the global registry.
    RegistryMessage {
        /// The node that sent it.
        node: String,
        /// The message.
        payload: Vec<u8>,
    },
    /// Hand a message to the process groups.
    GroupsMessage {
        /// The node that sent it.
        node: String,
        /// The message.
        payload: Vec<u8>,
    },
    /// A remote process watches a local one.
    AddMonitor {
        /// The local process.
        target: Pid,
        /// The remote process.
        from: Pid,
        /// The reference of the monitor.
        reference: u64,
        /// The node of the remote process.
        node: String,
    },
    /// A remote process no longer watches a local one.
    RemoveMonitor {
        /// The local process.
        target: Pid,
        /// The remote process.
        from: Pid,
        /// The reference of the monitor.
        reference: u64,
    },
    /// A remote process that is watched has ended.
    ProcessDown {
        /// The reference of the monitor.
        reference: u64,
        /// The process.
        pid: Pid,
        /// Why.
        reason: String,
    },
    /// Link a remote process to a local one.
    Link {
        /// The remote process.
        from: Pid,
        /// The local process.
        target: Pid,
        /// The node of the remote process.
        node: String,
    },
    /// Take a link back.
    Unlink {
        /// The remote process.
        from: Pid,
        /// The local process.
        target: Pid,
    },
    /// A remote process that is linked has ended.
    Exit {
        /// The remote process.
        from: Pid,
        /// The local process.
        target: Pid,
        /// Why.
        reason: String,
    },
    /// Tell the one who waits for a pong that it came.
    PongReceived {
        /// Who waits.
        waiter: u64,
    },
}

impl View for Action {
    type V = ActionView;

    open spec fn view(&self) -> ActionView {
        match *self {
            Action::Close { connection, reason } => ActionView::Close {
                connection: connection,
                reason: reason@,
            },
            Action::CloseErlang { node } => ActionView::CloseErlang { node: node@ },
            Action::NotifyNodeDown { node, reason } => ActionView::NotifyNodeDown {
                node: node@,
                reason: reason@,
            },
            Action::ProcessesDown { node } => ActionView::ProcessesDown {
                node: node@,
            },
            Action::RemoveMembers { node } => ActionView::RemoveMembers {
                node: node@,
            },
            Action::SyncRegistry { node } => ActionView::SyncRegistry {
                node: node@,
            },
            Action::SyncGroups { node } => ActionView::SyncGroups {
                node: node@,
            },
            Action::Transmit { connection, msg } => ActionView::Transmit {
                connection: connection,
                msg: msg@,
            },
            Action::Deliver { to, payload } => ActionView::Deliver {
                to: to@,
                payload: payload@,
            },
            Action::AddNodeMonitor { node, pid } => ActionView::AddNodeMonitor {
                node: node@,
                pid: pid@,
            },
            Action::RemoveNodeMonitor { node, pid } => ActionView::RemoveNodeMonitor {
                node: node@,
                pid: pid@,
            },
            Action::RegistryMessage { node, payload } => ActionView::RegistryMessage {
                node: node@,
                payload: payload@,
            },
            Action::GroupsMessage { node, payload } => ActionView::GroupsMessage {
                node: node@,
                payload: payload@,
            },
            Action::AddMonitor { target, from, reference, node } => ActionView::AddMonitor {
                target: target@,
                from: from@,
                reference: reference,
                node: node@,
            },
            Action::RemoveMonitor { target, from, reference } => ActionView::RemoveMonitor {
                target: target@,
                from: from@,
                reference: reference,
            },
            Action::ProcessDown { reference, pid, reason } => ActionView::ProcessDown {
                reference: reference,
                pid: pid@,
                reason: reason@,
            },
            Action::Link { from, target, node } => ActionView::Link {
                from: from@,
                target: target@,
                node: node@,
            },
            Action::Unlink { from, target } => ActionView::Unlink {
                from: from@,
                target: target@,
            },
            Action::Exit { from, target, reason } => ActionView::Exit {
                from: from@,
                target: target@,
                reason: reason@,
            },
            Action::PongReceived { waiter } => ActionView::PongReceived {
                waiter: waiter,
            },
        }
    }
}

} // verus!
