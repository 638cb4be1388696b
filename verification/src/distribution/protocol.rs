//! The messages between nodes, their encoding and their framing.

use vstd::prelude::*;

use crate::codec;
use crate::process::{Pid, PidView};
use crate::wire;

verus! {

/// What goes wrong between nodes.
#[derive(Debug)]
pub enum DistError {
    /// The node is connected already.
    AlreadyConnected(String),
    /// A connection could not be made.
    Connect(String),
    /// The connection was closed.
    ConnectionClosed,
    /// A message could not be read.
    Decode(String),
    /// A message could not be written.
    Encode(String),
    /// The handshake went wrong.
    Handshake(String),
    /// An address is none.
    InvalidAddress(String),
    /// Reading or writing failed.
    Io(String),
    /// The node is not connected.
    NotConnected(String),
    /// Distribution has not been started.
    NotInitialized,
}

/// What a message between nodes stands for.
pub enum DistMessageView {
    /// Opens a handshake.
    Hello {
        /// The name of the sender.
        node_name: Seq<char>,
        /// The incarnation of the sender.
        creation: u32,
    },
    /// Answers a handshake.
    Welcome {
        /// The name of the sender.
        node_name: Seq<char>,
        /// The incarnation of the sender.
        creation: u32,
    },
    /// A message for a process.
    Send {
        /// The receiver.
        to: PidView,
        /// The sender, if it is a process.
        from: Option<PidView>,
        /// The message.
        payload: Seq<u8>,
    },
    /// Asks for a pong.
    Ping {
        /// The number of the ping.
        seq: u64,
    },
    /// Answers a ping.
    Pong {
        /// The number of the ping.
        seq: u64,
    },
    /// A process wants to be told when the receiver goes down.
    MonitorNode {
        /// The process.
        requesting_pid: PidView,
    },
    /// A process no longer wants to be told.
    DemonitorNode {
        /// The process.
        requesting_pid: PidView,
    },
    /// The sender is about to go down.
    NodeGoingDown {
        /// Why.
        reason: Seq<char>,
    },
    /// A message of the global registry.
    GlobalRegistry {
        /// The message.
        payload: Seq<u8>,
    },
    /// A message of the process groups.
    ProcessGroups {
        /// The message.
        payload: Seq<u8>,
    },
    /// A process wants to be told when another one ends.
    MonitorProcess {
        /// The process that watches.
        from: PidView,
        /// The process watched.
        target: PidView,
        /// The reference of the monitor.
        reference: u64,
    },
    /// A process no longer wants to be told.
    DemonitorProcess {
        /// The process that watched.
        from: PidView,
        /// The process watched.
        target: PidView,
        /// The reference of the monitor.
        reference: u64,
    },
    /// A process watched has ended.
    ProcessDown {
        /// The reference of the monitor.
        reference: u64,
        /// The process.
        pid: PidView,
        /// Why.
        reason: Seq<char>,
    },
    /// Links two processes.
    Link {
        /// The process of the sender.
        from: PidView,
        /// The process of the receiver.
        target: PidView,
    },
    /// Takes a link back.
    Unlink {
        /// The process of the sender.
        from: PidView,
        /// The process of the receiver.
        target: PidView,
    },
    /// A linked process has ended.
    Exit {
        /// The process that ended.
        from: PidView,
        /// The process linked to it.
        target: PidView,
        /// Why.
        reason: Seq<char>,
    },
    /// Asks for a process.
    Spawn {
        /// The reference of the request.
        reference: u64,
        /// The process that asks.
        from: PidView,
        /// The module of the function.
        module: Seq<char>,
        /// The function to run.
        function: Seq<char>,
        /// The encoded arguments.
        args: Seq<u8>,
        /// Whether to link the processes.
        link: bool,
        /// Whether to watch the new process.
        monitor: bool,
    },
    /// Answers a request for a process.
    SpawnReply {
        /// The reference of the request.
        reference: u64,
        /// The new process.
        pid: Option<PidView>,
        /// The reference of the monitor.
        monitor_ref: Option<u64>,
        /// What went wrong.
        error: Option<Seq<char>>,
    },
}

/// A message between nodes.
#[derive(Debug)]
pub enum DistMessage {
    /// Opens a handshake.
    Hello {
        /// The name of the sender.
        node_name: String,
        /// The incarnation of the sender.
        creation: u32,
    },
    /// Answers a handshake.
    Welcome {
        /// The name of the sender.
        node_name: String,
        /// The incarnation of the sender.
        creation: u32,
    },
    /// A message for a process.
    Send {
        /// The receiver.
        to: Pid,
        /// The sender, if it is a process.
        from: Option<Pid>,
        /// The message.
        payload: Vec<u8>,
    },
    /// Asks for a pong.
    Ping {
        /// The number of the ping.
        seq: u64,
    },
    /// Answers a ping.
    Pong {
        /// The number of the ping.
        seq: u64,
    },
    /// A process wants to be told when the receiver goes down.
    MonitorNode {
        /// The process.
        requesting_pid: Pid,
    },
    /// A process no longer wants to be told.
    DemonitorNode {
        /// The process.
        requesting_pid: Pid,
    },
    /// The sender is about to go down.
    NodeGoingDown {
        /// Why.
        reason: String,
    },
    /// A message of the global registry.
    GlobalRegistry {
        /// The message.
        payload: Vec<u8>,
    },
    /// A message of the process groups.
    ProcessGroups {
        /// The message.
        payload: Vec<u8>,
    },
    /// A process wants to be told when another one ends.
    MonitorProcess {
        /// The process that watches.
        from: Pid,
        /// The process watched.
        target: Pid,
        /// The reference of the monitor.
        reference: u64,
    },
    /// A process no longer wants to be told.
    DemonitorProcess {
        /// The process that watched.
        from: Pid,
        /// The process watched.
        target: Pid,
        /// The reference of the monitor.
        reference: u64,
    },
    /// A process watched has ended.
    ProcessDown {
        /// The reference of the monitor.
        reference: u64,
        /// The process.
        pid: Pid,
        /// Why.
        reason: String,
    },
    /// Links two processes.
    Link {
        /// The process of the sender.
        from: Pid,
        /// The process of the receiver.
        target: Pid,
    },
    /// Takes a link back.
    Unlink {
        /// The process of the sender.
        from: Pid,
        /// The process of the receiver.
        target: Pid,
    },
    /// A linked process has ended.
    Exit {
        /// The process that ended.
        from: Pid,
        /// The process linked to it.
        target: Pid,
        /// Why.
        reason: String,
    },
    /// Asks for a process.
    Spawn {
        /// The reference of the request.
        reference: u64,
        /// The process that asks.
        from: Pid,
        /// The module of the function.
        module: String,
        /// The function to run.
        function: String,
        /// The encoded arguments.
        args: Vec<u8>,
        /// Whether to link the processes.
        link: bool,
        /// Whether to watch the new process.
        monitor: bool,
    },
    /// Answers a request for a process.
    SpawnReply {
        /// The reference of the request.
        reference: u64,
        /// The new process.
        pid: Option<Pid>,
        /// The reference of the monitor.
        monitor_ref: Option<u64>,
        /// What went wrong.
        error: Option<String>,
    },
}

impl View for DistMessage {
    type V = DistMessageView;

    open spec fn view(&self) -> DistMessageView {
        match *self {
            DistMessage::Hello { node_name, creation } => DistMessageView::Hello {
                node_name: node_name@,
                creation: creation,
            },
            DistMessage::Welcome { node_name, creation } => DistMessageView::Welcome {
                node_name: node_name@,
                creation: creation,
            },
            DistMessage::Send { to, from, payload } => DistMessageView::Send {
                to: to@,
                from: crate::process::pid_option(from),
                payload: payload@,
            },
            DistMessage::Ping { seq } => DistMessageView::Ping {
                seq: seq,
            },
            DistMessage::Pong { seq } => DistMessageView::Pong {
                seq: seq,
            },
            DistMessage::MonitorNode { requesting_pid } => DistMessageView::MonitorNode {
                requesting_pid: requesting_pid@,
            },
            DistMessage::DemonitorNode { requesting_pid } => DistMessageView::DemonitorNode {
                requesting_pid: requesting_pid@,
            },
            DistMessage::NodeGoingDown { reason } => DistMessageView::NodeGoingDown {
                reason: reason@,
            },
            DistMessage::GlobalRegistry { payload } => DistMessageView::GlobalRegistry {
                payload: payload@,
            },
            DistMessage::ProcessGroups { payload } => DistMessageView::ProcessGroups {
                payload: payload@,
            },
            DistMessage::MonitorProcess {
                from,
                target,
                reference
            } => DistMessageView::MonitorProcess {
                from: from@,
                target: target@,
                reference: reference,
            },
            DistMessage::DemonitorProcess {
                from,
                target,
                reference
            } => DistMessageView::DemonitorProcess {
                from: from@,
                target: target@,
                reference: reference,
            },
            DistMessage::ProcessDown { reference, pid, reason } => DistMessageView::ProcessDown {
                reference: reference,
                pid: pid@,
                reason: reason@,
            },
            DistMessage::Link { from, target } => DistMessageView::Link {
                from: from@,
                target: target@,
            },
            DistMessage::Unlink { from, target } => DistMessageView::Unlink {
                from: from@,
                target: target@,
            },
            DistMessage::Exit { from, target, reason } => DistMessageView::Exit {
                from: from@,
                target: target@,
                reason: reason@,
            },
            DistMessage::Spawn {
                reference,
                from,
                module,
                function,
                args,
                link,
                monitor
            } => DistMessageView::Spawn {
                reference: reference,
                from: from@,
                module: module@,
                function: function@,
                args: args@,
                link: link,
                monitor: monitor,
            },
            DistMessage::SpawnReply {
                reference,
                pid,
                monitor_ref,
                error
            } => DistMessageView::SpawnReply {
                reference: reference,
                pid: crate::process::pid_option(pid),
                monitor_ref: monitor_ref,
                error: crate::text::str_option(error),
            },
        }
    }
}

/// A message in bytes: its variant, then its fields.
pub open spec fn dist_wire(m: DistMessageView) -> Seq<u8> {
    match m {
        DistMessageView::Hello { node_name, creation } => wire::postcard_u32(0)
            + wire::postcard_str(node_name)
            + wire::postcard_u32(creation),
        DistMessageView::Welcome { node_name, creation } => wire::postcard_u32(1)
            + wire::postcard_str(node_name)
            + wire::postcard_u32(creation),
        DistMessageView::Send { to, from, payload } => wire::postcard_u32(2)
            + codec::pid_wire(to)
            + codec::pid_option_wire(from)
            + wire::postcard_bytes(payload),
        DistMessageView::Ping { seq } => wire::postcard_u32(3)
            + wire::postcard_u64(seq),
        DistMessageView::Pong { seq } => wire::postcard_u32(4)
            + wire::postcard_u64(seq),
        DistMessageView::MonitorNode { requesting_pid } => wire::postcard_u32(5)
            + codec::pid_wire(requesting_pid),
        DistMessageView::DemonitorNode { requesting_pid } => wire::postcard_u32(6)
            + codec::pid_wire(requesting_pid),
        DistMessageView::NodeGoingDown { reason } => wire::postcard_u32(7)
            + wire::postcard_str(reason),
        DistMessageView::GlobalRegistry { payload } => wire::postcard_u32(8)
            + wire::postcard_bytes(payload),
        DistMessageView::ProcessGroups { payload } => wire::postcard_u32(9)
            + wire::postcard_bytes(payload),
        DistMessageView::MonitorProcess { from, target, reference } => wire::postcard_u32(10)
            + codec::pid_wire(from)
            + codec::pid_wire(target)
            + wire::postcard_u64(reference),
        DistMessageView::DemonitorProcess { from, target, reference } => wire::postcard_u32(11)
            + codec::pid_wire(from)
            + codec::pid_wire(target)
            + wire::postcard_u64(reference),
        DistMessageView::ProcessDown { reference, pid, reason } => wire::postcard_u32(12)
            + wire::postcard_u64(reference)
            + codec::pid_wire(pid)
            + wire::postcard_str(reason),
        DistMessageView::Link { from, target } => wire::postcard_u32(13)
            + codec::pid_wire(from)
            + codec::pid_wire(target),
        DistMessageView::Unlink { from, target } => wire::postcard_u32(14)
            + codec::pid_wire(from)
            + codec::pid_wire(target),
        DistMessageView::Exit { from, target, reason } => wire::postcard_u32(15)
            + codec::pid_wire(from)
            + codec::pid_wire(target)
            + wire::postcard_str(reason),
        DistMessageView::Spawn {
            reference,
            from,
            module,
            function,
            args,
            link,
            monitor
        } => wire::postcard_u32(16)
            + wire::postcard_u64(reference)
            + codec::pid_wire(from)
            + wire::postcard_str(module)
            + wire::postcard_str(function)
            + wire::postcard_bytes(args)
            + wire::postcard_bool(link)
            + wire::postcard_bool(monitor),
        DistMessageView::SpawnReply { reference, pid, monitor_ref, error } => wire::postcard_u32(17)
            + wire::postcard_u64(reference)
            + codec::pid_option_wire(pid)
            + codec::u64_option_wire(monitor_ref)
            + codec::text_option_wire(error),
    }
}

/// The fields of `Hello` in some bytes.
pub open spec fn hello_read(b0: Seq<u8>) -> Option<DistMessageView> {
    match wire::postcard_take_str(b0) {
        None => None,
        Some((node_name, b1)) => match wire::postcard_take_u32(b1) {
            None => None,
            Some((creation, _)) => Some(DistMessageView::Hello { node_name, creation }),
        },
    }
}

/// What is wrong with bytes that do not hold the fields of `Hello`.
pub open spec fn hello_fault(b0: Seq<u8>) -> Seq<char> {
    match wire::postcard_take_str(b0) {
        None => wire::postcard_str_fault(b0),
        Some((_, b1)) => wire::postcard_u32_fault(b1),
    }
}

/// The fields of `Welcome` in some bytes.
pub open spec fn welcome_read(b0: Seq<u8>) -> Option<DistMessageView> {
    match wire::postcard_take_str(b0) {
        None => None,
        Some((node_name, b1)) => match wire::postcard_take_u32(b1) {
            None => None,
            Some((creation, _)) => Some(DistMessageView::Welcome { node_name, creation }),
        },
    }
}

/// What is wrong with bytes that do not hold the fields of `Welcome`.
pub open spec fn welcome_fault(b0: Seq<u8>) -> Seq<char> {
    match wire::postcard_take_str(b0) {
        None => wire::postcard_str_fault(b0),
        Some((_, b1)) => wire::postcard_u32_fault(b1),
    }
}

/// The fields of `Send` in some bytes.
pub open spec fn send_read(b0: Seq<u8>) -> Option<DistMessageView> {
    match codec::pid_read(b0) {
        None => None,
        Some((to, b1)) => match codec::pid_option_read(b1) {
            None => None,
            Some((from, b2)) => match wire::postcard_take_bytes(b2) {
                None => None,
                Some((payload, _)) => Some(DistMessageView::Send { to, from, payload }),
            },
        },
    }
}

/// What is wrong with bytes that do not hold the fields of `Send`.
pub open spec fn send_fault(b0: Seq<u8>) -> Seq<char> {
    match codec::pid_read(b0) {
        None => codec::pid_fault(b0),
        Some((_, b1)) => match codec::pid_option_read(b1) {
            None => codec::pid_option_fault(b1),
            Some((_, b2)) => wire::postcard_bytes_fault(b2),
        },
    }
}

/// The fields of `Ping` in some bytes.
pub open spec fn ping_read(b0: Seq<u8>) -> Option<DistMessageView> {
    match wire::postcard_take_u64(b0) {
        None => None,
        Some((seq, _)) => Some(DistMessageView::Ping { seq }),
    }
}

/// What is wrong with bytes that do not hold the fields of `Ping`.
pub open spec fn ping_fault(b0: Seq<u8>) -> Seq<char> {
    wire::postcard_u64_fault(b0)
}

/// The fields of `Pong` in some bytes.
pub open spec fn pong_read(b0: Seq<u8>) -> Option<DistMessageView> {
    match wire::postcard_take_u64(b0) {
        None => None,
        Some((seq, _)) => Some(DistMessageView::Pong { seq }),
    }
}

/// What is wrong with bytes that do not hold the fields of `Pong`.
pub open spec fn pong_fault(b0: Seq<u8>) -> Seq<char> {
    wire::postcard_u64_fault(b0)
}

/// The fields of `MonitorNode` in some bytes.
pub open spec fn monitor_node_read(b0: Seq<u8>) -> Option<DistMessageView> {
    match codec::pid_read(b0) {
        None => None,
        Some((requesting_pid, _)) => Some(DistMessageView::MonitorNode { requesting_pid }),
    }
}

/// What is wrong with bytes that do not hold the fields of `MonitorNode`.
pub open spec fn monitor_node_fault(b0: Seq<u8>) -> Seq<char> {
    codec::pid_fault(b0)
}

/// The fields of `DemonitorNode` in some bytes.
pub open spec fn demonitor_node_read(b0: Seq<u8>) -> Option<DistMessageView> {
    match codec::pid_read(b0) {
        None => None,
        Some((requesting_pid, _)) => Some(DistMessageView::DemonitorNode { requesting_pid }),
    }
}

/// What is wrong with bytes that do not hold the fields of `DemonitorNode`.
pub open spec fn demonitor_node_fault(b0: Seq<u8>) -> Seq<char> {
    codec::pid_fault(b0)
}

/// The fields of `NodeGoingDown` in some bytes.
pub open spec fn node_going_down_read(b0: Seq<u8>) -> Option<DistMessageView> {
    match wire::postcard_take_str(b0) {
        None => None,
        Some((reason, _)) => Some(DistMessageView::NodeGoingDown { reason }),
    }
}

/// What is wrong with bytes that do not hold the fields of `NodeGoingDown`.
pub open spec fn node_going_down_fault(b0: Seq<u8>) -> Seq<char> {
    wire::postcard_str_fault(b0)
}

/// The fields of `GlobalRegistry` in some bytes.
pub open spec fn global_registry_read(b0: Seq<u8>) -> Option<DistMessageView> {
    match wire::postcard_take_bytes(b0) {
        None => None,
        Some((payload, _)) => Some(DistMessageView::GlobalRegistry { payload }),
    }
}

/// What is wrong with bytes that do not hold the fields of `GlobalRegistry`.
pub open spec fn global_registry_fault(b0: Seq<u8>) -> Seq<char> {
    wire::postcard_bytes_fault(b0)
}

/// The fields of `ProcessGroups` in some bytes.
pub open spec fn process_groups_read(b0: Seq<u8>) -> Option<DistMessageView> {
    match wire::postcard_take_bytes(b0) {
        None => None,
        Some((payload, _)) => Some(DistMessageView::ProcessGroups { payload }),
    }
}

/// What is wrong with bytes that do not hold the fields of `ProcessGroups`.
pub open spec fn process_groups_fault(b0: Seq<u8>) -> Seq<char> {
    wire::postcard_bytes_fault(b0)
}

/// The fields of `MonitorProcess` in some bytes.
pub open spec fn monitor_process_read(b0: Seq<u8>) -> Option<DistMessageView> {
    match codec::pid_read(b0) {
        None => None,
        Some((from, b1)) => match codec::pid_read(b1) {
            None => None,
            Some((target, b2)) => match wire::postcard_take_u64(b2) {
                None => None,
                Some((reference, _)) => Some(
                    DistMessageView::MonitorProcess { from, target, reference }
                ),
            },
        },
    }
}

/// What is wrong with bytes that do not hold the fields of `MonitorProcess`.
pub open spec fn monitor_process_fault(b0: Seq<u8>) -> Seq<char> {
    match codec::pid_read(b0) {
        None => codec::pid_fault(b0),
        Some((_, b1)) => match codec::pid_read(b1) {
            None => codec::pid_fault(b1),
            Some((_, b2)) => wire::postcard_u64_fault(b2),
        },
    }
}

/// The fields of `DemonitorProcess` in some bytes.
pub open spec fn demonitor_process_read(b0: Seq<u8>) -> Option<DistMessageView> {
    match codec::pid_read(b0) {
        None => None,
        Some((from, b1)) => match codec::pid_read(b1) {
            None => None,
            Some((target, b2)) => match wire::postcard_take_u64(b2) {
                None => None,
                Some((reference, _)) => Some(
                    DistMessageView::DemonitorProcess { from, target, reference }
                ),
            },
        },
    }
}

/// What is wrong with bytes that do not hold the fields of `DemonitorProcess`.
pub open spec fn demonitor_process_fault(b0: Seq<u8>) -> Seq<char> {
    match codec::pid_read(b0) {
        None => codec::pid_fault(b0),
        Some((_, b1)) => match codec::pid_read(b1) {
            None => codec::pid_fault(b1),
            Some((_, b2)) => wire::postcard_u64_fault(b2),
        },
    }
}

/// The fields of `ProcessDown` in some bytes.
pub open spec fn process_down_read(b0: Seq<u8>) -> Option<DistMessageView> {
    match wire::postcard_take_u64(b0) {
        None => None,
        Some((reference, b1)) => match codec::pid_read(b1) {
            None => None,
            Some((pid, b2)) => match wire::postcard_take_str(b2) {
                None => None,
                Some((reason, _)) => Some(DistMessageView::ProcessDown { reference, pid, reason }),
            },
        },
    }
}

/// What is wrong with bytes that do not hold the fields of `ProcessDown`.
pub open spec fn process_down_fault(b0: Seq<u8>) -> Seq<char> {
    match wire::postcard_take_u64(b0) {
        None => wire::postcard_u64_fault(b0),
        Some((_, b1)) => match codec::pid_read(b1) {
            None => codec::pid_fault(b1),
            Some((_, b2)) => wire::postcard_str_fault(b2),
        },
    }
}

/// The fields of `Link` in some bytes.
pub open spec fn link_read(b0: Seq<u8>) -> Option<DistMessageView> {
    match codec::pid_read(b0) {
        None => None,
        Some((from, b1)) => match codec::pid_read(b1) {
            None => None,
            Some((target, _)) => Some(DistMessageView::Link { from, target }),
        },
    }
}

/// What is wrong with bytes that do not hold the fields of `Link`.
pub open spec fn link_fault(b0: Seq<u8>) -> Seq<char> {
    match codec::pid_read(b0) {
        None => codec::pid_fault(b0),
        Some((_, b1)) => codec::pid_fault(b1),
    }
}

/// The fields of `Unlink` in some bytes.
pub open spec fn unlink_read(b0: Seq<u8>) -> Option<DistMessageView> {
    match codec::pid_read(b0) {
        None => None,
        Some((from, b1)) => match codec::pid_read(b1) {
            None => None,
            Some((target, _)) => Some(DistMessageView::Unlink { from, target }),
        },
    }
}

/// What is wrong with bytes that do not hold the fields of `Unlink`.
pub open spec fn unlink_fault(b0: Seq<u8>) -> Seq<char> {
    match codec::pid_read(b0) {
        None => codec::pid_fault(b0),
        Some((_, b1)) => codec::pid_fault(b1),
    }
}

/// The fields of `Exit` in some bytes.
pub open spec fn exit_read(b0: Seq<u8>) -> Option<DistMessageView> {
    match codec::pid_read(b0) {
        None => None,
        Some((from, b1)) => match codec::pid_read(b1) {
            None => None,
            Some((target, b2)) => match wire::postcard_take_str(b2) {
                None => None,
                Some((reason, _)) => Some(DistMessageView::Exit { from, target, reason }),
            },
        },
    }
}

/// What is wrong with bytes that do not hold the fields of `Exit`.
pub open spec fn exit_fault(b0: Seq<u8>) -> Seq<char> {
    match codec::pid_read(b0) {
        None => codec::pid_fault(b0),
        Some((_, b1)) => match codec::pid_read(b1) {
            None => codec::pid_fault(b1),
            Some((_, b2)) => wire::postcard_str_fault(b2),
        },
    }
}

/// The fields of `Spawn` in some bytes.
pub open spec fn spawn_read(b0: Seq<u8>) -> Option<DistMessageView> {
    match wire::postcard_take_u64(b0) {
        None => None,
        Some((reference, b1)) => match codec::pid_read(b1) {
            None => None,
            Some((from, b2)) => match wire::postcard_take_str(b2) {
                None => None,
                Some((module, b3)) => match wire::postcard_take_str(b3) {
                    None => None,
                    Some((function, b4)) => match wire::postcard_take_bytes(b4) {
                        None => None,
                        Some((args, b5)) => match wire::postcard_take_bool(b5) {
                            None => None,
                            Some((link, b6)) => match wire::postcard_take_bool(b6) {
                                None => None,
                                Some((monitor, _)) => Some(
                                    DistMessageView::Spawn {
                                        reference,
                                        from,
                                        module,
                                        function,
                                        args,
                                        link,
                                        monitor
                                    }
                                ),
                            },
                        },
                    },
                },
            },
        },
    }
}

/// What is wrong with bytes that do not hold the fields of `Spawn`.
pub open spec fn spawn_fault(b0: Seq<u8>) -> Seq<char> {
    match wire::postcard_take_u64(b0) {
        None => wire::postcard_u64_fault(b0),
        Some((_, b1)) => match codec::pid_read(b1) {
            None => codec::pid_fault(b1),
            Some((_, b2)) => match wire::postcard_take_str(b2) {
                None => wire::postcard_str_fault(b2),
                Some((_, b3)) => match wire::postcard_take_str(b3) {
                    None => wire::postcard_str_fault(b3),
                    Some((_, b4)) => match wire::postcard_take_bytes(b4) {
                        None => wire::postcard_bytes_fault(b4),
                        Some((_, b5)) => match wire::postcard_take_bool(b5) {
                            None => wire::postcard_bool_fault(b5),
                            Some((_, b6)) => wire::postcard_bool_fault(b6),
                        },
                    },
                },
            },
        },
    }
}

/// The fields of `SpawnReply` in some bytes.
pub open spec fn spawn_reply_read(b0: Seq<u8>) -> Option<DistMessageView> {
    match wire::postcard_take_u64(b0) {
        None => None,
        Some((reference, b1)) => match codec::pid_option_read(b1) {
            None => None,
            Some((pid, b2)) => match codec::u64_option_read(b2) {
                None => None,
                Some((monitor_ref, b3)) => match codec::text_option_read(b3) {
                    None => None,
                    Some((error, _)) => Some(
                        DistMessageView::SpawnReply { reference, pid, monitor_ref, error }
                    ),
                },
            },
        },
    }
}

/// What is wrong with bytes that do not hold the fields of `SpawnReply`.
pub open spec fn spawn_reply_fault(b0: Seq<u8>) -> Seq<char> {
    match wire::postcard_take_u64(b0) {
        None => wire::postcard_u64_fault(b0),
        Some((_, b1)) => match codec::pid_option_read(b1) {
            None => codec::pid_option_fault(b1),
            Some((_, b2)) => match codec::u64_option_read(b2) {
                None => codec::u64_option_fault(b2),
                Some((_, b3)) => codec::text_option_fault(b3),
            },
        },
    }
}

/// The message that some bytes begin with.
pub open spec fn dist_read(b: Seq<u8>) -> Option<DistMessageView> {
    match wire::postcard_take_u32(b) {
        None => None,
        Some((kind, b0)) => if kind == 0 {
            hello_read(b0)
        } else if kind == 1 {
            welcome_read(b0)
        } else if kind == 2 {
            send_read(b0)
        } else if kind == 3 {
            ping_read(b0)
        } else if kind == 4 {
            pong_read(b0)
        } else if kind == 5 {
            monitor_node_read(b0)
        } else if kind == 6 {
            demonitor_node_read(b0)
        } else if kind == 7 {
            node_going_down_read(b0)
        } else if kind == 8 {
            global_registry_read(b0)
        } else if kind == 9 {
            process_groups_read(b0)
        } else if kind == 10 {
            monitor_process_read(b0)
        } else if kind == 11 {
            demonitor_process_read(b0)
        } else if kind == 12 {
            process_down_read(b0)
        } else if kind == 13 {
            link_read(b0)
        } else if kind == 14 {
            unlink_read(b0)
        } else if kind == 15 {
            exit_read(b0)
        } else if kind == 16 {
            spawn_read(b0)
        } else if kind == 17 {
            spawn_reply_read(b0)
        } else {
            None
        },
    }
}

/// What is wrong with bytes that do not begin with a message.
pub open spec fn dist_fault(b: Seq<u8>) -> Seq<char> {
    match wire::postcard_take_u32(b) {
        None => wire::postcard_u32_fault(b),
        Some((kind, b0)) => if kind == 0 {
            hello_fault(b0)
        } else if kind == 1 {
            welcome_fault(b0)
        } else if kind == 2 {
            send_fault(b0)
        } else if kind == 3 {
            ping_fault(b0)
        } else if kind == 4 {
            pong_fault(b0)
        } else if kind == 5 {
            monitor_node_fault(b0)
        } else if kind == 6 {
            demonitor_node_fault(b0)
        } else if kind == 7 {
            node_going_down_fault(b0)
        } else if kind == 8 {
            global_registry_fault(b0)
        } else if kind == 9 {
            process_groups_fault(b0)
        } else if kind == 10 {
            monitor_process_fault(b0)
        } else if kind == 11 {
            demonitor_process_fault(b0)
        } else if kind == 12 {
            process_down_fault(b0)
        } else if kind == 13 {
            link_fault(b0)
        } else if kind == 14 {
            unlink_fault(b0)
        } else if kind == 15 {
            exit_fault(b0)
        } else if kind == 16 {
            spawn_fault(b0)
        } else if kind == 17 {
            spawn_reply_fault(b0)
        } else {
            wire::BAD_VARIANT@
        },
    }
}

fn encode_hello(node_name: &String, creation: &u32) -> (r: Vec<u8>)
    ensures
        r@ == dist_wire((DistMessageView::Hello {
                node_name: node_name@,
                creation: *creation,
            })),
        dist_read(r@) == Some(
            (DistMessageView::Hello {
                node_name: node_name@,
                creation: *creation,
            }),
        ),
{
    let mut out = wire::put_u32(0);
    let ghost start = out@;
    let w_node_name = wire::put_str(node_name.as_str());
    wire::append_bytes(&mut out, w_node_name.as_slice());
    let w_creation = wire::put_u32(*creation);
    wire::append_bytes(&mut out, w_creation.as_slice());
    proof {
        assert(out@ =~= start
            + (wire::postcard_str(node_name@)
            + (wire::postcard_u32(*creation)
            + Seq::<u8>::empty())));
        assert(out@ =~= dist_wire((DistMessageView::Hello {
                node_name: node_name@,
                creation: *creation,
            })));
    }
    out
}

fn encode_welcome(node_name: &String, creation: &u32) -> (r: Vec<u8>)
    ensures
        r@ == dist_wire((DistMessageView::Welcome {
                node_name: node_name@,
                creation: *creation,
            })),
        dist_read(r@) == Some(
            (DistMessageView::Welcome {
                node_name: node_name@,
                creation: *creation,
            }),
        ),
{
    let mut out = wire::put_u32(1);
    let ghost start = out@;
    let w_node_name = wire::put_str(node_name.as_str());
    wire::append_bytes(&mut out, w_node_name.as_slice());
    let w_creation = wire::put_u32(*creation);
    wire::append_bytes(&mut out, w_creation.as_slice());
    proof {
        assert(out@ =~= start
            + (wire::postcard_str(node_name@)
            + (wire::postcard_u32(*creation)
            + Seq::<u8>::empty())));
        assert(out@ =~= dist_wire((DistMessageView::Welcome {
                node_name: node_name@,
                creation: *creation,
            })));
    }
    out
}

fn encode_send(
    to: &Pid,
    from: &Option<Pid>,
    payload: &Vec<u8>,
) -> (r: Vec<u8>)
    ensures
        r@ == dist_wire((DistMessageView::Send {
                to: to@,
                from: crate::process::pid_option(*from),
                payload: payload@,
            })),
        dist_read(r@) == Some(
            (DistMessageView::Send {
                to: to@,
                from: crate::process::pid_option(*from),
                payload: payload@,
            }),
        ),
{
    let mut out = wire::put_u32(2);
    let ghost start = out@;
    codec::put_pid(&mut out, to);
    codec::put_pid_option(&mut out, from);
    let w_payload = wire::put_bytes(payload.as_slice());
    wire::append_bytes(&mut out, w_payload.as_slice());
    proof {
        assert(out@ =~= start
            + (codec::pid_wire(to@)
            + (codec::pid_option_wire(crate::process::pid_option(*from))
            + (wire::postcard_bytes(payload@)
            + Seq::<u8>::empty()))));
        assert(out@ =~= dist_wire((DistMessageView::Send {
                to: to@,
                from: crate::process::pid_option(*from),
                payload: payload@,
            })));
    }
    out
}

fn encode_ping(seq: &u64) -> (r: Vec<u8>)
    ensures
        r@ == dist_wire((DistMessageView::Ping {
                seq: *seq,
            })),
        dist_read(r@) == Some(
            (DistMessageView::Ping {
                seq: *seq,
            }),
        ),
{
    let mut out = wire::put_u32(3);
    let ghost start = out@;
    let w_seq = wire::put_u64(*seq);
    wire::append_bytes(&mut out, w_seq.as_slice());
    proof {
        assert(out@ =~= start
            + (wire::postcard_u64(*seq)
            + Seq::<u8>::empty()));
        assert(out@ =~= dist_wire((DistMessageView::Ping {
                seq: *seq,
            })));
    }
    out
}

fn encode_pong(seq: &u64) -> (r: Vec<u8>)
    ensures
        r@ == dist_wire((DistMessageView::Pong {
                seq: *seq,
            })),
        dist_read(r@) == Some(
            (DistMessageView::Pong {
                seq: *seq,
            }),
        ),
{
    let mut out = wire::put_u32(4);
    let ghost start = out@;
    let w_seq = wire::put_u64(*seq);
    wire::append_bytes(&mut out, w_seq.as_slice());
    proof {
        assert(out@ =~= start
            + (wire::postcard_u64(*seq)
            + Seq::<u8>::empty()));
        assert(out@ =~= dist_wire((DistMessageView::Pong {
                seq: *seq,
            })));
    }
    out
}

fn encode_monitor_node(requesting_pid: &Pid) -> (r: Vec<u8>)
    ensures
        r@ == dist_wire((DistMessageView::MonitorNode {
                requesting_pid: requesting_pid@,
            })),
        dist_read(r@) == Some(
            (DistMessageView::MonitorNode {
                requesting_pid: requesting_pid@,
            }),
        ),
{
    let mut out = wire::put_u32(5);
    let ghost start = out@;
    codec::put_pid(&mut out, requesting_pid);
    proof {
        assert(out@ =~= start
            + (codec::pid_wire(requesting_pid@)
            + Seq::<u8>::empty()));
        assert(out@ =~= dist_wire((DistMessageView::MonitorNode {
                requesting_pid: requesting_pid@,
            })));
    }
    out
}

fn encode_demonitor_node(requesting_pid: &Pid) -> (r: Vec<u8>)
    ensures
        r@ == dist_wire((DistMessageView::DemonitorNode {
                requesting_pid: requesting_pid@,
            })),
        dist_read(r@) == Some(
            (DistMessageView::DemonitorNode {
                requesting_pid: requesting_pid@,
            }),
        ),
{
    let mut out = wire::put_u32(6);
    let ghost start = out@;
    codec::put_pid(&mut out, requesting_pid);
    proof {
        assert(out@ =~= start
            + (codec::pid_wire(requesting_pid@)
            + Seq::<u8>::empty()));
        assert(out@ =~= dist_wire((DistMessageView::DemonitorNode {
                requesting_pid: requesting_pid@,
            })));
    }
    out
}

fn encode_node_going_down(reason: &String) -> (r: Vec<u8>)
    ensures
        r@ == dist_wire((DistMessageView::NodeGoingDown {
                reason: reason@,
            })),
        dist_read(r@) == Some(
            (DistMessageView::NodeGoingDown {
                reason: reason@,
            }),
        ),
{
    let mut out = wire::put_u32(7);
    let ghost start = out@;
    let w_reason = wire::put_str(reason.as_str());
    wire::append_bytes(&mut out, w_reason.as_slice());
    proof {
        assert(out@ =~= start
            + (wire::postcard_str(reason@)
            + Seq::<u8>::empty()));
        assert(out@ =~= dist_wire((DistMessageView::NodeGoingDown {
                reason: reason@,
            })));
    }
    out
}

fn encode_global_registry(payload: &Vec<u8>) -> (r: Vec<u8>)
    ensures
        r@ == dist_wire((DistMessageView::GlobalRegistry {
                payload: payload@,
            })),
        dist_read(r@) == Some(
            (DistMessageView::GlobalRegistry {
                payload: payload@,
            }),
        ),
{
    let mut out = wire::put_u32(8);
    let ghost start = out@;
    let w_payload = wire::put_bytes(payload.as_slice());
    wire::append_bytes(&mut out, w_payload.as_slice());
    proof {
        assert(out@ =~= start
            + (wire::postcard_bytes(payload@)
            + Seq::<u8>::empty()));
        assert(out@ =~= dist_wire((DistMessageView::GlobalRegistry {
                payload: payload@,
            })));
    }
    out
}

fn encode_process_groups(payload: &Vec<u8>) -> (r: Vec<u8>)
    ensures
        r@ == dist_wire((DistMessageView::ProcessGroups {
                payload: payload@,
            })),
        dist_read(r@) == Some(
            (DistMessageView::ProcessGroups {
                payload: payload@,
            }),
        ),
{
    let mut out = wire::put_u32(9);
    let ghost start = out@;
    let w_payload = wire::put_bytes(payload.as_slice());
    wire::append_bytes(&mut out, w_payload.as_slice());
    proof {
        assert(out@ =~= start
            + (wire::postcard_bytes(payload@)
            + Seq::<u8>::empty()));
        assert(out@ =~= dist_wire((DistMessageView::ProcessGroups {
                payload: payload@,
            })));
    }
    out
}

fn encode_monitor_process(
    from: &Pid,
    target: &Pid,
    reference: &u64,
) -> (r: Vec<u8>)
    ensures
        r@ == dist_wire((DistMessageView::MonitorProcess {
                from: from@,
                target: target@,
                reference: *reference,
            })),
        dist_read(r@) == Some(
            (DistMessageView::MonitorProcess {
                from: from@,
                target: target@,
                reference: *reference,
            }),
        ),
{
    let mut out = wire::put_u32(10);
    let ghost start = out@;
    codec::put_pid(&mut out, from);
    codec::put_pid(&mut out, target);
    let w_reference = wire::put_u64(*reference);
    wire::append_bytes(&mut out, w_reference.as_slice());
    proof {
        assert(out@ =~= start
            + (codec::pid_wire(from@)
            + (codec::pid_wire(target@)
            + (wire::postcard_u64(*reference)
            + Seq::<u8>::empty()))));
        assert(out@ =~= dist_wire((DistMessageView::MonitorProcess {
                from: from@,
                target: target@,
                reference: *reference,
            })));
    }
    out
}

fn encode_demonitor_process(
    from: &Pid,
    target: &Pid,
    reference: &u64,
) -> (r: Vec<u8>)
    ensures
        r@ == dist_wire((DistMessageView::DemonitorProcess {
                from: from@,
                target: target@,
                reference: *reference,
            })),
        dist_read(r@) == Some(
            (DistMessageView::DemonitorProcess {
                from: from@,
                target: target@,
                reference: *reference,
            }),
        ),
{
    let mut out = wire::put_u32(11);
    let ghost start = out@;
    codec::put_pid(&mut out, from);
    codec::put_pid(&mut out, target);
    let w_reference = wire::put_u64(*reference);
    wire::append_bytes(&mut out, w_reference.as_slice());
    proof {
        assert(out@ =~= start
            + (codec::pid_wire(from@)
            + (codec::pid_wire(target@)
            + (wire::postcard_u64(*reference)
            + Seq::<u8>::empty()))));
        assert(out@ =~= dist_wire((DistMessageView::DemonitorProcess {
                from: from@,
                target: target@,
                reference: *reference,
            })));
    }
    out
}

fn encode_process_down(
    reference: &u64,
    pid: &Pid,
    reason: &String,
) -> (r: Vec<u8>)
    ensures
        r@ == dist_wire((DistMessageView::ProcessDown {
                reference: *reference,
                pid: pid@,
                reason: reason@,
            })),
        dist_read(r@) == Some(
            (DistMessageView::ProcessDown {
                reference: *reference,
                pid: pid@,
                reason: reason@,
            }),
        ),
{
    let mut out = wire::put_u32(12);
    let ghost start = out@;
    let w_reference = wire::put_u64(*reference);
    wire::append_bytes(&mut out, w_reference.as_slice());
    codec::put_pid(&mut out, pid);
    let w_reason = wire::put_str(reason.as_str());
    wire::append_bytes(&mut out, w_reason.as_slice());
    proof {
        assert(out@ =~= start
            + (wire::postcard_u64(*reference)
            + (codec::pid_wire(pid@)
            + (wire::postcard_str(reason@)
            + Seq::<u8>::empty()))));
        assert(out@ =~= dist_wire((DistMessageView::ProcessDown {
                reference: *reference,
                pid: pid@,
                reason: reason@,
            })));
    }
    out
}

fn encode_link(from: &Pid, target: &Pid) -> (r: Vec<u8>)
    ensures
        r@ == dist_wire((DistMessageView::Link {
                from: from@,
                target: target@,
            })),
        dist_read(r@) == Some(
            (DistMessageView::Link {
                from: from@,
                target: target@,
            }),
        ),
{
    let mut out = wire::put_u32(13);
    let ghost start = out@;
    codec::put_pid(&mut out, from);
    codec::put_pid(&mut out, target);
    proof {
        assert(out@ =~= start
            + (codec::pid_wire(from@)
            + (codec::pid_wire(target@)
            + Seq::<u8>::empty())));
        assert(out@ =~= dist_wire((DistMessageView::Link {
                from: from@,
                target: target@,
            })));
    }
    out
}

fn encode_unlink(from: &Pid, target: &Pid) -> (r: Vec<u8>)
    ensures
        r@ == dist_wire((DistMessageView::Unlink {
                from: from@,
                target: target@,
            })),
        dist_read(r@) == Some(
            (DistMessageView::Unlink {
                from: from@,
                target: target@,
            }),
        ),
{
    let mut out = wire::put_u32(14);
    let ghost start = out@;
    codec::put_pid(&mut out, from);
    codec::put_pid(&mut out, target);
    proof {
        assert(out@ =~= start
            + (codec::pid_wire(from@)
            + (codec::pid_wire(target@)
            + Seq::<u8>::empty())));
        assert(out@ =~= dist_wire((DistMessageView::Unlink {
                from: from@,
                target: target@,
            })));
    }
    out
}

fn encode_exit(
    from: &Pid,
    target: &Pid,
    reason: &String,
) -> (r: Vec<u8>)
    ensures
        r@ == dist_wire((DistMessageView::Exit {
                from: from@,
                target: target@,
                reason: reason@,
            })),
        dist_read(r@) == Some(
            (DistMessageView::Exit {
                from: from@,
                target: target@,
                reason: reason@,
            }),
        ),
{
    let mut out = wire::put_u32(15);
    let ghost start = out@;
    codec::put_pid(&mut out, from);
    codec::put_pid(&mut out, target);
    let w_reason = wire::put_str(reason.as_str());
    wire::append_bytes(&mut out, w_reason.as_slice());
    proof {
        assert(out@ =~= start
            + (codec::pid_wire(from@)
            + (codec::pid_wire(target@)
            + (wire::postcard_str(reason@)
            + Seq::<u8>::empty()))));
        assert(out@ =~= dist_wire((DistMessageView::Exit {
                from: from@,
                target: target@,
                reason: reason@,
            })));
    }
    out
}

fn encode_spawn(
    reference: &u64,
    from: &Pid,
    module: &String,
    function: &String,
    args: &Vec<u8>,
    link: &bool,
    monitor: &bool,
) -> (r: Vec<u8>)
    ensures
        r@ == dist_wire((DistMessageView::Spawn {
                reference: *reference,
                from: from@,
                module: module@,
                function: function@,
                args: args@,
                link: *link,
                monitor: *monitor,
            })),
        dist_read(r@) == Some(
            (DistMessageView::Spawn {
                reference: *reference,
                from: from@,
                module: module@,
                function: function@,
                args: args@,
                link: *link,
                monitor: *monitor,
            }),
        ),
{
    let mut out = wire::put_u32(16);
    let ghost start = out@;
    let w_reference = wire::put_u64(*reference);
    wire::append_bytes(&mut out, w_reference.as_slice());
    codec::put_pid(&mut out, from);
    let w_module = wire::put_str(module.as_str());
    wire::append_bytes(&mut out, w_module.as_slice());
    let w_function = wire::put_str(function.as_str());
    wire::append_bytes(&mut out, w_function.as_slice());
    let w_args = wire::put_bytes(args.as_slice());
    wire::append_bytes(&mut out, w_args.as_slice());
    let w_link = wire::put_bool(*link);
    wire::append_bytes(&mut out, w_link.as_slice());
    let w_monitor = wire::put_bool(*monitor);
    wire::append_bytes(&mut out, w_monitor.as_slice());
    proof {
        assert(out@ =~= start
            + (wire::postcard_u64(*reference)
            + (codec::pid_wire(from@)
            + (wire::postcard_str(module@)
            + (wire::postcard_str(function@)
            + (wire::postcard_bytes(args@)
            + (wire::postcard_bool(*link)
            + (wire::postcard_bool(*monitor)
            + Seq::<u8>::empty()))))))));
        assert(out@ =~= dist_wire((DistMessageView::Spawn {
                reference: *reference,
                from: from@,
                module: module@,
                function: function@,
                args: args@,
                link: *link,
                monitor: *monitor,
            })));
    }
    out
}

fn encode_spawn_reply(
    reference: &u64,
    pid: &Option<Pid>,
    monitor_ref: &Option<u64>,
    error: &Option<String>,
) -> (r: Vec<u8>)
    ensures
        r@ == dist_wire((DistMessageView::SpawnReply {
                reference: *reference,
                pid: crate::process::pid_option(*pid),
                monitor_ref: *monitor_ref,
                error: crate::text::str_option(*error),
            })),
        dist_read(r@) == Some(
            (DistMessageView::SpawnReply {
                reference: *reference,
                pid: crate::process::pid_option(*pid),
                monitor_ref: *monitor_ref,
                error: crate::text::str_option(*error),
            }),
        ),
{
    let mut out = wire::put_u32(17);
    let ghost start = out@;
    let w_reference = wire::put_u64(*reference);
    wire::append_bytes(&mut out, w_reference.as_slice());
    codec::put_pid_option(&mut out, pid);
    codec::put_u64_option(&mut out, monitor_ref);
    codec::put_text_option(&mut out, error);
    proof {
        assert(out@ =~= start
            + (wire::postcard_u64(*reference)
            + (codec::pid_option_wire(crate::process::pid_option(*pid))
            + (codec::u64_option_wire(*monitor_ref)
            + (codec::text_option_wire(crate::text::str_option(*error))
            + Seq::<u8>::empty())))));
        assert(out@ =~= dist_wire((DistMessageView::SpawnReply {
                reference: *reference,
                pid: crate::process::pid_option(*pid),
                monitor_ref: *monitor_ref,
                error: crate::text::str_option(*error),
            })));
    }
    out
}

fn decode_hello(b0: &[u8]) -> (r: Result<DistMessage, String>)
    ensures
        match r {
            Ok(m) => hello_read(b0@) == Some(m@),
            Err(e) => hello_read(b0@) is None && e@ == hello_fault(b0@),
        },
{
    match wire::take_str(b0) {
        Err(e) => Err(e),
        Ok((node_name, b1)) => match wire::take_u32(b1) {
            Err(e) => Err(e),
            Ok((creation, _)) => Ok(DistMessage::Hello { node_name, creation }),
        },
    }
}

fn decode_welcome(b0: &[u8]) -> (r: Result<DistMessage, String>)
    ensures
        match r {
            Ok(m) => welcome_read(b0@) == Some(m@),
            Err(e) => welcome_read(b0@) is None && e@ == welcome_fault(b0@),
        },
{
    match wire::take_str(b0) {
        Err(e) => Err(e),
        Ok((node_name, b1)) => match wire::take_u32(b1) {
            Err(e) => Err(e),
            Ok((creation, _)) => Ok(DistMessage::Welcome { node_name, creation }),
        },
    }
}

fn decode_send(b0: &[u8]) -> (r: Result<DistMessage, String>)
    ensures
        match r {
            Ok(m) => send_read(b0@) == Some(m@),
            Err(e) => send_read(b0@) is None && e@ == send_fault(b0@),
        },
{
    match codec::take_pid(b0) {
        Err(e) => Err(e),
        Ok((to, b1)) => match codec::take_pid_option(b1) {
            Err(e) => Err(e),
            Ok((from, b2)) => match wire::take_bytes(b2) {
                Err(e) => Err(e),
                Ok((payload, _)) => Ok(DistMessage::Send { to, from, payload }),
            },
        },
    }
}

fn decode_ping(b0: &[u8]) -> (r: Result<DistMessage, String>)
    ensures
        match r {
            Ok(m) => ping_read(b0@) == Some(m@),
            Err(e) => ping_read(b0@) is None && e@ == ping_fault(b0@),
        },
{
    match wire::take_u64(b0) {
        Err(e) => Err(e),
        Ok((seq, _)) => Ok(DistMessage::Ping { seq }),
    }
}

fn decode_pong(b0: &[u8]) -> (r: Result<DistMessage, String>)
    ensures
        match r {
            Ok(m) => pong_read(b0@) == Some(m@),
            Err(e) => pong_read(b0@) is None && e@ == pong_fault(b0@),
        },
{
    match wire::take_u64(b0) {
        Err(e) => Err(e),
        Ok((seq, _)) => Ok(DistMessage::Pong { seq }),
    }
}

fn decode_monitor_node(b0: &[u8]) -> (r: Result<DistMessage, String>)
    ensures
        match r {
            Ok(m) => monitor_node_read(b0@) == Some(m@),
            Err(e) => monitor_node_read(b0@) is None && e@ == monitor_node_fault(b0@),
        },
{
    match codec::take_pid(b0) {
        Err(e) => Err(e),
        Ok((requesting_pid, _)) => Ok(DistMessage::MonitorNode { requesting_pid }),
    }
}

fn decode_demonitor_node(b0: &[u8]) -> (r: Result<DistMessage, String>)
    ensures
        match r {
            Ok(m) => demonitor_node_read(b0@) == Some(m@),
            Err(e) => demonitor_node_read(b0@) is None && e@ == demonitor_node_fault(b0@),
        },
{
    match codec::take_pid(b0) {
        Err(e) => Err(e),
        Ok((requesting_pid, _)) => Ok(DistMessage::DemonitorNode { requesting_pid }),
    }
}

fn decode_node_going_down(b0: &[u8]) -> (r: Result<DistMessage, String>)
    ensures
        match r {
            Ok(m) => node_going_down_read(b0@) == Some(m@),
            Err(e) => node_going_down_read(b0@) is None && e@ == node_going_down_fault(b0@),
        },
{
    match wire::take_str(b0) {
        Err(e) => Err(e),
        Ok((reason, _)) => Ok(DistMessage::NodeGoingDown { reason }),
    }
}

fn decode_global_registry(b0: &[u8]) -> (r: Result<DistMessage, String>)
    ensures
        match r {
            Ok(m) => global_registry_read(b0@) == Some(m@),
            Err(e) => global_registry_read(b0@) is None && e@ == global_registry_fault(b0@),
        },
{
    match wire::take_bytes(b0) {
        Err(e) => Err(e),
        Ok((payload, _)) => Ok(DistMessage::GlobalRegistry { payload }),
    }
}

fn decode_process_groups(b0: &[u8]) -> (r: Result<DistMessage, String>)
    ensures
        match r {
            Ok(m) => process_groups_read(b0@) == Some(m@),
            Err(e) => process_groups_read(b0@) is None && e@ == process_groups_fault(b0@),
        },
{
    match wire::take_bytes(b0) {
        Err(e) => Err(e),
        Ok((payload, _)) => Ok(DistMessage::ProcessGroups { payload }),
    }
}

fn decode_monitor_process(b0: &[u8]) -> (r: Result<DistMessage, String>)
    ensures
        match r {
            Ok(m) => monitor_process_read(b0@) == Some(m@),
            Err(e) => monitor_process_read(b0@) is None && e@ == monitor_process_fault(b0@),
        },
{
    match codec::take_pid(b0) {
        Err(e) => Err(e),
        Ok((from, b1)) => match codec::take_pid(b1) {
            Err(e) => Err(e),
            Ok((target, b2)) => match wire::take_u64(b2) {
                Err(e) => Err(e),
                Ok((reference, _)) => Ok(DistMessage::MonitorProcess { from, target, reference }),
            },
        },
    }
}

fn decode_demonitor_process(b0: &[u8]) -> (r: Result<DistMessage, String>)
    ensures
        match r {
            Ok(m) => demonitor_process_read(b0@) == Some(m@),
            Err(e) => demonitor_process_read(b0@) is None && e@ == demonitor_process_fault(b0@),
        },
{
    match codec::take_pid(b0) {
        Err(e) => Err(e),
        Ok((from, b1)) => match codec::take_pid(b1) {
            Err(e) => Err(e),
            Ok((target, b2)) => match wire::take_u64(b2) {
                Err(e) => Err(e),
                Ok((reference, _)) => Ok(DistMessage::DemonitorProcess { from, target, reference }),
            },
        },
    }
}

fn decode_process_down(b0: &[u8]) -> (r: Result<DistMessage, String>)
    ensures
        match r {
            Ok(m) => process_down_read(b0@) == Some(m@),
            Err(e) => process_down_read(b0@) is None && e@ == process_down_fault(b0@),
        },
{
    match wire::take_u64(b0) {
        Err(e) => Err(e),
        Ok((reference, b1)) => match codec::take_pid(b1) {
            Err(e) => Err(e),
            Ok((pid, b2)) => match wire::take_str(b2) {
                Err(e) => Err(e),
                Ok((reason, _)) => Ok(DistMessage::ProcessDown { reference, pid, reason }),
            },
        },
    }
}

fn decode_link(b0: &[u8]) -> (r: Result<DistMessage, String>)
    ensures
        match r {
            Ok(m) => link_read(b0@) == Some(m@),
            Err(e) => link_read(b0@) is None && e@ == link_fault(b0@),
        },
{
    match codec::take_pid(b0) {
        Err(e) => Err(e),
        Ok((from, b1)) => match codec::take_pid(b1) {
            Err(e) => Err(e),
            Ok((target, _)) => Ok(DistMessage::Link { from, target }),
        },
    }
}

fn decode_unlink(b0: &[u8]) -> (r: Result<DistMessage, String>)
    ensures
        match r {
            Ok(m) => unlink_read(b0@) == Some(m@),
            Err(e) => unlink_read(b0@) is None && e@ == unlink_fault(b0@),
        },
{
    match codec::take_pid(b0) {
        Err(e) => Err(e),
        Ok((from, b1)) => match codec::take_pid(b1) {
            Err(e) => Err(e),
            Ok((target, _)) => Ok(DistMessage::Unlink { from, target }),
        },
    }
}

fn decode_exit(b0: &[u8]) -> (r: Result<DistMessage, String>)
    ensures
        match r {
            Ok(m) => exit_read(b0@) == Some(m@),
            Err(e) => exit_read(b0@) is None && e@ == exit_fault(b0@),
        },
{
    match codec::take_pid(b0) {
        Err(e) => Err(e),
        Ok((from, b1)) => match codec::take_pid(b1) {
            Err(e) => Err(e),
            Ok((target, b2)) => match wire::take_str(b2) {
                Err(e) => Err(e),
                Ok((reason, _)) => Ok(DistMessage::Exit { from, target, reason }),
            },
        },
    }
}

fn decode_spawn(b0: &[u8]) -> (r: Result<DistMessage, String>)
    ensures
        match r {
            Ok(m) => spawn_read(b0@) == Some(m@),
            Err(e) => spawn_read(b0@) is None && e@ == spawn_fault(b0@),
        },
{
    match wire::take_u64(b0) {
        Err(e) => Err(e),
        Ok((reference, b1)) => match codec::take_pid(b1) {
            Err(e) => Err(e),
            Ok((from, b2)) => match wire::take_str(b2) {
                Err(e) => Err(e),
                Ok((module, b3)) => match wire::take_str(b3) {
                    Err(e) => Err(e),
                    Ok((function, b4)) => match wire::take_bytes(b4) {
                        Err(e) => Err(e),
                        Ok((args, b5)) => match wire::take_bool(b5) {
                            Err(e) => Err(e),
                            Ok((link, b6)) => match wire::take_bool(b6) {
                                Err(e) => Err(e),
                                Ok((monitor, _)) => Ok(
                                    DistMessage::Spawn {
                                        reference,
                                        from,
                                        module,
                                        function,
                                        args,
                                        link,
                                        monitor
                                    }
                                ),
                            },
                        },
                    },
                },
            },
        },
    }
}

fn decode_spawn_reply(b0: &[u8]) -> (r: Result<DistMessage, String>)
    ensures
        match r {
            Ok(m) => spawn_reply_read(b0@) == Some(m@),
            Err(e) => spawn_reply_read(b0@) is None && e@ == spawn_reply_fault(b0@),
        },
{
    match wire::take_u64(b0) {
        Err(e) => Err(e),
        Ok((reference, b1)) => match codec::take_pid_option(b1) {
            Err(e) => Err(e),
            Ok((pid, b2)) => match codec::take_u64_option(b2) {
                Err(e) => Err(e),
                Ok((monitor_ref, b3)) => match codec::take_text_option(b3) {
                    Err(e) => Err(e),
                    Ok((error, _)) => Ok(
                        DistMessage::SpawnReply { reference, pid, monitor_ref, error }
                    ),
                },
            },
        },
    }
}

/// A message in bytes, from which it reads back.
pub fn encode_message(msg: &DistMessage) -> (r: Vec<u8>)
    ensures
        r@ == dist_wire(msg@),
        dist_read(r@) == Some(msg@),
{
    match msg {
        DistMessage::Hello { node_name, creation } => encode_hello(node_name, creation),
        DistMessage::Welcome { node_name, creation } => encode_welcome(node_name, creation),
        DistMessage::Send { to, from, payload } => encode_send(to, from, payload),
        DistMessage::Ping { seq } => encode_ping(seq),
        DistMessage::Pong { seq } => encode_pong(seq),
        DistMessage::MonitorNode { requesting_pid } => encode_monitor_node(requesting_pid),
        DistMessage::DemonitorNode { requesting_pid } => encode_demonitor_node(requesting_pid),
        DistMessage::NodeGoingDown { reason } => encode_node_going_down(reason),
        DistMessage::GlobalRegistry { payload } => encode_global_registry(payload),
        DistMessage::ProcessGroups { payload } => encode_process_groups(payload),
        DistMessage::MonitorProcess {
            from,
            target,
            reference
        } => encode_monitor_process(from, target, reference),
        DistMessage::DemonitorProcess {
            from,
            target,
            reference
        } => encode_demonitor_process(from, target, reference),
        DistMessage::ProcessDown {
            reference,
            pid,
            reason
        } => encode_process_down(reference, pid, reason),
        DistMessage::Link { from, target } => encode_link(from, target),
        DistMessage::Unlink { from, target } => encode_unlink(from, target),
        DistMessage::Exit { from, target, reason } => encode_exit(from, target, reason),
        DistMessage::Spawn {
            reference,
            from,
            module,
            function,
            args,
            link,
            monitor
        } => encode_spawn(reference, from, module, function, args, link, monitor),
        DistMessage::SpawnReply {
            reference,
            pid,
            monitor_ref,
            error
        } => encode_spawn_reply(reference, pid, monitor_ref, error),
    }
}

/// Reads a message.
pub fn decode_message(bytes: &[u8]) -> (r: Result<DistMessage, DistError>)
    ensures
        match r {
            Ok(m) => dist_read(bytes@) == Some(m@),
            Err(DistError::Decode(text)) => dist_read(bytes@) is None && text@
                == dist_fault(bytes@),
            Err(_) => false,
        },
{
    let (kind, b0) = match wire::take_u32(bytes) {
        Ok(x) => x,
        Err(e) => {
            return Err(DistError::Decode(e));
        },
    };
    let r = if kind == 0 {
        decode_hello(b0)
    } else if kind == 1 {
        decode_welcome(b0)
    } else if kind == 2 {
        decode_send(b0)
    } else if kind == 3 {
        decode_ping(b0)
    } else if kind == 4 {
        decode_pong(b0)
    } else if kind == 5 {
        decode_monitor_node(b0)
    } else if kind == 6 {
        decode_demonitor_node(b0)
    } else if kind == 7 {
        decode_node_going_down(b0)
    } else if kind == 8 {
        decode_global_registry(b0)
    } else if kind == 9 {
        decode_process_groups(b0)
    } else if kind == 10 {
        decode_monitor_process(b0)
    } else if kind == 11 {
        decode_demonitor_process(b0)
    } else if kind == 12 {
        decode_process_down(b0)
    } else if kind == 13 {
        decode_link(b0)
    } else if kind == 14 {
        decode_unlink(b0)
    } else if kind == 15 {
        decode_exit(b0)
    } else if kind == 16 {
        decode_spawn(b0)
    } else if kind == 17 {
        decode_spawn_reply(b0)
    } else {
        Err(wire::BAD_VARIANT.to_owned())
    };
    match r {
        Ok(m) => Ok(m),
        Err(e) => Err(DistError::Decode(e)),
    }
}

/// The four bytes of a number, the highest first.
pub open spec fn be_bytes(n: nat) -> Seq<u8> {
    seq![
        (n / 16777216 % 256) as u8,
        (n / 65536 % 256) as u8,
        (n / 256 % 256) as u8,
        (n % 256) as u8,
    ]
}

/// The number in the first four bytes, the highest first.
pub open spec fn be_number(b: Seq<u8>) -> nat {
    (b[0] as nat) * 16777216 + (b[1] as nat) * 65536 + (b[2] as nat) * 256 + (b[3] as nat)
}

/// A payload with its length before it, in four bytes.
pub open spec fn framed(payload: Seq<u8>) -> Seq<u8> {
    be_bytes(payload.len()) + payload
}

/// Whether a buffer begins with a whole frame.
pub open spec fn is_complete(buf: Seq<u8>) -> bool {
    buf.len() >= 4 && buf.len() >= 4 + be_number(buf)
}

/// How many bytes the frame has that a buffer begins with.
pub open spec fn frame_length(buf: Seq<u8>) -> int {
    4 + be_number(buf) as int
}

/// The payload of the frame that a buffer begins with.
pub open spec fn frame_payload(buf: Seq<u8>) -> Seq<u8> {
    buf.subrange(4, frame_length(buf))
}

/// Puts the length of a payload before it. Only the lower four bytes of the length are kept.
pub fn frame(payload: Vec<u8>) -> (r: Vec<u8>)
    ensures
        r@ == framed(payload@),
{
    let n: usize = payload.len();
    let mut out: Vec<u8> = Vec::new();
    out.push((n / 16777216 % 256) as u8);
    out.push((n / 65536 % 256) as u8);
    out.push((n / 256 % 256) as u8);
    out.push((n % 256) as u8);
    assert(out@ =~= be_bytes(payload@.len()));
    wire::append_bytes(&mut out, payload.as_slice());
    out
}

/// A length in four bytes reads back.
pub proof fn lemma_length_reads_back(n: nat, rest: Seq<u8>)
    requires
        n <= u32::MAX,
    ensures
        be_number(be_bytes(n) + rest) == n,
{
    let b = be_bytes(n) + rest;
    let a0 = n / 16777216;
    let a1 = n / 65536 % 256;
    let a2 = n / 256 % 256;
    let a3 = n % 256;
    assert(a0 < 256);
    assert(b[0] == a0);
    assert(b[1] == a1);
    assert(b[2] == a2);
    assert(b[3] == a3);
    assert(a0 * 16777216 + a1 * 65536 + a2 * 256 + a3 == n) by (nonlinear_arith)
        requires
            a0 == n / 16777216,
            a1 == n / 65536 % 256,
            a2 == n / 256 % 256,
            a3 == n % 256,
    ;
}

/// A frame is whole as soon as it is there, whatever follows it, and gives back its payload; no
/// shorter part of it is whole. Payloads whose length does not fit into four bytes are left out.
pub proof fn law_framing(payload: Seq<u8>, rest: Seq<u8>, k: int)
    requires
        payload.len() <= u32::MAX,
        0 <= k < framed(payload).len(),
    ensures
        is_complete(framed(payload) + rest),
        frame_payload(framed(payload) + rest) == payload,
        !is_complete(framed(payload).take(k)),
{
    let f = framed(payload);
    lemma_length_reads_back(payload.len(), payload + rest);
    assert(f + rest =~= be_bytes(payload.len()) + (payload + rest));
    assert(frame_payload(f + rest) =~= payload);
    if k >= 4 {
        let part = f.take(k);
        lemma_length_reads_back(payload.len(), payload.take(k - 4));
        assert(part =~= be_bytes(payload.len()) + payload.take(k - 4));
    }
}

/// What a buffer gives does not change when more bytes come.
pub proof fn law_chunks_do_not_matter(buf: Seq<u8>, more: Seq<u8>)
    requires
        is_complete(buf),
    ensures
        is_complete(buf + more),
        frame_payload(buf + more) == frame_payload(buf),
        be_number(buf + more) == be_number(buf),
{
    assert((buf + more)[0] == buf[0]);
    assert((buf + more)[1] == buf[1]);
    assert((buf + more)[2] == buf[2]);
    assert((buf + more)[3] == buf[3]);
    assert(frame_payload(buf + more) =~= frame_payload(buf));
}

/// Reads the message of the frame that a buffer begins with, and says how many bytes the frame
/// has. Nothing is read before the whole frame is there.
pub fn parse_frame(buf: &[u8]) -> (r: Result<Option<(DistMessage, usize)>, DistError>)
    ensures
        if !is_complete(buf@) {
            r matches Ok(None)
        } else {
            match dist_read(frame_payload(buf@)) {
                Some(m) => r matches Ok(Some((msg, used))) && msg@ == m && used == frame_length(buf@),
                None => r matches Err(DistError::Decode(text)) && text@ == dist_fault(
                    frame_payload(buf@),
                ),
            }
        },
{
    if buf.len() < 4 {
        return Ok(None);
    }
    let len: u64 = (buf[0] as u64) * 16777216 + (buf[1] as u64) * 65536 + (buf[2] as u64) * 256 + (
    buf[3] as u64);
    let n: usize = buf.len();
    let there: u64 = (n - 4) as u64;
    if there < len {
        return Ok(None);
    }
    let end: usize = 4 + len as usize;
    let payload = vstd::slice::slice_subrange(buf, 4, end);
    match decode_message(payload) {
        Ok(msg) => Ok(Some((msg, end))),
        Err(e) => Err(e),
    }
}

/// A message with its length before it, from which it reads back whatever follows.
pub fn frame_message(msg: &DistMessage) -> (r: Vec<u8>)
    ensures
        r@ == framed(dist_wire(msg@)),
        r@.len() <= u32::MAX ==> forall|rest: Seq<u8>|
            is_complete(#[trigger] (r@ + rest)) && dist_read(frame_payload(r@ + rest)) == Some(
                msg@,
            ),
{
    let payload = encode_message(msg);
    let ghost p = payload@;
    let r = frame(payload);
    proof {
        if r@.len() <= u32::MAX {
            assert forall|rest: Seq<u8>|
                is_complete(#[trigger] (r@ + rest)) && dist_read(frame_payload(r@ + rest)) == Some(
                    msg@,
                ) by {
                law_framing(p, rest, 0);
            }
        }
    }
    r
}

} // verus!
