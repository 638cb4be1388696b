//! Connections to Erlang nodes.

use erltf::OwnedTerm;
use vstd::prelude::*;

use crate::distribution::manager::DistributionManager;
use crate::distribution::manager;
use crate::distribution::protocol::DistError;
use crate::etf;
use crate::etf::Term;
use crate::process::{Pid, PidView};
use crate::text;

verus! {

/// How an Erlang node is reached.
pub struct ErlangConfig {
    /// The name of this node.
    pub local_node: String,
    /// The name of the Erlang node.
    pub remote_node: String,
    /// The cookie that the nodes share.
    pub cookie: String,
    /// The host of the port mapper; that of the node if there is none.
    pub epmd_host: Option<String>,
    /// How long a connection may take, in seconds.
    pub timeout_secs: u64,
}

impl ErlangConfig {
    /// A configuration with half a minute to connect.
    pub fn new(local_node: &str, remote_node: &str, cookie: &str) -> (r: Self)
        ensures
            r.local_node@ == local_node@,
            r.remote_node@ == remote_node@,
            r.cookie@ == cookie@,
            r.epmd_host is None,
            r.timeout_secs == 30,
    {
        ErlangConfig {
            local_node: local_node.to_owned(),
            remote_node: remote_node.to_owned(),
            cookie: cookie.to_owned(),
            epmd_host: None,
            timeout_secs: 30,
        }
    }

    /// Sets the host of the port mapper.
    pub fn with_epmd_host(self, host: &str) -> (r: Self)
        ensures
            r.epmd_host matches Some(h) && h@ == host@,
            r.local_node == self.local_node,
            r.remote_node == self.remote_node,
            r.cookie == self.cookie,
            r.timeout_secs == self.timeout_secs,
    {
        ErlangConfig { epmd_host: Some(host.to_owned()), ..self }
    }

    /// Sets how long a connection may take.
    pub fn with_timeout(self, secs: u64) -> (r: Self)
        ensures
            r == (ErlangConfig { timeout_secs: secs, ..self }),
    {
        ErlangConfig { timeout_secs: secs, ..self }
    }
}

/// A process identifier as Erlang has it.
pub struct ErlangPid {
    /// The name of its node.
    pub node: String,
    /// Its number.
    pub id: u32,
    /// The upper part of its number.
    pub serial: u32,
    /// The incarnation of its node.
    pub creation: u32,
}

impl ErlangPid {
    /// The identifier of a process for Erlang. Of its number the lower 32 bits are kept.
    pub fn from_ambitious(pid: &Pid, node_name: &str, creation: u32) -> (r: Self)
        ensures
            r.node@ == node_name@,
            r.id == pid@.id as u32,
            r.serial == 0,
            r.creation == creation,
    {
        ErlangPid {
            node: node_name.to_owned(),
            id: pid.id() as u32,
            serial: 0,
            creation,
        }
    }
}

/// A reference as Erlang has it.
pub struct ErlangRef {
    /// The name of its node.
    pub node: String,
    /// The incarnation of its node.
    pub creation: u32,
    /// Its numbers.
    pub ids: Vec<u32>,
}

/// Gives out identifiers and references for a connection.
pub struct ErlangIds {
    local_node: String,
    counter: u64,
}

impl ErlangIds {
    /// The name of this node.
    pub closed spec fn node(&self) -> Seq<char> {
        self.local_node@
    }

    /// The next number.
    pub closed spec fn next(&self) -> u64 {
        self.counter
    }

    /// The numbers begin with one.
    pub fn new(local_node: &str) -> (r: Self)
        ensures
            r.node() == local_node@,
            r.next() == 1,
    {
        ErlangIds { local_node: local_node.to_owned(), counter: 1 }
    }

    /// A new process identifier.
    pub fn allocate_pid(&mut self) -> (r: ErlangPid)
        ensures
            final(self).node() == old(self).node(),
            final(self).next() == manager::next_seq(old(self).next()),
            r.node@ == old(self).node(),
            r.id == old(self).next() as u32,
            r.serial == 0,
            r.creation == 1,
    {
        let id = self.counter as u32;
        self.counter = manager::advance(self.counter);
        ErlangPid { node: self.local_node.clone(), id, serial: 0, creation: 1 }
    }

    /// A new reference.
    pub fn allocate_ref(&mut self) -> (r: ErlangRef)
        ensures
            final(self).node() == old(self).node(),
            final(self).next() == manager::next_seq(old(self).next()),
            r.node@ == old(self).node(),
            r.creation == 1,
            r.ids@ == seq![old(self).next() as u32],
    {
        let id = self.counter as u32;
        self.counter = manager::advance(self.counter);
        let mut ids: Vec<u32> = Vec::new();
        ids.push(id);
        assert(ids@ =~= seq![old(self).next() as u32]);
        ErlangRef { node: self.local_node.clone(), creation: 1, ids }
    }
}

/// What an Erlang node says of a message.
pub enum ControlMessage {
    /// It is for a process.
    Send {
        /// The process.
        to_pid: OwnedTerm,
    },
    /// It is for a process, and the sender is named.
    SendSender {
        /// The process.
        to_pid: OwnedTerm,
    },
    /// It is for the process that is registered under a name.
    RegSend {
        /// The name.
        to_name: OwnedTerm,
    },
    /// A link, the end of a process, a monitor, or something else.
    Other,
}

/// What is to be done about a message of an Erlang node.
pub enum ErlangStep {
    /// The bytes go into the mailbox of a process.
    Deliver {
        /// The process.
        to: Pid,
        /// The message as it is written.
        payload: Vec<u8>,
    },
    /// The process that is registered under a name is looked up; `deliver_etf_to_local` writes
    /// the message for it.
    Lookup {
        /// The name.
        name: String,
        /// The message.
        payload: OwnedTerm,
    },
    /// Nothing is done.
    Ignore,
}

/// The local process that a term names: its number counts, its node does not.
pub open spec fn local_pid(t: Term, here: Seq<char>, creation: u32) -> Option<PidView> {
    match t {
        Term::Pid { id, .. } => Some(PidView { node: here, id: id as u64, creation }),
        _ => None,
    }
}

/// The local process that a term names.
pub fn extract_local_pid(term: &OwnedTerm, here: &str, creation: u32) -> (r: Option<Pid>)
    ensures
        crate::process::pid_option(r) == local_pid(etf::term_of(*term), here@, creation),
{
    match etf::as_pid(term) {
        Some(id) => Some(Pid::remote(here, id as u64, creation)),
        None => None,
    }
}

/// The name of an atom.
pub fn extract_atom_name(term: &OwnedTerm) -> (r: Option<String>)
    ensures
        text::str_option(r) == (match etf::term_of(*term) {
            Term::Atom(name) => Some(name),
            _ => None,
        }),
{
    match etf::as_atom(term) {
        Some(name) => Some(name.to_owned()),
        None => None,
    }
}

/// A message as it goes into the mailbox of a local process; `None` if it cannot be written.
pub fn deliver_etf_to_local(payload: &OwnedTerm) -> (r: Option<Vec<u8>>)
    ensures
        match r {
            Some(bytes) => etf::etf_written(etf::term_of(*payload)) == Some(bytes@),
            None => etf::etf_written(etf::term_of(*payload)) is None,
        },
{
    match etf::write_term(payload) {
        Ok(bytes) => Some(bytes),
        Err(_) => None,
    }
}

/// What follows from a message for the process that a term names.
pub open spec fn sends_to(
    to: Term,
    payload: Option<Term>,
    here: Seq<char>,
    creation: u32,
    r: ErlangStep,
) -> bool {
    match (local_pid(to, here, creation), payload) {
        (Some(pid), Some(p)) => match etf::etf_written(p) {
            Some(bytes) => r matches ErlangStep::Deliver { to, payload } && to@ == pid && payload@
                == bytes,
            None => r is Ignore,
        },
        _ => r is Ignore,
    }
}

/// The view of an optional term.
pub open spec fn term_option(t: Option<OwnedTerm>) -> Option<Term> {
    match t {
        Some(term) => Some(etf::term_of(term)),
        None => None,
    }
}

fn send_step(to_pid: &OwnedTerm, payload: Option<OwnedTerm>, here: &str, creation: u32) -> (r:
    ErlangStep)
    ensures
        sends_to(etf::term_of(*to_pid), term_option(payload), here@, creation, r),
{
    match extract_local_pid(to_pid, here, creation) {
        Some(to) => match payload {
            Some(p) => match deliver_etf_to_local(&p) {
                Some(bytes) => ErlangStep::Deliver { to, payload: bytes },
                None => ErlangStep::Ignore,
            },
            None => ErlangStep::Ignore,
        },
        None => ErlangStep::Ignore,
    }
}

/// Decides about a message of an Erlang node. Links, monitors and ends of processes are passed
/// over.
pub fn handle_erlang_incoming(
    control: ControlMessage,
    payload: Option<OwnedTerm>,
    here: &str,
    creation: u32,
) -> (r: ErlangStep)
    ensures
        match control {
            ControlMessage::Send { to_pid } => sends_to(
                etf::term_of(to_pid),
                term_option(payload),
                here@,
                creation,
                r,
            ),
            ControlMessage::SendSender { to_pid } => sends_to(
                etf::term_of(to_pid),
                term_option(payload),
                here@,
                creation,
                r,
            ),
            ControlMessage::RegSend { to_name } => match (etf::term_of(to_name), payload) {
                (Term::Atom(atom), Some(p)) => r matches ErlangStep::Lookup { name, payload }
                    && name@ == atom && payload == p,
                _ => r is Ignore,
            },
            ControlMessage::Other => r is Ignore,
        },
{
    match control {
        ControlMessage::Send { to_pid } => send_step(&to_pid, payload, here, creation),
        ControlMessage::SendSender { to_pid } => send_step(&to_pid, payload, here, creation),
        ControlMessage::RegSend { to_name } => match extract_atom_name(&to_name) {
            Some(name) => match payload {
                Some(p) => ErlangStep::Lookup { name, payload: p },
                None => ErlangStep::Ignore,
            },
            None => ErlangStep::Ignore,
        },
        ControlMessage::Other => ErlangStep::Ignore,
    }
}

/// The term for a process of an Erlang node, to be put into the queue of the connection. The
/// node has to be connected, and the bytes have to be a term.
pub fn send_to_erlang(manager: &DistributionManager, pid: &Pid, etf_bytes: &[u8]) -> (r: Result<
    OwnedTerm,
    DistError,
>)
    requires
        manager.wf(),
    ensures
        if manager@.erlang.contains_key(pid@.node) {
            match etf::etf_parsed(etf_bytes@) {
                Some(t) => r matches Ok(term) && etf::term_of(term) == t,
                None => r matches Err(DistError::Decode(message)) && message@
                    == "ETF decode error: "@ + etf::etf_fault(etf_bytes@),
            }
        } else {
            r matches Err(DistError::NotConnected(node)) && node@ == pid@.node
        },
{
    if !manager.is_erlang_connected(pid.node()) {
        return Err(DistError::NotConnected(pid.node().to_owned()));
    }
    match etf::read_term(etf_bytes) {
        Ok(term) => Ok(term),
        Err(e) => {
            let message = text::join2("ETF decode error: ", e.as_str());
            Err(DistError::Decode(message))
        },
    }
}

} // verus!
