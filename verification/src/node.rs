//! Nodes as Elixir's `Node` module presents them.

use vstd::prelude::*;

use crate::distribution::action::{Action, ActionView};
use crate::distribution::layer;
use crate::distribution::manager;
use crate::distribution::manager::{DistributionManager, ManagerView, NodeInfo};
use crate::distribution::protocol::{DistError, DistMessage, DistMessageView};
use crate::process::{Pid, Ref};
use crate::table;

verus! {

/// Which nodes are listed.
#[derive(Debug, Clone, Copy, PartialEq, Eq, Structural)]
pub enum ListOption {
    /// The nodes that are connected.
    Connected,
    /// The nodes that are known; for now, those that are connected.
    Known,
    /// The nodes to which a connection was tried; for now, those that are connected.
    This,
    /// The nodes that are connected, and this node.
    Visible,
    /// The hidden nodes; there are none.
    Hidden,
}

/// What a ping comes to.
#[derive(Debug, Clone, Copy, PartialEq, Eq, Structural)]
pub enum PingResult {
    /// The node has answered.
    Pong,
    /// The node has not answered.
    Pang,
}

/// How long a request to spawn a process may take, in milliseconds.
pub const SPAWN_TIMEOUT: u64 = 30000;

/// Whether this node is part of a distributed system: it is once it has a name.
pub fn is_alive(name: &Option<String>) -> (r: bool)
    ensures
        r == (name is Some),
{
    name.is_some()
}

/// The name of this node; `None` if it is not part of a distributed system.
pub fn current(name: &Option<String>) -> (r: Option<&str>)
    ensures
        match (r, *name) {
            (Some(a), Some(b)) => a@ == b@,
            (None, None) => true,
            _ => false,
        },
{
    match name {
        Some(n) => Some(n.as_str()),
        None => None,
    }
}

/// The name of this node; empty if it is not part of a distributed system.
pub fn current_atom(name: &Option<String>) -> (r: String)
    ensures
        match *name {
            Some(n) => r@ == n@,
            None => r@ == ""@,
        },
{
    match name {
        Some(n) => n.clone(),
        None => "".to_owned(),
    }
}

/// Ends the connection to a node.
pub fn disconnect(layer: &mut Option<DistributionManager>, node: &str) -> (r: (
    Result<(), DistError>,
    Vec<Action>,
))
    requires
        layer::layer_wf(*old(layer)),
    ensures
        layer::layer_wf(*final(layer)),
        layer::disconnected(*old(layer), *final(layer), node@, r.0, manager::actions(r.1@)),
{
    layer::disconnect(layer, node)
}

/// What is known of a connected node.
pub fn info(layer: &Option<DistributionManager>, node: &str) -> (r: Option<NodeInfo>)
    requires
        layer::layer_wf(*layer),
    ensures
        layer::known_of(*layer, node@, r),
{
    layer::node_info(layer, node)
}

/// The nodes that an option lists, of those that are connected and this one.
pub fn list(option: ListOption, connected: Vec<String>, current: String) -> (r: Vec<String>)
    ensures
        r@ == (match option {
            ListOption::Visible => connected@.push(current),
            ListOption::Hidden => Seq::<String>::empty(),
            _ => connected@,
        }),
{
    match option {
        ListOption::Visible => {
            let mut nodes = connected;
            nodes.push(current);
            nodes
        },
        ListOption::Hidden => Vec::new(),
        _ => connected,
    }
}

/// Begins a ping: the connection of the node and the message to send. The one who waits is
/// noted before the message is sent. There is no ping without a connection to the node.
pub fn ping(manager: &mut DistributionManager, node: &str, seq: u64, waiter: u64) -> (r: Option<
    (u64, DistMessage),
>)
    requires
        old(manager).wf(),
    ensures
        final(manager).wf(),
        if old(manager)@.nodes.contains_key(node@) {
            &&& r matches Some((connection, msg)) && connection
                == old(manager)@.nodes[node@].connection && msg@ == (DistMessageView::Ping { seq })
            &&& final(manager)@ == (ManagerView {
                pings: old(manager)@.pings.insert((node@, seq), waiter),
                ..old(manager)@
            })
        } else {
            &&& r is None
            &&& final(manager)@ == old(manager)@
        },
{
    match manager.get_node_tx(node) {
        None => None,
        Some(connection) => {
            manager.register_ping(node, seq, waiter);
            Some((connection, DistMessage::Ping { seq }))
        },
    }
}

/// What waiting for an answer came to.
pub enum Waited<T> {
    /// The answer has come.
    Answered(T),
    /// The message could not be sent.
    NotSent,
    /// No answer can come any more.
    Dropped,
    /// No answer came in time.
    TimedOut,
}

/// What a ping comes to, by what waiting for the answer came to. `None` stands for a ping that
/// was not begun.
pub fn ping_result(waited: Option<Waited<()>>) -> (r: PingResult)
    ensures
        r == (match waited {
            Some(Waited::Answered(_)) => PingResult::Pong,
            _ => PingResult::Pang,
        }),
{
    match waited {
        Some(Waited::Answered(_)) => PingResult::Pong,
        _ => PingResult::Pang,
    }
}

/// The function to spawn, with its encoded arguments.
pub struct SpawnRequest {
    /// The module.
    pub module: String,
    /// The function.
    pub function: String,
    /// The encoded arguments.
    pub args: Vec<u8>,
    /// Whether to link the processes.
    pub link: bool,
    /// Whether to watch the new process.
    pub monitor: bool,
}

/// Begins to spawn a process on another node: the connection of the node and the message to
/// send.
pub fn spawn_request(
    manager: Option<&DistributionManager>,
    node: &str,
    reference: u64,
    from: Pid,
    request: SpawnRequest,
) -> (r: Result<(u64, DistMessage), DistError>)
    requires
        manager matches Some(m) ==> m.wf(),
    ensures
        match manager {
            None => r == Err::<(u64, DistMessage), DistError>(DistError::NotInitialized),
            Some(m) => if m@.nodes.contains_key(node@) {
                r matches Ok((connection, msg)) && connection == m@.nodes[node@].connection && msg@
                    == (DistMessageView::Spawn {
                    reference,
                    from: from@,
                    module: request.module@,
                    function: request.function@,
                    args: request.args@,
                    link: request.link,
                    monitor: request.monitor,
                })
            } else {
                r matches Err(DistError::NotConnected(n)) && n@ == node@
            },
        },
{
    match manager {
        None => Err(DistError::NotInitialized),
        Some(m) => match m.get_node_tx(node) {
            None => Err(DistError::NotConnected(node.to_owned())),
            Some(connection) => {
                let msg = DistMessage::Spawn {
                    reference,
                    from,
                    module: request.module,
                    function: request.function,
                    args: request.args,
                    link: request.link,
                    monitor: request.monitor,
                };
                Ok((connection, msg))
            },
        },
    }
}

/// The answer to a request to spawn a process.
pub struct SpawnAnswer {
    /// The new process.
    pub pid: Option<Pid>,
    /// The reference of the monitor.
    pub monitor_ref: Option<u64>,
    /// What went wrong.
    pub error: Option<String>,
}

/// What a request to spawn a process comes to, by what waiting for the answer came to.
pub fn spawn_result(waited: Waited<SpawnAnswer>) -> (r: Result<(Pid, Option<u64>), DistError>)
    ensures
        match waited {
            Waited::Answered(answer) => match answer.error {
                Some(e) => r == Err::<(Pid, Option<u64>), DistError>(DistError::Connect(e)),
                None => match answer.pid {
                    Some(pid) => r == Ok::<(Pid, Option<u64>), DistError>(
                        (pid, answer.monitor_ref),
                    ),
                    None => r matches Err(DistError::Connect(e)) && e@ == "spawn returned no PID"@,
                },
            },
            Waited::NotSent => r matches Err(DistError::Connect(e)) && e@
                == "failed to send spawn request"@,
            Waited::Dropped => r matches Err(DistError::Connect(e)) && e@
                == "spawn reply channel closed (node disconnected?)"@,
            Waited::TimedOut => r matches Err(DistError::Connect(e)) && e@
                == "spawn request timed out"@,
        },
{
    match waited {
        Waited::Answered(answer) => match answer.error {
            Some(e) => Err(DistError::Connect(e)),
            None => match answer.pid {
                Some(pid) => Ok((pid, answer.monitor_ref)),
                None => Err(DistError::Connect("spawn returned no PID".to_owned())),
            },
        },
        Waited::NotSent => Err(DistError::Connect("failed to send spawn request".to_owned())),
        Waited::Dropped => Err(
            DistError::Connect("spawn reply channel closed (node disconnected?)".to_owned()),
        ),
        Waited::TimedOut => Err(DistError::Connect("spawn request timed out".to_owned())),
    }
}

/// What a request to spawn and watch a process comes to: the reference of the monitor has to be
/// there.
pub fn spawn_monitor_result(result: Result<(Pid, Option<u64>), DistError>) -> (r: Result<
    (Pid, Ref),
    DistError,
>)
    ensures
        match result {
            Ok((pid, Some(reference))) => r matches Ok((p, m)) && p == pid && m@ == reference,
            Ok((_, None)) => r matches Err(DistError::Connect(e)) && e@
                == "spawn_monitor did not return monitor reference"@,
            Err(e) => r == Err::<(Pid, Ref), DistError>(e),
        },
{
    match result {
        Ok((pid, Some(reference))) => Ok((pid, Ref::from_raw(reference))),
        Ok((_, None)) => Err(
            DistError::Connect("spawn_monitor did not return monitor reference".to_owned()),
        ),
        Err(e) => Err(e),
    }
}

/// The manager once the connections to some nodes are ended, one after the other, and what is to
/// be done then.
pub open spec fn all_cut(m: ManagerView, names: Seq<Seq<char>>) -> (ManagerView, Seq<ActionView>)
    decreases names.len(),
{
    if names.len() == 0 {
        (m, Seq::empty())
    } else {
        let (n, done) = all_cut(m, names.drop_last());
        (manager::cut(n, names.last()), done + manager::cut_actions(n, names.last()))
    }
}

proof fn lemma_all_cut(m: ManagerView, names: Seq<Seq<char>>)
    ensures
        forall|k: Seq<char>| #[trigger]
            all_cut(m, names).0.types.contains_key(k) <==> m.types.contains_key(k)
                && !names.contains(k),
        forall|k: Seq<char>| #[trigger]
            all_cut(m, names).0.nodes.contains_key(k) <==> m.nodes.contains_key(k)
                && !names.contains(k),
        forall|k: Seq<char>| #[trigger]
            all_cut(m, names).0.erlang.contains_key(k) <==> m.erlang.contains_key(k)
                && !names.contains(k),
    decreases names.len(),
{
    if names.len() > 0 {
        lemma_all_cut(m, names.drop_last());
        let n = all_cut(m, names.drop_last()).0;
        let last = names.last();
        assert(all_cut(m, names).0 == manager::cut(n, last));
        assert forall|k: Seq<char>| names.contains(k) <==> names.drop_last().contains(k) || k
            == last by {
            if names.contains(k) {
                let i = choose|i: int| 0 <= i < names.len() && names[i] == k;
                if i < names.len() - 1 {
                    assert(names.drop_last()[i] == k);
                }
            }
            if names.drop_last().contains(k) {
                let i = choose|i: int|
                    0 <= i < names.drop_last().len() && names.drop_last()[i] == k;
                assert(names[i] == k);
            }
            if k == last {
                assert(names[names.len() - 1] == k);
            }
        }
    }
}

/// The nodes of a manager: those that are known to be connected, and then the native and the
/// Erlang nodes, for those that are not.
pub open spec fn all_nodes(m: DistributionManager) -> Seq<Seq<char>> {
    m.connected_order() + m.order() + m.erlang_order()
}

fn disconnect_all(manager: &mut DistributionManager, nodes: &Vec<String>, done: &mut Vec<Action>)
    requires
        old(manager).wf(),
    ensures
        final(manager).wf(),
        final(manager)@ == all_cut(old(manager)@, table::views(nodes@)).0,
        manager::actions(final(done)@) == manager::actions(old(done)@) + all_cut(
            old(manager)@,
            table::views(nodes@),
        ).1,
{
    let ghost start = manager@;
    let ghost first = manager::actions(done@);
    let ghost names = table::views(nodes@);
    let mut i: usize = 0;
    proof {
        assert(names.take(0) =~= Seq::empty());
        assert(manager::actions(done@) =~= first + Seq::<ActionView>::empty());
    }
    while i < nodes.len()
        invariant
            i <= nodes@.len(),
            manager.wf(),
            names == table::views(nodes@),
            manager@ == all_cut(start, names.take(i as int)).0,
            manager::actions(done@) == first + all_cut(start, names.take(i as int)).1,
        decreases nodes@.len() - i,
    {
        let ghost before = manager::actions(done@);
        let (_, more) = manager.disconnect_from(nodes[i].as_str());
        let mut more = more;
        let ghost added = manager::actions(more@);
        done.append(&mut more);
        proof {
            assert(manager::actions(done@) =~= before + added);
            assert(names.take(i + 1).drop_last() =~= names.take(i as int));
            assert(names.take(i + 1).last() == nodes@[i as int]@);
            let so_far = all_cut(start, names.take(i as int)).1;
            assert(first + so_far + added =~= first + (so_far + added));
        }
        i = i + 1;
    }
    assert(names.take(names.len() as int) =~= names);
}

/// Ends the connections of all nodes. It fails if distribution was not started.
pub fn stop(layer: &mut Option<DistributionManager>) -> (r: (Result<(), DistError>, Vec<Action>))
    requires
        layer::layer_wf(*old(layer)),
    ensures
        layer::layer_wf(*final(layer)),
        match *old(layer) {
            None => {
                &&& r.0 == Err::<(), DistError>(DistError::NotInitialized)
                &&& r.1@.len() == 0
                &&& *final(layer) is None
            },
            Some(m) => {
                &&& r.0 is Ok
                &&& manager::actions(r.1@) == all_cut(m@, all_nodes(m)).1
                &&& *final(layer) matches Some(after) && after@ == all_cut(m@, all_nodes(m)).0
                    && after@.types.dom() == Set::<Seq<char>>::empty() && after@.nodes.dom()
                    == Set::<Seq<char>>::empty() && after@.erlang.dom() == Set::<
                    Seq<char>,
                >::empty()
            },
        },
{
    match layer.take() {
        Some(m) => {
            let mut m = m;
            let ghost start = m@;
            let ghost all = all_nodes(m);
            let mut nodes = m.connected_nodes();
            let mut native = m.native_nodes();
            let mut erlang = m.erlang_nodes();
            let ghost a = table::views(nodes@);
            let ghost b = table::views(native@);
            let ghost c = table::views(erlang@);
            nodes.append(&mut native);
            nodes.append(&mut erlang);
            assert(table::views(nodes@) =~= all);
            let mut out: Vec<Action> = Vec::new();
            disconnect_all(&mut m, &nodes, &mut out);
            proof {
                assert(manager::actions(out@) =~= all_cut(start, all).1);
                lemma_all_cut(start, all);
                assert forall|k: Seq<char>|
                    start.types.contains_key(k) || start.nodes.contains_key(k)
                        || start.erlang.contains_key(k) implies all.contains(k) by {
                    assert(a.to_set().contains(k) || b.to_set().contains(k) || c.to_set().contains(
                        k,
                    ));
                    if a.contains(k) {
                        let i = choose|i: int| 0 <= i < a.len() && a[i] == k;
                        assert(all[i] == k);
                    } else if b.contains(k) {
                        let i = choose|i: int| 0 <= i < b.len() && b[i] == k;
                        assert(all[a.len() + i] == k);
                    } else {
                        let i = choose|i: int| 0 <= i < c.len() && c[i] == k;
                        assert(all[a.len() + b.len() + i] == k);
                    }
                }
                assert(m@.types.dom() =~= Set::<Seq<char>>::empty());
                assert(m@.nodes.dom() =~= Set::<Seq<char>>::empty());
                assert(m@.erlang.dom() =~= Set::<Seq<char>>::empty());
            }
            *layer = Some(m);
            (Ok(()), out)
        },
        None => (Err(DistError::NotInitialized), Vec::new()),
    }
}

} // verus!
