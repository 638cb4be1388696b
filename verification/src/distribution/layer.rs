//! The distribution layer of a node: what it answers before it is started, and after.
//!
//! Until it is started there is no manager, and there are no other nodes.

use erltf::OwnedTerm;
use vstd::prelude::*;

use crate::distribution::action::{Action, ActionView};
use crate::distribution::erlang;
use crate::distribution::manager;
use crate::distribution::manager::{DistributionManager, NodeInfo, NodeType, SendStep};
use crate::distribution::protocol::{DistError, DistMessageView};
use crate::etf;
use crate::process::Pid;
use crate::table;

verus! {

/// The layer's invariant.
pub open spec fn layer_wf(layer: Option<DistributionManager>) -> bool {
    layer matches Some(m) ==> m.wf()
}

/// What ending the connection to a node comes to, and what is to be done then.
pub open spec fn disconnected(
    before: Option<DistributionManager>,
    after: Option<DistributionManager>,
    node: Seq<char>,
    result: Result<(), DistError>,
    todo: Seq<ActionView>,
) -> bool {
    match before {
        None => {
            &&& after is None
            &&& result == Err::<(), DistError>(DistError::NotInitialized)
            &&& todo.len() == 0
        },
        Some(m) => {
            &&& after matches Some(n) && n@ == manager::cut(m@, node)
            &&& todo == manager::cut_actions(m@, node)
            &&& if m@.nodes.contains_key(node) || m@.erlang.contains_key(node) {
                result is Ok
            } else {
                result matches Err(DistError::NotConnected(n)) && n@ == node
            }
        },
    }
}

/// Ends the connection to a node.
pub fn disconnect(layer: &mut Option<DistributionManager>, node: &str) -> (r: (
    Result<(), DistError>,
    Vec<Action>,
))
    requires
        layer_wf(*old(layer)),
    ensures
        layer_wf(*final(layer)),
        disconnected(*old(layer), *final(layer), node@, r.0, manager::actions(r.1@)),
{
    match layer.take() {
        Some(m) => {
            let mut m = m;
            let r = m.disconnect_from(node);
            *layer = Some(m);
            r
        },
        None => (Err(DistError::NotInitialized), Vec::new()),
    }
}

/// The nodes that are connected.
pub fn nodes(layer: &Option<DistributionManager>) -> (r: Vec<String>)
    requires
        layer_wf(*layer),
    ensures
        match *layer {
            Some(m) => table::views(r@) == m.connected_order() && table::views(r@).to_set()
                == m@.types.dom(),
            None => r@.len() == 0,
        },
{
    match layer {
        Some(m) => m.connected_nodes(),
        None => Vec::new(),
    }
}

/// Whether `found` is what is known of a node: nothing, if it is not connected.
pub open spec fn known_of(
    layer: Option<DistributionManager>,
    node: Seq<char>,
    found: Option<NodeInfo>,
) -> bool {
    match layer {
        Some(m) => if m@.nodes.contains_key(node) {
            found matches Some(info) && info@ == m@.nodes[node].info
        } else if m@.erlang.contains_key(node) {
            found matches Some(info) && info@ == m@.erlang[node]
        } else {
            found is None
        },
        None => found is None,
    }
}

/// What is known of a connected node.
pub fn node_info(layer: &Option<DistributionManager>, node: &str) -> (r: Option<NodeInfo>)
    requires
        layer_wf(*layer),
    ensures
        known_of(*layer, node@, r),
{
    match layer {
        Some(m) => m.get_node_info(node),
        None => None,
    }
}

/// What is to be done about a message for a process of another node.
pub fn send_remote(
    layer: &mut Option<DistributionManager>,
    pid: Pid,
    from: Option<Pid>,
    payload: Vec<u8>,
) -> (r: SendStep)
    requires
        layer_wf(*old(layer)),
    ensures
        layer_wf(*final(layer)),
        match *old(layer) {
            None => {
                &&& *final(layer) is None
                &&& r == (SendStep::Refused { error: DistError::NotInitialized, reconnect: None })
            },
            Some(m) => {
                &&& *final(layer) is Some
                &&& if m@.nodes.contains_key(pid@.node) {
                    &&& (*final(layer))->0@ == m@
                    &&& r matches SendStep::Queue { connection, msg } && connection
                        == m@.nodes[pid@.node].connection && msg@ == (DistMessageView::Send {
                        to: pid@,
                        from: crate::process::pid_option(from),
                        payload: payload@,
                    })
                } else {
                    &&& r matches SendStep::Refused { error, reconnect }
                    &&& error matches DistError::NotConnected(n) && n@ == pid@.node
                    &&& reconnect is Some <==> m@.known.contains_key(pid@.node)
                        && !m@.reconnecting.contains(pid@.node)
                    &&& reconnect matches Some(addr) ==> addr@ == m@.known[pid@.node]
                    &&& (*final(layer))->0@ == (manager::ManagerView {
                        reconnecting: if reconnect is Some {
                            m@.reconnecting.insert(pid@.node)
                        } else {
                            m@.reconnecting
                        },
                        ..m@
                    })
                }
            },
        },
{
    match layer.take() {
        Some(m) => {
            let mut m = m;
            let r = m.send_to_remote(pid, from, payload);
            *layer = Some(m);
            r
        },
        None => SendStep::Refused { error: DistError::NotInitialized, reconnect: None },
    }
}

/// Whether a node is a connected Erlang node.
pub fn is_beam_node(layer: &Option<DistributionManager>, node: &str) -> (r: bool)
    requires
        layer_wf(*layer),
    ensures
        r == (layer matches Some(m) && m@.types.contains_key(node@) && m@.types[node@]
            == NodeType::Erlang),
{
    match layer {
        Some(m) => m.is_beam_node(node),
        None => false,
    }
}

/// The term for a process of an Erlang node, to be put into the queue of the connection.
pub fn send_to_beam(layer: &Option<DistributionManager>, pid: &Pid, etf_bytes: &[u8]) -> (r: Result<
    OwnedTerm,
    DistError,
>)
    requires
        layer_wf(*layer),
    ensures
        match *layer {
            None => r == Err::<OwnedTerm, DistError>(DistError::NotInitialized),
            Some(m) => if m@.erlang.contains_key(pid@.node) {
                match etf::etf_parsed(etf_bytes@) {
                    Some(t) => r matches Ok(term) && etf::term_of(term) == t,
                    None => r matches Err(DistError::Decode(message)) && message@
                        == "ETF decode error: "@ + etf::etf_fault(etf_bytes@),
                }
            } else {
                r matches Err(DistError::NotConnected(node)) && node@ == pid@.node
            },
        },
{
    match layer {
        Some(m) => erlang::send_to_erlang(m, pid, etf_bytes),
        None => Err(DistError::NotInitialized),
    }
}

} // verus!
