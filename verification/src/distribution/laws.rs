//! What the distribution layer promises as a whole.

use erltf::OwnedTerm;
use vstd::prelude::*;

use crate::distribution::action::{Action, ActionView};
use crate::distribution::erlang;
use crate::distribution::erlang::{ControlMessage, ErlangStep};
use crate::distribution::manager;
use crate::distribution::manager::{
    ConnectionState, DistributionManager, ManagerView, NodeInfo, NodeInfoView, NodeType, NodeView,
    SendStep, HEARTBEAT_INTERVAL, HEARTBEAT_TIMEOUT,
};
use crate::distribution::protocol::{DistError, DistMessage, DistMessageView};
use crate::etf;
use crate::etf::Term;
use crate::node;
use crate::process::{Pid, PidView};

verus! {

/// A message for a process of this node is put into its mailbox, whole and once; one for a process
/// of another node is not. Nothing is changed by it.
pub proof fn law_send_is_delivered_once(
    m: ManagerView,
    node: Seq<char>,
    to: PidView,
    from: Option<PidView>,
    payload: Seq<u8>,
    alive: Option<bool>,
    now: u64,
)
    ensures
        ({
            let (after, done) = manager::incoming(
                m,
                node,
                DistMessageView::Send { to, from, payload },
                alive,
                now,
            );
            &&& after == m
            &&& to.node == m.name ==> done.len() == 1 && done[0] == (ActionView::Deliver {
                to,
                payload,
            })
            &&& to.node != m.name ==> done.len() == 0
        }),
{
}

/// The exit signal of a remote process is handed to its target, with its sender and its reason,
/// and nothing else happens.
pub proof fn law_exit_reaches_its_target(
    m: ManagerView,
    node: Seq<char>,
    from: PidView,
    target: PidView,
    reason: Seq<char>,
    alive: Option<bool>,
    now: u64,
)
    ensures
        ({
            let (after, done) = manager::incoming(
                m,
                node,
                DistMessageView::Exit { from, target, reason },
                alive,
                now,
            );
            &&& after == m
            &&& done.len() == 1
            &&& done[0] == (ActionView::Exit { from, target, reason })
        }),
{
}

/// A link of a remote process is entered with the node that asked for it, and the request to end
/// it names the same two processes.
pub proof fn law_links_are_kept_as_asked(
    m: ManagerView,
    node: Seq<char>,
    from: PidView,
    target: PidView,
    alive: Option<bool>,
    now: u64,
)
    ensures
        ({
            let link = DistMessageView::Link { from, target };
            let unlink = DistMessageView::Unlink { from, target };
            let (linked, entered) = manager::incoming(m, node, link, alive, now);
            let (unlinked, removed) = manager::incoming(linked, node, unlink, alive, now);
            &&& linked == m
            &&& unlinked == m
            &&& entered.len() == 1
            &&& entered[0] == (ActionView::Link { from, target, node })
            &&& removed.len() == 1
            &&& removed[0] == (ActionView::Unlink { from, target })
        }),
{
}

/// A remote process that watches a local one is entered with its node and its reference, and what
/// ends the watch names the same monitor. Of a process that is known to be dead, the watcher's
/// node is told so at once, if it is connected, and the monitor is taken out again.
pub proof fn law_monitors_are_kept_as_asked(
    m: ManagerView,
    node: Seq<char>,
    from: PidView,
    target: PidView,
    reference: u64,
    alive: Option<bool>,
    now: u64,
)
    ensures
        ({
            let watch = DistMessageView::MonitorProcess { from, target, reference };
            let unwatch = DistMessageView::DemonitorProcess { from, target, reference };
            let (after, done) = manager::incoming(m, node, watch, alive, now);
            let (left, removed) = manager::incoming(m, node, unwatch, alive, now);
            &&& after == m
            &&& left == m
            &&& done[0] == (ActionView::AddMonitor { target, from, reference, node })
            &&& removed.len() == 1
            &&& removed[0] == (ActionView::RemoveMonitor { target, from, reference })
            &&& alive != Some(false) ==> done.len() == 1
            &&& alive == Some(false) && !m.nodes.contains_key(node) ==> done.len() == 2
                && done[1] == removed[0]
            &&& alive == Some(false) && m.nodes.contains_key(node) ==> done.len() == 3 && done[1]
                == (ActionView::Transmit {
                connection: m.nodes[node].connection,
                msg: DistMessageView::ProcessDown { reference, pid: target, reason: "noproc"@ },
            }) && done[2] == removed[0]
        }),
{
}

/// The end of a process that is watched is told with the reference of the monitor, the process and
/// the reason; so the answer about a dead process reaches the watcher on its node.
pub proof fn law_process_down_is_told(
    m: ManagerView,
    node: Seq<char>,
    reference: u64,
    pid: PidView,
    reason: Seq<char>,
    alive: Option<bool>,
    now: u64,
)
    ensures
        ({
            let (after, done) = manager::incoming(
                m,
                node,
                DistMessageView::ProcessDown { reference, pid, reason },
                alive,
                now,
            );
            &&& after == m
            &&& done.len() == 1
            &&& done[0] == (ActionView::ProcessDown { reference, pid, reason })
        }),
{
}

/// A remote process that watches this node is entered for its node, and the end of the watch names
/// the same process and node.
pub proof fn law_node_monitors_are_kept_as_asked(
    m: ManagerView,
    node: Seq<char>,
    pid: PidView,
    alive: Option<bool>,
    now: u64,
)
    ensures
        ({
            let watch = DistMessageView::MonitorNode { requesting_pid: pid };
            let unwatch = DistMessageView::DemonitorNode { requesting_pid: pid };
            let (after, done) = manager::incoming(m, node, watch, alive, now);
            let (left, removed) = manager::incoming(m, node, unwatch, alive, now);
            &&& after == m
            &&& left == m
            &&& done.len() == 1
            &&& done[0] == (ActionView::AddNodeMonitor { node, pid })
            &&& removed.len() == 1
            &&& removed[0] == (ActionView::RemoveNodeMonitor { node, pid })
        }),
{
}

/// What the global registries and the process groups of two nodes tell each other is handed on
/// whole, each to its own, with the node that sent it.
pub proof fn law_synchronisation_is_handed_on(
    m: ManagerView,
    node: Seq<char>,
    payload: Seq<u8>,
    alive: Option<bool>,
    now: u64,
)
    ensures
        ({
            let registry = DistMessageView::GlobalRegistry { payload };
            let groups = DistMessageView::ProcessGroups { payload };
            let (a, names) = manager::incoming(m, node, registry, alive, now);
            let (b, members) = manager::incoming(m, node, groups, alive, now);
            &&& a == m
            &&& b == m
            &&& names.len() == 1
            &&& names[0] == (ActionView::RegistryMessage { node, payload })
            &&& members.len() == 1
            &&& members[0] == (ActionView::GroupsMessage { node, payload })
        }),
{
}

/// A pong counts as a sign of life, and one that nobody waits for wakes nobody; the others who
/// wait keep waiting.
pub proof fn law_pong_is_a_sign_of_life(
    m: ManagerView,
    node: Seq<char>,
    seq: u64,
    other: (Seq<char>, u64),
    alive: Option<bool>,
    now: u64,
)
    ensures
        ({
            let (after, done) = manager::incoming(
                m,
                node,
                DistMessageView::Pong { seq },
                alive,
                now,
            );
            &&& m.nodes.contains_key(node) ==> after.nodes[node].last_seen_ms == now
            &&& !m.pings.contains_key((node, seq)) ==> done.len() == 0
            &&& !after.pings.contains_key((node, seq))
            &&& other != (node, seq) ==> after.pings.contains_key(other) == m.pings.contains_key(
                other,
            ) && (m.pings.contains_key(other) ==> after.pings[other] == m.pings[other])
        }),
{
}

/// A ping of a connected node moves its last sign of life to now, and one of a node that is not
/// connected is not answered.
pub proof fn law_ping_is_a_sign_of_life(
    m: ManagerView,
    node: Seq<char>,
    seq: u64,
    alive: Option<bool>,
    now: u64,
)
    ensures
        ({
            let (after, done) = manager::incoming(
                m,
                node,
                DistMessageView::Ping { seq },
                alive,
                now,
            );
            &&& m.nodes.contains_key(node) ==> after.nodes[node].last_seen_ms == now && done.len()
                == 1
            &&& !m.nodes.contains_key(node) ==> after == m && done.len() == 0
            &&& after.pings == m.pings
        }),
{
}

/// Whatever a node sends, it changes nothing but when this node was last heard of and which pongs
/// are waited for: no node appears or goes, and no other node is touched.
pub proof fn law_messages_move_no_node(
    m: ManagerView,
    node: Seq<char>,
    msg: DistMessageView,
    other: Seq<char>,
    alive: Option<bool>,
    now: u64,
)
    ensures
        ({
            let after = manager::incoming(m, node, msg, alive, now).0;
            &&& after.name == m.name
            &&& after.creation == m.creation
            &&& after.addrs == m.addrs
            &&& after.known == m.known
            &&& after.reconnecting == m.reconnecting
            &&& after.erlang == m.erlang
            &&& after.types == m.types
            &&& after.nodes.contains_key(other) == m.nodes.contains_key(other)
            &&& m.nodes.contains_key(other) ==> after.nodes[other].info == m.nodes[other].info
                && after.nodes[other].connection == m.nodes[other].connection
            &&& m.nodes.contains_key(other) && other != node ==> after.nodes[other]
                == m.nodes[other]
        }),
{
}

/// Messages of a handshake, and announcements, lead to nothing once a connection stands.
pub proof fn law_unexpected_messages_are_passed_over(
    m: ManagerView,
    node: Seq<char>,
    msg: DistMessageView,
    alive: Option<bool>,
    now: u64,
)
    requires
        msg is Hello || msg is Welcome || msg is NodeGoingDown || msg is Spawn
            || msg is SpawnReply,
    ensures
        manager::incoming(m, node, msg, alive, now).0 == m,
        manager::incoming(m, node, msg, alive, now).1.len() == 0,
{
}

/// How often something is asked for.
pub open spec fn times(done: Seq<ActionView>, a: ActionView) -> nat {
    done.to_multiset().count(a)
}

/// What is asked for in two parts is asked for as often as in both.
proof fn lemma_times(a: Seq<ActionView>, b: Seq<ActionView>, x: ActionView)
    ensures
        times(a + b, x) == times(a, x) + times(b, x),
{
    vstd::seq_lib::lemma_multiset_commutative(a, b);
}

/// A node that is lost is announced once with the reason, its processes are reported once, and its
/// group members are removed once.
pub open spec fn cleaned_up(done: Seq<ActionView>, node: Seq<char>, reason: Seq<char>) -> bool {
    &&& times(done, ActionView::NotifyNodeDown { node, reason }) == 1
    &&& times(done, ActionView::ProcessesDown { node }) == 1
    &&& times(done, ActionView::RemoveMembers { node }) == 1
}

/// Going down asks for each of the three things once, for this node and no other.
proof fn lemma_down(node: Seq<char>, reason: Seq<char>)
    ensures
        manager::down_actions(node, reason).len() == 3,
        cleaned_up(manager::down_actions(node, reason), node, reason),
        forall|other: Seq<char>, why: Seq<char>|
            (other, why) != (node, reason) ==> #[trigger] times(
                manager::down_actions(node, reason),
                ActionView::NotifyNodeDown { node: other, reason: why },
            ) == 0,
        forall|other: Seq<char>|
            other != node ==> #[trigger] times(
                manager::down_actions(node, reason),
                ActionView::ProcessesDown { node: other },
            ) == 0,
        forall|other: Seq<char>|
            other != node ==> #[trigger] times(
                manager::down_actions(node, reason),
                ActionView::RemoveMembers { node: other },
            ) == 0,
{
    broadcast use vstd::seq_lib::group_to_multiset_ensures;
    broadcast use vstd::multiset::group_multiset_axioms;

    let a = ActionView::NotifyNodeDown { node, reason };
    let b = ActionView::ProcessesDown { node };
    let c = ActionView::RemoveMembers { node };
    let done = manager::down_actions(node, reason);
    assert(done =~= Seq::<ActionView>::empty().push(a).push(b).push(c));
    assert(done.to_multiset() =~= Seq::<ActionView>::empty().to_multiset().insert(a).insert(
        b,
    ).insert(c));
}

/// Where the connection of a node ends, the node is dropped and cleaned up behind, each thing once
/// and nothing else.
pub proof fn law_lost_connection_is_cleaned_up(m: ManagerView, node: Seq<char>, addr: Seq<char>)
    requires
        manager::state_of(m, node, addr) is Ours,
    ensures
        cleaned_up(
            manager::down_actions(node, "connection closed"@),
            node,
            "connection closed"@,
        ),
        manager::down_actions(node, "connection closed"@).len() == 3,
        !manager::dropped(m, node).nodes.contains_key(node),
{
    lemma_down(node, "connection closed"@);
}

/// A node of either kind that is disconnected is cleaned up behind, each thing once, and each of
/// its connections is closed; of a node that is not connected nothing is asked for.
pub proof fn law_disconnected_node_is_cleaned_up(m: ManagerView, node: Seq<char>)
    ensures
        ({
            let done = manager::cut_actions(m, node);
            let after = manager::cut(m, node);
            let native = m.nodes.contains_key(node);
            let erlang = m.erlang.contains_key(node);
            &&& !after.nodes.contains_key(node)
            &&& !after.erlang.contains_key(node)
            &&& !after.types.contains_key(node)
            &&& native || erlang ==> cleaned_up(done, node, "disconnect requested"@)
            &&& native ==> times(
                done,
                ActionView::Close {
                    connection: m.nodes[node].connection,
                    reason: "disconnect requested"@,
                },
            ) == 1
            &&& erlang ==> times(done, ActionView::CloseErlang { node }) == 1
            &&& done.len() == (if native || erlang {
                3int
            } else {
                0int
            }) + (if native {
                1int
            } else {
                0int
            }) + (if erlang {
                1int
            } else {
                0int
            })
        }),
{
    broadcast use vstd::seq_lib::group_to_multiset_ensures;
    broadcast use vstd::multiset::group_multiset_axioms;

    let reason = "disconnect requested"@;
    let down = manager::down_actions(node, reason);
    let done = manager::cut_actions(m, node);
    let native = m.nodes.contains_key(node);
    let erlang = m.erlang.contains_key(node);
    lemma_down(node, reason);
    let close = ActionView::Close { connection: m.nodes[node].connection, reason };
    let close_erlang = ActionView::CloseErlang { node };
    let none = Seq::<ActionView>::empty();
    let first = if native {
        none.push(close)
    } else {
        none
    };
    let second = if erlang {
        first.push(close_erlang)
    } else {
        first
    };
    if native || erlang {
        assert(done =~= second + down);
        assert forall|x: ActionView| #[trigger] times(done, x) == times(second, x) + times(
            down,
            x,
        ) by {
            lemma_times(second, down, x);
        }
        assert(down.to_multiset() =~= none.to_multiset().insert(
            ActionView::NotifyNodeDown { node, reason },
        ).insert(ActionView::ProcessesDown { node }).insert(ActionView::RemoveMembers { node }))
            by {
            assert(down =~= none.push(ActionView::NotifyNodeDown { node, reason }).push(
                ActionView::ProcessesDown { node },
            ).push(ActionView::RemoveMembers { node }));
        }
        assert(times(done, ActionView::ProcessesDown { node }) == 1);
        assert(times(done, ActionView::RemoveMembers { node }) == 1);
        assert(times(done, ActionView::NotifyNodeDown { node, reason }) == 1);
        assert(times(down, close) == 0);
        assert(times(down, close_erlang) == 0);
    }
}

/// In a beat every node that was silent for too long is cleaned up behind, each thing once, and
/// its connection is closed; a node that was not is neither announced nor cleaned up behind.
pub proof fn law_silent_node_is_cleaned_up(
    start: ManagerView,
    names: Seq<Seq<char>>,
    now: u64,
    seq: u64,
    node: Seq<char>,
)
    requires
        names.no_duplicates(),
    ensures
        ({
            let done = manager::beat(start, names, now, seq).1;
            let reason = "heartbeat timeout"@;
            if names.contains(node) && manager::timed_out(start.nodes[node], now) {
                &&& cleaned_up(done, node, reason)
                &&& done.contains(
                    ActionView::Close { connection: start.nodes[node].connection, reason },
                )
            } else {
                &&& times(done, ActionView::NotifyNodeDown { node, reason }) == 0
                &&& times(done, ActionView::ProcessesDown { node }) == 0
                &&& times(done, ActionView::RemoveMembers { node }) == 0
            }
        }),
    decreases names.len(),
{
    broadcast use vstd::seq_lib::group_to_multiset_ensures;
    broadcast use vstd::multiset::group_multiset_axioms;

    let reason = "heartbeat timeout"@;
    if names.len() > 0 {
        let rest = names.drop_last();
        let last = names.last();
        law_silent_node_is_cleaned_up(start, rest, now, seq, node);
        let (m, done, n) = manager::beat(start, rest, now, seq);
        let all = manager::beat(start, names, now, seq).1;
        assert(names.contains(node) == (rest.contains(node) || node == last)) by {
            if rest.contains(node) {
                let i = choose|i: int| 0 <= i < rest.len() && rest[i] == node;
                assert(names[i] == node);
            }
            if names.contains(node) {
                let i = choose|i: int| 0 <= i < names.len() && names[i] == node;
                if i < rest.len() {
                    assert(rest[i] == node);
                }
            }
            assert(names[names.len() - 1] == last);
        }
        if rest.contains(last) {
            let i = choose|i: int| 0 <= i < rest.len() && rest[i] == last;
            assert(names[i] == names[names.len() - 1]);
        }
        let a = ActionView::NotifyNodeDown { node, reason };
        let b = ActionView::ProcessesDown { node };
        let c = ActionView::RemoveMembers { node };
        let close = ActionView::Close { connection: start.nodes[last].connection, reason };
        if manager::timed_out(start.nodes[last], now) {
            let down = manager::down_actions(last, reason);
            let one = seq![close];
            lemma_down(last, reason);
            assert(all == done + (one + down));
            lemma_times(done, one + down, a);
            lemma_times(done, one + down, b);
            lemma_times(done, one + down, c);
            lemma_times(one, down, a);
            lemma_times(one, down, b);
            lemma_times(one, down, c);
            assert(one =~= Seq::<ActionView>::empty().push(close));
            assert(times(one, a) == 0 && times(one, b) == 0 && times(one, c) == 0);
            assert(all[done.len() as int] == close);
        } else {
            let ping = ActionView::Transmit {
                connection: start.nodes[last].connection,
                msg: DistMessageView::Ping { seq: n },
            };
            assert(all == done.push(ping));
            assert(all.to_multiset() =~= done.to_multiset().insert(ping));
        }
        let was = ActionView::Close { connection: start.nodes[node].connection, reason };
        if done.contains(was) {
            let i = choose|i: int| 0 <= i < done.len() && done[i] == was;
            assert(all[i] == was);
        }
    } else {
        assert(manager::beat(start, names, now, seq).1.to_multiset() =~= Seq::<
            ActionView,
        >::empty().to_multiset());
    }
}

/// How many of some nodes were not silent for too long.
pub open spec fn living(start: ManagerView, names: Seq<Seq<char>>, now: u64) -> nat {
    names.filter(|k: Seq<char>| !manager::timed_out(start.nodes[k], now)).len()
}

/// The nodes that are left in a beat get one ping each, numbered one after the other from the
/// number at which the beat begins; and the beat ends with the next number.
pub proof fn law_beat_numbers_its_pings(
    start: ManagerView,
    names: Seq<Seq<char>>,
    now: u64,
    seq: u64,
    i: int,
)
    requires
        0 <= i < names.len(),
    ensures
        manager::beat(start, names, now, seq).2 == (seq + living(start, names, now)) % 0x1_0000_0000_0000_0000,
        !manager::timed_out(start.nodes[names[i]], now) ==> manager::beat(
            start,
            names,
            now,
            seq,
        ).1.contains(
            ActionView::Transmit {
                connection: start.nodes[names[i]].connection,
                msg: DistMessageView::Ping {
                    seq: ((seq + living(start, names.take(i), now)) % 0x1_0000_0000_0000_0000) as u64,
                },
            },
        ),
    decreases names.len(),
{
    reveal(Seq::filter);
    let p = |k: Seq<char>| !manager::timed_out(start.nodes[k], now);
    let rest = names.drop_last();
    let last = names.last();
    let (m, done, n) = manager::beat(start, rest, now, seq);
    let all = manager::beat(start, names, now, seq).1;
    assert(names.filter(p) == if p(last) {
        rest.filter(p).push(last)
    } else {
        rest.filter(p)
    });
    if rest.len() > 0 {
        law_beat_numbers_its_pings(start, rest, now, seq, 0);
    } else {
        assert(rest.filter(p).len() == 0);
    }
    if i < rest.len() {
        law_beat_numbers_its_pings(start, rest, now, seq, i);
        assert(rest.take(i) =~= names.take(i));
        assert(rest[i] == names[i]);
        if p(names[i]) {
            let ping = ActionView::Transmit {
                connection: start.nodes[names[i]].connection,
                msg: DistMessageView::Ping {
                    seq: ((seq + living(start, names.take(i), now)) % 0x1_0000_0000_0000_0000) as u64,
                },
            };
            let j = choose|j: int| 0 <= j < done.len() && done[j] == ping;
            assert(all[j] == ping);
        }
    } else {
        assert(names.take(i) =~= rest);
        if p(last) {
            assert(all[done.len() as int] == (ActionView::Transmit {
                connection: start.nodes[last].connection,
                msg: DistMessageView::Ping { seq: n },
            }));
        }
    }
}

/// A beat asks for nothing but pings on the connections of nodes that are left, and cleaning up
/// behind nodes that were silent for too long.
pub proof fn law_beat_asks_for_nothing_else(
    start: ManagerView,
    names: Seq<Seq<char>>,
    now: u64,
    seq: u64,
    a: ActionView,
)
    requires
        manager::beat(start, names, now, seq).1.contains(a),
    ensures
        exists|i: int|
            0 <= i < names.len() && {
                let node = #[trigger] names[i];
                let connection = start.nodes[node].connection;
                let reason = "heartbeat timeout"@;
                if manager::timed_out(start.nodes[node], now) {
                    ||| a == (ActionView::Close { connection, reason })
                    ||| a == (ActionView::NotifyNodeDown { node, reason })
                    ||| a == (ActionView::ProcessesDown { node })
                    ||| a == (ActionView::RemoveMembers { node })
                } else {
                    a matches ActionView::Transmit { connection: c, msg } && c == connection
                        && msg is Ping
                }
            },
    decreases names.len(),
{
    if names.len() > 0 {
        let rest = names.drop_last();
        let last = names.last();
        let done = manager::beat(start, rest, now, seq).1;
        let all = manager::beat(start, names, now, seq).1;
        let j = choose|j: int| 0 <= j < all.len() && all[j] == a;
        if j < done.len() {
            assert(done[j] == a);
            law_beat_asks_for_nothing_else(start, rest, now, seq, a);
            let i = choose|i: int|
                0 <= i < rest.len() && {
                    let node = #[trigger] rest[i];
                    let connection = start.nodes[node].connection;
                    let reason = "heartbeat timeout"@;
                    if manager::timed_out(start.nodes[node], now) {
                        ||| a == (ActionView::Close { connection, reason })
                        ||| a == (ActionView::NotifyNodeDown { node, reason })
                        ||| a == (ActionView::ProcessesDown { node })
                        ||| a == (ActionView::RemoveMembers { node })
                    } else {
                        a matches ActionView::Transmit { connection: c, msg } && c == connection
                            && msg is Ping
                    }
                };
            assert(names[i] == rest[i]);
        } else {
            assert(names[names.len() - 1] == last);
        }
    }
}

/// A node is silent for too long once more than three beats have gone by without a sign of life,
/// and not before; a clock that goes backwards makes nobody silent.
pub proof fn law_silence_takes_three_beats(node: NodeView, now: u64)
    ensures
        HEARTBEAT_TIMEOUT == 3 * HEARTBEAT_INTERVAL,
        HEARTBEAT_INTERVAL == 2000,
        now <= node.last_seen_ms ==> !manager::timed_out(node, now),
        now <= node.last_seen_ms + 6000 ==> !manager::timed_out(node, now),
        now > node.last_seen_ms + 6000 ==> manager::timed_out(node, now),
{
}

/// A node that has been connected is found with what is known of it, its connection and its kind,
/// and its address belongs to it, now and for a later connection. The other nodes stay.
pub proof fn law_connected_node_is_found(
    m: ManagerView,
    info: NodeInfoView,
    addr: Seq<char>,
    connection: u64,
    now: u64,
    other: Seq<char>,
)
    ensures
        ({
            let node = info.name;
            let after = manager::stored(m, node, info, addr, connection, now);
            &&& after.nodes.contains_key(node)
            &&& after.nodes[node].info == info
            &&& after.nodes[node].connection == connection
            &&& after.nodes[node].last_seen_ms == now
            &&& !manager::timed_out(after.nodes[node], now)
            &&& after.types.contains_key(node) && after.types[node] == NodeType::Native
            &&& after.addrs.contains_key(addr) && after.addrs[addr] == node
            &&& after.known.contains_key(node) && after.known[node] == addr
            &&& info.addr == Some(addr) ==> manager::state_of(after, node, addr)
                == ConnectionState::Ours(connection)
            &&& other != node ==> after.nodes.contains_key(other) == m.nodes.contains_key(other)
                && (m.nodes.contains_key(other) ==> after.nodes[other] == m.nodes[other])
                && after.types.contains_key(other) == m.types.contains_key(other)
                && after.known.contains_key(other) == m.known.contains_key(other)
            &&& other != addr ==> after.addrs.contains_key(other) == m.addrs.contains_key(other)
            &&& after.pings == m.pings
            &&& after.erlang == m.erlang
            &&& after.reconnecting == m.reconnecting
            &&& after.name == m.name
            &&& after.creation == m.creation
        }),
{
}

/// A node that was dropped is connected no more, and its address is free for a new connection;
/// the other nodes and their addresses stay.
pub proof fn law_dropped_node_is_gone(m: ManagerView, node: Seq<char>, other: Seq<char>)
    ensures
        ({
            let after = manager::dropped(m, node);
            &&& !after.nodes.contains_key(node)
            &&& !after.types.contains_key(node)
            &&& forall|addr: Seq<char>|
                manager::state_of(after, node, addr) == ConnectionState::Gone
            &&& m.nodes.contains_key(node) ==> (m.nodes[node].info.addr matches Some(addr)
                ==> !after.addrs.contains_key(addr))
            &&& other != node ==> after.nodes.contains_key(other) == m.nodes.contains_key(other)
                && (m.nodes.contains_key(other) ==> after.nodes[other] == m.nodes[other])
                && after.types.contains_key(other) == m.types.contains_key(other)
            &&& !(m.nodes.contains_key(node) && m.nodes[node].info.addr == Some(other))
                ==> after.addrs.contains_key(other) == m.addrs.contains_key(other)
            &&& after.known == m.known
            &&& after.pings == m.pings
            &&& after.erlang == m.erlang
            &&& after.reconnecting == m.reconnecting
            &&& after.name == m.name
            &&& after.creation == m.creation
        }),
{
}

/// Ending the connections to a node leaves all that is known of the other nodes.
pub proof fn law_disconnecting_spares_the_others(
    m: ManagerView,
    node: Seq<char>,
    other: Seq<char>,
)
    requires
        other != node,
    ensures
        ({
            let after = manager::cut(m, node);
            &&& after.nodes.contains_key(other) == m.nodes.contains_key(other)
            &&& m.nodes.contains_key(other) ==> after.nodes[other] == m.nodes[other]
            &&& after.erlang.contains_key(other) == m.erlang.contains_key(other)
            &&& m.erlang.contains_key(other) ==> after.erlang[other] == m.erlang[other]
            &&& after.types.contains_key(other) == m.types.contains_key(other)
            &&& after.known == m.known
            &&& after.pings == m.pings
        }),
{
}

/// Once a node is connected, it is asked for its part of the global registry and for its process
/// groups, each once.
pub proof fn law_new_node_is_synchronised(node: Seq<char>)
    ensures
        times(manager::sync_actions(node), ActionView::SyncRegistry { node }) == 1,
        times(manager::sync_actions(node), ActionView::SyncGroups { node }) == 1,
        manager::sync_actions(node).len() == 2,
{
    broadcast use vstd::seq_lib::group_to_multiset_ensures;
    broadcast use vstd::multiset::group_multiset_axioms;

    let a = ActionView::SyncRegistry { node };
    let b = ActionView::SyncGroups { node };
    assert(manager::sync_actions(node) =~= Seq::<ActionView>::empty().push(a).push(b));
}

/// Numbers are given out one after the other, and no two that follow each other are the same.
pub proof fn law_numbers_go_on(seq: u64)
    ensures
        manager::next_seq(seq) != seq,
        seq < u64::MAX ==> manager::next_seq(seq) == seq + 1,
        manager::next_seq(u64::MAX) == 0,
{
}

/// When a node stops, every node that was connected is disconnected: it is cleaned up behind once,
/// and its connections are closed.
pub proof fn law_stop_cleans_up_behind_all(m: ManagerView, names: Seq<Seq<char>>, node: Seq<char>)
    requires
        m.nodes.contains_key(node) || m.erlang.contains_key(node),
        names.contains(node),
    ensures
        ({
            let (after, done) = node::all_cut(m, names);
            &&& !after.nodes.contains_key(node)
            &&& !after.erlang.contains_key(node)
            &&& cleaned_up(done, node, "disconnect requested"@)
            &&& m.nodes.contains_key(node) ==> done.contains(
                ActionView::Close {
                    connection: m.nodes[node].connection,
                    reason: "disconnect requested"@,
                },
            )
            &&& m.erlang.contains_key(node) ==> done.contains(ActionView::CloseErlang { node })
        }),
{
    lemma_all_cut(m, names, node);
}

/// Ending the connections to some nodes, one after the other, treats each node as ending the
/// connections to it alone.
proof fn lemma_all_cut(m: ManagerView, names: Seq<Seq<char>>, node: Seq<char>)
    ensures
        ({
            let (after, done) = node::all_cut(m, names);
            let reason = "disconnect requested"@;
            let known = m.nodes.contains_key(node) || m.erlang.contains_key(node);
            let close = ActionView::Close { connection: m.nodes[node].connection, reason };
            let n: nat = if known && names.contains(node) {
                1
            } else {
                0
            };
            &&& after.nodes.contains_key(node) == (m.nodes.contains_key(node) && !names.contains(
                node,
            ))
            &&& after.erlang.contains_key(node) == (m.erlang.contains_key(node) && !names.contains(
                node,
            ))
            &&& after.nodes.contains_key(node) ==> after.nodes[node] == m.nodes[node]
            &&& times(done, ActionView::NotifyNodeDown { node, reason }) == n
            &&& times(done, ActionView::ProcessesDown { node }) == n
            &&& times(done, ActionView::RemoveMembers { node }) == n
            &&& names.contains(node) && m.nodes.contains_key(node) ==> done.contains(close)
            &&& names.contains(node) && m.erlang.contains_key(node) ==> done.contains(
                ActionView::CloseErlang { node },
            )
        }),
    decreases names.len(),
{
    broadcast use vstd::seq_lib::group_to_multiset_ensures;
    broadcast use vstd::multiset::group_multiset_axioms;

    let reason = "disconnect requested"@;
    if names.len() > 0 {
        let rest = names.drop_last();
        let last = names.last();
        lemma_all_cut(m, rest, node);
        let (n, done) = node::all_cut(m, rest);
        let more = manager::cut_actions(n, last);
        let all = node::all_cut(m, names).1;
        assert(all == done + more);
        assert(names.contains(node) == (rest.contains(node) || node == last)) by {
            if rest.contains(node) {
                let i = choose|i: int| 0 <= i < rest.len() && rest[i] == node;
                assert(names[i] == node);
            }
            if names.contains(node) {
                let i = choose|i: int| 0 <= i < names.len() && names[i] == node;
                if i < rest.len() {
                    assert(rest[i] == node);
                }
            }
            assert(names[names.len() - 1] == last);
        }
        let a = ActionView::NotifyNodeDown { node, reason };
        let b = ActionView::ProcessesDown { node };
        let c = ActionView::RemoveMembers { node };
        let close = ActionView::Close { connection: m.nodes[node].connection, reason };
        let close_erlang = ActionView::CloseErlang { node };
        lemma_times(done, more, a);
        lemma_times(done, more, b);
        lemma_times(done, more, c);
        law_disconnected_node_is_cleaned_up(n, last);
        if node != last {
            lemma_cut_of_another(n, last, node);
        } else if !n.nodes.contains_key(node) && !n.erlang.contains_key(node) {
            assert(more.to_multiset() =~= Seq::<ActionView>::empty().to_multiset());
        }
        if done.contains(close) {
            let i = choose|i: int| 0 <= i < done.len() && done[i] == close;
            assert(all[i] == close);
        }
        if done.contains(close_erlang) {
            let i = choose|i: int| 0 <= i < done.len() && done[i] == close_erlang;
            assert(all[i] == close_erlang);
        }
        if more.contains(close) {
            let i = choose|i: int| 0 <= i < more.len() && more[i] == close;
            assert(all[done.len() + i] == close);
        }
        if more.contains(close_erlang) {
            let i = choose|i: int| 0 <= i < more.len() && more[i] == close_erlang;
            assert(all[done.len() + i] == close_erlang);
        }
    } else {
        assert(node::all_cut(m, names).1.to_multiset() =~= Seq::<
            ActionView,
        >::empty().to_multiset());
    }
}

/// Ending the connections to one node asks for nothing about another.
proof fn lemma_cut_of_another(m: ManagerView, node: Seq<char>, other: Seq<char>)
    requires
        other != node,
    ensures
        times(
            manager::cut_actions(m, node),
            ActionView::NotifyNodeDown { node: other, reason: "disconnect requested"@ },
        ) == 0,
        times(manager::cut_actions(m, node), ActionView::ProcessesDown { node: other }) == 0,
        times(manager::cut_actions(m, node), ActionView::RemoveMembers { node: other }) == 0,
{
    broadcast use vstd::seq_lib::group_to_multiset_ensures;

    let done = manager::cut_actions(m, node);
    let a = ActionView::NotifyNodeDown { node: other, reason: "disconnect requested"@ };
    let b = ActionView::ProcessesDown { node: other };
    let c = ActionView::RemoveMembers { node: other };
    assert(!done.contains(a));
    assert(!done.contains(b));
    assert(!done.contains(c));
}

/// A message to a process of a connected node goes the whole way: it is queued on the connection of
/// that node, and there it is put into the mailbox of the process, whole and once.
pub proof fn law_message_reaches_the_other_node(
    here: &mut DistributionManager,
    there: &mut DistributionManager,
    pid: Pid,
    from: Option<Pid>,
    payload: Vec<u8>,
    step: SendStep,
    sender: &str,
    alive: Option<bool>,
    now: u64,
    done: Vec<Action>,
)
    requires
        old(here).wf(),
        old(there).wf(),
        old(here)@.nodes.contains_key(pid@.node),
        old(there)@.name == pid@.node,
        call_ensures(DistributionManager::send_to_remote, (here, pid, from, payload), step),
        step matches SendStep::Queue { connection, msg } ==> call_ensures(
            DistributionManager::handle_incoming_message,
            (there, sender, msg, alive, now),
            done,
        ),
    ensures
        step matches SendStep::Queue { connection, .. } && connection
            == old(here)@.nodes[pid@.node].connection,
        final(here)@ == old(here)@,
        final(there)@ == old(there)@,
        done@.len() == 1,
        done@[0]@ == (ActionView::Deliver { to: pid@, payload: payload@ }),
{
    match step {
        SendStep::Queue { connection, msg } => {
            assert(manager::actions(done@).len() == 1);
            assert(manager::actions(done@)[0] == done@[0]@);
        },
        _ => {},
    }
}

/// A ping goes there and back: the other node answers on its connection to this one, and the
/// answer wakes the one who waits for it, and no one else.
pub proof fn law_ping_goes_there_and_back(
    here: &mut DistributionManager,
    later: &mut DistributionManager,
    there: &mut DistributionManager,
    node: &str,
    this: &str,
    seq: u64,
    waiter: u64,
    alive: Option<bool>,
    now: u64,
    answer: Vec<Action>,
    pong: DistMessage,
    done: Vec<Action>,
)
    requires
        old(here).wf(),
        old(there).wf(),
        old(there)@.nodes.contains_key(this@),
        call_ensures(DistributionManager::register_ping, (here, node, seq, waiter), ()),
        *later == *final(here),
        exists|ping: DistMessage|
            ping@ == manager::ping_of(seq) && #[trigger] call_ensures(
                DistributionManager::handle_incoming_message,
                (there, this, ping, alive, now),
                answer,
            ),
        answer@[0] matches Action::Transmit { connection, msg } ==> pong@ == msg@,
        call_ensures(
            DistributionManager::handle_incoming_message,
            (later, node, pong, alive, now),
            done,
        ),
    ensures
        answer@.len() == 1,
        answer@[0] matches Action::Transmit { connection, .. } && connection
            == old(there)@.nodes[this@].connection,
        done@.len() == 1,
        done@[0]@ == (ActionView::PongReceived { waiter }),
        !final(later)@.pings.contains_key((node@, seq)),
{
    assert(manager::actions(answer@).len() == 1);
    assert(manager::actions(answer@)[0] == answer@[0]@);
    assert(answer@[0]@ is Transmit);
    assert(manager::actions(done@).len() == 1);
    assert(manager::actions(done@)[0] == done@[0]@);
}

/// Two nodes that shake hands know each other's name and incarnation.
pub proof fn law_handshake_introduces_both(
    here: &DistributionManager,
    there: &mut DistributionManager,
    addr: &str,
    hello: Result<DistMessage, DistError>,
    answer: (Result<(String, u32, DistMessage), DistError>, Vec<Action>),
    info: Result<NodeInfo, DistError>,
)
    requires
        here.wf(),
        old(there).wf(),
        !here@.addrs.contains_key(addr@),
        call_ensures(DistributionManager::connect_to, (here, addr), hello),
        hello matches Ok(msg) ==> call_ensures(
            DistributionManager::handle_incoming_connection,
            (there, msg),
            answer,
        ),
        answer.0 matches Ok((_, _, welcome)) ==> call_ensures(
            DistributionManager::perform_handshake,
            (welcome, addr),
            info,
        ),
    ensures
        answer.0 matches Ok((name, creation, _)) && name@ == here@.name && creation
            == here@.creation,
        info matches Ok(known) && known@ == (NodeInfoView {
            name: old(there)@.name,
            addr: Some(addr@),
            creation: old(there)@.creation,
        }),
{
}

/// A message to a node that was lost is refused, and the first one asks for a new connection to the
/// address that the node had; until that attempt is over no other does.
pub proof fn law_lost_node_is_reconnected_once(
    first: &mut DistributionManager,
    second: &mut DistributionManager,
    pid: Pid,
    from: Option<Pid>,
    payload: Vec<u8>,
    again: Vec<u8>,
    one: SendStep,
    two: SendStep,
)
    requires
        old(first).wf(),
        !old(first)@.nodes.contains_key(pid@.node),
        old(first)@.known.contains_key(pid@.node),
        !old(first)@.reconnecting.contains(pid@.node),
        call_ensures(DistributionManager::send_to_remote, (first, pid, from, payload), one),
        *second == *final(first),
        call_ensures(DistributionManager::send_to_remote, (second, pid, from, again), two),
    ensures
        one matches SendStep::Refused { error, reconnect } && error is NotConnected && (
        reconnect matches Some(addr) && addr@ == old(first)@.known[pid@.node]),
        two matches SendStep::Refused { error, reconnect } && error is NotConnected
            && reconnect is None,
        final(second)@.nodes == old(first)@.nodes,
        final(second)@.known == old(first)@.known,
{
}

/// A message of an Erlang node for a process is put into the mailbox of the local process with the
/// number that it names, as it is written; what names no process, or brings no message that can
/// be written, is passed over.
pub proof fn law_erlang_message_is_delivered(
    to: Term,
    payload: Option<Term>,
    here: Seq<char>,
    creation: u32,
    r: ErlangStep,
)
    requires
        erlang::sends_to(to, payload, here, creation, r),
    ensures
        match to {
            Term::Pid { id, .. } => match payload {
                Some(p) => match etf::etf_written(p) {
                    Some(bytes) => r matches ErlangStep::Deliver { to: pid, payload: got }
                        && pid@.node == here && pid@.id == id && pid@.creation == creation && got@
                        == bytes,
                    None => r is Ignore,
                },
                None => r is Ignore,
            },
            _ => r is Ignore,
        },
{
}

/// Whether nothing of a manager has changed but when a node was last heard of, and who waits for a
/// pong.
pub open spec fn same_but_signs_of_life(a: ManagerView, b: ManagerView) -> bool {
    &&& a.name == b.name
    &&& a.creation == b.creation
    &&& a.addrs == b.addrs
    &&& a.known == b.known
    &&& a.reconnecting == b.reconnecting
    &&& a.erlang == b.erlang
    &&& a.types == b.types
    &&& a.nodes.dom() == b.nodes.dom()
    &&& forall|n: Seq<char>| #[trigger]
        a.nodes.contains_key(n) ==> a.nodes[n].info == b.nodes[n].info && a.nodes[n].connection
            == b.nodes[n].connection
}

/// A message of a node is acted on: what it carries is handed to whom it is for, whole and once,
/// and nothing else is asked for. A ping is answered on the node's connection, and a pong wakes
/// the one who waits for it; both count as a sign of life.
pub proof fn law_message_is_acted_on(
    m: &mut DistributionManager,
    from_node: &str,
    msg: DistMessage,
    alive: Option<bool>,
    now: u64,
    r: Vec<Action>,
)
    requires
        old(m).wf(),
        call_ensures(
            DistributionManager::handle_incoming_message,
            (m, from_node, msg, alive, now),
            r,
        ),
    ensures
        same_but_signs_of_life(final(m)@, old(m)@),
        ({
            let known = old(m)@.nodes.contains_key(from_node@);
            let connection = old(m)@.nodes[from_node@].connection;
            match msg {
                DistMessage::Send { to, from, payload } => if to@.node == old(m)@.name {
                    r@.len() == 1 && r@[0]@ == (ActionView::Deliver { to: to@, payload: payload@ })
                } else {
                    r@.len() == 0
                },
                DistMessage::Ping { seq } => if known {
                    &&& r@.len() == 1
                    &&& r@[0]@ == (ActionView::Transmit {
                        connection,
                        msg: DistMessageView::Pong { seq },
                    })
                    &&& final(m)@.nodes[from_node@].last_seen_ms == now
                } else {
                    r@.len() == 0
                },
                DistMessage::Pong { seq } => {
                    &&& known ==> final(m)@.nodes[from_node@].last_seen_ms == now
                    &&& !final(m)@.pings.contains_key((from_node@, seq))
                    &&& if old(m)@.pings.contains_key((from_node@, seq)) {
                        r@.len() == 1 && r@[0]@ == (ActionView::PongReceived {
                            waiter: old(m)@.pings[(from_node@, seq)],
                        })
                    } else {
                        r@.len() == 0
                    }
                },
                DistMessage::MonitorNode { requesting_pid } => r@.len() == 1 && r@[0]@ == (
                ActionView::AddNodeMonitor { node: from_node@, pid: requesting_pid@ }),
                DistMessage::DemonitorNode { requesting_pid } => r@.len() == 1 && r@[0]@ == (
                ActionView::RemoveNodeMonitor { node: from_node@, pid: requesting_pid@ }),
                DistMessage::GlobalRegistry { payload } => r@.len() == 1 && r@[0]@ == (
                ActionView::RegistryMessage { node: from_node@, payload: payload@ }),
                DistMessage::ProcessGroups { payload } => r@.len() == 1 && r@[0]@ == (
                ActionView::GroupsMessage { node: from_node@, payload: payload@ }),
                DistMessage::MonitorProcess { from, target, reference } => {
                    let dead = alive == Some(false);
                    &&& r@.len() == (if !dead {
                        1int
                    } else if known {
                        3int
                    } else {
                        2int
                    })
                    &&& r@[0]@ == (ActionView::AddMonitor {
                        target: target@,
                        from: from@,
                        reference,
                        node: from_node@,
                    })
                    &&& dead ==> r@[r@.len() - 1]@ == (ActionView::RemoveMonitor {
                        target: target@,
                        from: from@,
                        reference,
                    })
                    &&& dead && known ==> r@[1]@ == (ActionView::Transmit {
                        connection,
                        msg: DistMessageView::ProcessDown {
                            reference,
                            pid: target@,
                            reason: "noproc"@,
                        },
                    })
                },
                DistMessage::DemonitorProcess { from, target, reference } => r@.len() == 1
                    && r@[0]@ == (ActionView::RemoveMonitor {
                    target: target@,
                    from: from@,
                    reference,
                }),
                DistMessage::ProcessDown { reference, pid, reason } => r@.len() == 1 && r@[0]@ == (
                ActionView::ProcessDown { reference, pid: pid@, reason: reason@ }),
                DistMessage::Link { from, target } => r@.len() == 1 && r@[0]@ == (
                ActionView::Link { from: from@, target: target@, node: from_node@ }),
                DistMessage::Unlink { from, target } => r@.len() == 1 && r@[0]@ == (
                ActionView::Unlink { from: from@, target: target@ }),
                DistMessage::Exit { from, target, reason } => r@.len() == 1 && r@[0]@ == (
                ActionView::Exit { from: from@, target: target@, reason: reason@ }),
                _ => r@.len() == 0 && final(m)@ == old(m)@,
            }
        }),
{
    let v = manager::actions(r@);
    assert(v.len() == r@.len());
    assert(forall|i: int| 0 <= i < r@.len() ==> #[trigger] v[i] == r@[i]@);
    if v.len() > 0 {
        assert(v[0] == r@[0]@);
        assert(v[v.len() - 1] == r@[r@.len() - 1]@);
    }
    if v.len() > 1 {
        assert(v[1] == r@[1]@);
    }
    assert(final(m)@.nodes.dom() =~= old(m)@.nodes.dom());
}

/// When the connection of a node at an address ends, and is still the node's connection, the node
/// is connected no more, is announced once as closed, its processes are reported once, and its
/// group members are removed once. An end of another connection leads to nothing.
pub proof fn law_ended_connection_is_cleaned_up(
    m: &mut DistributionManager,
    node: &str,
    addr: &str,
    r: Vec<Action>,
    other: Seq<char>,
)
    requires
        old(m).wf(),
        call_ensures(DistributionManager::connection_ended, (m, node, addr), r),
    ensures
        ({
            let ours = old(m)@.nodes.contains_key(node@) && old(m)@.nodes[node@].info.addr == Some(
                addr@,
            );
            &&& ours ==> {
                &&& r@.len() == 3
                &&& cleaned_up(manager::actions(r@), node@, "connection closed"@)
                &&& !final(m)@.nodes.contains_key(node@)
                &&& !final(m)@.types.contains_key(node@)
                &&& !final(m)@.addrs.contains_key(addr@)
                &&& final(m)@.known == old(m)@.known
                &&& other != node@ ==> final(m)@.nodes.contains_key(other) == old(m)@.nodes.contains_key(other)
            }
            &&& !ours ==> r@.len() == 0 && final(m)@ == old(m)@
        }),
{
    lemma_down(node@, "connection closed"@);
    assert(manager::actions(r@).len() == r@.len());
}

/// A node that is disconnected on request is cleaned up behind, each thing once, and each of its
/// connections is closed; a node that is not connected is refused by its name, and nothing is
/// asked for.
pub proof fn law_requested_end_is_cleaned_up(
    m: &mut DistributionManager,
    node: &str,
    r: (Result<(), DistError>, Vec<Action>),
    other: Seq<char>,
)
    requires
        old(m).wf(),
        other != node@,
        call_ensures(DistributionManager::disconnect_from, (m, node), r),
    ensures
        ({
            let native = old(m)@.nodes.contains_key(node@);
            let erlang = old(m)@.erlang.contains_key(node@);
            let done = manager::actions(r.1@);
            &&& r.0 is Ok <==> native || erlang
            &&& r.0 is Err ==> (r.0 matches Err(DistError::NotConnected(n)) && n@ == node@)
                && r.1@.len() == 0
            &&& r.0 is Ok ==> cleaned_up(done, node@, "disconnect requested"@)
            &&& native ==> times(
                done,
                ActionView::Close {
                    connection: old(m)@.nodes[node@].connection,
                    reason: "disconnect requested"@,
                },
            ) == 1
            &&& erlang ==> times(done, ActionView::CloseErlang { node: node@ }) == 1
            &&& !final(m)@.nodes.contains_key(node@)
            &&& !final(m)@.erlang.contains_key(node@)
            &&& !final(m)@.types.contains_key(node@)
            &&& final(m)@.nodes.contains_key(other) == old(m)@.nodes.contains_key(other)
            &&& final(m)@.erlang.contains_key(other) == old(m)@.erlang.contains_key(other)
        }),
{
    law_disconnected_node_is_cleaned_up(old(m)@, node@);
    assert(manager::actions(r.1@).len() == r.1@.len());
}

/// In a beat every node that was silent for more than six seconds is dropped, its connection is
/// closed, and it is cleaned up behind once; every other node stays as it was, and gets a ping on
/// its connection.
pub proof fn law_beat_tells_the_silent_from_the_living(
    m: &mut DistributionManager,
    now: u64,
    seq: u64,
    r: (Vec<Action>, u64),
    node: Seq<char>,
)
    requires
        old(m).wf(),
        old(m)@.nodes.contains_key(node),
        call_ensures(DistributionManager::heartbeat, (m, now, seq), r),
    ensures
        ({
            let was = old(m)@.nodes[node];
            let done = manager::actions(r.0@);
            let reason = "heartbeat timeout"@;
            if now > was.last_seen_ms + 6000 {
                &&& !final(m)@.nodes.contains_key(node)
                &&& cleaned_up(done, node, reason)
                &&& done.contains(ActionView::Close { connection: was.connection, reason })
            } else {
                &&& final(m)@.nodes.contains_key(node)
                &&& final(m)@.nodes[node] == was
                &&& times(done, ActionView::NotifyNodeDown { node, reason }) == 0
                &&& times(done, ActionView::ProcessesDown { node }) == 0
                &&& times(done, ActionView::RemoveMembers { node }) == 0
                &&& exists|n: u64|
                    done.contains(
                        ActionView::Transmit {
                            connection: was.connection,
                            msg: #[trigger] manager::ping_of(n),
                        },
                    )
            }
        }),
{
    old(m).law_order();
    let names = old(m).order();
    assert(names.contains(node));
    let i = choose|i: int| 0 <= i < names.len() && names[i] == node;
    law_silence_takes_three_beats(old(m)@.nodes[node], now);
    law_silent_node_is_cleaned_up(old(m)@, names, now, seq, node);
    manager::law_beat_drops_exactly_the_silent(old(m)@, names, now, seq, node);
    if !manager::timed_out(old(m)@.nodes[node], now) {
        manager::law_beat_pings_the_living(old(m)@, names, now, seq, i);
    }
}

/// Whether a node is entered as connected: with what is known of it, on its connection, heard of
/// now, and with its address; and is asked for its part of the global registry and its groups.
pub open spec fn is_entered(
    before: ManagerView,
    after: ManagerView,
    info: NodeInfoView,
    addr: Seq<char>,
    connection: u64,
    now: u64,
    done: Seq<ActionView>,
) -> bool {
    &&& after.nodes.contains_key(info.name)
    &&& after.nodes[info.name] == (NodeView { info, connection, last_seen_ms: now })
    &&& after.types.contains_key(info.name) && after.types[info.name] == NodeType::Native
    &&& after.addrs.contains_key(addr) && after.addrs[addr] == info.name
    &&& after.known.contains_key(info.name) && after.known[info.name] == addr
    &&& after.nodes.remove(info.name) == before.nodes.remove(info.name)
    &&& done.len() == 2
    &&& times(done, ActionView::SyncRegistry { node: info.name }) == 1
    &&& times(done, ActionView::SyncGroups { node: info.name }) == 1
}

/// A connection that this node has made is entered, unless the node has one; then the new one is
/// closed, and nothing else happens.
pub proof fn law_made_connection_is_entered(
    m: &mut DistributionManager,
    info: NodeInfo,
    addr: &str,
    connection: u64,
    now: u64,
    r: (Result<String, DistError>, Vec<Action>),
)
    requires
        old(m).wf(),
        call_ensures(DistributionManager::connected, (m, info, addr, connection, now), r),
    ensures
        if old(m)@.nodes.contains_key(info@.name) {
            &&& final(m)@ == old(m)@
            &&& r.0 matches Err(DistError::AlreadyConnected(n)) && n@ == info@.name
            &&& r.1@.len() == 1
            &&& r.1@[0]@ == (ActionView::Close { connection, reason: "duplicate connection"@ })
        } else {
            &&& r.0 matches Ok(n) && n@ == info@.name
            &&& is_entered(
                old(m)@,
                final(m)@,
                info@,
                addr@,
                connection,
                now,
                manager::actions(r.1@),
            )
        },
{
    let v = manager::actions(r.1@);
    assert(v.len() == r.1@.len());
    if v.len() > 0 {
        assert(v[0] == r.1@[0]@);
    }
    law_new_node_is_synchronised(info@.name);
    assert(final(m)@.nodes.remove(info@.name) =~= old(m)@.nodes.remove(info@.name));
}

/// A connection that another node has made is entered with the name and the incarnation that the
/// node gave, in place of one that it had, which is closed.
pub proof fn law_accepted_connection_is_entered(
    m: &mut DistributionManager,
    hello: DistMessage,
    node: String,
    creation: u32,
    answer: (Result<(String, u32, DistMessage), DistError>, Vec<Action>),
    n: &mut DistributionManager,
    addr: &str,
    connection: u64,
    now: u64,
    r: Vec<Action>,
)
    requires
        old(m).wf(),
        hello@ == (DistMessageView::Hello { node_name: node@, creation }),
        call_ensures(DistributionManager::handle_incoming_connection, (m, hello), answer),
        *old(n) == *final(m),
        call_ensures(
            DistributionManager::accepted,
            (n, node, creation, addr, connection, now),
            r,
        ),
    ensures
        answer.0 matches Ok((name, remote, _)) && name@ == node@ && remote == creation,
        old(m)@.nodes.contains_key(node@) ==> answer.1@.len() == 2 && answer.1@[0]@ == (
        ActionView::Close {
            connection: old(m)@.nodes[node@].connection,
            reason: "replaced by new connection"@,
        }) && answer.1@[1]@ == (ActionView::RemoveMembers { node: node@ }),
        !old(m)@.nodes.contains_key(node@) ==> answer.1@.len() == 0,
        is_entered(
            old(m)@,
            final(n)@,
            (NodeInfoView { name: node@, addr: Some(addr@), creation }),
            addr@,
            connection,
            now,
            manager::actions(r@),
        ),
{
    let v = manager::actions(answer.1@);
    assert(v.len() == answer.1@.len());
    if v.len() > 1 {
        assert(v[0] == answer.1@[0]@);
        assert(v[1] == answer.1@[1]@);
    }
    law_new_node_is_synchronised(node@);
    assert(final(n)@.nodes.remove(node@) =~= old(m)@.nodes.remove(node@));
}

/// An Erlang node that is connected is known as one until its connection ends; meanwhile a second
/// connection is refused. The native nodes are not touched.
pub proof fn law_erlang_node_is_known_until_it_goes(
    m: &mut DistributionManager,
    node: &str,
    mid: &DistributionManager,
    beam: bool,
    again: Result<(), DistError>,
    n: &mut DistributionManager,
    after: &DistributionManager,
    later: Result<(), DistError>,
)
    requires
        old(m).wf(),
        call_ensures(DistributionManager::erlang_connected, (m, node), ()),
        *mid == *final(m),
        call_ensures(DistributionManager::is_beam_node, (mid, node), beam),
        call_ensures(DistributionManager::connect_erlang, (mid, node), again),
        *old(n) == *final(m),
        call_ensures(DistributionManager::erlang_disconnected, (n, node), ()),
        *after == *final(n),
        call_ensures(DistributionManager::connect_erlang, (after, node), later),
    ensures
        beam,
        again matches Err(DistError::AlreadyConnected(x)) && x@ == node@,
        later is Ok,
        !after@.erlang.contains_key(node@),
        !after@.types.contains_key(node@),
        after@.nodes == old(m)@.nodes,
{
}

/// A message of an Erlang node for a process goes to the local process with the number that it
/// names; one for a name is looked up; all else is passed over.
pub proof fn law_erlang_messages_are_acted_on(
    control: ControlMessage,
    payload: Option<OwnedTerm>,
    here: &str,
    creation: u32,
    r: ErlangStep,
)
    requires
        call_ensures(erlang::handle_erlang_incoming, (control, payload, here, creation), r),
    ensures
        control is Other ==> r is Ignore,
        control matches ControlMessage::Send { to_pid } ==> is_delivered(
            to_pid,
            payload,
            here@,
            creation,
            r,
        ),
        control matches ControlMessage::SendSender { to_pid } ==> is_delivered(
            to_pid,
            payload,
            here@,
            creation,
            r,
        ),
        control matches ControlMessage::RegSend { to_name } ==> match (
            etf::term_of(to_name),
            payload,
        ) {
            (Term::Atom(atom), Some(p)) => r matches ErlangStep::Lookup { name, payload: q }
                && name@ == atom && q == p,
            _ => r is Ignore,
        },
{
}

/// Whether a message for the process that a term names is delivered as it is written.
pub open spec fn is_delivered(
    to: OwnedTerm,
    payload: Option<OwnedTerm>,
    here: Seq<char>,
    creation: u32,
    r: ErlangStep,
) -> bool {
    match (etf::term_of(to), payload) {
        (Term::Pid { id, .. }, Some(p)) => match etf::etf_written(etf::term_of(p)) {
            Some(bytes) => r matches ErlangStep::Deliver { to: pid, payload: got } && pid@.node
                == here && pid@.id == id && pid@.creation == creation && got@ == bytes,
            None => r is Ignore,
        },
        _ => r is Ignore,
    }
}

} // verus!
