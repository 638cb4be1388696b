//! The presence server: it tracks who is present, tells subscribers of changes, and keeps in step
//! with the presence servers of the other nodes.

use vstd::prelude::*;

use crate::gen_server::server as gen_server;
use crate::message;
use crate::message::Message;
use crate::piece;
use crate::piece::{Dict, Piece};
use crate::presence::convert;
use crate::presence::crdt;
use crate::presence::crdt::{
    DeltaView, EntryView, PresenceCrdt, PresenceDelta, ReplicaStatus, Tag, TagView, TrackedEntry,
    Values,
};
use crate::presence::types;
use crate::presence::types::{
    CrdtPresenceMessage, CrdtPresenceMessageView, PresenceCall, PresenceCallView, PresenceCast,
    PresenceCastView, PresenceDiff, PresenceDiffView, PresenceInfo, PresenceInfoView,
    PresenceMessage, PresenceMessageView, PresenceMeta, PresenceMetaView, PresenceRef,
    PresenceReply, PresenceReplyView, PresenceState, PresenceStateView, SharedDelta,
};
use crate::process::{Pid, PidView};
use crate::pubsub::subscriptions;
use crate::table;
use crate::table::{Key, Table};
use crate::text;

verus! {

/// How a presence server is started.
pub struct PresenceConfig {
    /// The name to register it under.
    pub name: String,
    /// The name of the publish-subscribe server that tells subscribers of changes.
    pub pubsub: String,
}

impl PresenceConfig {
    /// A server with a name, on top of a publish-subscribe server.
    pub fn new(name: &str, pubsub: &str) -> (r: Self)
        ensures
            r.name@ == name@,
            r.pubsub@ == pubsub@,
    {
        PresenceConfig { name: name.to_owned(), pubsub: pubsub.to_owned() }
    }
}

/// What a replica's state stands for.
#[verifier::ext_equal]
pub struct ReplicaView {
    /// The name of the replica.
    pub name: Seq<char>,
    /// Its clock.
    pub ticks: u64,
    /// The highest clock seen of each replica.
    pub seen: Map<Seq<char>, u64>,
    /// The entries by topic and key.
    pub values: Values,
    /// The topics and keys at which each process was tracked.
    pub index: Map<PidView, Seq<(Seq<char>, Seq<char>)>>,
    /// What is known of the replicas.
    pub status: Map<Seq<char>, ReplicaStatus>,
    /// The changes that were made here and not taken yet.
    pub pending: DeltaView,
}

/// The state of a replica.
pub open spec fn state_of(c: PresenceCrdt) -> ReplicaView {
    ReplicaView {
        name: c.name(),
        ticks: c.ticks(),
        seen: c.seen(),
        values: c.values(),
        index: c.index(),
        status: c.status(),
        pending: c.pending(),
    }
}

/// A delta without changes.
pub open spec fn no_changes() -> DeltaView {
    DeltaView { joins: Seq::empty(), leave_tags: Seq::empty(), context: Map::empty() }
}

/// Whether a delta has changes.
pub open spec fn has_changes(d: DeltaView) -> bool {
    d.joins.len() > 0 || d.leave_tags.len() > 0
}

/// The tag of the next entry.
pub open spec fn next_tag(s: ReplicaView) -> TagView {
    TagView { replica: s.name, clock: (s.ticks + 1) as u64 }
}

/// The state once a process is tracked.
pub open spec fn after_track(
    s: ReplicaView,
    topic: Seq<char>,
    key: Seq<char>,
    pid: PidView,
    meta: Seq<u8>,
) -> ReplicaView {
    let entry = EntryView { topic, pid, key, meta, tag: next_tag(s) };
    let seen = s.seen.insert(s.name, next_tag(s).clock);
    ReplicaView {
        ticks: next_tag(s).clock,
        seen,
        values: s.values.insert((topic, key), crdt::at(s.values, topic, key).push(entry)),
        index: s.index.insert(pid, crdt::filed_under(s.index, pid).push((topic, key))),
        pending: DeltaView {
            joins: s.pending.joins.push(entry),
            leave_tags: s.pending.leave_tags,
            context: seen,
        },
        ..s
    }
}

/// The entries of a process under a key.
pub open spec fn entries_of(
    s: ReplicaView,
    topic: Seq<char>,
    key: Seq<char>,
    pid: PidView,
) -> Seq<EntryView> {
    crdt::at(s.values, topic, key).filter(|e: EntryView| e.pid == pid)
}

/// The changes once some entries have left.
pub open spec fn left(s: ReplicaView, gone: Seq<EntryView>) -> DeltaView {
    DeltaView {
        joins: s.pending.joins,
        leave_tags: s.pending.leave_tags + crdt::tags_of(gone),
        context: if gone.len() > 0 {
            s.seen
        } else {
            s.pending.context
        },
    }
}

/// The state once a process is no longer tracked under a key.
pub open spec fn after_untrack(
    s: ReplicaView,
    topic: Seq<char>,
    key: Seq<char>,
    pid: PidView,
) -> ReplicaView {
    let stay = crdt::at(s.values, topic, key).filter(|e: EntryView| e.pid != pid);
    let spots = crdt::filed_under(s.index, pid).filter(
        |k: (Seq<char>, Seq<char>)| k != (topic, key),
    );
    ReplicaView {
        values: crdt::with_at(s.values, topic, key, stay),
        index: if spots.len() == 0 {
            s.index.remove(pid)
        } else {
            s.index.insert(pid, spots)
        },
        pending: left(s, entries_of(s, topic, key, pid)),
        ..s
    }
}

/// The entries of a process.
pub open spec fn all_entries_of(s: ReplicaView, pid: PidView) -> Seq<EntryView> {
    crdt::gathered(s.values, crdt::filed_under(s.index, pid), pid)
}

/// The state once a process is no longer tracked anywhere.
pub open spec fn after_untrack_all(s: ReplicaView, pid: PidView) -> ReplicaView {
    ReplicaView {
        values: crdt::without(s.values, |e: EntryView| e.pid == pid),
        index: s.index.remove(pid),
        pending: left(s, all_entries_of(s, pid)),
        ..s
    }
}

/// The state once the changes were taken.
pub open spec fn flushed(s: ReplicaView) -> ReplicaView {
    ReplicaView {
        pending: if has_changes(s.pending) {
            no_changes()
        } else {
            s.pending
        },
        ..s
    }
}

/// The state once another replica's changes were applied.
pub open spec fn merged(s: ReplicaView, d: DeltaView) -> ReplicaView {
    ReplicaView {
        values: crdt::merged_values(s.values, s.seen, d),
        seen: crdt::merged_context(s.seen, d.context),
        index: crdt::indexed(
            s.index,
            crdt::accepted(
                s.seen,
                crdt::after_leaves(s.values, d.leave_tags),
                crdt::arriving(d),
            ),
        ),
        ..s
    }
}

/// The state once a replica is forgotten.
pub open spec fn forgotten(s: ReplicaView, replica: Seq<char>) -> ReplicaView {
    ReplicaView {
        values: crdt::without(s.values, |e: EntryView| e.tag.replica == replica),
        status: s.status.remove(replica),
        ..s
    }
}

/// What a server sees of its surroundings while it handles a request.
pub struct Surroundings {
    /// The name of this node.
    pub here: String,
    /// The time in seconds.
    pub now: u64,
    /// The server's process.
    pub current: Pid,
    /// The presence servers of all nodes.
    pub members: Vec<Pid>,
}

impl Surroundings {
    /// The presence servers of the other nodes.
    pub open spec fn peers(&self) -> Seq<PidView> {
        table::views(self.members@).filter(
            subscriptions::is_remote(self.here@, Some(self.current@)),
        )
    }
}

/// The members of a group that run on other nodes and are not `own`.
pub fn remote_members(members: &Vec<Pid>, here: &str, own: &Pid) -> (r: Vec<Pid>)
    ensures
        table::views(r@) == table::views(members@).filter(
            subscriptions::is_remote(here@, Some(own@)),
        ),
{
    let ghost all = table::views(members@);
    let ghost p = subscriptions::is_remote(here@, Some(own@));
    let mut out: Vec<Pid> = Vec::new();
    let mut i: usize = 0;
    proof {
        reveal(Seq::filter);
        assert(all.take(0) =~= Seq::empty());
        assert(table::views(out@) =~= all.take(0).filter(p));
    }
    while i < members.len()
        invariant
            i <= members@.len(),
            all == table::views(members@),
            p == subscriptions::is_remote(here@, Some(own@)),
            table::views(out@) == all.take(i as int).filter(p),
        decreases members@.len() - i,
    {
        let ghost before = table::views(out@);
        proof {
            assert(all.take(i + 1) =~= all.take(i as int).push(all[i as int]));
            all.take(i as int).lemma_filter_push(all[i as int], p);
            assert(all[i as int] == members@[i as int]@);
        }
        if !members[i].same(own) && !members[i].is_local(here) {
            out.push(members[i].clone());
            assert(table::views(out@) =~= before.push(all[i as int]));
        }
        i = i + 1;
    }
    assert(all.take(all.len() as int) =~= all);
    out
}

/// What a message between presence servers stands for.
#[verifier::ext_equal]
pub enum Notice {
    /// Complete the start.
    CompleteInit,
    /// Changes of a replica.
    CrdtDelta {
        /// The topic.
        topic: Seq<char>,
        /// The changes.
        delta: DeltaView,
    },
    /// Asks for what the sender has not seen.
    CrdtSyncRequest {
        /// The server that asks.
        from: PidView,
        /// What it has seen.
        context: Map<Seq<char>, u64>,
    },
    /// What the receiver has not seen.
    CrdtSyncResponse {
        /// The changes.
        delta: DeltaView,
    },
    /// A node was disconnected.
    NodeDown {
        /// The node.
        node_name: Seq<char>,
        /// Why.
        reason: Seq<char>,
    },
}

/// What a message between presence servers stands for.
pub open spec fn notice(m: PresenceInfoView) -> Notice {
    match m {
        PresenceInfoView::CompleteInit => Notice::CompleteInit,
        PresenceInfoView::CrdtDelta { topic, delta } => Notice::CrdtDelta {
            topic,
            delta: types::unshared(delta),
        },
        PresenceInfoView::CrdtSyncRequest { from, context } => Notice::CrdtSyncRequest {
            from,
            context: piece::as_map(context),
        },
        PresenceInfoView::CrdtSyncResponse { delta } => Notice::CrdtSyncResponse {
            delta: types::unshared(delta),
        },
        PresenceInfoView::NodeDown { node_name, reason } => Notice::NodeDown { node_name, reason },
    }
}

/// Messages, each with its receivers.
pub open spec fn mail(s: Seq<(Vec<Pid>, PresenceInfo)>) -> Seq<(Seq<PidView>, Notice)> {
    Seq::new(s.len(), |i: int| (table::views(s[i].0@), notice(s[i].1@)))
}

/// Broadcasts, each with its topic.
pub open spec fn news(s: Seq<(String, PresenceMessage)>) -> Seq<(Seq<char>, PresenceMessageView)> {
    Seq::new(s.len(), |i: int| (s[i].0@, s[i].1@))
}

/// What a server does besides changing its state.
pub struct Effects {
    /// What it broadcasts through the publish-subscribe server, each with its topic.
    pub broadcasts: Vec<(String, PresenceMessage)>,
    /// What it sends to other presence servers.
    pub sends: Vec<(Vec<Pid>, PresenceInfo)>,
}

/// The topic on which subscribers are told of presences.
pub open spec fn presence_topic(topic: Seq<char>) -> Seq<char> {
    "presence:"@ + topic
}

/// The broadcast of a diff: none if it is empty.
pub open spec fn announced(topic: Seq<char>, diff: PresenceDiffView) -> Seq<
    (Seq<char>, PresenceMessageView),
> {
    if diff.joins.len() == 0 && diff.leaves.len() == 0 {
        Seq::empty()
    } else {
        seq![(presence_topic(topic), PresenceMessageView::Delta { topic, diff })]
    }
}

/// The broadcast of a diff.
pub fn broadcast_delta(topic: &str, diff: PresenceDiff) -> (r: Vec<(String, PresenceMessage)>)
    ensures
        news(r@) == announced(topic@, diff@),
{
    let mut out: Vec<(String, PresenceMessage)> = Vec::new();
    let ghost d = diff@;
    if !diff.is_empty() {
        out.push(
            (
                text::join2("presence:", topic),
                PresenceMessage::Delta { topic: topic.to_owned(), diff },
            ),
        );
    }
    assert(news(out@) =~= announced(topic@, d));
    out
}

/// The message with a replica's changes to the other presence servers: none if it has none.
pub open spec fn shared_with(topic: Seq<char>, d: DeltaView, to: Seq<PidView>) -> Seq<
    (Seq<PidView>, Notice),
> {
    if has_changes(d) {
        seq![(to, Notice::CrdtDelta { topic, delta: d })]
    } else {
        Seq::empty()
    }
}

/// The message with a replica's changes to the other presence servers.
pub fn broadcast_crdt_delta(topic: &str, delta: PresenceDelta, at: &Surroundings) -> (r: Vec<
    (Vec<Pid>, PresenceInfo),
>)
    requires
        delta.wf(),
    ensures
        mail(r@) == shared_with(topic@, delta@, at.peers()),
{
    let ghost d = delta@;
    let mut out: Vec<(Vec<Pid>, PresenceInfo)> = Vec::new();
    if !delta.is_empty() {
        let to = remote_members(&at.members, at.here.as_str(), &at.current);
        out.push(
            (
                to,
                PresenceInfo::CrdtDelta {
                    topic: topic.to_owned(),
                    delta: SharedDelta::share(delta),
                },
            ),
        );
    }
    assert(mail(out@) =~= shared_with(topic@, d, at.peers()));
    out
}

/// The process group of the presence servers with a name.
pub open spec fn presence_group(name: Seq<char>) -> Seq<char> {
    "presence:"@ + name
}

/// The presence server.
pub struct Presence {
    name: String,
    pubsub: String,
    crdt: PresenceCrdt,
    self_pid: Option<Pid>,
    monitored_nodes: Vec<String>,
}

/// What the subscribers are told of a process that joins.
pub open spec fn join_diff(
    key: Seq<char>,
    tag: TagView,
    prev: Option<Seq<char>>,
    pid: PidView,
    meta: Seq<u8>,
    now: u64,
) -> PresenceDiffView {
    PresenceDiffView {
        joins: seq![
            (
                key,
                PresenceStateView {
                    metas: seq![
                        PresenceMetaView {
                            phx_ref: convert::ref_of(tag),
                            phx_ref_prev: prev,
                            pid,
                            meta,
                            updated_at: now,
                        },
                    ],
                },
            ),
        ],
        leaves: Seq::empty(),
    }
}

/// What the subscribers are told of an entry that left under a key: its reference.
pub open spec fn leave_meta(pid: PidView) -> spec_fn(EntryView) -> PresenceMetaView {
    |e: EntryView|
        PresenceMetaView {
            phx_ref: convert::ref_of(e.tag),
            phx_ref_prev: None,
            pid,
            meta: Seq::empty(),
            updated_at: 0,
        }
}

/// What the subscribers are told of entries that left under a key.
pub open spec fn leave_diff(
    key: Seq<char>,
    pid: PidView,
    gone: Seq<EntryView>
) -> PresenceDiffView {
    PresenceDiffView {
        joins: Seq::empty(),
        leaves: seq![(key, PresenceStateView { metas: gone.map_values(leave_meta(pid)) })],
    }
}

/// The entries of a topic.
pub open spec fn in_topic(topic: Seq<char>) -> spec_fn(EntryView) -> bool {
    |e: EntryView| e.topic == topic
}

/// Whether a broadcast tells of the entries of a topic that left.
pub open spec fn tells_of_leaves(
    b: (Seq<char>, PresenceMessageView),
    topic: Seq<char>,
    gone: Seq<EntryView>,
    now: u64,
) -> bool {
    match b.1 {
        PresenceMessageView::Delta { topic: t, diff } => {
            &&& b.0 == presence_topic(topic)
            &&& t == topic
            &&& diff.joins == Seq::<(Seq<char>, PresenceStateView)>::empty()
            &&& convert::tells_of(diff.leaves, gone.filter(in_topic(topic)), now)
        },
        _ => false,
    }
}

/// Whether broadcasts tell of entries that left, one for each topic that an entry left.
pub open spec fn tell_of_leaves(
    bs: Seq<(Seq<char>, PresenceMessageView)>,
    topics: Seq<Seq<char>>,
    gone: Seq<EntryView>,
    now: u64,
) -> bool {
    &&& bs.len() == topics.len()
    &&& topics.no_duplicates()
    &&& forall|i: int|
        0 <= i < bs.len() ==> tells_of_leaves(#[trigger] bs[i], topics[i], gone, now)
    &&& forall|t: Seq<char>| #[trigger]
        topics.contains(t) <==> gone.filter(in_topic(t)).len() > 0
}

/// The same changes for each of several topics.
pub open spec fn shared_for_each(topics: Seq<Seq<char>>, d: DeltaView, to: Seq<PidView>) -> Seq<
    (Seq<PidView>, Notice),
> {
    topics.map_values(|t: Seq<char>| (to, Notice::CrdtDelta { topic: t, delta: d }))
}

/// Whether a server tells of entries that left some topics: one broadcast for each topic, and the
/// changes for each topic.
pub open spec fn left_topics(
    effects: Effects,
    topics: Seq<Seq<char>>,
    gone: Seq<EntryView>,
    d: DeltaView,
    at: Surroundings,
) -> bool {
    &&& tell_of_leaves(news(effects.broadcasts@), topics, gone, at.now)
    &&& mail(effects.sends@) == (if has_changes(d) {
        shared_for_each(topics, d, at.peers())
    } else {
        Seq::empty()
    })
}

/// The state once the states of several topics were taken over, one after the other.
pub open spec fn merged_topics(
    s: ReplicaView,
    rows: Seq<(Seq<char>, Seq<(Seq<char>, PresenceStateView)>)>,
) -> ReplicaView
    decreases rows.len(),
{
    if rows.len() == 0 {
        s
    } else {
        merged(
            merged_topics(s, rows.drop_last()),
            convert::state_delta(rows.last().0, rows.last().1),
        )
    }
}

/// The nodes of some processes, and some more.
fn watch_list(pids: &Vec<Pid>, more: &Vec<String>) -> (r: Vec<String>)
    ensures
        table::views(r@) == nodes_of(table::views(pids@)) + table::views(more@),
{
    let ghost want = nodes_of(table::views(pids@)) + table::views(more@);
    let mut out: Vec<String> = Vec::new();
    let mut i: usize = 0;
    while i < pids.len()
        invariant
            i <= pids@.len(),
            out@.len() == i,
            forall|j: int| 0 <= j < i ==> (#[trigger] out@[j])@ == pids@[j]@.node,
        decreases pids@.len() - i,
    {
        out.push(pids[i].node().to_owned());
        i = i + 1;
    }
    let mut k: usize = 0;
    while k < more.len()
        invariant
            k <= more@.len(),
            out@.len() == pids@.len() + k,
            forall|j: int| 0 <= j < pids@.len() ==> (#[trigger] out@[j])@ == pids@[j]@.node,
            forall|j: int|
                pids@.len() <= j < pids@.len() + k ==> (#[trigger] out@[j])@ == more@[j
                    - pids@.len()]@,
        decreases more@.len() - k,
    {
        out.push(more[k].clone());
        k = k + 1;
    }
    assert(table::views(out@) =~= want);
    out
}

/// What completing the start asks for.
pub struct Start {
    /// The name to register under.
    pub name: String,
    /// The group to join.
    pub group: String,
    /// The request for what the other servers know, and the servers.
    pub request: (Vec<Pid>, PresenceInfo),
    /// The nodes to monitor, in turn, where `needs_monitor` says so; `watched` takes the answer.
    pub nodes: Vec<String>,
}

/// The nodes of some processes.
pub open spec fn nodes_of(pids: Seq<PidView>) -> Seq<Seq<char>> {
    pids.map_values(|p: PidView| p.node)
}

/// The nodes that are monitored once one was to be: it is added if it is another node, was not
/// monitored, and `answer` says that it can be.
pub open spec fn watch_step(
    monitored: Seq<Seq<char>>,
    node: Seq<char>,
    here: Seq<char>,
    answer: bool,
) -> Seq<Seq<char>> {
    if node != here && !monitored.contains(node) && answer {
        monitored.push(node)
    } else {
        monitored
    }
}

/// The nodes that are monitored once all of `nodes` were to be, in turn, with an answer for each.
pub open spec fn watching(
    monitored: Seq<Seq<char>>,
    nodes: Seq<Seq<char>>,
    here: Seq<char>,
    answers: Seq<bool>,
) -> Seq<Seq<char>>
    decreases nodes.len(),
{
    if nodes.len() == 0 {
        monitored
    } else {
        watch_step(
            watching(monitored, nodes.drop_last(), here, answers),
            nodes.last(),
            here,
            answers[nodes.len() - 1],
        )
    }
}

/// Whether a node stands among some where the answer is yes.
pub open spec fn answered(nodes: Seq<Seq<char>>, answers: Seq<bool>, node: Seq<char>) -> bool {
    exists|i: int| 0 <= i < nodes.len() && #[trigger] nodes[i] == node && answers[i]
}

/// A start watches every node that it can: in the end those are monitored that were before, and
/// those others of `nodes` that can be; and nothing else is.
pub proof fn law_start_watches_every_node(
    monitored: Seq<Seq<char>>,
    nodes: Seq<Seq<char>>,
    here: Seq<char>,
    answers: Seq<bool>,
    node: Seq<char>,
)
    ensures
        watching(monitored, nodes, here, answers).contains(node) == (monitored.contains(node) || (
        answered(nodes, answers, node) && node != here)),
    decreases nodes.len(),
{
    if nodes.len() > 0 {
        let rest = nodes.drop_last();
        let last = nodes.last();
        let at = nodes.len() - 1;
        let before = watching(monitored, rest, here, answers);
        law_start_watches_every_node(monitored, rest, here, answers, node);
        assert(answered(nodes, answers, node) == (answered(rest, answers, node) || (node == last
            && answers[at]))) by {
            if answered(rest, answers, node) {
                let i = choose|i: int|
                    0 <= i < rest.len() && #[trigger] rest[i] == node && answers[i];
                assert(nodes[i] == node);
            }
            if answered(nodes, answers, node) {
                let i = choose|i: int|
                    0 <= i < nodes.len() && #[trigger] nodes[i] == node && answers[i];
                if i < at {
                    assert(rest[i] == node);
                }
            }
            assert(nodes[at] == last);
        }
        assert(before.push(last).contains(node) == (before.contains(node) || node == last)) by {
            if before.contains(node) {
                let i = choose|i: int| 0 <= i < before.len() && before[i] == node;
                assert(before.push(last)[i] == node);
            }
            assert(before.push(last)[before.len() as int] == last);
        }
    }
}

/// A message to another presence server, in bytes: the server takes it as an info message, and
/// reads the same message in it.
pub fn peer_bytes(info: &PresenceInfo) -> (r: Vec<u8>)
    ensures
        r@ == message::tagged("PresenceInfo"@, PresenceInfo::payload(info@)),
        gen_server::turn_of(Some(r@)) == (gen_server::TurnView::Info { raw: r@ }),
        gen_server::info_of::<PresenceInfo>(r@) == Some(info@),
{
    proof {
        reveal_strlit("PresenceInfo");
        message::lemma_ascii_length("PresenceInfo"@);
        gen_server::law_tagged_messages_are_infos(
            "PresenceInfo"@,
            PresenceInfo::payload(info@),
        );
    }
    info.encode_local()
}

impl Presence {
    /// The name of the server.
    pub closed spec fn name(&self) -> Seq<char> {
        self.name@
    }

    /// The name of the publish-subscribe server.
    pub closed spec fn pubsub(&self) -> Seq<char> {
        self.pubsub@
    }

    /// The replica.
    pub closed spec fn replica(&self) -> PresenceCrdt {
        self.crdt
    }

    /// The state of the replica.
    pub open spec fn state(&self) -> ReplicaView {
        state_of(self.replica())
    }

    /// The server's process.
    pub closed spec fn own(&self) -> Option<PidView> {
        crate::process::pid_option(self.self_pid)
    }

    /// The nodes that are monitored.
    pub closed spec fn monitored(&self) -> Seq<Seq<char>> {
        table::views(self.monitored_nodes@)
    }

    /// The server's invariant.
    pub open spec fn wf(&self) -> bool {
        self.replica().wf()
    }

    /// Everything but the replica is the same in both.
    pub open spec fn same_but_replica(&self, other: &Presence) -> bool {
        &&& self.name() == other.name()
        &&& self.pubsub() == other.pubsub()
        &&& self.own() == other.own()
        &&& self.monitored() == other.monitored()
    }

    /// The server of a configuration on the node `here`, with the message that it sends to
    /// itself.
    pub fn init(config: PresenceConfig, here: &str) -> (r: (Self, Vec<u8>))
        ensures
            r.0.wf(),
            r.0.name() == config.name@,
            r.0.pubsub() == config.pubsub@,
            r.0.own() is None,
            r.0.monitored() == Seq::<Seq<char>>::empty(),
            r.0.state() == (ReplicaView {
                name: here@,
                ticks: 0,
                seen: Map::<Seq<char>, u64>::empty().insert(here@, 0),
                values: Map::empty(),
                index: Map::empty(),
                status: Map::empty(),
                pending: no_changes(),
            }),
            r.1@ == message::tagged(
                "PresenceInfo"@,
                PresenceInfo::payload(PresenceInfoView::CompleteInit),
            ),
            PresenceInfo::unpacked(PresenceInfo::payload(PresenceInfoView::CompleteInit)) == Some(
                PresenceInfoView::CompleteInit,
            ),
    {
        let server = Presence {
            name: config.name,
            pubsub: config.pubsub,
            crdt: PresenceCrdt::new(here),
            self_pid: None,
            monitored_nodes: Vec::new(),
        };
        assert(server.monitored() =~= Seq::<Seq<char>>::empty());
        (server, PresenceInfo::CompleteInit.encode_local())
    }

    /// The name of the publish-subscribe server.
    pub fn pubsub_name(&self) -> (r: &str)
        ensures
            r@ == self.pubsub(),
    {
        self.pubsub.as_str()
    }

    /// The process group of the presence servers.
    pub fn group(&self) -> (r: String)
        ensures
            r@ == presence_group(self.name()),
    {
        text::join2("presence:", self.name.as_str())
    }

    /// Whether a process can be tracked: the clock has not run out.
    pub fn can_track(&self) -> (r: bool)
        ensures
            r == (self.state().ticks < u64::MAX),
    {
        self.crdt.clock() < u64::MAX
    }

    fn share_changes(&mut self, topic: &str, at: &Surroundings) -> (r: Vec<
        (Vec<Pid>, PresenceInfo),
    >)
        requires
            old(self).wf(),
        ensures
            final(self).wf(),
            final(self).same_but_replica(old(self)),
            final(self).state() == flushed(old(self).state()),
            mail(r@) == shared_with(topic@, old(self).state().pending, at.peers()),
    {
        match self.crdt.take_delta() {
            Some(delta) => broadcast_crdt_delta(topic, delta, at),
            None => {
                let none: Vec<(Vec<Pid>, PresenceInfo)> = Vec::new();
                assert(mail(none@) =~= Seq::empty());
                none
            },
        }
    }

    /// Tracks a process.
    pub fn handle_track(
        &mut self,
        topic: &str,
        key: &str,
        pid: &Pid,
        meta: Vec<u8>,
        at: &Surroundings,
    ) -> (r: (PresenceReply, Effects))
        requires
            old(self).wf(),
            old(self).state().ticks < u64::MAX,
        ensures
            final(self).wf(),
            final(self).same_but_replica(old(self)),
            track_done(
                old(self).state(),
                topic@,
                key@,
                pid@,
                meta@,
                *at,
                final(self).state(),
                r.0@,
                r.1,
            ),
    {
        let ghost s = self.state();
        let tag = self.crdt.track(topic, pid.clone(), key, crdt::copy_bytes(&meta));
        assert(self.state() =~= after_track(s, topic@, key@, pid@, meta@));
        let phx_ref = convert::tag_to_ref(&tag);
        let diff = joined(key, &tag, None, pid, meta, at.now);
        let broadcasts = broadcast_delta(topic, diff);
        let sends = self.share_changes(topic, at);
        (PresenceReply::Done { phx_ref: Some(phx_ref) }, Effects { broadcasts, sends })
    }

    /// Stops tracking a process under a key.
    pub fn handle_untrack(&mut self, topic: &str, key: &str, pid: &Pid, at: &Surroundings) -> (r: (
        PresenceReply,
        Effects,
    ))
        requires
            old(self).wf(),
        ensures
            final(self).wf(),
            final(self).same_but_replica(old(self)),
            untrack_done(
                old(self).state(),
                topic@,
                key@,
                pid@,
                *at,
                final(self).state(),
                r.0@,
                r.1,
            ),
    {
        let ghost s = self.state();
        let ghost gone = entries_of(s, topic@, key@, pid@);
        let tags = self.crdt.untrack(topic, key, pid);
        assert(self.state() =~= after_untrack(s, topic@, key@, pid@));
        assert(table::views(tags@) == crdt::tags_of(gone));
        assert(tags@.len() == gone.len());
        let reply = PresenceReply::Done { phx_ref: None };
        if tags.len() > 0 {
            let mut metas: Vec<PresenceMeta> = Vec::new();
            let mut i: usize = 0;
            while i < tags.len()
                invariant
                    i <= tags@.len(),
                    metas@.len() == i,
                    forall|j: int|
                        0 <= j < i ==> (#[trigger] metas@[j])@ == (PresenceMetaView {
                            phx_ref: convert::ref_of(tags@[j]@),
                            phx_ref_prev: None,
                            pid: pid@,
                            meta: Seq::empty(),
                            updated_at: 0,
                        }),
                decreases tags@.len() - i,
            {
                let meta: Vec<u8> = Vec::new();
                assert(meta@ =~= Seq::<u8>::empty());
                metas.push(
                    PresenceMeta {
                        phx_ref: convert::tag_to_ref(&tags[i]),
                        phx_ref_prev: None,
                        pid: pid.clone(),
                        meta,
                        updated_at: 0,
                    },
                );
                i = i + 1;
            }
            let state = PresenceState { metas };
            proof {
                assert forall|j: int| 0 <= j < gone.len() implies #[trigger] state@.metas[j]
                    == leave_meta(pid@)(gone[j]) by {
                    assert(table::views(tags@)[j] == crdt::tags_of(gone)[j]);
                    assert(state.metas@[j]@ == state@.metas[j]);
                }
                assert(state@.metas =~= gone.map_values(leave_meta(pid@)));
            }
            let mut leaves: Dict<PresenceState> = Dict::new();
            let ghost st = state@;
            leaves.insert(key.to_owned(), state);
            assert(leaves@ =~= seq![(key@, st)]);
            let diff = PresenceDiff { joins: Dict::new(), leaves };
            let broadcasts = broadcast_delta(topic, diff);
            let sends = self.share_changes(topic, at);
            (reply, Effects { broadcasts, sends })
        } else {
            (reply, Effects { broadcasts: Vec::new(), sends: Vec::new() })
        }
    }

    /// Stops tracking a process everywhere. The broadcasts, and the changes sent to the other
    /// servers, come once for each topic that it leaves.
    pub fn handle_untrack_all(&mut self, pid: &Pid, at: &Surroundings) -> (r: (
        PresenceReply,
        Effects,
    ))
        requires
            old(self).wf(),
        ensures
            final(self).wf(),
            final(self).same_but_replica(old(self)),
            untrack_all_done(old(self).state(), pid@, *at, final(self).state(), r.0@, r.1),
    {
        let ghost s = self.state();
        let ghost gone = all_entries_of(s, pid@);
        let removed = self.crdt.untrack_all(pid);
        assert(self.state() =~= after_untrack_all(s, pid@));
        proof {
            assert forall|topic: Seq<char>| #[trigger]
                crdt::bucket(removed@, topic) == gone.filter(in_topic(topic)) by {
                assert((|e: EntryView| e.topic == topic) =~= in_topic(topic));
            }
        }
        let ghost topics = keys_of(removed.rows@);
        let broadcasts = announce_leaves(&removed, at.now, Ghost(gone));
        let ghost d = self.state().pending;
        let mut sends: Vec<(Vec<Pid>, PresenceInfo)> = Vec::new();
        assert(mail(sends@) =~= Seq::empty());
        match self.crdt.take_delta() {
            Some(delta) => {
                let mut i: usize = 0;
                assert(mail(sends@) =~= shared_for_each(topics.take(0), d, at.peers()));
                while i < removed.rows.len()
                    invariant
                        i <= removed.rows@.len(),
                        topics == keys_of(removed.rows@),
                        delta.wf(),
                        delta@ == d,
                        mail(sends@) == shared_for_each(topics.take(i as int), d, at.peers()),
                    decreases removed.rows@.len() - i,
                {
                    let ghost before = mail(sends@);
                    let to = remote_members(&at.members, at.here.as_str(), &at.current);
                    let message = PresenceInfo::CrdtDelta {
                        topic: removed.rows[i].0.clone(),
                        delta: SharedDelta::share(copy_delta(&delta)),
                    };
                    let ghost m = (table::views(to@), notice(message@));
                    sends.push((to, message));
                    proof {
                        assert(mail(sends@) =~= before.push(m));
                        assert(topics.take(i + 1) =~= topics.take(i as int).push(
                            topics[i as int],
                        ));
                        assert(mail(sends@) =~= shared_for_each(
                            topics.take(i + 1),
                            d,
                            at.peers(),
                        ));
                    }
                    i = i + 1;
                }
                assert(topics.take(topics.len() as int) =~= topics);
            },
            None => {},
        }
        proof {
            let t = after_untrack_all(s, pid@);
            assert(self.state() =~= flushed(t));
        }
        let r = (PresenceReply::Done { phx_ref: None }, Effects { broadcasts, sends });
        proof {
            let t = after_untrack_all(s, pid@);
            assert(d == t.pending);
            assert(left_topics(r.1, topics, gone, t.pending, *at));
            assert(exists|ts: Seq<Seq<char>>| #[trigger]
                left_topics(r.1, ts, gone, t.pending, *at));
        }
        r
    }

    /// Replaces the metadata of a process under a key.
    pub fn handle_update(
        &mut self,
        topic: &str,
        key: &str,
        pid: &Pid,
        meta: Vec<u8>,
        at: &Surroundings,
    ) -> (r: (PresenceReply, Effects))
        requires
            old(self).wf(),
            old(self).state().ticks < u64::MAX,
        ensures
            final(self).wf(),
            final(self).same_but_replica(old(self)),
            update_done(
                old(self).state(),
                topic@,
                key@,
                pid@,
                meta@,
                *at,
                final(self).state(),
                r.0@,
                r.1,
            ),
    {
        let ghost s = self.state();
        let ghost gone = entries_of(s, topic@, key@, pid@);
        let tags = self.crdt.untrack(topic, key, pid);
        let ghost u = self.state();
        proof {
            assert(u =~= after_untrack(s, topic@, key@, pid@));
            assert(table::views(tags@) == crdt::tags_of(gone));
            assert(tags@.len() == gone.len());
        }
        let tag = self.crdt.track(topic, pid.clone(), key, crdt::copy_bytes(&meta));
        assert(self.state() =~= after_track(u, topic@, key@, pid@, meta@));
        let prev = if tags.len() > 0 {
            proof {
                assert(table::views(tags@)[0] == crdt::tags_of(gone)[0]);
            }
            Some(convert::tag_to_ref(&tags[0]))
        } else {
            None
        };
        let diff = joined(key, &tag, prev, pid, meta, at.now);
        let broadcasts = broadcast_delta(topic, diff);
        let sends = self.share_changes(topic, at);
        let phx_ref = if tags.len() == 0 {
            None
        } else {
            Some(convert::tag_to_ref(&tag))
        };
        (PresenceReply::Done { phx_ref }, Effects { broadcasts, sends })
    }

    /// Who is present in a topic, by key.
    pub fn handle_list(&self, topic: &str, now: u64) -> (r: PresenceReply)
        requires
            self.wf(),
        ensures
            lists(self.state(), topic@, now, r@),
    {
        let found = self.crdt.list(topic);
        let presences = convert::crdt_to_presence_state(&found, now);
        proof {
            assert forall|key: Seq<char>| #[trigger] piece::value_of(presences@, key)
                == convert::state_of(shown(self.state(), topic@, key), now) by {
                assert(crdt::bucket(found@, key) == shown(self.state(), topic@, key));
            }
        }
        PresenceReply::PresenceList { presences }
    }

    /// Who is present under a key.
    pub fn handle_get(&self, topic: &str, key: &str, now: u64) -> (r: PresenceReply)
        requires
            self.wf(),
        ensures
            r@ == (PresenceReplyView::PresenceGet {
                presence: convert::state_of(shown(self.state(), topic@, key@), now),
            }),
    {
        let presence = match self.crdt.get(topic, key) {
            Some(entries) => Some(convert::entries_to_state(&entries, now)),
            None => None,
        };
        PresenceReply::PresenceGet { presence }
    }

    /// Handles a request that waits for a reply.
    pub fn handle_call(&mut self, msg: PresenceCall, at: &Surroundings) -> (r: (
        PresenceReply,
        Effects,
    ))
        requires
            old(self).wf(),
            msg is Track || msg is Update ==> old(self).state().ticks < u64::MAX,
        ensures
            final(self).wf(),
            final(self).same_but_replica(old(self)),
            call_done(old(self).state(), msg@, *at, final(self).state(), r.0@, r.1),
    {
        match msg {
            PresenceCall::Track { topic, key, pid, meta } => self.handle_track(
                topic.as_str(),
                key.as_str(),
                &pid,
                meta,
                at,
            ),
            PresenceCall::Untrack { topic, key, pid } => self.handle_untrack(
                topic.as_str(),
                key.as_str(),
                &pid,
                at,
            ),
            PresenceCall::UntrackAll { pid } => self.handle_untrack_all(&pid, at),
            PresenceCall::Update { topic, key, pid, meta } => self.handle_update(
                topic.as_str(),
                key.as_str(),
                &pid,
                meta,
                at,
            ),
            PresenceCall::List { topic } => (
                self.handle_list(topic.as_str(), at.now),
                Effects { broadcasts: Vec::new(), sends: Vec::new() },
            ),
            PresenceCall::Get { topic, key } => (
                self.handle_get(topic.as_str(), key.as_str(), at.now),
                Effects { broadcasts: Vec::new(), sends: Vec::new() },
            ),
        }
    }

    /// Handles a request without a reply.
    pub fn handle_cast(&mut self, msg: PresenceCast)
        requires
            old(self).wf(),
        ensures
            final(self).wf(),
            final(self).same_but_replica(old(self)),
            final(self).state() == merged(
                old(self).state(),
                match msg@ {
                    PresenceCastView::ApplyDelta { topic, diff } => convert::diff_delta(
                        topic,
                        diff,
                    ),
                    PresenceCastView::SyncState { topic, state } => convert::state_delta(
                        topic,
                        state,
                    ),
                },
            ),
    {
        let delta = match msg {
            PresenceCast::ApplyDelta { topic, diff } => convert::presence_diff_to_crdt_delta(
                topic.as_str(),
                &diff,
            ),
            PresenceCast::SyncState { topic, state } => convert::presence_state_to_crdt_delta(
                topic.as_str(),
                &state,
            ),
        };
        self.apply(&delta);
    }

    fn apply(&mut self, delta: &PresenceDelta)
        requires
            old(self).wf(),
            delta.wf(),
        ensures
            final(self).wf(),
            final(self).same_but_replica(old(self)),
            final(self).state() == merged(old(self).state(), delta@),
    {
        let ghost s = self.state();
        let _ = self.crdt.merge(delta);
        assert(self.state() =~= merged(s, delta@));
    }

    /// Whether a node is to be monitored: it is another node and is not monitored yet.
    pub fn needs_monitor(&self, node: &str, here: &str) -> (r: bool)
        ensures
            r == (node@ != here@ && !self.monitored().contains(node@)),
    {
        if text::same_str(node, here) {
            return false;
        }
        let mut i: usize = 0;
        while i < self.monitored_nodes.len()
            invariant
                i <= self.monitored_nodes@.len(),
                forall|j: int| 0 <= j < i ==> #[trigger] self.monitored()[j] != node@,
            decreases self.monitored_nodes@.len() - i,
        {
            assert(self.monitored()[i as int] == self.monitored_nodes@[i as int]@);
            if text::same_str(self.monitored_nodes[i].as_str(), node) {
                return false;
            }
            i = i + 1;
        }
        true
    }

    /// Takes note that a node is monitored.
    fn monitoring(&mut self, node: &str)
        requires
            old(self).wf(),
        ensures
            final(self).wf(),
            final(self).name() == old(self).name(),
            final(self).pubsub() == old(self).pubsub(),
            final(self).own() == old(self).own(),
            final(self).replica() == old(self).replica(),
            final(self).monitored() == old(self).monitored().push(node@),
    {
        let ghost before = self.monitored();
        self.monitored_nodes.push(node.to_owned());
        assert(self.monitored() =~= before.push(node@));
    }

    /// Takes note of whether a node can be monitored that was to be.
    pub fn watched(&mut self, node: &str, here: &str, answer: bool)
        requires
            old(self).wf(),
        ensures
            final(self).wf(),
            final(self).name() == old(self).name(),
            final(self).pubsub() == old(self).pubsub(),
            final(self).own() == old(self).own(),
            final(self).replica() == old(self).replica(),
            final(self).monitored() == watch_step(old(self).monitored(), node@, here@, answer),
    {
        if answer && self.needs_monitor(node, here) {
            self.monitoring(node);
        }
    }

    /// The first entry at or after `from` whose node is to be monitored.
    pub fn next_to_monitor(&self, joins: &Vec<TrackedEntry>, from: usize, here: &str) -> (r: Option<
        usize,
    >)
        ensures
            ({
                let wanted = |i: int|
                    joins@[i]@.tag.replica != here@ && !self.monitored().contains(
                        joins@[i]@.tag.replica,
                    );
                match r {
                    Some(i) => from <= i < joins@.len() && wanted(i as int) && forall|j: int|
                        from <= j < i ==> !#[trigger] wanted(j),
                    None => forall|j: int| from <= j < joins@.len() ==> !#[trigger] wanted(j),
                }
            }),
    {
        let ghost wanted = |i: int|
            joins@[i]@.tag.replica != here@ && !self.monitored().contains(joins@[i]@.tag.replica);
        let mut i: usize = from;
        while i < joins.len()
            invariant
                from <= i,
                i <= joins@.len() || i == from,
                wanted == (|i: int|
                    joins@[i]@.tag.replica != here@ && !self.monitored().contains(
                        joins@[i]@.tag.replica,
                    )),
                forall|j: int| from <= j < i ==> !#[trigger] wanted(j),
            decreases joins@.len() - i,
        {
            if self.needs_monitor(joins[i].tag.replica.as_str(), here) {
                assert(wanted(i as int));
                return Some(i);
            }
            assert(!wanted(i as int));
            i = i + 1;
        }
        None
    }

    /// What a node that was not monitored before is sent: all that the server knows, to the first
    /// of `members` on that node; nothing if the server knows nothing or there is no such member.
    pub fn welcome(&self, node: &str, topic: &str, members: &Vec<Pid>) -> (r: Option<
        (Pid, PresenceInfo),
    >)
        requires
            self.wf(),
        ensures
            match r {
                Some((to, m)) => {
                    &&& self.replica().entries().len() > 0
                    &&& exists|i: int|
                        first_on(table::views(members@), node@, i) && to@ == (
                        #[trigger] table::views(members@)[i])
                    &&& notice(m@) == (Notice::CrdtDelta {
                        topic: topic@,
                        delta: all_known(self.replica()),
                    })
                },
                None => self.replica().entries().len() == 0 || none_on(
                    table::views(members@),
                    node@,
                ),
            },
    {
        let ghost all = table::views(members@);
        let delta = self.crdt.extract_all();
        if delta.is_empty() {
            return None;
        }
        let mut i: usize = 0;
        while i < members.len()
            invariant
                i <= members@.len(),
                all == table::views(members@),
                delta.wf(),
                delta@ == all_known(self.replica()),
                self.replica().entries().len() > 0,
                forall|j: int| 0 <= j < i ==> (#[trigger] all[j]).node != node@,
            decreases members@.len() - i,
        {
            assert(all[i as int] == members@[i as int]@);
            if text::same_str(members[i].node(), node) {
                assert(first_on(all, node@, i as int));
                let m = PresenceInfo::CrdtDelta {
                    topic: topic.to_owned(),
                    delta: SharedDelta::share(delta),
                };
                return Some((members[i].clone(), m));
            }
            i = i + 1;
        }
        None
    }

    /// Applies another replica's changes.
    pub fn handle_crdt_delta(&mut self, delta: SharedDelta)
        requires
            old(self).wf(),
        ensures
            final(self).wf(),
            final(self).same_but_replica(old(self)),
            final(self).state() == merged(old(self).state(), types::unshared(delta@)),
    {
        let received = delta.received();
        self.apply(&received);
    }

    /// What a server that asks has not seen; nothing if it has seen everything.
    pub fn handle_crdt_sync_request(&self, from: Pid, context: Dict<u64>) -> (r: Option<
        (Pid, PresenceInfo),
    >)
        requires
            self.wf(),
        ensures
            ({
                let d = unseen(self.replica(), piece::as_map(context@));
                match r {
                    Some((to, m)) => d.joins.len() > 0 && to@ == from@ && notice(m@) == (
                    Notice::CrdtSyncResponse { delta: d }),
                    None => d.joins.len() == 0,
                }
            }),
    {
        let context = context.into_table();
        let delta = self.crdt.extract(&context);
        if delta.is_empty() {
            None
        } else {
            Some((from, PresenceInfo::CrdtSyncResponse { delta: SharedDelta::share(delta) }))
        }
    }

    /// Applies what another server sent in reply.
    pub fn handle_crdt_sync_response(&mut self, delta: SharedDelta)
        requires
            old(self).wf(),
        ensures
            final(self).wf(),
            final(self).same_but_replica(old(self)),
            final(self).state() == merged(old(self).state(), types::unshared(delta@)),
    {
        self.handle_crdt_delta(delta)
    }

    /// Forgets the entries of a node that was disconnected, and stops monitoring it. The
    /// broadcasts come once for each topic that an entry left.
    pub fn handle_node_down(&mut self, node_name: &str, now: u64) -> (r: Vec<
        (String, PresenceMessage),
    >)
        requires
            old(self).wf(),
        ensures
            final(self).wf(),
            final(self).name() == old(self).name(),
            final(self).pubsub() == old(self).pubsub(),
            final(self).own() == old(self).own(),
            final(self).monitored() == old(self).monitored().filter(other_node(node_name@)),
            final(self).state() == forgotten(old(self).state(), node_name@),
            exists|topics: Seq<Seq<char>>| #[trigger]
                tell_of_leaves(
                    news(r@),
                    topics,
                    entries_from(old(self).replica(), node_name@),
                    now,
                ),
    {
        let ghost s = self.state();
        let ghost gone = entries_from(self.replica(), node_name@);
        let removed = self.crdt.remove_down_replica(node_name);
        assert(self.state() =~= forgotten(s, node_name@));
        self.stop_monitoring(node_name);
        let by_topic = split_by_topic(&removed);
        announce_leaves(&by_topic, now, Ghost(gone))
    }

    fn stop_monitoring(&mut self, node: &str)
        requires
            old(self).wf(),
        ensures
            final(self).wf(),
            final(self).name() == old(self).name(),
            final(self).pubsub() == old(self).pubsub(),
            final(self).own() == old(self).own(),
            final(self).replica() == old(self).replica(),
            final(self).monitored() == old(self).monitored().filter(other_node(node@)),
    {
        let ghost all = self.monitored();
        let ghost p = other_node(node@);
        let mut kept: Vec<String> = Vec::new();
        let mut i: usize = 0;
        proof {
            reveal(Seq::filter);
            assert(all.take(0) =~= Seq::empty());
            assert(table::views(kept@) =~= all.take(0).filter(p));
        }
        while i < self.monitored_nodes.len()
            invariant
                i <= self.monitored_nodes@.len(),
                all == table::views(self.monitored_nodes@),
                p == other_node(node@),
                table::views(kept@) == all.take(i as int).filter(p),
            decreases self.monitored_nodes@.len() - i,
        {
            let ghost before = table::views(kept@);
            proof {
                assert(all.take(i + 1) =~= all.take(i as int).push(all[i as int]));
                all.take(i as int).lemma_filter_push(all[i as int], p);
                assert(all[i as int] == self.monitored_nodes@[i as int]@);
            }
            if !text::same_str(self.monitored_nodes[i].as_str(), node) {
                kept.push(self.monitored_nodes[i].clone());
                assert(table::views(kept@) =~= before.push(all[i as int]));
            }
            i = i + 1;
        }
        assert(all.take(all.len() as int) =~= all);
        self.monitored_nodes = kept;
    }

    /// Handles a message in the older form. One that asks is answered with all that the server
    /// knows, if it knows anything.
    pub fn handle_legacy_message(&mut self, msg: PresenceMessage) -> (r: Option<
        (Pid, PresenceInfo),
    >)
        requires
            old(self).wf(),
        ensures
            final(self).wf(),
            final(self).same_but_replica(old(self)),
            ({
                let s = old(self).state();
                match msg@ {
                    PresenceMessageView::Delta { topic, diff } => {
                        &&& final(self).state() == merged(s, convert::diff_delta(topic, diff))
                        &&& r is None
                    },
                    PresenceMessageView::StateSync { topic, state } => {
                        &&& final(self).state() == merged(s, convert::state_delta(topic, state))
                        &&& r is None
                    },
                    PresenceMessageView::SyncRequest { from } => {
                        &&& final(self).state() == s
                        &&& match r {
                            Some((to, m)) => old(self).replica().entries().len() > 0 && to@ == from
                                && notice(m@) == (Notice::CrdtSyncResponse {
                                delta: all_known(old(self).replica()),
                            }),
                            None => old(self).replica().entries().len() == 0,
                        }
                    },
                    PresenceMessageView::SyncResponse { state } => {
                        &&& final(self).state() == merged_topics(s, state)
                        &&& r is None
                    },
                }
            }),
    {
        match msg {
            PresenceMessage::Delta { topic, diff } => {
                let delta = convert::presence_diff_to_crdt_delta(topic.as_str(), &diff);
                self.apply(&delta);
                None
            },
            PresenceMessage::StateSync { topic, state } => {
                let delta = convert::presence_state_to_crdt_delta(topic.as_str(), &state);
                self.apply(&delta);
                None
            },
            PresenceMessage::SyncRequest { from } => {
                let delta = self.crdt.extract_all();
                if delta.is_empty() {
                    None
                } else {
                    Some(
                        (from, PresenceInfo::CrdtSyncResponse { delta: SharedDelta::share(delta) })
                    )
                }
            },
            PresenceMessage::SyncResponse { state } => {
                let ghost rows = state@;
                let ghost s = self.state();
                let mut i: usize = 0;
                assert(rows.take(0) =~= Seq::empty());
                while i < state.len()
                    invariant
                        i <= rows.len(),
                        rows == state@,
                        self.wf(),
                        self.same_but_replica(old(self)),
                        self.state() == merged_topics(s, rows.take(i as int)),
                    decreases rows.len() - i,
                {
                    let row = state.row(i);
                    let delta = convert::presence_state_to_crdt_delta(
                        row.key.as_str(),
                        &row.value,
                    );
                    self.apply(&delta);
                    proof {
                        assert(rows.take(i + 1).drop_last() =~= rows.take(i as int));
                        assert(rows.take(i + 1).last() == rows[i as int]);
                    }
                    i = i + 1;
                }
                assert(rows.take(rows.len() as int) =~= rows);
                None
            },
        }
    }

    /// Completes the start once the server knows its process. `existing` are the presence servers
    /// that were there before, and `connected` the nodes that are connected.
    pub fn complete_init(
        &mut self,
        self_pid: Pid,
        existing: &Vec<Pid>,
        connected: &Vec<String>,
        here: &str,
    ) -> (r: Start)
        requires
            old(self).wf(),
        ensures
            final(self).wf(),
            final(self).name() == old(self).name(),
            final(self).pubsub() == old(self).pubsub(),
            final(self).monitored() == old(self).monitored(),
            final(self).replica() == old(self).replica(),
            final(self).own() == Some(self_pid@),
            r.name@ == old(self).name(),
            r.group@ == presence_group(old(self).name()),
            table::views(r.request.0@) == table::views(existing@).filter(
                subscriptions::is_remote(here@, Some(self_pid@)),
            ),
            notice(r.request.1@) == (Notice::CrdtSyncRequest {
                from: self_pid@,
                context: old(self).state().seen,
            }),
            table::views(r.nodes@) == nodes_of(
                table::views(existing@).filter(subscriptions::is_remote(here@, Some(self_pid@))),
            ) + table::views(connected@),
    {
        let peers = remote_members(existing, here, &self_pid);
        let nodes = watch_list(&peers, connected);
        let context = Dict::of_table(self.crdt.context());
        self.self_pid = Some(self_pid.clone());
        Start {
            name: self.name.clone(),
            group: self.group(),
            request: (peers, PresenceInfo::CrdtSyncRequest { from: self_pid, context }),
            nodes,
        }
    }

    /// The group to leave at the end, and the process that leaves it; nothing if the start was
    /// never completed.
    pub fn terminate(&self) -> (r: Option<(String, Pid)>)
        ensures
            match (r, self.own()) {
                (Some((group, pid)), Some(own)) => group@ == presence_group(self.name()) && pid@
                    == own,
                (None, None) => true,
                _ => false,
            },
    {
        match &self.self_pid {
            Some(pid) => Some((self.group(), pid.clone())),
            None => None,
        }
    }
}

/// The visible entries under a key.
pub open spec fn shown(s: ReplicaView, topic: Seq<char>, key: Seq<char>) -> Seq<EntryView> {
    crdt::visible(crdt::at(s.values, topic, key), s.status)
}

/// All that a replica holds.
pub open spec fn all_known(c: PresenceCrdt) -> DeltaView {
    DeltaView { joins: c.entries(), leave_tags: Seq::empty(), context: c.seen() }
}

/// What a replica holds of another.
pub open spec fn entries_from(c: PresenceCrdt, replica: Seq<char>) -> Seq<EntryView> {
    c.entries().filter(|e: EntryView| e.tag.replica == replica)
}

/// What a replica holds and a context has not seen.
pub open spec fn unseen(c: PresenceCrdt, context: Map<Seq<char>, u64>) -> DeltaView {
    DeltaView {
        joins: c.entries().filter(
            |e: EntryView| e.tag.clock > crdt::clock_of(context, e.tag.replica),
        ),
        leave_tags: Seq::empty(),
        context: c.seen(),
    }
}

/// Whether `i` is the first member on a node.
pub open spec fn first_on(members: Seq<PidView>, node: Seq<char>, i: int) -> bool {
    &&& 0 <= i < members.len()
    &&& members[i].node == node
    &&& forall|j: int| 0 <= j < i ==> (#[trigger] members[j]).node != node
}

/// Whether no member is on a node.
pub open spec fn none_on(members: Seq<PidView>, node: Seq<char>) -> bool {
    forall|i: int| 0 <= i < members.len() ==> (#[trigger] members[i]).node != node
}

/// Whether a node is another than `node`.
pub open spec fn other_node(node: Seq<char>) -> spec_fn(Seq<char>) -> bool {
    |n: Seq<char>| n != node
}

/// What tracking a process comes to.
pub open spec fn track_done(
    s: ReplicaView,
    topic: Seq<char>,
    key: Seq<char>,
    pid: PidView,
    meta: Seq<u8>,
    at: Surroundings,
    t: ReplicaView,
    reply: PresenceReplyView,
    effects: Effects,
) -> bool {
    let u = after_track(s, topic, key, pid, meta);
    &&& t == flushed(u)
    &&& reply == PresenceReplyView::Done { phx_ref: Some(convert::ref_of(next_tag(s))) }
    &&& news(effects.broadcasts@) == announced(
        topic,
        join_diff(key, next_tag(s), None, pid, meta, at.now),
    )
    &&& mail(effects.sends@) == shared_with(topic, u.pending, at.peers())
}

/// What no longer tracking a process under a key comes to.
pub open spec fn untrack_done(
    s: ReplicaView,
    topic: Seq<char>,
    key: Seq<char>,
    pid: PidView,
    at: Surroundings,
    t: ReplicaView,
    reply: PresenceReplyView,
    effects: Effects,
) -> bool {
    let u = after_untrack(s, topic, key, pid);
    let gone = entries_of(s, topic, key, pid);
    &&& reply == PresenceReplyView::Done { phx_ref: None }
    &&& if gone.len() > 0 {
        &&& t == flushed(u)
        &&& news(effects.broadcasts@) == announced(topic, leave_diff(key, pid, gone))
        &&& mail(effects.sends@) == shared_with(topic, u.pending, at.peers())
    } else {
        t == u && no_effects(effects)
    }
}

/// What no longer tracking a process anywhere comes to.
pub open spec fn untrack_all_done(
    s: ReplicaView,
    pid: PidView,
    at: Surroundings,
    t: ReplicaView,
    reply: PresenceReplyView,
    effects: Effects,
) -> bool {
    let u = after_untrack_all(s, pid);
    &&& reply == PresenceReplyView::Done { phx_ref: None }
    &&& t == flushed(u)
    &&& exists|topics: Seq<Seq<char>>| #[trigger]
        left_topics(effects, topics, all_entries_of(s, pid), u.pending, at)
}

/// What replacing the metadata of a process comes to.
pub open spec fn update_done(
    s: ReplicaView,
    topic: Seq<char>,
    key: Seq<char>,
    pid: PidView,
    meta: Seq<u8>,
    at: Surroundings,
    t: ReplicaView,
    reply: PresenceReplyView,
    effects: Effects,
) -> bool {
    let gone = entries_of(s, topic, key, pid);
    let u = after_track(after_untrack(s, topic, key, pid), topic, key, pid, meta);
    let prev = if gone.len() == 0 {
        None
    } else {
        Some(convert::ref_of(gone[0].tag))
    };
    &&& t == flushed(u)
    &&& reply == PresenceReplyView::Done {
        phx_ref: if gone.len() == 0 {
            None
        } else {
            Some(convert::ref_of(next_tag(s)))
        },
    }
    &&& news(effects.broadcasts@) == announced(
        topic,
        join_diff(key, next_tag(s), prev, pid, meta, at.now),
    )
    &&& mail(effects.sends@) == shared_with(topic, u.pending, at.peers())
}

/// Whether a reply lists the visible entries of a topic, by key.
pub open spec fn lists(
    s: ReplicaView,
    topic: Seq<char>,
    now: u64,
    reply: PresenceReplyView
) -> bool {
    match reply {
        PresenceReplyView::PresenceList { presences } => forall|key: Seq<char>| #[trigger]
            piece::value_of(presences, key) == convert::state_of(shown(s, topic, key), now),
        _ => false,
    }
}

/// Whether a server does nothing besides changing its state.
pub open spec fn no_effects(effects: Effects) -> bool {
    effects.broadcasts@.len() == 0 && effects.sends@.len() == 0
}

/// What a request that waits for a reply comes to.
pub open spec fn call_done(
    s: ReplicaView,
    msg: PresenceCallView,
    at: Surroundings,
    t: ReplicaView,
    reply: PresenceReplyView,
    effects: Effects,
) -> bool {
    match msg {
        PresenceCallView::Track { topic, key, pid, meta } => track_done(
            s,
            topic,
            key,
            pid,
            meta,
            at,
            t,
            reply,
            effects,
        ),
        PresenceCallView::Untrack { topic, key, pid } => untrack_done(
            s,
            topic,
            key,
            pid,
            at,
            t,
            reply,
            effects,
        ),
        PresenceCallView::UntrackAll { pid } => untrack_all_done(s, pid, at, t, reply, effects),
        PresenceCallView::Update { topic, key, pid, meta } => update_done(
            s,
            topic,
            key,
            pid,
            meta,
            at,
            t,
            reply,
            effects,
        ),
        PresenceCallView::List { topic } => {
            t == s && no_effects(effects) && lists(s, topic, at.now, reply)
        },
        PresenceCallView::Get { topic, key } => {
            &&& t == s
            &&& no_effects(effects)
            &&& reply == PresenceReplyView::PresenceGet {
                presence: convert::state_of(shown(s, topic, key), at.now),
            }
        },
    }
}

/// What the subscribers are told of a process that joins.
fn joined(
    key: &str,
    tag: &Tag,
    prev: Option<PresenceRef>,
    pid: &Pid,
    meta: Vec<u8>,
    now: u64,
) -> (r: PresenceDiff)
    ensures
        r@ == join_diff(key@, tag@, piece::option_view(prev), pid@, meta@, now),
{
    let mut metas: Vec<PresenceMeta> = Vec::new();
    metas.push(
        PresenceMeta {
            phx_ref: convert::tag_to_ref(tag),
            phx_ref_prev: prev,
            pid: pid.clone(),
            meta,
            updated_at: now,
        },
    );
    let ghost m = metas@[0]@;
    let state = PresenceState { metas };
    assert(state@.metas =~= seq![m]);
    let ghost st = state@;
    let mut joins: Dict<PresenceState> = Dict::new();
    joins.insert(key.to_owned(), state);
    assert(joins@ =~= seq![(key@, st)]);
    PresenceDiff { joins, leaves: Dict::new() }
}

/// The keys of a table's rows.
pub open spec fn keys_of<V>(rows: Seq<(String, V)>) -> Seq<Seq<char>> {
    Seq::new(rows.len(), |i: int| rows[i].0@)
}

/// The broadcasts that tell of the entries that left, one for each row.
fn announce_leaves(
    removed: &Table<String, Vec<TrackedEntry>>,
    now: u64,
    Ghost(gone): Ghost<Seq<EntryView>>,
) -> (r: Vec<(String, PresenceMessage)>)
    requires
        removed.wf(),
        forall|topic: Seq<char>| #[trigger]
            crdt::bucket(removed@, topic) == gone.filter(in_topic(topic)),
        forall|topic: Seq<char>| #[trigger]
            removed@.contains_key(topic) <==> crdt::bucket(removed@, topic).len() > 0,
    ensures
        tell_of_leaves(news(r@), keys_of(removed.rows@), gone, now),
{
    let ghost rows = removed.rows@;
    let ghost topics = keys_of(rows);
    let mut out: Vec<(String, PresenceMessage)> = Vec::new();
    let mut i: usize = 0;
    while i < removed.rows.len()
        invariant
            i <= removed.rows@.len(),
            rows == removed.rows@,
            topics == keys_of(rows),
            removed.wf(),
            out@.len() == i,
            forall|topic: Seq<char>| #[trigger]
                crdt::bucket(removed@, topic) == gone.filter(in_topic(topic)),
            forall|topic: Seq<char>| #[trigger]
                removed@.contains_key(topic) <==> crdt::bucket(removed@, topic).len() > 0,
            forall|j: int|
                0 <= j < i ==> tells_of_leaves(#[trigger] news(out@)[j], topics[j], gone, now),
        decreases removed.rows@.len() - i,
    {
        let ghost before = out@;
        let ghost entries = table::views(rows[i as int].1@);
        let ghost topic = rows[i as int].0@;
        proof {
            table::lemma_row(rows, i as int);
            assert(crdt::bucket(removed@, topic) == entries);
        }
        let leaves = convert::group_by_key(&removed.rows[i].1, now);
        let diff = PresenceDiff { joins: Dict::new(), leaves };
        proof {
            assert(entries.len() > 0);
            let k = entries[0].key;
            let p = convert::under_key(k);
            entries.lemma_filter_contains(p, 0);
            assert(piece::value_of(diff@.leaves, k) is Some);
            assert(diff@.leaves.len() > 0);
        }
        let ghost d = diff@;
        let mut one = broadcast_delta(removed.rows[i].0.as_str(), diff);
        let ghost m = news(one@);
        assert(m =~= seq![(presence_topic(topic), PresenceMessageView::Delta { topic, diff: d })]);
        assert(one@.len() == 1);
        out.append(&mut one);
        proof {
            assert(news(out@) =~= news(before) + m);
            assert forall|j: int| 0 <= j < i + 1 implies tells_of_leaves(
                #[trigger] news(out@)[j],
                topics[j],
                gone,
                now,
            ) by {
                if j < i {
                    assert(news(out@)[j] == news(before)[j]);
                } else {
                    assert(news(out@)[j] == m[0]);
                }
            }
        }
        i = i + 1;
    }
    proof {
        assert forall|a: int, b: int| 0 <= a < topics.len() && 0 <= b < topics.len() && a
            != b implies topics[a] != topics[b] by {
            if a < b {
                assert(rows[a].0@ != rows[b].0@);
            } else {
                assert(rows[b].0@ != rows[a].0@);
            }
        }
        assert forall|t: Seq<char>| #[trigger] topics.contains(t) <==> gone.filter(
            in_topic(t),
        ).len() > 0 by {
            assert(crdt::bucket(removed@, t) == gone.filter(in_topic(t)));
            if topics.contains(t) {
                let a = choose|a: int| 0 <= a < topics.len() && topics[a] == t;
                table::lemma_row(rows, a);
            }
            if removed@.contains_key(t) {
                let a = table::lemma_key(rows, t);
                assert(topics[a] == t);
            }
        }
    }
    out
}

/// Entries by topic.
fn split_by_topic(entries: &Vec<TrackedEntry>) -> (r: Table<String, Vec<TrackedEntry>>)
    ensures
        r.wf(),
        forall|topic: Seq<char>| #[trigger]
            crdt::bucket(r@, topic) == table::views(entries@).filter(in_topic(topic)),
        forall|topic: Seq<char>| #[trigger]
            r@.contains_key(topic) <==> crdt::bucket(r@, topic).len() > 0,
{
    let ghost all = table::views(entries@);
    let mut r: Table<String, Vec<TrackedEntry>> = Table::new();
    let mut i: usize = 0;
    proof {
        reveal(Seq::filter);
        assert(all.take(0) =~= Seq::empty());
    }
    while i < entries.len()
        invariant
            i <= entries@.len(),
            all == table::views(entries@),
            r.wf(),
            forall|topic: Seq<char>| #[trigger]
                crdt::bucket(r@, topic) == all.take(i as int).filter(in_topic(topic)),
            forall|topic: Seq<char>| #[trigger]
                r@.contains_key(topic) <==> crdt::bucket(r@, topic).len() > 0,
        decreases entries@.len() - i,
    {
        let ghost before = r@;
        let ghost e = all[i as int];
        let ghost part = all.take(i as int);
        let mut list: Vec<TrackedEntry> = match r.remove(&entries[i].topic) {
            Some(list) => list,
            None => Vec::new(),
        };
        let ghost had = table::views(list@);
        assert(had =~= crdt::bucket(before, e.topic));
        list.push(entries[i].clone());
        assert(table::views(list@) =~= had.push(e));
        let ghost now = list;
        let _ = r.insert(entries[i].topic.clone(), list);
        proof {
            let more = all.take(i + 1);
            assert(more =~= part.push(e));
            assert forall|topic: Seq<char>| #[trigger] crdt::bucket(r@, topic) == more.filter(
                in_topic(topic),
            ) by {
                part.lemma_filter_push(e, in_topic(topic));
                assert(crdt::bucket(before, topic) == part.filter(in_topic(topic)));
            }
            assert forall|topic: Seq<char>| #[trigger] r@.contains_key(topic) <==> crdt::bucket(
                r@,
                topic,
            ).len() > 0 by {
                assert(before.contains_key(topic) <==> crdt::bucket(before, topic).len() > 0);
            }
        }
        i = i + 1;
    }
    assert(all.take(all.len() as int) =~= all);
    r
}

/// A copy of a delta.
fn copy_delta(delta: &PresenceDelta) -> (r: PresenceDelta)
    requires
        delta.wf(),
    ensures
        r.wf(),
        r@ == delta@,
{
    let mut joins: Vec<TrackedEntry> = Vec::new();
    let mut i: usize = 0;
    while i < delta.joins.len()
        invariant
            i <= delta.joins@.len(),
            joins@.len() == i,
            forall|j: int| 0 <= j < i ==> (#[trigger] joins@[j])@ == delta.joins@[j]@,
        decreases delta.joins@.len() - i,
    {
        joins.push(delta.joins[i].clone());
        i = i + 1;
    }
    let mut leave_tags: Vec<Tag> = Vec::new();
    let mut k: usize = 0;
    while k < delta.leave_tags.len()
        invariant
            k <= delta.leave_tags@.len(),
            leave_tags@.len() == k,
            forall|j: int| 0 <= j < k ==> (#[trigger] leave_tags@[j])@ == delta.leave_tags@[j]@,
        decreases delta.leave_tags@.len() - k,
    {
        leave_tags.push(delta.leave_tags[k].dup());
        k = k + 1;
    }
    assert(table::views(joins@) =~= table::views(delta.joins@));
    assert(table::views(leave_tags@) =~= table::views(delta.leave_tags@));
    PresenceDelta { joins, leave_tags, context: crdt::copy_context(&delta.context) }
}

/// What a message that is none of the server's own turns out to be.
pub enum RawMessage {
    /// A node was disconnected.
    NodeDown(String),
    /// A message between presence servers.
    Crdt(CrdtPresenceMessage),
    /// A message in the older form.
    Legacy(PresenceMessage),
    /// Complete the start.
    CompleteInit,
    /// Nothing that the server knows.
    Unknown,
}

/// The first of the forms of a message that its bytes have. `node_down` is the node, if they tell
/// of one that was disconnected.
pub fn handle_raw_message(payload: &[u8], node_down: Option<String>) -> (r: RawMessage)
    ensures
        match r {
            RawMessage::NodeDown(node) => node_down == Some(node),
            RawMessage::Crdt(m) => node_down is None && read_all::<CrdtPresenceMessage>(payload@)
                == Some(m@),
            RawMessage::Legacy(m) => node_down is None && read_all::<CrdtPresenceMessage>(
                payload@,
            ) is None && read_all::<PresenceMessage>(payload@) == Some(m@),
            RawMessage::CompleteInit => unknown_form(payload@, node_down) && is_start(payload@),
            RawMessage::Unknown => unknown_form(payload@, node_down) && !is_start(payload@),
        },
{
    match node_down {
        Some(node) => {
            return RawMessage::NodeDown(node);
        },
        None => {},
    }
    match CrdtPresenceMessage::take(payload) {
        Ok((m, _)) => {
            return RawMessage::Crdt(m);
        },
        Err(_) => {},
    }
    match PresenceMessage::take(payload) {
        Ok((m, _)) => {
            return RawMessage::Legacy(m);
        },
        Err(_) => {},
    }
    match message::decode_tag(payload) {
        Ok((tag, _)) => if text::same_str(tag, "PresenceCompleteInit") {
            RawMessage::CompleteInit
        } else {
            RawMessage::Unknown
        },
        Err(_) => RawMessage::Unknown,
    }
}

/// The value that some bytes begin with.
pub open spec fn read_all<T: Piece>(b: Seq<u8>) -> Option<T::V> {
    match T::read(b) {
        Some((v, _)) => Some(v),
        None => None,
    }
}

/// Whether bytes have none of the untagged forms.
pub open spec fn unknown_form(b: Seq<u8>, node_down: Option<String>) -> bool {
    node_down is None && read_all::<CrdtPresenceMessage>(b) is None && read_all::<PresenceMessage>(
        b,
    ) is None
}

/// Whether bytes are the tagged message that completes the start.
pub open spec fn is_start(b: Seq<u8>) -> bool {
    match message::untagged(b) {
        Some((tag, _)) => tag == "PresenceCompleteInit"@,
        None => false,
    }
}

/// The message of a presence server that a message between replicas stands for.
pub fn handle_crdt_message(msg: CrdtPresenceMessage) -> (r: PresenceInfo)
    ensures
        r@ == (match msg@ {
            CrdtPresenceMessageView::Delta { topic, delta } => PresenceInfoView::CrdtDelta {
                topic,
                delta,
            },
            CrdtPresenceMessageView::SyncRequest { from, context } => {
                PresenceInfoView::CrdtSyncRequest { from, context }
            },
            CrdtPresenceMessageView::SyncResponse { delta } => {
                PresenceInfoView::CrdtSyncResponse { delta }
            },
        }),
{
    match msg {
        CrdtPresenceMessage::Delta { topic, delta } => PresenceInfo::CrdtDelta { topic, delta },
        CrdtPresenceMessage::SyncRequest { from, context } => PresenceInfo::CrdtSyncRequest {
            from,
            context,
        },
        CrdtPresenceMessage::SyncResponse { delta } => PresenceInfo::CrdtSyncResponse { delta },
    }
}

/// What a server goes on with: a message of its own, or bytes in some other form.
pub fn handle_continue(arg: &[u8]) -> (r: Option<PresenceInfo>)
    ensures
        match message::untagged(arg@) {
            Some((_, payload)) => piece::option_view(r) == PresenceInfo::unpacked(payload),
            None => r is None,
        },
{
    match message::decode_tag(arg) {
        Ok((_, payload)) => match PresenceInfo::decode_local(payload) {
            Ok(info) => Some(info),
            Err(_) => None,
        },
        Err(_) => None,
    }
}

/// What a caller is told if there is no server with a name.
pub open spec fn not_found(presence: Seq<char>) -> Seq<char> {
    "Presence '"@ + presence + "' not found"@
}

/// The server with a name, as it was looked up.
pub fn found_server(presence: &str, found: Option<Pid>) -> (r: Result<Pid, String>)
    ensures
        match found {
            Some(pid) => r == Ok::<Pid, String>(pid),
            None => r matches Err(e) && e@ == not_found(presence@),
        },
{
    match found {
        Some(pid) => Ok(pid),
        None => Err(text::join3("Presence '", presence, "' not found")),
    }
}

/// The encoded metadata of a request, or the caller's error.
pub fn encoded_meta(meta: Result<Vec<u8>, String>) -> (r: Result<Vec<u8>, String>)
    ensures
        match meta {
            Ok(bytes) => r == Ok::<Vec<u8>, String>(bytes),
            Err(text) => r matches Err(e) && e@ == "serialize failed: "@ + text@,
        },
{
    match meta {
        Ok(bytes) => Ok(bytes),
        Err(text) => Err(text::join2("serialize failed: ", text.as_str())),
    }
}

/// What a caller that tracks a process gets of the reply.
pub fn track_reply(reply: PresenceReply) -> (r: Result<PresenceRef, String>)
    ensures
        match reply {
            PresenceReply::Done { phx_ref: Some(x) } => r == Ok::<PresenceRef, String>(x),
            PresenceReply::Done { phx_ref: None } => r matches Err(e) && e@
                == "track returned no ref"@,
            _ => r matches Err(e) && e@ == "unexpected reply type"@,
        },
{
    match reply {
        PresenceReply::Done { phx_ref } => match phx_ref {
            Some(x) => Ok(x),
            None => Err("track returned no ref".to_owned()),
        },
        _ => Err("unexpected reply type".to_owned()),
    }
}

/// What a caller that replaces metadata gets of the reply.
pub fn update_reply(reply: PresenceReply) -> (r: Result<Option<PresenceRef>, String>)
    ensures
        match reply {
            PresenceReply::Done { phx_ref } => r == Ok::<Option<PresenceRef>, String>(phx_ref),
            _ => r matches Err(e) && e@ == "unexpected reply type"@,
        },
{
    match reply {
        PresenceReply::Done { phx_ref } => Ok(phx_ref),
        _ => Err("unexpected reply type".to_owned()),
    }
}

/// What a caller that lists presences gets of the reply.
pub fn list_reply(reply: PresenceReply) -> (r: Result<Dict<PresenceState>, String>)
    ensures
        match reply {
            PresenceReply::PresenceList { presences } => r == Ok::<Dict<PresenceState>, String>(
                presences,
            ),
            _ => r matches Err(e) && e@ == "unexpected reply type"@,
        },
{
    match reply {
        PresenceReply::PresenceList { presences } => Ok(presences),
        _ => Err("unexpected reply type".to_owned()),
    }
}

/// What a caller that asks for one key gets of the reply.
pub fn get_reply(reply: PresenceReply) -> (r: Result<Option<PresenceState>, String>)
    ensures
        match reply {
            PresenceReply::PresenceGet { presence } => r == Ok::<Option<PresenceState>, String>(
                presence,
            ),
            _ => r matches Err(e) && e@ == "unexpected reply type"@,
        },
{
    match reply {
        PresenceReply::PresenceGet { presence } => Ok(presence),
        _ => Err("unexpected reply type".to_owned()),
    }
}

/// Whoever is tracked is listed, as long as this node counts as up.
pub proof fn law_tracked_is_listed(
    s: ReplicaView,
    topic: Seq<char>,
    key: Seq<char>,
    pid: PidView,
    meta: Seq<u8>,
)
    requires
        crdt::is_up(s.status, s.name),
    ensures
        shown(after_track(s, topic, key, pid, meta), topic, key) == shown(s, topic, key).push(
            (EntryView { topic, pid, key, meta, tag: next_tag(s) }),
        ),
{
    let e = EntryView { topic, pid, key, meta, tag: next_tag(s) };
    let here = crdt::at(s.values, topic, key);
    let p = |x: EntryView| crdt::is_up(s.status, x.tag.replica);
    here.lemma_filter_push(e, p);
}

/// Whoever is no longer tracked under a key is not listed there, and the others still are.
pub proof fn law_untracked_is_not_listed(
    s: ReplicaView,
    topic: Seq<char>,
    key: Seq<char>,
    pid: PidView,
)
    ensures
        shown(after_untrack(s, topic, key, pid), topic, key) == shown(s, topic, key).filter(
            |e: EntryView| e.pid != pid,
        ),
{
    let here = crdt::at(s.values, topic, key);
    let other = |e: EntryView| e.pid != pid;
    let up = |x: EntryView| crdt::is_up(s.status, x.tag.replica);
    let stay = here.filter(other);
    assert(crdt::at(after_untrack(s, topic, key, pid).values, topic, key) =~= stay);
    crate::seqs::lemma_filter_filter(here, other, up);
    crate::seqs::lemma_filter_filter(here, up, other);
    crate::seqs::lemma_filter_agree(
        here,
        |e: EntryView| other(e) && up(e),
        |e: EntryView| up(e) && other(e),
    );
}

/// The subscribers of another node that apply what they were told of a process that joined hold
/// the entry that is tracked here.
pub proof fn law_joins_are_told_exactly(
    s: ReplicaView,
    topic: Seq<char>,
    key: Seq<char>,
    prev: Option<Seq<char>>,
    pid: PidView,
    meta: Seq<u8>,
    now: u64,
)
    ensures
        convert::diff_delta(topic, join_diff(key, next_tag(s), prev, pid, meta, now)).joins
            == seq![EntryView { topic, pid, key, meta, tag: next_tag(s) }],
{
    let d = join_diff(key, next_tag(s), prev, pid, meta, now);
    convert::law_ref_leads_back(next_tag(s));
    let rows = d.joins;
    assert(rows.drop_last() =~= Seq::empty());
    assert(convert::joins_of(topic, rows.drop_last()) =~= Seq::empty());
    assert(convert::joins_of(topic, rows) =~= seq![
        EntryView { topic, pid, key, meta, tag: next_tag(s) },
    ]);
}

/// The subscribers that apply what they were told of entries that left drop those entries.
pub proof fn law_leaves_are_told_exactly(
    topic: Seq<char>,
    key: Seq<char>,
    pid: PidView,
    gone: Seq<EntryView>,
)
    ensures
        convert::diff_delta(topic, leave_diff(key, pid, gone)).leave_tags == crdt::tags_of(gone),
{
    let rows = leave_diff(key, pid, gone).leaves;
    assert(rows.drop_last() =~= Seq::empty());
    assert(convert::tags_in(rows.drop_last()) =~= Seq::empty());
    assert forall|i: int| 0 <= i < gone.len() implies #[trigger] convert::tags_in(rows)[i]
        == crdt::tags_of(gone)[i] by {
        convert::law_ref_leads_back(gone[i].tag);
    }
    assert(convert::tags_in(rows) =~= crdt::tags_of(gone));
}

} // verus!
