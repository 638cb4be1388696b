//! What publish and subscribe promise as a whole: who is reached by a broadcast, and with what.

use vstd::prelude::*;
use vstd::utf8::*;

use crate::channel::channels;
use crate::codec;
use crate::gen_server::server as enumerated;
use crate::gen_server::v2::server as dispatched;
use crate::message;
use crate::message::Message;
use crate::process::{pid_option, DecodeError, Pid, PidView};
use crate::pubsub::server;
use crate::pubsub::server::{
    Broadcast, ForwardBroadcast, ForwardBroadcastView, GetLocalSubscribers, GetSubscribers,
    GroupChange, GroupChangeView, LocalBroadcast, Subscribe, Subscribers, Unsubscribe,
    UnsubscribeAll,
};
use crate::pubsub::server_v3;
use crate::pubsub::server_v3::{PubSub, PubSubCall, PubSubCast, PubSubCastView, PubSubReply};
use crate::pubsub::subscriptions;
use crate::seqs;
use crate::table;
use crate::wire;

verus! {

/// Who is to get a broadcast on a node: a process for each of its subscriptions to the topic, in
/// their order, unless it is excluded.
pub open spec fn reached(
    s: Seq<(Seq<char>, PidView)>,
    topic: Seq<char>,
    exclude: Option<PidView>,
) -> Seq<PidView> {
    s.filter(is_wanted(topic, exclude)).map_values(|e: (Seq<char>, PidView)| e.1)
}

/// Whether a subscription is one to a topic, of a process that is not excluded.
pub open spec fn is_wanted(topic: Seq<char>, exclude: Option<PidView>) -> spec_fn(
    (Seq<char>, PidView),
) -> bool {
    |e: (Seq<char>, PidView)| e.0 == topic && Some(e.1) != exclude
}

/// Who is to be told of a broadcast on the other nodes: the servers there.
pub open spec fn peers(members: Seq<PidView>, here: Seq<char>, own: Option<PidView>) -> Seq<
    PidView,
> {
    members.filter(|p: PidView| Some(p) != own && p.node != here)
}

/// Filtering what subscriptions are mapped to.
proof fn lemma_pids(s: Seq<(Seq<char>, PidView)>, pid: PidView)
    ensures
        subscriptions::pids_of(s).filter(channels::other_than(pid)) == subscriptions::pids_of(
            s.filter(subscriptions::not_of(pid)),
        ),
    decreases s.len(),
{
    let p = channels::other_than(pid);
    let q = subscriptions::not_of(pid);
    if s.len() == 0 {
        reveal(Seq::filter);
        assert(subscriptions::pids_of(s) =~= Seq::empty());
        assert(s.filter(q) =~= Seq::empty());
        assert(subscriptions::pids_of(s.filter(q)) =~= Seq::empty());
    } else {
        let rest = s.drop_last();
        let e = s.last();
        lemma_pids(rest, pid);
        assert(s =~= rest.push(e));
        assert(subscriptions::pids_of(s) =~= subscriptions::pids_of(rest).push(e.1));
        rest.lemma_filter_push(e, q);
        subscriptions::pids_of(rest).lemma_filter_push(e.1, p);
        assert(subscriptions::pids_of(rest.filter(q).push(e)) =~= subscriptions::pids_of(
            rest.filter(q),
        ).push(e.1));
    }
}

proof fn lemma_reached(
    s: Seq<(Seq<char>, PidView)>,
    topic: Seq<char>,
    exclude: Option<PidView>,
)
    ensures
        subscriptions::receivers(subscriptions::subscribers_of(s, topic), exclude) == reached(
            s,
            topic,
            exclude,
        ),
{
    let to = subscriptions::to_topic(topic);
    let both = is_wanted(topic, exclude);
    match exclude {
        Some(pid) => {
            let q = subscriptions::not_of(pid);
            lemma_pids(s.filter(to), pid);
            seqs::lemma_filter_filter(s, to, q);
            seqs::lemma_filter_agree(s, |e: (Seq<char>, PidView)| to(e) && q(e), both);
            assert(s.filter(to).filter(q) == s.filter(both));
            assert(subscriptions::subscribers_of(s, topic).filter(channels::other_than(pid))
                == subscriptions::pids_of(s.filter(both)));
        },
        None => {
            seqs::lemma_filter_agree(s, to, both);
        },
    }
    assert(subscriptions::receivers(subscriptions::subscribers_of(s, topic), exclude) =~= reached(
        s,
        topic,
        exclude,
    ));
}

proof fn lemma_peers(members: Seq<PidView>, here: Seq<char>, own: Option<PidView>)
    ensures
        members.filter(subscriptions::is_remote(here, own)) == peers(members, here, own),
{
    seqs::lemma_filter_agree(
        members,
        subscriptions::is_remote(here, own),
        |p: PidView| Some(p) != own && p.node != here,
    );
}

/// Whether a message is sent to some processes, one after the other, from place `at` on.
pub open spec fn sent_to(
    sends: Seq<(Pid, Vec<u8>)>,
    at: int,
    to: Seq<PidView>,
    payload: Seq<u8>,
) -> bool {
    &&& at + to.len() <= sends.len()
    &&& forall|i: int|
        0 <= i < to.len() ==> (#[trigger] sends[at + i]).0@ == to[i] && sends[at + i].1@ == payload
}

proof fn lemma_sent(
    sends: Seq<(Pid, Vec<u8>)>,
    a: Seq<PidView>,
    x: Seq<u8>,
    b: Seq<PidView>,
    y: Seq<u8>,
)
    requires
        channels::sends(sends) == channels::to_each(a, x) + channels::to_each(b, y),
    ensures
        sends.len() == a.len() + b.len(),
        sent_to(sends, 0, a, x),
        sent_to(sends, a.len() as int, b, y),
{
    let s = channels::sends(sends);
    assert(s.len() == sends.len());
    assert forall|i: int| 0 <= i < a.len() implies (#[trigger] sends[0 + i]).0@ == a[i] && sends[0
        + i].1@ == x by {
        assert(s[i] == channels::to_each(a, x)[i]);
    }
    assert forall|i: int| 0 <= i < b.len() implies (#[trigger] sends[a.len() + i]).0@ == b[i]
        && sends[a.len() + i].1@ == y by {
        assert(s[a.len() + i] == channels::to_each(b, y)[i]);
    }
}

proof fn lemma_sent_once(sends: Seq<(Pid, Vec<u8>)>, a: Seq<PidView>, x: Seq<u8>)
    requires
        channels::sends(sends) == channels::to_each(a, x),
    ensures
        sends.len() == a.len(),
        sent_to(sends, 0, a, x),
{
    let none = Seq::<PidView>::empty();
    assert(channels::to_each(none, x) =~= Seq::empty());
    assert(channels::sends(sends) =~= channels::to_each(a, x) + channels::to_each(none, x));
    lemma_sent(sends, a, x, none, x);
}

/// Whether bytes that a server gets from another node are taken as a broadcast of the other node:
/// it takes them as a cast, and finds the topic, the message and the excluded process in it.
pub open spec fn is_forwarded(
    bytes: Vec<u8>,
    topic: Seq<char>,
    payload: Seq<u8>,
    exclude: Option<PidView>,
) -> bool {
    forall|turn: enumerated::Turn| #[trigger]
        call_ensures(enumerated::receive, (Some(bytes),), turn) ==> (
        turn matches enumerated::Turn::Cast { payload: request } && forall|
            data: &[u8],
            m: Result<PubSubCast, DecodeError>,
        |
            data@ == request@ && #[trigger] call_ensures(PubSubCast::decode_local, (data,), m) ==> (
            m matches Ok(PubSubCast::ForwardBroadcast { topic: t, payload: p, exclude: x }) && t@
                == topic && p@ == payload && pid_option(x) == exclude))
}

proof fn lemma_forwarded(
    bytes: Vec<u8>,
    topic: Seq<char>,
    payload: Seq<u8>,
    exclude: Option<PidView>,
)
    requires
        bytes@ == server_v3::forward_bytes(topic, payload, exclude),
    ensures
        is_forwarded(bytes, topic, payload, exclude),
{
    assert(bytes@.len() == bytes.len());
    server_v3::law_forwarded_broadcast_is_read(topic, payload, exclude);
}

/// A broadcast is sent, as it is, to every process of this node that has subscribed to the topic,
/// but not to the excluded one; and to every server of another node, which takes it as a broadcast
/// of this node with the same topic, message and excluded process.
pub proof fn law_broadcast_is_sent(
    p: &PubSub,
    topic: String,
    payload: Vec<u8>,
    exclude: Option<Pid>,
    members: &Vec<Pid>,
    here: &str,
    r: Vec<(Pid, Vec<u8>)>,
)
    requires
        call_ensures(
            PubSub::handle_cast,
            (p, PubSubCast::Broadcast { topic, payload, exclude }, members, here),
            r,
        ),
    ensures
        ({
            let local = reached(p@.subscriptions, topic@, pid_option(exclude));
            let remote = peers(table::views(members@), here@, p@.self_pid);
            &&& r@.len() == local.len() + remote.len()
            &&& sent_to(r@, 0, local, payload@)
            &&& forall|i: int|
                0 <= i < remote.len() ==> (#[trigger] r@[local.len() + i]).0@ == remote[i]
                    && is_forwarded(
                    r@[local.len() + i].1,
                    topic@,
                    payload@,
                    pid_option(exclude),
                )
        }),
{
    let x = pid_option(exclude);
    let local = reached(p@.subscriptions, topic@, x);
    let remote = peers(table::views(members@), here@, p@.self_pid);
    let bytes = server_v3::forward_bytes(topic@, payload@, x);
    lemma_reached(p@.subscriptions, topic@, x);
    lemma_peers(table::views(members@), here@, p@.self_pid);
    lemma_sent(r@, local, payload@, remote, bytes);
    assert forall|i: int| 0 <= i < remote.len() implies (#[trigger] r@[local.len() + i]).0@
        == remote[i] && is_forwarded(r@[local.len() + i].1, topic@, payload@, x) by {
        lemma_forwarded(r@[local.len() + i].1, topic@, payload@, x);
    }
}

/// A broadcast on this node, and one that another node handed on, is sent, as it is, to every
/// process of this node that has subscribed to the topic, but not to the excluded one; and to no
/// other node.
pub proof fn law_local_broadcast_is_sent(
    p: &PubSub,
    topic: String,
    payload: Vec<u8>,
    exclude: Option<Pid>,
    members: &Vec<Pid>,
    here: &str,
    local: Vec<(Pid, Vec<u8>)>,
    handed_on: Vec<(Pid, Vec<u8>)>,
)
    requires
        call_ensures(
            PubSub::handle_cast,
            (p, PubSubCast::LocalBroadcast { topic, payload, exclude }, members, here),
            local,
        ),
        call_ensures(
            PubSub::handle_cast,
            (p, PubSubCast::ForwardBroadcast { topic, payload, exclude }, members, here),
            handed_on,
        ),
    ensures
        ({
            let to = reached(p@.subscriptions, topic@, pid_option(exclude));
            &&& local@.len() == to.len() && sent_to(local@, 0, to, payload@)
            &&& handed_on@.len() == to.len() && sent_to(handed_on@, 0, to, payload@)
        }),
{
    let to = reached(p@.subscriptions, topic@, pid_option(exclude));
    lemma_reached(p@.subscriptions, topic@, pid_option(exclude));
    lemma_sent_once(local@, to, payload@);
    lemma_sent_once(handed_on@, to, payload@);
}

/// Who has subscribed to a topic, in the order of the subscriptions.
pub open spec fn subscribed(s: Seq<(Seq<char>, PidView)>, topic: Seq<char>) -> Seq<PidView> {
    s.filter(|e: (Seq<char>, PidView)| e.0 == topic).map_values(|e: (Seq<char>, PidView)| e.1)
}

proof fn lemma_subscribed(s: Seq<(Seq<char>, PidView)>, topic: Seq<char>)
    ensures
        subscriptions::subscribers_of(s, topic) == subscribed(s, topic),
{
    seqs::lemma_filter_agree(
        s,
        subscriptions::to_topic(topic),
        |e: (Seq<char>, PidView)| e.0 == topic,
    );
    assert(subscriptions::subscribers_of(s, topic) =~= subscribed(s, topic));
}

/// Whether a subscription is one to another topic, or of another process.
pub open spec fn is_another(topic: Seq<char>, pid: PidView) -> spec_fn(
    (Seq<char>, PidView),
) -> bool {
    |x: (Seq<char>, PidView)| x.0 != topic || x.1 != pid
}

proof fn lemma_taken_back(s: Seq<(Seq<char>, PidView)>, topic: Seq<char>, pid: PidView)
    ensures
        s.filter(subscriptions::not_this(topic, pid)) == s.filter(is_another(topic, pid)),
        s.filter(subscriptions::not_of(pid)) == s.filter(|x: (Seq<char>, PidView)| x.1 != pid),
{
    seqs::lemma_filter_agree(
        s,
        subscriptions::not_this(topic, pid),
        is_another(topic, pid),
    );
    seqs::lemma_filter_agree(
        s,
        subscriptions::not_of(pid),
        |x: (Seq<char>, PidView)| x.1 != pid,
    );
}

proof fn lemma_elsewhere(members: Seq<PidView>, here: Seq<char>)
    ensures
        members.filter(subscriptions::elsewhere(here)) == members.filter(
            |p: PidView| p.node != here,
        ),
{
    seqs::lemma_filter_agree(
        members,
        subscriptions::elsewhere(here),
        |p: PidView| p.node != here,
    );
}

/// A request does what it asks for: a process of this node that subscribes has one subscription
/// more; one that takes a subscription back has none to the topic; one that takes all back has
/// none at all; and what others have, and a process of another node, is not touched. A request for
/// subscribers is answered with those of this node, and, if all are asked for, those of the other
/// nodes after them.
pub proof fn law_request_is_done(
    p: &mut PubSub,
    msg: PubSubCall,
    here: &str,
    members: Vec<Pid>,
    r: PubSubReply,
)
    requires
        call_ensures(PubSub::handle_call, (p, msg, here, members), r),
    ensures
        final(p)@.name == old(p)@.name,
        final(p)@.self_pid == old(p)@.self_pid,
        ({
            let before = old(p)@.subscriptions;
            let after = final(p)@.subscriptions;
            match msg {
                PubSubCall::Subscribe { topic, pid } => {
                    &&& r is Done
                    &&& after == if pid@.node == here@ {
                        before.push((topic@, pid@))
                    } else {
                        before
                    }
                },
                PubSubCall::Unsubscribe { topic, pid } => {
                    &&& r is Done
                    &&& if pid@.node == here@ {
                        after == before.filter(is_another(topic@, pid@))
                    } else {
                        after == before
                    }
                },
                PubSubCall::UnsubscribeAll { pid } => {
                    &&& r is Done
                    &&& after == before.filter(|x: (Seq<char>, PidView)| x.1 != pid@)
                },
                PubSubCall::GetSubscribers { topic } => {
                    &&& after == before
                    &&& r matches PubSubReply::Subscribers { pids } && table::views(pids@)
                        == subscribed(before, topic@) + table::views(members@).filter(
                        |q: PidView| q.node != here@,
                    )
                },
                PubSubCall::GetLocalSubscribers { topic } => {
                    &&& after == before
                    &&& r matches PubSubReply::Subscribers { pids } && table::views(pids@)
                        == subscribed(before, topic@)
                },
            }
        }),
{
    let before = old(p)@.subscriptions;
    match msg {
        PubSubCall::Subscribe { topic, pid } => {},
        PubSubCall::Unsubscribe { topic, pid } => {
            lemma_taken_back(before, topic@, pid@);
        },
        PubSubCall::UnsubscribeAll { pid } => {
            lemma_taken_back(before, Seq::empty(), pid@);
        },
        PubSubCall::GetSubscribers { topic } => {
            lemma_subscribed(before, topic@);
            lemma_elsewhere(table::views(members@), here@);
        },
        PubSubCall::GetLocalSubscribers { topic } => {
            lemma_subscribed(before, topic@);
        },
    }
}

/// The name of the group of a topic: that of the servers, and the topic.
pub open spec fn group_name(name: Seq<char>, topic: Seq<char>) -> Seq<char> {
    "pubsub:"@ + name + ":"@ + topic
}

/// A process of this node enters the group of a topic with its first subscription to it, leaves it
/// when it takes its subscriptions to it back, and leaves all groups when it takes all back;
/// nothing else moves anyone. The members of that group are asked for where all subscribers of the
/// topic are.
pub proof fn law_groups_follow_the_requests(
    p: &PubSub,
    msg: PubSubCall,
    here: &str,
    r: Vec<GroupChange>,
    group: Option<String>,
)
    requires
        call_ensures(PubSub::group_changes, (p, &msg, here), r),
        call_ensures(PubSub::group_of, (p, &msg), group),
    ensures
        ({
            let s = p@.subscriptions;
            match msg {
                PubSubCall::Subscribe { topic, pid } => if pid@.node == here@ && !s.contains(
                    (topic@, pid@),
                ) {
                    r@.len() == 1 && r@[0]@ == (GroupChangeView::Join {
                        group: group_name(p@.name, topic@),
                        pid: pid@,
                    })
                } else {
                    r@.len() == 0
                },
                PubSubCall::Unsubscribe { topic, pid } => if pid@.node == here@ && s.contains(
                    (topic@, pid@),
                ) {
                    r@.len() == 1 && r@[0]@ == (GroupChangeView::Leave {
                        group: group_name(p@.name, topic@),
                        pid: pid@,
                    })
                } else {
                    r@.len() == 0
                },
                PubSubCall::UnsubscribeAll { pid } => {
                    let own = s.filter(|e: (Seq<char>, PidView)| e.1 == pid@);
                    &&& r@.len() == own.len()
                    &&& forall|i: int|
                        0 <= i < r@.len() ==> (#[trigger] r@[i])@ == (GroupChangeView::Leave {
                            group: group_name(p@.name, own[i].0),
                            pid: pid@,
                        })
                },
                _ => r@.len() == 0,
            }
        }),
        match msg {
            PubSubCall::GetSubscribers { topic } => group matches Some(g) && g@ == group_name(
                p@.name,
                topic@,
            ),
            _ => group is None,
        },
{
    let s = p@.subscriptions;
    let v = table::views(r@);
    assert(v.len() == r@.len());
    if r@.len() > 0 {
        assert(v[0] == r@[0]@);
    }
    match msg {
        PubSubCall::Subscribe { topic, pid } => {
            subscriptions::lemma_members(s, topic@, pid@);
            assert(server::group_of_topic(p@, topic@) =~= group_name(p@.name, topic@));
        },
        PubSubCall::Unsubscribe { topic, pid } => {
            subscriptions::lemma_members(s, topic@, pid@);
            assert(server::group_of_topic(p@, topic@) =~= group_name(p@.name, topic@));
        },
        PubSubCall::UnsubscribeAll { pid } => {
            let own = s.filter(|e: (Seq<char>, PidView)| e.1 == pid@);
            seqs::lemma_filter_agree(
                s,
                subscriptions::is_of(pid@),
                |e: (Seq<char>, PidView)| e.1 == pid@,
            );
            assert forall|i: int| 0 <= i < r@.len() implies (#[trigger] r@[i])@ == (
            GroupChangeView::Leave { group: group_name(p@.name, own[i].0), pid: pid@ }) by {
                assert(v[i] == r@[i]@);
                assert(server::group_of_topic(p@, own[i].0) =~= group_name(p@.name, own[i].0));
            }
        },
        PubSubCall::GetSubscribers { topic } => {
            assert(server::group_of_topic(p@, topic@) =~= group_name(p@.name, topic@));
        },
        _ => {},
    }
}

/// Whether bytes that a server with a message type for each request gets from another node are
/// taken as a broadcast of the other node.
pub open spec fn is_handed_on(
    bytes: Vec<u8>,
    topic: Seq<char>,
    payload: Seq<u8>,
    exclude: Option<PidView>,
) -> bool {
    forall|turn: dispatched::Turn| #[trigger]
        call_ensures(dispatched::receive, (Some(bytes),), turn) ==> (
        turn matches dispatched::Turn::Info { tagged: Some((tag, request)), .. } && tag@
            == "ForwardBroadcast"@ && forall|
            data: &[u8],
            m: Result<ForwardBroadcast, DecodeError>,
        |
            data@ == request@ && #[trigger] call_ensures(
                ForwardBroadcast::decode_local,
                (data,),
                m,
            ) ==> (m matches Ok(f) && f@.topic == topic && f@.payload == payload && f@.exclude
                == exclude))
}

proof fn lemma_handed_on(
    bytes: Vec<u8>,
    topic: Seq<char>,
    payload: Seq<u8>,
    exclude: Option<PidView>,
)
    requires
        bytes@ == message::tagged(
            "ForwardBroadcast"@,
            ForwardBroadcast::payload((ForwardBroadcastView { topic, payload, exclude })),
        ),
    ensures
        is_handed_on(bytes, topic, payload, exclude),
{
    let v = ForwardBroadcastView { topic, payload, exclude };
    let body = ForwardBroadcast::payload(v);
    let name = wire::postcard_str(topic);
    let data = wire::postcard_bytes(payload);
    let who = codec::pid_option_wire(exclude);
    let none = Seq::<u8>::empty();
    assert(bytes@.len() == bytes.len());
    server::law_forwarded_broadcast_is_taken(v);
    assert(body.len() <= bytes@.len());
    assert(encode_utf8(topic).len() <= usize::MAX) by {
        reveal(wire::postcard_str);
    }
    assert(payload.len() <= usize::MAX) by {
        reveal(wire::postcard_bytes);
    }
    match exclude {
        Some(pid) => {
            assert(encode_utf8(pid.node).len() <= usize::MAX) by {
                reveal(wire::postcard_str);
            }
        },
        None => {},
    }
    assert(body =~= name + (data + (who + none)));
    wire::law_str_reads_back(topic, data + (who + none));
    wire::law_bytes_reads_back(payload, who + none);
    codec::law_pid_option_reads_back(exclude);
    assert(codec::pid_option_read(who + none) == Some((exclude, none)));
    assert(ForwardBroadcast::unpacked(body) == Some(v));
}

/// The same of a broadcast to a server with a message type for each request.
pub proof fn law_typed_broadcast_is_sent(
    p: &server::PubSub,
    msg: &Broadcast,
    members: &Vec<Pid>,
    here: &str,
    r: Vec<(Pid, Vec<u8>)>,
)
    requires
        call_ensures(server::PubSub::handle_broadcast, (p, msg, members, here), r),
    ensures
        ({
            let local = reached(p@.subscriptions, msg.topic@, pid_option(msg.exclude));
            let remote = peers(table::views(members@), here@, p@.self_pid);
            &&& r@.len() == local.len() + remote.len()
            &&& sent_to(r@, 0, local, msg.payload@)
            &&& forall|i: int|
                0 <= i < remote.len() ==> (#[trigger] r@[local.len() + i]).0@ == remote[i]
                    && is_handed_on(
                    r@[local.len() + i].1,
                    msg.topic@,
                    msg.payload@,
                    pid_option(msg.exclude),
                )
        }),
{
    let x = pid_option(msg.exclude);
    let local = reached(p@.subscriptions, msg.topic@, x);
    let remote = peers(table::views(members@), here@, p@.self_pid);
    let bytes = message::tagged(
        "ForwardBroadcast"@,
        ForwardBroadcast::payload(
            (ForwardBroadcastView { topic: msg.topic@, payload: msg.payload@, exclude: x }),
        ),
    );
    lemma_reached(p@.subscriptions, msg.topic@, x);
    lemma_peers(table::views(members@), here@, p@.self_pid);
    lemma_sent(r@, local, msg.payload@, remote, bytes);
    assert forall|i: int| 0 <= i < remote.len() implies (#[trigger] r@[local.len() + i]).0@
        == remote[i] && is_handed_on(r@[local.len() + i].1, msg.topic@, msg.payload@, x) by {
        lemma_handed_on(r@[local.len() + i].1, msg.topic@, msg.payload@, x);
    }
}

/// The same of a broadcast on this node, and of one that another node handed on.
pub proof fn law_typed_local_broadcast_is_sent(
    p: &server::PubSub,
    msg: &LocalBroadcast,
    other: &ForwardBroadcast,
    local: Vec<(Pid, Vec<u8>)>,
    handed_on: Vec<(Pid, Vec<u8>)>,
)
    requires
        call_ensures(server::PubSub::handle_local_broadcast, (p, msg), local),
        call_ensures(server::PubSub::handle_forward_broadcast, (p, other), handed_on),
    ensures
        ({
            let to = reached(p@.subscriptions, msg.topic@, pid_option(msg.exclude));
            local@.len() == to.len() && sent_to(local@, 0, to, msg.payload@)
        }),
        ({
            let to = reached(p@.subscriptions, other.topic@, pid_option(other.exclude));
            handed_on@.len() == to.len() && sent_to(handed_on@, 0, to, other.payload@)
        }),
{
    let to = reached(p@.subscriptions, msg.topic@, pid_option(msg.exclude));
    lemma_reached(p@.subscriptions, msg.topic@, pid_option(msg.exclude));
    lemma_sent_once(local@, to, msg.payload@);
    let too = reached(p@.subscriptions, other.topic@, pid_option(other.exclude));
    lemma_reached(p@.subscriptions, other.topic@, pid_option(other.exclude));
    lemma_sent_once(handed_on@, too, other.payload@);
}

/// The same of subscribing and taking back, where each request has a type.
pub proof fn law_typed_requests_are_done(
    p: &mut server::PubSub,
    q: &mut server::PubSub,
    o: &mut server::PubSub,
    here: &str,
    join: Subscribe,
    back: &Unsubscribe,
    all: &UnsubscribeAll,
)
    requires
        call_ensures(server::PubSub::handle_subscribe, (p, join, here), ()),
        call_ensures(server::PubSub::handle_unsubscribe, (q, back, here), ()),
        call_ensures(server::PubSub::handle_unsubscribe_all, (o, all), ()),
    ensures
        final(p)@.subscriptions == if join.pid@.node == here@ {
            old(p)@.subscriptions.push((join.topic@, join.pid@))
        } else {
            old(p)@.subscriptions
        },
        if back.pid@.node == here@ {
            final(q)@.subscriptions == old(q)@.subscriptions.filter(
                is_another(back.topic@, back.pid@),
            )
        } else {
            final(q)@.subscriptions == old(q)@.subscriptions
        },
        final(o)@.subscriptions == old(o)@.subscriptions.filter(
            |x: (Seq<char>, PidView)| x.1 != all.pid@,
        ),
        final(p)@.name == old(p)@.name && final(p)@.self_pid == old(p)@.self_pid,
        final(q)@.name == old(q)@.name && final(q)@.self_pid == old(q)@.self_pid,
        final(o)@.name == old(o)@.name && final(o)@.self_pid == old(o)@.self_pid,
{
    lemma_taken_back(old(q)@.subscriptions, back.topic@, back.pid@);
    lemma_taken_back(old(o)@.subscriptions, Seq::empty(), all.pid@);
}

/// The same of asking for subscribers, where each request has a type.
pub proof fn law_typed_subscribers_are_found(
    p: &server::PubSub,
    all: &GetSubscribers,
    local: &GetLocalSubscribers,
    members: &Vec<Pid>,
    here: &str,
    found: Subscribers,
    near: Subscribers,
)
    requires
        call_ensures(server::PubSub::handle_get_subscribers, (p, all, members, here), found),
        call_ensures(server::PubSub::handle_get_local_subscribers, (p, local), near),
    ensures
        table::views(found.pids@) == subscribed(p@.subscriptions, all.topic@) + table::views(
            members@,
        ).filter(|q: PidView| q.node != here@),
        table::views(near.pids@) == subscribed(p@.subscriptions, local.topic@),
{
    lemma_subscribed(p@.subscriptions, all.topic@);
    lemma_subscribed(p@.subscriptions, local.topic@);
    lemma_elsewhere(table::views(members@), here@);
}

} // verus!
