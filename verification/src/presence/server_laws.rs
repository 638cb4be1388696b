//! What a presence server promises: who is seen where, who is told, and what the other servers
//! hold in the end.

use vstd::prelude::*;

use crate::message;
use crate::message::Message;
use crate::piece;
use crate::piece::Dict;
use crate::presence::convert;
use crate::presence::crdt;
use crate::presence::crdt::{DeltaView, EntryView, PresenceCrdt, TagView};
use crate::presence::laws;
use crate::presence::server;
use crate::presence::server::{Effects, Presence, PresenceConfig, Start, Surroundings};
use crate::presence::types;
use crate::presence::types::{
    PresenceCall, PresenceCast, PresenceDiff, PresenceInfo, PresenceInfoView, PresenceMessage,
    PresenceMessageView, PresenceMetaView, PresenceReply, PresenceState, PresenceStateView,
    SharedDelta,
};
use crate::process::{Pid, PidView};
use crate::seqs;
use crate::table;
use crate::text;

verus! {

/// The entries that a server holds under a key.
pub open spec fn held(p: &Presence, topic: Seq<char>, key: Seq<char>) -> Seq<EntryView> {
    if p.replica().values().contains_key((topic, key)) {
        p.replica().values()[(topic, key)]
    } else {
        Seq::empty()
    }
}

/// Whether a server counts a node as up.
pub open spec fn counts_as_up(p: &Presence, node: Seq<char>) -> bool {
    !(p.replica().status().contains_key(node) && p.replica().status()[node] is Down)
}

/// The entries that a server shows under a key: those of the nodes that count as up.
pub open spec fn seen_under(p: &Presence, topic: Seq<char>, key: Seq<char>) -> Seq<EntryView> {
    held(p, topic, key).filter(|e: EntryView| counts_as_up(p, e.tag.replica))
}

/// Whether a server has told the others of all its changes, and holds no entry with a tag of its
/// own that it has not given yet.
pub open spec fn settled(p: &Presence) -> bool {
    &&& p.replica().pending().joins.len() == 0
    &&& p.replica().pending().leave_tags.len() == 0
    &&& forall|t: Seq<char>, k: Seq<char>, j: int|
        0 <= j < held(p, t, k).len() && (#[trigger] held(p, t, k)[j]).tag.replica
            == p.replica().name() ==> held(p, t, k)[j].tag.clock <= p.replica().ticks()
}

/// Whether a server has neither seen a tag nor holds an entry with it.
pub open spec fn is_new_to(p: &Presence, tag: TagView) -> bool {
    &&& !p.replica().seen().contains_key(tag.replica) || p.replica().seen()[tag.replica] < tag.clock
    &&& forall|t: Seq<char>, k: Seq<char>, j: int|
        0 <= j < held(p, t, k).len() ==> (#[trigger] held(p, t, k)[j]).tag != tag
}

/// The entries of some that are not of a process.
pub open spec fn of_others(s: Seq<EntryView>, pid: PidView) -> Seq<EntryView> {
    s.filter(|e: EntryView| e.pid != pid)
}

/// Whether a message goes to every presence server of another node, and only there.
pub open spec fn goes_to_the_others(to: Seq<Pid>, at: Surroundings) -> bool {
    table::views(to) == table::views(at.members@).filter(
        |p: PidView| p != at.current@ && p.node != at.here@,
    )
}

/// The entry with the next tag of a server.
pub open spec fn next_entry(
    p: &Presence,
    topic: Seq<char>,
    key: Seq<char>,
    pid: PidView,
    meta: Seq<u8>,
) -> EntryView {
    EntryView {
        topic,
        pid,
        key,
        meta,
        tag: TagView { replica: p.replica().name(), clock: (p.replica().ticks() + 1) as u64 },
    }
}

/// Whether an entry has come to stand last under its key, after `stay`, and all else is held and
/// counts as up as before.
pub open spec fn took_its_place(
    before: &Presence,
    after: &Presence,
    e: EntryView,
    stay: Seq<EntryView>,
) -> bool {
    &&& held(after, e.topic, e.key) == stay.push(e)
    &&& after.replica().status() == before.replica().status()
    &&& after.replica().name() == before.replica().name()
    &&& after.replica().ticks() == before.replica().ticks() + 1
    &&& after.replica().seen() == before.replica().seen().insert(e.tag.replica, e.tag.clock)
    &&& forall|t: Seq<char>, k: Seq<char>|
        (t, k) != (e.topic, e.key) ==> #[trigger] held(after, t, k) == held(before, t, k)
}

/// Whether the subscribers of a topic, and only they, are told of an entry that joined under its
/// key, and of nothing else.
pub open spec fn told_of_join(
    b: Seq<(String, PresenceMessage)>,
    e: EntryView,
    prev: Option<TagView>,
    now: u64,
) -> bool {
    b.len() == 1 && b[0].0@ == "presence:"@ + e.topic && match b[0].1@ {
        PresenceMessageView::Delta { topic, diff } => {
            &&& topic == e.topic
            &&& diff.leaves.len() == 0
            &&& diff.joins.len() == 1
            &&& diff.joins[0].0 == e.key
            &&& diff.joins[0].1.metas.len() == 1
            &&& diff.joins[0].1.metas[0].pid == e.pid
            &&& diff.joins[0].1.metas[0].meta == e.meta
            &&& diff.joins[0].1.metas[0].updated_at == now
            &&& diff.joins[0].1.metas[0].phx_ref == reference(e.tag)
            &&& diff.joins[0].1.metas[0].phx_ref_prev == (match prev {
                Some(tag) => Some(reference(tag)),
                None => None,
            })
        },
        _ => false,
    }
}

/// How clients name an entry: the node, a colon and the clock.
pub open spec fn reference(tag: TagView) -> Seq<char> {
    tag.replica + ":"@ + text::decimal(tag.clock as nat)
}

/// Whether one message goes to the other servers, with the changes that an entry joined and the
/// entries with some tags left.
pub open spec fn told_the_others(
    sends: Seq<(Vec<Pid>, PresenceInfo)>,
    at: Surroundings,
    topic: Seq<char>,
    joins: Seq<EntryView>,
    gone: Seq<EntryView>,
) -> bool {
    sends.len() == 1 && goes_to_the_others(sends[0].0@, at) && match sends[0].1 {
        PresenceInfo::CrdtDelta { topic: t, delta } => {
            &&& t@ == topic
            &&& delta@.joins == joins
            &&& delta@.leave_tags.len() == gone.len()
            &&& forall|i: int|
                0 <= i < gone.len() ==> #[trigger] delta@.leave_tags[i] == gone[i].tag
        },
        _ => false,
    }
}

proof fn lemma_peers(at: Surroundings)
    ensures
        at.peers() == table::views(at.members@).filter(
            |p: PidView| p != at.current@ && p.node != at.here@,
        ),
{
    seqs::lemma_filter_agree(
        table::views(at.members@),
        |p: PidView| p != at.current@ && p.node != at.here@,
        crate::pubsub::subscriptions::is_remote(at.here@, Some(at.current@)),
    );
}

proof fn lemma_told_the_others(
    sends: Seq<(Vec<Pid>, PresenceInfo)>,
    at: Surroundings,
    topic: Seq<char>,
    d: DeltaView,
    gone: Seq<EntryView>,
)
    requires
        server::mail(sends) == server::shared_with(topic, d, at.peers()),
        d.joins.len() > 0 || d.leave_tags.len() > 0,
        d.leave_tags == crdt::tags_of(gone),
    ensures
        told_the_others(sends, at, topic, d.joins, gone),
        sends[0].1 matches PresenceInfo::CrdtDelta { delta, .. } && types::unshared(delta@) == d,
{
    lemma_peers(at);
    let m = server::mail(sends);
    assert(m.len() == 1);
    assert(m[0] == (table::views(sends[0].0@), server::notice(sends[0].1@)));
}

proof fn lemma_told_of_join(
    b: Seq<(String, PresenceMessage)>,
    e: EntryView,
    prev: Option<TagView>,
    now: u64,
)
    requires
        server::news(b) == server::announced(
            e.topic,
            server::join_diff(
                e.key,
                e.tag,
                match prev {
                    Some(tag) => Some(convert::ref_of(tag)),
                    None => None,
                },
                e.pid,
                e.meta,
                now,
            ),
        ),
    ensures
        told_of_join(b, e, prev, now),
{
    let n = server::news(b);
    assert(n.len() == 1);
    assert(n[0] == (b[0].0@, b[0].1@));
}

/// The first of some entries' tags.
pub open spec fn first_tag(s: Seq<EntryView>) -> Option<TagView> {
    if s.len() == 0 {
        None
    } else {
        Some(s[0].tag)
    }
}

/// The entries of some that are of a process.
pub open spec fn own_of(s: Seq<EntryView>, pid: PidView) -> Seq<EntryView> {
    s.filter(|e: EntryView| e.pid == pid)
}

/// Whether a server has replaced the metadata of a process under a key, and has told whom it
/// should.
pub open spec fn updated(
    before: &Presence,
    after: &Presence,
    topic: Seq<char>,
    key: Seq<char>,
    pid: PidView,
    meta: Seq<u8>,
    at: Surroundings,
    reply: PresenceReply,
    effects: Effects,
) -> bool {
    let e = next_entry(before, topic, key, pid, meta);
    let gone = own_of(held(before, topic, key), pid);
    &&& took_its_place(before, after, e, of_others(held(before, topic, key), pid))
    &&& told_of_join(effects.broadcasts@, e, first_tag(gone), at.now)
    &&& told_the_others(effects.sends@, at, topic, seq![e], gone)
    &&& reply matches PresenceReply::Done { phx_ref } && match phx_ref {
        Some(x) => gone.len() > 0 && x@ == reference(e.tag),
        None => gone.len() == 0,
    }
    &&& settled(after)
}

/// Whether a server has begun to track a process under a key, and has told whom it should.
pub open spec fn joined(
    before: &Presence,
    after: &Presence,
    topic: Seq<char>,
    key: Seq<char>,
    pid: PidView,
    meta: Seq<u8>,
    at: Surroundings,
    reply: PresenceReply,
    effects: Effects,
) -> bool {
    let e = next_entry(before, topic, key, pid, meta);
    &&& took_its_place(before, after, e, held(before, topic, key))
    &&& told_of_join(effects.broadcasts@, e, None, at.now)
    &&& told_the_others(effects.sends@, at, topic, seq![e], Seq::empty())
    &&& reply matches PresenceReply::Done { phx_ref: Some(x) } && x@ == reference(e.tag)
    &&& settled(after)
}

proof fn lemma_settled_after(before: &Presence, after: &Presence, e: EntryView, stay: Seq<EntryView>)
    requires
        settled(before),
        e.tag.replica == before.replica().name(),
        e.tag.clock == before.replica().ticks() + 1,
        took_its_place(before, after, e, stay),
        forall|x: EntryView| #[trigger]
            stay.contains(x) ==> held(before, e.topic, e.key).contains(x),
        after.replica().pending().joins.len() == 0,
        after.replica().pending().leave_tags.len() == 0,
    ensures
        settled(after),
{
    assert forall|t: Seq<char>, k: Seq<char>, j: int|
        0 <= j < held(after, t, k).len() && (#[trigger] held(after, t, k)[j]).tag.replica
            == after.replica().name() implies held(after, t, k)[j].tag.clock
        <= after.replica().ticks() by {
        if (t, k) == (e.topic, e.key) {
            if j < stay.len() {
                assert(stay.contains(stay[j]));
                let i = choose|i: int|
                    0 <= i < held(before, t, k).len() && held(before, t, k)[i] == stay[j];
                assert(held(before, t, k)[i].tag.clock <= before.replica().ticks());
            }
        } else {
            assert(held(before, t, k)[j] == held(after, t, k)[j]);
        }
    }
}

proof fn lemma_updated(
    before: &Presence,
    after: &Presence,
    topic: Seq<char>,
    key: Seq<char>,
    pid: PidView,
    meta: Seq<u8>,
    at: Surroundings,
    reply: PresenceReply,
    effects: Effects,
)
    requires
        before.wf(),
        settled(before),
        before.state().ticks < u64::MAX,
        server::update_done(
            before.state(),
            topic,
            key,
            pid,
            meta,
            at,
            after.state(),
            reply@,
            effects,
        ),
    ensures
        updated(before, after, topic, key, pid, meta, at, reply, effects),
        effects.sends@[0].1 matches PresenceInfo::CrdtDelta { delta, .. } && types::unshared(
            delta@,
        ).context == after.replica().seen(),
{
    let s = before.state();
    let e = next_entry(before, topic, key, pid, meta);
    let here = held(before, topic, key);
    let stay = of_others(here, pid);
    let gone = own_of(here, pid);
    let u = server::after_untrack(s, topic, key, pid);
    assert(crdt::at(u.values, topic, key) =~= stay);
    let w = server::after_track(u, topic, key, pid, meta);
    assert forall|t: Seq<char>, k: Seq<char>|
        (t, k) != (topic, key) implies #[trigger] held(after, t, k) == held(before, t, k) by {
        assert(after.replica().values() == w.values);
    }
    assert(w.pending.joins =~= seq![e]);
    assert(w.pending.leave_tags =~= crdt::tags_of(gone));
    assert forall|x: EntryView| #[trigger] stay.contains(x) implies here.contains(x) by {
        here.lemma_filter_contains_rev(|e: EntryView| e.pid != pid, x);
    }
    lemma_settled_after(before, after, e, stay);
    lemma_told_of_join(effects.broadcasts@, e, first_tag(gone), at.now);
    lemma_told_the_others(effects.sends@, at, topic, w.pending, gone);
}

proof fn lemma_tracked(
    before: &Presence,
    after: &Presence,
    topic: Seq<char>,
    key: Seq<char>,
    pid: PidView,
    meta: Seq<u8>,
    at: Surroundings,
    reply: PresenceReply,
    effects: Effects,
)
    requires
        before.wf(),
        settled(before),
        before.state().ticks < u64::MAX,
        server::track_done(
            before.state(),
            topic,
            key,
            pid,
            meta,
            at,
            after.state(),
            reply@,
            effects,
        ),
    ensures
        joined(before, after, topic, key, pid, meta, at, reply, effects),
{
    let s = before.state();
    let e = next_entry(before, topic, key, pid, meta);
    let here = held(before, topic, key);
    let none = Seq::<EntryView>::empty();
    let w = server::after_track(s, topic, key, pid, meta);
    assert forall|t: Seq<char>, k: Seq<char>|
        (t, k) != (topic, key) implies #[trigger] held(after, t, k) == held(before, t, k) by {
        assert(after.replica().values() == w.values);
    }
    assert(w.pending.joins =~= seq![e]);
    assert(w.pending.leave_tags =~= crdt::tags_of(none));
    lemma_settled_after(before, after, e, here);
    lemma_told_of_join(effects.broadcasts@, e, None, at.now);
    lemma_told_the_others(effects.sends@, at, topic, w.pending, none);
}

/// An entry that took its place is seen last under its key, after those of the entries that stay
/// and were seen before, where its node counts as up.
proof fn lemma_seen(before: &Presence, after: &Presence, e: EntryView, stay: Seq<EntryView>)
    requires
        counts_as_up(before, e.tag.replica),
        took_its_place(before, after, e, stay),
    ensures
        seen_under(after, e.topic, e.key) == stay.filter(
            |x: EntryView| counts_as_up(before, x.tag.replica),
        ).push(e),
        forall|t: Seq<char>, k: Seq<char>|
            (t, k) != (e.topic, e.key) ==> #[trigger] seen_under(after, t, k) == seen_under(
                before,
                t,
                k,
            ),
{
    let up = |x: EntryView| counts_as_up(before, x.tag.replica);
    stay.lemma_filter_push(e, up);
    seqs::lemma_filter_agree(
        stay.push(e),
        up,
        |x: EntryView| counts_as_up(after, x.tag.replica),
    );
    assert forall|t: Seq<char>, k: Seq<char>|
        (t, k) != (e.topic, e.key) implies #[trigger] seen_under(after, t, k) == seen_under(
        before,
        t,
        k,
    ) by {
        seqs::lemma_filter_agree(
            held(before, t, k),
            up,
            |x: EntryView| counts_as_up(after, x.tag.replica),
        );
    }
}

proof fn lemma_others_seen(before: &Presence, topic: Seq<char>, key: Seq<char>, pid: PidView)
    ensures
        of_others(held(before, topic, key), pid).filter(
            |x: EntryView| counts_as_up(before, x.tag.replica),
        ) == of_others(seen_under(before, topic, key), pid),
{
    let here = held(before, topic, key);
    let up = |x: EntryView| counts_as_up(before, x.tag.replica);
    let other = |e: EntryView| e.pid != pid;
    seqs::lemma_filter_filter(here, other, up);
    seqs::lemma_filter_filter(here, up, other);
    seqs::lemma_filter_agree(
        here,
        |e: EntryView| other(e) && up(e),
        |e: EntryView| up(e) && other(e),
    );
}

/// What a server holds once it took in changes by which one entry joins that is new to it, and
/// which others leave: under the key of the entry, the entry last.
proof fn lemma_taken_in(s: server::ReplicaView, d: DeltaView, e: EntryView)
    requires
        d.joins == seq![e],
        !d.leave_tags.contains(e.tag),
        !crdt::dominated(s.seen, e.tag),
        forall|j: int|
            0 <= j < crdt::at(s.values, e.topic, e.key).len() ==> (#[trigger] crdt::at(
                s.values,
                e.topic,
                e.key,
            )[j]).tag != e.tag,
    ensures
        forall|t: Seq<char>, k: Seq<char>| #[trigger]
            crdt::at(crdt::merged_values(s.values, s.seen, d), t, k) == {
                let stay = crdt::at(s.values, t, k).filter(
                    |x: EntryView| !d.leave_tags.contains(x.tag),
                );
                if (t, k) == (e.topic, e.key) {
                    stay.push(e)
                } else {
                    stay
                }
            },
{
    let tags = d.leave_tags;
    let w = crdt::after_leaves(s.values, tags);
    let none = Seq::<EntryView>::empty();
    crdt::lemma_without_at(s.values, crdt::tagged(tags));
    assert(d.joins =~= none.push(e));
    none.lemma_filter_push(e, crdt::untagged(tags));
    assert(none.filter(crdt::untagged(tags)) =~= none) by {
        reveal(Seq::filter);
    }
    let a = crdt::arriving(d);
    assert(a =~= seq![e]);
    assert(a.drop_last() =~= none);
    assert(a.last() == e);
    let here = crdt::at(s.values, e.topic, e.key);
    assert(!crdt::has_tag(crdt::at(w, e.topic, e.key), e.tag)) by {
        let p = |x: EntryView| !crdt::tagged(tags)(x);
        let left = here.filter(p);
        if crdt::has_tag(left, e.tag) {
            let j = choose|j: int| 0 <= j < left.len() && (#[trigger] left[j]).tag == e.tag;
            here.lemma_filter_contains_rev(p, left[j]);
        }
    }
    assert(crdt::after_joins(s.seen, w, none) == w);
    assert(crdt::merged_values(s.values, s.seen, d) == crdt::added(w, e));
    assert forall|t: Seq<char>, k: Seq<char>| #[trigger]
        crdt::at(crdt::merged_values(s.values, s.seen, d), t, k) == {
            let stay = crdt::at(s.values, t, k).filter(
                |x: EntryView| !d.leave_tags.contains(x.tag),
            );
            if (t, k) == (e.topic, e.key) {
                stay.push(e)
            } else {
                stay
            }
        } by {
        seqs::lemma_filter_agree(
            crdt::at(s.values, t, k),
            |x: EntryView| !tags.contains(x.tag),
            |x: EntryView| !crdt::tagged(tags)(x),
        );
        assert(crdt::at(w, t, k) == crdt::at(s.values, t, k).filter(
            |x: EntryView| !crdt::tagged(tags)(x),
        ));
    }
}

/// Whether a server holds what another that told it has changed: an entry that is new to it stands
/// last under its key, and the entries that it replaced are gone.
pub open spec fn followed(
    peer: &Presence,
    after: &Presence,
    e: EntryView,
    gone: Seq<EntryView>,
) -> bool {
    forall|t: Seq<char>, k: Seq<char>| #[trigger]
        held(after, t, k) == {
            let stay = held(peer, t, k).filter(
                |x: EntryView| forall|i: int| 0 <= i < gone.len() ==> (#[trigger] gone[i]).tag != x.tag,
            );
            if (t, k) == (e.topic, e.key) {
                stay.push(e)
            } else {
                stay
            }
        }
}

proof fn lemma_followed(
    peer: &Presence,
    after: &Presence,
    d: DeltaView,
    e: EntryView,
    gone: Seq<EntryView>,
)
    requires
        after.state() == server::merged(peer.state(), d),
        d.joins == seq![e],
        d.leave_tags.len() == gone.len(),
        forall|i: int| 0 <= i < gone.len() ==> #[trigger] d.leave_tags[i] == gone[i].tag,
        forall|i: int| 0 <= i < gone.len() ==> (#[trigger] gone[i]).tag != e.tag,
        is_new_to(peer, e.tag),
    ensures
        followed(peer, after, e, gone),
{
    let s = peer.state();
    assert(held(peer, e.topic, e.key) == crdt::at(s.values, e.topic, e.key));
    lemma_taken_in(s, d, e);
    assert forall|t: Seq<char>, k: Seq<char>| #[trigger]
        held(after, t, k) == {
            let stay = held(peer, t, k).filter(
                |x: EntryView| forall|i: int| 0 <= i < gone.len() ==> (#[trigger] gone[i]).tag != x.tag,
            );
            if (t, k) == (e.topic, e.key) {
                stay.push(e)
            } else {
                stay
            }
        } by {
        assert(held(after, t, k) == crdt::at(crdt::merged_values(s.values, s.seen, d), t, k));
        let p = |x: EntryView| !d.leave_tags.contains(x.tag);
        let q = |x: EntryView|
            forall|i: int| 0 <= i < gone.len() ==> (#[trigger] gone[i]).tag != x.tag;
        let here = held(peer, t, k);
        assert forall|j: int| 0 <= j < here.len() implies p(#[trigger] here[j]) == q(here[j]) by {
            if p(here[j]) {
                assert forall|i: int| 0 <= i < gone.len() implies (#[trigger] gone[i]).tag
                    != here[j].tag by {
                    assert(d.leave_tags[i] == gone[i].tag);
                }
            }
            if q(here[j]) && d.leave_tags.contains(here[j].tag) {
                let i = choose|i: int|
                    0 <= i < d.leave_tags.len() && d.leave_tags[i] == here[j].tag;
                assert(gone[i].tag != here[j].tag);
            }
        }
        seqs::lemma_filter_agree(here, p, q);
    }
}

proof fn lemma_gone_is_older(p: &Presence, topic: Seq<char>, key: Seq<char>, pid: PidView)
    requires
        settled(p),
        p.replica().ticks() < u64::MAX,
    ensures
        forall|i: int|
            0 <= i < own_of(held(p, topic, key), pid).len() ==> (#[trigger] own_of(
                held(p, topic, key),
                pid,
            )[i]).tag != (TagView {
                replica: p.replica().name(),
                clock: (p.replica().ticks() + 1) as u64,
            }),
{
    let here = held(p, topic, key);
    let gone = own_of(here, pid);
    assert forall|i: int| 0 <= i < gone.len() implies (#[trigger] gone[i]).tag != (TagView {
        replica: p.replica().name(),
        clock: (p.replica().ticks() + 1) as u64,
    }) by {
        here.lemma_filter_contains_rev(|e: EntryView| e.pid == pid, gone[i]);
        let j = choose|j: int| 0 <= j < here.len() && here[j] == gone[i];
        assert(held(p, topic, key)[j].tag == gone[i].tag);
    }
}

/// An update replaces what a process has under a key, and nothing else: on a node that counts as
/// up, the entries that are seen there are those of the other processes, and one of this process
/// with the new metadata. The subscribers are told of it, and a server that takes in what it is
/// sent holds the entry with the new metadata too, in place of the ones before.
pub proof fn law_update_is_done(
    p: &mut Presence,
    topic: &str,
    key: &str,
    pid: &Pid,
    meta: Vec<u8>,
    at: &Surroundings,
    r: (PresenceReply, Effects),
    peer: &mut Presence,
)
    requires
        old(p).wf(),
        settled(old(p)),
        old(p).state().ticks < u64::MAX,
        old(peer).wf(),
        call_ensures(Presence::handle_update, (p, topic, key, pid, meta, at), r),
        r.1.sends@[0].1 matches PresenceInfo::CrdtDelta { delta, .. } ==> call_ensures(
            Presence::handle_crdt_delta,
            (peer, delta),
            (),
        ),
    ensures
        updated(old(p), final(p), topic@, key@, pid@, meta@, *at, r.0, r.1),
        counts_as_up(old(p), old(p).replica().name()) ==> seen_under(final(p), topic@, key@)
            == of_others(seen_under(old(p), topic@, key@), pid@).push(
            next_entry(old(p), topic@, key@, pid@, meta@),
        ),
        ({
            let e = next_entry(old(p), topic@, key@, pid@, meta@);
            is_new_to(old(peer), e.tag) ==> followed(
                old(peer),
                final(peer),
                e,
                own_of(held(old(p), topic@, key@), pid@),
            )
        }),
{
    let e = next_entry(old(p), topic@, key@, pid@, meta@);
    let gone = own_of(held(old(p), topic@, key@), pid@);
    lemma_updated(old(p), final(p), topic@, key@, pid@, meta@, *at, r.0, r.1);
    lemma_gone_is_older(old(p), topic@, key@, pid@);
    if counts_as_up(old(p), old(p).replica().name()) {
        lemma_seen(old(p), final(p), e, of_others(held(old(p), topic@, key@), pid@));
        lemma_others_seen(old(p), topic@, key@, pid@);
    }
    match r.1.sends@[0].1 {
        PresenceInfo::CrdtDelta { delta, .. } => {
            if is_new_to(old(peer), e.tag) {
                lemma_followed(old(peer), final(peer), types::unshared(delta@), e, gone);
            }
        },
        _ => {},
    }
}

/// A process that is tracked is seen under its key with its metadata, after all that was seen
/// there before, where the node counts as up; the subscribers and the other servers are told of it
/// as of an update.
pub proof fn law_track_is_done(
    p: &mut Presence,
    topic: &str,
    key: &str,
    pid: &Pid,
    meta: Vec<u8>,
    at: &Surroundings,
    r: (PresenceReply, Effects),
    peer: &mut Presence,
)
    requires
        old(p).wf(),
        settled(old(p)),
        old(p).state().ticks < u64::MAX,
        old(peer).wf(),
        call_ensures(Presence::handle_track, (p, topic, key, pid, meta, at), r),
        r.1.sends@[0].1 matches PresenceInfo::CrdtDelta { delta, .. } ==> call_ensures(
            Presence::handle_crdt_delta,
            (peer, delta),
            (),
        ),
    ensures
        joined(old(p), final(p), topic@, key@, pid@, meta@, *at, r.0, r.1),
        counts_as_up(old(p), old(p).replica().name()) ==> seen_under(final(p), topic@, key@)
            == seen_under(old(p), topic@, key@).push(
            next_entry(old(p), topic@, key@, pid@, meta@),
        ),
        ({
            let e = next_entry(old(p), topic@, key@, pid@, meta@);
            is_new_to(old(peer), e.tag) ==> followed(old(peer), final(peer), e, Seq::empty())
        }),
{
    let e = next_entry(old(p), topic@, key@, pid@, meta@);
    lemma_tracked(old(p), final(p), topic@, key@, pid@, meta@, *at, r.0, r.1);
    if counts_as_up(old(p), old(p).replica().name()) {
        lemma_seen(old(p), final(p), e, held(old(p), topic@, key@));
    }
    match r.1.sends@[0].1 {
        PresenceInfo::CrdtDelta { delta, .. } => {
            if is_new_to(old(peer), e.tag) {
                lemma_followed(old(peer), final(peer), types::unshared(delta@), e, Seq::empty());
            }
        },
        _ => {},
    }
}

/// Whether the subscribers of a topic are told that some entries of a process left under a key.
pub open spec fn told_of_leave(
    b: Seq<(String, PresenceMessage)>,
    topic: Seq<char>,
    key: Seq<char>,
    pid: PidView,
    gone: Seq<EntryView>,
) -> bool {
    b.len() == 1 && b[0].0@ == "presence:"@ + topic && match b[0].1@ {
        PresenceMessageView::Delta { topic: t, diff } => {
            &&& t == topic
            &&& diff.joins.len() == 0
            &&& diff.leaves.len() == 1
            &&& diff.leaves[0].0 == key
            &&& diff.leaves[0].1.metas.len() == gone.len()
            &&& forall|i: int|
                0 <= i < gone.len() ==> (#[trigger] diff.leaves[0].1.metas[i]).phx_ref == reference(
                    gone[i].tag,
                ) && diff.leaves[0].1.metas[i].pid == pid
        },
        _ => false,
    }
}

/// Whether two servers hold the same, but for the entries.
pub open spec fn same_but_entries(before: &Presence, after: &Presence) -> bool {
    &&& after.replica().status() == before.replica().status()
    &&& after.replica().name() == before.replica().name()
    &&& after.replica().ticks() == before.replica().ticks()
    &&& after.replica().seen() == before.replica().seen()
}

/// Whether a server no longer tracks a process under a key, and has told whom it should.
pub open spec fn untracked(
    before: &Presence,
    after: &Presence,
    topic: Seq<char>,
    key: Seq<char>,
    pid: PidView,
    at: Surroundings,
    reply: PresenceReply,
    effects: Effects,
) -> bool {
    let gone = own_of(held(before, topic, key), pid);
    &&& held(after, topic, key) == of_others(held(before, topic, key), pid)
    &&& same_but_entries(before, after)
    &&& forall|t: Seq<char>, k: Seq<char>|
        (t, k) != (topic, key) ==> #[trigger] held(after, t, k) == held(before, t, k)
    &&& reply == (PresenceReply::Done { phx_ref: None })
    &&& if gone.len() == 0 {
        effects.broadcasts@.len() == 0 && effects.sends@.len() == 0
    } else {
        &&& told_of_leave(effects.broadcasts@, topic, key, pid, gone)
        &&& told_the_others(effects.sends@, at, topic, Seq::empty(), gone)
    }
    &&& settled(after)
}

proof fn lemma_settled_fewer(before: &Presence, after: &Presence)
    requires
        settled(before),
        same_but_entries(before, after),
        forall|t: Seq<char>, k: Seq<char>, x: EntryView| #[trigger]
            held(after, t, k).contains(x) ==> held(before, t, k).contains(x),
        after.replica().pending().joins.len() == 0,
        after.replica().pending().leave_tags.len() == 0,
    ensures
        settled(after),
{
    assert forall|t: Seq<char>, k: Seq<char>, j: int|
        0 <= j < held(after, t, k).len() && (#[trigger] held(after, t, k)[j]).tag.replica
            == after.replica().name() implies held(after, t, k)[j].tag.clock
        <= after.replica().ticks() by {
        let x = held(after, t, k)[j];
        assert(held(after, t, k).contains(x));
        let i = choose|i: int| 0 <= i < held(before, t, k).len() && held(before, t, k)[i] == x;
        assert(held(before, t, k)[i].tag.clock <= before.replica().ticks());
    }
}

proof fn lemma_untracked(
    before: &Presence,
    after: &Presence,
    topic: Seq<char>,
    key: Seq<char>,
    pid: PidView,
    at: Surroundings,
    reply: PresenceReply,
    effects: Effects,
)
    requires
        before.wf(),
        settled(before),
        server::untrack_done(
            before.state(),
            topic,
            key,
            pid,
            at,
            after.state(),
            reply@,
            effects,
        ),
    ensures
        untracked(before, after, topic, key, pid, at, reply, effects),
{
    let s = before.state();
    let here = held(before, topic, key);
    let stay = of_others(here, pid);
    let gone = own_of(here, pid);
    let u = server::after_untrack(s, topic, key, pid);
    assert(crdt::at(u.values, topic, key) =~= stay);
    assert(after.replica().values() == u.values);
    assert(u.pending.leave_tags =~= crdt::tags_of(gone));
    assert forall|t: Seq<char>, k: Seq<char>|
        (t, k) != (topic, key) implies #[trigger] held(after, t, k) == held(before, t, k) by {
        assert(crdt::at(u.values, t, k) == crdt::at(s.values, t, k));
    }
    assert forall|t: Seq<char>, k: Seq<char>, x: EntryView| #[trigger]
        held(after, t, k).contains(x) implies held(before, t, k).contains(x) by {
        if (t, k) == (topic, key) {
            here.lemma_filter_contains_rev(|e: EntryView| e.pid != pid, x);
        }
    }
    lemma_settled_fewer(before, after);
    if gone.len() > 0 {
        lemma_told_the_others(effects.sends@, at, topic, u.pending, gone);
        assert(u.pending.joins =~= Seq::empty());
        let b = effects.broadcasts@;
        let n = server::news(b);
        assert(n.len() == 1);
        assert(n[0] == (b[0].0@, b[0].1@));
        let ms = gone.map_values(server::leave_meta(pid));
        assert(forall|i: int|
            0 <= i < gone.len() ==> (#[trigger] ms[i]).phx_ref == convert::ref_of(gone[i].tag)
                && ms[i].pid == pid);
    }
}

/// What a server holds once it took in changes by which no entry joins.
proof fn lemma_leaves_taken_in(s: server::ReplicaView, d: DeltaView)
    requires
        d.joins.len() == 0,
    ensures
        forall|t: Seq<char>, k: Seq<char>| #[trigger]
            crdt::at(crdt::merged_values(s.values, s.seen, d), t, k) == crdt::at(
                s.values,
                t,
                k,
            ).filter(|x: EntryView| !d.leave_tags.contains(x.tag)),
{
    let tags = d.leave_tags;
    let none = Seq::<EntryView>::empty();
    crdt::lemma_without_at(s.values, crdt::tagged(tags));
    assert(d.joins =~= none);
    assert(crdt::arriving(d) =~= none) by {
        reveal(Seq::filter);
    }
    assert forall|t: Seq<char>, k: Seq<char>| #[trigger]
        crdt::at(crdt::merged_values(s.values, s.seen, d), t, k) == crdt::at(
            s.values,
            t,
            k,
        ).filter(|x: EntryView| !d.leave_tags.contains(x.tag)) by {
        seqs::lemma_filter_agree(
            crdt::at(s.values, t, k),
            |x: EntryView| !tags.contains(x.tag),
            |x: EntryView| !crdt::tagged(tags)(x),
        );
        assert(crdt::at(crdt::after_leaves(s.values, tags), t, k) == crdt::at(
            s.values,
            t,
            k,
        ).filter(|x: EntryView| !crdt::tagged(tags)(x)));
    }
}

/// A process that is no longer tracked under a key is not seen there, and all others are seen as
/// before. The subscribers and the other servers are told of the entries that left; a server that
/// takes in what it is sent no longer holds them.
pub proof fn law_untrack_is_done(
    p: &mut Presence,
    topic: &str,
    key: &str,
    pid: &Pid,
    at: &Surroundings,
    r: (PresenceReply, Effects),
    peer: &mut Presence,
    x: EntryView,
)
    requires
        old(p).wf(),
        settled(old(p)),
        old(peer).wf(),
        call_ensures(Presence::handle_untrack, (p, topic, key, pid, at), r),
        r.1.sends@[0].1 matches PresenceInfo::CrdtDelta { delta, .. } ==> call_ensures(
            Presence::handle_crdt_delta,
            (peer, delta),
            (),
        ),
    ensures
        untracked(old(p), final(p), topic@, key@, pid@, *at, r.0, r.1),
        seen_under(final(p), topic@, key@) == of_others(seen_under(old(p), topic@, key@), pid@),
        held(old(p), topic@, key@).contains(x) && x.pid == pid@ ==> forall|
            t: Seq<char>,
            k: Seq<char>,
            j: int,
        |
            0 <= j < held(final(peer), t, k).len() ==> (#[trigger] held(final(peer), t, k)[j]).tag
                != x.tag,
{
    lemma_untracked(old(p), final(p), topic@, key@, pid@, *at, r.0, r.1);
    lemma_others_seen(old(p), topic@, key@, pid@);
    seqs::lemma_filter_agree(
        held(final(p), topic@, key@),
        |e: EntryView| counts_as_up(old(p), e.tag.replica),
        |e: EntryView| counts_as_up(final(p), e.tag.replica),
    );
    let here = held(old(p), topic@, key@);
    let gone = own_of(here, pid@);
    if here.contains(x) && x.pid == pid@ {
        let i = choose|i: int| 0 <= i < here.len() && here[i] == x;
        here.lemma_filter_contains(|e: EntryView| e.pid == pid@, i);
        let g = choose|g: int| 0 <= g < gone.len() && gone[g] == x;
        assert(gone[g].tag == x.tag);
        match r.1.sends@[0].1 {
            PresenceInfo::CrdtDelta { delta, .. } => {
                let d = types::unshared(delta@);
                assert(d.leave_tags[g] == x.tag);
                let s = old(peer).state();
                lemma_leaves_taken_in(s, d);
                assert forall|t: Seq<char>, k: Seq<char>, j: int|
                    0 <= j < held(final(peer), t, k).len() implies (#[trigger] held(
                    final(peer),
                    t,
                    k,
                )[j]).tag != x.tag by {
                    let before = crdt::at(s.values, t, k);
                    let q = |e: EntryView| !d.leave_tags.contains(e.tag);
                    assert(held(final(peer), t, k) == crdt::at(
                        crdt::merged_values(s.values, s.seen, d),
                        t,
                        k,
                    ));
                    before.lemma_filter_pred(q, j);
                }
            },
            _ => {},
        }
    }
}

/// Whether clients are told of some entries: nothing if there are none, and else of each of them,
/// in order, with its process, its metadata and its reference.
pub open spec fn tells(state: Option<PresenceStateView>, s: Seq<EntryView>, now: u64) -> bool {
    match state {
        None => s.len() == 0,
        Some(state) => {
            &&& 0 < s.len() == state.metas.len()
            &&& forall|i: int|
                0 <= i < s.len() ==> (#[trigger] state.metas[i]).pid == s[i].pid
                    && state.metas[i].meta == s[i].meta && state.metas[i].phx_ref == reference(
                    s[i].tag,
                ) && state.metas[i].phx_ref_prev is None && state.metas[i].updated_at == now
        },
    }
}

/// Who is present under a key is told to a client: what is seen there.
pub proof fn law_get_tells_who_is_seen(
    p: &Presence,
    topic: &str,
    key: &str,
    now: u64,
    r: PresenceReply,
)
    requires
        p.wf(),
        call_ensures(Presence::handle_get, (p, topic, key, now), r),
    ensures
        r matches PresenceReply::PresenceGet { presence } && tells(
            piece::option_view(presence),
            seen_under(p, topic@, key@),
            now,
        ),
{
    assert(seen_under(p, topic@, key@) =~= server::shown(p.state(), topic@, key@)) by {
        seqs::lemma_filter_agree(
            held(p, topic@, key@),
            |e: EntryView| counts_as_up(p, e.tag.replica),
            |e: EntryView| crdt::is_up(p.state().status, e.tag.replica),
        );
    }
}

/// Who is present in a topic is told to a client by key: under each, what is seen there.
pub proof fn law_list_tells_who_is_seen(
    p: &Presence,
    topic: &str,
    now: u64,
    r: PresenceReply,
    key: Seq<char>,
)
    requires
        p.wf(),
        call_ensures(Presence::handle_list, (p, topic, now), r),
    ensures
        r matches PresenceReply::PresenceList { presences } && tells(
            piece::value_of(presences@, key),
            seen_under(p, topic@, key),
            now,
        ),
{
    assert(seen_under(p, topic@, key) =~= server::shown(p.state(), topic@, key)) by {
        seqs::lemma_filter_agree(
            held(p, topic@, key),
            |e: EntryView| counts_as_up(p, e.tag.replica),
            |e: EntryView| crdt::is_up(p.state().status, e.tag.replica),
        );
    }
    assert(server::lists(p.state(), topic@, now, r@));
}

/// What a process has under some keys, restricted to one of them.
proof fn lemma_gathered(
    v: crdt::Values,
    keys: Seq<(Seq<char>, Seq<char>)>,
    pid: PidView,
    topic: Seq<char>,
    key: Seq<char>,
)
    requires
        crdt::good(v),
    ensures
        crdt::gathered(v, keys, pid).filter(
            |e: EntryView| e.topic == topic && e.key == key,
        ) == (if keys.contains((topic, key)) {
            own_of(crdt::at(v, topic, key), pid)
        } else {
            Seq::empty()
        }),
    decreases keys.len(),
{
    let p = |e: EntryView| e.topic == topic && e.key == key;
    if keys.len() == 0 {
        reveal(Seq::filter);
    } else {
        let rest = keys.drop_last();
        let k = keys.last();
        let at_k = own_of(crdt::at(v, k.0, k.1), pid);
        lemma_gathered(v, rest, pid, topic, key);
        assert(keys.contains((topic, key)) == (rest.contains((topic, key)) || k == (topic, key)))
            by {
            if rest.contains((topic, key)) {
                let i = choose|i: int| 0 <= i < rest.len() && rest[i] == (topic, key);
                assert(keys[i] == (topic, key));
            }
            if keys.contains((topic, key)) {
                let i = choose|i: int| 0 <= i < keys.len() && keys[i] == (topic, key);
                if i < rest.len() {
                    assert(rest[i] == (topic, key));
                }
            }
            assert(keys[keys.len() - 1] == k);
        }
        if !rest.contains(k) {
            Seq::filter_distributes_over_add(crdt::gathered(v, rest, pid), at_k, p);
            let q = |e: EntryView| e.pid == pid;
            let here = crdt::at(v, k.0, k.1);
            assert forall|i: int| 0 <= i < at_k.len() implies (#[trigger] at_k[i]).topic == k.0
                && at_k[i].key == k.1 by {
                here.lemma_filter_contains_rev(q, at_k[i]);
                let j = choose|j: int| 0 <= j < here.len() && here[j] == at_k[i];
                assert(v.contains_key(k));
                assert(v[k][j].topic == k.0);
            }
            if k == (topic, key) {
                seqs::lemma_filter_all(at_k, p);
                assert(crdt::gathered(v, rest, pid).filter(p) =~= Seq::empty());
                assert(crdt::gathered(v, keys, pid).filter(p) =~= at_k);
            } else {
                seqs::lemma_filter_none(at_k, p);
                assert(crdt::gathered(v, keys, pid).filter(p) =~= crdt::gathered(
                    v,
                    rest,
                    pid,
                ).filter(p));
            }
        }
    }
}

/// All entries of a process, restricted to one key: what it has there.
proof fn lemma_all_entries(p: &Presence, pid: PidView, topic: Seq<char>, key: Seq<char>)
    requires
        p.wf(),
    ensures
        server::all_entries_of(p.state(), pid).filter(
            |e: EntryView| e.topic == topic && e.key == key,
        ) == own_of(held(p, topic, key), pid),
{
    let s = p.state();
    let keys = crdt::filed_under(s.index, pid);
    let here = crdt::at(s.values, topic, key);
    lemma_gathered(s.values, keys, pid, topic, key);
    if !keys.contains((topic, key)) {
        let q = |e: EntryView| e.pid == pid;
        assert forall|j: int| 0 <= j < here.len() implies !q(#[trigger] here[j]) by {
            assert(s.values[(topic, key)][j] == here[j]);
        }
        seqs::lemma_filter_none(here, q);
    }
}

/// Restricting to a topic and then to a key is restricting to both.
proof fn lemma_topic_and_key(s: Seq<EntryView>, topic: Seq<char>, key: Seq<char>)
    ensures
        s.filter(server::in_topic(topic)).filter(convert::under_key(key)) == s.filter(
            |e: EntryView| e.topic == topic && e.key == key,
        ),
{
    seqs::lemma_filter_filter(s, server::in_topic(topic), convert::under_key(key));
    seqs::lemma_filter_agree(
        s,
        |e: EntryView| server::in_topic(topic)(e) && convert::under_key(key)(e),
        |e: EntryView| e.topic == topic && e.key == key,
    );
}

/// Whether a broadcast tells the subscribers of a topic what left it, by key.
pub open spec fn tells_of_topic(
    b: (String, PresenceMessage),
    topic: Seq<char>,
    gone: spec_fn(Seq<char>, Seq<char>) -> Seq<EntryView>,
    now: u64,
) -> bool {
    b.0@ == "presence:"@ + topic && match b.1@ {
        PresenceMessageView::Delta { topic: t, diff } => {
            &&& t == topic
            &&& diff.joins.len() == 0
            &&& forall|k: Seq<char>| #[trigger]
                tells(piece::value_of(diff.leaves, k), gone(topic, k), now)
        },
        _ => false,
    }
}

/// Whether a broadcast tells the subscribers of a topic that something left what left it.
pub open spec fn tells_of_some_topic(
    b: (String, PresenceMessage),
    gone: spec_fn(Seq<char>, Seq<char>) -> Seq<EntryView>,
    now: u64,
) -> bool {
    exists|t: Seq<char>, k: Seq<char>|
        tells_of_topic(b, t, gone, now) && (#[trigger] gone(t, k)).len() > 0
}

/// Whether there is one broadcast for each topic that something left, which tells what left it.
pub open spec fn each_topic_is_told(
    b: Seq<(String, PresenceMessage)>,
    gone: spec_fn(Seq<char>, Seq<char>) -> Seq<EntryView>,
    now: u64,
) -> bool {
    &&& forall|t: Seq<char>, k: Seq<char>|
        (#[trigger] gone(t, k)).len() > 0 ==> exists|i: int|
            0 <= i < b.len() && #[trigger] tells_of_topic(b[i], t, gone, now)
    &&& forall|i: int| 0 <= i < b.len() ==> tells_of_some_topic(#[trigger] b[i], gone, now)
    &&& forall|i: int, j: int|
        0 <= i < j < b.len() ==> (#[trigger] b[i]).0@ != (#[trigger] b[j]).0@
}

proof fn lemma_each_topic_is_told(
    b: Seq<(String, PresenceMessage)>,
    topics: Seq<Seq<char>>,
    all: Seq<EntryView>,
    gone: spec_fn(Seq<char>, Seq<char>) -> Seq<EntryView>,
    now: u64,
)
    requires
        server::tell_of_leaves(server::news(b), topics, all, now),
        forall|t: Seq<char>, k: Seq<char>| #[trigger]
            gone(t, k) == all.filter(|e: EntryView| e.topic == t && e.key == k),
    ensures
        each_topic_is_told(b, gone, now),
{
    let n = server::news(b);
    assert forall|i: int| 0 <= i < b.len() implies tells_of_topic(
        #[trigger] b[i],
        topics[i],
        gone,
        now,
    ) by {
        assert(n[i] == (b[i].0@, b[i].1@));
        assert(server::tells_of_leaves(n[i], topics[i], all, now));
        match b[i].1@ {
            PresenceMessageView::Delta { topic: t, diff } => {
                assert forall|k: Seq<char>| #[trigger]
                    tells(piece::value_of(diff.leaves, k), gone(topics[i], k), now) by {
                    lemma_topic_and_key(all, topics[i], k);
                    assert(gone(topics[i], k) == all.filter(
                        |e: EntryView| e.topic == topics[i] && e.key == k,
                    ));
                    assert(piece::value_of(diff.leaves, k) == convert::state_of(
                        all.filter(server::in_topic(topics[i])).filter(convert::under_key(k)),
                        now,
                    ));
                }
            },
            _ => {},
        }
    }
    assert forall|t: Seq<char>, k: Seq<char>| (#[trigger] gone(t, k)).len() > 0 implies exists|
        i: int,
    |
        0 <= i < b.len() && #[trigger] tells_of_topic(b[i], t, gone, now) by {
        lemma_topic_and_key(all, t, k);
        let part = all.filter(server::in_topic(t));
        assert(part.len() > 0) by {
            if part.len() == 0 {
                seqs::lemma_filter_none(part, convert::under_key(k));
            }
        }
        assert(topics.contains(t));
        let i = choose|i: int| 0 <= i < topics.len() && topics[i] == t;
        assert(tells_of_topic(b[i], t, gone, now));
    }
    assert forall|i: int| 0 <= i < b.len() implies tells_of_some_topic(
        #[trigger] b[i],
        gone,
        now,
    ) by {
        let t = topics[i];
        assert(topics.contains(t));
        let part = all.filter(server::in_topic(t));
        let k = part[0].key;
        lemma_topic_and_key(all, t, k);
        part.lemma_filter_contains(convert::under_key(k), 0);
        assert(tells_of_topic(b[i], t, gone, now));
        assert(gone(t, k).len() > 0);
    }
    assert forall|i: int, j: int| 0 <= i < j < b.len() implies (#[trigger] b[i]).0@ != (
    #[trigger] b[j]).0@ by {
        let a = "presence:"@ + topics[i];
        let c = "presence:"@ + topics[j];
        assert(tells_of_topic(b[i], topics[i], gone, now));
        assert(tells_of_topic(b[j], topics[j], gone, now));
        if a == c {
            let m = "presence:"@.len() as int;
            assert(a.skip(m) =~= topics[i]);
            assert(c.skip(m) =~= topics[j]);
        }
    }
}

/// Whether a server no longer tracks a process anywhere, and has told whom it should.
pub open spec fn untracked_all(
    before: &Presence,
    after: &Presence,
    pid: PidView,
    at: Surroundings,
    reply: PresenceReply,
    effects: Effects,
) -> bool {
    &&& forall|t: Seq<char>, k: Seq<char>| #[trigger]
        held(after, t, k) == of_others(held(before, t, k), pid)
    &&& same_but_entries(before, after)
    &&& reply == (PresenceReply::Done { phx_ref: None })
    &&& each_topic_is_told(
        effects.broadcasts@,
        |t: Seq<char>, k: Seq<char>| own_of(held(before, t, k), pid),
        at.now,
    )
    &&& effects.sends@.len() == effects.broadcasts@.len()
    &&& forall|i: int|
        0 <= i < effects.sends@.len() ==> goes_to_the_others(
            (#[trigger] effects.sends@[i]).0@,
            at,
        ) && takes_away(effects.sends@[i].1, before, pid)
    &&& settled(after)
}

/// Whether a message tells of the entries of a process that left, all of them and no others, and
/// of none that joined.
pub open spec fn takes_away(m: PresenceInfo, before: &Presence, pid: PidView) -> bool {
    match m {
        PresenceInfo::CrdtDelta { topic, delta } => {
            &&& delta@.joins.len() == 0
            &&& forall|t: Seq<char>, k: Seq<char>, i: int|
                0 <= i < held(before, t, k).len() && (#[trigger] held(before, t, k)[i]).pid == pid
                    ==> delta@.leave_tags.contains(held(before, t, k)[i].tag)
            &&& forall|j: int|
                0 <= j < delta@.leave_tags.len() ==> is_tag_of(
                    before,
                    pid,
                    #[trigger] delta@.leave_tags[j],
                )
        },
        _ => false,
    }
}

/// Whether a process has an entry with a tag.
pub open spec fn is_tag_of(p: &Presence, pid: PidView, tag: TagView) -> bool {
    exists|t: Seq<char>, k: Seq<char>, i: int|
        0 <= i < held(p, t, k).len() && (#[trigger] held(p, t, k)[i]).pid == pid && held(
            p,
            t,
            k,
        )[i].tag == tag
}

proof fn lemma_untracked_all(
    before: &Presence,
    after: &Presence,
    pid: PidView,
    at: Surroundings,
    reply: PresenceReply,
    effects: Effects,
)
    requires
        before.wf(),
        settled(before),
        server::untrack_all_done(before.state(), pid, at, after.state(), reply@, effects),
    ensures
        untracked_all(before, after, pid, at, reply, effects),
{
    let s = before.state();
    let u = server::after_untrack_all(s, pid);
    let all = server::all_entries_of(s, pid);
    let gone = |t: Seq<char>, k: Seq<char>| own_of(held(before, t, k), pid);
    let own = |e: EntryView| e.pid == pid;
    assert forall|t: Seq<char>, k: Seq<char>| #[trigger]
        held(after, t, k) == of_others(held(before, t, k), pid) by {
        crdt::lemma_without_at(s.values, own);
        assert(held(after, t, k) == crdt::at(u.values, t, k));
        seqs::lemma_filter_agree(
            held(before, t, k),
            |e: EntryView| !own(e),
            |e: EntryView| e.pid != pid,
        );
    }
    assert forall|t: Seq<char>, k: Seq<char>, x: EntryView| #[trigger]
        held(after, t, k).contains(x) implies held(before, t, k).contains(x) by {
        held(before, t, k).lemma_filter_contains_rev(|e: EntryView| e.pid != pid, x);
    }
    lemma_settled_fewer(before, after);
    assert forall|t: Seq<char>, k: Seq<char>| #[trigger]
        gone(t, k) == all.filter(|e: EntryView| e.topic == t && e.key == k) by {
        lemma_all_entries(before, pid, t, k);
    }
    let topics = choose|topics: Seq<Seq<char>>| #[trigger]
        server::left_topics(effects, topics, all, u.pending, at);
    assert(server::left_topics(effects, topics, all, u.pending, at));
    lemma_each_topic_is_told(effects.broadcasts@, topics, all, gone, at.now);
    assert(u.pending.leave_tags =~= crdt::tags_of(all));
    assert(u.pending.joins =~= Seq::empty());
    let m = server::mail(effects.sends@);
    let n = server::news(effects.broadcasts@);
    if all.len() == 0 {
        if topics.len() > 0 {
            assert(topics.contains(topics[0]));
            seqs::lemma_filter_none(all, server::in_topic(topics[0]));
        }
        assert(n.len() == 0 && m.len() == 0);
    } else {
        assert(server::has_changes(u.pending));
        assert(m.len() == topics.len());
    }
    assert forall|i: int| 0 <= i < effects.sends@.len() implies goes_to_the_others(
        (#[trigger] effects.sends@[i]).0@,
        at,
    ) && takes_away(effects.sends@[i].1, before, pid) by {
        lemma_peers(at);
        assert(m[i] == (
            table::views(effects.sends@[i].0@),
            server::notice(effects.sends@[i].1@),
        ));
        match effects.sends@[i].1 {
            PresenceInfo::CrdtDelta { topic, delta } => {
                let d = types::unshared(delta@);
                assert(d == u.pending);
                assert forall|t: Seq<char>, k: Seq<char>, i: int|
                    0 <= i < held(before, t, k).len() && (#[trigger] held(before, t, k)[i]).pid
                        == pid implies delta@.leave_tags.contains(held(before, t, k)[i].tag) by {
                    let e = held(before, t, k)[i];
                    let q = |e: EntryView| e.topic == t && e.key == k;
                    held(before, t, k).lemma_filter_contains(own, i);
                    assert(gone(t, k).contains(e));
                    assert(all.filter(q).contains(e));
                    all.lemma_filter_contains_rev(q, e);
                    let a = choose|a: int| 0 <= a < all.len() && all[a] == e;
                    assert(delta@.leave_tags[a] == e.tag);
                }
                assert forall|j: int| 0 <= j < delta@.leave_tags.len() implies is_tag_of(
                    before,
                    pid,
                    #[trigger] delta@.leave_tags[j],
                ) by {
                    let e = all[j];
                    assert(delta@.leave_tags[j] == e.tag);
                    let q = |x: EntryView| x.topic == e.topic && x.key == e.key;
                    all.lemma_filter_contains(q, j);
                    assert(gone(e.topic, e.key).contains(e));
                    held(before, e.topic, e.key).lemma_filter_contains_rev(own, e);
                    let i = choose|i: int|
                        0 <= i < held(before, e.topic, e.key).len() && held(
                            before,
                            e.topic,
                            e.key,
                        )[i] == e;
                    let g = gone(e.topic, e.key);
                    let a = choose|a: int| 0 <= a < g.len() && g[a] == e;
                    held(before, e.topic, e.key).lemma_filter_pred(own, a);
                    assert(held(before, e.topic, e.key)[i].pid == pid);
                }
            },
            _ => {},
        }
    }
}

/// A process that is no longer tracked anywhere is seen nowhere, and all others are seen as
/// before. The subscribers of each topic that it left are told once, by key, what left; and the
/// other servers are told once for each topic of all that left.
pub proof fn law_untrack_all_is_done(
    p: &mut Presence,
    pid: &Pid,
    at: &Surroundings,
    r: (PresenceReply, Effects),
    topic: Seq<char>,
    key: Seq<char>,
)
    requires
        old(p).wf(),
        settled(old(p)),
        call_ensures(Presence::handle_untrack_all, (p, pid, at), r),
    ensures
        untracked_all(old(p), final(p), pid@, *at, r.0, r.1),
        seen_under(final(p), topic, key) == of_others(seen_under(old(p), topic, key), pid@),
{
    lemma_untracked_all(old(p), final(p), pid@, *at, r.0, r.1);
    lemma_others_seen(old(p), topic, key, pid@);
    seqs::lemma_filter_agree(
        held(final(p), topic, key),
        |e: EntryView| counts_as_up(old(p), e.tag.replica),
        |e: EntryView| counts_as_up(final(p), e.tag.replica),
    );
}

/// A request does what it asks for: each kind of it what its own function does.
pub proof fn law_call_does_what_it_asks(
    p: &mut Presence,
    msg: PresenceCall,
    at: &Surroundings,
    r: (PresenceReply, Effects),
    key: Seq<char>,
)
    requires
        old(p).wf(),
        settled(old(p)),
        msg is Track || msg is Update ==> old(p).state().ticks < u64::MAX,
        call_ensures(Presence::handle_call, (p, msg, at), r),
    ensures
        match msg {
            PresenceCall::Track { topic, key, pid, meta } => joined(
                old(p),
                final(p),
                topic@,
                key@,
                pid@,
                meta@,
                *at,
                r.0,
                r.1,
            ),
            PresenceCall::Update { topic, key, pid, meta } => updated(
                old(p),
                final(p),
                topic@,
                key@,
                pid@,
                meta@,
                *at,
                r.0,
                r.1,
            ),
            PresenceCall::Untrack { topic, key, pid } => untracked(
                old(p),
                final(p),
                topic@,
                key@,
                pid@,
                *at,
                r.0,
                r.1,
            ),
            PresenceCall::UntrackAll { pid } => untracked_all(
                old(p),
                final(p),
                pid@,
                *at,
                r.0,
                r.1,
            ),
            PresenceCall::Get { topic, key } => {
                &&& final(p).state() == old(p).state()
                &&& r.1.broadcasts@.len() == 0 && r.1.sends@.len() == 0
                &&& r.0 matches PresenceReply::PresenceGet { presence } && tells(
                    piece::option_view(presence),
                    seen_under(old(p), topic@, key@),
                    at.now,
                )
            },
            PresenceCall::List { topic } => {
                &&& final(p).state() == old(p).state()
                &&& r.1.broadcasts@.len() == 0 && r.1.sends@.len() == 0
                &&& r.0 matches PresenceReply::PresenceList { presences } && tells(
                    piece::value_of(presences@, key),
                    seen_under(old(p), topic@, key),
                    at.now,
                )
            },
        },
{
    let q = |e: EntryView| counts_as_up(old(p), e.tag.replica);
    let up = |e: EntryView| crdt::is_up(old(p).state().status, e.tag.replica);
    match msg {
        PresenceCall::Track { topic, key, pid, meta } => {
            lemma_tracked(old(p), final(p), topic@, key@, pid@, meta@, *at, r.0, r.1);
        },
        PresenceCall::Update { topic, key, pid, meta } => {
            lemma_updated(old(p), final(p), topic@, key@, pid@, meta@, *at, r.0, r.1);
        },
        PresenceCall::Untrack { topic, key, pid } => {
            lemma_untracked(old(p), final(p), topic@, key@, pid@, *at, r.0, r.1);
        },
        PresenceCall::UntrackAll { pid } => {
            lemma_untracked_all(old(p), final(p), pid@, *at, r.0, r.1);
        },
        PresenceCall::Get { topic, key } => {
            seqs::lemma_filter_agree(held(old(p), topic@, key@), q, up);
            assert(seen_under(old(p), topic@, key@) =~= server::shown(
                old(p).state(),
                topic@,
                key@,
            ));
        },
        PresenceCall::List { topic } => {
            seqs::lemma_filter_agree(held(old(p), topic@, key), q, up);
            assert(seen_under(old(p), topic@, key) =~= server::shown(
                old(p).state(),
                topic@,
                key,
            ));
            assert(server::lists(old(p).state(), topic@, at.now, r.0@));
        },
    }
}

/// All entries of a replica that are of another one, restricted to one key.
proof fn lemma_entries_from(p: &Presence, node: Seq<char>, topic: Seq<char>, key: Seq<char>)
    requires
        p.wf(),
    ensures
        server::entries_from(p.replica(), node).filter(
            |e: EntryView| e.topic == topic && e.key == key,
        ) == held(p, topic, key).filter(|e: EntryView| e.tag.replica == node),
{
    let all = p.replica().entries();
    let from = |e: EntryView| e.tag.replica == node;
    let here = |e: EntryView| e.topic == topic && e.key == key;
    p.replica().law_entries(topic, key);
    seqs::lemma_filter_filter(all, from, here);
    seqs::lemma_filter_filter(all, here, from);
    seqs::lemma_filter_agree(
        all,
        |e: EntryView| from(e) && here(e),
        |e: EntryView| here(e) && from(e),
    );
}

/// Once a node is down, none of its entries is held, and all others are as before. The subscribers
/// of each topic that lost one are told once, by key, what left. The node is no longer monitored,
/// and the others are.
pub proof fn law_node_down_is_cleaned_up(
    p: &mut Presence,
    node: &str,
    now: u64,
    r: Vec<(String, PresenceMessage)>,
    topic: Seq<char>,
    key: Seq<char>,
    other: Seq<char>,
)
    requires
        old(p).wf(),
        call_ensures(Presence::handle_node_down, (p, node, now), r),
    ensures
        held(final(p), topic, key) == held(old(p), topic, key).filter(
            |e: EntryView| e.tag.replica != node@,
        ),
        seen_under(final(p), topic, key) == seen_under(old(p), topic, key).filter(
            |e: EntryView| e.tag.replica != node@,
        ),
        other != node@ ==> counts_as_up(final(p), other) == counts_as_up(old(p), other),
        counts_as_up(final(p), node@),
        final(p).monitored().contains(other) == (old(p).monitored().contains(other) && other
            != node@),
        each_topic_is_told(
            r@,
            |t: Seq<char>, k: Seq<char>|
                held(old(p), t, k).filter(|e: EntryView| e.tag.replica == node@),
            now,
        ),
{
    let s = old(p).state();
    let all = server::entries_from(old(p).replica(), node@);
    let gone = |t: Seq<char>, k: Seq<char>|
        held(old(p), t, k).filter(|e: EntryView| e.tag.replica == node@);
    let from = |e: EntryView| e.tag.replica == node@;
    let rest = |e: EntryView| e.tag.replica != node@;
    let here = held(old(p), topic, key);
    crdt::lemma_without_at(s.values, from);
    seqs::lemma_filter_agree(here, |e: EntryView| !from(e), rest);
    assert(held(final(p), topic, key) == crdt::at(final(p).state().values, topic, key));
    assert forall|t: Seq<char>, k: Seq<char>| #[trigger]
        gone(t, k) == all.filter(|e: EntryView| e.topic == t && e.key == k) by {
        lemma_entries_from(old(p), node@, t, k);
    }
    let topics = choose|topics: Seq<Seq<char>>| #[trigger]
        server::tell_of_leaves(server::news(r@), topics, all, now);
    lemma_each_topic_is_told(r@, topics, all, gone, now);
    let up = |e: EntryView| counts_as_up(old(p), e.tag.replica);
    let up_now = |e: EntryView| counts_as_up(final(p), e.tag.replica);
    let left = here.filter(rest);
    assert forall|i: int| 0 <= i < left.len() implies up(#[trigger] left[i]) == up_now(left[i]) by {
        here.lemma_filter_pred(rest, i);
    }
    seqs::lemma_filter_agree(left, up, up_now);
    seqs::lemma_filter_filter(here, rest, up);
    seqs::lemma_filter_filter(here, up, rest);
    seqs::lemma_filter_agree(
        here,
        |e: EntryView| rest(e) && up(e),
        |e: EntryView| up(e) && rest(e),
    );
    let m = old(p).monitored();
    let q = server::other_node(node@);
    if m.contains(other) && other != node@ {
        let i = choose|i: int| 0 <= i < m.len() && m[i] == other;
        m.lemma_filter_contains(q, i);
    }
    if m.filter(q).contains(other) {
        m.lemma_filter_contains_rev(q, other);
        let i = choose|i: int| 0 <= i < m.filter(q).len() && m.filter(q)[i] == other;
        m.lemma_filter_pred(q, i);
    }
}

/// What a server lacks it gets when it asks: a server that is asked, with what the other has seen,
/// sends every entry that the other has not seen; once the other took it in, it holds each of
/// them under its key. Nothing is sent where there is no such entry.
pub proof fn law_asking_brings_what_is_missing(
    p: &Presence,
    from: Pid,
    context: Dict<u64>,
    r: Option<(Pid, PresenceInfo)>,
    peer: &mut Presence,
    topic: Seq<char>,
    key: Seq<char>,
    i: int,
)
    requires
        p.wf(),
        old(peer).wf(),
        piece::as_map(context@) == old(peer).replica().seen(),
        call_ensures(Presence::handle_crdt_sync_request, (p, from, context), r),
        r matches Some((_, PresenceInfo::CrdtSyncResponse { delta })) ==> call_ensures(
            Presence::handle_crdt_sync_response,
            (peer, delta),
            (),
        ),
        0 <= i < held(p, topic, key).len(),
        ({
            let tag = held(p, topic, key)[i].tag;
            let seen = old(peer).replica().seen();
            tag.clock > (if seen.contains_key(tag.replica) {
                seen[tag.replica]
            } else {
                0
            })
        }),
    ensures
        r matches Some((to, PresenceInfo::CrdtSyncResponse { delta })) && to@ == from@
            && delta@.leave_tags.len() == 0 && delta@.joins.contains(held(p, topic, key)[i]),
        exists|j: int|
            0 <= j < held(final(peer), topic, key).len() && (#[trigger] held(
                final(peer),
                topic,
                key,
            )[j]).tag == held(p, topic, key)[i].tag,
{
    let e = held(p, topic, key)[i];
    let all = p.replica().entries();
    let seen = old(peer).replica().seen();
    let here = |x: EntryView| x.topic == topic && x.key == key;
    let q = |x: EntryView| x.tag.clock > crdt::clock_of(seen, x.tag.replica);
    p.replica().law_entries(topic, key);
    assert(all.filter(here).contains(e));
    all.lemma_filter_contains_rev(here, e);
    let a = choose|a: int| 0 <= a < all.len() && all[a] == e;
    all.lemma_filter_contains(q, a);
    let news = all.filter(q);
    let n = choose|n: int| 0 <= n < news.len() && news[n] == e;
    let d = server::unseen(p.replica(), seen);
    seqs::lemma_filter_agree(
        all,
        q,
        |x: EntryView| x.tag.clock > crdt::clock_of(seen, x.tag.replica),
    );
    assert(d.joins =~= news);
    let v = old(peer).replica().values();
    laws::law_extract_is_delivered(all, v, seen, d.context);
    let h = held(p, topic, key);
    assert(h == all.filter(here));
    all.lemma_filter_pred(here, i);
    assert(e.topic == topic && e.key == key);
    assert(laws::mark(news[n]) == (topic, key, e.tag));
    assert(laws::marks_of(news).contains((topic, key, e.tag)));
    let w = crdt::merged_values(v, seen, d);
    assert(laws::marks(w).contains((topic, key, e.tag)));
    assert(crdt::has_tag(crdt::at(w, topic, key), e.tag));
    let j = choose|j: int|
        0 <= j < crdt::at(w, topic, key).len() && (#[trigger] crdt::at(w, topic, key)[j]).tag
            == e.tag;
    assert(held(final(peer), topic, key) == crdt::at(w, topic, key));
    assert(held(final(peer), topic, key)[j].tag == e.tag);
}

/// What the subscribers are told of an entry that joined leads a server that applies it to hold
/// the entry, where it is new to it, as a request and as a message in the older form.
pub proof fn law_told_joins_are_applied(
    topic: String,
    diff: PresenceDiff,
    b: Seq<(String, PresenceMessage)>,
    e: EntryView,
    prev: Option<TagView>,
    now: u64,
    peer: &mut Presence,
    other: &mut Presence,
    r: Option<(Pid, PresenceInfo)>,
)
    requires
        told_of_join(b, e, prev, now),
        b[0].1 == (PresenceMessage::Delta { topic, diff }),
        old(peer).wf(),
        old(other).wf(),
        is_new_to(old(peer), e.tag),
        is_new_to(old(other), e.tag),
        call_ensures(Presence::handle_cast, (peer, PresenceCast::ApplyDelta { topic, diff }), ()),
        call_ensures(
            Presence::handle_legacy_message,
            (other, PresenceMessage::Delta { topic, diff }),
            r,
        ),
    ensures
        followed(old(peer), final(peer), e, Seq::empty()),
        followed(old(other), final(other), e, Seq::empty()),
        r is None,
{
    let d = convert::diff_delta(topic@, diff@);
    let rows = diff@.joins;
    let none = Seq::<(Seq<char>, PresenceStateView)>::empty();
    convert::law_ref_leads_back(e.tag);
    assert(rows.drop_last() =~= none);
    assert(convert::joins_of(topic@, none) =~= Seq::empty());
    let m = rows[0].1.metas[0];
    assert(convert::entry_of(topic@, rows.last().0, m) == e);
    assert(convert::joins_of(topic@, rows) =~= seq![e]);
    assert(diff@.leaves =~= none);
    assert(convert::tags_in(none) =~= Seq::empty());
    let gone = Seq::<EntryView>::empty();
    lemma_followed(old(peer), final(peer), d, e, gone);
    lemma_followed(old(other), final(other), d, e, gone);
}

/// The tags of some rows that tell of entries are those of the entries.
proof fn lemma_tags_in(rows: Seq<(Seq<char>, PresenceStateView)>, i: int, j: int)
    requires
        0 <= i < rows.len(),
        0 <= j < rows[i].1.metas.len(),
    ensures
        convert::tags_in(rows).contains(convert::tag_of(rows[i].1.metas[j].phx_ref)),
    decreases rows.len(),
{
    let rest = rows.drop_last();
    let last = rows.last().1.metas.map_values(|m: PresenceMetaView| convert::tag_of(m.phx_ref));
    let front = convert::tags_in(rest);
    let tag = convert::tag_of(rows[i].1.metas[j].phx_ref);
    if i < rest.len() {
        lemma_tags_in(rest, i, j);
        let a = choose|a: int| 0 <= a < front.len() && front[a] == tag;
        assert((front + last)[a] == tag);
    } else {
        assert((front + last)[front.len() + j] == tag);
    }
}

/// What the subscribers are told of entries that left leads a server that applies it to hold none
/// of them.
pub proof fn law_told_leaves_are_applied(
    topic: String,
    diff: PresenceDiff,
    i: int,
    j: int,
    tag: TagView,
    peer: &mut Presence,
)
    requires
        old(peer).wf(),
        diff@.joins.len() == 0,
        0 <= i < diff@.leaves.len(),
        0 <= j < diff@.leaves[i].1.metas.len(),
        diff@.leaves[i].1.metas[j].phx_ref == reference(tag),
        call_ensures(Presence::handle_cast, (peer, PresenceCast::ApplyDelta { topic, diff }), ()),
    ensures
        forall|t: Seq<char>, k: Seq<char>, a: int|
            0 <= a < held(final(peer), t, k).len() ==> (#[trigger] held(final(peer), t, k)[a]).tag
                != tag,
{
    let d = convert::diff_delta(topic@, diff@);
    let s = old(peer).state();
    assert(diff@.joins =~= Seq::empty());
    assert(d.joins =~= Seq::empty());
    convert::law_ref_leads_back(tag);
    lemma_tags_in(diff@.leaves, i, j);
    lemma_leaves_taken_in(s, d);
    assert forall|t: Seq<char>, k: Seq<char>, a: int|
        0 <= a < held(final(peer), t, k).len() implies (#[trigger] held(
        final(peer),
        t,
        k,
    )[a]).tag != tag by {
        let before = crdt::at(s.values, t, k);
        let q = |e: EntryView| !d.leave_tags.contains(e.tag);
        assert(held(final(peer), t, k) == crdt::at(
            crdt::merged_values(s.values, s.seen, d),
            t,
            k,
        ));
        before.lemma_filter_pred(q, a);
    }
}

/// The entry that a row tells of is among those that all rows tell of.
proof fn lemma_joins_of(
    topic: Seq<char>,
    rows: Seq<(Seq<char>, PresenceStateView)>,
    i: int,
    j: int,
)
    requires
        0 <= i < rows.len(),
        0 <= j < rows[i].1.metas.len(),
    ensures
        convert::joins_of(topic, rows).contains(
            convert::entry_of(topic, rows[i].0, rows[i].1.metas[j]),
        ),
    decreases rows.len(),
{
    let rest = rows.drop_last();
    let last = rows.last().1.metas.map_values(
        |m: PresenceMetaView| convert::entry_of(topic, rows.last().0, m),
    );
    let front = convert::joins_of(topic, rest);
    let e = convert::entry_of(topic, rows[i].0, rows[i].1.metas[j]);
    if i < rest.len() {
        lemma_joins_of(topic, rest, i, j);
        let a = choose|a: int| 0 <= a < front.len() && front[a] == e;
        assert((front + last)[a] == e);
    } else {
        assert((front + last)[front.len() + j] == e);
    }
}

/// A state that is handed over brings every entry that it tells of, where the tag was not seen
/// yet.
pub proof fn law_handed_state_is_taken_over(
    topic: String,
    state: Dict<PresenceState>,
    i: int,
    j: int,
    tag: TagView,
    peer: &mut Presence,
)
    requires
        old(peer).wf(),
        0 <= i < state@.len(),
        0 <= j < state@[i].1.metas.len(),
        state@[i].1.metas[j].phx_ref == reference(tag),
        is_new_to(old(peer), tag),
        call_ensures(Presence::handle_cast, (peer, PresenceCast::SyncState { topic, state }), ()),
    ensures
        exists|a: int|
            0 <= a < held(final(peer), topic@, state@[i].0).len() && (#[trigger] held(
                final(peer),
                topic@,
                state@[i].0,
            )[a]).tag == tag,
        forall|t: Seq<char>, k: Seq<char>, x: EntryView| #[trigger]
            held(old(peer), t, k).contains(x) ==> exists|a: int|
                0 <= a < held(final(peer), t, k).len() && (#[trigger] held(
                    final(peer),
                    t,
                    k,
                )[a]).tag == x.tag,
{
    let d = convert::state_delta(topic@, state@);
    let s = old(peer).state();
    let w = crdt::merged_values(s.values, s.seen, d);
    let key = state@[i].0;
    convert::law_ref_leads_back(tag);
    lemma_joins_of(topic@, state@, i, j);
    let e = convert::entry_of(topic@, key, state@[i].1.metas[j]);
    let n = choose|n: int| 0 <= n < d.joins.len() && d.joins[n] == e;
    assert(laws::mark(d.joins[n]) == (topic@, key, tag));
    assert(laws::marks_of(d.joins).contains((topic@, key, tag)));
    laws::law_merge_places(s.values, s.seen, d);
    assert(!d.leave_tags.contains(tag));
    assert(laws::marks(w).contains((topic@, key, tag)));
    assert(held(final(peer), topic@, key) == crdt::at(w, topic@, key));
    let a = choose|a: int|
        0 <= a < crdt::at(w, topic@, key).len() && (#[trigger] crdt::at(w, topic@, key)[a]).tag
            == tag;
    assert(held(final(peer), topic@, key)[a].tag == tag);
    assert forall|t: Seq<char>, k: Seq<char>, x: EntryView| #[trigger]
        held(old(peer), t, k).contains(x) implies exists|a: int|
        0 <= a < held(final(peer), t, k).len() && (#[trigger] held(final(peer), t, k)[a]).tag
            == x.tag by {
        let b = choose|b: int|
            0 <= b < held(old(peer), t, k).len() && held(old(peer), t, k)[b] == x;
        assert(crdt::at(s.values, t, k)[b].tag == x.tag);
        assert(laws::marks(s.values).contains((t, k, x.tag)));
        assert(laws::marks(w).contains((t, k, x.tag)));
        let a = choose|a: int|
            0 <= a < crdt::at(w, t, k).len() && (#[trigger] crdt::at(w, t, k)[a]).tag == x.tag;
        assert(held(final(peer), t, k)[a].tag == x.tag);
    }
}

/// A server that starts holds nothing, has told all, and reminds itself to complete its start: what
/// it sends to itself it takes as an info message, and reads as that.
pub proof fn law_start_is_completed(
    config: PresenceConfig,
    here: &str,
    r: (Presence, Vec<u8>),
    bytes: &[u8],
    told: Option<PresenceInfo>,
)
    requires
        call_ensures(Presence::init, (config, here), r),
        bytes@ == r.1@,
        call_ensures(server::handle_continue, (bytes,), told),
    ensures
        r.0.wf(),
        settled(&r.0),
        r.0.name() == config.name@,
        r.0.pubsub() == config.pubsub@,
        r.0.replica().name() == here@,
        forall|t: Seq<char>, k: Seq<char>| (#[trigger] held(&r.0, t, k)).len() == 0,
        forall|n: Seq<char>| #[trigger] counts_as_up(&r.0, n),
        told == Some(PresenceInfo::CompleteInit),
        crate::gen_server::server::info_of::<PresenceInfo>(r.1@) == Some(
            PresenceInfoView::CompleteInit,
        ),
        crate::gen_server::server::turn_of(Some(r.1@)) == (
        crate::gen_server::server::TurnView::Info { raw: r.1@ }),
{
    let payload = PresenceInfo::payload(PresenceInfoView::CompleteInit);
    reveal_strlit("PresenceInfo");
    message::lemma_ascii_length("PresenceInfo"@);
    crate::gen_server::server::law_tagged_messages_are_infos("PresenceInfo"@, payload);
}

/// Completing the start asks the servers of the other nodes, and only them, for what the server has
/// not seen; it joins the group of its name, which it leaves in the end.
pub proof fn law_start_asks_the_others(
    p: &mut Presence,
    own: Pid,
    existing: &Vec<Pid>,
    connected: &Vec<String>,
    here: &str,
    r: Start,
    end: Option<(String, Pid)>,
    after: &Presence,
    i: int,
)
    requires
        old(p).wf(),
        call_ensures(Presence::complete_init, (p, own, existing, connected, here), r),
        *after == *final(p),
        call_ensures(Presence::terminate, (after,), end),
    ensures
        r.name@ == old(p).name(),
        r.group@ == "presence:"@ + old(p).name(),
        end matches Some((group, pid)) && group@ == r.group@ && pid@ == own@,
        table::views(r.request.0@) == table::views(existing@).filter(
            |q: PidView| q != own@ && q.node != here@,
        ),
        r.request.1 matches PresenceInfo::CrdtSyncRequest { from, context } && from@ == own@
            && piece::as_map(context@) == old(p).replica().seen(),
        r.nodes@.len() == r.request.0@.len() + connected@.len(),
        0 <= i < r.request.0@.len() ==> r.nodes@[i]@ == r.request.0@[i]@.node,
        0 <= i < connected@.len() ==> r.nodes@[r.request.0@.len() + i]@ == connected@[i]@,
{
    let all = table::views(existing@);
    seqs::lemma_filter_agree(
        all,
        |q: PidView| q != own@ && q.node != here@,
        crate::pubsub::subscriptions::is_remote(here@, Some(own@)),
    );
    let n = table::views(r.nodes@);
    let pids = table::views(r.request.0@);
    assert(n.len() == pids.len() + connected@.len());
    if 0 <= i < pids.len() {
        assert(n[i] == pids[i].node);
    }
    if 0 <= i < connected@.len() {
        assert(n[pids.len() + i] == table::views(connected@)[i]);
    }
}

/// A node that was not monitored before is sent all that a server holds, to the first presence
/// server there: every entry, and nothing that left.
pub proof fn law_welcome_brings_everything(
    p: &Presence,
    node: &str,
    topic: &str,
    members: &Vec<Pid>,
    r: Option<(Pid, PresenceInfo)>,
    t: Seq<char>,
    k: Seq<char>,
    i: int,
    m: int,
)
    requires
        p.wf(),
        call_ensures(Presence::welcome, (p, node, topic, members), r),
        0 <= i < held(p, t, k).len(),
        0 <= m < members@.len(),
        members@[m]@.node == node@,
        forall|j: int| 0 <= j < m ==> (#[trigger] members@[j])@.node != node@,
    ensures
        r matches Some((to, PresenceInfo::CrdtDelta { topic: s, delta })) && to@ == members@[m]@
            && s@ == topic@ && delta@.joins.contains(held(p, t, k)[i]) && delta@.leave_tags.len()
            == 0,
{
    let e = held(p, t, k)[i];
    let all = p.replica().entries();
    let q = |x: EntryView| x.topic == t && x.key == k;
    let ms = table::views(members@);
    p.replica().law_entries(t, k);
    assert(all.filter(q).contains(e));
    all.lemma_filter_contains_rev(q, e);
    assert(ms[m] == members@[m]@);
    match r {
        Some((to, info)) => {
            let a = choose|a: int| server::first_on(ms, node@, a) && to@ == (#[trigger] ms[a]);
            assert(server::first_on(ms, node@, a));
            assert(ms[a] == members@[a]@);
            if a < m {
                assert(members@[a]@.node != node@);
            } else if m < a {
                assert(ms[m].node != node@);
            }
            match info {
                PresenceInfo::CrdtDelta { topic: s, delta } => {
                    assert(types::unshared(delta@) == server::all_known(p.replica()));
                },
                _ => {},
            }
        },
        None => {
            assert(ms[m].node == node@);
        },
    }
}

} // verus!
