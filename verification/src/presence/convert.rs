//! Between tracked entries and what clients are told of them.

use vstd::prelude::*;

use crate::piece;
use crate::piece::Dict;
use crate::presence::crdt;
use crate::presence::crdt::{
    DeltaView, EntryView, PresenceDelta, Tag, TagView, TrackedEntry,
};
use crate::presence::types::{
    PresenceDiff, PresenceDiffView, PresenceMeta, PresenceMetaView, PresenceRef, PresenceState,
    PresenceStateView,
};
use crate::table;
use crate::table::Table;
use crate::text;

verus! {

/// The reference of a tag: the replica and the clock, with a colon between them.
pub open spec fn ref_of(tag: TagView) -> Seq<char> {
    tag.replica + ":"@ + text::decimal(tag.clock as nat)
}

/// The tag of a reference. One that is not a replica and a clock stands for a replica at clock
/// zero.
pub open spec fn tag_of(s: Seq<char>) -> TagView {
    match text::cut_last(s, ':') {
        Some((replica, clock)) => match text::parsed_u64(clock) {
            Some(clock) => TagView { replica, clock },
            None => TagView { replica: s, clock: 0 },
        },
        None => TagView { replica: s, clock: 0 },
    }
}

/// A tag's reference leads back to the tag.
pub proof fn law_ref_leads_back(tag: TagView)
    ensures
        tag_of(ref_of(tag)) == tag,
{
    reveal_strlit(":");
    let digits = text::decimal(tag.clock as nat);
    let s = ref_of(tag);
    let i: int = tag.replica.len() as int;
    assert(s[i] == ':');
    assert forall|j: int| i < j < s.len() implies s[j] != ':' by {
        assert(s[j] == digits[j - i - 1]);
        text::lemma_decimal_is_digits(tag.clock as nat, j - i - 1);
    }
    text::lemma_cut_last(s, ':', i);
    assert(s.take(i) =~= tag.replica);
    assert(s.skip(i + 1) =~= digits);
    text::law_decimal_reads_back(tag.clock);
}

/// The reference of a tag.
pub fn tag_to_ref(tag: &Tag) -> (r: PresenceRef)
    ensures
        r@ == ref_of(tag@),
{
    let clock = text::decimal_string(tag.clock);
    PresenceRef::from_string(text::join3(tag.replica.as_str(), ":", clock.as_str()))
}

/// The tag of a reference.
pub fn ref_to_tag(phx_ref: &PresenceRef) -> (r: Tag)
    ensures
        r@ == tag_of(phx_ref@),
{
    let s = phx_ref.as_str();
    match text::rsplit_once(s, ':') {
        Some((replica, clock)) => match text::parse_u64(clock) {
            Some(clock) => Tag::new(replica, clock),
            None => Tag::new(s, 0),
        },
        None => Tag::new(s, 0),
    }
}

/// What clients are told of an entry.
pub open spec fn meta_of(e: EntryView, now: u64) -> PresenceMetaView {
    PresenceMetaView {
        phx_ref: ref_of(e.tag),
        phx_ref_prev: None,
        pid: e.pid,
        meta: e.meta,
        updated_at: now,
    }
}

/// What clients are told of some entries.
pub open spec fn metas_of(s: Seq<EntryView>, now: u64) -> Seq<PresenceMetaView> {
    s.map_values(|e: EntryView| meta_of(e, now))
}

/// The entry that clients were told of.
pub open spec fn entry_of(topic: Seq<char>, key: Seq<char>, m: PresenceMetaView) -> EntryView {
    EntryView { topic, pid: m.pid, key, meta: m.meta, tag: tag_of(m.phx_ref) }
}

/// What clients are told of an entry leads back to the entry.
pub proof fn law_meta_leads_back(e: EntryView, now: u64)
    ensures
        entry_of(e.topic, e.key, meta_of(e, now)) == e,
{
    law_ref_leads_back(e.tag);
}

/// What clients are told of an entry.
pub fn entry_to_meta(entry: &TrackedEntry, now: u64) -> (r: PresenceMeta)
    ensures
        r@ == meta_of(entry@, now),
{
    PresenceMeta {
        phx_ref: tag_to_ref(&entry.tag),
        phx_ref_prev: None,
        pid: entry.pid.clone(),
        meta: crdt::copy_bytes(&entry.meta),
        updated_at: now,
    }
}

/// What clients are told of some entries.
pub fn entries_to_state(entries: &Vec<TrackedEntry>, now: u64) -> (r: PresenceState)
    ensures
        r@.metas == metas_of(table::views(entries@), now),
{
    let mut metas: Vec<PresenceMeta> = Vec::new();
    let mut i: usize = 0;
    while i < entries.len()
        invariant
            i <= entries@.len(),
            metas@.len() == i,
            forall|j: int| 0 <= j < i ==> (#[trigger] metas@[j])@ == meta_of(entries@[j]@, now),
        decreases entries@.len() - i,
    {
        metas.push(entry_to_meta(&entries[i], now));
        i = i + 1;
    }
    let r = PresenceState { metas };
    assert(r@.metas =~= metas_of(table::views(entries@), now));
    r
}

/// What clients are told of the entries under a key: nothing if there are none.
pub open spec fn state_of(s: Seq<EntryView>, now: u64) -> Option<PresenceStateView> {
    if s.len() == 0 {
        None
    } else {
        Some(PresenceStateView { metas: metas_of(s, now) })
    }
}

/// What clients are told of entries by key.
pub fn crdt_to_presence_state(found: &Table<String, Vec<TrackedEntry>>, now: u64) -> (r: Dict<
    PresenceState,
>)
    requires
        found.wf(),
        forall|key: Seq<char>| #[trigger]
            found@.contains_key(key) <==> crdt::bucket(found@, key).len() > 0,
    ensures
        forall|key: Seq<char>| #[trigger]
            piece::value_of(r@, key) == state_of(crdt::bucket(found@, key), now),
{
    let ghost rows = found.rows@;
    let mut r: Dict<PresenceState> = Dict::new();
    let mut i: usize = 0;
    while i < found.rows.len()
        invariant
            i <= found.rows@.len(),
            rows == found.rows@,
            found.wf(),
            piece::distinct(r@),
            forall|j: int|
                0 <= j < i ==> piece::value_of(r@, (#[trigger] rows[j]).0@) == Some(
                    (PresenceStateView { metas: metas_of(table::views(rows[j].1@), now) }),
                ),
            forall|key: Seq<char>| #[trigger]
                piece::value_of(r@, key) is Some ==> exists|j: int|
                    0 <= j < i && (#[trigger] rows[j]).0@ == key,
        decreases found.rows@.len() - i,
    {
        let ghost before = r@;
        let state = entries_to_state(&found.rows[i].1, now);
        let ghost s = state@;
        let ghost k = rows[i as int].0@;
        r.insert(found.rows[i].0.clone(), state);
        proof {
            piece::lemma_placed(before, k, s);
            assert forall|j: int| 0 <= j < i + 1 implies piece::value_of(
                r@,
                (#[trigger] rows[j]).0@,
            ) == Some((PresenceStateView { metas: metas_of(table::views(rows[j].1@), now) })) by {
                if j < i {
                    assert(rows[j].0@ != rows[i as int].0@);
                }
            }
            assert forall|key: Seq<char>| #[trigger]
                piece::value_of(r@, key) is Some implies exists|j: int|
                0 <= j < i + 1 && (#[trigger] rows[j]).0@ == key by {
                if key == k {
                    assert(rows[i as int].0@ == key);
                } else {
                    assert(piece::value_of(before, key) is Some);
                }
            }
        }
        i = i + 1;
    }
    proof {
        assert forall|key: Seq<char>| #[trigger] piece::value_of(r@, key) == state_of(
            crdt::bucket(found@, key),
            now,
        ) by {
            if found@.contains_key(key) {
                let j = table::lemma_key(rows, key);
                assert(piece::value_of(r@, rows[j].0@) is Some);
                assert(crdt::bucket(found@, key).len() > 0);
            } else {
                assert(crdt::bucket(found@, key).len() == 0);
                if piece::value_of(r@, key) is Some {
                    let j = choose|j: int| 0 <= j < i && (#[trigger] rows[j]).0@ == key;
                    table::lemma_row(rows, j);
                }
            }
        }
    }
    r
}

/// The entries under a key.
pub open spec fn under_key(key: Seq<char>) -> spec_fn(EntryView) -> bool {
    |e: EntryView| e.key == key
}

/// Whether rows tell of entries, each under its key.
pub open spec fn tells_of(
    d: Seq<(Seq<char>, PresenceStateView)>,
    s: Seq<EntryView>,
    now: u64,
) -> bool {
    forall|key: Seq<char>| #[trigger]
        piece::value_of(d, key) == state_of(s.filter(under_key(key)), now)
}

/// What clients are told of entries, grouped by key.
pub fn group_by_key(entries: &Vec<TrackedEntry>, now: u64) -> (r: Dict<PresenceState>)
    ensures
        tells_of(r@, table::views(entries@), now),
{
    let ghost all = table::views(entries@);
    let mut r: Dict<PresenceState> = Dict::new();
    let mut i: usize = 0;
    proof {
        reveal(Seq::filter);
        assert(all.take(0) =~= Seq::empty());
        assert(tells_of(r@, all.take(0), now));
    }
    while i < entries.len()
        invariant
            i <= entries@.len(),
            all == table::views(entries@),
            piece::distinct(r@),
            tells_of(r@, all.take(i as int), now),
        decreases entries@.len() - i,
    {
        let ghost before = r@;
        let ghost e = all[i as int];
        let ghost part = all.take(i as int);
        let ghost here = part.filter(under_key(e.key));
        let mut metas: Vec<PresenceMeta> = match r.get(entries[i].key.as_str()) {
            Some(state) => copy_metas(&state.metas),
            None => Vec::new(),
        };
        proof {
            assert(piece::value_of(before, e.key) == state_of(here, now));
            assert(table::views(metas@) =~= metas_of(here, now));
        }
        let ghost had = table::views(metas@);
        metas.push(entry_to_meta(&entries[i], now));
        let state = PresenceState { metas };
        let ghost s = state@;
        proof {
            assert(s.metas =~= had.push(meta_of(e, now)));
            assert(metas_of(here.push(e), now) =~= metas_of(here, now).push(meta_of(e, now)));
        }
        r.insert(entries[i].key.clone(), state);
        proof {
            piece::lemma_placed(before, e.key, s);
            let more = all.take(i + 1);
            assert(more =~= part.push(e));
            assert forall|key: Seq<char>| #[trigger] piece::value_of(r@, key) == state_of(
                more.filter(under_key(key)),
                now,
            ) by {
                part.lemma_filter_push(e, under_key(key));
                if key != e.key {
                    assert(piece::value_of(before, key) == state_of(
                        part.filter(under_key(key)),
                        now,
                    ));
                }
            }
        }
        i = i + 1;
    }
    assert(all.take(all.len() as int) =~= all);
    r
}

/// A copy of some metadata.
fn copy_metas(metas: &Vec<PresenceMeta>) -> (r: Vec<PresenceMeta>)
    ensures
        table::views(r@) == table::views(metas@),
{
    let mut r: Vec<PresenceMeta> = Vec::new();
    let mut i: usize = 0;
    while i < metas.len()
        invariant
            i <= metas@.len(),
            r@.len() == i,
            forall|j: int| 0 <= j < i ==> (#[trigger] r@[j])@ == metas@[j]@,
        decreases metas@.len() - i,
    {
        let m = &metas[i];
        let prev = match &m.phx_ref_prev {
            Some(x) => Some(x.copy()),
            None => None,
        };
        r.push(
            PresenceMeta {
                phx_ref: m.phx_ref.copy(),
                phx_ref_prev: prev,
                pid: m.pid.clone(),
                meta: crdt::copy_bytes(&m.meta),
                updated_at: m.updated_at,
            },
        );
        i = i + 1;
    }
    assert(table::views(r@) =~= table::views(metas@));
    r
}

/// The entries that clients were told of, row by row.
pub open spec fn joins_of(topic: Seq<char>, rows: Seq<(Seq<char>, PresenceStateView)>) -> Seq<
    EntryView,
>
    decreases rows.len(),
{
    if rows.len() == 0 {
        Seq::empty()
    } else {
        joins_of(topic, rows.drop_last()) + rows.last().1.metas.map_values(
            |m: PresenceMetaView| entry_of(topic, rows.last().0, m),
        )
    }
}

/// The tags that clients were told of, row by row.
pub open spec fn tags_in(rows: Seq<(Seq<char>, PresenceStateView)>) -> Seq<TagView>
    decreases rows.len(),
{
    if rows.len() == 0 {
        Seq::empty()
    } else {
        tags_in(rows.drop_last()) + rows.last().1.metas.map_values(
            |m: PresenceMetaView| tag_of(m.phx_ref),
        )
    }
}

/// The delta that stands for a diff.
pub open spec fn diff_delta(topic: Seq<char>, diff: PresenceDiffView) -> DeltaView {
    DeltaView {
        joins: joins_of(topic, diff.joins),
        leave_tags: tags_in(diff.leaves),
        context: Map::empty(),
    }
}

/// The delta that stands for the state of a topic.
pub open spec fn state_delta(
    topic: Seq<char>,
    state: Seq<(Seq<char>, PresenceStateView)>,
) -> DeltaView {
    DeltaView { joins: joins_of(topic, state), leave_tags: Seq::empty(), context: Map::empty() }
}

fn rows_to_joins(topic: &str, rows: &Dict<PresenceState>) -> (r: Vec<TrackedEntry>)
    ensures
        table::views(r@) == joins_of(topic@, rows@),
{
    let ghost all = rows@;
    let mut out: Vec<TrackedEntry> = Vec::new();
    let mut i: usize = 0;
    proof {
        assert(all.take(0) =~= Seq::empty());
        assert(table::views(out@) =~= joins_of(topic@, all.take(0)));
    }
    while i < rows.len()
        invariant
            i <= all.len(),
            all == rows@,
            table::views(out@) == joins_of(topic@, all.take(i as int)),
        decreases all.len() - i,
    {
        let row = rows.row(i);
        let ghost f = |m: PresenceMetaView| entry_of(topic@, all[i as int].0, m);
        let ghost ms = all[i as int].1.metas;
        let ghost start = table::views(out@);
        let mut j: usize = 0;
        assert(table::views(out@) =~= start + ms.take(0).map_values(f));
        while j < row.value.metas.len()
            invariant
                j <= row.value.metas@.len(),
                row@ == all[i as int],
                ms == all[i as int].1.metas,
                f == (|m: PresenceMetaView| entry_of(topic@, all[i as int].0, m)),
                table::views(out@) == start + ms.take(j as int).map_values(f),
            decreases row.value.metas@.len() - j,
        {
            let ghost before = table::views(out@);
            let meta = &row.value.metas[j];
            assert(meta@ == ms[j as int]);
            let entry = TrackedEntry {
                topic: topic.to_owned(),
                pid: meta.pid.clone(),
                key: row.key.clone(),
                meta: crdt::copy_bytes(&meta.meta),
                tag: ref_to_tag(&meta.phx_ref),
            };
            assert(entry@ == f(ms[j as int]));
            out.push(entry);
            proof {
                assert(table::views(out@) =~= before.push(f(ms[j as int])));
                assert(ms.take(j + 1).map_values(f) =~= ms.take(j as int).map_values(f).push(
                    f(ms[j as int]),
                ));
            }
            j = j + 1;
        }
        proof {
            assert(ms.take(ms.len() as int) =~= ms);
            assert(all.take(i + 1).drop_last() =~= all.take(i as int));
            assert(all.take(i + 1).last() == all[i as int]);
            assert(f =~= (|m: PresenceMetaView| entry_of(topic@, all.take(i + 1).last().0, m)));
        }
        i = i + 1;
    }
    assert(all.take(all.len() as int) =~= all);
    out
}

fn rows_to_tags(rows: &Dict<PresenceState>) -> (r: Vec<Tag>)
    ensures
        table::views(r@) == tags_in(rows@),
{
    let ghost all = rows@;
    let ghost f = |m: PresenceMetaView| tag_of(m.phx_ref);
    let mut out: Vec<Tag> = Vec::new();
    let mut i: usize = 0;
    proof {
        assert(all.take(0) =~= Seq::empty());
        assert(table::views(out@) =~= tags_in(all.take(0)));
    }
    while i < rows.len()
        invariant
            i <= all.len(),
            all == rows@,
            f == (|m: PresenceMetaView| tag_of(m.phx_ref)),
            table::views(out@) == tags_in(all.take(i as int)),
        decreases all.len() - i,
    {
        let row = rows.row(i);
        let ghost ms = all[i as int].1.metas;
        let ghost start = table::views(out@);
        let mut j: usize = 0;
        assert(table::views(out@) =~= start + ms.take(0).map_values(f));
        while j < row.value.metas.len()
            invariant
                j <= row.value.metas@.len(),
                row@ == all[i as int],
                ms == all[i as int].1.metas,
                f == (|m: PresenceMetaView| tag_of(m.phx_ref)),
                table::views(out@) == start + ms.take(j as int).map_values(f),
            decreases row.value.metas@.len() - j,
        {
            let ghost before = table::views(out@);
            assert(row.value.metas@[j as int]@ == ms[j as int]);
            out.push(ref_to_tag(&row.value.metas[j].phx_ref));
            proof {
                assert(table::views(out@) =~= before.push(f(ms[j as int])));
                assert(ms.take(j + 1).map_values(f) =~= ms.take(j as int).map_values(f).push(
                    f(ms[j as int]),
                ));
            }
            j = j + 1;
        }
        proof {
            assert(ms.take(ms.len() as int) =~= ms);
            assert(all.take(i + 1).drop_last() =~= all.take(i as int));
            assert(all.take(i + 1).last() == all[i as int]);
        }
        i = i + 1;
    }
    assert(all.take(all.len() as int) =~= all);
    out
}

/// The delta that stands for a diff.
pub fn presence_diff_to_crdt_delta(topic: &str, diff: &PresenceDiff) -> (r: PresenceDelta)
    ensures
        r.wf(),
        r@ == diff_delta(topic@, diff@),
{
    PresenceDelta {
        joins: rows_to_joins(topic, &diff.joins),
        leave_tags: rows_to_tags(&diff.leaves),
        context: Table::new(),
    }
}

/// The delta that stands for the state of a topic.
pub fn presence_state_to_crdt_delta(topic: &str, state: &Dict<PresenceState>) -> (r: PresenceDelta)
    ensures
        r.wf(),
        r@ == state_delta(topic@, state@),
{
    let r = PresenceDelta {
        joins: rows_to_joins(topic, state),
        leave_tags: Vec::new(),
        context: Table::new(),
    };
    assert(r@.leave_tags =~= Seq::<TagView>::empty());
    r
}

} // verus!
