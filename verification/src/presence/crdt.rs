//! An observed-remove set without tombstones, which tracks who is present where.
//!
//! Every entry carries a tag, the replica that tracked it and that replica's clock, and every
//! replica keeps a causal context, the highest clock that it has seen of each replica. Two
//! replicas that exchange what they hold end up with the same entries.

use vstd::prelude::*;
use vstd::seq_lib::*;

use crate::process::{Pid, PidView};
use crate::seqs;
use crate::table;
use crate::table::{Key, Table};

verus! {

/// A unique identifier of a replica, usually the name of its node.
pub type Replica = String;

/// A logical clock, which grows with each change at its replica.
pub type Clock = u64;

/// What a tag stands for.
pub struct TagView {
    /// The replica that made the entry.
    pub replica: Seq<char>,
    /// The replica's clock at that moment.
    pub clock: u64,
}

/// A unique tag of one tracked entry.
#[derive(Debug)]
pub struct Tag {
    /// The replica that made the entry.
    pub replica: Replica,
    /// The replica's clock at that moment.
    pub clock: Clock,
}

impl View for Tag {
    type V = TagView;

    open spec fn view(&self) -> TagView {
        TagView { replica: self.replica@, clock: self.clock }
    }
}

impl Tag {
    /// The tag of a replica's clock.
    pub fn new(replica: &str, clock: Clock) -> (r: Self)
        ensures
            r@ == (TagView { replica: replica@, clock }),
    {
        Tag { replica: replica.to_owned(), clock }
    }
}

impl Key for Tag {
    fn same(&self, other: &Self) -> (r: bool) {
        self.clock == other.clock && self.replica == other.replica
    }

    fn dup(&self) -> (r: Self) {
        Tag { replica: self.replica.clone(), clock: self.clock }
    }
}

/// What a tracked entry stands for.
pub struct EntryView {
    /// The topic that the process is present in.
    pub topic: Seq<char>,
    /// The process.
    pub pid: PidView,
    /// The key under which it is present.
    pub key: Seq<char>,
    /// Its encoded metadata.
    pub meta: Seq<u8>,
    /// The entry's unique tag.
    pub tag: TagView,
}

/// A process that is present in a topic under a key.
#[derive(Debug)]
pub struct TrackedEntry {
    /// The topic that the process is present in.
    pub topic: String,
    /// The process.
    pub pid: Pid,
    /// The key under which it is present.
    pub key: String,
    /// Its encoded metadata.
    pub meta: Vec<u8>,
    /// The entry's unique tag.
    pub tag: Tag,
}

impl View for TrackedEntry {
    type V = EntryView;

    open spec fn view(&self) -> EntryView {
        EntryView {
            topic: self.topic@,
            pid: self.pid@,
            key: self.key@,
            meta: self.meta@,
            tag: self.tag@,
        }
    }
}

impl TrackedEntry {
    /// An entry with the given parts.
    pub fn new(topic: &str, pid: Pid, key: &str, meta: Vec<u8>, tag: Tag) -> (r: Self)
        ensures
            r@ == (EntryView {
                topic: topic@,
                pid: pid@,
                key: key@,
                meta: meta@,
                tag: tag@,
            }),
    {
        TrackedEntry { topic: topic.to_owned(), pid, key: key.to_owned(), meta, tag }
    }
}

/// A copy of a byte vector.
pub fn copy_bytes(v: &Vec<u8>) -> (r: Vec<u8>)
    ensures
        r@ == v@,
{
    let r = v.clone();
    assert(r@ =~= v@);
    r
}

impl Clone for TrackedEntry {
    fn clone(&self) -> (r: Self)
        ensures
            r@ == self@,
    {
        TrackedEntry {
            topic: self.topic.clone(),
            pid: self.pid.clone(),
            key: self.key.clone(),
            meta: copy_bytes(&self.meta),
            tag: self.tag.dup(),
        }
    }
}

/// The entries of `s` that stand under `key` in `topic`, in their order.
pub open spec fn under(s: Seq<EntryView>, topic: Seq<char>, key: Seq<char>) -> Seq<EntryView> {
    s.filter(|e: EntryView| e.topic == topic && e.key == key)
}

/// Entries by topic and key.
pub type Values = Map<(Seq<char>, Seq<char>), Seq<EntryView>>;

/// What `v` holds under `key` in `topic`.
pub open spec fn at(v: Values, topic: Seq<char>, key: Seq<char>) -> Seq<EntryView> {
    if v.contains_key((topic, key)) {
        v[(topic, key)]
    } else {
        Seq::empty()
    }
}

/// `v` without the entries that `gone` picks; keys left with no entry go too.
pub open spec fn without(v: Values, gone: spec_fn(EntryView) -> bool) -> Values {
    Map::new(
        |k: (Seq<char>, Seq<char>)|
            v.contains_key(k) && v[k].filter(|e: EntryView| !gone(e)).len() > 0,
        |k: (Seq<char>, Seq<char>)| v[k].filter(|e: EntryView| !gone(e)),
    )
}

/// The rows of a table of entries, as `Values`.
spec fn row_values(rows: Seq<((String, String), Vec<TrackedEntry>)>) -> Values {
    table::row_map(rows).map_values(|v: Vec<TrackedEntry>| table::views(v@))
}

/// The rows of a table of entries, one after the other.
spec fn flat(rows: Seq<((String, String), Vec<TrackedEntry>)>) -> Seq<EntryView>
    decreases rows.len(),
{
    if rows.len() == 0 {
        Seq::empty()
    } else {
        flat(rows.drop_last()) + table::views(rows.last().1@)
    }
}

/// Every key has entries, and the entries stand under their topic and key.
pub open spec fn good(v: Values) -> bool {
    forall|k: (Seq<char>, Seq<char>)| #[trigger]
        v.contains_key(k) ==> v[k].len() > 0 && forall|j: int|
            0 <= j < v[k].len() ==> (#[trigger] v[k][j]).topic == k.0 && v[k][j].key == k.1
}

/// Which entries an operation removes.
enum Pick<'a> {
    All,
    ByTag(&'a Tag),
    ByPid(&'a Pid),
    ByReplica(&'a str),
}

impl<'a> Pick<'a> {
    spec fn picks(self, e: EntryView) -> bool {
        match self {
            Pick::All => true,
            Pick::ByTag(tag) => e.tag == tag@,
            Pick::ByPid(pid) => e.pid == pid@,
            Pick::ByReplica(replica) => e.tag.replica == replica@,
        }
    }

    spec fn pred(self) -> spec_fn(EntryView) -> bool {
        |e: EntryView| self.picks(e)
    }

    fn test(&self, e: &TrackedEntry) -> (r: bool)
        ensures
            r == self.picks(e@),
    {
        match self {
            Pick::All => true,
            Pick::ByTag(tag) => e.tag.same(tag),
            Pick::ByPid(pid) => e.pid.same(pid),
            Pick::ByReplica(replica) => crate::text::same_str(e.tag.replica.as_str(), replica),
        }
    }
}

/// Parts the entries that `pick` picks, appended to `gone`, from those that it leaves.
fn part(entries: Vec<TrackedEntry>, pick: &Pick<'_>, gone: &mut Vec<TrackedEntry>) -> (kept: Vec<
    TrackedEntry,
>)
    ensures
        table::views(kept@) == table::views(entries@).filter(|e: EntryView| !(pick.pred())(e)),
        table::views(final(gone)@) == table::views(old(gone)@) + table::views(entries@).filter(pick.pred()),
{
    let ghost all = table::views(entries@);
    let ghost before = table::views(gone@);
    let ghost p = pick.pred();
    let ghost np = |e: EntryView| !p(e);
    let mut kept: Vec<TrackedEntry> = Vec::new();
    assert(table::views(kept@) =~= all.take(0).filter(np));
    assert(table::views(gone@) =~= before + all.take(0).filter(p));
    for entry in it: entries
        invariant
            it.seq() == entries@,
            all == table::views(entries@),
            p == pick.pred(),
            np == (|e: EntryView| !p(e)),
            table::views(kept@) == all.take(it.index()).filter(np),
            table::views(gone@) == before + all.take(it.index()).filter(p),
    {
        let ghost i = it.index();
        proof {
            assert(all.take(i + 1) =~= all.take(i).push(all[i]));
            all.take(i).lemma_filter_push(all[i], p);
            all.take(i).lemma_filter_push(all[i], np);
        }
        if pick.test(&entry) {
            let ghost g = gone@;
            gone.push(entry);
            assert(table::views(gone@) =~= table::views(g).push(all[i]));
        } else {
            let ghost g = kept@;
            kept.push(entry);
            assert(table::views(kept@) =~= table::views(g).push(all[i]));
        }
    }
    assert(all.take(all.len() as int) =~= all);
    kept
}

/// Two collections of entries that hold the same under every key are the same.
pub proof fn lemma_same_values(a: Values, b: Values)
    requires
        good(a),
        good(b),
        forall|t: Seq<char>, k: Seq<char>| #[trigger] at(a, t, k) == at(b, t, k),
    ensures
        a == b,
{
    assert forall|q: (Seq<char>, Seq<char>)| a.contains_key(q) == b.contains_key(q) by {
        assert(at(a, q.0, q.1) == at(b, q.0, q.1));
        assert(q == (q.0, q.1));
    }
    assert forall|q: (Seq<char>, Seq<char>)| a.contains_key(q) implies a[q] == b[q] by {
        assert(at(a, q.0, q.1) == at(b, q.0, q.1));
        assert(q == (q.0, q.1));
    }
    assert(a =~= b);
}

/// What is left under a key when the entries that `gone` picks are removed.
pub proof fn lemma_without_at(v: Values, gone: spec_fn(EntryView) -> bool)
    ensures
        good(v) ==> good(without(v, gone)),
        forall|t: Seq<char>, k: Seq<char>| #[trigger]
            at(without(v, gone), t, k) == at(v, t, k).filter(|e: EntryView| !gone(e)),
{
    let w = without(v, gone);
    let stay = |e: EntryView| !gone(e);
    assert forall|t: Seq<char>, k: Seq<char>| #[trigger] at(w, t, k) == at(v, t, k).filter(
        stay,
    ) by {
        reveal(Seq::filter);
        if v.contains_key((t, k)) && v[(t, k)].filter(stay).len() == 0 {
            assert(v[(t, k)].filter(stay) =~= Seq::<EntryView>::empty());
        }
    }
    if good(v) {
        assert forall|k: (Seq<char>, Seq<char>)| #[trigger] w.contains_key(k) implies w[k].len() > 0
            && (forall|j: int|
            0 <= j < w[k].len() ==> (#[trigger] w[k][j]).topic == k.0 && w[k][j].key == k.1) by {
            assert forall|j: int| 0 <= j < w[k].len() implies (#[trigger] w[k][j]).topic == k.0
                && w[k][j].key == k.1 by {
                v[k].lemma_filter_contains_rev(stay, w[k][j]);
            }
        }
    }
}

proof fn lemma_flat_push(
    rows: Seq<((String, String), Vec<TrackedEntry>)>,
    row: ((String, String), Vec<TrackedEntry>),
)
    ensures
        flat(rows.push(row)) == flat(rows) + table::views(row.1@),
{
    assert(rows.push(row).drop_last() =~= rows);
}

proof fn lemma_row_values_push(
    rows: Seq<((String, String), Vec<TrackedEntry>)>,
    row: ((String, String), Vec<TrackedEntry>),
)
    requires
        table::distinct_keys(rows.push(row)),
    ensures
        table::distinct_keys(rows),
        !row_values(rows).contains_key(row.0@),
        row_values(rows.push(row)) == row_values(rows).insert(row.0@, table::views(row.1@)),
{
    let all = rows.push(row);
    assert forall|i: int, j: int| 0 <= i < j < rows.len() implies #[trigger] rows[i].0@
        != #[trigger] rows[j].0@ by {
        assert(all[i].0@ != all[j].0@);
    }
    if table::row_map(rows).contains_key(row.0@) {
        let i = table::lemma_key(rows, row.0@);
        assert(all[i].0@ != all[rows.len() as int].0@);
    }
    table::lemma_push_row(rows, row.0, row.1);
    assert(row_values(all) =~= row_values(rows).insert(row.0@, table::views(row.1@)));
}

/// The rows, one after the other, hold under each key what the table holds there.
proof fn lemma_flat_under(
    rows: Seq<((String, String), Vec<TrackedEntry>)>,
    t: Seq<char>,
    k: Seq<char>,
)
    requires
        table::distinct_keys(rows),
        good(row_values(rows)),
    ensures
        under(flat(rows), t, k) == at(row_values(rows), t, k),
    decreases rows.len(),
{
    let p = |e: EntryView| e.topic == t && e.key == k;
    if rows.len() == 0 {
        seqs::lemma_filter_none(flat(rows), p);
    } else {
        let init = rows.drop_last();
        let row = rows.last();
        assert(init.push(row) =~= rows);
        lemma_row_values_push(init, row);
        let v = row_values(rows);
        let w = row_values(init);
        assert forall|q: (Seq<char>, Seq<char>)| #[trigger] w.contains_key(q) implies w[q].len() > 0
            && (forall|j: int|
            0 <= j < w[q].len() ==> (#[trigger] w[q][j]).topic == q.0 && w[q][j].key == q.1) by {
            assert(v.contains_key(q));
            assert(v[q] == w[q]);
        }
        lemma_flat_under(init, t, k);
        let last = table::views(row.1@);
        Seq::filter_distributes_over_add(flat(init), last, p);
        assert(v.contains_key(row.0@));
        assert(v[row.0@] == last);
        if row.0@ == (t, k) {
            seqs::lemma_filter_all(last, p);
            assert(at(w, t, k) == Seq::<EntryView>::empty());
            assert(flat(init).filter(p) + last =~= last);
        } else {
            assert forall|j: int| 0 <= j < last.len() implies !p(#[trigger] last[j]) by {
                assert(v[row.0@][j].topic == row.0@.0);
                assert(v[row.0@][j].key == row.0@.1);
            }
            seqs::lemma_filter_none(last, p);
            assert(flat(init).filter(p) + Seq::<EntryView>::empty() =~= flat(init).filter(p));
        }
    }
}

/// Removes the entries that `pick` picks, appending them to `gone`.
fn sweep(
    values: &mut Table<(String, String), Vec<TrackedEntry>>,
    pick: &Pick<'_>,
    gone: &mut Vec<TrackedEntry>,
)
    requires
        old(values).wf(),
        good(row_values(old(values).rows@)),
    ensures
        final(values).wf(),
        good(row_values(final(values).rows@)),
        row_values(final(values).rows@) == without(row_values(old(values).rows@), pick.pred()),
        flat(final(values).rows@) == flat(old(values).rows@).filter(
            |e: EntryView| !(pick.pred())(e),
        ),
        table::views(final(gone)@) == table::views(old(gone)@) + flat(old(values).rows@).filter(
            pick.pred(),
        ),
{
    let ghost all = values.rows@;
    let ghost before = table::views(gone@);
    let ghost p = pick.pred();
    let ghost np = |e: EntryView| !p(e);
    let mut rows: Vec<((String, String), Vec<TrackedEntry>)> = Vec::new();
    std::mem::swap(&mut rows, &mut values.rows);
    let mut out: Vec<((String, String), Vec<TrackedEntry>)> = Vec::new();
    proof {
        reveal(Seq::filter);
        assert(all.take(0) =~= Seq::empty());
        assert(row_values(out@) =~= without(row_values(all.take(0)), p));
        assert(before + Seq::<EntryView>::empty() =~= before);
    }
    for row in it: rows
        invariant
            it.seq() == rows@,
            rows@ == all,
            table::distinct_keys(all),
            good(row_values(all)),
            p == pick.pred(),
            np == (|e: EntryView| !p(e)),
            table::distinct_keys(out@),
            row_values(out@) == without(row_values(all.take(it.index())), p),
            flat(out@) == flat(all.take(it.index())).filter(np),
            table::views(gone@) == before + flat(all.take(it.index())).filter(p),
    {
        let ghost i = it.index();
        let ghost sofar = all.take(i);
        let ghost entries = table::views(row.1@);
        let ghost v = row_values(sofar);
        proof {
            assert(all.take(i + 1) =~= sofar.push(row));
            assert forall|a: int, b: int|
                0 <= a < b < sofar.push(row).len() implies #[trigger] sofar.push(row)[a].0@
                != #[trigger] sofar.push(row)[b].0@ by {
                assert(all[a].0@ != all[b].0@);
            }
            lemma_row_values_push(sofar, row);
            lemma_flat_push(sofar, row);
            Seq::filter_distributes_over_add(flat(sofar), entries, p);
            Seq::filter_distributes_over_add(flat(sofar), entries, np);
        }
        let (key, list) = row;
        let ghost g = table::views(gone@);
        let kept = part(list, pick, gone);
        proof {
            assert(g + entries.filter(p) =~= before + (flat(sofar).filter(p) + entries.filter(p)));
        }
        let ghost w = without(v.insert(key@, entries), p);
        if kept.len() > 0 {
            proof {
                assert(w =~= without(v, p).insert(key@, entries.filter(np)));
                assert(!row_values(out@).contains_key(key@));
                table::lemma_push_row(out@, key, kept);
                lemma_flat_push(out@, (key, kept));
                assert(row_values(out@.push((key, kept))) =~= row_values(out@).insert(
                    key@,
                    table::views(kept@),
                ));
            }
            out.push((key, kept));
        } else {
            proof {
                assert(entries.filter(np).len() == 0) by {
                    assert(table::views(kept@).len() == 0);
                }
                assert(w =~= without(v, p));
                assert(flat(sofar).filter(np) + entries.filter(np) =~= flat(sofar).filter(np));
            }
        }
    }
    proof {
        assert(all.take(all.len() as int) =~= all);
        lemma_without_at(row_values(all), p);
    }
    values.rows = out;
}

/// Whether a replica is up or down.
#[derive(Debug, Clone, Copy)]
pub enum ReplicaStatus {
    /// The replica is connected.
    Up,
    /// The replica is not reachable.
    Down {
        /// When it went down, in seconds since the epoch.
        since: u64,
        /// Whether it is expected back.
        temporary: bool,
    },
}

impl Default for ReplicaStatus {
    fn default() -> (r: Self)
        ensures
            r == ReplicaStatus::Up,
    {
        ReplicaStatus::Up
    }
}

/// What a delta stands for.
pub struct DeltaView {
    /// The entries added.
    pub joins: Seq<EntryView>,
    /// The tags of the entries removed.
    pub leave_tags: Seq<TagView>,
    /// The causal context of the sender.
    pub context: Map<Seq<char>, u64>,
}

/// A set of changes that one replica sends to another.
pub struct PresenceDelta {
    /// The entries added.
    pub joins: Vec<TrackedEntry>,
    /// The tags of the entries removed.
    pub leave_tags: Vec<Tag>,
    /// The causal context of the sender.
    pub context: Table<Replica, Clock>,
}

impl View for PresenceDelta {
    type V = DeltaView;

    open spec fn view(&self) -> DeltaView {
        DeltaView {
            joins: table::views(self.joins@),
            leave_tags: table::views(self.leave_tags@),
            context: self.context@,
        }
    }
}

impl PresenceDelta {
    /// The invariant of a delta: its context gives each replica one clock.
    pub open spec fn wf(&self) -> bool {
        self.context.wf()
    }

    /// A delta without changes.
    pub fn empty() -> (r: Self)
        ensures
            r.wf(),
            r@ == (DeltaView {
                joins: Seq::empty(),
                leave_tags: Seq::empty(),
                context: Map::empty(),
            }),
    {
        let r = PresenceDelta { joins: Vec::new(), leave_tags: Vec::new(), context: Table::new() };
        assert(r@.joins =~= Seq::<EntryView>::empty());
        assert(r@.leave_tags =~= Seq::<TagView>::empty());
        r
    }

    /// Whether the delta adds and removes nothing.
    pub fn is_empty(&self) -> (r: bool)
        ensures
            r == (self@.joins.len() == 0 && self@.leave_tags.len() == 0),
    {
        self.joins.len() == 0 && self.leave_tags.len() == 0
    }

    /// The entries that the delta adds to `topic`.
    pub fn joins_for_topic(&self, topic: &str) -> (r: Vec<&TrackedEntry>)
        ensures
            Seq::new(r@.len(), |i: int| r@[i]@) == self@.joins.filter(
                |e: EntryView| e.topic == topic@,
            ),
    {
        let ghost p = |e: EntryView| e.topic == topic@;
        let mut out: Vec<&TrackedEntry> = Vec::new();
        let mut i: usize = 0;
        assert(Seq::new(out@.len(), |j: int| out@[j]@) =~= self@.joins.take(0).filter(p)) by {
            reveal(Seq::filter);
        }
        while i < self.joins.len()
            invariant
                i <= self.joins@.len(),
                p == (|e: EntryView| e.topic == topic@),
                Seq::new(out@.len(), |j: int| out@[j]@) == self@.joins.take(i as int).filter(p),
            decreases self.joins@.len() - i,
        {
            let ghost js = self@.joins;
            let ghost before = out@;
            proof {
                assert(js.take(i + 1) =~= js.take(i as int).push(js[i as int]));
                js.take(i as int).lemma_filter_push(js[i as int], p);
            }
            if crate::text::same_str(self.joins[i].topic.as_str(), topic) {
                out.push(&self.joins[i]);
                assert(Seq::new(out@.len(), |j: int| out@[j]@) =~= Seq::new(
                    before.len(),
                    |j: int| before[j]@,
                ).push(js[i as int]));
            }
            i = i + 1;
        }
        assert(self@.joins.take(self@.joins.len() as int) =~= self@.joins);
        out
    }
}

impl Default for PresenceDelta {
    fn default() -> (r: Self)
        ensures
            r.wf(),
            r@ == (DeltaView {
                joins: Seq::empty(),
                leave_tags: Seq::empty(),
                context: Map::empty(),
            }),
    {
        PresenceDelta::empty()
    }
}

/// What a merge added and removed.
pub struct MergeResult {
    /// The entries added.
    pub joins: Vec<TrackedEntry>,
    /// The entries removed.
    pub leaves: Vec<TrackedEntry>,
}

impl MergeResult {
    /// Whether the merge changed no entry.
    pub fn is_empty(&self) -> (r: bool)
        ensures
            r == (self.joins@.len() == 0 && self.leaves@.len() == 0),
    {
        self.joins.len() == 0 && self.leaves.len() == 0
    }
}

/// A copy of a causal context.
pub fn copy_context(context: &Table<Replica, Clock>) -> (r: Table<Replica, Clock>)
    requires
        context.wf(),
    ensures
        r.wf(),
        r@ == context@,
{
    let ghost all = context.rows@;
    let mut rows: Vec<(Replica, Clock)> = Vec::new();
    let mut i: usize = 0;
    while i < context.rows.len()
        invariant
            all == context.rows@,
            i <= all.len(),
            rows@.len() == i,
            forall|j: int| 0 <= j < i ==> (#[trigger] rows@[j]).0@ == all[j].0@ && rows@[j].1 == all[j].1,
        decreases all.len() - i,
    {
        rows.push((context.rows[i].0.clone(), context.rows[i].1));
        i = i + 1;
    }
    let r = Table { rows };
    proof {
        assert forall|a: int, b: int| 0 <= a < b < r.rows@.len() implies #[trigger] r.rows@[a].0@
            != #[trigger] r.rows@[b].0@ by {
            assert(all[a].0@ != all[b].0@);
        }
        assert forall|q: Seq<char>| r@.contains_key(q) == context@.contains_key(q) by {
            if r@.contains_key(q) {
                let a = table::lemma_key(r.rows@, q);
                table::lemma_row(all, a);
            }
            if context@.contains_key(q) {
                let a = table::lemma_key(all, q);
                table::lemma_row(r.rows@, a);
            }
        }
        assert forall|q: Seq<char>| r@.contains_key(q) implies r@[q] == context@[q] by {
            let a = table::lemma_key(r.rows@, q);
            table::lemma_row(all, a);
            table::lemma_row(r.rows@, a);
        }
        assert(r@ =~= context@);
    }
    r
}

/// The clock that a context gives a replica: zero if it gives none.
pub open spec fn clock_of(context: Map<Seq<char>, u64>, replica: Seq<char>) -> u64 {
    if context.contains_key(replica) {
        context[replica]
    } else {
        0
    }
}

/// Whether a replica counts as up: every replica does that is not known to be down.
pub open spec fn is_up(status: Map<Seq<char>, ReplicaStatus>, replica: Seq<char>) -> bool {
    !(status.contains_key(replica) && status[replica] is Down)
}

/// The positions that an index of processes gives `pid`.
pub open spec fn filed_under(
    index: Map<PidView, Seq<(Seq<char>, Seq<char>)>>,
    pid: PidView,
) -> Seq<(Seq<char>, Seq<char>)> {
    if index.contains_key(pid) {
        index[pid]
    } else {
        Seq::empty()
    }
}

/// The index leads from each entry's process to the entry's topic and key.
pub open spec fn covers(index: Map<PidView, Seq<(Seq<char>, Seq<char>)>>, v: Values) -> bool {
    forall|k: (Seq<char>, Seq<char>), j: int|
        v.contains_key(k) && 0 <= j < v[k].len() ==> filed_under(
            index,
            (#[trigger] v[k][j]).pid,
        ).contains(k)
}

/// The tags of some entries.
pub open spec fn tags_of(s: Seq<EntryView>) -> Seq<TagView> {
    s.map_values(|e: EntryView| e.tag)
}

/// `v` with exactly the entries `s` under `key` in `topic`.
pub open spec fn with_at(v: Values, topic: Seq<char>, key: Seq<char>, s: Seq<EntryView>) -> Values {
    if s.len() == 0 {
        v.remove((topic, key))
    } else {
        v.insert((topic, key), s)
    }
}

/// The entries of `pid` that are met on a walk through `keys`, each key the first time that it
/// comes up.
pub open spec fn gathered(
    v: Values,
    keys: Seq<(Seq<char>, Seq<char>)>,
    pid: PidView
) -> Seq<EntryView>
    decreases keys.len(),
{
    if keys.len() == 0 {
        Seq::empty()
    } else {
        let rest = keys.drop_last();
        let k = keys.last();
        if rest.contains(k) {
            gathered(v, rest, pid)
        } else {
            gathered(v, rest, pid) + at(v, k.0, k.1).filter(|e: EntryView| e.pid == pid)
        }
    }
}

/// The entries of `s` whose replica counts as up.
pub open spec fn visible(
    s: Seq<EntryView>,
    status: Map<Seq<char>,
    ReplicaStatus>
) -> Seq<EntryView> {
    s.filter(|e: EntryView| is_up(status, e.tag.replica))
}

/// What a table of entry lists holds under `k`.
pub open spec fn bucket(m: Map<Seq<char>, Vec<TrackedEntry>>, k: Seq<char>) -> Seq<EntryView> {
    if m.contains_key(k) {
        table::views(m[k]@)
    } else {
        Seq::empty()
    }
}

/// What a table of topics holds under `key` in `topic`.
pub open spec fn cell(
    m: Map<Seq<char>, Table<String, Vec<TrackedEntry>>>,
    topic: Seq<char>,
    key: Seq<char>,
) -> Seq<EntryView> {
    if m.contains_key(topic) {
        bucket(m[topic]@, key)
    } else {
        Seq::empty()
    }
}

/// Whether a context has seen a tag.
pub open spec fn dominated(context: Map<Seq<char>, u64>, tag: TagView) -> bool {
    context.contains_key(tag.replica) && tag.clock <= context[tag.replica]
}

/// Whether some entry of `s` has the tag.
pub open spec fn has_tag(s: Seq<EntryView>, tag: TagView) -> bool {
    exists|j: int| 0 <= j < s.len() && (#[trigger] s[j]).tag == tag
}

/// Whether a merge adds the entry: its tag is new to the context, and no entry under its key has
/// it.
pub open spec fn accepts(context: Map<Seq<char>, u64>, v: Values, e: EntryView) -> bool {
    !dominated(context, e.tag) && !has_tag(at(v, e.topic, e.key), e.tag)
}

/// `v` with an entry added under its key.
pub open spec fn added(v: Values, e: EntryView) -> Values {
    v.insert((e.topic, e.key), at(v, e.topic, e.key).push(e))
}

/// What `v` becomes when the accepted ones of `joins` are added in turn.
pub open spec fn after_joins(
    context: Map<Seq<char>, u64>,
    v: Values,
    joins: Seq<EntryView>,
) -> Values
    decreases joins.len(),
{
    if joins.len() == 0 {
        v
    } else {
        let w = after_joins(context, v, joins.drop_last());
        if accepts(context, w, joins.last()) {
            added(w, joins.last())
        } else {
            w
        }
    }
}

/// The accepted ones of `joins`.
pub open spec fn accepted(
    context: Map<Seq<char>, u64>,
    v: Values,
    joins: Seq<EntryView>,
) -> Seq<EntryView>
    decreases joins.len(),
{
    if joins.len() == 0 {
        Seq::empty()
    } else {
        let rest = joins.drop_last();
        let sofar = accepted(context, v, rest);
        if accepts(context, after_joins(context, v, rest), joins.last()) {
            sofar.push(joins.last())
        } else {
            sofar
        }
    }
}

/// The index after entries were filed in turn.
pub open spec fn indexed(
    index: Map<PidView, Seq<(Seq<char>, Seq<char>)>>,
    entries: Seq<EntryView>,
) -> Map<PidView, Seq<(Seq<char>, Seq<char>)>>
    decreases entries.len(),
{
    if entries.len() == 0 {
        index
    } else {
        let x = indexed(index, entries.drop_last());
        let e = entries.last();
        x.insert(e.pid, filed_under(x, e.pid).push((e.topic, e.key)))
    }
}

/// Entries with one of `tags`.
pub open spec fn tagged(tags: Seq<TagView>) -> spec_fn(EntryView) -> bool {
    |e: EntryView| tags.contains(e.tag)
}

/// Entries with none of `tags`.
pub open spec fn untagged(tags: Seq<TagView>) -> spec_fn(EntryView) -> bool {
    |e: EntryView| !tags.contains(e.tag)
}

/// Entries with the tag `tag`.
pub open spec fn with_tag(tag: TagView) -> spec_fn(EntryView) -> bool {
    |e: EntryView| e.tag == tag
}

/// What is removed for each of `tags` in turn.
pub open spec fn left_by(entries: Seq<EntryView>, tags: Seq<TagView>) -> Seq<EntryView>
    decreases tags.len(),
{
    if tags.len() == 0 {
        Seq::empty()
    } else {
        let rest = tags.drop_last();
        left_by(entries, rest) + entries.filter(untagged(rest)).filter(with_tag(tags.last()))
    }
}

/// The entries left when those with one of `tags` are gone.
pub open spec fn after_leaves(v: Values, tags: Seq<TagView>) -> Values {
    without(v, tagged(tags))
}

/// The later of two contexts, replica by replica.
pub open spec fn merged_context(
    ours: Map<Seq<char>, u64>,
    theirs: Map<Seq<char>, u64>,
) -> Map<Seq<char>, u64> {
    Map::new(
        |r: Seq<char>| ours.contains_key(r) || (theirs.contains_key(r) && theirs[r] > 0),
        |r: Seq<char>|
            if clock_of(theirs, r) > clock_of(ours, r) {
                clock_of(theirs, r)
            } else {
                clock_of(ours, r)
            },
    )
}

/// The entries that changes add and do not remove again.
pub open spec fn arriving(d: DeltaView) -> Seq<EntryView> {
    d.joins.filter(untagged(d.leave_tags))
}

/// The entries after a merge.
pub open spec fn merged_values(v: Values, context: Map<Seq<char>, u64>, d: DeltaView) -> Values {
    after_joins(context, after_leaves(v, d.leave_tags), arriving(d))
}

/// The state of one replica.
pub struct PresenceCrdt {
    replica: Replica,
    clock: Clock,
    context: Table<Replica, Clock>,
    values: Table<(String, String), Vec<TrackedEntry>>,
    pid_index: Table<Pid, Vec<(String, String)>>,
    replicas: Table<Replica, ReplicaStatus>,
    delta: PresenceDelta,
}

impl PresenceCrdt {
    /// The name of the replica.
    pub closed spec fn name(&self) -> Seq<char> {
        self.replica@
    }

    /// The replica's clock.
    pub closed spec fn ticks(&self) -> u64 {
        self.clock
    }

    /// The causal context: the highest clock seen of each replica.
    pub closed spec fn seen(&self) -> Map<Seq<char>, u64> {
        self.context@
    }

    /// The entries by topic and key.
    pub closed spec fn values(&self) -> Values {
        row_values(self.values.rows@)
    }

    /// All entries, one key after the other.
    pub closed spec fn entries(&self) -> Seq<EntryView> {
        flat(self.values.rows@)
    }

    /// The topics and keys at which each process was tracked.
    pub closed spec fn index(&self) -> Map<PidView, Seq<(Seq<char>, Seq<char>)>> {
        self.pid_index@.map_values(|v: Vec<(String, String)>| table::views(v@))
    }

    /// What is known of the replicas.
    pub closed spec fn status(&self) -> Map<Seq<char>, ReplicaStatus> {
        self.replicas@
    }

    /// The changes that were made here and not taken yet.
    pub closed spec fn pending(&self) -> DeltaView {
        self.delta@
    }

    /// The tables give each key one value.
    pub closed spec fn tables_wf(&self) -> bool {
        &&& self.context.wf()
        &&& self.values.wf()
        &&& self.pid_index.wf()
        &&& self.replicas.wf()
        &&& self.delta.wf()
    }

    /// The invariant of a replica: no key is without entries, every entry stands under its topic
    /// and key, and the index leads to every entry of a process.
    pub open spec fn wf(&self) -> bool {
        &&& self.tables_wf()
        &&& good(self.values())
        &&& covers(self.index(), self.values())
    }

    /// The list of all entries holds, under each key, what stands there.
    pub proof fn law_entries(&self, topic: Seq<char>, key: Seq<char>)
        requires
            self.wf(),
        ensures
            under(self.entries(), topic, key) == at(self.values(), topic, key),
    {
        lemma_flat_under(self.values.rows@, topic, key);
    }

    /// A replica that has seen and holds nothing.
    pub fn new(replica: &str) -> (r: Self)
        ensures
            r.wf(),
            r.name() == replica@,
            r.ticks() == 0,
            r.seen() == Map::<Seq<char>, u64>::empty().insert(replica@, 0),
            r.values() == Values::empty(),
            r.entries() == Seq::<EntryView>::empty(),
            r.index() == Map::<PidView, Seq<(Seq<char>, Seq<char>)>>::empty(),
            r.status() == Map::<Seq<char>, ReplicaStatus>::empty(),
            r.pending() == (DeltaView {
                joins: Seq::empty(),
                leave_tags: Seq::empty(),
                context: Map::empty(),
            }),
    {
        let mut context: Table<Replica, Clock> = Table::new();
        let _ = context.insert(replica.to_owned(), 0);
        let r = PresenceCrdt {
            replica: replica.to_owned(),
            clock: 0,
            context,
            values: Table::new(),
            pid_index: Table::new(),
            replicas: Table::new(),
            delta: PresenceDelta::empty(),
        };
        assert(r.values() =~= Values::empty());
        assert(r.index() =~= Map::<PidView, Seq<(Seq<char>, Seq<char>)>>::empty());
        r
    }

    /// The name of the replica.
    pub fn replica(&self) -> (r: &str)
        ensures
            r@ == self.name(),
    {
        self.replica.as_str()
    }

    /// The replica's clock.
    pub fn clock(&self) -> (r: Clock)
        ensures
            r == self.ticks(),
    {
        self.clock
    }

    /// The causal context.
    pub fn context(&self) -> (r: &Table<Replica, Clock>)
        requires
            self.wf(),
        ensures
            r.wf(),
            r@ == self.seen(),
    {
        &self.context
    }

    /// Tracks `pid` in `topic` under `key`.
    pub fn track(&mut self, topic: &str, pid: Pid, key: &str, meta: Vec<u8>) -> (tag: Tag)
        requires
            old(self).wf(),
            old(self).ticks() < u64::MAX,
        ensures
            final(self).wf(),
            tag@ == (TagView { replica: old(self).name(), clock: (old(self).ticks() + 1) as u64 }),
            final(self).name() == old(self).name(),
            final(self).ticks() == old(self).ticks() + 1,
            final(self).seen() == old(self).seen().insert(old(self).name(), final(self).ticks()),
            ({
                let entry = EntryView {
                    topic: topic@,
                    pid: pid@,
                    key: key@,
                    meta: meta@,
                    tag: tag@
                };
                &&& final(self).values() == old(self).values().insert(
                    (topic@, key@),
                    at(old(self).values(), topic@, key@).push(entry),
                )
                &&& final(self).pending() == (DeltaView {
                    joins: old(self).pending().joins.push(entry),
                    leave_tags: old(self).pending().leave_tags,
                    context: final(self).seen(),
                })
            }),
            final(self).entries().len() == old(self).entries().len() + 1,
            final(self).index() == old(self).index().insert(
                pid@,
                filed_under(old(self).index(), pid@).push((topic@, key@)),
            ),
            final(self).status() == old(self).status(),
    {
        self.clock = self.clock + 1;
        let tag = Tag::new(self.replica.as_str(), self.clock);
        let _ = self.context.insert(self.replica.clone(), self.clock);
        let entry = TrackedEntry::new(topic, pid.clone(), key, meta, tag.dup());
        file_entry(&mut self.values, &mut self.pid_index, entry.clone());
        let ghost joins = self.delta.joins@;
        self.delta.joins.push(entry);
        assert(table::views(self.delta.joins@) =~= table::views(joins).push(entry@));
        self.delta.context = copy_context(&self.context);
        tag
    }

    /// Stops tracking `pid` in `topic` under `key`; hands back the tags of what was removed.
    pub fn untrack(&mut self, topic: &str, key: &str, pid: &Pid) -> (r: Vec<Tag>)
        requires
            old(self).wf(),
        ensures
            final(self).wf(),
            ({
                let here = at(old(self).values(), topic@, key@);
                let gone = here.filter(|e: EntryView| e.pid == pid@);
                let stay = here.filter(|e: EntryView| e.pid != pid@);
                let spots = filed_under(old(self).index(), pid@).filter(
                    |k: (Seq<char>, Seq<char>)| k != (topic@, key@),
                );
                &&& table::views(r@) == tags_of(gone)
                &&& final(self).values() == with_at(old(self).values(), topic@, key@, stay)
                &&& final(self).entries().len() + gone.len() == old(self).entries().len()
                &&& final(self).index() == (if spots.len() == 0 {
                    old(self).index().remove(pid@)
                } else {
                    old(self).index().insert(pid@, spots)
                })
                &&& final(self).pending() == (DeltaView {
                    joins: old(self).pending().joins,
                    leave_tags: old(self).pending().leave_tags + tags_of(gone),
                    context: if gone.len() > 0 {
                        old(self).seen()
                    } else {
                        old(self).pending().context
                    },
                })
            }),
            final(self).name() == old(self).name(),
            final(self).ticks() == old(self).ticks(),
            final(self).seen() == old(self).seen(),
            final(self).status() == old(self).status(),
    {
        let ghost v0 = self.values();
        let ghost x0 = self.index();
        let ghost here = at(v0, topic@, key@);
        let pick = Pick::ByPid(pid);
        let ghost p = pick.pred();
        let ghost np = |e: EntryView| !p(e);
        let ghost stay_p = |e: EntryView| e.pid != pid@;
        let ghost gone_p = |e: EntryView| e.pid == pid@;
        let mut gone: Vec<TrackedEntry> = Vec::new();
        let spot = (topic.to_owned(), key.to_owned());
        let list = take_key(&mut self.values, &spot);
        let ghost g0 = gone@;
        let kept = part(list, &pick, &mut gone);
        proof {
            assert(table::views(g0) + here.filter(p) =~= here.filter(p));
            seqs::lemma_filter_agree(here, p, gone_p);
            seqs::lemma_filter_agree(here, np, stay_p);
            seqs::lemma_filter_parts(here, p);
        }
        put_key(&mut self.values, spot.dup(), kept);
        let ghost v1 = self.values();
        assert(v1 =~= with_at(v0, topic@, key@, here.filter(stay_p)));
        let mut removed: Vec<Tag> = Vec::new();
        push_tags(&gone, &mut removed);
        push_tags(&gone, &mut self.delta.leave_tags);
        assert(table::views(removed@) =~= tags_of(here.filter(gone_p)));
        drop_spot(&mut self.pid_index, pid, &spot);
        proof {
            let away = |k: (Seq<char>, Seq<char>)| k != (topic@, key@);
            assert(spot@ == (topic@, key@));
            assert((|k: (Seq<char>, Seq<char>)| k != spot@) =~= away);
        }
        let ghost x1 = self.index();
        if removed.len() > 0 {
            self.delta.context = copy_context(&self.context);
        }
        proof {
            lemma_good_with_at(v0, topic@, key@, np);
            lemma_covers_untrack(x0, v0, x1, topic@, key@, pid@, np);
        }
        removed
    }

    /// Stops tracking `pid` everywhere; hands back what was removed, by topic.
    pub fn untrack_all(&mut self, pid: &Pid) -> (r: Table<String, Vec<TrackedEntry>>)
        requires
            old(self).wf(),
        ensures
            final(self).wf(),
            r.wf(),
            ({
                let gone = gathered(
                    old(self).values(),
                    filed_under(old(self).index(), pid@),
                    pid@,
                );
                &&& forall|topic: Seq<char>| #[trigger]
                    bucket(r@, topic) == gone.filter(|e: EntryView| e.topic == topic)
                &&& forall|topic: Seq<char>| #[trigger]
                    r@.contains_key(topic) <==> bucket(r@, topic).len() > 0
                &&& final(self).entries().len() + gone.len() == old(self).entries().len()
                &&& final(self).pending() == (DeltaView {
                    joins: old(self).pending().joins,
                    leave_tags: old(self).pending().leave_tags + tags_of(gone),
                    context: if gone.len() > 0 {
                        old(self).seen()
                    } else {
                        old(self).pending().context
                    },
                })
            }),
            final(self).values() == without(old(self).values(), |e: EntryView| e.pid == pid@),
            final(self).index() == old(self).index().remove(pid@),
            final(self).name() == old(self).name(),
            final(self).ticks() == old(self).ticks(),
            final(self).seen() == old(self).seen(),
            final(self).status() == old(self).status(),
    {
        let ghost v0 = self.values();
        let ghost x0 = self.index();
        let ghost spots = filed_under(x0, pid@);
        let pick = Pick::ByPid(pid);
        let ghost p = pick.pred();
        let ghost np = |e: EntryView| !p(e);
        let ghost gone_p = |e: EntryView| e.pid == pid@;
        let ghost n0 = self.entries().len();
        let mut gone: Vec<TrackedEntry> = Vec::new();
        let keys: Vec<(String, String)> = match self.pid_index.remove(pid) {
            Some(keys) => keys,
            None => Vec::new(),
        };
        assert(table::views(keys@) =~= spots);
        assert(self.index() =~= x0.remove(pid@));
        let mut i: usize = 0;
        assert(spots.take(0) =~= Seq::empty());
        assert(table::views(gone@) =~= gathered(v0, spots.take(0), pid@));
        let ghost rest = *self;
        while i < keys.len()
            invariant
                i <= keys@.len(),
                table::views(keys@) == spots,
                p == pick.pred(),
                pick == Pick::ByPid(pid),
                np == (|e: EntryView| !p(e)),
                gone_p == (|e: EntryView| e.pid == pid@),
                good(v0),
                self.values.wf(),
                good(row_values(self.values.rows@)),
                forall|t: Seq<char>, k: Seq<char>| #[trigger]
                    at(row_values(self.values.rows@), t, k) == (if spots.take(i as int).contains(
                        (t, k),
                    ) {
                        at(v0, t, k).filter(np)
                    } else {
                        at(v0, t, k)
                    }),
                table::views(gone@) == gathered(v0, spots.take(i as int), pid@),
                flat(self.values.rows@).len() + gone@.len() == n0,
                self.replica == rest.replica,
                self.clock == rest.clock,
                self.context == rest.context,
                self.pid_index == rest.pid_index,
                self.replicas == rest.replicas,
                self.delta == rest.delta,
            decreases keys@.len() - i,
        {
            let ghost done = spots.take(i as int);
            let ghost k = spots[i as int];
            let ghost v1 = row_values(self.values.rows@);
            let ghost g1 = table::views(gone@);
            let list = take_key(&mut self.values, &keys[i]);
            let ghost here = table::views(list@);
            let kept = part(list, &pick, &mut gone);
            assert(kept@.len() == here.filter(np).len()) by {
                assert(table::views(kept@).len() == kept@.len());
            }
            assert(gone@.len() == g1.len() + here.filter(p).len()) by {
                assert(table::views(gone@).len() == gone@.len());
            }
            put_key(&mut self.values, keys[i].dup(), kept);
            let ghost v2 = row_values(self.values.rows@);
            proof {
                let next = spots.take(i + 1);
                assert(next.drop_last() =~= done);
                assert(next.last() == k);
                seqs::lemma_filter_parts(here, p);
                seqs::lemma_filter_agree(at(v0, k.0, k.1), p, gone_p);
                assert(v2 =~= with_at(v1, k.0, k.1, here.filter(np)));
                lemma_good_with_at(v1, k.0, k.1, np);
                if done.contains(k) {
                    // a key that came up before has no entry of the process left
                    seqs::lemma_filter_filter(at(v0, k.0, k.1), np, p);
                    seqs::lemma_filter_none(at(v0, k.0, k.1), |e: EntryView| np(e) && p(e));
                    assert(g1 + here.filter(p) =~= g1);
                    seqs::lemma_filter_filter(at(v0, k.0, k.1), np, np);
                    seqs::lemma_filter_agree(
                        at(v0, k.0, k.1),
                        np,
                        |e: EntryView| np(e) && np(e),
                    );
                }
                assert forall|t: Seq<char>, q: Seq<char>| #[trigger] at(v2, t, q) == (
                if next.contains((t, q)) {
                    at(v0, t, q).filter(np)
                } else {
                    at(v0, t, q)
                }) by {
                    assert(at(v1, t, q) == (if done.contains((t, q)) {
                        at(v0, t, q).filter(np)
                    } else {
                        at(v0, t, q)
                    }));
                    if (t, q) == k {
                        assert(next[i as int] == (t, q));
                        if here.filter(np).len() == 0 {
                            assert(here.filter(np) =~= Seq::<EntryView>::empty());
                        }
                    } else {
                        assert(next.contains((t, q)) == done.contains((t, q))) by {
                            if next.contains((t, q)) {
                                let a = choose|a: int| 0 <= a < next.len() && next[a] == (t, q);
                                assert(done[a] == (t, q));
                            }
                            if done.contains((t, q)) {
                                let a = choose|a: int| 0 <= a < done.len() && done[a] == (t, q);
                                assert(next[a] == (t, q));
                            }
                        }
                    }
                }
            }
            i = i + 1;
        }
        let ghost v2 = self.values();
        proof {
            assert(spots.take(spots.len() as int) =~= spots);
            lemma_without_at(v0, p);
            assert forall|t: Seq<char>, q: Seq<char>| #[trigger] at(v2, t, q) == at(
                without(v0, p),
                t,
                q,
            ) by {
                if !spots.contains((t, q)) {
                    let here = at(v0, t, q);
                    assert forall|j: int| 0 <= j < here.len() implies np(#[trigger] here[j]) by {
                        assert(v0[(t, q)][j] == here[j]);
                        assert(filed_under(x0, v0[(t, q)][j].pid).contains((t, q)));
                    }
                    seqs::lemma_filter_all(here, np);
                }
            }
            lemma_same_values(v2, without(v0, p));
            assert(without(v0, p) =~= without(v0, gone_p)) by {
                assert(p =~= gone_p);
            }
            lemma_covers_untrack_all(x0, v0, pid@);
        }
        push_tags(&gone, &mut self.delta.leave_tags);
        if gone.len() > 0 {
            self.delta.context = copy_context(&self.context);
        }
        group_by_topic(gone)
    }

    /// The visible entries of a topic, by key; keys without a visible entry are left out.
    pub fn list(&self, topic: &str) -> (r: Table<String, Vec<TrackedEntry>>)
        requires
            self.wf(),
        ensures
            r.wf(),
            forall|key: Seq<char>| #[trigger]
                bucket(r@, key) == visible(at(self.values(), topic@, key), self.status()),
            forall|key: Seq<char>| #[trigger]
                r@.contains_key(key) <==> bucket(r@, key).len() > 0,
    {
        let ghost rows = self.values.rows@;
        let ghost status = self.status();
        let mut r: Table<String, Vec<TrackedEntry>> = Table::new();
        let mut i: usize = 0;
        proof {
            assert(rows.take(0) =~= Seq::empty());
            assert forall|key: Seq<char>| #[trigger] bucket(r@, key) == visible(
                at(row_values(rows.take(0)), topic@, key),
                status,
            ) by {
                reveal(Seq::filter);
            }
        }
        while i < self.values.rows.len()
            invariant
                rows == self.values.rows@,
                table::distinct_keys(rows),
                self.replicas.wf(),
                status == self.replicas@,
                i <= rows.len(),
                r.wf(),
                forall|key: Seq<char>| #[trigger]
                    bucket(r@, key) == visible(
                        at(row_values(rows.take(i as int)), topic@, key),
                        status,
                    ),
                forall|key: Seq<char>| #[trigger]
                    r@.contains_key(key) <==> bucket(r@, key).len() > 0,
            decreases rows.len() - i,
        {
            let row = &self.values.rows[i];
            let ghost v = row_values(rows.take(i as int));
            let ghost here = table::views(row.1@);
            let ghost m0 = r@;
            proof {
                assert(rows.take(i + 1) =~= rows.take(i as int).push(rows[i as int]));
                assert forall|a: int, b: int|
                    0 <= a < b < rows.take(i + 1).len() implies #[trigger] rows.take(i + 1)[a].0@
                    != #[trigger] rows.take(i + 1)[b].0@ by {
                    assert(rows[a].0@ != rows[b].0@);
                }
                lemma_row_values_push(rows.take(i as int), rows[i as int]);
            }
            let ghost key = row.0@.1;
            if crate::text::same_str(row.0.0.as_str(), topic) {
                assert(row.0@ == (topic@, key));
                assert(visible(at(v, topic@, key), status) == Seq::<EntryView>::empty()) by {
                    reveal(Seq::filter);
                }
                assert(!m0.contains_key(key)) by {
                    assert(bucket(m0, key).len() == 0);
                }
                let shown = online(&row.1, &self.replicas);
                let ghost s = table::views(shown@);
                if shown.len() > 0 {
                    let _ = r.insert(row.0.1.clone(), shown);
                    assert(bucket(r@, key) == s);
                } else {
                    assert(s =~= Seq::<EntryView>::empty());
                }
            }
            proof {
                assert forall|q: Seq<char>| #[trigger] bucket(r@, q) == visible(
                    at(row_values(rows.take(i + 1)), topic@, q),
                    status,
                ) by {
                    assert(bucket(m0, q) == visible(at(v, topic@, q), status));
                    if row.0@ != (topic@, q) {
                        assert(at(row_values(rows.take(i + 1)), topic@, q) == at(v, topic@, q));
                    }
                }
                assert forall|q: Seq<char>| #[trigger] r@.contains_key(q) <==> bucket(r@, q).len()
                    > 0 by {
                    assert(m0.contains_key(q) <==> bucket(m0, q).len() > 0);
                }
            }
            i = i + 1;
        }
        assert(rows.take(rows.len() as int) =~= rows);
        r
    }

    /// The visible entries of all topics, by topic and key; what has no visible entry is left
    /// out.
    pub fn list_all(&self) -> (r: Table<String, Table<String, Vec<TrackedEntry>>>)
        requires
            self.wf(),
        ensures
            r.wf(),
            forall|topic: Seq<char>, key: Seq<char>| #[trigger]
                cell(r@, topic, key) == visible(at(self.values(), topic, key), self.status()),
            forall|topic: Seq<char>| #[trigger]
                r@.contains_key(topic) ==> r@[topic].wf() && exists|key: Seq<char>|
                    r@[topic]@.contains_key(key),
            forall|topic: Seq<char>, key: Seq<char>|
                r@.contains_key(topic) && #[trigger] r@[topic]@.contains_key(key) ==> cell(
                    r@,
                    topic,
                    key,
                ).len() > 0,
    {
        let ghost rows = self.values.rows@;
        let ghost status = self.status();
        let mut r: Table<String, Table<String, Vec<TrackedEntry>>> = Table::new();
        let mut i: usize = 0;
        proof {
            assert(rows.take(0) =~= Seq::empty());
            assert forall|topic: Seq<char>, key: Seq<char>| #[trigger] cell(r@, topic, key)
                == visible(at(row_values(rows.take(0)), topic, key), status) by {
                reveal(Seq::filter);
            }
        }
        while i < self.values.rows.len()
            invariant
                rows == self.values.rows@,
                table::distinct_keys(rows),
                self.replicas.wf(),
                status == self.replicas@,
                i <= rows.len(),
                r.wf(),
                forall|topic: Seq<char>, key: Seq<char>| #[trigger]
                    cell(r@, topic, key) == visible(
                        at(row_values(rows.take(i as int)), topic, key),
                        status,
                    ),
                forall|topic: Seq<char>| #[trigger]
                    r@.contains_key(topic) ==> r@[topic].wf() && exists|key: Seq<char>|
                        r@[topic]@.contains_key(key),
                forall|topic: Seq<char>, key: Seq<char>|
                    r@.contains_key(topic) && #[trigger] r@[topic]@.contains_key(key) ==> cell(
                        r@,
                        topic,
                        key,
                    ).len() > 0,
            decreases rows.len() - i,
        {
            let row = &self.values.rows[i];
            let ghost v = row_values(rows.take(i as int));
            let ghost w = row_values(rows.take(i + 1));
            let ghost m0 = r@;
            let ghost topic = row.0@.0;
            let ghost key = row.0@.1;
            proof {
                assert(rows.take(i + 1) =~= rows.take(i as int).push(rows[i as int]));
                assert forall|a: int, b: int|
                    0 <= a < b < rows.take(i + 1).len() implies #[trigger] rows.take(i + 1)[a].0@
                    != #[trigger] rows.take(i + 1)[b].0@ by {
                    assert(rows[a].0@ != rows[b].0@);
                }
                lemma_row_values_push(rows.take(i as int), rows[i as int]);
                assert(row.0@ == (topic, key));
                assert(cell(m0, topic, key) == Seq::<EntryView>::empty()) by {
                    reveal(Seq::filter);
                }
            }
            let shown = online(&row.1, &self.replicas);
            let ghost s = table::views(shown@);
            if shown.len() > 0 {
                let mut inner: Table<String, Vec<TrackedEntry>> = match r.remove(&row.0.0) {
                    Some(inner) => inner,
                    None => Table::new(),
                };
                let ghost i0 = inner@;
                let _ = inner.insert(row.0.1.clone(), shown);
                let ghost i1 = inner@;
                let _ = r.insert(row.0.0.clone(), inner);
                proof {
                    assert(r@ =~= m0.insert(topic, inner));
                    assert(i1.contains_key(key));
                    assert forall|t: Seq<char>, q: Seq<char>| #[trigger] cell(r@, t, q) == visible(
                        at(w, t, q),
                        status,
                    ) by {
                        assert(cell(m0, t, q) == visible(at(v, t, q), status));
                        if (t, q) != (topic, key) {
                            assert(at(w, t, q) == at(v, t, q));
                            if t == topic {
                                assert(i1.contains_key(q) == i0.contains_key(q));
                            }
                        }
                    }
                    assert forall|t: Seq<char>, q: Seq<char>|
                        r@.contains_key(t) && #[trigger] r@[t]@.contains_key(q) implies cell(
                        r@,
                        t,
                        q,
                    ).len() > 0 by {
                        if (t, q) != (topic, key) {
                            if t == topic {
                                assert(m0.contains_key(t) && m0[t]@.contains_key(q));
                            } else {
                                assert(m0[t]@.contains_key(q));
                            }
                            assert(cell(m0, t, q).len() > 0);
                        }
                    }
                }
            } else {
                proof {
                    assert(s =~= Seq::<EntryView>::empty());
                    assert forall|t: Seq<char>, q: Seq<char>| #[trigger] cell(r@, t, q) == visible(
                        at(w, t, q),
                        status,
                    ) by {
                        assert(cell(m0, t, q) == visible(at(v, t, q), status));
                        if (t, q) != (topic, key) {
                            assert(at(w, t, q) == at(v, t, q));
                        }
                    }
                }
            }
            i = i + 1;
        }
        assert(rows.take(rows.len() as int) =~= rows);
        r
    }

    /// The visible entries under `key` in `topic`; `None` if there are none.
    pub fn get(&self, topic: &str, key: &str) -> (r: Option<Vec<TrackedEntry>>)
        requires
            self.wf(),
        ensures
            ({
                let shown = visible(at(self.values(), topic@, key@), self.status());
                match r {
                    Some(list) => shown.len() > 0 && table::views(list@) == shown,
                    None => shown.len() == 0,
                }
            }),
    {
        let spot = (topic.to_owned(), key.to_owned());
        assert(spot@ == (topic@, key@));
        match self.values.get(&spot) {
            Some(list) => {
                assert(table::views(list@) == at(self.values(), topic@, key@));
                let shown = online(list, &self.replicas);
                if shown.len() > 0 {
                    Some(shown)
                } else {
                    assert(table::views(shown@).len() == 0);
                    None
                }
            },
            None => {
                assert(visible(at(self.values(), topic@, key@), self.status()).len() == 0) by {
                    reveal(Seq::filter);
                }
                None
            },
        }
    }

    /// Applies another replica's changes: first what it removed, then what it added, did not remove
    /// again, and this replica has not seen; then takes over what it has seen.
    pub fn merge(&mut self, remote: &PresenceDelta) -> (r: MergeResult)
        requires
            old(self).wf(),
            remote.wf(),
        ensures
            final(self).wf(),
            table::views(r.leaves@) == left_by(old(self).entries(), remote@.leave_tags),
            table::views(r.joins@) == accepted(
                old(self).seen(),
                after_leaves(old(self).values(), remote@.leave_tags),
                arriving(remote@),
            ),
            final(self).values() == merged_values(old(self).values(), old(self).seen(), remote@),
            final(self).entries().len() + r.leaves@.len() == old(self).entries().len()
                + r.joins@.len(),
            final(self).seen() == merged_context(old(self).seen(), remote@.context),
            final(self).index() == indexed(old(self).index(), table::views(r.joins@)),
            final(self).name() == old(self).name(),
            final(self).ticks() == old(self).ticks(),
            final(self).status() == old(self).status(),
            final(self).pending() == old(self).pending(),
    {
        let ghost was = *self;
        let ghost tags = remote@.leave_tags;
        let leaves = remove_tags(&mut self.values, &remote.leave_tags);
        let ghost v1 = row_values(self.values.rows@);
        let ghost x0 = index_values(self.pid_index);
        let ghost n1 = flat(self.values.rows@).len();
        proof {
            lemma_covers_without(was.index(), was.values(), tagged(tags));
        }
        let ghost context = self.context@;
        let ghost all = remote@.joins;
        let ghost stays = untagged(tags);
        let mut joins: Vec<TrackedEntry> = Vec::new();
        let mut i: usize = 0;
        proof {
            reveal(Seq::filter);
            assert(all.take(0) =~= Seq::empty());
            assert(all.take(0).filter(stays) =~= Seq::empty());
            assert(table::views(joins@) =~= accepted(context, v1, all.take(0).filter(stays)));
        }
        while i < remote.joins.len()
            invariant
                i <= remote.joins@.len(),
                all == remote@.joins,
                tags == remote@.leave_tags,
                stays == untagged(tags),
                self.context.wf(),
                self.context@ == context,
                self.values.wf(),
                self.pid_index.wf(),
                good(row_values(self.values.rows@)),
                covers(index_values(self.pid_index), row_values(self.values.rows@)),
                row_values(self.values.rows@) == after_joins(
                    context,
                    v1,
                    all.take(i as int).filter(stays),
                ),
                table::views(joins@) == accepted(
                    context,
                    v1,
                    all.take(i as int).filter(stays),
                ),
                index_values(self.pid_index) == indexed(x0, table::views(joins@)),
                flat(self.values.rows@).len() == n1 + joins@.len(),
                self.replica == was.replica,
                self.clock == was.clock,
                self.context == was.context,
                self.replicas == was.replicas,
                self.delta == was.delta,
            decreases remote.joins@.len() - i,
        {
            let entry = &remote.joins[i];
            let ghost e = entry@;
            let ghost v = row_values(self.values.rows@);
            let ghost before = all.take(i as int).filter(stays);
            proof {
                assert(all.take(i + 1) =~= all.take(i as int).push(e));
                all.take(i as int).lemma_filter_push(e, stays);
                assert(before.push(e).drop_last() =~= before);
            }
            let gone = holds_tag(&remote.leave_tags, &entry.tag);
            let seen = match self.context.get(&entry.tag.replica) {
                Some(clock) => entry.tag.clock <= *clock,
                None => false,
            };
            assert(seen == dominated(context, e.tag));
            if !gone && !seen {
                let key = (entry.topic.clone(), entry.key.clone());
                let exists_already = match self.values.get(&key) {
                    Some(list) => {
                        assert(table::views(list@) == at(v, e.topic, e.key));
                        find_tag(list, &entry.tag)
                    },
                    None => {
                        assert(at(v, e.topic, e.key) == Seq::<EntryView>::empty());
                        false
                    },
                };
                if !exists_already {
                    let ghost j0 = joins@;
                    file_entry(&mut self.values, &mut self.pid_index, entry.clone());
                    joins.push(entry.clone());
                    proof {
                        assert(table::views(joins@) =~= table::views(j0).push(e));
                        assert(table::views(joins@).drop_last() =~= table::views(j0));
                    }
                }
            }
            i = i + 1;
        }
        assert(all.take(all.len() as int) =~= all);
        advance_context(&mut self.context, &remote.context);
        MergeResult { joins, leaves }
    }

    /// The entries that a replica with the given context has not seen.
    pub fn extract(&self, remote_context: &Table<Replica, Clock>) -> (r: PresenceDelta)
        requires
            self.wf(),
            remote_context.wf(),
        ensures
            r.wf(),
            r@ == (DeltaView {
                joins: self.entries().filter(
                    |e: EntryView| e.tag.clock > clock_of(remote_context@, e.tag.replica),
                ),
                leave_tags: Seq::empty(),
                context: self.seen(),
            }),
    {
        let ghost p = |e: EntryView| e.tag.clock > clock_of(remote_context@, e.tag.replica);
        let ghost rows = self.values.rows@;
        let mut joins: Vec<TrackedEntry> = Vec::new();
        let mut i: usize = 0;
        proof {
            reveal(Seq::filter);
            assert(rows.take(0) =~= Seq::empty());
            assert(table::views(joins@) =~= flat(rows.take(0)).filter(p));
        }
        while i < self.values.rows.len()
            invariant
                rows == self.values.rows@,
                i <= rows.len(),
                remote_context.wf(),
                p == (|e: EntryView| e.tag.clock > clock_of(remote_context@, e.tag.replica)),
                table::views(joins@) == flat(rows.take(i as int)).filter(p),
            decreases rows.len() - i,
        {
            let list = &self.values.rows[i].1;
            let ghost sofar = table::views(joins@);
            let ghost here = table::views(list@);
            let mut j: usize = 0;
            assert(sofar + here.take(0).filter(p) =~= sofar) by {
                reveal(Seq::filter);
            }
            while j < list.len()
                invariant
                    j <= list@.len(),
                    here == table::views(list@),
                    remote_context.wf(),
                    p == (|e: EntryView| e.tag.clock > clock_of(remote_context@, e.tag.replica)),
                    table::views(joins@) == sofar + here.take(j as int).filter(p),
                decreases list@.len() - j,
            {
                let entry = &list[j];
                let ghost j0 = joins@;
                let remote_clock: u64 = match remote_context.get(&entry.tag.replica) {
                    Some(clock) => *clock,
                    None => 0,
                };
                proof {
                    assert(here.take(j + 1) =~= here.take(j as int).push(here[j as int]));
                    here.take(j as int).lemma_filter_push(here[j as int], p);
                }
                if entry.tag.clock > remote_clock {
                    joins.push(entry.clone());
                    assert(table::views(joins@) =~= table::views(j0).push(here[j as int]));
                    assert(sofar + here.take(j as int).filter(p).push(here[j as int]) =~= (sofar
                        + here.take(j as int).filter(p)).push(here[j as int]));
                }
                j = j + 1;
            }
            proof {
                assert(here.take(here.len() as int) =~= here);
                assert(rows.take(i + 1) =~= rows.take(i as int).push(rows[i as int]));
                lemma_flat_push(rows.take(i as int), rows[i as int]);
                Seq::filter_distributes_over_add(flat(rows.take(i as int)), here, p);
            }
            i = i + 1;
        }
        assert(rows.take(rows.len() as int) =~= rows);
        let r = PresenceDelta {
            joins,
            leave_tags: Vec::new(),
            context: copy_context(&self.context),
        };
        assert(r@.leave_tags =~= Seq::<TagView>::empty());
        r
    }

    /// Everything that the replica holds.
    pub fn extract_all(&self) -> (r: PresenceDelta)
        requires
            self.wf(),
        ensures
            r.wf(),
            r@ == (DeltaView {
                joins: self.entries(),
                leave_tags: Seq::empty(),
                context: self.seen(),
            }),
    {
        let joins = collect(&self.values, &Pick::All);
        proof {
            seqs::lemma_filter_all(self.entries(), (Pick::All).pred());
        }
        let r = PresenceDelta {
            joins,
            leave_tags: Vec::new(),
            context: copy_context(&self.context),
        };
        assert(r@.leave_tags =~= Seq::<TagView>::empty());
        r
    }

    /// Marks a replica as up; hands back its entries if it was down, as they are visible again.
    pub fn replica_up(&mut self, replica: &str) -> (r: Vec<TrackedEntry>)
        requires
            old(self).wf(),
        ensures
            final(self).wf(),
            table::views(r@) == (if is_up(old(self).status(), replica@) {
                Seq::empty()
            } else {
                old(self).entries().filter(|e: EntryView| e.tag.replica == replica@)
            }),
            final(self).status() == old(self).status().insert(replica@, ReplicaStatus::Up),
            final(self).values() == old(self).values(),
            final(self).entries() == old(self).entries(),
            final(self).index() == old(self).index(),
            final(self).name() == old(self).name(),
            final(self).ticks() == old(self).ticks(),
            final(self).seen() == old(self).seen(),
            final(self).pending() == old(self).pending(),
    {
        let was_down = !self.is_replica_up(replica);
        let _ = self.replicas.insert(replica.to_owned(), ReplicaStatus::Up);
        if was_down {
            self.of_replica(replica)
        } else {
            let r: Vec<TrackedEntry> = Vec::new();
            assert(table::views(r@) =~= Seq::<EntryView>::empty());
            r
        }
    }

    /// Marks a replica as down since `since`, in seconds since the epoch; hands back its entries
    /// if it was up, as they are hidden now.
    pub fn replica_down(&mut self, replica: &str, temporary: bool, since: u64) -> (r: Vec<
        TrackedEntry,
    >)
        requires
            old(self).wf(),
        ensures
            final(self).wf(),
            table::views(r@) == (if is_up(old(self).status(), replica@) {
                old(self).entries().filter(|e: EntryView| e.tag.replica == replica@)
            } else {
                Seq::empty()
            }),
            final(self).status() == old(self).status().insert(
                replica@,
                (ReplicaStatus::Down { since, temporary }),
            ),
            final(self).values() == old(self).values(),
            final(self).entries() == old(self).entries(),
            final(self).index() == old(self).index(),
            final(self).name() == old(self).name(),
            final(self).ticks() == old(self).ticks(),
            final(self).seen() == old(self).seen(),
            final(self).pending() == old(self).pending(),
    {
        let was_up = self.is_replica_up(replica);
        let _ = self.replicas.insert(
            replica.to_owned(),
            ReplicaStatus::Down { since, temporary },
        );
        if was_up {
            self.of_replica(replica)
        } else {
            let r: Vec<TrackedEntry> = Vec::new();
            assert(table::views(r@) =~= Seq::<EntryView>::empty());
            r
        }
    }

    fn of_replica(&self, replica: &str) -> (r: Vec<TrackedEntry>)
        requires
            self.wf(),
        ensures
            table::views(r@) == self.entries().filter(
                |e: EntryView| e.tag.replica == replica@,
            ),
    {
        let pick = Pick::ByReplica(replica);
        let r = collect(&self.values, &pick);
        proof {
            seqs::lemma_filter_agree(
                self.entries(),
                pick.pred(),
                |e: EntryView| e.tag.replica == replica@,
            );
        }
        r
    }

    /// Forgets a replica and its entries; hands the entries back.
    pub fn remove_down_replica(&mut self, replica: &str) -> (r: Vec<TrackedEntry>)
        requires
            old(self).wf(),
        ensures
            final(self).wf(),
            table::views(r@) == old(self).entries().filter(
                |e: EntryView| e.tag.replica == replica@,
            ),
            final(self).values() == without(
                old(self).values(),
                |e: EntryView| e.tag.replica == replica@,
            ),
            final(self).entries() == old(self).entries().filter(
                |e: EntryView| e.tag.replica != replica@,
            ),
            final(self).status() == old(self).status().remove(replica@),
            final(self).index() == old(self).index(),
            final(self).name() == old(self).name(),
            final(self).ticks() == old(self).ticks(),
            final(self).seen() == old(self).seen(),
            final(self).pending() == old(self).pending(),
    {
        let ghost v0 = self.values();
        let ghost all = self.entries();
        let pick = Pick::ByReplica(replica);
        let ghost p = pick.pred();
        let ghost of = |e: EntryView| e.tag.replica == replica@;
        let mut removed: Vec<TrackedEntry> = Vec::new();
        assert(table::views(removed@) =~= Seq::<EntryView>::empty());
        sweep(&mut self.values, &pick, &mut removed);
        proof {
            assert(p =~= of);
            assert(Seq::<EntryView>::empty() + all.filter(p) =~= all.filter(p));
            seqs::lemma_filter_agree(
                all,
                |e: EntryView| !p(e),
                |e: EntryView| e.tag.replica != replica@,
            );
            lemma_covers_without(self.index(), v0, of);
        }
        let _ = self.replicas.remove(&replica.to_owned());
        removed
    }

    /// Whether a replica counts as up.
    pub fn is_replica_up(&self, replica: &str) -> (r: bool)
        requires
            self.wf(),
        ensures
            r == is_up(self.status(), replica@),
    {
        up_in(&self.replicas, &replica.to_owned())
    }

    /// Takes the changes made here since the last time; `None` if there are none.
    pub fn take_delta(&mut self) -> (r: Option<PresenceDelta>)
        requires
            old(self).wf(),
        ensures
            final(self).wf(),
            ({
                let pending = old(self).pending();
                if pending.joins.len() == 0 && pending.leave_tags.len() == 0 {
                    r is None && final(self).pending() == pending
                } else {
                    &&& r is Some
                    &&& r->0@ == pending
                    &&& r->0.wf()
                    &&& final(self).pending() == (DeltaView {
                        joins: Seq::empty(),
                        leave_tags: Seq::empty(),
                        context: Map::empty(),
                    })
                }
            }),
            final(self).values() == old(self).values(),
            final(self).entries() == old(self).entries(),
            final(self).index() == old(self).index(),
            final(self).name() == old(self).name(),
            final(self).ticks() == old(self).ticks(),
            final(self).seen() == old(self).seen(),
            final(self).status() == old(self).status(),
    {
        if self.delta.is_empty() {
            None
        } else {
            let mut out = PresenceDelta::empty();
            std::mem::swap(&mut out, &mut self.delta);
            Some(out)
        }
    }

    /// Whether there are changes to take.
    pub fn has_delta(&self) -> (r: bool)
        ensures
            r == !(self.pending().joins.len() == 0 && self.pending().leave_tags.len() == 0),
    {
        !self.delta.is_empty()
    }

    /// The number of entries, those of replicas that are down included.
    pub fn len(&self) -> (r: usize)
        requires
            self.wf(),
            self.entries().len() <= usize::MAX,
        ensures
            r == self.entries().len(),
    {
        let ghost rows = self.values.rows@;
        let mut n: usize = 0;
        let mut i: usize = 0;
        assert(rows.take(0) =~= Seq::empty());
        while i < self.values.rows.len()
            invariant
                rows == self.values.rows@,
                flat(rows).len() <= usize::MAX,
                i <= rows.len(),
                n == flat(rows.take(i as int)).len(),
            decreases rows.len() - i,
        {
            proof {
                assert(rows.take(i + 1) =~= rows.take(i as int).push(rows[i as int]));
                lemma_flat_push(rows.take(i as int), rows[i as int]);
                lemma_flat_take_len(rows, i + 1);
            }
            n = n + self.values.rows[i].1.len();
            i = i + 1;
        }
        assert(rows.take(rows.len() as int) =~= rows);
        n
    }

    /// Whether there is no entry.
    pub fn is_empty(&self) -> (r: bool)
        requires
            self.wf(),
        ensures
            r == (self.entries().len() == 0),
    {
        let r = self.values.rows.len() == 0;
        proof {
            let rows = self.values.rows@;
            if rows.len() > 0 {
                let row = rows.last();
                assert(rows.drop_last().push(row) =~= rows);
                lemma_row_values_push(rows.drop_last(), row);
                assert(self.values().contains_key(row.0@));
                assert(self.values()[row.0@] == table::views(row.1@));
            }
        }
        r
    }
}

/// The map of an index of processes.
spec fn index_values(t: Table<Pid, Vec<(String, String)>>) -> Map<
    PidView,
    Seq<(Seq<char>, Seq<char>)>,
> {
    t@.map_values(|v: Vec<(String, String)>| table::views(v@))
}

proof fn lemma_flat_remove_len(rows: Seq<((String, String), Vec<TrackedEntry>)>, i: int)
    requires
        0 <= i < rows.len(),
    ensures
        flat(rows).len() == flat(rows.remove(i)).len() + rows[i].1@.len(),
    decreases rows.len(),
{
    if i == rows.len() - 1 {
        assert(rows.remove(i) =~= rows.drop_last());
    } else {
        lemma_flat_remove_len(rows.drop_last(), i);
        assert(rows.remove(i).drop_last() =~= rows.drop_last().remove(i));
        assert(rows.remove(i).last() == rows.last());
    }
}

/// Takes the entries under a key out of the table.
fn take_key(values: &mut Table<(String, String), Vec<TrackedEntry>>, key: &(String, String)) -> (r:
    Vec<TrackedEntry>)
    requires
        old(values).wf(),
    ensures
        final(values).wf(),
        table::views(r@) == at(row_values(old(values).rows@), key@.0, key@.1),
        row_values(final(values).rows@) == row_values(old(values).rows@).remove(key@),
        flat(final(values).rows@).len() + r@.len() == flat(old(values).rows@).len(),
{
    let ghost before = values.rows@;
    let ghost k = key@;
    match values.remove(key) {
        Some(v) => {
            proof {
                let i = table::lemma_key(before, k);
                lemma_flat_remove_len(before, i);
                assert(row_values(values.rows@) =~= row_values(before).remove(k));
                assert(k == (k.0, k.1));
            }
            v
        },
        None => {
            let r: Vec<TrackedEntry> = Vec::new();
            proof {
                assert(row_values(values.rows@) =~= row_values(before).remove(k));
                assert(k == (k.0, k.1));
                assert(table::views(r@) =~= Seq::<EntryView>::empty());
            }
            r
        },
    }
}

/// Puts entries under a key that has none; leaves the key out if there are none to put.
fn put_key(
    values: &mut Table<(String, String), Vec<TrackedEntry>>,
    key: (String, String),
    entries: Vec<TrackedEntry>,
)
    requires
        old(values).wf(),
        !row_values(old(values).rows@).contains_key(key@),
    ensures
        final(values).wf(),
        row_values(final(values).rows@) == (if entries@.len() > 0 {
            row_values(old(values).rows@).insert(key@, table::views(entries@))
        } else {
            row_values(old(values).rows@)
        }),
        flat(final(values).rows@).len() == flat(old(values).rows@).len() + entries@.len(),
{
    if entries.len() > 0 {
        let ghost before = values.rows@;
        let ghost k = key@;
        let ghost v = table::views(entries@);
        proof {
            lemma_flat_push(before, (key, entries));
        }
        let _ = values.insert(key, entries);
        assert(row_values(values.rows@) =~= row_values(before).insert(k, v));
    }
}

/// Puts an entry at the end of those under its key, and its key at the end of those of its
/// process.
fn file_entry(
    values: &mut Table<(String, String), Vec<TrackedEntry>>,
    pid_index: &mut Table<Pid, Vec<(String, String)>>,
    entry: TrackedEntry,
)
    requires
        old(values).wf(),
        old(pid_index).wf(),
        good(row_values(old(values).rows@)),
        covers(index_values(*old(pid_index)), row_values(old(values).rows@)),
    ensures
        final(values).wf(),
        final(pid_index).wf(),
        good(row_values(final(values).rows@)),
        covers(index_values(*final(pid_index)), row_values(final(values).rows@)),
        row_values(final(values).rows@) == row_values(old(values).rows@).insert(
            (entry@.topic, entry@.key),
            at(row_values(old(values).rows@), entry@.topic, entry@.key).push(entry@),
        ),
        flat(final(values).rows@).len() == flat(old(values).rows@).len() + 1,
        index_values(*final(pid_index)) == index_values(*old(pid_index)).insert(
            entry@.pid,
            filed_under(index_values(*old(pid_index)), entry@.pid).push(
                (entry@.topic, entry@.key),
            ),
        ),
{
    let ghost v0 = row_values(values.rows@);
    let ghost x0 = index_values(*pid_index);
    let ghost e = entry@;
    let key = (entry.topic.clone(), entry.key.clone());
    let pid = entry.pid.clone();
    let mut list = take_key(values, &key);
    let ghost was = list@;
    list.push(entry);
    assert(table::views(list@) =~= table::views(was).push(e));
    let spot = key.dup();
    put_key(values, key, list);
    let ghost v1 = row_values(values.rows@);
    assert(v1 =~= v0.insert((e.topic, e.key), at(v0, e.topic, e.key).push(e)));
    let mut spots: Vec<(String, String)> = match pid_index.remove(&pid) {
        Some(s) => s,
        None => Vec::new(),
    };
    let ghost s0 = spots@;
    assert(table::views(s0) =~= filed_under(x0, e.pid));
    spots.push(spot);
    assert(table::views(spots@) =~= table::views(s0).push((e.topic, e.key)));
    let ghost s1 = table::views(spots@);
    let _ = pid_index.insert(pid, spots);
    let ghost x1 = index_values(*pid_index);
    proof {
        assert(x1 =~= x0.insert(e.pid, s1));
        assert forall|k: (Seq<char>, Seq<char>)| #[trigger] v1.contains_key(k) implies v1[k].len()
            > 0 && (forall|j: int|
            0 <= j < v1[k].len() ==> (#[trigger] v1[k][j]).topic == k.0 && v1[k][j].key == k.1) by {
            if k != (e.topic, e.key) {
                assert(v0.contains_key(k));
            } else {
                assert forall|j: int| 0 <= j < v1[k].len() implies (#[trigger] v1[k][j]).topic
                    == k.0 && v1[k][j].key == k.1 by {
                    if j < v1[k].len() - 1 {
                        assert(v0.contains_key(k));
                        assert(v0[k][j].topic == k.0);
                    }
                }
            }
        }
        assert forall|k: (Seq<char>, Seq<char>), j: int|
            v1.contains_key(k) && 0 <= j < v1[k].len() implies filed_under(
            x1,
            (#[trigger] v1[k][j]).pid,
        ).contains(k) by {
            let who = v1[k][j].pid;
            if k == (e.topic, e.key) && j == v1[k].len() - 1 {
                assert(s1[s1.len() - 1] == k);
            } else {
                assert(v0.contains_key(k) && v1[k][j] == v0[k][j]);
                let old_spots = filed_under(x0, who);
                assert(old_spots.contains(k));
                let a = choose|a: int| 0 <= a < old_spots.len() && old_spots[a] == k;
                if who == e.pid {
                    assert(s1[a] == k);
                } else {
                    assert(filed_under(x1, who) == old_spots);
                }
            }
        }
    }
}

/// Appends the tags of `gone` to `tags`.
fn push_tags(gone: &Vec<TrackedEntry>, tags: &mut Vec<Tag>)
    ensures
        table::views(final(tags)@) == table::views(old(tags)@) + tags_of(table::views(gone@)),
{
    let ghost before = table::views(tags@);
    let ghost all = tags_of(table::views(gone@));
    let mut i: usize = 0;
    assert(before + all.take(0) =~= before);
    while i < gone.len()
        invariant
            i <= gone@.len(),
            all == tags_of(table::views(gone@)),
            table::views(tags@) == before + all.take(i as int),
        decreases gone@.len() - i,
    {
        let ghost was = tags@;
        tags.push(gone[i].tag.dup());
        assert(table::views(tags@) =~= table::views(was).push(all[i as int]));
        assert(before + all.take(i + 1) =~= (before + all.take(i as int)).push(all[i as int]));
        i = i + 1;
    }
    assert(all.take(all.len() as int) =~= all);
}

/// Takes a topic and key out of those of a process.
fn drop_spot(pid_index: &mut Table<Pid, Vec<(String, String)>>, pid: &Pid, spot: &(String, String))
    requires
        old(pid_index).wf(),
    ensures
        final(pid_index).wf(),
        ({
            let x = index_values(*old(pid_index));
            let spots = filed_under(x, pid@).filter(|k: (Seq<char>, Seq<char>)| k != spot@);
            index_values(*final(pid_index)) == (if spots.len() == 0 {
                x.remove(pid@)
            } else {
                x.insert(pid@, spots)
            })
        }),
{
    let ghost x = index_values(*pid_index);
    let ghost p = |k: (Seq<char>, Seq<char>)| k != spot@;
    let ghost all = filed_under(x, pid@);
    let keys: Vec<(String, String)> = match pid_index.remove(pid) {
        Some(keys) => keys,
        None => Vec::new(),
    };
    assert(table::views(keys@) =~= all);
    assert(index_values(*pid_index) =~= x.remove(pid@));
    let mut left: Vec<(String, String)> = Vec::new();
    assert(table::views(left@) =~= all.take(0).filter(p)) by {
        reveal(Seq::filter);
    }
    for key in it: keys
        invariant
            it.seq() == keys@,
            table::views(keys@) == all,
            p == (|k: (Seq<char>, Seq<char>)| k != spot@),
            table::views(left@) == all.take(it.index()).filter(p),
    {
        let ghost i = it.index();
        proof {
            assert(all.take(i + 1) =~= all.take(i).push(all[i]));
            all.take(i).lemma_filter_push(all[i], p);
        }
        if !key.same(spot) {
            let ghost was = left@;
            left.push(key);
            assert(table::views(left@) =~= table::views(was).push(all[i]));
        }
    }
    assert(all.take(all.len() as int) =~= all);
    if left.len() > 0 {
        let ghost l = table::views(left@);
        let _ = pid_index.insert(pid.clone(), left);
        assert(index_values(*pid_index) =~= x.insert(pid@, l));
    }
}

/// Files entries by topic, in their order.
fn group_by_topic(entries: Vec<TrackedEntry>) -> (r: Table<String, Vec<TrackedEntry>>)
    ensures
        r.wf(),
        forall|topic: Seq<char>| #[trigger]
            bucket(r@, topic) == table::views(entries@).filter(|e: EntryView| e.topic == topic),
        forall|topic: Seq<char>| #[trigger]
            r@.contains_key(topic) <==> bucket(r@, topic).len() > 0,
{
    let ghost all = table::views(entries@);
    let mut r: Table<String, Vec<TrackedEntry>> = Table::new();
    assert forall|topic: Seq<char>| #[trigger] bucket(r@, topic) == all.take(0).filter(
        |e: EntryView| e.topic == topic,
    ) by {
        reveal(Seq::filter);
    }
    for entry in it: entries
        invariant
            it.seq() == entries@,
            all == table::views(entries@),
            r.wf(),
            forall|topic: Seq<char>| #[trigger]
                bucket(r@, topic) == all.take(it.index()).filter(
                    |e: EntryView| e.topic == topic,
                ),
            forall|topic: Seq<char>| #[trigger]
                r@.contains_key(topic) <==> bucket(r@, topic).len() > 0,
    {
        let ghost i = it.index();
        let ghost e = entry@;
        let ghost m0 = r@;
        let mut list: Vec<TrackedEntry> = match r.remove(&entry.topic) {
            Some(list) => list,
            None => Vec::new(),
        };
        let ghost l0 = list@;
        assert(table::views(l0) =~= bucket(m0, e.topic));
        let topic = entry.topic.clone();
        list.push(entry);
        assert(table::views(list@) =~= table::views(l0).push(e));
        let _ = r.insert(topic, list);
        proof {
            assert(all.take(i + 1) =~= all.take(i).push(all[i]));
            assert forall|t: Seq<char>| #[trigger] bucket(r@, t) == all.take(i + 1).filter(
                |e: EntryView| e.topic == t,
            ) by {
                let p = |e: EntryView| e.topic == t;
                all.take(i).lemma_filter_push(all[i], p);
                assert(bucket(m0, t) == all.take(i).filter(p));
            }
            assert forall|t: Seq<char>| #[trigger] r@.contains_key(t) <==> bucket(r@, t).len()
                > 0 by {
                if t != e.topic {
                    assert(bucket(r@, t) == bucket(m0, t));
                    assert(m0.contains_key(t) <==> bucket(m0, t).len() > 0);
                }
            }
        }
    }
    assert(all.take(all.len() as int) =~= all);
    r
}

proof fn lemma_good_with_at(
    v: Values,
    topic: Seq<char>,
    key: Seq<char>,
    keep: spec_fn(EntryView) -> bool,
)
    requires
        good(v),
    ensures
        good(with_at(v, topic, key, at(v, topic, key).filter(keep))),
{
    let here = at(v, topic, key);
    let w = with_at(v, topic, key, here.filter(keep));
    assert forall|k: (
        Seq<char>,
        Seq<char>
    )| #[trigger] w.contains_key(k) implies w[k].len() > 0 && (
    forall|j: int|
        0 <= j < w[k].len() ==> (#[trigger] w[k][j]).topic == k.0 && w[k][j].key == k.1) by {
        if k == (topic, key) {
            assert forall|j: int| 0 <= j < w[k].len() implies (#[trigger] w[k][j]).topic == k.0
                && w[k][j].key == k.1 by {
                here.lemma_filter_contains_rev(keep, w[k][j]);
                assert(v.contains_key(k)) by {
                    reveal(Seq::filter);
                }
            }
        } else {
            assert(v.contains_key(k));
        }
    }
}

proof fn lemma_covers_untrack(
    x0: Map<PidView, Seq<(Seq<char>, Seq<char>)>>,
    v0: Values,
    x1: Map<PidView, Seq<(Seq<char>, Seq<char>)>>,
    topic: Seq<char>,
    key: Seq<char>,
    pid: PidView,
    np: spec_fn(EntryView) -> bool,
)
    requires
        covers(x0, v0),
        forall|e: EntryView| #[trigger] np(e) == (e.pid != pid),
        ({
            let spots = filed_under(x0, pid).filter(
                |k: (Seq<char>, Seq<char>)| k != (topic, key),
            );
            x1 == (if spots.len() == 0 {
                x0.remove(pid)
            } else {
                x0.insert(pid, spots)
            })
        }),
    ensures
        covers(x1, with_at(v0, topic, key, at(v0, topic, key).filter(np))),
{
    let v1 = with_at(v0, topic, key, at(v0, topic, key).filter(np));
    let p = |k: (Seq<char>, Seq<char>)| k != (topic, key);
    assert forall|k: (Seq<char>, Seq<char>), j: int|
        v1.contains_key(k) && 0 <= j < v1[k].len() implies filed_under(
        x1,
        (#[trigger] v1[k][j]).pid,
    ).contains(k) by {
        let e = v1[k][j];
        if k == (topic, key) {
            at(v0, topic, key).lemma_filter_contains_rev(np, e);
            assert(np(e)) by {
                at(v0, topic, key).lemma_filter_pred(np, j);
            }
            reveal(Seq::filter);
            assert(v0.contains_key(k));
            let a = choose|a: int| 0 <= a < v0[k].len() && v0[k][a] == e;
            assert(filed_under(x0, v0[k][a].pid).contains(k));
        } else {
            assert(v0.contains_key(k) && v0[k][j] == e);
            assert(filed_under(x0, v0[k][j].pid).contains(k));
            if e.pid == pid {
                let s = filed_under(x0, pid);
                let a = choose|a: int| 0 <= a < s.len() && s[a] == k;
                s.lemma_filter_contains(p, a);
                assert(s.filter(p).contains(k));
            }
        }
    }
}

proof fn lemma_covers_untrack_all(
    x0: Map<PidView, Seq<(Seq<char>, Seq<char>)>>,
    v0: Values,
    pid: PidView,
)
    requires
        covers(x0, v0),
    ensures
        covers(x0.remove(pid), without(v0, |e: EntryView| e.pid == pid)),
{
    let gone = |e: EntryView| e.pid == pid;
    let stay = |e: EntryView| !gone(e);
    let v1 = without(v0, gone);
    assert forall|k: (Seq<char>, Seq<char>), j: int|
        v1.contains_key(k) && 0 <= j < v1[k].len() implies filed_under(
        x0.remove(pid),
        (#[trigger] v1[k][j]).pid,
    ).contains(k) by {
        let e = v1[k][j];
        v0[k].lemma_filter_contains_rev(stay, e);
        v0[k].lemma_filter_pred(stay, j);
        let a = choose|a: int| 0 <= a < v0[k].len() && v0[k][a] == e;
        assert(filed_under(x0, v0[k][a].pid).contains(k));
    }
}

/// Whether a tag is among some.
fn holds_tag(tags: &Vec<Tag>, tag: &Tag) -> (r: bool)
    ensures
        r == table::views(tags@).contains(tag@),
{
    let ghost all = table::views(tags@);
    let mut i: usize = 0;
    while i < tags.len()
        invariant
            i <= tags@.len(),
            all == table::views(tags@),
            forall|j: int| 0 <= j < i ==> #[trigger] all[j] != tag@,
        decreases tags@.len() - i,
    {
        assert(all[i as int] == tags@[i as int]@);
        if tags[i].same(tag) {
            return true;
        }
        i = i + 1;
    }
    false
}

/// Whether some entry has the tag.
fn find_tag(list: &Vec<TrackedEntry>, tag: &Tag) -> (r: bool)
    ensures
        r == has_tag(table::views(list@), tag@),
{
    let ghost all = table::views(list@);
    let mut i: usize = 0;
    while i < list.len()
        invariant
            i <= list@.len(),
            all == table::views(list@),
            forall|j: int| 0 <= j < i ==> (#[trigger] all[j]).tag != tag@,
        decreases list@.len() - i,
    {
        if list[i].tag.same(tag) {
            assert(all[i as int].tag == tag@);
            return true;
        }
        i = i + 1;
    }
    false
}

/// Whether a replica counts as up.
fn up_in(replicas: &Table<Replica, ReplicaStatus>, replica: &Replica) -> (r: bool)
    requires
        replicas.wf(),
    ensures
        r == is_up(replicas@, replica@),
{
    match replicas.get(replica) {
        Some(ReplicaStatus::Down { .. }) => false,
        _ => true,
    }
}

/// Copies of the entries that `pick` picks.
fn collect(values: &Table<(String, String), Vec<TrackedEntry>>, pick: &Pick<'_>) -> (r: Vec<
    TrackedEntry,
>)
    ensures
        table::views(r@) == flat(values.rows@).filter(pick.pred()),
{
    let ghost p = pick.pred();
    let ghost rows = values.rows@;
    let mut out: Vec<TrackedEntry> = Vec::new();
    let mut i: usize = 0;
    proof {
        reveal(Seq::filter);
        assert(rows.take(0) =~= Seq::empty());
        assert(table::views(out@) =~= flat(rows.take(0)).filter(p));
    }
    while i < values.rows.len()
        invariant
            rows == values.rows@,
            i <= rows.len(),
            p == pick.pred(),
            table::views(out@) == flat(rows.take(i as int)).filter(p),
        decreases rows.len() - i,
    {
        let list = &values.rows[i].1;
        let ghost sofar = table::views(out@);
        let ghost here = table::views(list@);
        let mut j: usize = 0;
        assert(sofar + here.take(0).filter(p) =~= sofar) by {
            reveal(Seq::filter);
        }
        while j < list.len()
            invariant
                j <= list@.len(),
                here == table::views(list@),
                p == pick.pred(),
                table::views(out@) == sofar + here.take(j as int).filter(p),
            decreases list@.len() - j,
        {
            let ghost o = out@;
            proof {
                assert(here.take(j + 1) =~= here.take(j as int).push(here[j as int]));
                here.take(j as int).lemma_filter_push(here[j as int], p);
            }
            if pick.test(&list[j]) {
                out.push(list[j].clone());
                assert(table::views(out@) =~= table::views(o).push(here[j as int]));
                assert(sofar + here.take(j as int).filter(p).push(here[j as int]) =~= (sofar
                    + here.take(j as int).filter(p)).push(here[j as int]));
            }
            j = j + 1;
        }
        proof {
            assert(here.take(here.len() as int) =~= here);
            assert(rows.take(i + 1) =~= rows.take(i as int).push(rows[i as int]));
            lemma_flat_push(rows.take(i as int), rows[i as int]);
            Seq::filter_distributes_over_add(flat(rows.take(i as int)), here, p);
        }
        i = i + 1;
    }
    assert(rows.take(rows.len() as int) =~= rows);
    out
}

proof fn lemma_flat_take_len(rows: Seq<((String, String), Vec<TrackedEntry>)>, i: int)
    requires
        0 <= i <= rows.len(),
    ensures
        flat(rows.take(i)).len() <= flat(rows).len(),
    decreases rows.len(),
{
    if i == rows.len() {
        assert(rows.take(i) =~= rows);
    } else {
        lemma_flat_take_len(rows.drop_last(), i);
        assert(rows.drop_last().take(i) =~= rows.take(i));
    }
}

/// Removes the entries with one of `tags`, tag by tag.
#[verifier::rlimit(60)]
fn remove_tags(values: &mut Table<(String, String), Vec<TrackedEntry>>, tags: &Vec<Tag>) -> (r: Vec<
    TrackedEntry,
>)
    requires
        old(values).wf(),
        good(row_values(old(values).rows@)),
    ensures
        final(values).wf(),
        good(row_values(final(values).rows@)),
        row_values(final(values).rows@) == after_leaves(
            row_values(old(values).rows@),
            table::views(tags@),
        ),
        table::views(r@) == left_by(flat(old(values).rows@), table::views(tags@)),
        flat(final(values).rows@).len() + r@.len() == flat(old(values).rows@).len(),
{
    let ghost v0 = row_values(values.rows@);
    let ghost all = flat(values.rows@);
    let ghost ts = table::views(tags@);
    let mut gone: Vec<TrackedEntry> = Vec::new();
    let mut i: usize = 0;
    proof {
        lemma_no_tags(v0, all);
        assert(ts.take(0) =~= Seq::empty());
        assert(table::views(gone@) =~= left_by(all, ts.take(0)));
    }
    while i < tags.len()
        invariant
            i <= tags@.len(),
            ts == table::views(tags@),
            good(v0),
            values.wf(),
            good(row_values(values.rows@)),
            row_values(values.rows@) == after_leaves(v0, ts.take(i as int)),
            flat(values.rows@) == all.filter(untagged(ts.take(i as int))),
            table::views(gone@) == left_by(all, ts.take(i as int)),
            flat(values.rows@).len() + gone@.len() == all.len(),
        decreases tags@.len() - i,
    {
        let ghost done = ts.take(i as int);
        let ghost tag = ts[i as int];
        let ghost now = flat(values.rows@);
        let ghost g0 = gone@;
        let pick = Pick::ByTag(&tags[i]);
        sweep(values, &pick, &mut gone);
        proof {
            assert(pick.pred() =~= with_tag(tag));
            assert(ts.take(i + 1) =~= done.push(tag));
            lemma_next_tag(v0, all, done, tag);
            seqs::lemma_filter_parts(now, with_tag(tag));
            assert(table::views(gone@).len() == gone@.len());
            assert(table::views(g0).len() == g0.len());
        }
        i = i + 1;
    }
    assert(ts.take(ts.len() as int) =~= ts);
    gone
}

proof fn lemma_no_tags(v: Values, all: Seq<EntryView>)
    requires
        good(v),
    ensures
        after_leaves(v, Seq::empty()) == v,
        all.filter(untagged(Seq::empty())) == all,
{
    let none = tagged(Seq::empty());
    lemma_without_at(v, none);
    assert forall|t: Seq<char>, k: Seq<char>| #[trigger] at(v, t, k) == at(
        without(v, none),
        t,
        k,
    ) by {
        seqs::lemma_filter_all(at(v, t, k), |e: EntryView| !none(e));
    }
    lemma_same_values(v, without(v, none));
    seqs::lemma_filter_all(all, untagged(Seq::empty()));
}

proof fn lemma_next_tag(v: Values, all: Seq<EntryView>, done: Seq<TagView>, tag: TagView)
    requires
        good(v),
    ensures
        without(after_leaves(v, done), with_tag(tag)) == after_leaves(v, done.push(tag)),
        all.filter(untagged(done)).filter(|e: EntryView| !with_tag(tag)(e)) == all.filter(
            untagged(done.push(tag)),
        ),
        left_by(all, done.push(tag)) == left_by(all, done) + all.filter(untagged(done)).filter(
            with_tag(tag),
        ),
{
    let next = done.push(tag);
    assert(next.drop_last() =~= done);
    assert forall|g: TagView| #[trigger] next.contains(g) == (done.contains(g) || g == tag) by {
        if next.contains(g) {
            let a = choose|a: int| 0 <= a < next.len() && next[a] == g;
            if a < done.len() {
                assert(done[a] == g);
            }
        }
        if done.contains(g) {
            let a = choose|a: int| 0 <= a < done.len() && done[a] == g;
            assert(next[a] == g);
        }
        assert(next[done.len() as int] == tag);
    }
    let other = |e: EntryView| !with_tag(tag)(e);
    seqs::lemma_filter_filter(all, untagged(done), other);
    seqs::lemma_filter_agree(
        all,
        |e: EntryView| untagged(done)(e) && other(e),
        untagged(next),
    );
    lemma_without_without(v, tagged(done), with_tag(tag), tagged(next));
}

/// Removing in two steps is removing at once.
proof fn lemma_without_without(
    v: Values,
    p: spec_fn(EntryView) -> bool,
    q: spec_fn(EntryView) -> bool,
    r: spec_fn(EntryView) -> bool,
)
    requires
        good(v),
        forall|e: EntryView| #[trigger] r(e) == (p(e) || q(e)),
    ensures
        without(without(v, p), q) == without(v, r),
{
    lemma_without_at(v, p);
    lemma_without_at(without(v, p), q);
    lemma_without_at(v, r);
    let np = |e: EntryView| !p(e);
    let nq = |e: EntryView| !q(e);
    let nr = |e: EntryView| !r(e);
    assert forall|t: Seq<char>, k: Seq<char>| #[trigger] at(without(without(v, p), q), t, k) == at(
        without(v, r),
        t,
        k,
    ) by {
        assert(at(without(v, p), t, k) == at(v, t, k).filter(np));
        seqs::lemma_filter_filter(at(v, t, k), np, nq);
        seqs::lemma_filter_agree(at(v, t, k), |e: EntryView| np(e) && nq(e), nr);
        assert(at(without(v, r), t, k) == at(v, t, k).filter(nr));
    }
    lemma_same_values(without(without(v, p), q), without(v, r));
}

proof fn lemma_covers_without(
    x: Map<PidView, Seq<(Seq<char>, Seq<char>)>>,
    v: Values,
    gone: spec_fn(EntryView) -> bool,
)
    requires
        covers(x, v),
    ensures
        covers(x, without(v, gone)),
{
    let stay = |e: EntryView| !gone(e);
    let w = without(v, gone);
    assert forall|k: (Seq<char>, Seq<char>), j: int|
        w.contains_key(k) && 0 <= j < w[k].len() implies filed_under(
        x,
        (#[trigger] w[k][j]).pid,
    ).contains(k) by {
        let e = w[k][j];
        v[k].lemma_filter_contains_rev(stay, e);
        let a = choose|a: int| 0 <= a < v[k].len() && v[k][a] == e;
        assert(filed_under(x, v[k][a].pid).contains(k));
    }
}

/// Takes over the clocks of `theirs` that are ahead.
fn advance_context(ours: &mut Table<Replica, Clock>, theirs: &Table<Replica, Clock>)
    requires
        old(ours).wf(),
        theirs.wf(),
    ensures
        final(ours).wf(),
        final(ours)@ == merged_context(old(ours)@, theirs@),
{
    let ghost m0 = ours@;
    let ghost rows = theirs.rows@;
    let mut i: usize = 0;
    while i < theirs.rows.len()
        invariant
            rows == theirs.rows@,
            i <= rows.len(),
            theirs.wf(),
            ours.wf(),
            forall|r: Seq<char>| #[trigger]
                ours@.contains_key(r) <==> (m0.contains_key(r) || exists|j: int|
                    0 <= j < i && (#[trigger] rows[j]).0@ == r && rows[j].1 > 0),
            forall|r: Seq<char>|
                ours@.contains_key(r) && !(
                    exists|j: int| 0 <= j < i && (#[trigger] rows[j]).0@ == r
                )
                    ==> #[trigger] ours@[r] == m0[r],
            forall|j: int|
                0 <= j < i ==> clock_of(ours@, (#[trigger] rows[j]).0@) == (if rows[j].1 > clock_of(
                    m0,
                    rows[j].0@,
                ) {
                    rows[j].1
                } else {
                    clock_of(m0, rows[j].0@)
                }),
        decreases rows.len() - i,
    {
        let ghost m1 = ours@;
        let ghost r = rows[i as int].0@;
        proof {
            assert forall|j: int| 0 <= j < i implies (#[trigger] rows[j]).0@ != r by {
                assert(rows[j].0@ != rows[i as int].0@);
            }
        }
        let clock: u64 = theirs.rows[i].1;
        let our_clock: u64 = match ours.get(&theirs.rows[i].0) {
            Some(c) => *c,
            None => 0,
        };
        assert(clock_of(m1, r) == clock_of(m0, r)) by {
            if m1.contains_key(r) {
                assert(m1[r] == m0[r]);
            } else {
                assert(!m0.contains_key(r));
            }
        }
        if clock > our_clock {
            let _ = ours.insert(theirs.rows[i].0.clone(), clock);
        }
        i = i + 1;
    }
    proof {
        let want = merged_context(m0, theirs@);
        assert forall|r: Seq<char>| ours@.contains_key(r) == want.contains_key(r) by {
            if theirs@.contains_key(r) {
                let a = table::lemma_key(rows, r);
                table::lemma_row(rows, a);
            }
            if ours@.contains_key(r) && !m0.contains_key(r) {
                let j = choose|j: int| 0 <= j < i && (#[trigger] rows[j]).0@ == r && rows[j].1 > 0;
                table::lemma_row(rows, j);
            }
        }
        assert forall|r: Seq<char>| ours@.contains_key(r) implies ours@[r] == want[r] by {
            if theirs@.contains_key(r) {
                let a = table::lemma_key(rows, r);
                table::lemma_row(rows, a);
            } else {
                assert(!(exists|j: int| 0 <= j < i && (#[trigger] rows[j]).0@ == r)) by {
                    if exists|j: int| 0 <= j < i && (#[trigger] rows[j]).0@ == r {
                        let j = choose|j: int| 0 <= j < i && (#[trigger] rows[j]).0@ == r;
                        table::lemma_row(rows, j);
                    }
                }
            }
        }
        assert(ours@ =~= want);
    }
}

/// Copies of the entries whose replica counts as up.
fn online(list: &Vec<TrackedEntry>, replicas: &Table<Replica, ReplicaStatus>) -> (r: Vec<
    TrackedEntry,
>)
    requires
        replicas.wf(),
    ensures
        table::views(r@) == visible(table::views(list@), replicas@),
{
    let ghost p = |e: EntryView| is_up(replicas@, e.tag.replica);
    let ghost all = table::views(list@);
    let mut out: Vec<TrackedEntry> = Vec::new();
    let mut i: usize = 0;
    assert(table::views(out@) =~= all.take(0).filter(p)) by {
        reveal(Seq::filter);
    }
    while i < list.len()
        invariant
            i <= list@.len(),
            replicas.wf(),
            all == table::views(list@),
            p == (|e: EntryView| is_up(replicas@, e.tag.replica)),
            table::views(out@) == all.take(i as int).filter(p),
        decreases list@.len() - i,
    {
        let ghost o = out@;
        proof {
            assert(all.take(i + 1) =~= all.take(i as int).push(all[i as int]));
            all.take(i as int).lemma_filter_push(all[i as int], p);
        }
        if up_in(replicas, &list[i].tag.replica) {
            out.push(list[i].clone());
            assert(table::views(out@) =~= table::views(o).push(all[i as int]));
        }
        i = i + 1;
    }
    assert(all.take(all.len() as int) =~= all);
    out
}

} // verus!
