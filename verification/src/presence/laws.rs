//! What holds of replicas that exchange their entries.

use vstd::prelude::*;

use crate::presence::crdt;
use crate::presence::crdt::{
    DeltaView, EntryView, MergeResult, PresenceCrdt, PresenceDelta, ReplicaStatus, TagView,
    TrackedEntry, Values,
};
use crate::process::PidView;
use crate::seqs;
use crate::table;

verus! {

/// A place where a tag can stand: topic, key and tag.
pub type Mark = (Seq<char>, Seq<char>, TagView);

/// The place of an entry.
pub open spec fn mark(e: EntryView) -> Mark {
    (e.topic, e.key, e.tag)
}

/// The places at which `v` holds an entry.
pub open spec fn marks(v: Values) -> Set<Mark> {
    Set::new(|m: Mark| crdt::has_tag(crdt::at(v, m.0, m.1), m.2))
}

/// The places of the entries of `s`.
pub open spec fn marks_of(s: Seq<EntryView>) -> Set<Mark> {
    Set::new(|m: Mark| exists|i: int| 0 <= i < s.len() && mark(#[trigger] s[i]) == m)
}

/// The places of `s` whose tags the context has not seen.
pub open spec fn unseen(context: Map<Seq<char>, u64>, s: Set<Mark>) -> Set<Mark> {
    s.filter(|m: Mark| !crdt::dominated(context, m.2))
}

proof fn lemma_has_tag_push(s: Seq<EntryView>, e: EntryView, tag: TagView)
    ensures
        crdt::has_tag(s.push(e), tag) == (crdt::has_tag(s, tag) || e.tag == tag),
{
    let t = s.push(e);
    if crdt::has_tag(t, tag) {
        let j = choose|j: int| 0 <= j < t.len() && (#[trigger] t[j]).tag == tag;
        if j < s.len() {
            assert(s[j].tag == tag);
        }
    }
    if crdt::has_tag(s, tag) {
        let j = choose|j: int| 0 <= j < s.len() && (#[trigger] s[j]).tag == tag;
        assert(t[j].tag == tag);
    }
    if e.tag == tag {
        assert(t[s.len() as int].tag == tag);
    }
}

proof fn lemma_marks_added(v: Values, e: EntryView)
    ensures
        marks(crdt::added(v, e)) == marks(v).insert(mark(e)),
{
    let w = crdt::added(v, e);
    assert forall|m: Mark| marks(w).contains(m) == marks(v).insert(mark(e)).contains(m) by {
        if (m.0, m.1) == (e.topic, e.key) {
            lemma_has_tag_push(crdt::at(v, m.0, m.1), e, m.2);
        } else {
            assert(crdt::at(w, m.0, m.1) == crdt::at(v, m.0, m.1));
        }
    }
    assert(marks(w) =~= marks(v).insert(mark(e)));
}

proof fn lemma_marks_of_push(s: Seq<EntryView>, e: EntryView)
    ensures
        marks_of(s.push(e)) == marks_of(s).insert(mark(e)),
{
    let t = s.push(e);
    assert forall|m: Mark| marks_of(t).contains(m) == marks_of(s).insert(mark(e)).contains(m) by {
        if marks_of(t).contains(m) {
            let i = choose|i: int| 0 <= i < t.len() && mark(#[trigger] t[i]) == m;
            if i < s.len() {
                assert(mark(s[i]) == m);
            }
        }
        if marks_of(s).contains(m) {
            let i = choose|i: int| 0 <= i < s.len() && mark(#[trigger] s[i]) == m;
            assert(mark(t[i]) == m);
        }
        assert(t[s.len() as int] == e);
    }
    assert(marks_of(t) =~= marks_of(s).insert(mark(e)));
}

proof fn lemma_marks_after_joins(
    context: Map<Seq<char>, u64>,
    v: Values,
    joins: Seq<EntryView>,
)
    ensures
        marks(crdt::after_joins(context, v, joins)) == marks(v).union(
            unseen(context, marks_of(joins)),
        ),
    decreases joins.len(),
{
    if joins.len() == 0 {
        assert(unseen(context, marks_of(joins)) =~= Set::<Mark>::empty());
        assert(marks(v).union(Set::<Mark>::empty()) =~= marks(v));
    } else {
        let rest = joins.drop_last();
        let e = joins.last();
        lemma_marks_after_joins(context, v, rest);
        let w = crdt::after_joins(context, v, rest);
        assert(rest.push(e) =~= joins);
        lemma_marks_of_push(rest, e);
        lemma_marks_added(w, e);
        assert(marks(crdt::after_joins(context, v, joins)) =~= marks(v).union(
            unseen(context, marks_of(joins)),
        ));
    }
}

proof fn lemma_marks_of_filter(s: Seq<EntryView>, tags: Seq<TagView>)
    ensures
        marks_of(s.filter(crdt::untagged(tags))) == marks_of(s).filter(
            |m: Mark| !tags.contains(m.2),
        ),
{
    let p = crdt::untagged(tags);
    let t = s.filter(p);
    let stays = |m: Mark| !tags.contains(m.2);
    assert forall|m: Mark| marks_of(t).contains(m) == marks_of(s).filter(stays).contains(m) by {
        if marks_of(t).contains(m) {
            let i = choose|i: int| 0 <= i < t.len() && mark(#[trigger] t[i]) == m;
            s.lemma_filter_pred(p, i);
            s.lemma_filter_contains_rev(p, t[i]);
            let j = choose|j: int| 0 <= j < s.len() && s[j] == t[i];
            assert(mark(s[j]) == m);
        }
        if marks_of(s).filter(stays).contains(m) {
            let i = choose|i: int| 0 <= i < s.len() && mark(#[trigger] s[i]) == m;
            s.lemma_filter_contains(p, i);
            let j = choose|j: int| 0 <= j < t.len() && t[j] == s[i];
            assert(mark(t[j]) == m);
        }
    }
    assert(marks_of(t) =~= marks_of(s).filter(stays));
}

/// A merge keeps the places that there were and adds those of the joins that the context had not
/// seen, except where the tag left.
pub proof fn law_merge_places(v: Values, context: Map<Seq<char>, u64>, d: DeltaView)
    ensures
        marks(crdt::merged_values(v, context, d)) == marks(v).union(
            unseen(context, marks_of(d.joins)),
        ).filter(|m: Mark| !d.leave_tags.contains(m.2)),
{
    let stays = |m: Mark| !d.leave_tags.contains(m.2);
    let gone = crdt::tagged(d.leave_tags);
    let w = crdt::after_leaves(v, d.leave_tags);
    crdt::lemma_without_at(v, gone);
    lemma_marks_after_joins(context, w, crdt::arriving(d));
    lemma_marks_of_filter(d.joins, d.leave_tags);
    assert forall|m: Mark| marks(w).contains(m) == marks(v).filter(stays).contains(m) by {
        let here = crdt::at(v, m.0, m.1);
        let stay = |e: EntryView| !gone(e);
        assert(crdt::at(w, m.0, m.1) == here.filter(stay));
        if marks(w).contains(m) {
            let s = here.filter(stay);
            let j = choose|j: int| 0 <= j < s.len() && (#[trigger] s[j]).tag == m.2;
            here.lemma_filter_contains_rev(stay, s[j]);
            here.lemma_filter_pred(stay, j);
            let a = choose|a: int| 0 <= a < here.len() && here[a] == s[j];
            assert(here[a].tag == m.2);
        }
        if marks(v).filter(stays).contains(m) {
            let j = choose|j: int| 0 <= j < here.len() && (#[trigger] here[j]).tag == m.2;
            here.lemma_filter_contains(stay, j);
            let s = here.filter(stay);
            let a = choose|a: int| 0 <= a < s.len() && s[a] == here[j];
            assert(s[a].tag == m.2);
        }
    }
    assert(marks(w) =~= marks(v).filter(stays));
    assert(marks(crdt::merged_values(v, context, d)) =~= marks(v).union(
        unseen(context, marks_of(d.joins)),
    ).filter(stays));
}

/// What a merged context has seen, one of the two had seen.
pub proof fn law_merged_context_saw(
    ours: Map<Seq<char>, u64>,
    theirs: Map<Seq<char>, u64>,
    tag: TagView,
)
    ensures
        crdt::dominated(crdt::merged_context(ours, theirs), tag) ==> crdt::dominated(ours, tag)
            || crdt::dominated(theirs, tag),
        crdt::dominated(ours, tag) ==> crdt::dominated(crdt::merged_context(ours, theirs), tag),
        crdt::dominated(theirs, tag) && tag.clock > 0 ==> crdt::dominated(
            crdt::merged_context(ours, theirs),
            tag,
        ),
{
}

/// Merging the same changes a second time changes no place.
pub proof fn law_merge_is_idempotent(v: Values, context: Map<Seq<char>, u64>, d: DeltaView)
    ensures
        ({
            let once = crdt::merged_values(v, context, d);
            let seen = crdt::merged_context(context, d.context);
            marks(crdt::merged_values(once, seen, d)) == marks(once)
        }),
{
    let once = crdt::merged_values(v, context, d);
    let seen = crdt::merged_context(context, d.context);
    law_merge_places(v, context, d);
    law_merge_places(once, seen, d);
    assert forall|m: Mark|
        marks(crdt::merged_values(once, seen, d)).contains(m) == marks(once).contains(m) by {
        law_merged_context_saw(context, d.context, m.2);
    }
    assert(marks(crdt::merged_values(once, seen, d)) =~= marks(once));
}

/// What a replica holds and has seen.
pub struct Held {
    /// The entries by topic and key.
    pub values: Values,
    /// The entries, one key after the other.
    pub entries: Seq<EntryView>,
    /// The causal context.
    pub context: Map<Seq<char>, u64>,
}

/// The list of entries holds, under each key, what stands there.
pub open spec fn listed(h: Held) -> bool {
    forall|t: Seq<char>, k: Seq<char>| #[trigger]
        crdt::under(h.entries, t, k) == crdt::at(h.values, t, k)
}

/// Everything that a replica holds, as it sends it.
pub open spec fn all_of(h: Held) -> DeltaView {
    DeltaView { joins: h.entries, leave_tags: Seq::empty(), context: h.context }
}

/// Where one replica has seen a tag that the other holds, it holds it too: nothing that the
/// other holds was removed here.
pub open spec fn compatible(a: Held, b: Held) -> bool {
    forall|m: Mark|
        #![trigger marks(a.values).contains(m)]
        marks(a.values).contains(m) && crdt::dominated(b.context, m.2) ==> marks(
            b.values,
        ).contains(m)
}

proof fn lemma_listed_marks(h: Held)
    requires
        listed(h),
    ensures
        marks_of(h.entries) == marks(h.values),
{
    assert forall|m: Mark| marks_of(h.entries).contains(m) == marks(h.values).contains(m) by {
        let p = |e: EntryView| e.topic == m.0 && e.key == m.1;
        let here = crdt::at(h.values, m.0, m.1);
        assert(crdt::under(h.entries, m.0, m.1) == here);
        if marks_of(h.entries).contains(m) {
            let i = choose|i: int| 0 <= i < h.entries.len() && mark(#[trigger] h.entries[i]) == m;
            h.entries.lemma_filter_contains(p, i);
            let a = choose|a: int| 0 <= a < here.len() && here[a] == h.entries[i];
            assert(here[a].tag == m.2);
        }
        if marks(h.values).contains(m) {
            let j = choose|j: int| 0 <= j < here.len() && (#[trigger] here[j]).tag == m.2;
            h.entries.lemma_filter_pred(p, j);
            h.entries.lemma_filter_contains_rev(p, here[j]);
            let i = choose|i: int| 0 <= i < h.entries.len() && h.entries[i] == here[j];
            assert(mark(h.entries[i]) == m);
        }
    }
    assert(marks_of(h.entries) =~= marks(h.values));
}

/// The order in which a replica merges what two others hold does not matter, if the two are
/// compatible.
pub proof fn law_merge_commutes(v: Values, context: Map<Seq<char>, u64>, a: Held, b: Held)
    requires
        listed(a),
        listed(b),
        compatible(a, b),
        compatible(b, a),
    ensures
        ({
            let da = all_of(a);
            let db = all_of(b);
            let ab = crdt::merged_values(
                crdt::merged_values(v, context, da),
                crdt::merged_context(context, da.context),
                db,
            );
            let ba = crdt::merged_values(
                crdt::merged_values(v, context, db),
                crdt::merged_context(context, db.context),
                da,
            );
            marks(ab) == marks(ba)
        }),
{
    let da = all_of(a);
    let db = all_of(b);
    let va = crdt::merged_values(v, context, da);
    let vb = crdt::merged_values(v, context, db);
    let ca = crdt::merged_context(context, da.context);
    let cb = crdt::merged_context(context, db.context);
    law_merge_places(v, context, da);
    law_merge_places(v, context, db);
    law_merge_places(va, ca, db);
    law_merge_places(vb, cb, da);
    lemma_listed_marks(a);
    lemma_listed_marks(b);
    let ab = crdt::merged_values(va, ca, db);
    let ba = crdt::merged_values(vb, cb, da);
    assert forall|m: Mark| marks(ab).contains(m) == marks(ba).contains(m) by {
        law_merged_context_saw(context, da.context, m.2);
        law_merged_context_saw(context, db.context, m.2);
        assert(marks(a.values).contains(m) && crdt::dominated(b.context, m.2) ==> marks(
            b.values,
        ).contains(m));
        assert(marks(b.values).contains(m) && crdt::dominated(a.context, m.2) ==> marks(
            a.values,
        ).contains(m));
    }
    assert(marks(ab) =~= marks(ba));
}

/// The state of replica `i` of `hs` after it merged what the replicas `order` of `hs` hold, in
/// that order.
pub open spec fn exchanged(hs: Seq<Held>, i: int, order: Seq<int>) -> (
    Values,
    Map<Seq<char>, u64>,
)
    decreases order.len(),
{
    if order.len() == 0 {
        (hs[i].values, hs[i].context)
    } else {
        let (v, c) = exchanged(hs, i, order.drop_last());
        let d = all_of(hs[order.last()]);
        (crdt::merged_values(v, c, d), crdt::merged_context(c, d.context))
    }
}

/// The places that some replica holds among `i` and `order`.
pub open spec fn held_by(hs: Seq<Held>, i: int, order: Seq<int>) -> Set<Mark> {
    Set::new(
        |m: Mark|
            marks(hs[i].values).contains(m) || exists|a: int|
                0 <= a < order.len() && #[trigger] marks(hs[order[a]].values).contains(m),
    )
}

/// The replicas are each listed, and any two are compatible.
pub open spec fn coherent(hs: Seq<Held>) -> bool {
    &&& forall|i: int| 0 <= i < hs.len() ==> listed(#[trigger] hs[i])
    &&& forall|i: int, j: int|
        0 <= i < hs.len() && 0 <= j < hs.len() ==> compatible(#[trigger] hs[i], #[trigger] hs[j])
}

proof fn lemma_exchanged(hs: Seq<Held>, i: int, order: Seq<int>)
    requires
        coherent(hs),
        0 <= i < hs.len(),
        forall|a: int| 0 <= a < order.len() ==> 0 <= #[trigger] order[a] < hs.len(),
    ensures
        marks(exchanged(hs, i, order).0) == held_by(hs, i, order),
        forall|tag: TagView|
            #![trigger crdt::dominated(exchanged(hs, i, order).1, tag)]
            crdt::dominated(exchanged(hs, i, order).1, tag) ==> crdt::dominated(hs[i].context, tag)
                || exists|a: int|
                0 <= a < order.len() && crdt::dominated((#[trigger] hs[order[a]]).context, tag),
    decreases order.len(),
{
    if order.len() == 0 {
        assert(held_by(hs, i, order) =~= marks(hs[i].values));
    } else {
        let rest = order.drop_last();
        let l = order.last();
        lemma_exchanged(hs, i, rest);
        let (v, c) = exchanged(hs, i, rest);
        let d = all_of(hs[l]);
        law_merge_places(v, c, d);
        assert(0 <= order[order.len() - 1] < hs.len());
        lemma_listed_marks(hs[l]);
        let now = exchanged(hs, i, order);
        assert forall|m: Mark| marks(now.0).contains(m) == held_by(hs, i, order).contains(m) by {
            if marks(now.0).contains(m) {
                if held_by(hs, i, rest).contains(m) {
                    if !marks(hs[i].values).contains(m) {
                        let a = choose|a: int|
                            0 <= a < rest.len() && #[trigger] marks(
                                hs[rest[a]].values,
                            ).contains(m);
                        assert(marks(hs[order[a]].values).contains(m));
                    }
                } else {
                    assert(marks(hs[order[order.len() - 1]].values).contains(m));
                }
            }
            if held_by(hs, i, order).contains(m) {
                if !held_by(hs, i, rest).contains(m) {
                    let a = choose|a: int|
                        0 <= a < order.len() && #[trigger] marks(hs[order[a]].values).contains(m);
                    if a < rest.len() {
                        assert(marks(hs[rest[a]].values).contains(m));
                    }
                    assert(marks(hs[l].values).contains(m));
                    if crdt::dominated(c, m.2) {
                        if crdt::dominated(hs[i].context, m.2) {
                            assert(compatible(hs[l], hs[i]));
                        } else {
                            let b = choose|b: int|
                                0 <= b < rest.len() && crdt::dominated(
                                    (#[trigger] hs[rest[b]]).context,
                                    m.2,
                                );
                            assert(rest[b] == order[b]);
                            assert(compatible(hs[l], hs[rest[b]]));
                            assert(marks(hs[rest[b]].values).contains(m));
                        }
                    }
                }
            }
        }
        assert(marks(now.0) =~= held_by(hs, i, order));
        assert forall|tag: TagView|
            #![trigger crdt::dominated(now.1, tag)]
            crdt::dominated(now.1, tag) implies crdt::dominated(hs[i].context, tag) || exists|a: int|
            0 <= a < order.len() && crdt::dominated((#[trigger] hs[order[a]]).context, tag) by {
            law_merged_context_saw(c, d.context, tag);
            if crdt::dominated(c, tag) {
                if !crdt::dominated(hs[i].context, tag) {
                    let a = choose|a: int|
                        0 <= a < rest.len() && crdt::dominated(
                            (#[trigger] hs[rest[a]]).context,
                            tag
                        );
                    assert(crdt::dominated(hs[order[a]].context, tag));
                }
            } else {
                assert(crdt::dominated(hs[order[order.len() - 1]].context, tag));
            }
        }
    }
}

/// Replicas converge: two of them that have merged what all the others hold, in whatever order,
/// hold the same places.
pub proof fn law_replicas_converge(hs: Seq<Held>, i: int, a: Seq<int>, j: int, b: Seq<int>)
    requires
        coherent(hs),
        0 <= i < hs.len(),
        0 <= j < hs.len(),
        forall|x: int| 0 <= x < a.len() ==> 0 <= #[trigger] a[x] < hs.len(),
        forall|x: int| 0 <= x < b.len() ==> 0 <= #[trigger] b[x] < hs.len(),
        forall|x: int| 0 <= x < hs.len() && x != i ==> #[trigger] a.contains(x),
        forall|x: int| 0 <= x < hs.len() && x != j ==> #[trigger] b.contains(x),
    ensures
        marks(exchanged(hs, i, a).0) == marks(exchanged(hs, j, b).0),
{
    lemma_exchanged(hs, i, a);
    lemma_exchanged(hs, j, b);
    lemma_held_by_all(hs, i, a, j, b);
    lemma_held_by_all(hs, j, b, i, a);
    assert(held_by(hs, i, a) =~= held_by(hs, j, b));
}

proof fn lemma_held_by_all(hs: Seq<Held>, i: int, a: Seq<int>, j: int, b: Seq<int>)
    requires
        0 <= i < hs.len(),
        forall|x: int| 0 <= x < a.len() ==> 0 <= #[trigger] a[x] < hs.len(),
        forall|x: int| 0 <= x < hs.len() && x != j ==> #[trigger] b.contains(x),
    ensures
        held_by(hs, i, a).subset_of(held_by(hs, j, b)),
{
    assert forall|m: Mark| held_by(hs, i, a).contains(m) implies held_by(hs, j, b).contains(m) by {
        let who = if marks(hs[i].values).contains(m) {
            i
        } else {
            let x = choose|x: int|
                0 <= x < a.len() && #[trigger] marks(hs[a[x]].values).contains(m);
            a[x]
        };
        if who != j {
            assert(b.contains(who));
            let y = choose|y: int| 0 <= y < b.len() && b[y] == who;
            assert(marks(hs[b[y]].values).contains(m));
        }
    }
}

/// The replica `name` has heard of no other: its entries are its own, and so is its context.
pub open spec fn solo(name: Seq<char>, v: Values, context: Map<Seq<char>, u64>) -> bool {
    &&& forall|m: Mark| #[trigger] marks(v).contains(m) ==> m.2.replica == name
    &&& forall|r: Seq<char>| #[trigger] context.contains_key(r) ==> r == name
}

/// A new replica has heard of no other, and tracking, untracking and untracking everything
/// leave it so.
pub proof fn law_local_changes_stay_local(
    name: Seq<char>,
    v: Values,
    context: Map<Seq<char>, u64>,
    e: EntryView,
    clock: u64,
    pid: PidView,
)
    requires
        crdt::good(v),
        solo(name, v, context),
        e.tag.replica == name,
    ensures
        solo(name, Values::empty(), Map::<Seq<char>, u64>::empty().insert(name, 0)),
        solo(name, crdt::added(v, e), context.insert(name, clock)),
        solo(
            name,
            crdt::with_at(
                v,
                e.topic,
                e.key,
                crdt::at(v, e.topic, e.key).filter(|x: EntryView| x.pid != pid),
            ),
            context,
        ),
        solo(name, crdt::without(v, |x: EntryView| x.pid == pid), context),
{
    lemma_marks_added(v, e);
    let stay = |x: EntryView| x.pid != pid;
    let here = crdt::at(v, e.topic, e.key);
    let w = crdt::with_at(v, e.topic, e.key, here.filter(stay));
    assert forall|m: Mark| #[trigger] marks(w).contains(m) implies m.2.replica == name by {
        let s = crdt::at(w, m.0, m.1);
        let j = choose|j: int| 0 <= j < s.len() && (#[trigger] s[j]).tag == m.2;
        if (m.0, m.1) == (e.topic, e.key) {
            here.lemma_filter_contains_rev(stay, s[j]);
            let a = choose|a: int| 0 <= a < here.len() && here[a] == s[j];
            assert(here[a].tag == m.2);
        } else {
            assert(s == crdt::at(v, m.0, m.1));
        }
        assert(marks(v).contains(m));
    }
    let gone = |x: EntryView| x.pid == pid;
    let left = |x: EntryView| !gone(x);
    let u = crdt::without(v, gone);
    crdt::lemma_without_at(v, gone);
    assert forall|m: Mark| #[trigger] marks(u).contains(m) implies m.2.replica == name by {
        let all = crdt::at(v, m.0, m.1);
        let s = crdt::at(u, m.0, m.1);
        assert(s == all.filter(left));
        let j = choose|j: int| 0 <= j < s.len() && (#[trigger] s[j]).tag == m.2;
        all.lemma_filter_contains_rev(left, s[j]);
        let a = choose|a: int| 0 <= a < all.len() && all[a] == s[j];
        assert(all[a].tag == m.2);
        assert(marks(v).contains(m));
    }
}

/// Replicas under different names that have heard of no other are compatible.
pub proof fn law_solo_replicas_are_compatible(
    a: Held,
    b: Held,
    name_a: Seq<char>,
    name_b: Seq<char>
)
    requires
        solo(name_a, a.values, a.context),
        solo(name_b, b.values, b.context),
        name_a != name_b,
    ensures
        compatible(a, b),
{
}

/// Untracking undoes tracking: where the process had no entry under the key before, everything
/// is as it was.
pub proof fn law_untrack_undoes_track(v: Values, e: EntryView)
    requires
        crdt::good(v),
        forall|j: int|
            0 <= j < crdt::at(v, e.topic, e.key).len() ==> (#[trigger] crdt::at(
                v,
                e.topic,
                e.key,
            )[j]).pid != e.pid,
    ensures
        ({
            let w = crdt::added(v, e);
            let left = crdt::at(w, e.topic, e.key).filter(|x: EntryView| x.pid != e.pid);
            crdt::with_at(w, e.topic, e.key, left) == v
        }),
{
    let stay = |x: EntryView| x.pid != e.pid;
    let here = crdt::at(v, e.topic, e.key);
    let w = crdt::added(v, e);
    here.lemma_filter_push(e, stay);
    seqs::lemma_filter_all(here, stay);
    assert(crdt::at(w, e.topic, e.key) == here.push(e));
    assert(crdt::with_at(w, e.topic, e.key, here) =~= v);
}

/// Tracking twice under one key gives two entries, in order, with different tags.
pub proof fn law_tracking_twice(v: Values, a: EntryView, b: EntryView)
    requires
        a.topic == b.topic,
        a.key == b.key,
        b.tag.clock == a.tag.clock + 1,
    ensures
        crdt::at(crdt::added(crdt::added(v, a), b), a.topic, a.key) == crdt::at(
            v,
            a.topic,
            a.key,
        ).push(a).push(b),
        a.tag != b.tag,
{
}

/// A leave propagates: once a replica merges changes that remove a tag, no entry with the tag is
/// left anywhere.
pub proof fn law_leave_propagates(
    v: Values,
    context: Map<Seq<char>, u64>,
    d: DeltaView,
    tag: TagView,
    topic: Seq<char>,
    key: Seq<char>,
)
    requires
        d.leave_tags.contains(tag),
    ensures
        !crdt::has_tag(crdt::at(crdt::merged_values(v, context, d), topic, key), tag),
{
    law_merge_places(v, context, d);
    assert(!marks(crdt::merged_values(v, context, d)).contains((topic, key, tag)));
}

/// Marking a replica down hides its entries and no others; marking it up again shows them.
pub proof fn law_down_hides_and_up_shows(
    s: Seq<EntryView>,
    status: Map<Seq<char>, ReplicaStatus>,
    replica: Seq<char>,
    down: ReplicaStatus,
)
    requires
        crdt::is_up(status, replica),
        down is Down,
    ensures
        crdt::visible(s, status.insert(replica, down)) == crdt::visible(s, status).filter(
            |e: EntryView| e.tag.replica != replica,
        ),
        crdt::visible(s, status.insert(replica, down).insert(replica, ReplicaStatus::Up))
            == crdt::visible(s, status),
{
    let up = |e: EntryView| crdt::is_up(status, e.tag.replica);
    let other = |e: EntryView| e.tag.replica != replica;
    seqs::lemma_filter_filter(s, up, other);
    seqs::lemma_filter_agree(
        s,
        |e: EntryView| up(e) && other(e),
        |e: EntryView| crdt::is_up(status.insert(replica, down), e.tag.replica),
    );
    seqs::lemma_filter_agree(
        s,
        |e: EntryView|
            crdt::is_up(
                status.insert(replica, down).insert(replica, ReplicaStatus::Up),
                e.tag.replica,
            ),
        up,
    );
}

/// What is extracted for a context is new to it: a replica with that context ends up with every
/// place that was extracted.
pub proof fn law_extract_is_delivered(
    from: Seq<EntryView>,
    v: Values,
    context: Map<Seq<char>, u64>,
    sent: Map<Seq<char>, u64>,
)
    ensures
        ({
            let news = from.filter(
                |e: EntryView| e.tag.clock > crdt::clock_of(context, e.tag.replica),
            );
            let d = DeltaView { joins: news, leave_tags: Seq::empty(), context: sent };
            marks(crdt::merged_values(v, context, d)) == marks(v).union(marks_of(news))
        }),
{
    let p = |e: EntryView| e.tag.clock > crdt::clock_of(context, e.tag.replica);
    let news = from.filter(p);
    let d = DeltaView { joins: news, leave_tags: Seq::empty(), context: sent };
    law_merge_places(v, context, d);
    assert forall|m: Mark| marks_of(news).contains(m) implies !crdt::dominated(context, m.2) by {
        let i = choose|i: int| 0 <= i < news.len() && mark(#[trigger] news[i]) == m;
        from.lemma_filter_pred(p, i);
    }
    assert(marks(crdt::merged_values(v, context, d)) =~= marks(v).union(marks_of(news)));
}

/// A change that a replica makes on its own.
pub enum Change {
    /// A process is tracked.
    Track {
        /// The topic.
        topic: Seq<char>,
        /// The process.
        pid: PidView,
        /// The key.
        key: Seq<char>,
        /// The metadata.
        meta: Seq<u8>,
    },
    /// A process is no longer tracked under a key.
    Untrack {
        /// The topic.
        topic: Seq<char>,
        /// The key.
        key: Seq<char>,
        /// The process.
        pid: PidView,
    },
    /// A process is no longer tracked anywhere.
    UntrackAll {
        /// The process.
        pid: PidView,
    },
}

/// The entries of the replica `name`, and its clock, once it has made the changes in turn.
pub open spec fn made(name: Seq<char>, changes: Seq<Change>) -> (Values, u64)
    decreases changes.len(),
{
    if changes.len() == 0 {
        (Values::empty(), 0)
    } else {
        let (v, ticks) = made(name, changes.drop_last());
        match changes.last() {
            Change::Track { topic, pid, key, meta } => {
                let tag = TagView { replica: name, clock: (ticks + 1) as u64 };
                (crdt::added(v, EntryView { topic, pid, key, meta, tag }), (ticks + 1) as u64)
            },
            Change::Untrack { topic, key, pid } => (
                crdt::with_at(
                    v,
                    topic,
                    key,
                    crdt::at(v, topic, key).filter(|e: EntryView| e.pid != pid),
                ),
                ticks,
            ),
            Change::UntrackAll { pid } => (
                crdt::without(v, |e: EntryView| e.pid == pid),
                ticks,
            ),
        }
    }
}

/// No two entries of `s` have the same tag.
pub open spec fn distinct_tags(s: Seq<EntryView>) -> bool {
    forall|i: int, j: int| 0 <= i < j < s.len() ==> (#[trigger] s[i]).tag != (#[trigger] s[j]).tag
}

/// No tag stands at two places of `v`, nor twice at one.
pub open spec fn tags_stand_once(v: Values) -> bool {
    &&& forall|a: Mark, b: Mark| #[trigger]
        marks(v).contains(a) && #[trigger] marks(v).contains(b) && a.2 == b.2 ==> a == b
    &&& forall|t: Seq<char>, k: Seq<char>| distinct_tags(#[trigger] crdt::at(v, t, k))
}

/// The tags of `v` are those of the replica `name`, up to a clock.
pub open spec fn tags_of_own(name: Seq<char>, ticks: u64, v: Values) -> bool {
    forall|m: Mark| #[trigger]
        marks(v).contains(m) ==> m.2.replica == name && 0 < m.2.clock <= ticks
}

proof fn lemma_distinct_filter(s: Seq<EntryView>, p: spec_fn(EntryView) -> bool)
    requires
        distinct_tags(s),
    ensures
        distinct_tags(s.filter(p)),
    decreases s.len(),
{
    reveal(Seq::filter);
    if s.len() > 0 {
        let rest = s.drop_last();
        assert forall|i: int, j: int| 0 <= i < j < rest.len() implies (#[trigger] rest[i]).tag
            != (#[trigger] rest[j]).tag by {
            assert(s[i].tag != s[j].tag);
        }
        lemma_distinct_filter(rest, p);
        if p(s.last()) {
            let t = rest.filter(p);
            assert(s.filter(p) =~= t.push(s.last()));
            assert forall|i: int| 0 <= i < t.len() implies (#[trigger] t[i]).tag
                != s.last().tag by {
                rest.lemma_filter_contains_rev(p, t[i]);
                let a = choose|a: int| 0 <= a < rest.len() && rest[a] == t[i];
                assert(s[a].tag != s[s.len() - 1].tag);
            }
        }
    }
}

proof fn lemma_has_tag_filter(s: Seq<EntryView>, p: spec_fn(EntryView) -> bool, tag: TagView)
    requires
        crdt::has_tag(s.filter(p), tag),
    ensures
        crdt::has_tag(s, tag),
{
    let t = s.filter(p);
    let j = choose|j: int| 0 <= j < t.len() && (#[trigger] t[j]).tag == tag;
    s.lemma_filter_contains_rev(p, t[j]);
    let a = choose|a: int| 0 <= a < s.len() && s[a] == t[j];
    assert(s[a].tag == tag);
}

/// Some of the entries of `all`, in their order.
spec fn picked(all: Seq<EntryView>, some: Seq<EntryView>) -> bool {
    exists|p: spec_fn(EntryView) -> bool| some == #[trigger] all.filter(p)
}

/// What `w` holds at each key is some of what `v` holds there.
proof fn lemma_fewer(name: Seq<char>, ticks: u64, v: Values, w: Values)
    requires
        tags_of_own(name, ticks, v),
        tags_stand_once(v),
        forall|t: Seq<char>, k: Seq<char>| picked(crdt::at(v, t, k), #[trigger] crdt::at(w, t, k)),
    ensures
        tags_of_own(name, ticks, w),
        tags_stand_once(w),
{
    assert forall|m: Mark| #[trigger] marks(w).contains(m) implies marks(v).contains(m) by {
        assert(picked(crdt::at(v, m.0, m.1), crdt::at(w, m.0, m.1)));
        let p = choose|p: spec_fn(EntryView) -> bool|
            crdt::at(w, m.0, m.1) == #[trigger] crdt::at(v, m.0, m.1).filter(p);
        lemma_has_tag_filter(crdt::at(v, m.0, m.1), p, m.2);
    }
    assert forall|t: Seq<char>, k: Seq<char>| distinct_tags(#[trigger] crdt::at(w, t, k)) by {
        let p = choose|p: spec_fn(EntryView) -> bool|
            crdt::at(w, t, k) == #[trigger] crdt::at(v, t, k).filter(p);
        lemma_distinct_filter(crdt::at(v, t, k), p);
    }
}

/// Tags never repeat: whatever changes a replica makes, each of its entries has a tag of its own,
/// with the replica's name and a clock that the replica has reached.
pub proof fn law_tags_never_repeat(name: Seq<char>, changes: Seq<Change>)
    requires
        changes.len() <= u64::MAX,
    ensures
        crdt::good(made(name, changes).0),
        made(name, changes).1 <= changes.len(),
        tags_of_own(name, made(name, changes).1, made(name, changes).0),
        tags_stand_once(made(name, changes).0),
    decreases changes.len(),
{
    if changes.len() > 0 {
        let (v, ticks) = made(name, changes.drop_last());
        law_tags_never_repeat(name, changes.drop_last());
        let (w, now) = made(name, changes);
        match changes.last() {
            Change::Track { topic, pid, key, meta } => {
                let tag = TagView { replica: name, clock: (ticks + 1) as u64 };
                let e = EntryView { topic, pid, key, meta, tag };
                lemma_marks_added(v, e);
                let here = crdt::at(v, topic, key);
                assert forall|t: Seq<char>, k: Seq<char>| distinct_tags(
                    #[trigger] crdt::at(w, t, k),
                ) by {
                    if (t, k) == (topic, key) {
                        assert forall|i: int| 0 <= i < here.len() implies (#[trigger] here[i]).tag
                            != tag by {
                            assert(marks(v).contains((topic, key, here[i].tag)));
                        }
                        assert(distinct_tags(here));
                    } else {
                        assert(crdt::at(w, t, k) == crdt::at(v, t, k));
                    }
                }
            },
            Change::Untrack { topic, key, pid } => {
                let stay = |e: EntryView| e.pid != pid;
                let all = |e: EntryView| true;
                let here = crdt::at(v, topic, key);
                assert forall|t: Seq<char>, k: Seq<char>| picked(
                    crdt::at(v, t, k),
                    #[trigger] crdt::at(w, t, k),
                ) by {
                    if (t, k) == (topic, key) {
                        assert(crdt::at(w, t, k) =~= here.filter(stay));
                    } else {
                        seqs::lemma_filter_all(crdt::at(v, t, k), all);
                        assert(crdt::at(w, t, k) == crdt::at(v, t, k).filter(all));
                    }
                }
                lemma_fewer(name, ticks, v, w);
                assert forall|k: (Seq<char>, Seq<char>)| #[trigger]
                    w.contains_key(k) implies w[k].len() > 0 && forall|j: int|
                    0 <= j < w[k].len() ==> (#[trigger] w[k][j]).topic == k.0 && w[k][j].key
                        == k.1 by {
                    if k == (topic, key) {
                        assert forall|j: int| 0 <= j < w[k].len() implies (#[trigger] w[k][j]).topic
                            == k.0 && w[k][j].key == k.1 by {
                            here.lemma_filter_contains_rev(stay, w[k][j]);
                        }
                    } else {
                        assert(v.contains_key(k) && w[k] == v[k]);
                    }
                }
            },
            Change::UntrackAll { pid } => {
                let gone = |e: EntryView| e.pid == pid;
                let stay = |e: EntryView| !gone(e);
                crdt::lemma_without_at(v, gone);
                assert forall|t: Seq<char>, k: Seq<char>| picked(
                    crdt::at(v, t, k),
                    #[trigger] crdt::at(w, t, k),
                ) by {
                    assert(crdt::at(w, t, k) == crdt::at(v, t, k).filter(stay));
                }
                lemma_fewer(name, ticks, v, w);
                assert forall|k: (Seq<char>, Seq<char>)| #[trigger]
                    w.contains_key(k) implies w[k].len() > 0 && forall|j: int|
                    0 <= j < w[k].len() ==> (#[trigger] w[k][j]).topic == k.0 && w[k][j].key
                        == k.1 by {
                    assert(v.contains_key(k) && w[k] == v[k].filter(stay));
                    assert forall|j: int| 0 <= j < w[k].len() implies (#[trigger] w[k][j]).topic
                        == k.0 && w[k][j].key == k.1 by {
                        v[k].lemma_filter_contains_rev(stay, w[k][j]);
                    }
                }
            },
        }
    } else {
        let w = made(name, changes).0;
        assert forall|t: Seq<char>, k: Seq<char>| distinct_tags(#[trigger] crdt::at(w, t, k)) by {}
    }
}

/// Entries with distinct tags that a context has not seen are all added, under their keys and in
/// order.
proof fn lemma_all_added(context: Map<Seq<char>, u64>, joins: Seq<EntryView>)
    requires
        forall|i: int|
            0 <= i < joins.len() ==> !crdt::dominated(context, (#[trigger] joins[i]).tag),
        forall|t: Seq<char>, k: Seq<char>| distinct_tags(#[trigger] crdt::under(joins, t, k)),
    ensures
        crdt::good(crdt::after_joins(context, Values::empty(), joins)),
        forall|t: Seq<char>, k: Seq<char>| #[trigger]
            crdt::at(crdt::after_joins(context, Values::empty(), joins), t, k) == crdt::under(
                joins,
                t,
                k,
            ),
    decreases joins.len(),
{
    reveal(Seq::filter);
    if joins.len() > 0 {
        let rest = joins.drop_last();
        let e = joins.last();
        assert(rest.push(e) =~= joins);
        assert forall|t: Seq<char>, k: Seq<char>| #[trigger] crdt::under(joins, t, k) == (if (t, k)
            == (e.topic, e.key) {
            crdt::under(rest, t, k).push(e)
        } else {
            crdt::under(rest, t, k)
        }) by {
            let p = |x: EntryView| x.topic == t && x.key == k;
            rest.lemma_filter_push(e, p);
        }
        assert forall|t: Seq<char>, k: Seq<char>| distinct_tags(
            #[trigger] crdt::under(rest, t, k),
        ) by {
            let less = crdt::under(rest, t, k);
            let more = crdt::under(joins, t, k);
            assert(distinct_tags(more));
            assert forall|i: int, j: int| 0 <= i < j < less.len() implies (#[trigger] less[i]).tag
                != (#[trigger] less[j]).tag by {
                assert(more[i].tag != more[j].tag);
            }
        }
        assert forall|i: int| 0 <= i < rest.len() implies !crdt::dominated(
            context,
            (#[trigger] rest[i]).tag,
        ) by {
            assert(rest[i] == joins[i]);
        }
        lemma_all_added(context, rest);
        let w = crdt::after_joins(context, Values::empty(), rest);
        let here = crdt::at(w, e.topic, e.key);
        assert(crdt::accepts(context, w, e)) by {
            assert(joins[joins.len() - 1] == e);
            let more = crdt::under(joins, e.topic, e.key);
            assert(distinct_tags(more));
            assert(more == here.push(e));
            if crdt::has_tag(here, e.tag) {
                let j = choose|j: int| 0 <= j < here.len() && (#[trigger] here[j]).tag == e.tag;
                assert(more[j].tag != more[here.len() as int].tag);
            }
        }
        let x = crdt::added(w, e);
        assert forall|t: Seq<char>, k: Seq<char>| #[trigger] crdt::at(x, t, k) == crdt::under(
            joins,
            t,
            k,
        ) by {
            assert(crdt::at(w, t, k) == crdt::under(rest, t, k));
        }
        assert(crdt::good(x));
    } else {
        assert forall|t: Seq<char>, k: Seq<char>| #[trigger]
            crdt::at(crdt::after_joins(context, Values::empty(), joins), t, k) == crdt::under(
                joins,
                t,
                k,
            ) by {
            assert(crdt::under(joins, t, k) =~= Seq::<EntryView>::empty());
        }
    }
}

/// How often an entry comes up among all is how often it comes up under its key.
proof fn lemma_count_under(s: Seq<EntryView>, e: EntryView)
    ensures
        s.to_multiset().count(e) == crdt::under(s, e.topic, e.key).to_multiset().count(e),
    decreases s.len(),
{
    broadcast use vstd::seq_lib::group_to_multiset_ensures;

    reveal(Seq::filter);
    let p = |x: EntryView| x.topic == e.topic && x.key == e.key;
    if s.len() > 0 {
        let rest = s.drop_last();
        let l = s.last();
        assert(rest.push(l) =~= s);
        lemma_count_under(rest, e);
        rest.lemma_filter_push(l, p);
        assert(s.to_multiset() == rest.to_multiset().insert(l));
        if p(l) {
            assert(crdt::under(s, e.topic, e.key) == crdt::under(rest, e.topic, e.key).push(l));
        }
    } else {
        assert(crdt::under(s, e.topic, e.key) =~= s);
    }
}

/// A full extract replicates the whole state: once a new replica has merged everything that the
/// replica `name` holds after any changes of its own, it holds the same entries under each key,
/// and the same entries in all.
pub proof fn law_full_extract_replicates(
    name: Seq<char>,
    changes: Seq<Change>,
    from: Held,
    other: Seq<char>,
    to: Held,
)
    requires
        changes.len() <= u64::MAX,
        from.values == made(name, changes).0,
        listed(from),
        other != name,
        to.values == crdt::merged_values(
            Values::empty(),
            Map::<Seq<char>, u64>::empty().insert(other, 0),
            all_of(from),
        ),
        listed(to),
    ensures
        to.values == from.values,
        to.entries.to_multiset() == from.entries.to_multiset(),
        to.entries.len() == from.entries.len(),
        all_of(to).leave_tags.len() == 0,
{
    broadcast use vstd::seq_lib::group_to_multiset_ensures;

    let context = Map::<Seq<char>, u64>::empty().insert(other, 0);
    let v = from.values;
    let joins = from.entries;
    law_tags_never_repeat(name, changes);
    lemma_listed_marks(from);
    seqs::lemma_filter_all(joins, crdt::untagged(Seq::empty()));
    assert(crdt::arriving(all_of(from)) == joins);
    assert(crdt::after_leaves(Values::empty(), Seq::empty()) =~= Values::empty());
    assert forall|i: int| 0 <= i < joins.len() implies !crdt::dominated(
        context,
        (#[trigger] joins[i]).tag,
    ) by {
        assert(marks_of(joins).contains(mark(joins[i])));
    }
    assert forall|t: Seq<char>, k: Seq<char>| distinct_tags(
        #[trigger] crdt::under(joins, t, k),
    ) by {
        assert(crdt::under(joins, t, k) == crdt::at(v, t, k));
    }
    lemma_all_added(context, joins);
    assert forall|k: (Seq<char>, Seq<char>)| #[trigger] to.values.contains_key(k)
        == v.contains_key(k) && (v.contains_key(k) ==> to.values[k] == v[k]) by {
        assert(crdt::at(to.values, k.0, k.1) == crdt::under(joins, k.0, k.1));
        assert(crdt::under(joins, k.0, k.1) == crdt::at(v, k.0, k.1));
    }
    assert(to.values =~= v);
    assert forall|e: EntryView| #[trigger] to.entries.to_multiset().count(e)
        == joins.to_multiset().count(e) by {
        lemma_count_under(to.entries, e);
        lemma_count_under(joins, e);
        assert(crdt::under(to.entries, e.topic, e.key) == crdt::at(v, e.topic, e.key));
        assert(crdt::under(joins, e.topic, e.key) == crdt::at(v, e.topic, e.key));
    }
    assert(to.entries.to_multiset() =~= joins.to_multiset());
    assert(to.entries.len() == to.entries.to_multiset().len());
    assert(joins.len() == joins.to_multiset().len());
}

/// Which of some arriving entries are accepted, and that they end up under their keys.
proof fn lemma_accepted(
    context: Map<Seq<char>, u64>,
    v: Values,
    joins: Seq<EntryView>,
    topic: Seq<char>,
    key: Seq<char>,
    x: EntryView,
)
    ensures
        ({
            let here = crdt::at(v, topic, key);
            let after = crdt::at(crdt::after_joins(context, v, joins), topic, key);
            let taken = crdt::accepted(context, v, joins);
            let placed = x.topic == topic && x.key == key;
            &&& taken.contains(x) ==> joins.contains(x) && !crdt::dominated(context, x.tag)
            &&& taken.contains(x) && placed ==> !crdt::has_tag(here, x.tag)
            &&& after.contains(x) <==> here.contains(x) || (taken.contains(x) && placed)
        }),
    decreases joins.len(),
{
    if joins.len() > 0 {
        let rest = joins.drop_last();
        let l = joins.last();
        let w = crdt::after_joins(context, v, rest);
        let sofar = crdt::accepted(context, v, rest);
        let before = crdt::at(w, topic, key);
        lemma_accepted(context, v, rest, topic, key, x);
        assert(joins == rest.push(l));
        if rest.contains(x) {
            let i = choose|i: int| 0 <= i < rest.len() && rest[i] == x;
            assert(joins[i] == x);
        }
        if crdt::accepts(context, w, l) {
            assert(joins[joins.len() - 1] == l);
            assert(sofar.push(l).contains(x) <==> sofar.contains(x) || x == l) by {
                if sofar.contains(x) {
                    let i = choose|i: int| 0 <= i < sofar.len() && sofar[i] == x;
                    assert(sofar.push(l)[i] == x);
                }
                assert(sofar.push(l)[sofar.len() as int] == l);
            }
            if l.topic == topic && l.key == key {
                assert(before.push(l).contains(x) <==> before.contains(x) || x == l) by {
                    if before.contains(x) {
                        let i = choose|i: int| 0 <= i < before.len() && before[i] == x;
                        assert(before.push(l)[i] == x);
                    }
                    assert(before.push(l)[before.len() as int] == l);
                }
                let here = crdt::at(v, topic, key);
                if crdt::has_tag(here, l.tag) {
                    let j = choose|j: int| 0 <= j < here.len() && (#[trigger] here[j]).tag == l.tag;
                    lemma_accepted(context, v, rest, topic, key, here[j]);
                    assert(before.contains(here[j]));
                }
            }
        }
    }
}

/// An entry that is new is accepted, if no other arrives with its tag.
proof fn lemma_new_is_accepted(
    context: Map<Seq<char>, u64>,
    v: Values,
    joins: Seq<EntryView>,
    e: EntryView,
)
    requires
        joins.contains(e),
        !crdt::dominated(context, e.tag),
        !crdt::has_tag(crdt::at(v, e.topic, e.key), e.tag),
        forall|i: int| 0 <= i < joins.len() && (#[trigger] joins[i]).tag == e.tag ==> joins[i] == e,
    ensures
        crdt::accepted(context, v, joins).contains(e),
    decreases joins.len(),
{
    let rest = joins.drop_last();
    let l = joins.last();
    let w = crdt::after_joins(context, v, rest);
    let sofar = crdt::accepted(context, v, rest);
    assert(joins == rest.push(l));
    assert forall|i: int| 0 <= i < rest.len() && (#[trigger] rest[i]).tag == e.tag implies rest[i]
        == e by {
        assert(joins[i] == rest[i]);
    }
    if rest.contains(e) {
        lemma_new_is_accepted(context, v, rest, e);
        let i = choose|i: int| 0 <= i < sofar.len() && sofar[i] == e;
        assert(sofar.push(l)[i] == e);
    } else {
        assert(l == e);
        let after = crdt::at(w, e.topic, e.key);
        if crdt::has_tag(after, e.tag) {
            let j = choose|j: int| 0 <= j < after.len() && (#[trigger] after[j]).tag == e.tag;
            let x = after[j];
            lemma_accepted(context, v, rest, e.topic, e.key, x);
            assert(after.contains(x));
            if crdt::at(v, e.topic, e.key).contains(x) {
                assert(false);
            } else {
                let i = choose|i: int| 0 <= i < rest.len() && rest[i] == x;
                assert(rest[i].tag == e.tag);
            }
        }
        assert(sofar.push(l)[sofar.len() as int] == e);
    }
}

/// What is removed for some tags are the entries that have one of them.
proof fn lemma_left_by(entries: Seq<EntryView>, tags: Seq<TagView>, e: EntryView)
    ensures
        crdt::left_by(entries, tags).contains(e) <==> entries.contains(e) && tags.contains(e.tag),
    decreases tags.len(),
{
    if tags.len() > 0 {
        let rest = tags.drop_last();
        let before = crdt::left_by(entries, rest);
        let free = entries.filter(crdt::untagged(rest));
        let now = free.filter(crdt::with_tag(tags.last()));
        lemma_left_by(entries, rest, e);
        assert(tags == rest.push(tags.last()));
        lemma_filter_has(entries, crdt::untagged(rest), e);
        lemma_filter_has(free, crdt::with_tag(tags.last()), e);
        assert((before + now).contains(e) <==> before.contains(e) || now.contains(e)) by {
            if before.contains(e) {
                let i = choose|i: int| 0 <= i < before.len() && before[i] == e;
                assert((before + now)[i] == e);
            }
            if now.contains(e) {
                let i = choose|i: int| 0 <= i < now.len() && now[i] == e;
                assert((before + now)[before.len() + i] == e);
            }
        }
        assert(tags.contains(e.tag) <==> rest.contains(e.tag) || e.tag == tags.last()) by {
            if rest.contains(e.tag) {
                let i = choose|i: int| 0 <= i < rest.len() && rest[i] == e.tag;
                assert(tags[i] == e.tag);
            }
            assert(tags[tags.len() - 1] == tags.last());
        }
    }
}

/// A filter keeps what it is to keep, and nothing else.
proof fn lemma_filter_has(s: Seq<EntryView>, p: spec_fn(EntryView) -> bool, e: EntryView)
    ensures
        s.filter(p).contains(e) <==> s.contains(e) && p(e),
{
    if s.contains(e) && p(e) {
        let i = choose|i: int| 0 <= i < s.len() && s[i] == e;
        s.lemma_filter_contains(p, i);
    }
    if s.filter(p).contains(e) {
        let i = choose|i: int| 0 <= i < s.filter(p).len() && s.filter(p)[i] == e;
        s.lemma_filter_pred(p, i);
        s.lemma_filter_contains_rev(p, e);
    }
}

/// After a merge a replica holds an entry, whole and under its key, exactly if it held it and its
/// tag did not leave, or it is among those that the merge reports to have joined. Those were sent,
/// are new, and did not leave; each that was sent, is new and did not leave is among them, unless
/// two were sent with one tag. Those that the merge reports to have left are exactly those that
/// were held and whose tag was to leave.
pub proof fn law_merge_does_what_it_reports(
    s: &mut PresenceCrdt,
    remote: &PresenceDelta,
    r: MergeResult,
    e: EntryView,
)
    requires
        old(s).wf(),
        remote.wf(),
        call_ensures(PresenceCrdt::merge, (s, remote), r),
    ensures
        ({
            let before = crdt::at(old(s).values(), e.topic, e.key);
            let after = crdt::at(final(s).values(), e.topic, e.key);
            let joined = table::views(r.joins@).contains(e);
            let leaves = remote@.leave_tags.contains(e.tag);
            let seen = old(s).seen().contains_key(e.tag.replica) && e.tag.clock
                <= old(s).seen()[e.tag.replica];
            &&& after.contains(e) <==> (before.contains(e) && !leaves) || joined
            &&& joined ==> remote@.joins.contains(e) && !leaves && !seen && !before.contains(e)
            &&& remote@.joins.contains(e) && !leaves && !seen && (forall|j: int|
                0 <= j < before.len() ==> (#[trigger] before[j]).tag != e.tag) && (forall|i: int|
                0 <= i < remote@.joins.len() && (#[trigger] remote@.joins[i]).tag == e.tag
                    ==> remote@.joins[i] == e) ==> joined
            &&& table::views(r.leaves@).contains(e) <==> old(s).entries().contains(e) && leaves
        }),
        final(s).pending() == old(s).pending(),
        final(s).status() == old(s).status(),
        final(s).name() == old(s).name(),
{
    let tags = remote@.leave_tags;
    let context = old(s).seen();
    let v = old(s).values();
    let w = crdt::after_leaves(v, tags);
    let joins = crdt::arriving(remote@);
    let before = crdt::at(v, e.topic, e.key);
    let stay = |x: EntryView| !crdt::tagged(tags)(x);
    let here = crdt::at(w, e.topic, e.key);
    crdt::lemma_without_at(v, crdt::tagged(tags));
    assert(here == before.filter(stay));
    lemma_filter_has(before, stay, e);
    lemma_filter_has(remote@.joins, crdt::untagged(tags), e);
    lemma_accepted(context, w, joins, e.topic, e.key, e);
    lemma_left_by(old(s).entries(), tags, e);
    if before.contains(e) && !tags.contains(e.tag) {
        let j = choose|j: int| 0 <= j < here.len() && here[j] == e;
        assert(here[j].tag == e.tag);
        assert(crdt::has_tag(here, e.tag));
    }
    if joins.contains(e) && !crdt::dominated(context, e.tag) && (forall|j: int|
        0 <= j < before.len() ==> (#[trigger] before[j]).tag != e.tag) && (forall|i: int|
        0 <= i < remote@.joins.len() && (#[trigger] remote@.joins[i]).tag == e.tag
            ==> remote@.joins[i] == e) {
        if crdt::has_tag(here, e.tag) {
            let j = choose|j: int| 0 <= j < here.len() && (#[trigger] here[j]).tag == e.tag;
            lemma_filter_has(before, stay, here[j]);
            assert(here.contains(here[j]));
            let a = choose|a: int| 0 <= a < before.len() && before[a] == here[j];
            assert(before[a].tag == e.tag);
        }
        assert forall|i: int| 0 <= i < joins.len() && (#[trigger] joins[i]).tag == e.tag implies
            joins[i] == e by {
            lemma_filter_has(remote@.joins, crdt::untagged(tags), joins[i]);
            assert(joins.contains(joins[i]));
            let a = choose|a: int| 0 <= a < remote@.joins.len() && remote@.joins[a] == joins[i];
            assert(remote@.joins[a].tag == e.tag);
        }
        lemma_new_is_accepted(context, w, joins, e);
    }
}

/// What a replica holds of another is shown until the other goes down, is hidden meanwhile, and
/// is shown again once it is up. Both times exactly the entries of that replica are reported.
pub proof fn law_entries_are_hidden_while_their_replica_is_down(
    s: &mut PresenceCrdt,
    replica: &str,
    temporary: bool,
    since: u64,
    hidden: Vec<TrackedEntry>,
    mid: &PresenceCrdt,
    topic: &str,
    key: &str,
    shown: Option<Vec<TrackedEntry>>,
    t: &mut PresenceCrdt,
    back: Vec<TrackedEntry>,
    later: &PresenceCrdt,
    again: Option<Vec<TrackedEntry>>,
    e: EntryView,
)
    requires
        old(s).wf(),
        crdt::at(old(s).values(), topic@, key@).contains(e),
        forall|n: Seq<char>| #[trigger]
            old(s).status().contains_key(n) ==> old(s).status()[n] is Up,
        call_ensures(
            PresenceCrdt::replica_down,
            (s, replica, temporary, since),
            hidden,
        ),
        *mid == *final(s),
        call_ensures(PresenceCrdt::get, (mid, topic, key), shown),
        *old(t) == *final(s),
        call_ensures(PresenceCrdt::replica_up, (t, replica), back),
        *later == *final(t),
        call_ensures(PresenceCrdt::get, (later, topic, key), again),
    ensures
        table::views(hidden@) == old(s).entries().filter(
            |x: EntryView| x.tag.replica == replica@,
        ),
        table::views(back@) == table::views(hidden@),
        shown matches Some(list) && table::views(list@).contains(e) <==> e.tag.replica != replica@,
        again matches Some(list) && table::views(list@).contains(e),
{
    let here = crdt::at(old(s).values(), topic@, key@);
    lemma_filter_has(
        here,
        |x: EntryView| crdt::is_up(final(s).status(), x.tag.replica),
        e,
    );
    lemma_filter_has(
        here,
        |x: EntryView| crdt::is_up(final(t).status(), x.tag.replica),
        e,
    );
    assert(crdt::visible(here, final(s).status()) == here.filter(
        |x: EntryView| crdt::is_up(final(s).status(), x.tag.replica),
    ));
    assert(crdt::visible(here, final(t).status()) == here.filter(
        |x: EntryView| crdt::is_up(final(t).status(), x.tag.replica),
    ));
}

} // verus!
