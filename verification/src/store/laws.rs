//! What stores promise as a whole: who may use them, who gets them, and what is found in them.

use vstd::prelude::*;

use crate::process;
use crate::process::{Pid, PidView};
use crate::store::access::{Access, Head, StoreError, StoreId, StoreOptions};
use crate::store::ordered;
use crate::store::ordered::{Bound, OrderedKey, OrderedStore};
use crate::store::registry;
use crate::store::registry::StoreRegistry;
use crate::store::unordered::Store;

verus! {

/// Whether a caller is a process.
pub open spec fn is_caller(caller: Option<&Pid>, pid: PidView) -> bool {
    match caller {
        Some(c) => c@ == pid,
        None => false,
    }
}

/// A store admits a caller exactly where it is not deleted, and is public or the caller's own; what
/// refuses a caller is said in this order: it is deleted, there is no caller, it is another's.
pub proof fn law_who_is_admitted(h: &Head, caller: Option<&Pid>, r: Result<(), StoreError>)
    requires
        call_ensures(Head::check_access, (h, caller), r),
    ensures
        r is Ok <==> !h@.deleted && (h@.access == Access::Public || is_caller(caller, h@.owner)),
        r == Err::<(), StoreError>(StoreError::StoreDeleted) <==> h@.deleted,
        r == Err::<(), StoreError>(StoreError::NoProcessContext) <==> !h@.deleted && h@.access
            == Access::Private && caller is None,
        r == Err::<(), StoreError>(StoreError::AccessDenied) <==> !h@.deleted && h@.access
            == Access::Private && caller is Some && !is_caller(caller, h@.owner),
{
}

/// A store that is given away by its owner is the receiver's, and nothing else of it changes; no
/// one else can give it away.
pub proof fn law_giving_moves_the_store(
    h: &mut Head,
    caller: Option<&Pid>,
    to: Pid,
    r: Result<(), StoreError>,
)
    requires
        call_ensures(Head::give_away, (h, caller, to), r),
    ensures
        r is Ok <==> is_caller(caller, old(h)@.owner),
        r is Ok ==> final(h)@.owner == to@,
        r is Err ==> final(h)@.owner == old(h)@.owner,
        r == Err::<(), StoreError>(StoreError::NoProcessContext) <==> caller is None,
        r == Err::<(), StoreError>(StoreError::AccessDenied) <==> caller is Some && !is_caller(
            caller,
            old(h)@.owner,
        ),
        final(h)@.id == old(h)@.id,
        final(h)@.access == old(h)@.access,
        final(h)@.heir == old(h)@.heir,
        final(h)@.deleted == old(h)@.deleted,
{
}

/// When a process ends, a store of another is as it was. Its own goes to the heir, if that is
/// another process, and is deleted if there is none.
pub proof fn law_heir_gets_the_store(h: &mut Head, pid: &Pid)
    requires
        call_ensures(Head::process_ended, (h, pid), ()),
    ensures
        old(h)@.owner != pid@ ==> final(h)@ == old(h)@,
        old(h)@.owner == pid@ ==> match old(h)@.heir {
            Some(heir) => if heir == pid@ {
                final(h)@.deleted
            } else {
                final(h)@.owner == heir && final(h)@.heir is None && final(h)@.deleted == old(h)@.deleted
            },
            None => final(h)@.deleted,
        },
        final(h)@.id == old(h)@.id,
        final(h)@.access == old(h)@.access,
{
}

/// A store that is marked as deleted refuses everyone.
pub proof fn law_deleted_refuses_everyone(
    h: &mut Head,
    after: &Head,
    caller: Option<&Pid>,
    r: Result<(), StoreError>,
)
    requires
        call_ensures(Head::mark_deleted, (h,), ()),
        *after == *final(h),
        call_ensures(Head::check_access, (after, caller), r),
    ensures
        r == Err::<(), StoreError>(StoreError::StoreDeleted),
        after@.owner == old(h)@.owner,
{
}

/// A new store has the number that it is given, is its maker's, and has the access and the heir that
/// the options say.
pub proof fn law_new_store_is_as_asked(id: StoreId, owner: Pid, opts: &StoreOptions, h: Head)
    requires
        call_ensures(Head::new, (id, owner, opts), h),
    ensures
        h@.id == id.raw(),
        h@.owner == owner@,
        h@.access == opts.access,
        h@.heir == process::pid_option(opts.heir),
        !h@.deleted,
{
}

/// A store that is entered in the registry is found under its name, and is there its owner's; it is
/// new and empty.
pub proof fn law_new_store_is_found<V>(
    counter: &mut u64,
    registry: &mut StoreRegistry,
    owner: Pid,
    opts: StoreOptions,
    s: Store<V>,
    after: &StoreRegistry,
    name: &str,
    named: Option<u64>,
)
    requires
        old(registry).wf(),
        call_ensures(Store::<V>::with_options, (counter, registry, owner, opts), s),
        *after == *final(registry),
        call_ensures(StoreRegistry::whereis, (after, name), named),
    ensures
        opts.name matches Some(n) && n@ == name@ ==> named == Some(s.head().id),
        after.owned().contains_key(s.head().id) && after.owned()[s.head().id] == owner@,
        s.head().owner == owner@,
        s.head().access == opts.access,
        s.head().heir == process::pid_option(opts.heir),
        !s.head().deleted,
        s.head().id == *old(counter),
        *final(counter) != *old(counter),
        forall|k: Seq<char>| !(#[trigger] s@.contains_key(k)),
{
}

/// The same for a store with ordered keys.
pub proof fn law_new_ordered_store_is_found<K: OrderedKey, V>(
    counter: &mut u64,
    registry: &mut StoreRegistry,
    owner: Pid,
    opts: StoreOptions,
    s: OrderedStore<K, V>,
    after: &StoreRegistry,
    name: &str,
    named: Option<u64>,
)
    requires
        old(registry).wf(),
        call_ensures(OrderedStore::<K, V>::with_options, (counter, registry, owner, opts), s),
        *after == *final(registry),
        call_ensures(StoreRegistry::whereis, (after, name), named),
    ensures
        opts.name matches Some(n) && n@ == name@ ==> named == Some(s.head().id),
        after.owned().contains_key(s.head().id) && after.owned()[s.head().id] == owner@,
        s.head().owner == owner@,
        s.head().access == opts.access,
        s.head().heir == process::pid_option(opts.heir),
        !s.head().deleted,
        s.head().id == *old(counter),
        *final(counter) != *old(counter),
        forall|k: K::V| !(#[trigger] s@.contains_key(k)),
{
}

/// When a process ends, the stores of the others stay theirs. Each of its own goes to its heir, if
/// that is another process; the rest are taken out, and with them their names, and no others.
pub proof fn law_registry_follows_the_end(
    g: &mut StoreRegistry,
    pid: &Pid,
    gone: Vec<u64>,
    id: u64,
    name: Seq<char>,
)
    requires
        old(g).wf(),
        call_ensures(StoreRegistry::cleanup_owned_stores, (g, pid), gone),
    ensures
        !old(g).owned().contains_key(id) ==> !final(g).owned().contains_key(id) && !gone@.contains(
            id,
        ),
        old(g).owned().contains_key(id) && old(g).owned()[id] != pid@ ==> {
            &&& final(g).owned().contains_key(id)
            &&& final(g).owned()[id] == old(g).owned()[id]
            &&& !gone@.contains(id)
            &&& final(g).heirs().contains_key(id) == old(g).heirs().contains_key(id)
        },
        old(g).owned().contains_key(id) && old(g).owned()[id] == pid@ ==> {
            &&& !final(g).heirs().contains_key(id)
            &&& if old(g).heirs().contains_key(id) && old(g).heirs()[id] != pid@ {
                &&& final(g).owned().contains_key(id)
                &&& final(g).owned()[id] == old(g).heirs()[id]
                &&& !gone@.contains(id)
            } else {
                &&& !final(g).owned().contains_key(id)
                &&& gone@.contains(id)
            }
        },
        final(g).named().contains_key(name) <==> old(g).named().contains_key(name)
            && !gone@.contains(old(g).named()[name]),
        final(g).named().contains_key(name) ==> final(g).named()[name] == old(g).named()[name],
{
    let m = old(g).named();
    let drop = m.dom().filter(
        |n: Seq<char>| registry::ends_with(old(g).owned(), old(g).heirs(), pid@, m[n]),
    );
    assert(gone@.contains(id) <==> registry::ends_with(
        old(g).owned(),
        old(g).heirs(),
        pid@,
        id,
    ));
    if m.contains_key(name) {
        assert(gone@.contains(m[name]) <==> registry::ends_with(
            old(g).owned(),
            old(g).heirs(),
            pid@,
            m[name],
        ));
    }
}

/// What an admitted caller puts under a key is what the key has from then on, until it is taken
/// out; both hand back what the key had, and no other key is touched. A caller that is refused
/// changes nothing.
pub proof fn law_put_and_taken_out<V>(
    s: &mut Store<V>,
    caller: Option<&Pid>,
    key: String,
    value: V,
    put: Result<Option<V>, StoreError>,
    mid: &Store<V>,
    name: &str,
    got: Result<Option<&V>, StoreError>,
    t: &mut Store<V>,
    took: Result<Option<V>, StoreError>,
    other: Seq<char>,
)
    requires
        old(s).wf(),
        name@ == key@,
        other != key@,
        call_ensures(Store::<V>::insert, (s, caller, key, value), put),
        *mid == *final(s),
        call_ensures(Store::<V>::get, (mid, caller, name), got),
        *old(t) == *mid,
        call_ensures(Store::<V>::remove, (t, caller, name), took),
    ensures
        ({
            let h = old(s).head();
            let admitted = !h.deleted && (h.access == Access::Public || is_caller(
                caller,
                h.owner,
            ));
            &&& admitted ==> {
                &&& put matches Ok(had) && (had is Some <==> old(s)@.contains_key(key@)) && (
                had is Some ==> had == Some(old(s)@[key@]))
                &&& got matches Ok(Some(v)) && *v == value
                &&& took == Ok::<Option<V>, StoreError>(Some(value))
                &&& !final(t)@.contains_key(key@)
                &&& final(t)@.contains_key(other) == old(s)@.contains_key(other)
                &&& old(s)@.contains_key(other) ==> final(t)@[other] == old(s)@[other]
            }
            &&& !admitted ==> put is Err && got is Err && took is Err && final(t)@ == old(s)@
        }),
{
}

/// The same for a store with ordered keys.
pub proof fn law_ordered_put_and_taken_out<K: OrderedKey, V>(
    s: &mut OrderedStore<K, V>,
    caller: Option<&Pid>,
    key: K,
    value: V,
    put: Result<Option<V>, StoreError>,
    mid: &OrderedStore<K, V>,
    same: &K,
    got: Result<Option<&V>, StoreError>,
    t: &mut OrderedStore<K, V>,
    took: Result<Option<V>, StoreError>,
    other: K::V,
)
    requires
        old(s).wf(),
        same@ == key@,
        other != key@,
        call_ensures(OrderedStore::<K, V>::insert, (s, caller, key, value), put),
        *mid == *final(s),
        call_ensures(OrderedStore::<K, V>::get, (mid, caller, same), got),
        *old(t) == *mid,
        call_ensures(OrderedStore::<K, V>::remove, (t, caller, same), took),
    ensures
        ({
            let h = old(s).head();
            let admitted = !h.deleted && (h.access == Access::Public || is_caller(
                caller,
                h.owner,
            ));
            &&& admitted ==> {
                &&& put matches Ok(had) && (had is Some <==> old(s)@.contains_key(key@)) && (
                had is Some ==> had == Some(old(s)@[key@]))
                &&& got matches Ok(Some(v)) && *v == value
                &&& took == Ok::<Option<V>, StoreError>(Some(value))
                &&& !final(t)@.contains_key(key@)
                &&& final(t)@.contains_key(other) == old(s)@.contains_key(other)
                &&& old(s)@.contains_key(other) ==> final(t)@[other] == old(s)@[other]
            }
            &&& !admitted ==> put is Err && got is Err && took is Err && final(t)@ == old(s)@
        }),
{
}

/// What several values put one after the other come to under one key.
proof fn lemma_with_all<V>(m: Map<Seq<char>, V>, items: Seq<(String, V)>, k: Seq<char>, i: int)
    requires
        -1 <= i < items.len(),
        i >= 0 ==> items[i].0@ == k,
        forall|j: int| i < j < items.len() ==> (#[trigger] items[j]).0@ != k,
    ensures
        ({
            let w = Store::<V>::with_all(m, items);
            if i >= 0 {
                w.contains_key(k) && w[k] == items[i].1
            } else {
                w.contains_key(k) == m.contains_key(k) && (m.contains_key(k) ==> w[k] == m[k])
            }
        }),
    decreases items.len(),
{
    if items.len() > 0 && i < items.len() - 1 {
        let rest = items.drop_last();
        assert forall|j: int| i < j < rest.len() implies (#[trigger] rest[j]).0@ != k by {
            assert(items[j].0@ != k);
        }
        assert(items[items.len() - 1].0@ != k);
        lemma_with_all(m, rest, k, i);
    }
}

/// Of several values that are put under keys at once, the last one for a key is what the key has;
/// a key that none is put under has what it had.
pub proof fn law_last_of_many_counts<V>(
    s: &mut Store<V>,
    caller: Option<&Pid>,
    items: Vec<(String, V)>,
    r: Result<(), StoreError>,
    k: Seq<char>,
    i: int,
)
    requires
        old(s).wf(),
        call_ensures(Store::<V>::insert_many, (s, caller, items), r),
        r is Ok,
        -1 <= i < items@.len(),
        i >= 0 ==> items@[i].0@ == k,
        forall|j: int| i < j < items@.len() ==> (#[trigger] items@[j]).0@ != k,
    ensures
        i >= 0 ==> final(s)@.contains_key(k) && final(s)@[k] == items@[i].1,
        i < 0 ==> final(s)@.contains_key(k) == old(s)@.contains_key(k) && (old(s)@.contains_key(k)
            ==> final(s)@[k] == old(s)@[k]),
{
    lemma_with_all(old(s)@, items@, k, i);
}

proof fn lemma_ordered_with_all<K: OrderedKey, V>(
    m: Map<K::V, V>,
    items: Seq<(K, V)>,
    k: K::V,
    i: int,
)
    requires
        -1 <= i < items.len(),
        i >= 0 ==> items[i].0@ == k,
        forall|j: int| i < j < items.len() ==> (#[trigger] items[j]).0@ != k,
    ensures
        ({
            let w = OrderedStore::<K, V>::with_all(m, items);
            if i >= 0 {
                w.contains_key(k) && w[k] == items[i].1
            } else {
                w.contains_key(k) == m.contains_key(k) && (m.contains_key(k) ==> w[k] == m[k])
            }
        }),
    decreases items.len(),
{
    if items.len() > 0 && i < items.len() - 1 {
        let rest = items.drop_last();
        assert forall|j: int| i < j < rest.len() implies (#[trigger] rest[j]).0@ != k by {
            assert(items[j].0@ != k);
        }
        assert(items[items.len() - 1].0@ != k);
        lemma_ordered_with_all(m, rest, k, i);
    }
}

/// The same for a store with ordered keys.
pub proof fn law_ordered_last_of_many_counts<K: OrderedKey, V>(
    s: &mut OrderedStore<K, V>,
    caller: Option<&Pid>,
    items: Vec<(K, V)>,
    r: Result<(), StoreError>,
    k: K::V,
    i: int,
)
    requires
        old(s).wf(),
        call_ensures(OrderedStore::<K, V>::insert_many, (s, caller, items), r),
        r is Ok,
        -1 <= i < items@.len(),
        i >= 0 ==> items@[i].0@ == k,
        forall|j: int| i < j < items@.len() ==> (#[trigger] items@[j]).0@ != k,
    ensures
        i >= 0 ==> final(s)@.contains_key(k) && final(s)@[k] == items@[i].1,
        i < 0 ==> final(s)@.contains_key(k) == old(s)@.contains_key(k) && (old(s)@.contains_key(k)
            ==> final(s)@[k] == old(s)@[k]),
{
    lemma_ordered_with_all(old(s)@, items@, k, i);
}

/// Whether a key stands between the ends of a range.
pub open spec fn is_between<K: OrderedKey>(lo: Bound<K>, hi: Bound<K>, k: K::V) -> bool {
    &&& match lo {
        Bound::Included(a) => k == a@ || K::less(a@, k),
        Bound::Excluded(a) => K::less(a@, k),
        Bound::Unbounded => true,
    }
    &&& match hi {
        Bound::Included(b) => k == b@ || K::less(k, b@),
        Bound::Excluded(b) => K::less(k, b@),
        Bound::Unbounded => true,
    }
}

proof fn lemma_between<K: OrderedKey, V>(lo: Bound<K>, hi: Bound<K>, k: K::V, v: V)
    ensures
        ordered::in_range::<K, V>(lo, hi)((k, v)) == is_between(lo, hi, k),
{
    match lo {
        Bound::Included(a) => {
            K::total(a@, k);
            K::irreflexive(k);
            if K::less(a@, k) && K::less(k, a@) {
                K::transitive(a@, k, a@);
                K::irreflexive(a@);
            }
        },
        _ => {},
    }
    match hi {
        Bound::Included(b) => {
            K::total(b@, k);
            K::irreflexive(k);
            if K::less(b@, k) && K::less(k, b@) {
                K::transitive(b@, k, b@);
                K::irreflexive(b@);
            }
        },
        _ => {},
    }
}

/// Whether the keys of entries ascend.
pub open spec fn ascends<K: OrderedKey, V>(s: Seq<(K::V, V)>) -> bool {
    forall|i: int, j: int|
        0 <= i < j < s.len() ==> K::less((#[trigger] s[i]).0, (#[trigger] s[j]).0)
}

/// What is left of ascending entries ascends.
proof fn lemma_filter_ascends<K: OrderedKey, V>(
    s: Seq<(K::V, V)>,
    p: spec_fn((K::V, V)) -> bool,
)
    requires
        ascends::<K, V>(s),
    ensures
        ascends::<K, V>(s.filter(p)),
        forall|i: int|
            0 <= i < s.filter(p).len() ==> s.contains(#[trigger] s.filter(p)[i]) && p(
                s.filter(p)[i],
            ),
    decreases s.len(),
{
    reveal(Seq::filter);
    let f = s.filter(p);
    assert forall|i: int| 0 <= i < f.len() implies s.contains(#[trigger] f[i]) && p(f[i]) by {
        s.lemma_filter_pred(p, i);
        s.lemma_filter_contains_rev(p, f[i]);
    }
    if s.len() > 0 {
        let rest = s.drop_last();
        let e = s.last();
        assert(ascends::<K, V>(rest)) by {
            assert forall|i: int, j: int| 0 <= i < j < rest.len() implies K::less(
                (#[trigger] rest[i]).0,
                (#[trigger] rest[j]).0,
            ) by {
                assert(K::less(s[i].0, s[j].0));
            }
        }
        lemma_filter_ascends::<K, V>(rest, p);
        let g = rest.filter(p);
        assert(s =~= rest.push(e));
        rest.lemma_filter_push(e, p);
        assert forall|i: int, j: int| 0 <= i < j < f.len() implies K::less(
            (#[trigger] f[i]).0,
            (#[trigger] f[j]).0,
        ) by {
            if j < g.len() {
                assert(K::less(g[i].0, g[j].0));
            } else {
                assert(rest.contains(g[i]));
                let a = choose|a: int| 0 <= a < rest.len() && rest[a] == g[i];
                assert(s[a] == g[i]);
                assert(K::less(s[a].0, s[s.len() - 1].0));
            }
        }
    }
}

/// A range hands out, in ascending order, entries of the store between its ends, and no more than
/// asked for; a key between the ends that it leaves out is larger than all that it hands out, and
/// is left out only where as many are handed out as asked for.
pub proof fn law_range_hands_out_what_lies_between<K: OrderedKey, V>(
    s: &OrderedStore<K, V>,
    caller: Option<&Pid>,
    lo: &Bound<K>,
    hi: &Bound<K>,
    limit: usize,
    found: Vec<(K, &V)>,
    k: K::V,
)
    requires
        s.wf(),
        s.allows(caller) is Ok,
        call_ensures(
            OrderedStore::<K, V>::range,
            (s, caller, lo, hi, limit),
            Ok::<Vec<(K, &V)>, StoreError>(found),
        ),
    ensures
        found@.len() <= limit,
        forall|i: int, j: int|
            0 <= i < j < found@.len() ==> K::less(
                (#[trigger] found@[i]).0@,
                (#[trigger] found@[j]).0@,
            ),
        forall|i: int|
            0 <= i < found@.len() ==> s@.contains_key((#[trigger] found@[i]).0@)
                && s@[found@[i].0@] == *found@[i].1 && is_between(*lo, *hi, found@[i].0@),
        s@.contains_key(k) && is_between(*lo, *hi, k) ==> (exists|i: int|
            0 <= i < found@.len() && (#[trigger] found@[i]).0@ == k) || (found@.len() == limit
            && forall|i: int| 0 <= i < found@.len() ==> K::less((#[trigger] found@[i]).0@, k)),
{
    let p = ordered::in_range::<K, V>(*lo, *hi);
    let all = s.entries();
    s.law_entries();
    assert(ascends::<K, V>(all));
    lemma_filter_ascends::<K, V>(all, p);
    let f = all.filter(p);
    let shown = ordered::shown(found@);
    assert(shown == ordered::at_most(f, limit as nat));
    assert forall|i: int| 0 <= i < found@.len() implies shown[i] == (
        (#[trigger] found@[i]).0@,
        *found@[i].1,
    ) && shown[i] == f[i] by {}
    assert forall|i: int| 0 <= i < found@.len() implies s@.contains_key((#[trigger] found@[i]).0@)
        && s@[found@[i].0@] == *found@[i].1 && is_between(*lo, *hi, found@[i].0@) by {
        assert(all.contains(f[i]));
        let a = choose|a: int| 0 <= a < all.len() && all[a] == f[i];
        lemma_between::<K, V>(*lo, *hi, f[i].0, f[i].1);
        assert(s@.contains_key(all[a].0));
    }
    assert forall|i: int, j: int| 0 <= i < j < found@.len() implies K::less(
        (#[trigger] found@[i]).0@,
        (#[trigger] found@[j]).0@,
    ) by {
        assert(K::less(f[i].0, f[j].0));
    }
    if s@.contains_key(k) && is_between(*lo, *hi, k) {
        lemma_between::<K, V>(*lo, *hi, k, s@[k]);
        assert(all.contains((k, s@[k])));
        let a = choose|a: int| 0 <= a < all.len() && all[a] == (k, s@[k]);
        all.lemma_filter_contains(p, a);
        let i = choose|i: int| 0 <= i < f.len() && f[i] == (k, s@[k]);
        if i < found@.len() {
            assert(found@[i].0@ == k);
        } else {
            assert forall|j: int| 0 <= j < found@.len() implies K::less((#[trigger] found@[j]).0@, k)
                by {
                assert(K::less(f[j].0, f[i].0));
            }
        }
    }
}

/// A range read backwards hands out, in descending order, entries of the store between its ends; a
/// key between the ends that it leaves out is smaller than all that it hands out, and is left out
/// only where as many are handed out as asked for.
pub proof fn law_range_backwards<K: OrderedKey, V>(
    s: &OrderedStore<K, V>,
    caller: Option<&Pid>,
    lo: &Bound<K>,
    hi: &Bound<K>,
    limit: usize,
    found: Vec<(K, &V)>,
    k: K::V,
)
    requires
        s.wf(),
        s.allows(caller) is Ok,
        call_ensures(
            OrderedStore::<K, V>::range_rev,
            (s, caller, lo, hi, limit),
            Ok::<Vec<(K, &V)>, StoreError>(found),
        ),
    ensures
        found@.len() <= limit,
        forall|i: int, j: int|
            0 <= i < j < found@.len() ==> K::less(
                (#[trigger] found@[j]).0@,
                (#[trigger] found@[i]).0@,
            ),
        forall|i: int|
            0 <= i < found@.len() ==> s@.contains_key((#[trigger] found@[i]).0@)
                && s@[found@[i].0@] == *found@[i].1 && is_between(*lo, *hi, found@[i].0@),
        s@.contains_key(k) && is_between(*lo, *hi, k) ==> (exists|i: int|
            0 <= i < found@.len() && (#[trigger] found@[i]).0@ == k) || (found@.len() == limit
            && forall|i: int| 0 <= i < found@.len() ==> K::less(k, (#[trigger] found@[i]).0@)),
{
    let p = ordered::in_range::<K, V>(*lo, *hi);
    let all = s.entries();
    s.law_entries();
    assert(ascends::<K, V>(all));
    lemma_filter_ascends::<K, V>(all, p);
    let f = all.filter(p);
    let n: int = f.len() as int;
    let shown = ordered::shown(found@);
    assert(f.reverse().len() == n);
    assert(shown.len() == found@.len());
    assert(shown == ordered::at_most(f.reverse(), limit as nat));
    assert forall|i: int| 0 <= i < found@.len() implies shown[i] == (
        (#[trigger] found@[i]).0@,
        *found@[i].1,
    ) && shown[i] == f[n - 1 - i] by {}
    assert forall|i: int| 0 <= i < found@.len() implies s@.contains_key((#[trigger] found@[i]).0@)
        && s@[found@[i].0@] == *found@[i].1 && is_between(*lo, *hi, found@[i].0@) by {
        let e = f[n - 1 - i];
        assert(all.contains(e));
        let a = choose|a: int| 0 <= a < all.len() && all[a] == e;
        lemma_between::<K, V>(*lo, *hi, e.0, e.1);
        assert(s@.contains_key(all[a].0));
    }
    assert forall|i: int, j: int| 0 <= i < j < found@.len() implies K::less(
        (#[trigger] found@[j]).0@,
        (#[trigger] found@[i]).0@,
    ) by {
        assert(K::less(f[n - 1 - j].0, f[n - 1 - i].0));
    }
    if s@.contains_key(k) && is_between(*lo, *hi, k) {
        lemma_between::<K, V>(*lo, *hi, k, s@[k]);
        assert(all.contains((k, s@[k])));
        let a = choose|a: int| 0 <= a < all.len() && all[a] == (k, s@[k]);
        all.lemma_filter_contains(p, a);
        let i = choose|i: int| 0 <= i < f.len() && f[i] == (k, s@[k]);
        if n - 1 - i < found@.len() {
            assert(found@[n - 1 - i].0@ == k);
        } else {
            assert forall|j: int| 0 <= j < found@.len() implies K::less(k, (#[trigger] found@[j]).0@)
                by {
                assert(K::less(f[i].0, f[n - 1 - j].0));
            }
        }
    }
}

/// The number of entries of a range is the number that it hands out where enough are asked for.
pub proof fn law_range_is_counted<K: OrderedKey, V>(
    s: &OrderedStore<K, V>,
    caller: Option<&Pid>,
    lo: &Bound<K>,
    hi: &Bound<K>,
    limit: usize,
    found: Vec<(K, &V)>,
    n: usize,
)
    requires
        s.wf(),
        s.allows(caller) is Ok,
        call_ensures(
            OrderedStore::<K, V>::range,
            (s, caller, lo, hi, limit),
            Ok::<Vec<(K, &V)>, StoreError>(found),
        ),
        call_ensures(
            OrderedStore::<K, V>::range_count,
            (s, caller, lo, hi),
            Ok::<usize, StoreError>(n),
        ),
    ensures
        n <= limit ==> found@.len() == n,
        n > limit ==> found@.len() == limit,
{
    assert(ordered::shown(found@).len() == found@.len());
}

/// Two ends make a range exactly where the upper one is not below the lower one, and not both leave
/// out one and the same key.
pub proof fn law_what_is_a_range<K: OrderedKey>(lo: &Bound<K>, hi: &Bound<K>, r: bool)
    requires
        call_ensures(ordered::check_range::<K>, (lo, hi), r),
    ensures
        lo is Unbounded || hi is Unbounded ==> r,
        match (*lo, *hi) {
            (Bound::Excluded(a), Bound::Excluded(b)) => r <==> K::less(a@, b@),
            (Bound::Included(a), Bound::Included(b)) => r <==> a@ == b@ || K::less(a@, b@),
            (Bound::Included(a), Bound::Excluded(b)) => r <==> a@ == b@ || K::less(a@, b@),
            (Bound::Excluded(a), Bound::Included(b)) => r <==> a@ == b@ || K::less(a@, b@),
            _ => true,
        },
{
    match (*lo, *hi) {
        (Bound::Included(a), Bound::Included(b)) => {
            lemma_not_below::<K>(a@, b@);
        },
        (Bound::Included(a), Bound::Excluded(b)) => {
            lemma_not_below::<K>(a@, b@);
        },
        (Bound::Excluded(a), Bound::Included(b)) => {
            lemma_not_below::<K>(a@, b@);
        },
        _ => {},
    }
}

proof fn lemma_not_below<K: OrderedKey>(a: K::V, b: K::V)
    ensures
        !K::less(b, a) <==> a == b || K::less(a, b),
{
    K::total(a, b);
    K::irreflexive(a);
    if K::less(a, b) && K::less(b, a) {
        K::transitive(a, b, a);
    }
}

/// The first entry has the smallest key of all, and the last one the largest; there is none exactly
/// where the store is empty.
pub proof fn law_first_is_smallest<K: OrderedKey, V>(
    s: &OrderedStore<K, V>,
    caller: Option<&Pid>,
    first: Option<(K, &V)>,
    last: Option<(K, &V)>,
    k: K::V,
)
    requires
        s.wf(),
        s.allows(caller) is Ok,
        call_ensures(
            OrderedStore::<K, V>::first,
            (s, caller),
            Ok::<Option<(K, &V)>, StoreError>(first),
        ),
        call_ensures(
            OrderedStore::<K, V>::last,
            (s, caller),
            Ok::<Option<(K, &V)>, StoreError>(last),
        ),
        s@.contains_key(k),
    ensures
        first matches Some((a, v)) && s@.contains_key(a@) && s@[a@] == *v && (a@ == k || K::less(
            a@,
            k,
        )),
        last matches Some((b, v)) && s@.contains_key(b@) && s@[b@] == *v && (b@ == k || K::less(
            k,
            b@,
        )),
{
    let all = s.entries();
    s.law_entries();
    assert(all.contains((k, s@[k])));
    let i = choose|i: int| 0 <= i < all.len() && all[i] == (k, s@[k]);
    assert(all.first() == all[0]);
    assert(all.last() == all[all.len() - 1]);
    if i > 0 {
        assert(K::less(all[0].0, all[i].0));
    }
    if i < all.len() - 1 {
        assert(K::less(all[i].0, all[all.len() - 1].0));
    }
}

/// Taking out the first entry takes out the one with the smallest key, and taking out the last one
/// that with the largest; the others stay.
pub proof fn law_ends_are_taken_out<K: OrderedKey, V>(
    s: &mut OrderedStore<K, V>,
    t: &mut OrderedStore<K, V>,
    caller: Option<&Pid>,
    first: Option<(K, V)>,
    last: Option<(K, V)>,
    k: K::V,
)
    requires
        old(s).wf(),
        old(s).allows(caller) is Ok,
        *old(t) == *old(s),
        call_ensures(
            OrderedStore::<K, V>::pop_first,
            (s, caller),
            Ok::<Option<(K, V)>, StoreError>(first),
        ),
        call_ensures(
            OrderedStore::<K, V>::pop_last,
            (t, caller),
            Ok::<Option<(K, V)>, StoreError>(last),
        ),
        old(s)@.contains_key(k),
    ensures
        first matches Some((a, v)) && old(s)@.contains_key(a@) && old(s)@[a@] == v && !final(s)@.contains_key(a@) && (a@ != k ==> K::less(a@, k) && final(s)@.contains_key(k) && final(s)@[k] == old(s)@[k]),
        last matches Some((b, v)) && old(s)@.contains_key(b@) && old(s)@[b@] == v && !final(t)@.contains_key(b@) && (b@ != k ==> K::less(k, b@) && final(t)@.contains_key(k) && final(t)@[k] == old(s)@[k]),
{
    let all = old(s).entries();
    old(s).law_entries();
    assert(all.contains((k, old(s)@[k])));
    let i = choose|i: int| 0 <= i < all.len() && all[i] == (k, old(s)@[k]);
    assert(all.first() == all[0]);
    assert(all.last() == all[all.len() - 1]);
    if i > 0 {
        assert(K::less(all[0].0, all[i].0));
    }
    if i < all.len() - 1 {
        assert(K::less(all[i].0, all[all.len() - 1].0));
    }
}

/// Texts are ordered as in a dictionary: at the first place where two differ the smaller character
/// decides, and a text comes before those that go on after it.
pub proof fn law_texts_are_ordered_as_in_a_dictionary(
    front: Seq<char>,
    a: char,
    x: Seq<char>,
    b: char,
    y: Seq<char>,
)
    ensures
        (a as int) < (b as int) ==> ordered::text_less(front + seq![a] + x, front + seq![b] + y),
        ordered::text_less(front, front + seq![a] + x),
        !ordered::text_less(front + seq![a] + x, front),
    decreases front.len(),
{
    let l = front + seq![a] + x;
    let r = front + seq![b] + y;
    if front.len() == 0 {
        assert(l[0] == a);
        assert(r[0] == b);
    } else {
        let rest = front.drop_first();
        law_texts_are_ordered_as_in_a_dictionary(rest, a, x, b, y);
        assert(l.drop_first() =~= rest + seq![a] + x);
        assert(r.drop_first() =~= rest + seq![b] + y);
        assert(l[0] == front[0]);
        assert(r[0] == front[0]);
    }
}

} // verus!
