//! Tables keyed by names, found through a concurrent hash map of the `dashmap` crate.

use dashmap::DashMap;
use vstd::prelude::*;

use crate::table;

verus! {

/// A concurrent hash map of the `dashmap` crate.
#[verifier::external_type_specification]
#[verifier::external_body]
#[verifier::reject_recursive_types(K)]
#[verifier::reject_recursive_types(V)]
#[verifier::reject_recursive_types(S)]
pub struct ExDashMap<K, V, S>(DashMap<K, V, S>);

/// What a hash map from names to numbers holds.
pub uninterp spec fn dash_contents(m: DashMap<String, u64>) -> Map<Seq<char>, u64>;

/// Calls `DashMap::new`: the map is empty.
#[verifier::external_body]
fn dash_new() -> (r: DashMap<String, u64>)
    ensures
        dash_contents(r).dom() == Set::<Seq<char>>::empty(),
{
    DashMap::new()
}

/// Calls `DashMap::insert`: the key has the new value, other keys are untouched, and the old
/// value is handed back.
#[verifier::external_body]
fn dash_insert(m: &mut DashMap<String, u64>, k: String, v: u64) -> (r: Option<u64>)
    ensures
        dash_contents(*final(m)) == dash_contents(*old(m)).insert(k@, v),
        r == (if dash_contents(*old(m)).contains_key(k@) {
            Some(dash_contents(*old(m))[k@])
        } else {
            None
        }),
{
    m.insert(k, v)
}

/// Calls `DashMap::get` and copies the value out of the guard.
#[verifier::external_body]
fn dash_get(m: &DashMap<String, u64>, k: &str) -> (r: Option<u64>)
    ensures
        r == (if dash_contents(*m).contains_key(k@) {
            Some(dash_contents(*m)[k@])
        } else {
            None
        }),
{
    m.get(k).map(|entry| *entry.value())
}

/// Calls `DashMap::remove`: the key is gone, other keys are untouched, and the value is handed
/// back.
#[verifier::external_body]
fn dash_remove(m: &mut DashMap<String, u64>, k: &str) -> (r: Option<u64>)
    ensures
        dash_contents(*final(m)) == dash_contents(*old(m)).remove(k@),
        r == (if dash_contents(*old(m)).contains_key(k@) {
            Some(dash_contents(*old(m))[k@])
        } else {
            None
        }),
{
    m.remove(k).map(|entry| entry.1)
}

/// A table from names to values. A hash map gives each name the number of its row.
pub struct NameTable<V> {
    index: DashMap<String, u64>,
    rows: Vec<(String, V)>,
}

impl<V> View for NameTable<V> {
    type V = Map<Seq<char>, V>;

    closed spec fn view(&self) -> Map<Seq<char>, V> {
        table::row_map(self.rows@)
    }
}

impl<V> NameTable<V> {
    /// The table's invariant: no two rows have the same name, and the hash map leads from each
    /// name, and from nothing else, to its row.
    pub closed spec fn wf(&self) -> bool {
        &&& table::distinct_keys(self.rows@)
        &&& forall|i: int|
            0 <= i < self.rows@.len() ==> dash_contents(self.index).contains_key(
                (#[trigger] self.rows@[i]).0@,
            ) && dash_contents(self.index)[self.rows@[i].0@] == i
        &&& forall|k: Seq<char>| #[trigger]
            dash_contents(self.index).contains_key(k) ==> table::has_key(self.rows@, k)
    }

    /// The names, in the order of the rows.
    pub closed spec fn names(&self) -> Seq<Seq<char>> {
        Seq::new(self.rows@.len(), |i: int| self.rows@[i].0@)
    }

    /// The order of the rows holds each name once, and no other.
    pub proof fn law_names(&self)
        requires
            self.wf(),
        ensures
            self.names().no_duplicates(),
            forall|k: Seq<char>| self.names().contains(k) <==> #[trigger] self@.contains_key(k),
    {
        let rows = self.rows@;
        assert forall|i: int, j: int|
            0 <= i < self.names().len() && 0 <= j < self.names().len() && i
                != j implies self.names()[i] != self.names()[j] by {
            if i < j {
                assert(rows[i].0@ != rows[j].0@);
            } else {
                assert(rows[j].0@ != rows[i].0@);
            }
        }
        assert forall|k: Seq<char>| self.names().contains(k) <==> #[trigger] self@.contains_key(
            k,
        ) by {
            if self.names().contains(k) {
                let i = choose|i: int| 0 <= i < self.names().len() && self.names()[i] == k;
                table::lemma_row(rows, i);
            }
            if self@.contains_key(k) {
                let i = table::lemma_key(rows, k);
                assert(self.names()[i] == k);
            }
        }
    }

    /// An empty table.
    pub fn new() -> (r: Self)
        ensures
            r.wf(),
            r@ == Map::<Seq<char>, V>::empty(),
            r.names() == Seq::<Seq<char>>::empty(),
    {
        let r = NameTable { index: dash_new(), rows: Vec::new() };
        assert(r@ =~= Map::<Seq<char>, V>::empty());
        assert(r.names() =~= Seq::<Seq<char>>::empty());
        r
    }

    fn row(&self, k: &str) -> (r: Option<usize>)
        requires
            self.wf(),
        ensures
            match r {
                Some(i) => i < self.rows@.len() && self.rows@[i as int].0@ == k@
                    && self@.contains_key(k@) && self@[k@] == self.rows@[i as int].1,
                None => !self@.contains_key(k@),
            },
    {
        let n: usize = self.rows.len();
        match dash_get(&self.index, k) {
            Some(i) => {
                proof {
                    let j = table::row_of(self.rows@, k@);
                    assert(0 <= j < self.rows@.len() && self.rows@[j].0@ == k@);
                    assert(j == i && j < n);
                    table::lemma_row(self.rows@, j);
                }
                Some(i as usize)
            },
            None => {
                proof {
                    if self@.contains_key(k@) {
                        let j = table::lemma_key(self.rows@, k@);
                        assert(dash_contents(self.index).contains_key(self.rows@[j].0@));
                    }
                }
                None
            },
        }
    }

    /// The value of a name.
    pub fn get(&self, k: &str) -> (r: Option<&V>)
        requires
            self.wf(),
        ensures
            match r {
                Some(v) => self@.contains_key(k@) && *v == self@[k@],
                None => !self@.contains_key(k@),
            },
    {
        match self.row(k) {
            Some(i) => Some(&self.rows[i].1),
            None => None,
        }
    }

    /// Whether a name has a value.
    pub fn contains_key(&self, k: &str) -> (r: bool)
        requires
            self.wf(),
        ensures
            r == self@.contains_key(k@),
    {
        self.row(k).is_some()
    }

    /// Gives a name a value; hands back the value that it had.
    pub fn insert(&mut self, k: String, v: V) -> (r: Option<V>)
        requires
            old(self).wf(),
        ensures
            final(self).wf(),
            final(self)@ == old(self)@.insert(k@, v),
            r == (if old(self)@.contains_key(k@) {
                Some(old(self)@[k@])
            } else {
                None
            }),
            final(self).names() == (if old(self)@.contains_key(k@) {
                old(self).names()
            } else {
                old(self).names().push(k@)
            }),
    {
        let ghost before = self.rows@;
        let ghost names = self.names();
        let ghost index = dash_contents(self.index);
        match self.row(k.as_str()) {
            Some(i) => {
                let row = (k, v);
                proof {
                    table::lemma_set_row(before, i as int, row.0, row.1);
                }
                let was = table::replace_row(&mut self.rows, i, row);
                proof {
                    assert forall|q: Seq<char>| #[trigger]
                        dash_contents(self.index).contains_key(q) implies table::has_key(
                        self.rows@,
                        q,
                    ) by {
                        assert(table::has_key(before, q));
                        let j = table::row_of(before, q);
                        assert(self.rows@[j].0@ == q);
                    }
                    assert(self.names() =~= names);
                }
                Some(was.1)
            },
            None => {
                let n: u64 = self.rows.len() as u64;
                let ghost key = k@;
                let _ = dash_insert(&mut self.index, k.clone(), n);
                proof {
                    table::lemma_push_row(before, k, v);
                }
                self.rows.push((k, v));
                proof {
                    let rows = self.rows@;
                    assert forall|i: int| 0 <= i < rows.len() implies dash_contents(
                        self.index,
                    ).contains_key((#[trigger] rows[i]).0@) && dash_contents(
                        self.index,
                    )[rows[i].0@] == i by {
                        if i < before.len() {
                            assert(rows[i] == before[i]);
                            table::lemma_row(before, i);
                        }
                    }
                    assert forall|q: Seq<char>| #[trigger]
                        dash_contents(self.index).contains_key(q) implies table::has_key(
                        rows,
                        q,
                    ) by {
                        if q == key {
                            assert(rows[before.len() as int].0@ == q);
                        } else {
                            assert(table::has_key(before, q));
                            let j = table::row_of(before, q);
                            assert(rows[j].0@ == q);
                        }
                    }
                    assert(self.names() =~= names.push(key));
                }
                None
            },
        }
    }

    /// Takes a name out of the table, with its value.
    pub fn remove(&mut self, k: &str) -> (r: Option<V>)
        requires
            old(self).wf(),
        ensures
            final(self).wf(),
            final(self)@ == old(self)@.remove(k@),
            r == (if old(self)@.contains_key(k@) {
                Some(old(self)@[k@])
            } else {
                None
            }),
    {
        let ghost before = self.rows@;
        let ghost index = dash_contents(self.index);
        match self.row(k) {
            Some(i) => {
                let last: usize = self.rows.len() - 1;
                let _ = dash_remove(&mut self.index, k);
                proof {
                    table::lemma_row(before, i as int);
                    lemma_swap_remove(before, i as int);
                }
                if i < last {
                    let moved = self.rows[last].0.clone();
                    let _ = dash_insert(&mut self.index, moved, i as u64);
                }
                let gone = self.rows.swap_remove(i);
                proof {
                    let rows = self.rows@;
                    let after = dash_contents(self.index);
                    assert(rows =~= before.update(i as int, before.last()).drop_last());
                    assert forall|a: int| 0 <= a < rows.len() implies after.contains_key(
                        (#[trigger] rows[a]).0@,
                    ) && after[rows[a].0@] == a by {
                        if a == i {
                            assert(rows[a] == before[last as int]);
                        } else {
                            assert(rows[a] == before[a]);
                            assert(before[a].0@ != k@) by {
                                if a < i {
                                    assert(before[a].0@ != before[i as int].0@);
                                } else {
                                    assert(before[i as int].0@ != before[a].0@);
                                }
                            }
                            assert(before[a].0@ != before[last as int].0@);
                        }
                    }
                    assert forall|q: Seq<char>| #[trigger] after.contains_key(q) implies table::has_key(
                        rows,
                        q,
                    ) by {
                        if i < last && q == before[last as int].0@ {
                            assert(rows[i as int].0@ == q);
                        } else {
                            assert(table::has_key(before, q));
                            let j = table::row_of(before, q);
                            if j == last {
                                assert(j == i);
                                assert(before[i as int].0@ == k@);
                            }
                            assert(rows[j].0@ == q);
                        }
                    }
                }
                Some(gone.1)
            },
            None => {
                assert(self@.remove(k@) =~= self@);
                None
            },
        }
    }

    /// The names.
    pub fn keys(&self) -> (r: Vec<String>)
        ensures
            table::views(r@) == self.names(),
    {
        let mut r: Vec<String> = Vec::new();
        let mut i: usize = 0;
        while i < self.rows.len()
            invariant
                i <= self.rows@.len(),
                r@.len() == i,
                forall|j: int| 0 <= j < i ==> (#[trigger] r@[j])@ == self.rows@[j].0@,
            decreases self.rows@.len() - i,
        {
            r.push(self.rows[i].0.clone());
            i = i + 1;
        }
        assert(table::views(r@) =~= self.names());
        r
    }

    /// The number of names.
    pub fn len(&self) -> (r: usize)
        ensures
            r == self.names().len(),
    {
        self.rows.len()
    }

    /// The name and value of a row.
    pub fn at(&self, i: usize) -> (r: (&str, &V))
        requires
            self.wf(),
            i < self.names().len(),
        ensures
            r.0@ == self.names()[i as int],
            self@.contains_key(r.0@),
            *r.1 == self@[r.0@],
    {
        proof {
            table::lemma_row(self.rows@, i as int);
        }
        (self.rows[i].0.as_str(), &self.rows[i].1)
    }
}

/// The map after a row was taken out and the last row put in its place.
proof fn lemma_swap_remove<V>(rows: Seq<(String, V)>, i: int)
    requires
        table::distinct_keys(rows),
        0 <= i < rows.len(),
    ensures
        ({
            let after = rows.update(i, rows.last()).drop_last();
            &&& table::distinct_keys(after)
            &&& table::row_map(after) == table::row_map(rows).remove(rows[i].0@)
        }),
{
    let after = rows.update(i, rows.last()).drop_last();
    let last = rows.len() - 1;
    let from = |a: int| if a == i {
        last
    } else {
        a
    };
    assert forall|a: int| 0 <= a < after.len() implies after[a] == rows[#[trigger] from(a)] by {}
    assert forall|a: int, b: int| 0 <= a < b < after.len() implies #[trigger] after[a].0@
        != #[trigger] after[b].0@ by {
        assert(after[a] == rows[from(a)]);
        assert(after[b] == rows[from(b)]);
        let x = from(a);
        let y = from(b);
        if x < y {
            assert(rows[x].0@ != rows[y].0@);
        } else {
            assert(rows[y].0@ != rows[x].0@);
        }
    }
    let m = table::row_map(after);
    let n = table::row_map(rows).remove(rows[i].0@);
    assert forall|q: Seq<char>| m.contains_key(q) == n.contains_key(q) by {
        if m.contains_key(q) {
            let a = table::lemma_key(after, q);
            assert(after[a] == rows[from(a)]);
            table::lemma_row(rows, from(a));
            table::lemma_row(rows, i);
        }
        if n.contains_key(q) {
            let a = table::lemma_key(rows, q);
            let b = if a == last {
                i
            } else {
                a
            };
            assert(after[b] == rows[from(b)]);
            table::lemma_row(after, b);
        }
    }
    assert forall|q: Seq<char>| m.contains_key(q) implies m[q] == n[q] by {
        let a = table::lemma_key(after, q);
        assert(after[a] == rows[from(a)]);
        table::lemma_row(rows, from(a));
        table::lemma_row(after, a);
    }
    assert(m =~= n);
}

} // verus!
