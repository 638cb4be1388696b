//! Tables from keys to values, kept in the order in which the keys were first inserted.

use vstd::prelude::*;

verus! {

/// A type whose values can be compared and copied by their views.
pub trait Key: Sized + View {
    /// Whether the two keys have the same view.
    fn same(&self, other: &Self) -> (r: bool)
        ensures
            r == (self@ == other@),
    ;

    /// Another key with the same view.
    fn dup(&self) -> (r: Self)
        ensures
            r@ == self@,
    ;
}

impl Key for String {
    fn same(&self, other: &Self) -> (r: bool) {
        *self == *other
    }

    fn dup(&self) -> (r: Self) {
        self.clone()
    }
}

impl Key for u64 {
    fn same(&self, other: &Self) -> (r: bool) {
        *self == *other
    }

    fn dup(&self) -> (r: Self) {
        *self
    }
}

impl Key for u32 {
    fn same(&self, other: &Self) -> (r: bool) {
        *self == *other
    }

    fn dup(&self) -> (r: Self) {
        *self
    }
}

impl Key for i64 {
    fn same(&self, other: &Self) -> (r: bool) {
        *self == *other
    }

    fn dup(&self) -> (r: Self) {
        *self
    }
}

impl Key for i32 {
    fn same(&self, other: &Self) -> (r: bool) {
        *self == *other
    }

    fn dup(&self) -> (r: Self) {
        *self
    }
}

impl<A: Key, B: Key> Key for (A, B) {
    fn same(&self, other: &Self) -> (r: bool) {
        self.0.same(&other.0) && self.1.same(&other.1)
    }

    fn dup(&self) -> (r: Self) {
        (self.0.dup(), self.1.dup())
    }
}

/// The views of the items of a sequence.
pub open spec fn views<T: View>(s: Seq<T>) -> Seq<T::V> {
    Seq::new(s.len(), |i: int| s[i]@)
}

/// A table from keys to values: each key has at most one value.
pub struct Table<K: Key, V> {
    /// The rows, in the order in which their keys were first inserted.
    pub rows: Vec<(K, V)>,
}

/// No two rows have the same key.
pub open spec fn distinct_keys<K: Key, V>(rows: Seq<(K, V)>) -> bool {
    forall|i: int, j: int| 0 <= i < j < rows.len() ==> #[trigger] rows[i].0@ != #[trigger] rows[j].0@
}

/// Whether some row has the key `k`.
pub open spec fn has_key<K: Key, V>(rows: Seq<(K, V)>, k: K::V) -> bool {
    exists|i: int| 0 <= i < rows.len() && #[trigger] rows[i].0@ == k
}

/// The row of the key `k`.
pub open spec fn row_of<K: Key, V>(rows: Seq<(K, V)>, k: K::V) -> int {
    choose|i: int| 0 <= i < rows.len() && #[trigger] rows[i].0@ == k
}

/// The rows as a map.
pub open spec fn row_map<K: Key, V>(rows: Seq<(K, V)>) -> Map<K::V, V> {
    Map::new(|k: K::V| has_key(rows, k), |k: K::V| rows[row_of(rows, k)].1)
}

impl<K: Key, V> View for Table<K, V> {
    type V = Map<K::V, V>;

    open spec fn view(&self) -> Map<K::V, V> {
        row_map(self.rows@)
    }
}

/// A row's key is in the map, with the row's value.
pub proof fn lemma_row<K: Key, V>(rows: Seq<(K, V)>, i: int)
    requires
        distinct_keys(rows),
        0 <= i < rows.len(),
    ensures
        has_key(rows, rows[i].0@),
        row_of(rows, rows[i].0@) == i,
        row_map(rows).contains_key(rows[i].0@),
        row_map(rows)[rows[i].0@] == rows[i].1,
{
    let k = rows[i].0@;
    assert(has_key(rows, k));
    let j = row_of(rows, k);
    assert(0 <= j < rows.len() && rows[j].0@ == k);
    if j < i {
        assert(rows[j].0@ != rows[i].0@);
    } else if i < j {
        assert(rows[i].0@ != rows[j].0@);
    }
}

/// What a key of the map says of the rows.
pub proof fn lemma_key<K: Key, V>(rows: Seq<(K, V)>, k: K::V) -> (i: int)
    requires
        row_map(rows).contains_key(k),
    ensures
        0 <= i < rows.len(),
        rows[i].0@ == k,
        i == row_of(rows, k),
        row_map(rows)[k] == rows[i].1,
{
    row_of(rows, k)
}

/// The map after a row was added at the end.
pub proof fn lemma_push_row<K: Key, V>(rows: Seq<(K, V)>, k: K, v: V)
    requires
        distinct_keys(rows),
        !row_map(rows).contains_key(k@),
    ensures
        distinct_keys(rows.push((k, v))),
        row_map(rows.push((k, v))) == row_map(rows).insert(k@, v),
{
    let after = rows.push((k, v));
    assert forall|i: int, j: int| 0 <= i < j < after.len() implies #[trigger] after[i].0@
        != #[trigger] after[j].0@ by {
        if j == rows.len() {
            assert(after[i] == rows[i]);
            assert(has_key(rows, rows[i].0@));
        } else {
            assert(rows[i].0@ != rows[j].0@);
        }
    }
    let m = row_map(after);
    let n = row_map(rows).insert(k@, v);
    lemma_row(after, rows.len() as int);
    assert forall|q: K::V| m.contains_key(q) == n.contains_key(q) by {
        if m.contains_key(q) {
            let i = lemma_key(after, q);
            if i < rows.len() {
                lemma_row(rows, i);
            }
        }
        if n.contains_key(q) && q != k@ {
            let i = lemma_key(rows, q);
            lemma_row(after, i);
        }
    }
    assert forall|q: K::V| m.contains_key(q) implies m[q] == n[q] by {
        if q != k@ {
            let i = lemma_key(rows, q);
            lemma_row(rows, i);
            lemma_row(after, i);
        }
    }
    assert(m =~= n);
}

/// The map after the value of a row was replaced.
pub proof fn lemma_set_row<K: Key, V>(rows: Seq<(K, V)>, i: int, k: K, v: V)
    requires
        distinct_keys(rows),
        0 <= i < rows.len(),
        k@ == rows[i].0@,
    ensures
        distinct_keys(rows.update(i, (k, v))),
        row_map(rows.update(i, (k, v))) == row_map(rows).insert(rows[i].0@, v),
{
    let after = rows.update(i, (k, v));
    assert forall|a: int, b: int| 0 <= a < b < after.len() implies #[trigger] after[a].0@
        != #[trigger] after[b].0@ by {
        assert(after[a].0@ == rows[a].0@);
        assert(after[b].0@ == rows[b].0@);
    }
    let m = row_map(after);
    let n = row_map(rows).insert(rows[i].0@, v);
    lemma_row(after, i);
    assert forall|q: K::V| m.contains_key(q) == n.contains_key(q) by {
        if m.contains_key(q) {
            let a = lemma_key(after, q);
            lemma_row(rows, a);
        }
        if n.contains_key(q) && q != rows[i].0@ {
            let a = lemma_key(rows, q);
            lemma_row(after, a);
        }
    }
    assert forall|q: K::V| m.contains_key(q) implies m[q] == n[q] by {
        if q != rows[i].0@ {
            let a = lemma_key(rows, q);
            lemma_row(rows, a);
            lemma_row(after, a);
        }
    }
    assert(m =~= n);
}

/// The map after a row was removed.
pub proof fn lemma_remove_row<K: Key, V>(rows: Seq<(K, V)>, i: int)
    requires
        distinct_keys(rows),
        0 <= i < rows.len(),
    ensures
        distinct_keys(rows.remove(i)),
        row_map(rows.remove(i)) == row_map(rows).remove(rows[i].0@),
{
    let after = rows.remove(i);
    let at = |a: int| if a < i {
        a
    } else {
        a + 1
    };
    assert forall|a: int| 0 <= a < after.len() implies after[a] == rows[#[trigger] at(a)] by {}
    assert forall|a: int, b: int| 0 <= a < b < after.len() implies #[trigger] after[a].0@
        != #[trigger] after[b].0@ by {
        assert(after[a] == rows[at(a)]);
        assert(after[b] == rows[at(b)]);
        assert(rows[at(a)].0@ != rows[at(b)].0@);
    }
    let m = row_map(after);
    let n = row_map(rows).remove(rows[i].0@);
    assert forall|q: K::V| m.contains_key(q) == n.contains_key(q) by {
        if m.contains_key(q) {
            let a = lemma_key(after, q);
            assert(after[a] == rows[at(a)]);
            lemma_row(rows, at(a));
            lemma_row(rows, i);
        }
        if n.contains_key(q) {
            let a = lemma_key(rows, q);
            let b = if a < i {
                a
            } else {
                a - 1
            };
            assert(after[b] == rows[at(b)]);
            lemma_row(after, b);
        }
    }
    assert forall|q: K::V| m.contains_key(q) implies m[q] == n[q] by {
        let a = lemma_key(after, q);
        assert(after[a] == rows[at(a)]);
        lemma_row(rows, at(a));
        lemma_row(after, a);
    }
    assert(m =~= n);
}

impl<K: Key, V> Table<K, V> {
    /// The table's invariant: no two rows have the same key.
    pub open spec fn wf(&self) -> bool {
        distinct_keys(self.rows@)
    }

    /// An empty table.
    pub fn new() -> (r: Self)
        ensures
            r.wf(),
            r@ == Map::<K::V, V>::empty(),
            r.rows@ == Seq::<(K, V)>::empty(),
    {
        let r = Table { rows: Vec::new() };
        assert(r@ =~= Map::<K::V, V>::empty());
        r
    }

    /// The row of a key.
    pub fn find(&self, k: &K) -> (r: Option<usize>)
        requires
            self.wf(),
        ensures
            match r {
                Some(i) => i < self.rows@.len() && self.rows@[i as int].0@ == k@
                    && self@.contains_key(k@) && self@[k@] == self.rows@[i as int].1,
                None => !self@.contains_key(k@),
            },
    {
        let mut i: usize = 0;
        while i < self.rows.len()
            invariant
                self.wf(),
                i <= self.rows@.len(),
                forall|j: int| 0 <= j < i ==> #[trigger] self.rows@[j].0@ != k@,
            decreases self.rows@.len() - i,
        {
            if self.rows[i].0.same(k) {
                proof {
                    lemma_row(self.rows@, i as int);
                }
                return Some(i);
            }
            i = i + 1;
        }
        None
    }

    /// The value of a key.
    pub fn get(&self, k: &K) -> (r: Option<&V>)
        requires
            self.wf(),
        ensures
            match r {
                Some(v) => self@.contains_key(k@) && *v == self@[k@],
                None => !self@.contains_key(k@),
            },
    {
        match self.find(k) {
            Some(i) => Some(&self.rows[i].1),
            None => None,
        }
    }

    /// Whether the table has a value for a key.
    pub fn contains_key(&self, k: &K) -> (r: bool)
        requires
            self.wf(),
        ensures
            r == self@.contains_key(k@),
    {
        self.find(k).is_some()
    }

    /// Gives a key a value; hands back the value that it had.
    pub fn insert(&mut self, k: K, v: V) -> (r: Option<V>)
        requires
            old(self).wf(),
        ensures
            final(self).wf(),
            final(self)@ == old(self)@.insert(k@, v),
            !old(self)@.contains_key(k@) ==> final(self).rows@ == old(self).rows@.push((k, v)),
            r == (if old(self)@.contains_key(k@) {
                Some(old(self)@[k@])
            } else {
                None
            }),
    {
        match self.find(&k) {
            Some(i) => {
                let ghost before = self.rows@;
                let mut row = (k, v);
                proof {
                    lemma_set_row(before, i as int, row.0, row.1);
                }
                let was = replace_row(&mut self.rows, i, row);
                Some(was.1)
            },
            None => {
                proof {
                    lemma_push_row(self.rows@, k, v);
                }
                self.rows.push((k, v));
                None
            },
        }
    }

    /// Takes a key out of the table, with its value.
    pub fn remove(&mut self, k: &K) -> (r: Option<V>)
        requires
            old(self).wf(),
        ensures
            final(self).wf(),
            final(self)@ == old(self)@.remove(k@),
            final(self).rows@ == (if old(self)@.contains_key(k@) {
                old(self).rows@.remove(row_of(old(self).rows@, k@))
            } else {
                old(self).rows@
            }),
            r == (if old(self)@.contains_key(k@) {
                Some(old(self)@[k@])
            } else {
                None
            }),
    {
        match self.find(k) {
            Some(i) => {
                proof {
                    lemma_row(self.rows@, i as int);
                    lemma_remove_row(self.rows@, i as int);
                }
                let row = self.rows.remove(i);
                Some(row.1)
            },
            None => {
                assert(self@.remove(k@) =~= self@);
                None
            },
        }
    }
}

/// Puts `item` at position `i` and hands back what was there.
pub fn replace_row<T>(v: &mut Vec<T>, i: usize, item: T) -> (r: T)
    requires
        i < old(v)@.len(),
    ensures
        final(v)@ == old(v)@.update(i as int, item),
        r == old(v)@[i as int],
{
    let ghost before = v@;
    v.push(item);
    let r = v.swap_remove(i);
    assert(v@ =~= before.update(i as int, item));
    r
}

} // verus!
