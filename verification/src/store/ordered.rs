//! The store whose entries are ordered by their keys.

use vstd::prelude::*;

use crate::process::Pid;
use crate::store::access;
use crate::store::access::{Access, Head, HeadView, StoreError, StoreId, StoreOptions};
use crate::store::registry::StoreRegistry;
use crate::table;
use crate::table::Key;

verus! {

/// How two keys stand to each other.
#[derive(Debug, Clone, Copy, PartialEq, Eq, Structural)]
pub enum Standing {
    /// The first one is smaller.
    Before,
    /// They are the same.
    Same,
    /// The first one is larger.
    After,
}

/// Keys that are ordered.
pub trait OrderedKey: Key {
    /// Whether a key is smaller than another.
    spec fn less(a: Self::V, b: Self::V) -> bool;

    /// No key is smaller than itself.
    proof fn irreflexive(a: Self::V)
        ensures
            !Self::less(a, a),
    ;

    /// What is smaller than a smaller key is smaller.
    proof fn transitive(a: Self::V, b: Self::V, c: Self::V)
        requires
            Self::less(a, b),
            Self::less(b, c),
        ensures
            Self::less(a, c),
    ;

    /// Of two keys that differ one is smaller.
    proof fn total(a: Self::V, b: Self::V)
        ensures
            Self::less(a, b) || a == b || Self::less(b, a),
    ;

    /// How two keys stand to each other.
    fn standing(&self, other: &Self) -> (r: Standing)
        ensures
            match r {
                Standing::Before => Self::less(self@, other@),
                Standing::Same => self@ == other@,
                Standing::After => Self::less(other@, self@),
            },
    ;
}

impl OrderedKey for i32 {
    open spec fn less(a: i32, b: i32) -> bool {
        a < b
    }

    proof fn irreflexive(a: i32) {
    }

    proof fn transitive(a: i32, b: i32, c: i32) {
    }

    proof fn total(a: i32, b: i32) {
    }

    fn standing(&self, other: &i32) -> (r: Standing) {
        if *self < *other {
            Standing::Before
        } else if *self == *other {
            Standing::Same
        } else {
            Standing::After
        }
    }
}

impl OrderedKey for i64 {
    open spec fn less(a: i64, b: i64) -> bool {
        a < b
    }

    proof fn irreflexive(a: i64) {
    }

    proof fn transitive(a: i64, b: i64, c: i64) {
    }

    proof fn total(a: i64, b: i64) {
    }

    fn standing(&self, other: &i64) -> (r: Standing) {
        if *self < *other {
            Standing::Before
        } else if *self == *other {
            Standing::Same
        } else {
            Standing::After
        }
    }
}

impl OrderedKey for u32 {
    open spec fn less(a: u32, b: u32) -> bool {
        a < b
    }

    proof fn irreflexive(a: u32) {
    }

    proof fn transitive(a: u32, b: u32, c: u32) {
    }

    proof fn total(a: u32, b: u32) {
    }

    fn standing(&self, other: &u32) -> (r: Standing) {
        if *self < *other {
            Standing::Before
        } else if *self == *other {
            Standing::Same
        } else {
            Standing::After
        }
    }
}

impl OrderedKey for u64 {
    open spec fn less(a: u64, b: u64) -> bool {
        a < b
    }

    proof fn irreflexive(a: u64) {
    }

    proof fn transitive(a: u64, b: u64, c: u64) {
    }

    proof fn total(a: u64, b: u64) {
    }

    fn standing(&self, other: &u64) -> (r: Standing) {
        if *self < *other {
            Standing::Before
        } else if *self == *other {
            Standing::Same
        } else {
            Standing::After
        }
    }
}

/// Whether a text comes before another: at the first place where they differ its character is
/// the smaller one, or it ends there.
pub open spec fn text_less(a: Seq<char>, b: Seq<char>) -> bool
    decreases a.len(),
{
    if b.len() == 0 {
        false
    } else if a.len() == 0 {
        true
    } else if a[0] == b[0] {
        text_less(a.drop_first(), b.drop_first())
    } else {
        (a[0] as int) < (b[0] as int)
    }
}

proof fn lemma_text_less_irreflexive(a: Seq<char>)
    ensures
        !text_less(a, a),
    decreases a.len(),
{
    if a.len() > 0 {
        lemma_text_less_irreflexive(a.drop_first());
    }
}

proof fn lemma_text_less_transitive(a: Seq<char>, b: Seq<char>, c: Seq<char>)
    requires
        text_less(a, b),
        text_less(b, c),
    ensures
        text_less(a, c),
    decreases a.len(),
{
    if a.len() > 0 && a[0] == b[0] && b[0] == c[0] {
        lemma_text_less_transitive(a.drop_first(), b.drop_first(), c.drop_first());
    }
}

proof fn lemma_text_less_total(a: Seq<char>, b: Seq<char>)
    ensures
        text_less(a, b) || a == b || text_less(b, a),
    decreases a.len(),
{
    if a.len() == 0 && b.len() == 0 {
        assert(a =~= b);
    } else if a.len() > 0 && b.len() > 0 && a[0] == b[0] {
        lemma_text_less_total(a.drop_first(), b.drop_first());
        if a.drop_first() == b.drop_first() {
            assert(a =~= seq![a[0]] + a.drop_first());
            assert(b =~= seq![b[0]] + b.drop_first());
        }
    }
}

impl OrderedKey for String {
    open spec fn less(a: Seq<char>, b: Seq<char>) -> bool {
        text_less(a, b)
    }

    proof fn irreflexive(a: Seq<char>) {
        lemma_text_less_irreflexive(a);
    }

    proof fn transitive(a: Seq<char>, b: Seq<char>, c: Seq<char>) {
        lemma_text_less_transitive(a, b, c);
    }

    proof fn total(a: Seq<char>, b: Seq<char>) {
        lemma_text_less_total(a, b);
    }

    fn standing(&self, other: &String) -> (r: Standing) {
        let a = self.as_str();
        let b = other.as_str();
        let n: usize = a.unicode_len();
        let m: usize = b.unicode_len();
        let mut i: usize = 0;
        assert(a@.skip(0) =~= a@);
        assert(b@.skip(0) =~= b@);
        while i < n && i < m
            invariant
                i <= n,
                i <= m,
                n == a@.len(),
                m == b@.len(),
                a@ == self@,
                b@ == other@,
                a@.take(i as int) == b@.take(i as int),
                text_less(self@, other@) == text_less(a@.skip(i as int), b@.skip(i as int)),
                text_less(other@, self@) == text_less(b@.skip(i as int), a@.skip(i as int)),
            decreases n - i,
        {
            let x = a.get_char(i);
            let y = b.get_char(i);
            proof {
                assert(a@.skip(i as int).drop_first() =~= a@.skip(i + 1));
                assert(b@.skip(i as int).drop_first() =~= b@.skip(i + 1));
            }
            if x != y {
                if (x as u32) < (y as u32) {
                    return Standing::Before;
                } else {
                    return Standing::After;
                }
            }
            assert(a@.take(i + 1) =~= a@.take(i as int).push(x));
            assert(b@.take(i + 1) =~= b@.take(i as int).push(y));
            i = i + 1;
        }
        if n == m {
            assert(a@.take(n as int) =~= a@);
            assert(b@.take(n as int) =~= b@);
            Standing::Same
        } else if n < m {
            Standing::Before
        } else {
            Standing::After
        }
    }
}

/// One end of a range of keys.
pub enum Bound<K> {
    /// The key belongs to the range.
    Included(K),
    /// The key does not belong to the range.
    Excluded(K),
    /// The range has no end here.
    Unbounded,
}

/// Whether a key is above the lower end of a range.
pub open spec fn above<K: OrderedKey>(lo: Bound<K>, k: K::V) -> bool {
    match lo {
        Bound::Included(b) => !K::less(k, b@),
        Bound::Excluded(b) => K::less(b@, k),
        Bound::Unbounded => true,
    }
}

/// Whether a key is below the upper end of a range.
pub open spec fn below<K: OrderedKey>(hi: Bound<K>, k: K::V) -> bool {
    match hi {
        Bound::Included(b) => !K::less(b@, k),
        Bound::Excluded(b) => K::less(k, b@),
        Bound::Unbounded => true,
    }
}

/// Whether a range is one: its lower end is not above its upper end, and a range between a key
/// and itself includes it.
pub open spec fn is_range<K: OrderedKey>(lo: Bound<K>, hi: Bound<K>) -> bool {
    match (lo, hi) {
        (Bound::Included(a), Bound::Included(b)) => !K::less(b@, a@),
        (Bound::Included(a), Bound::Excluded(b)) => !K::less(b@, a@),
        (Bound::Excluded(a), Bound::Included(b)) => !K::less(b@, a@),
        (Bound::Excluded(a), Bound::Excluded(b)) => K::less(a@, b@),
        _ => true,
    }
}

/// Whether a range is one.
pub fn check_range<K: OrderedKey>(lo: &Bound<K>, hi: &Bound<K>) -> (r: bool)
    ensures
        r == is_range(*lo, *hi),
{
    let (a, b, both_open) = match (lo, hi) {
        (Bound::Included(a), Bound::Included(b)) => (a, b, false),
        (Bound::Included(a), Bound::Excluded(b)) => (a, b, false),
        (Bound::Excluded(a), Bound::Included(b)) => (a, b, false),
        (Bound::Excluded(a), Bound::Excluded(b)) => (a, b, true),
        _ => {
            return true;
        },
    };
    proof {
        K::irreflexive(a@);
        if K::less(a@, b@) && K::less(b@, a@) {
            K::transitive(a@, b@, a@);
        }
    }
    match a.standing(b) {
        Standing::Before => true,
        Standing::Same => !both_open,
        Standing::After => false,
    }
}

/// Whether an entry belongs to a range.
pub open spec fn in_range<K: OrderedKey, V>(
    lo: Bound<K>,
    hi: Bound<K>
) -> spec_fn((K::V, V)) -> bool {
    |e: (K::V, V)| above(lo, e.0) && below(hi, e.0)
}

/// The first `n` items, or all if there are fewer.
pub open spec fn at_most<T>(s: Seq<T>, n: nat) -> Seq<T> {
    if s.len() <= n {
        s
    } else {
        s.take(n as int)
    }
}

/// Whether the keys of rows ascend.
pub open spec fn ascending<K: OrderedKey, V>(rows: Seq<(K, V)>) -> bool {
    forall|i: int, j: int|
        0 <= i < j < rows.len() ==> K::less(#[trigger] rows[i].0@, #[trigger] rows[j].0@)
}

/// Ascending keys are distinct.
proof fn lemma_distinct<K: OrderedKey, V>(rows: Seq<(K, V)>)
    requires
        ascending(rows),
    ensures
        table::distinct_keys(rows),
{
    assert forall|i: int, j: int| 0 <= i < j < rows.len() implies #[trigger] rows[i].0@
        != #[trigger] rows[j].0@ by {
        assert(K::less(rows[i].0@, rows[j].0@));
        K::irreflexive(rows[i].0@);
    }
}

/// A new row between the smaller and the larger ones.
proof fn lemma_insert_row<K: OrderedKey, V>(rows: Seq<(K, V)>, n: int, k: K, v: V)
    requires
        ascending(rows),
        0 <= n <= rows.len(),
        forall|j: int| 0 <= j < n ==> K::less(#[trigger] rows[j].0@, k@),
        forall|j: int| n <= j < rows.len() ==> K::less(k@, #[trigger] rows[j].0@),
    ensures
        ascending(rows.insert(n, (k, v))),
        table::row_map(rows.insert(n, (k, v))) == table::row_map(rows).insert(k@, v),
        !table::row_map(rows).contains_key(k@),
{
    let more = rows.insert(n, (k, v));
    let from = |i: int|
        if i < n {
            i
        } else {
            i - 1
        };
    assert forall|i: int| 0 <= i < more.len() && i != n implies #[trigger] more[i] == rows[from(i)] by {}
    assert forall|i: int, j: int| 0 <= i < j < more.len() implies K::less(
        #[trigger] more[i].0@,
        #[trigger] more[j].0@,
    ) by {
        if i != n {
            assert(more[i] == rows[from(i)]);
        }
        if j != n {
            assert(more[j] == rows[from(j)]);
        }
        if i != n && j != n {
            assert(K::less(rows[from(i)].0@, rows[from(j)].0@));
        }
    }
    lemma_distinct(rows);
    lemma_distinct(more);
    assert(!table::has_key(rows, k@)) by {
        if table::has_key(rows, k@) {
            let j = table::lemma_key(rows, k@);
            K::irreflexive(k@);
            if j < n {
                assert(K::less(rows[j].0@, k@));
            } else {
                assert(K::less(k@, rows[j].0@));
            }
        }
    }
    let a = table::row_map(more);
    let b = table::row_map(rows).insert(k@, v);
    table::lemma_row(more, n);
    assert forall|q: K::V| a.contains_key(q) == b.contains_key(q) by {
        if a.contains_key(q) {
            let i = table::lemma_key(more, q);
            if i != n {
                assert(more[i] == rows[from(i)]);
                table::lemma_row(rows, from(i));
            }
        }
        if b.contains_key(q) && q != k@ {
            let j = table::lemma_key(rows, q);
            let i = if j < n {
                j
            } else {
                j + 1
            };
            assert(more[i] == rows[from(i)]);
            table::lemma_row(more, i);
        }
    }
    assert forall|q: K::V| a.contains_key(q) implies a[q] == b[q] by {
        let i = table::lemma_key(more, q);
        table::lemma_row(more, i);
        if i != n {
            assert(more[i] == rows[from(i)]);
            table::lemma_row(rows, from(i));
        }
    }
    assert(a =~= b);
}

/// A row gets another value: the order stays, and so do the other rows.
proof fn lemma_new_value<K: OrderedKey, V>(before: Seq<(K, V)>, after: Seq<(K, V)>, i: int)
    requires
        ascending(before),
        0 <= i < before.len(),
        after == before.remove(i).insert(i, after[i]),
        after.len() == before.len(),
        after[i].0@ == before[i].0@,
    ensures
        ascending(after),
        table::row_map(after) == table::row_map(before).insert(before[i].0@, after[i].1),
{
    lemma_distinct(before);
    assert forall|j: int| 0 <= j < before.len() && j != i implies after[j] == before[j] by {}
    lemma_distinct(after);
    let a = table::row_map(after);
    let b = table::row_map(before).insert(before[i].0@, after[i].1);
    assert forall|k: K::V| #[trigger] a.contains_key(k) == b.contains_key(k) && (a.contains_key(k)
        ==> a[k] == b[k]) by {
        if a.contains_key(k) {
            let j = table::lemma_key(after, k);
            table::lemma_row(after, j);
            table::lemma_row(before, j);
        }
        if b.contains_key(k) {
            if k == before[i].0@ {
                table::lemma_row(after, i);
            } else {
                let j = table::lemma_key(before, k);
                table::lemma_row(before, j);
                table::lemma_row(after, j);
            }
        }
    }
    assert(a =~= b);
}

/// Rows without one of them.
proof fn lemma_without_row<K: OrderedKey, V>(rows: Seq<(K, V)>, n: int)
    requires
        ascending(rows),
        0 <= n < rows.len(),
    ensures
        ascending(rows.remove(n)),
        table::row_map(rows.remove(n)) == table::row_map(rows).remove(rows[n].0@),
{
    let less = rows.remove(n);
    lemma_distinct(rows);
    table::lemma_remove_row(rows, n);
    assert forall|i: int, j: int| 0 <= i < j < less.len() implies K::less(
        #[trigger] less[i].0@,
        #[trigger] less[j].0@,
    ) by {
        let a = if i < n {
            i
        } else {
            i + 1
        };
        let b = if j < n {
            j
        } else {
            j + 1
        };
        assert(less[i] == rows[a]);
        assert(less[j] == rows[b]);
        assert(K::less(rows[a].0@, rows[b].0@));
    }
}

/// A store from ordered keys to values.
pub struct OrderedStore<K: OrderedKey, V> {
    head: Head,
    rows: Vec<(K, V)>,
}

impl<K: OrderedKey, V> View for OrderedStore<K, V> {
    type V = Map<K::V, V>;

    closed spec fn view(&self) -> Map<K::V, V> {
        table::row_map(self.rows@)
    }
}

/// Where a key stands among rows.
enum Place {
    /// It is there.
    At(usize),
    /// It would stand there.
    Gap(usize),
}

impl<K: OrderedKey, V> OrderedStore<K, V> {
    /// The store's invariant: the keys ascend.
    pub closed spec fn wf(&self) -> bool {
        ascending(self.rows@)
    }

    /// The identifier, the owner, and who may use the store.
    pub closed spec fn head(&self) -> HeadView {
        self.head@
    }

    /// Whether a caller may use the store, and if not, why.
    pub open spec fn allows(&self, caller: Option<&Pid>) -> Result<(), StoreError> {
        access::access_of(self.head(), access::caller_view(caller))
    }

    /// The entries, from the smallest key to the largest.
    pub closed spec fn entries(&self) -> Seq<(K::V, V)> {
        Seq::new(self.rows@.len(), |i: int| (self.rows@[i].0@, self.rows@[i].1))
    }

    /// The entries are those of the store, with ascending keys.
    pub proof fn law_entries(&self)
        requires
            self.wf(),
        ensures
            forall|i: int, j: int|
                0 <= i < j < self.entries().len() ==> K::less(
                    (#[trigger] self.entries()[i]).0,
                    (#[trigger] self.entries()[j]).0,
                ),
            forall|i: int|
                0 <= i < self.entries().len() ==> self@.contains_key(
                    (#[trigger] self.entries()[i]).0,
                ) && self@[self.entries()[i].0] == self.entries()[i].1,
            forall|k: K::V| #[trigger]
                self@.contains_key(k) ==> self.entries().contains((k, self@[k])),
    {
        lemma_distinct(self.rows@);
        assert forall|i: int, j: int| 0 <= i < j < self.entries().len() implies K::less(
            (#[trigger] self.entries()[i]).0,
            (#[trigger] self.entries()[j]).0,
        ) by {
            assert(K::less(self.rows@[i].0@, self.rows@[j].0@));
        }
        assert forall|i: int| 0 <= i < self.entries().len() implies self@.contains_key(
            (#[trigger] self.entries()[i]).0,
        ) && self@[self.entries()[i].0] == self.entries()[i].1 by {
            table::lemma_row(self.rows@, i);
        }
        assert forall|k: K::V| #[trigger] self@.contains_key(k) implies self.entries().contains(
            (k, self@[k]),
        ) by {
            let i = table::lemma_key(self.rows@, k);
            table::lemma_row(self.rows@, i);
            assert(self.entries()[i] == (k, self@[k]));
        }
    }

    /// An empty store of an owner.
    pub fn new_with_owner(id: StoreId, owner: Pid, opts: &StoreOptions) -> (r: Self)
        ensures
            r.wf(),
            r.head() == access::first_head(id.raw(), owner@, *opts),
            r@ == Map::<K::V, V>::empty(),
            r.entries() == Seq::<(K::V, V)>::empty(),
    {
        let r = OrderedStore { head: Head::new(id, owner, opts), rows: Vec::new() };
        assert(r@ =~= Map::<K::V, V>::empty());
        assert(r.entries() =~= Seq::<(K::V, V)>::empty());
        r
    }

    /// An empty store of an owner with the default options, entered in the registry.
    pub fn new(counter: &mut u64, registry: &mut StoreRegistry, owner: Pid) -> (r: Self)
        requires
            old(registry).wf(),
        ensures
            *final(counter) == crate::distribution::manager::next_seq(*old(counter)),
            final(registry).wf(),
            final(registry).owned() == old(registry).owned().insert(*old(counter), owner@),
            final(registry).named() == old(registry).named(),
            final(registry).heirs() == old(registry).heirs().remove(*old(counter)),
            r.wf(),
            r.head() == (HeadView {
                id: *old(counter),
                owner: owner@,
                access: Access::Public,
                heir: None,
                deleted: false,
            }),
            r@ == Map::<K::V, V>::empty(),
    {
        Self::with_options(counter, registry, owner, StoreOptions::default())
    }

    /// An empty store of an owner, entered in the registry.
    pub fn with_options(
        counter: &mut u64,
        registry: &mut StoreRegistry,
        owner: Pid,
        opts: StoreOptions,
    ) -> (r: Self)
        requires
            old(registry).wf(),
        ensures
            *final(counter) == crate::distribution::manager::next_seq(*old(counter)),
            final(registry).wf(),
            final(registry).owned() == old(registry).owned().insert(*old(counter), owner@),
            final(registry).named() == (match opts.name {
                Some(n) => old(registry).named().insert(n@, *old(counter)),
                None => old(registry).named(),
            }),
            final(registry).heirs() == (match opts.heir {
                Some(heir) => old(registry).heirs().insert(*old(counter), heir@),
                None => old(registry).heirs().remove(*old(counter)),
            }),
            r.wf(),
            r.head() == access::first_head(*old(counter), owner@, opts),
            r@ == Map::<K::V, V>::empty(),
    {
        let id = StoreId::new(counter);
        let raw: u64 = id.as_raw();
        let store = Self::new_with_owner(id, owner.clone(), &opts);
        registry.register_store(raw, owner, opts.name, opts.heir);
        store
    }

    /// The identifier.
    pub fn id(&self) -> (r: StoreId)
        ensures
            r.raw() == self.head().id,
    {
        self.head.id()
    }

    /// The owner.
    pub fn owner(&self) -> (r: Pid)
        ensures
            r@ == self.head().owner,
    {
        self.head.owner()
    }

    /// Who may use the store.
    pub fn access(&self) -> (r: Access)
        ensures
            r == self.head().access,
    {
        self.head.access()
    }

    /// Whether the store has been deleted.
    pub fn is_deleted(&self) -> (r: bool)
        ensures
            r == self.head().deleted,
    {
        self.head.is_deleted()
    }

    /// Whether the caller may use the store.
    pub fn check_access(&self, caller: Option<&Pid>) -> (r: Result<(), StoreError>)
        ensures
            r == self.allows(caller),
    {
        self.head.check_access(caller)
    }

    /// Marks the store as deleted.
    pub fn mark_deleted(&mut self)
        requires
            old(self).wf(),
        ensures
            final(self).wf(),
            final(self)@ == old(self)@,
            final(self).entries() == old(self).entries(),
            final(self).head() == (HeadView { deleted: true, ..old(self).head() }),
    {
        self.head.mark_deleted();
    }

    /// Gives the store to another process, if the caller owns it.
    pub fn give_away(&mut self, caller: Option<&Pid>, to: Pid) -> (r: Result<(), StoreError>)
        requires
            old(self).wf(),
        ensures
            final(self).wf(),
            final(self)@ == old(self)@,
            final(self).entries() == old(self).entries(),
            final(self).head() == access::given(
                old(self).head(),
                access::caller_view(caller),
                to@,
            ),
            r == access::may_give(old(self).head(), access::caller_view(caller)),
            r is Ok ==> final(self).head().owner == to@,
    {
        self.head.give_away(caller, to)
    }

    /// Takes note that a process has ended: where it owned the store, its heir owns it now, or
    /// the store is deleted if there is none.
    pub fn process_ended(&mut self, pid: &Pid)
        requires
            old(self).wf(),
        ensures
            final(self).wf(),
            final(self)@ == old(self)@,
            final(self).entries() == old(self).entries(),
            final(self).head() == access::outlived(old(self).head(), pid@),
    {
        self.head.process_ended(pid);
    }

    fn place(&self, key: &K) -> (r: Place)
        requires
            self.wf(),
        ensures
            match r {
                Place::At(i) => i < self.rows@.len() && self.rows@[i as int].0@ == key@
                    && self@.contains_key(key@) && self@[key@] == self.rows@[i as int].1,
                Place::Gap(i) => i <= self.rows@.len() && !self@.contains_key(key@) && (forall|
                    j: int,
                |
                    0 <= j < i ==> K::less(#[trigger] self.rows@[j].0@, key@)) && (forall|j: int|
                    i <= j < self.rows@.len() ==> K::less(key@, #[trigger] self.rows@[j].0@)),
            },
    {
        proof {
            lemma_distinct(self.rows@);
        }
        let mut lo: usize = 0;
        let mut hi: usize = self.rows.len();
        while lo < hi
            invariant
                self.wf(),
                table::distinct_keys(self.rows@),
                lo <= hi <= self.rows@.len(),
                forall|j: int| 0 <= j < lo ==> K::less(#[trigger] self.rows@[j].0@, key@),
                forall|j: int|
                    hi <= j < self.rows@.len() ==> K::less(key@, #[trigger] self.rows@[j].0@),
            decreases hi - lo,
        {
            let mid: usize = lo + (hi - lo) / 2;
            match self.rows[mid].0.standing(key) {
                Standing::Same => {
                    proof {
                        table::lemma_row(self.rows@, mid as int);
                    }
                    return Place::At(mid);
                },
                Standing::Before => {
                    proof {
                        assert forall|j: int| 0 <= j < mid + 1 implies K::less(
                            #[trigger] self.rows@[j].0@,
                            key@,
                        ) by {
                            if j < mid {
                                assert(K::less(self.rows@[j].0@, self.rows@[mid as int].0@));
                                K::transitive(self.rows@[j].0@, self.rows@[mid as int].0@, key@);
                            }
                        }
                    }
                    lo = mid + 1;
                },
                Standing::After => {
                    proof {
                        assert forall|j: int| mid <= j < self.rows@.len() implies K::less(
                            key@,
                            #[trigger] self.rows@[j].0@,
                        ) by {
                            if mid < j {
                                assert(K::less(self.rows@[mid as int].0@, self.rows@[j].0@));
                                K::transitive(key@, self.rows@[mid as int].0@, self.rows@[j].0@);
                            }
                        }
                    }
                    hi = mid;
                },
            }
        }
        proof {
            if self@.contains_key(key@) {
                let j = table::lemma_key(self.rows@, key@);
                K::irreflexive(key@);
                if j < lo {
                    assert(K::less(self.rows@[j].0@, key@));
                } else {
                    assert(K::less(key@, self.rows@[j].0@));
                }
            }
        }
        Place::Gap(lo)
    }

    /// The value of a key, if it has one.
    pub open spec fn found(&self, key: K::V) -> Option<V> {
        if self@.contains_key(key) {
            Some(self@[key])
        } else {
            None
        }
    }

    fn put(&mut self, key: K, value: V) -> (r: (usize, Option<V>))
        requires
            old(self).wf(),
        ensures
            final(self).wf(),
            final(self).head() == old(self).head(),
            final(self)@ == old(self)@.insert(key@, value),
            r.0 < final(self).rows@.len(),
            final(self).rows@[r.0 as int].1 == value,
            r.1 == old(self).found(key@),
    {
        let ghost before = self.rows@;
        match self.place(&key) {
            Place::At(i) => {
                proof {
                    lemma_distinct(before);
                    table::lemma_set_row(before, i as int, key, value);
                }
                let ghost after = before.update(i as int, (key, value));
                let was = table::replace_row(&mut self.rows, i, (key, value));
                proof {
                    assert(self.rows@ =~= after);
                    assert forall|a: int, b: int| 0 <= a < b < after.len() implies K::less(
                        #[trigger] after[a].0@,
                        #[trigger] after[b].0@,
                    ) by {
                        assert(after[a].0@ == before[a].0@);
                        assert(after[b].0@ == before[b].0@);
                        assert(K::less(before[a].0@, before[b].0@));
                    }
                }
                (i, Some(was.1))
            },
            Place::Gap(i) => {
                proof {
                    lemma_insert_row(before, i as int, key, value);
                }
                self.rows.insert(i, (key, value));
                (i, None)
            },
        }
    }

    /// Gives a key a value; hands back the value that it had.
    pub fn insert(&mut self, caller: Option<&Pid>, key: K, value: V) -> (r: Result<
        Option<V>,
        StoreError,
    >)
        requires
            old(self).wf(),
        ensures
            final(self).wf(),
            final(self).head() == old(self).head(),
            match old(self).allows(caller) {
                Ok(_) => {
                    &&& final(self)@ == old(self)@.insert(key@, value)
                    &&& r == Ok::<Option<V>, StoreError>(old(self).found(key@))
                },
                Err(e) => final(self)@ == old(self)@ && r == Err::<Option<V>, StoreError>(e),
            },
    {
        match self.check_access(caller) {
            Ok(()) => {
                let (_, was) = self.put(key, value);
                Ok(was)
            },
            Err(e) => Err(e),
        }
    }

    /// The value of a key.
    pub fn get(&self, caller: Option<&Pid>, key: &K) -> (r: Result<Option<&V>, StoreError>)
        requires
            self.wf(),
        ensures
            match self.allows(caller) {
                Ok(_) => r matches Ok(found) && match found {
                    Some(v) => self.found(key@) == Some(*v),
                    None => self.found(key@) is None,
                },
                Err(e) => r == Err::<Option<&V>, StoreError>(e),
            },
    {
        match self.check_access(caller) {
            Ok(()) => match self.place(key) {
                Place::At(i) => Ok(Some(&self.rows[i].1)),
                Place::Gap(_) => Ok(None),
            },
            Err(e) => Err(e),
        }
    }

    /// Takes a key out; hands back its value.
    pub fn remove(&mut self, caller: Option<&Pid>, key: &K) -> (r: Result<Option<V>, StoreError>)
        requires
            old(self).wf(),
        ensures
            final(self).wf(),
            final(self).head() == old(self).head(),
            match old(self).allows(caller) {
                Ok(_) => {
                    &&& final(self)@ == old(self)@.remove(key@)
                    &&& r == Ok::<Option<V>, StoreError>(old(self).found(key@))
                },
                Err(e) => final(self)@ == old(self)@ && r == Err::<Option<V>, StoreError>(e),
            },
    {
        match self.check_access(caller) {
            Err(e) => {
                return Err(e);
            },
            Ok(()) => {},
        }
        match self.place(key) {
            Place::At(i) => {
                proof {
                    lemma_without_row(self.rows@, i as int);
                }
                let row = self.rows.remove(i);
                Ok(Some(row.1))
            },
            Place::Gap(_) => {
                assert(self@ =~= old(self)@.remove(key@));
                Ok(None)
            },
        }
    }

    /// Whether a key has a value.
    pub fn contains_key(&self, caller: Option<&Pid>, key: &K) -> (r: Result<bool, StoreError>)
        requires
            self.wf(),
        ensures
            r == (match self.allows(caller) {
                Ok(_) => Ok::<bool, StoreError>(self@.contains_key(key@)),
                Err(e) => Err(e),
            }),
    {
        match self.check_access(caller) {
            Ok(()) => match self.place(key) {
                Place::At(_) => Ok(true),
                Place::Gap(_) => Ok(false),
            },
            Err(e) => Err(e),
        }
    }

    /// Gives a key the value that a function makes of the one it has; hands back the new value.
    pub fn update<F: FnOnce(Option<V>) -> V>(&mut self, caller: Option<&Pid>, key: K, f: F) -> (r:
        Result<&V, StoreError>)
        requires
            old(self).wf(),
            old(self).allows(caller) is Ok ==> call_requires(f, (old(self).found(key@),)),
        ensures
            final(self).wf(),
            final(self).head() == old(self).head(),
            match old(self).allows(caller) {
                Ok(_) => r matches Ok(v) && call_ensures(f, (old(self).found(key@),), *v)
                    && final(self)@ == old(self)@.insert(key@, *v),
                Err(e) => final(self)@ == old(self)@ && r == Err::<&V, StoreError>(e),
            },
    {
        let was = match self.remove(caller, &key) {
            Ok(w) => w,
            Err(e) => {
                return Err(e);
            },
        };
        let value = f(was);
        let (i, _) = self.put(key, value);
        assert(self@ =~= old(self)@.insert(key@, value));
        Ok(&self.rows[i].1)
    }

    /// The entries of a map with some more: of two with the same key the last one counts.
    pub open spec fn with_all(m: Map<K::V, V>, items: Seq<(K, V)>) -> Map<K::V, V>
        decreases items.len(),
    {
        if items.len() == 0 {
            m
        } else {
            Self::with_all(m, items.drop_last()).insert(items.last().0@, items.last().1)
        }
    }

    /// Gives keys values, one after the other.
    pub fn insert_many(&mut self, caller: Option<&Pid>, items: Vec<(K, V)>) -> (r: Result<
        (),
        StoreError,
    >)
        requires
            old(self).wf(),
        ensures
            final(self).wf(),
            final(self).head() == old(self).head(),
            r == old(self).allows(caller),
            final(self)@ == (match old(self).allows(caller) {
                Ok(_) => Self::with_all(old(self)@, items@),
                Err(_) => old(self)@,
            }),
    {
        match self.check_access(caller) {
            Err(e) => {
                return Err(e);
            },
            Ok(()) => {},
        }
        let ghost all = items@;
        assert(all.take(0) =~= Seq::empty());
        for item in it: items
            invariant
                it.seq() == all,
                self.wf(),
                self.head() == old(self).head(),
                self@ == Self::with_all(old(self)@, all.take(it.index() as int)),
        {
            proof {
                assert(all.take(it.index() + 1).drop_last() =~= all.take(it.index() as int));
                assert(all.take(it.index() + 1).last() == all[it.index() as int]);
            }
            self.put(item.0, item.1);
        }
        assert(all.take(all.len() as int) =~= all);
        Ok(())
    }

    fn pick(&self, indexes: &Vec<usize>) -> (r: Vec<(K, &V)>)
        requires
            forall|i: int| 0 <= i < indexes@.len() ==> (#[trigger] indexes@[i]) < self.rows@.len(),
        ensures
            shown(r@) == Seq::new(
                indexes@.len(),
                |i: int| self.entries()[indexes@[i] as int],
            ),
    {
        let mut out: Vec<(K, &V)> = Vec::new();
        let mut i: usize = 0;
        while i < indexes.len()
            invariant
                i <= indexes@.len(),
                forall|j: int|
                    0 <= j < indexes@.len() ==> (#[trigger] indexes@[j]) < self.rows@.len(),
                out@.len() == i,
                forall|j: int|
                    0 <= j < i ==> (#[trigger] out@[j]).0@ == self.rows@[indexes@[j] as int].0@
                        && *out@[j].1 == self.rows@[indexes@[j] as int].1,
            decreases indexes@.len() - i,
        {
            let n: usize = indexes[i];
            out.push((self.rows[n].0.dup(), &self.rows[n].1));
            i = i + 1;
        }
        assert(shown(out@) =~= Seq::new(
            indexes@.len(),
            |i: int| self.entries()[indexes@[i] as int],
        ));
        out
    }

    fn hits(&self, lo: &Bound<K>, hi: &Bound<K>) -> (r: Vec<usize>)
        ensures
            forall|i: int| 0 <= i < r@.len() ==> (#[trigger] r@[i]) < self.rows@.len(),
            Seq::new(r@.len(), |i: int| self.entries()[r@[i] as int]) == self.entries().filter(
                in_range::<K, V>(*lo, *hi),
            ),
    {
        let ghost all = self.entries();
        let ghost p = in_range::<K, V>(*lo, *hi);
        let mut out: Vec<usize> = Vec::new();
        let mut i: usize = 0;
        proof {
            reveal(Seq::filter);
            assert(all.take(0) =~= Seq::empty());
            assert(Seq::new(out@.len(), |i: int| all[out@[i] as int]) =~= all.take(0).filter(p));
        }
        while i < self.rows.len()
            invariant
                i <= self.rows@.len(),
                all == self.entries(),
                p == in_range::<K, V>(*lo, *hi),
                forall|j: int| 0 <= j < out@.len() ==> (#[trigger] out@[j]) < self.rows@.len(),
                Seq::new(out@.len(), |j: int| all[out@[j] as int]) == all.take(i as int).filter(p),
            decreases self.rows@.len() - i,
        {
            let ghost before = out@;
            proof {
                assert(all.take(i + 1) =~= all.take(i as int).push(all[i as int]));
                all.take(i as int).lemma_filter_push(all[i as int], p);
            }
            let key = &self.rows[i].0;
            let ghost k = key@;
            let up = match lo {
                Bound::Included(b) => key.standing(b) != Standing::Before,
                Bound::Excluded(b) => key.standing(b) == Standing::After,
                Bound::Unbounded => true,
            };
            let down = match hi {
                Bound::Included(b) => key.standing(b) != Standing::After,
                Bound::Excluded(b) => key.standing(b) == Standing::Before,
                Bound::Unbounded => true,
            };
            proof {
                match lo {
                    Bound::Included(b) => lemma_standing::<K>(k, b@),
                    Bound::Excluded(b) => lemma_standing::<K>(k, b@),
                    Bound::Unbounded => {},
                }
                match hi {
                    Bound::Included(b) => lemma_standing::<K>(k, b@),
                    Bound::Excluded(b) => lemma_standing::<K>(k, b@),
                    Bound::Unbounded => {},
                }
                assert(p(all[i as int]) == (up && down));
            }
            if up && down {
                out.push(i);
                assert(Seq::new(out@.len(), |j: int| all[out@[j] as int]) =~= Seq::new(
                    before.len(),
                    |j: int| all[before[j] as int],
                ).push(all[i as int]));
            }
            i = i + 1;
        }
        assert(all.take(all.len() as int) =~= all);
        out
    }

    /// The keys, from the smallest to the largest.
    pub fn keys(&self, caller: Option<&Pid>) -> (r: Result<Vec<K>, StoreError>)
        requires
            self.wf(),
        ensures
            match self.allows(caller) {
                Ok(_) => r matches Ok(keys) && keys@.len() == self.entries().len() && forall|i: int|
                    0 <= i < keys@.len() ==> (#[trigger] keys@[i])@ == self.entries()[i].0,
                Err(e) => r == Err::<Vec<K>, StoreError>(e),
            },
    {
        match self.check_access(caller) {
            Err(e) => {
                return Err(e);
            },
            Ok(()) => {},
        }
        let mut out: Vec<K> = Vec::new();
        let mut i: usize = 0;
        while i < self.rows.len()
            invariant
                i <= self.rows@.len(),
                out@.len() == i,
                forall|j: int| 0 <= j < i ==> (#[trigger] out@[j])@ == self.rows@[j].0@,
            decreases self.rows@.len() - i,
        {
            out.push(self.rows[i].0.dup());
            i = i + 1;
        }
        Ok(out)
    }

    /// The values, from that of the smallest key to that of the largest.
    pub fn values(&self, caller: Option<&Pid>) -> (r: Result<Vec<&V>, StoreError>)
        requires
            self.wf(),
        ensures
            match self.allows(caller) {
                Ok(_) => r matches Ok(values) && values@.len() == self.entries().len() && forall|
                    i: int,
                |
                    0 <= i < values@.len() ==> *(#[trigger] values@[i]) == self.entries()[i].1,
                Err(e) => r == Err::<Vec<&V>, StoreError>(e),
            },
    {
        match self.check_access(caller) {
            Err(e) => {
                return Err(e);
            },
            Ok(()) => {},
        }
        let mut out: Vec<&V> = Vec::new();
        let mut i: usize = 0;
        while i < self.rows.len()
            invariant
                i <= self.rows@.len(),
                out@.len() == i,
                forall|j: int| 0 <= j < i ==> *(#[trigger] out@[j]) == self.rows@[j].1,
            decreases self.rows@.len() - i,
        {
            out.push(&self.rows[i].1);
            i = i + 1;
        }
        Ok(out)
    }

    /// The entries, from the smallest key to the largest.
    pub fn iter(&self, caller: Option<&Pid>) -> (r: Result<Vec<(K, &V)>, StoreError>)
        requires
            self.wf(),
        ensures
            match self.allows(caller) {
                Ok(_) => r matches Ok(found) && shown(found@) == self.entries(),
                Err(e) => r == Err::<Vec<(K, &V)>, StoreError>(e),
            },
    {
        match self.check_access(caller) {
            Err(e) => {
                return Err(e);
            },
            Ok(()) => {},
        }
        let mut all: Vec<usize> = Vec::new();
        let mut i: usize = 0;
        while i < self.rows.len()
            invariant
                i <= self.rows@.len(),
                all@.len() == i,
                forall|j: int| 0 <= j < i ==> #[trigger] all@[j] == j,
            decreases self.rows@.len() - i,
        {
            all.push(i);
            i = i + 1;
        }
        let out = self.pick(&all);
        assert(shown(out@) =~= self.entries());
        Ok(out)
    }

    /// The number of entries.
    pub fn len(&self, caller: Option<&Pid>) -> (r: Result<usize, StoreError>)
        requires
            self.wf(),
        ensures
            match self.allows(caller) {
                Ok(_) => r matches Ok(n) && n == self.entries().len(),
                Err(e) => r == Err::<usize, StoreError>(e),
            },
    {
        match self.check_access(caller) {
            Ok(()) => Ok(self.rows.len()),
            Err(e) => Err(e),
        }
    }

    /// Whether there is no entry.
    pub fn is_empty(&self, caller: Option<&Pid>) -> (r: Result<bool, StoreError>)
        requires
            self.wf(),
        ensures
            match self.allows(caller) {
                Ok(_) => r matches Ok(b) && b == (self.entries().len() == 0),
                Err(e) => r == Err::<bool, StoreError>(e),
            },
    {
        match self.check_access(caller) {
            Ok(()) => Ok(self.rows.len() == 0),
            Err(e) => Err(e),
        }
    }

    /// Takes all entries out.
    pub fn clear(&mut self, caller: Option<&Pid>) -> (r: Result<(), StoreError>)
        requires
            old(self).wf(),
        ensures
            final(self).wf(),
            final(self).head() == old(self).head(),
            r == old(self).allows(caller),
            final(self)@ == (match old(self).allows(caller) {
                Ok(_) => Map::<K::V, V>::empty(),
                Err(_) => old(self)@,
            }),
    {
        match self.check_access(caller) {
            Err(e) => {
                return Err(e);
            },
            Ok(()) => {},
        }
        self.rows = Vec::new();
        assert(self@ =~= Map::<K::V, V>::empty());
        Ok(())
    }

    /// The entry with the smallest key.
    pub fn first(&self, caller: Option<&Pid>) -> (r: Result<Option<(K, &V)>, StoreError>)
        requires
            self.wf(),
        ensures
            match self.allows(caller) {
                Ok(_) => if self.entries().len() == 0 {
                    r matches Ok(None)
                } else {
                    r matches Ok(Some((k, v))) && (k@, *v) == self.entries().first()
                },
                Err(e) => r == Err::<Option<(K, &V)>, StoreError>(e),
            },
    {
        match self.check_access(caller) {
            Err(e) => {
                return Err(e);
            },
            Ok(()) => {},
        }
        if self.rows.len() == 0 {
            Ok(None)
        } else {
            Ok(Some((self.rows[0].0.dup(), &self.rows[0].1)))
        }
    }

    /// The entry with the largest key.
    pub fn last(&self, caller: Option<&Pid>) -> (r: Result<Option<(K, &V)>, StoreError>)
        requires
            self.wf(),
        ensures
            match self.allows(caller) {
                Ok(_) => if self.entries().len() == 0 {
                    r matches Ok(None)
                } else {
                    r matches Ok(Some((k, v))) && (k@, *v) == self.entries().last()
                },
                Err(e) => r == Err::<Option<(K, &V)>, StoreError>(e),
            },
    {
        match self.check_access(caller) {
            Err(e) => {
                return Err(e);
            },
            Ok(()) => {},
        }
        let n: usize = self.rows.len();
        if n == 0 {
            Ok(None)
        } else {
            Ok(Some((self.rows[n - 1].0.dup(), &self.rows[n - 1].1)))
        }
    }

    /// Takes out the entry with the smallest key.
    pub fn pop_first(&mut self, caller: Option<&Pid>) -> (r: Result<Option<(K, V)>, StoreError>)
        requires
            old(self).wf(),
        ensures
            final(self).wf(),
            final(self).head() == old(self).head(),
            match old(self).allows(caller) {
                Ok(_) => if old(self).entries().len() == 0 {
                    (r matches Ok(None)) && final(self)@ == old(self)@
                } else {
                    &&& r matches Ok(Some((k, v))) && (k@, v) == old(self).entries().first()
                    &&& final(self).entries() == old(self).entries().drop_first()
                    &&& final(self)@ == old(self)@.remove(old(self).entries().first().0)
                },
                Err(e) => final(self)@ == old(self)@ && r == Err::<Option<(K, V)>, StoreError>(e),
            },
    {
        match self.check_access(caller) {
            Err(e) => {
                return Err(e);
            },
            Ok(()) => {},
        }
        if self.rows.len() == 0 {
            return Ok(None);
        }
        proof {
            lemma_without_row(self.rows@, 0);
        }
        let row = self.rows.remove(0);
        assert(self.entries() =~= old(self).entries().drop_first());
        Ok(Some(row))
    }

    /// Takes out the entry with the largest key.
    pub fn pop_last(&mut self, caller: Option<&Pid>) -> (r: Result<Option<(K, V)>, StoreError>)
        requires
            old(self).wf(),
        ensures
            final(self).wf(),
            final(self).head() == old(self).head(),
            match old(self).allows(caller) {
                Ok(_) => if old(self).entries().len() == 0 {
                    (r matches Ok(None)) && final(self)@ == old(self)@
                } else {
                    &&& r matches Ok(Some((k, v))) && (k@, v) == old(self).entries().last()
                    &&& final(self).entries() == old(self).entries().drop_last()
                    &&& final(self)@ == old(self)@.remove(old(self).entries().last().0)
                },
                Err(e) => final(self)@ == old(self)@ && r == Err::<Option<(K, V)>, StoreError>(e),
            },
    {
        match self.check_access(caller) {
            Err(e) => {
                return Err(e);
            },
            Ok(()) => {},
        }
        let n: usize = self.rows.len();
        if n == 0 {
            return Ok(None);
        }
        proof {
            lemma_without_row(self.rows@, n - 1);
        }
        let row = self.rows.remove(n - 1);
        assert(self.entries() =~= old(self).entries().drop_last());
        Ok(Some(row))
    }

    /// The first entries of a range, at most `limit` of them.
    pub fn range(&self, caller: Option<&Pid>, lo: &Bound<K>, hi: &Bound<K>, limit: usize) -> (r:
        Result<Vec<(K, &V)>, StoreError>)
        requires
            self.wf(),
            self.allows(caller) is Ok ==> is_range(*lo, *hi),
        ensures
            match self.allows(caller) {
                Ok(_) => r matches Ok(found) && shown(found@) == at_most(
                    self.entries().filter(in_range::<K, V>(*lo, *hi)),
                    limit as nat,
                ),
                Err(e) => r == Err::<Vec<(K, &V)>, StoreError>(e),
            },
    {
        match self.check_access(caller) {
            Err(e) => {
                return Err(e);
            },
            Ok(()) => {},
        }
        let mut hits = self.hits(lo, hi);
        let ghost all = Seq::new(hits@.len(), |i: int| self.entries()[hits@[i] as int]);
        hits.truncate(limit);
        let out = self.pick(&hits);
        assert(shown(out@) =~= at_most(all, limit as nat));
        Ok(out)
    }

    /// The last entries of a range, at most `limit` of them, from the largest key downwards.
    pub fn range_rev(&self, caller: Option<&Pid>, lo: &Bound<K>, hi: &Bound<K>, limit: usize) -> (r:
        Result<Vec<(K, &V)>, StoreError>)
        requires
            self.wf(),
            self.allows(caller) is Ok ==> is_range(*lo, *hi),
        ensures
            match self.allows(caller) {
                Ok(_) => r matches Ok(found) && shown(found@) == at_most(
                    self.entries().filter(in_range::<K, V>(*lo, *hi)).reverse(),
                    limit as nat,
                ),
                Err(e) => r == Err::<Vec<(K, &V)>, StoreError>(e),
            },
    {
        match self.check_access(caller) {
            Err(e) => {
                return Err(e);
            },
            Ok(()) => {},
        }
        let hits = self.hits(lo, hi);
        let ghost all = Seq::new(hits@.len(), |i: int| self.entries()[hits@[i] as int]);
        let mut back: Vec<usize> = Vec::new();
        let mut i: usize = hits.len();
        while i > 0 && back.len() < limit
            invariant
                i <= hits@.len(),
                back@.len() == hits@.len() - i,
                back@.len() <= limit,
                forall|j: int|
                    0 <= j < back@.len() ==> #[trigger] back@[j] == hits@[hits@.len() - 1 - j],
            decreases i,
        {
            i = i - 1;
            back.push(hits[i]);
        }
        proof {
            assert forall|j: int| 0 <= j < back@.len() implies (#[trigger] back@[j])
                < self.rows@.len() by {
                assert(back@[j] == hits@[hits@.len() - 1 - j]);
            }
        }
        let out = self.pick(&back);
        assert(shown(out@) =~= at_most(all.reverse(), limit as nat));
        Ok(out)
    }

    /// The number of entries of a range.
    pub fn range_count(&self, caller: Option<&Pid>, lo: &Bound<K>, hi: &Bound<K>) -> (r: Result<
        usize,
        StoreError,
    >)
        requires
            self.wf(),
            self.allows(caller) is Ok ==> is_range(*lo, *hi),
        ensures
            match self.allows(caller) {
                Ok(_) => r matches Ok(n) && n == self.entries().filter(
                    in_range::<K, V>(*lo, *hi),
                ).len(),
                Err(e) => r == Err::<usize, StoreError>(e),
            },
    {
        match self.check_access(caller) {
            Ok(()) => Ok(self.hits(lo, hi).len()),
            Err(e) => Err(e),
        }
    }

    /// Asks of each entry whether it stays, and takes out those that do not. The test may change
    /// the values that stay.
    pub fn retain<F: Fn(&K, &mut V) -> bool>(&mut self, caller: Option<&Pid>, f: F) -> (r: Result<
        (),
        StoreError,
    >)
        requires
            old(self).wf(),
            forall|k: &K, v: &mut V| call_requires(f, (k, v)),
        ensures
            final(self).wf(),
            final(self).head() == old(self).head(),
            r == old(self).allows(caller),
            match old(self).allows(caller) {
                Ok(_) => {
                    &&& forall|k: K::V| #[trigger]
                        final(self)@.contains_key(k) ==> old(self)@.contains_key(k)
                    &&& forall|k: K::V| #[trigger]
                        old(self)@.contains_key(k) ==> exists|key: &K, v: &mut V, stays: bool|
                            #[trigger] call_ensures(f, (key, v), stays) && key@ == k
                                && *v == old(self)@[k]
                                && final(self)@.contains_key(k) == stays
                                && (stays ==> final(self)@[k] == *final(v))
                },
                Err(_) => final(self)@ == old(self)@,
            },
    {
        match self.check_access(caller) {
            Err(e) => {
                return Err(e);
            },
            Ok(()) => {},
        }
        let ghost start = self@;
        let ghost rows = self.rows@;
        proof {
            lemma_distinct(rows);
        }
        let mut i: usize = 0;
        let ghost mut done: int = 0;
        while i < self.rows.len()
            invariant
                self.wf(),
                self.head() == old(self).head(),
                ascending(rows),
                table::distinct_keys(rows),
                start == table::row_map(rows),
                forall|k: &K, v: &mut V| call_requires(f, (k, v)),
                i <= self.rows@.len(),
                0 <= done <= rows.len(),
                self.rows@.len() - i == rows.len() - done,
                self.rows@.skip(i as int) == rows.skip(done),
                forall|k: K::V| #[trigger] self@.contains_key(k) ==> start.contains_key(k),
                forall|j: int|
                    0 <= j < done && start.contains_key(#[trigger] rows[j].0@) ==> exists|
                        key: &K,
                        v: &mut V,
                        stays: bool,
                    | #[trigger]
                        call_ensures(f, (key, v), stays) && key@ == rows[j].0@ && *v == rows[j].1
                            && self@.contains_key(rows[j].0@) == stays && (stays
                            ==> self@[rows[j].0@] == *final(v)),
            decreases rows.len() - done,
        {
            let ghost before = self.rows@;
            let ghost map = self@;
            let ghost name = rows[done].0@;
            proof {
                assert(before.skip(i as int)[0] == before[i as int]);
                assert(rows.skip(done)[0] == rows[done]);
                assert(before[i as int] == rows[done]);
                lemma_distinct(before);
                table::lemma_row(before, i as int);
                lemma_without_row(before, i as int);
            }
            let (key, value) = self.rows.remove(i);
            let mut value = value;
            let stays = f(&key, &mut value);
            let ghost now = value;
            proof {
                assert(exists|k: &K, v: &mut V|
                    #[trigger] call_ensures(f, (k, v), stays) && k@ == name && *v == rows[done].1
                        && *final(v) == now);
            }
            if stays {
                self.rows.insert(i, (key, value));
                proof {
                    lemma_new_value(before, self.rows@, i as int);
                }
                i = i + 1;
                proof {
                    assert(self.rows@.skip(i as int) =~= rows.skip(done + 1)) by {
                        assert forall|j: int| 0 <= j < rows.len() - done - 1 implies self.rows@.skip(
                            i as int,
                        )[j] == rows.skip(done + 1)[j] by {
                            assert(before.skip(i - 1)[j + 1] == rows.skip(done)[j + 1]);
                        }
                    }
                }
            } else {
                proof {
                    assert(self.rows@.skip(i as int) =~= rows.skip(done + 1)) by {
                        assert forall|j: int| 0 <= j < rows.len() - done
                            - 1 implies self.rows@.skip(i as int)[j] == rows.skip(done + 1)[j] by {
                            assert(before.skip(i as int)[j + 1] == rows.skip(done)[j + 1]);
                        }
                    }
                }
            }
            proof {
                assert forall|k: K::V| k != name implies #[trigger] self@.contains_key(k)
                    == map.contains_key(k) && (map.contains_key(k) ==> self@[k] == map[k]) by {}
                assert forall|j: int|
                    0 <= j < done + 1 && start.contains_key(#[trigger] rows[j].0@) implies exists|
                        key: &K,
                        v: &mut V,
                        stays: bool,
                    | #[trigger]
                        call_ensures(f, (key, v), stays) && key@ == rows[j].0@ && *v == rows[j].1
                            && self@.contains_key(rows[j].0@) == stays && (stays
                            ==> self@[rows[j].0@] == *final(v)) by {
                    if j < done {
                        assert(rows[j].0@ != name);
                        assert(self@.contains_key(rows[j].0@) == map.contains_key(rows[j].0@));
                    }
                }
                done = done + 1;
            }
        }
        proof {
            assert forall|k: K::V| #[trigger] start.contains_key(k) implies exists|
                key: &K,
                v: &mut V,
                stays: bool,
            | #[trigger]
                call_ensures(f, (key, v), stays) && key@ == k && *v == start[k]
                    && self@.contains_key(k) == stays && (stays ==> self@[k] == *final(v)) by {
                let j = table::lemma_key(rows, k);
                table::lemma_row(rows, j);
                assert(start.contains_key(rows[j].0@));
            }
        }
        Ok(())
    }
}

/// What entries that are handed out stand for.
pub open spec fn shown<K: OrderedKey, V>(s: Seq<(K, &V)>) -> Seq<(K::V, V)> {
    Seq::new(s.len(), |i: int| (s[i].0@, *s[i].1))
}

/// How two keys can stand to each other: in exactly one way.
proof fn lemma_standing<K: OrderedKey>(a: K::V, b: K::V)
    ensures
        K::less(a, b) ==> a != b && !K::less(b, a),
        K::less(b, a) ==> a != b && !K::less(a, b),
        a == b ==> !K::less(a, b) && !K::less(b, a),
        K::less(a, b) || a == b || K::less(b, a),
{
    K::total(a, b);
    K::irreflexive(a);
    K::irreflexive(b);
    if K::less(a, b) && K::less(b, a) {
        K::transitive(a, b, a);
    }
}

/// What was put under a key is found there, and no more once the key was taken out; other keys
/// are not touched. `put` is the store after `insert`, and `gone` that one after `remove`.
pub proof fn law_get_finds_what_was_put<K: OrderedKey, V>(
    before: OrderedStore<K, V>,
    put: OrderedStore<K, V>,
    gone: OrderedStore<K, V>,
    k: K::V,
    v: V,
    other: K::V,
)
    requires
        put@ == before@.insert(k, v),
        gone@ == put@.remove(k),
        other != k,
    ensures
        put.found(k) == Some(v),
        gone.found(k) is None,
        put.found(other) == before.found(other),
        gone.found(other) == before.found(other),
{
}

} // verus!
