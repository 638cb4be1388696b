//! The store whose entries have no order.

use vstd::prelude::*;

use crate::names::NameTable;
use crate::process::Pid;
use crate::store::access;
use crate::store::access::{Access, Head, HeadView, StoreError, StoreId, StoreOptions};
use crate::store::registry::StoreRegistry;
use crate::table;

verus! {

/// A store from names to values, found through a concurrent hash map.
pub struct Store<V> {
    head: Head,
    data: NameTable<V>,
}

impl<V> View for Store<V> {
    type V = Map<Seq<char>, V>;

    closed spec fn view(&self) -> Map<Seq<char>, V> {
        self.data@
    }
}

impl<V> Store<V> {
    /// The store's invariant.
    pub closed spec fn wf(&self) -> bool {
        self.data.wf()
    }

    /// The identifier, the owner, and who may use the store.
    pub closed spec fn head(&self) -> HeadView {
        self.head@
    }

    /// Whether a caller may use the store, and if not, why.
    pub open spec fn allows(&self, caller: Option<&Pid>) -> Result<(), StoreError> {
        access::access_of(self.head(), access::caller_view(caller))
    }

    /// The keys in the order in which they are walked.
    pub closed spec fn order(&self) -> Seq<Seq<char>> {
        self.data.names()
    }

    /// Each key is walked once.
    pub proof fn law_order(&self)
        requires
            self.wf(),
        ensures
            self.order().no_duplicates(),
            forall|k: Seq<char>| self.order().contains(k) <==> #[trigger] self@.contains_key(k),
    {
        self.data.law_names();
    }

    /// An empty store of an owner.
    pub fn new_with_owner(id: StoreId, owner: Pid, opts: &StoreOptions) -> (r: Self)
        ensures
            r.wf(),
            r.head() == access::first_head(id.raw(), owner@, *opts),
            r@ == Map::<Seq<char>, V>::empty(),
    {
        Store { head: Head::new(id, owner, opts), data: NameTable::new() }
    }

    /// An empty store of an owner with the default options, entered in the registry.
    pub fn new(counter: &mut u64, registry: &mut StoreRegistry, owner: Pid) -> (r: Self)
        requires
            old(registry).wf(),
        ensures
            *final(counter) == crate::distribution::manager::next_seq(*old(counter)),
            final(registry).wf(),
            final(registry).owned() == old(registry).owned().insert(*old(counter), owner@),
            final(registry).named() == old(registry).named(),
            final(registry).heirs() == old(registry).heirs().remove(*old(counter)),
            r.wf(),
            r.head() == (HeadView {
                id: *old(counter),
                owner: owner@,
                access: Access::Public,
                heir: None,
                deleted: false,
            }),
            r@ == Map::<Seq<char>, V>::empty(),
    {
        Self::with_options(counter, registry, owner, StoreOptions::default())
    }

    /// An empty store of an owner, entered in the registry.
    pub fn with_options(
        counter: &mut u64,
        registry: &mut StoreRegistry,
        owner: Pid,
        opts: StoreOptions,
    ) -> (r: Self)
        requires
            old(registry).wf(),
        ensures
            *final(counter) == crate::distribution::manager::next_seq(*old(counter)),
            final(registry).wf(),
            final(registry).owned() == old(registry).owned().insert(*old(counter), owner@),
            final(registry).named() == (match opts.name {
                Some(n) => old(registry).named().insert(n@, *old(counter)),
                None => old(registry).named(),
            }),
            final(registry).heirs() == (match opts.heir {
                Some(heir) => old(registry).heirs().insert(*old(counter), heir@),
                None => old(registry).heirs().remove(*old(counter)),
            }),
            r.wf(),
            r.head() == access::first_head(*old(counter), owner@, opts),
            r@ == Map::<Seq<char>, V>::empty(),
    {
        let id = StoreId::new(counter);
        let raw: u64 = id.as_raw();
        let store = Self::new_with_owner(id, owner.clone(), &opts);
        registry.register_store(raw, owner, opts.name, opts.heir);
        store
    }

    /// The identifier.
    pub fn id(&self) -> (r: StoreId)
        ensures
            r.raw() == self.head().id,
    {
        self.head.id()
    }

    /// The owner.
    pub fn owner(&self) -> (r: Pid)
        ensures
            r@ == self.head().owner,
    {
        self.head.owner()
    }

    /// Who may use the store.
    pub fn access(&self) -> (r: Access)
        ensures
            r == self.head().access,
    {
        self.head.access()
    }

    /// Whether the store has been deleted.
    pub fn is_deleted(&self) -> (r: bool)
        ensures
            r == self.head().deleted,
    {
        self.head.is_deleted()
    }

    /// Whether the caller may use the store.
    pub fn check_access(&self, caller: Option<&Pid>) -> (r: Result<(), StoreError>)
        ensures
            r == self.allows(caller),
    {
        self.head.check_access(caller)
    }

    /// Marks the store as deleted.
    pub fn mark_deleted(&mut self)
        requires
            old(self).wf(),
        ensures
            final(self).wf(),
            final(self)@ == old(self)@,
            final(self).head() == (HeadView { deleted: true, ..old(self).head() }),
    {
        self.head.mark_deleted();
    }

    /// Gives the store to another process, if the caller owns it.
    pub fn give_away(&mut self, caller: Option<&Pid>, to: Pid) -> (r: Result<(), StoreError>)
        requires
            old(self).wf(),
        ensures
            final(self).wf(),
            final(self)@ == old(self)@,
            final(self).head() == access::given(
                old(self).head(),
                access::caller_view(caller),
                to@,
            ),
            r == access::may_give(old(self).head(), access::caller_view(caller)),
            r is Ok ==> final(self).head().owner == to@,
    {
        self.head.give_away(caller, to)
    }

    /// Takes note that a process has ended: where it owned the store, its heir owns it now, or
    /// the store is deleted if there is none.
    pub fn process_ended(&mut self, pid: &Pid)
        requires
            old(self).wf(),
        ensures
            final(self).wf(),
            final(self)@ == old(self)@,
            final(self).head() == access::outlived(old(self).head(), pid@),
    {
        self.head.process_ended(pid);
    }

    /// Gives a key a value; hands back the value that it had.
    pub fn insert(&mut self, caller: Option<&Pid>, key: String, value: V) -> (r: Result<
        Option<V>,
        StoreError,
    >)
        requires
            old(self).wf(),
        ensures
            final(self).wf(),
            final(self).head() == old(self).head(),
            match old(self).allows(caller) {
                Ok(_) => {
                    &&& final(self)@ == old(self)@.insert(key@, value)
                    &&& r == Ok::<Option<V>, StoreError>(old(self).found(key@))
                },
                Err(e) => final(self)@ == old(self)@ && r == Err::<Option<V>, StoreError>(e),
            },
    {
        match self.check_access(caller) {
            Ok(()) => Ok(self.data.insert(key, value)),
            Err(e) => Err(e),
        }
    }

    /// The value of a key.
    pub fn get(&self, caller: Option<&Pid>, key: &str) -> (r: Result<Option<&V>, StoreError>)
        requires
            self.wf(),
        ensures
            match self.allows(caller) {
                Ok(_) => r matches Ok(found) && match found {
                    Some(v) => self.found(key@) == Some(*v),
                    None => self.found(key@) is None,
                },
                Err(e) => r == Err::<Option<&V>, StoreError>(e),
            },
    {
        match self.check_access(caller) {
            Ok(()) => Ok(self.data.get(key)),
            Err(e) => Err(e),
        }
    }

    /// Takes a key out; hands back its value.
    pub fn remove(&mut self, caller: Option<&Pid>, key: &str) -> (r: Result<Option<V>, StoreError>)
        requires
            old(self).wf(),
        ensures
            final(self).wf(),
            final(self).head() == old(self).head(),
            match old(self).allows(caller) {
                Ok(_) => {
                    &&& final(self)@ == old(self)@.remove(key@)
                    &&& r == Ok::<Option<V>, StoreError>(old(self).found(key@))
                },
                Err(e) => final(self)@ == old(self)@ && r == Err::<Option<V>, StoreError>(e),
            },
    {
        match self.check_access(caller) {
            Ok(()) => Ok(self.data.remove(key)),
            Err(e) => Err(e),
        }
    }

    /// Whether a key has a value.
    pub fn contains_key(&self, caller: Option<&Pid>, key: &str) -> (r: Result<bool, StoreError>)
        requires
            self.wf(),
        ensures
            r == (match self.allows(caller) {
                Ok(_) => Ok::<bool, StoreError>(self@.contains_key(key@)),
                Err(e) => Err(e),
            }),
    {
        match self.check_access(caller) {
            Ok(()) => Ok(self.data.contains_key(key)),
            Err(e) => Err(e),
        }
    }

    /// The value of a key, if it has one.
    pub open spec fn found(&self, key: Seq<char>) -> Option<V> {
        if self@.contains_key(key) {
            Some(self@[key])
        } else {
            None
        }
    }

    /// Gives a key the value that a function makes of the one it has; hands back the new value.
    pub fn update<F: FnOnce(Option<V>) -> V>(&mut self, caller: Option<&Pid>, key: String, f: F)
        -> (r: Result<&V, StoreError>)
        requires
            old(self).wf(),
            old(self).allows(caller) is Ok ==> call_requires(f, (old(self).found(key@),)),
        ensures
            final(self).wf(),
            final(self).head() == old(self).head(),
            match old(self).allows(caller) {
                Ok(_) => r matches Ok(v) && call_ensures(f, (old(self).found(key@),), *v)
                    && final(self)@ == old(self)@.insert(key@, *v),
                Err(e) => final(self)@ == old(self)@ && r == Err::<&V, StoreError>(e),
            },
    {
        match self.check_access(caller) {
            Err(e) => {
                return Err(e);
            },
            Ok(()) => {},
        }
        let was = self.data.remove(key.as_str());
        let new_value = f(was);
        let name = key.clone();
        self.data.insert(key, new_value);
        assert(self@ =~= old(self)@.insert(key@, new_value));
        match self.data.get(name.as_str()) {
            Some(v) => Ok(v),
            None => Err(StoreError::NotFound),
        }
    }

    /// The value of a key, which is given a value first if it has none.
    pub fn get_or_insert(&mut self, caller: Option<&Pid>, key: String, default: V) -> (r: Result<
        &V,
        StoreError,
    >)
        requires
            old(self).wf(),
        ensures
            final(self).wf(),
            final(self).head() == old(self).head(),
            match old(self).allows(caller) {
                Ok(_) => if old(self)@.contains_key(key@) {
                    r matches Ok(v) && *v == old(self)@[key@] && final(self)@ == old(self)@
                } else {
                    r matches Ok(v) && *v == default && final(self)@ == old(self)@.insert(
                        key@,
                        default,
                    )
                },
                Err(e) => final(self)@ == old(self)@ && r == Err::<&V, StoreError>(e),
            },
    {
        match self.check_access(caller) {
            Err(e) => {
                return Err(e);
            },
            Ok(()) => {},
        }
        let name = key.clone();
        if !self.data.contains_key(name.as_str()) {
            self.data.insert(key, default);
        }
        match self.data.get(name.as_str()) {
            Some(v) => Ok(v),
            None => Err(StoreError::NotFound),
        }
    }

    /// The value of a key, which is given one that a function makes first if it has none.
    pub fn get_or_insert_with<F: FnOnce() -> V>(&mut self, caller: Option<&Pid>, key: String, f: F)
        -> (r: Result<&V, StoreError>)
        requires
            old(self).wf(),
            old(self).allows(caller) is Ok && !old(self)@.contains_key(key@) ==> call_requires(
                f,
                (),
            ),
        ensures
            final(self).wf(),
            final(self).head() == old(self).head(),
            match old(self).allows(caller) {
                Ok(_) => if old(self)@.contains_key(key@) {
                    r matches Ok(v) && *v == old(self)@[key@] && final(self)@ == old(self)@
                } else {
                    r matches Ok(v) && call_ensures(f, (), *v) && final(self)@ == old(self)@.insert(key@, *v)
                },
                Err(e) => final(self)@ == old(self)@ && r == Err::<&V, StoreError>(e),
            },
    {
        match self.check_access(caller) {
            Err(e) => {
                return Err(e);
            },
            Ok(()) => {},
        }
        let name = key.clone();
        if !self.data.contains_key(name.as_str()) {
            let value = f();
            self.data.insert(key, value);
        }
        match self.data.get(name.as_str()) {
            Some(v) => Ok(v),
            None => Err(StoreError::NotFound),
        }
    }

    /// The entries of a map with some more: of two with the same key the last one counts.
    pub open spec fn with_all(m: Map<Seq<char>, V>, items: Seq<(String, V)>) -> Map<Seq<char>, V>
        decreases items.len(),
    {
        if items.len() == 0 {
            m
        } else {
            Self::with_all(m, items.drop_last()).insert(items.last().0@, items.last().1)
        }
    }

    /// Gives keys values, one after the other.
    pub fn insert_many(&mut self, caller: Option<&Pid>, items: Vec<(String, V)>) -> (r: Result<
        (),
        StoreError,
    >)
        requires
            old(self).wf(),
        ensures
            final(self).wf(),
            final(self).head() == old(self).head(),
            r == old(self).allows(caller),
            final(self)@ == (match old(self).allows(caller) {
                Ok(_) => Self::with_all(old(self)@, items@),
                Err(_) => old(self)@,
            }),
    {
        match self.check_access(caller) {
            Err(e) => {
                return Err(e);
            },
            Ok(()) => {},
        }
        let ghost all = items@;
        assert(all.take(0) =~= Seq::empty());
        for item in it: items
            invariant
                it.seq() == all,
                self.wf(),
                self.head() == old(self).head(),
                self@ == Self::with_all(old(self)@, all.take(it.index() as int)),
        {
            proof {
                assert(all.take(it.index() + 1).drop_last() =~= all.take(it.index() as int));
                assert(all.take(it.index() + 1).last() == all[it.index() as int]);
            }
            self.data.insert(item.0, item.1);
        }
        assert(all.take(all.len() as int) =~= all);
        Ok(())
    }

    /// The keys.
    pub fn keys(&self, caller: Option<&Pid>) -> (r: Result<Vec<String>, StoreError>)
        requires
            self.wf(),
        ensures
            match self.allows(caller) {
                Ok(_) => r matches Ok(keys) && table::views(keys@) == self.order(),
                Err(e) => r == Err::<Vec<String>, StoreError>(e),
            },
    {
        match self.check_access(caller) {
            Ok(()) => Ok(self.data.keys()),
            Err(e) => Err(e),
        }
    }

    /// The values, in the order of the keys.
    pub fn values(&self, caller: Option<&Pid>) -> (r: Result<Vec<&V>, StoreError>)
        requires
            self.wf(),
        ensures
            match self.allows(caller) {
                Ok(_) => r matches Ok(values) && values@.len() == self.order().len() && forall|
                    i: int,
                |
                    0 <= i < values@.len() ==> *(#[trigger] values@[i]) == self@[self.order()[i]],
                Err(e) => r == Err::<Vec<&V>, StoreError>(e),
            },
    {
        match self.check_access(caller) {
            Err(e) => {
                return Err(e);
            },
            Ok(()) => {},
        }
        let mut out: Vec<&V> = Vec::new();
        let mut i: usize = 0;
        while i < self.data.len()
            invariant
                self.wf(),
                i <= self.order().len(),
                out@.len() == i,
                forall|j: int|
                    0 <= j < i ==> *(#[trigger] out@[j]) == self@[self.order()[j]],
            decreases self.order().len() - i,
        {
            let (_, v) = self.data.at(i);
            out.push(v);
            i = i + 1;
        }
        Ok(out)
    }

    /// The entries, in the order of the keys.
    pub fn iter(&self, caller: Option<&Pid>) -> (r: Result<Vec<(String, &V)>, StoreError>)
        requires
            self.wf(),
        ensures
            match self.allows(caller) {
                Ok(_) => r matches Ok(entries) && entries@.len() == self.order().len() && forall|
                    i: int,
                |
                    0 <= i < entries@.len() ==> (#[trigger] entries@[i]).0@ == self.order()[i]
                        && *entries@[i].1 == self@[self.order()[i]],
                Err(e) => r == Err::<Vec<(String, &V)>, StoreError>(e),
            },
    {
        match self.check_access(caller) {
            Err(e) => {
                return Err(e);
            },
            Ok(()) => {},
        }
        let mut out: Vec<(String, &V)> = Vec::new();
        let mut i: usize = 0;
        while i < self.data.len()
            invariant
                self.wf(),
                i <= self.order().len(),
                out@.len() == i,
                forall|j: int|
                    0 <= j < i ==> (#[trigger] out@[j]).0@ == self.order()[j] && *out@[j].1
                        == self@[self.order()[j]],
            decreases self.order().len() - i,
        {
            let (k, v) = self.data.at(i);
            out.push((k.to_owned(), v));
            i = i + 1;
        }
        Ok(out)
    }

    /// The number of entries.
    pub fn len(&self, caller: Option<&Pid>) -> (r: Result<usize, StoreError>)
        requires
            self.wf(),
        ensures
            match self.allows(caller) {
                Ok(_) => r matches Ok(n) && n == self.order().len(),
                Err(e) => r == Err::<usize, StoreError>(e),
            },
    {
        match self.check_access(caller) {
            Ok(()) => Ok(self.data.len()),
            Err(e) => Err(e),
        }
    }

    /// Whether there is no entry.
    pub fn is_empty(&self, caller: Option<&Pid>) -> (r: Result<bool, StoreError>)
        requires
            self.wf(),
        ensures
            match self.allows(caller) {
                Ok(_) => r matches Ok(b) && b == (self.order().len() == 0),
                Err(e) => r == Err::<bool, StoreError>(e),
            },
    {
        match self.check_access(caller) {
            Ok(()) => Ok(self.data.len() == 0),
            Err(e) => Err(e),
        }
    }

    /// Takes all entries out.
    pub fn clear(&mut self, caller: Option<&Pid>) -> (r: Result<(), StoreError>)
        requires
            old(self).wf(),
        ensures
            final(self).wf(),
            final(self).head() == old(self).head(),
            r == old(self).allows(caller),
            final(self)@ == (match old(self).allows(caller) {
                Ok(_) => Map::<Seq<char>, V>::empty(),
                Err(_) => old(self)@,
            }),
    {
        match self.check_access(caller) {
            Err(e) => {
                return Err(e);
            },
            Ok(()) => {},
        }
        self.data = NameTable::new();
        Ok(())
    }

    /// Asks of each entry whether it stays, and takes out those that do not. The test may change
    /// the values that stay.
    pub fn retain<F: Fn(&String, &mut V) -> bool>(&mut self, caller: Option<&Pid>, f: F) -> (r:
        Result<(), StoreError>)
        requires
            old(self).wf(),
            forall|k: &String, v: &mut V| call_requires(f, (k, v)),
        ensures
            final(self).wf(),
            final(self).head() == old(self).head(),
            r == old(self).allows(caller),
            match old(self).allows(caller) {
                Ok(_) => {
                    &&& forall|k: Seq<char>| #[trigger]
                        final(self)@.contains_key(k) ==> old(self)@.contains_key(k)
                    &&& forall|k: Seq<char>| #[trigger]
                        old(self)@.contains_key(k) ==> exists|key: &String, v: &mut V, stays: bool|
                            #[trigger] call_ensures(f, (key, v), stays) && key@ == k
                                && *v == old(self)@[k]
                                && final(self)@.contains_key(k) == stays
                                && (stays ==> final(self)@[k] == *final(v))
                },
                Err(_) => final(self)@ == old(self)@,
            },
    {
        match self.check_access(caller) {
            Err(e) => {
                return Err(e);
            },
            Ok(()) => {},
        }
        let keys = self.data.keys();
        let ghost start = self@;
        let ghost names = table::views(keys@);
        proof {
            self.law_order();
        }
        let mut i: usize = 0;
        while i < keys.len()
            invariant
                self.wf(),
                self.head() == old(self).head(),
                i <= keys@.len(),
                names == table::views(keys@),
                names.no_duplicates(),
                forall|k: Seq<char>| names.contains(k) <==> #[trigger] start.contains_key(k),
                forall|k: &String, v: &mut V| call_requires(f, (k, v)),
                forall|k: Seq<char>| #[trigger] self@.contains_key(k) ==> start.contains_key(k),
                forall|j: int|
                    i <= j < names.len() ==> self@.contains_key(#[trigger] names[j])
                        && self@[names[j]] == start[names[j]],
                forall|j: int|
                    0 <= j < i && start.contains_key(#[trigger] names[j]) ==> exists|
                        key: &String,
                        v: &mut V,
                        stays: bool,
                    | #[trigger]
                        call_ensures(f, (key, v), stays) && key@ == names[j] && *v
                            == start[names[j]] && self@.contains_key(names[j]) == stays && (stays
                            ==> self@[names[j]] == *final(v)),
            decreases keys@.len() - i,
        {
            let ghost before = self@;
            let ghost name = names[i as int];
            assert(name == keys@[i as int]@);
            assert(names.contains(name));
            match self.data.remove(keys[i].as_str()) {
                Some(v) => {
                    let mut value = v;
                    let stays = f(&keys[i], &mut value);
                    let ghost now = value;
                    if stays {
                        self.data.insert(keys[i].clone(), value);
                    }
                    proof {
                        assert(exists|key: &String, v: &mut V|
                            #[trigger] call_ensures(f, (key, v), stays) && key@ == name && *v
                                == start[name] && *final(v) == now);
                    }
                },
                None => {
                    assert(before.contains_key(name));
                },
            }
            proof {
                assert forall|k: Seq<char>| k != name implies #[trigger] self@.contains_key(k)
                    == before.contains_key(k) && (before.contains_key(k) ==> self@[k]
                    == before[k]) by {}
                assert forall|j: int| i + 1 <= j < names.len() implies self@.contains_key(
                    #[trigger] names[j],
                ) && self@[names[j]] == start[names[j]] by {
                    assert(before.contains_key(names[j]));
                    assert(names[j] != name);
                }
                assert forall|j: int|
                    0 <= j < i + 1 && start.contains_key(#[trigger] names[j]) implies exists|
                        key: &String,
                        v: &mut V,
                        stays: bool,
                    | #[trigger]
                        call_ensures(f, (key, v), stays) && key@ == names[j] && *v
                            == start[names[j]] && self@.contains_key(names[j]) == stays && (stays
                            ==> self@[names[j]] == *final(v)) by {
                    if j < i {
                        assert(names[j] != name);
                        assert(self@.contains_key(names[j]) == before.contains_key(names[j]));
                    }
                }
            }
            i = i + 1;
        }
        proof {
            assert forall|k: Seq<char>| #[trigger] start.contains_key(k) implies exists|
                key: &String,
                v: &mut V,
                stays: bool,
            | #[trigger]
                call_ensures(f, (key, v), stays) && key@ == k && *v == start[k]
                    && self@.contains_key(k) == stays && (stays ==> self@[k] == *final(v)) by {
                assert(names.contains(k));
                let j = choose|j: int| 0 <= j < names.len() && names[j] == k;
                assert(start.contains_key(names[j]));
            }
        }
        Ok(())
    }
}

/// What was put under a key is found there, and no more once the key was taken out; other keys
/// are not touched. `put` is the store after `insert`, and `gone` that one after `remove`.
pub proof fn law_get_finds_what_was_put<V>(
    before: Store<V>,
    put: Store<V>,
    gone: Store<V>,
    k: Seq<char>,
    v: V,
    other: Seq<char>,
)
    requires
        put@ == before@.insert(k, v),
        gone@ == put@.remove(k),
        other != k,
    ensures
        put.found(k) == Some(v),
        gone.found(k) is None,
        put.found(other) == before.found(other),
        gone.found(other) == before.found(other),
{
}

} // verus!
