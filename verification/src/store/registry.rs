//! The registry of stores: their names and their owners.

use vstd::prelude::*;

use crate::names::NameTable;
use crate::process::{Pid, PidView};
use crate::table;
use crate::table::{Key, Table};

verus! {

/// The stores that there are, by number.
pub struct StoreRegistry {
    names: NameTable<u64>,
    owners: Table<u64, Pid>,
    heirs: Table<u64, Pid>,
}

/// Whether somebody inherits a store of `pid`. A process is not its own heir.
pub open spec fn inherited(heirs: Map<u64, PidView>, id: u64, pid: PidView) -> bool {
    heirs.contains_key(id) && heirs[id] != pid
}

/// The owners once a process has ended: its stores go to their heirs, and those without an heir
/// go.
pub open spec fn owned_after(
    owned: Map<u64, PidView>,
    heirs: Map<u64, PidView>,
    pid: PidView,
) -> Map<u64, PidView> {
    Map::new(
        |id: u64| owned.contains_key(id) && (owned[id] == pid ==> inherited(heirs, id, pid)),
        |id: u64|
            if owned[id] == pid {
                heirs[id]
            } else {
                owned[id]
            },
    )
}

/// Whether a store goes when a process ends.
pub open spec fn ends_with(
    owned: Map<u64, PidView>,
    heirs: Map<u64, PidView>,
    pid: PidView,
    id: u64,
) -> bool {
    owned.contains_key(id) && owned[id] == pid && !inherited(heirs, id, pid)
}

impl StoreRegistry {
    /// The registry's invariant.
    pub closed spec fn wf(&self) -> bool {
        self.names.wf() && self.owners.wf() && self.heirs.wf()
    }

    /// The stores by name.
    pub closed spec fn named(&self) -> Map<Seq<char>, u64> {
        self.names@
    }

    /// The owners of the stores.
    pub closed spec fn owned(&self) -> Map<u64, PidView> {
        self.owners@.map_values(|p: Pid| p@)
    }

    /// The heirs of the stores that have one.
    pub closed spec fn heirs(&self) -> Map<u64, PidView> {
        self.heirs@.map_values(|p: Pid| p@)
    }

    /// A registry without stores.
    pub fn new() -> (r: Self)
        ensures
            r.wf(),
            r.named() == Map::<Seq<char>, u64>::empty(),
            r.owned() == Map::<u64, PidView>::empty(),
            r.heirs() == Map::<u64, PidView>::empty(),
    {
        let r = StoreRegistry {
            names: NameTable::new(),
            owners: Table::new(),
            heirs: Table::new(),
        };
        assert(r.heirs() =~= Map::<u64, PidView>::empty());
        assert(r.owned() =~= Map::<u64, PidView>::empty());
        r
    }

    /// Registers a store, under its name if it has one, with its heir if it has one.
    pub fn register_store(
        &mut self,
        id: u64,
        owner: Pid,
        name: Option<String>,
        heir: Option<Pid>,
    )
        requires
            old(self).wf(),
        ensures
            final(self).wf(),
            final(self).owned() == old(self).owned().insert(id, owner@),
            final(self).named() == (match name {
                Some(n) => old(self).named().insert(n@, id),
                None => old(self).named(),
            }),
            final(self).heirs() == (match heir {
                Some(h) => old(self).heirs().insert(id, h@),
                None => old(self).heirs().remove(id),
            }),
    {
        self.owners.insert(id, owner);
        assert(self.owned() =~= old(self).owned().insert(id, owner@));
        match heir {
            Some(h) => {
                self.heirs.insert(id, h);
                assert(self.heirs() =~= old(self).heirs().insert(id, h@));
            },
            None => {
                self.heirs.remove(&id);
                assert(self.heirs() =~= old(self).heirs().remove(id));
            },
        }
        match name {
            Some(n) => {
                self.names.insert(n, id);
            },
            None => {},
        }
    }

    /// Gives a store to another process, if the first one owns it.
    pub fn transfer_ownership(&mut self, id: u64, from: &Pid, to: Pid)
        requires
            old(self).wf(),
        ensures
            final(self).wf(),
            final(self).named() == old(self).named(),
            final(self).heirs() == old(self).heirs(),
            final(self).owned() == (if old(self).owned().contains_key(id) && old(self).owned()[id]
                == from@ {
                old(self).owned().insert(id, to@)
            } else {
                old(self).owned()
            }),
    {
        let owned = match self.owners.get(&id) {
            Some(p) => p.same(from),
            None => false,
        };
        if owned {
            self.owners.insert(id, to);
            assert(self.owned() =~= old(self).owned().insert(id, to@));
        }
    }

    /// The store with a name.
    pub fn whereis(&self, name: &str) -> (r: Option<u64>)
        requires
            self.wf(),
        ensures
            r == (if self.named().contains_key(name@) {
                Some(self.named()[name@])
            } else {
                None
            }),
    {
        match self.names.get(name) {
            Some(id) => Some(*id),
            None => None,
        }
    }

    /// The stores that a process owns.
    pub fn stores_owned_by(&self, pid: &Pid) -> (r: Vec<u64>)
        requires
            self.wf(),
        ensures
            r@.no_duplicates(),
            forall|id: u64|
                r@.contains(id) <==> #[trigger] self.owned().contains_key(id)
                    && self.owned()[id] == pid@,
    {
        let rows = &self.owners.rows;
        let mut out: Vec<u64> = Vec::new();
        let mut i: usize = 0;
        while i < rows.len()
            invariant
                i <= rows@.len(),
                rows@ == self.owners.rows@,
                self.wf(),
                out@.no_duplicates(),
                forall|id: u64|
                    out@.contains(id) <==> exists|j: int|
                        0 <= j < i && (#[trigger] rows@[j]).0 == id && rows@[j].1@ == pid@,
            decreases rows@.len() - i,
        {
            let ghost before = out@;
            if rows[i].1.same(pid) {
                let id: u64 = rows[i].0;
                proof {
                    assert(!before.contains(id)) by {
                        if before.contains(id) {
                            let j = choose|j: int|
                                0 <= j < i && (#[trigger] rows@[j]).0 == id && rows@[j].1@ == pid@;
                            table::lemma_row(rows@, j);
                            table::lemma_row(rows@, i as int);
                        }
                    }
                }
                out.push(id);
                proof {
                    assert forall|k: u64| out@.contains(k) <==> exists|j: int|
                        0 <= j < i + 1 && (#[trigger] rows@[j]).0 == k && rows@[j].1@ == pid@ by {
                        if out@.contains(k) {
                            let m = choose|m: int| 0 <= m < out@.len() && out@[m] == k;
                            if m < before.len() {
                                assert(before[m] == k);
                                assert(before.contains(k));
                            } else {
                                assert(rows@[i as int].0 == k);
                            }
                        }
                        if exists|j: int|
                            0 <= j < i + 1 && (#[trigger] rows@[j]).0 == k && rows@[j].1@ == pid@ {
                            let j = choose|j: int|
                                0 <= j < i + 1 && (#[trigger] rows@[j]).0 == k && rows@[j].1@
                                    == pid@;
                            if j < i {
                                assert(before.contains(k));
                                let m = choose|m: int| 0 <= m < before.len() && before[m] == k;
                                assert(out@[m] == k);
                            } else {
                                assert(out@[before.len() as int] == k);
                            }
                        }
                    }
                }
            } else {
                proof {
                    assert forall|k: u64| out@.contains(k) implies exists|j: int|
                        0 <= j < i + 1 && (#[trigger] rows@[j]).0 == k && rows@[j].1@ == pid@ by {
                        let j = choose|j: int|
                            0 <= j < i && (#[trigger] rows@[j]).0 == k && rows@[j].1@ == pid@;
                        assert(rows@[j].0 == k);
                    }
                }
            }
            i = i + 1;
        }
        proof {
            assert forall|id: u64|
                out@.contains(id) <==> #[trigger] self.owned().contains_key(id)
                    && self.owned()[id] == pid@ by {
                if out@.contains(id) {
                    let j = choose|j: int|
                        0 <= j < rows@.len() && (#[trigger] rows@[j]).0 == id && rows@[j].1@
                            == pid@;
                    table::lemma_row(rows@, j);
                }
                if self.owned().contains_key(id) && self.owned()[id] == pid@ {
                    let j = table::lemma_key(rows@, id);
                    table::lemma_row(rows@, j);
                    assert(rows@[j].0 == id);
                }
            }
        }
        out
    }

    /// Takes note that a process has ended: its stores go to their heirs, and those without an
    /// heir are taken out, with their names. Hands back the stores taken out.
    pub fn cleanup_owned_stores(&mut self, pid: &Pid) -> (gone: Vec<u64>)
        requires
            old(self).wf(),
        ensures
            final(self).wf(),
            final(self).owned() == owned_after(old(self).owned(), old(self).heirs(), pid@),
            final(self).heirs() == old(self).heirs().remove_keys(
                old(self).owned().dom().filter(|id: u64| old(self).owned()[id] == pid@),
            ),
            final(self).named() == old(self).named().remove_keys(
                old(self).named().dom().filter(
                    |n: Seq<char>|
                        ends_with(
                            old(self).owned(),
                            old(self).heirs(),
                            pid@,
                            old(self).named()[n],
                        ),
                ),
            ),
            gone@.no_duplicates(),
            forall|id: u64|
                gone@.contains(id) <==> #[trigger] ends_with(
                    old(self).owned(),
                    old(self).heirs(),
                    pid@,
                    id,
                ),
    {
        let ids = self.stores_owned_by(pid);
        let ghost owned = self.owned();
        let ghost heirs = self.heirs();
        let mut gone: Vec<u64> = Vec::new();
        let mut i: usize = 0;
        while i < ids.len()
            invariant
                i <= ids@.len(),
                ids@.no_duplicates(),
                forall|id: u64|
                    ids@.contains(id) <==> #[trigger] owned.contains_key(id) && owned[id] == pid@,
                self.wf(),
                self.names == old(self).names,
                forall|id: u64| #[trigger]
                    self.owned().contains_key(id) == (owned.contains_key(id) && (ids@.take(
                        i as int,
                    ).contains(id) ==> inherited(heirs, id, pid@))),
                forall|id: u64| #[trigger]
                    self.owned().contains_key(id) ==> self.owned()[id] == (if ids@.take(
                        i as int,
                    ).contains(id) {
                        heirs[id]
                    } else {
                        owned[id]
                    }),
                forall|id: u64| #[trigger]
                    self.heirs().contains_key(id) == (heirs.contains_key(id) && !ids@.take(
                        i as int,
                    ).contains(id)),
                forall|id: u64| #[trigger]
                    self.heirs().contains_key(id) ==> self.heirs()[id] == heirs[id],
                gone@.no_duplicates(),
                forall|id: u64|
                    gone@.contains(id) <==> #[trigger] ids@.take(i as int).contains(id)
                        && !inherited(heirs, id, pid@),
            decreases ids@.len() - i,
        {
            let id: u64 = ids[i];
            let ghost was = *self;
            let ghost left = gone@;
            proof {
                assert(ids@.contains(id));
                assert(!ids@.take(i as int).contains(id));
                assert forall|x: u64| #[trigger] ids@.take(i + 1).contains(x) <==> ids@.take(
                    i as int,
                ).contains(x) || x == id by {
                    assert(ids@.take(i + 1) =~= ids@.take(i as int).push(id));
                    if x == id {
                        assert(ids@.take(i as int).push(id)[i as int] == x);
                    }
                    if ids@.take(i as int).contains(x) {
                        let m = choose|m: int| 0 <= m < i && ids@.take(i as int)[m] == x;
                        assert(ids@.take(i as int).push(id)[m] == x);
                    }
                    if ids@.take(i as int).push(id).contains(x) && x != id {
                        let m = choose|m: int| 0 <= m < i + 1 && ids@.take(i as int).push(id)[m] == x;
                        assert(ids@.take(i as int)[m] == x);
                    }
                }
                assert(was.heirs().contains_key(id) == heirs.contains_key(id));
            }
            let heir = match self.heirs.remove(&id) {
                Some(h) => if h.same(pid) {
                    None
                } else {
                    Some(h)
                },
                None => None,
            };
            proof {
                assert(self.heirs() =~= was.heirs().remove(id));
                assert(inherited(heirs, id, pid@) == (heir is Some));
            }
            match heir {
                Some(h) => {
                    self.owners.insert(id, h);
                    assert(self.owned() =~= was.owned().insert(id, h@));
                },
                None => {
                    self.owners.remove(&id);
                    gone.push(id);
                    proof {
                        assert(self.owned() =~= was.owned().remove(id));
                        assert(gone@ =~= left.push(id));
                        assert(!left.contains(id));
                        assert forall|x: u64| gone@.contains(x) <==> left.contains(x) || x
                            == id by {
                            if x == id {
                                assert(gone@[left.len() as int] == x);
                            }
                            if left.contains(x) {
                                let m = choose|m: int| 0 <= m < left.len() && left[m] == x;
                                assert(gone@[m] == x);
                            }
                        }
                    }
                },
            }
            proof {
                assert forall|x: u64|
                    gone@.contains(x) <==> #[trigger] ids@.take(i + 1).contains(x) && !inherited(
                        heirs,
                        x,
                        pid@,
                    ) by {
                    assert(left.contains(x) <==> ids@.take(i as int).contains(x) && !inherited(
                        heirs,
                        x,
                        pid@,
                    ));
                }
            }
            i = i + 1;
        }
        proof {
            assert(ids@.take(ids@.len() as int) =~= ids@);
            assert forall|id: u64|
                gone@.contains(id) <==> #[trigger] ends_with(owned, heirs, pid@, id) by {
                assert(ids@.take(ids@.len() as int).contains(id) <==> owned.contains_key(id)
                    && owned[id] == pid@);
            }
            assert(self.owned() =~= owned_after(owned, heirs, pid@));
            assert(self.heirs() =~= heirs.remove_keys(
                owned.dom().filter(|id: u64| owned[id] == pid@),
            ));
        }
        self.drop_names(&gone);
        proof {
            let named = old(self).named();
            assert(self.named() =~= named.remove_keys(
                named.dom().filter(|n: Seq<char>| ends_with(owned, heirs, pid@, named[n])),
            ));
        }
        gone
    }

    /// Takes out the names of some stores.
    fn drop_names(&mut self, gone: &Vec<u64>)
        requires
            old(self).wf(),
        ensures
            final(self).wf(),
            final(self).owned() == old(self).owned(),
            final(self).heirs() == old(self).heirs(),
            final(self).named() == old(self).named().remove_keys(
                old(self).named().dom().filter(
                    |n: Seq<char>| gone@.contains(old(self).named()[n]),
                ),
            ),
    {
        let names = self.names.keys();
        let ghost order = self.names.names();
        let ghost named = self.named();
        proof {
            self.names.law_names();
        }
        let mut i: usize = 0;
        while i < names.len()
            invariant
                i <= names@.len(),
                table::views(names@) == order,
                order.no_duplicates(),
                forall|n: Seq<char>| order.contains(n) <==> #[trigger] named.contains_key(n),
                self.wf(),
                self.owners == old(self).owners,
                self.heirs == old(self).heirs,
                forall|n: Seq<char>| #[trigger]
                    self.named().contains_key(n) == (named.contains_key(n) && (order.take(
                        i as int,
                    ).contains(n) ==> !gone@.contains(named[n]))),
                forall|n: Seq<char>| #[trigger]
                    self.named().contains_key(n) ==> self.named()[n] == named[n],
            decreases names@.len() - i,
        {
            let ghost name = names@[i as int]@;
            proof {
                assert(order[i as int] == name);
                assert(order.contains(name));
                assert(!order.take(i as int).contains(name));
                assert forall|x: Seq<char>| #[trigger] order.take(i + 1).contains(x)
                    <==> order.take(i as int).contains(x) || x == name by {
                    assert(order.take(i + 1) =~= order.take(i as int).push(name));
                    if x == name {
                        assert(order.take(i as int).push(name)[i as int] == x);
                    }
                    if order.take(i as int).contains(x) {
                        let m = choose|m: int| 0 <= m < i && order.take(i as int)[m] == x;
                        assert(order.take(i as int).push(name)[m] == x);
                    }
                    if order.take(i as int).push(name).contains(x) && x != name {
                        let m = choose|m: int|
                            0 <= m < i + 1 && order.take(i as int).push(name)[m] == x;
                        assert(order.take(i as int)[m] == x);
                    }
                }
            }
            match self.whereis(names[i].as_str()) {
                Some(id) => {
                    if holds_id(gone, id) {
                        self.names.remove(names[i].as_str());
                    }
                },
                None => {},
            }
            i = i + 1;
        }
        proof {
            assert(order.take(order.len() as int) =~= order);
            assert(self.named() =~= named.remove_keys(
                named.dom().filter(|n: Seq<char>| gone@.contains(named[n])),
            ));
        }
    }
}

/// Whether a number is among some.
fn holds_id(ids: &Vec<u64>, id: u64) -> (r: bool)
    ensures
        r == ids@.contains(id),
{
    let mut i: usize = 0;
    while i < ids.len()
        invariant
            i <= ids@.len(),
            forall|j: int| 0 <= j < i ==> #[trigger] ids@[j] != id,
        decreases ids@.len() - i,
    {
        if ids[i] == id {
            return true;
        }
        i = i + 1;
    }
    false
}

} // verus!
