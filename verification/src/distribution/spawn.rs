//! Functions that other nodes may spawn as processes.

use vstd::prelude::*;

use crate::names::NameTable;
use crate::process::{Pid, Ref};
use crate::text;

verus! {

/// The functions that other nodes may spawn, by module and name. `F` stands for a function.
pub struct SpawnRegistry<F> {
    functions: NameTable<NameTable<F>>,
}

/// The functions of a table of modules.
pub open spec fn flat<F>(modules: Map<Seq<char>, NameTable<F>>) -> Map<(Seq<char>, Seq<char>), F> {
    Map::new(
        |k: (Seq<char>, Seq<char>)| modules.contains_key(k.0) && modules[k.0]@.contains_key(k.1),
        |k: (Seq<char>, Seq<char>)| modules[k.0]@[k.1],
    )
}

impl<F> View for SpawnRegistry<F> {
    type V = Map<(Seq<char>, Seq<char>), F>;

    closed spec fn view(&self) -> Map<(Seq<char>, Seq<char>), F> {
        flat(self.functions@)
    }
}

impl<F> SpawnRegistry<F> {
    /// The registry's invariant.
    pub closed spec fn wf(&self) -> bool {
        &&& self.functions.wf()
        &&& forall|m: Seq<char>| #[trigger]
            self.functions@.contains_key(m) ==> self.functions@[m].wf()
    }

    /// A registry without functions.
    pub fn new() -> (r: Self)
        ensures
            r.wf(),
            r@ == Map::<(Seq<char>, Seq<char>), F>::empty(),
    {
        let r = SpawnRegistry { functions: NameTable::new() };
        assert(r@ =~= Map::<(Seq<char>, Seq<char>), F>::empty());
        r
    }

    /// Registers a function, in place of the one registered before.
    pub fn register(&mut self, module: &str, function: &str, f: F)
        requires
            old(self).wf(),
        ensures
            final(self).wf(),
            final(self)@ == old(self)@.insert((module@, function@), f),
    {
        let mut inner: NameTable<F> = match self.functions.remove(module) {
            Some(t) => t,
            None => NameTable::new(),
        };
        inner.insert(function.to_owned(), f);
        self.functions.insert(module.to_owned(), inner);
        assert(self@ =~= old(self)@.insert((module@, function@), f));
    }

    /// The function registered.
    pub fn get(&self, module: &str, function: &str) -> (r: Option<&F>)
        requires
            self.wf(),
        ensures
            match r {
                Some(f) => self@.contains_key((module@, function@)) && *f
                    == self@[(module@, function@)],
                None => !self@.contains_key((module@, function@)),
            },
    {
        match self.functions.get(module) {
            Some(inner) => inner.get(function),
            None => None,
        }
    }

    /// Whether a function is registered.
    pub fn contains(&self, module: &str, function: &str) -> (r: bool)
        requires
            self.wf(),
        ensures
            r == self@.contains_key((module@, function@)),
    {
        self.get(module, function).is_some()
    }

    /// Takes a function out, and says whether it was registered.
    pub fn unregister(&mut self, module: &str, function: &str) -> (r: bool)
        requires
            old(self).wf(),
        ensures
            final(self).wf(),
            final(self)@ == old(self)@.remove((module@, function@)),
            r == old(self)@.contains_key((module@, function@)),
    {
        match self.functions.remove(module) {
            Some(t) => {
                let mut inner = t;
                let was = inner.remove(function);
                self.functions.insert(module.to_owned(), inner);
                assert(self@ =~= old(self)@.remove((module@, function@)));
                was.is_some()
            },
            None => {
                assert(self@ =~= old(self)@.remove((module@, function@)));
                false
            },
        }
    }
}

/// What a request for a function is told that is not registered.
pub open spec fn not_registered(module: Seq<char>, function: Seq<char>) -> Seq<char> {
    "function "@ + module + ":"@ + function + " not registered for remote spawn"@
}

/// What a request to spawn a function comes to: the new process, with the reference of the
/// monitor if one was asked for. `spawned` is the process that runs the function; there is none
/// where no runtime is there to run it. `fresh` is a new reference.
pub fn execute_spawn<F>(
    registry: &SpawnRegistry<F>,
    module: &str,
    function: &str,
    spawned: Option<Pid>,
    monitor_from: Option<Pid>,
    fresh: Ref,
) -> (r: Result<(Pid, Option<Ref>), String>)
    requires
        registry.wf(),
    ensures
        if !registry@.contains_key((module@, function@)) {
            r matches Err(e) && e@ == not_registered(module@, function@)
        } else {
            match spawned {
                None => r matches Err(e) && e@ == "runtime not available"@,
                Some(new) => r matches Ok((pid, reference)) && pid == new && reference == (
                if monitor_from is Some {
                    Some(fresh)
                } else {
                    None
                }),
            }
        },
{
    if !registry.contains(module, function) {
        let mut e = text::join3("function ", module, ":");
        e.append(function);
        e.append(" not registered for remote spawn");
        return Err(e);
    }
    match spawned {
        None => Err("runtime not available".to_owned()),
        Some(pid) => {
            let reference = match monitor_from {
                Some(_) => Some(fresh),
                None => None,
            };
            Ok((pid, reference))
        },
    }
}

} // verus!
