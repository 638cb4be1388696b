//! How a server is addressed.

use vstd::prelude::*;

use crate::gen_server::via::ViaRegistry;
use crate::names::NameTable;
use crate::process::{pid_option, Pid, PidView};

verus! {

/// A reference to a server: its process, a registered name, or a name in another registry.
pub enum ServerRef<R> {
    /// The process.
    Pid(Pid),
    /// A name in this node's registry.
    Name(String),
    /// A name in another registry.
    Via(R),
}

impl<R: ViaRegistry> ServerRef<R> {
    /// The process that is referred to, where this node's registry decides; `None` if the name is
    /// not registered there.
    pub open spec fn target(self, registry: Map<Seq<char>, Pid>) -> Option<PidView> {
        match self {
            ServerRef::Pid(pid) => Some(pid@),
            ServerRef::Name(name) => if registry.contains_key(name@) {
                Some(registry[name@]@)
            } else {
                None
            },
            ServerRef::Via(_) => None,
        }
    }

    /// The process that is referred to; `None` if the name is not registered.
    pub fn resolve(&self, registry: &NameTable<Pid>) -> (r: Option<Pid>)
        requires
            registry.wf(),
        ensures
            match self {
                ServerRef::Via(via) => call_ensures(R::whereis_name, (via,), r),
                _ => pid_option(r) == self.target(registry@),
            },
    {
        match self {
            ServerRef::Pid(pid) => Some(pid.clone()),
            ServerRef::Name(name) => match registry.get(name.as_str()) {
                Some(pid) => Some(pid.clone()),
                None => None,
            },
            ServerRef::Via(via) => via.whereis_name(),
        }
    }
}

impl<R> ServerRef<R> {
    /// The reference to a process.
    pub fn of_pid(pid: Pid) -> (r: Self)
        ensures
            r == ServerRef::<R>::Pid(pid),
    {
        ServerRef::Pid(pid)
    }

    /// The reference to a registered name.
    pub fn of_name(name: &str) -> (r: Self)
        ensures
            r matches ServerRef::Name(s) && s@ == name@,
    {
        ServerRef::Name(name.to_owned())
    }

    /// The reference to a name in another registry.
    pub fn of_via(via: R) -> (r: Self)
        ensures
            r == ServerRef::Via(via),
    {
        ServerRef::Via(via)
    }
}

} // verus!
