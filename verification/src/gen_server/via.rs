//! Names under which servers are registered when they start.

use vstd::prelude::*;

use crate::gen_server::server_ref::ServerRef;
use crate::names::NameTable;
use crate::process::Pid;

verus! {

/// The error that a name is already registered.
#[derive(Debug, Clone)]
pub struct AlreadyRegistered;

impl AlreadyRegistered {
    /// The error as text.
    pub fn describe(&self) -> (r: String)
        ensures
            r@ == "already registered"@,
    {
        "already registered".to_owned()
    }
}

/// A place outside this library where one name can be registered. Each value stands for both the
/// registry and the name.
pub trait ViaRegistry: Sized {
    /// Registers a process under the name.
    fn register_name(&self, pid: Pid) -> (r: Result<(), AlreadyRegistered>);

    /// Takes the registration back.
    fn unregister_name(&self);

    /// The process with the name.
    fn whereis_name(&self) -> (r: Option<Pid>);
}

/// How a process is registered when it starts.
pub enum Name<R> {
    /// In this node's registry.
    Local(String),
    /// For all nodes; this node's registry stands for it.
    Global(String),
    /// In another registry.
    Via(R),
}

impl<R> Name<R> {
    /// A name in this node's registry.
    pub fn local(name: &str) -> (r: Self)
        ensures
            r matches Name::Local(s) && s@ == name@,
    {
        Name::Local(name.to_owned())
    }

    /// A name for all nodes.
    pub fn global(name: &str) -> (r: Self)
        ensures
            r matches Name::Global(s) && s@ == name@,
    {
        Name::Global(name.to_owned())
    }

    /// A name in another registry.
    pub fn via(registry: R) -> (r: Self)
        ensures
            r == Name::Via(registry),
    {
        Name::Via(registry)
    }

    /// The reference to the server with the name.
    pub fn into_ref(self) -> (r: ServerRef<R>)
        ensures
            r == self.reference(),
    {
        match self {
            Name::Local(s) => ServerRef::Name(s),
            Name::Global(s) => ServerRef::Name(s),
            Name::Via(via) => ServerRef::Via(via),
        }
    }

    /// The reference to the server with the name.
    pub open spec fn reference(self) -> ServerRef<R> {
        match self {
            Name::Local(s) => ServerRef::Name(s),
            Name::Global(s) => ServerRef::Name(s),
            Name::Via(via) => ServerRef::Via(via),
        }
    }

    /// The name in this node's registry; `None` if it is in another.
    pub open spec fn here(self) -> Option<Seq<char>> {
        match self {
            Name::Local(s) => Some(s@),
            Name::Global(s) => Some(s@),
            Name::Via(_) => None,
        }
    }
}

/// A registry once a process was to be registered under a name: a name that is taken stays as it
/// is.
pub open spec fn registered(registry: Map<Seq<char>, Pid>, name: Seq<char>, pid: Pid) -> Map<
    Seq<char>,
    Pid,
> {
    if registry.contains_key(name) {
        registry
    } else {
        registry.insert(name, pid)
    }
}

/// A registry once the registration of a name was taken back.
pub open spec fn unregistered(registry: Map<Seq<char>, Pid>, name: Seq<char>) -> Map<
    Seq<char>,
    Pid,
> {
    registry.remove(name)
}

fn register_here(registry: &mut NameTable<Pid>, name: &String, pid: Pid) -> (r: Result<
    (),
    AlreadyRegistered,
>)
    requires
        old(registry).wf(),
    ensures
        final(registry).wf(),
        r is Err <==> old(registry)@.contains_key(name@),
        final(registry)@ == registered(old(registry)@, name@, pid),
{
    if registry.contains_key(name.as_str()) {
        return Err(AlreadyRegistered);
    }
    let _ = registry.insert(name.clone(), pid);
    Ok(())
}

/// Registers a process under a name. In this node's registry a name that is taken is refused;
/// another registry decides for itself.
pub fn register_name<R: ViaRegistry>(registry: &mut NameTable<Pid>, name: &Name<R>, pid: Pid) -> (r:
    Result<(), AlreadyRegistered>)
    requires
        old(registry).wf(),
    ensures
        final(registry).wf(),
        match name.here() {
            Some(s) => {
                &&& r is Err <==> old(registry)@.contains_key(s)
                &&& final(registry)@ == registered(old(registry)@, s, pid)
            },
            None => {
                &&& final(registry)@ == old(registry)@
                &&& name matches Name::Via(via) && call_ensures(R::register_name, (via, pid), r)
            },
        },
{
    match name {
        Name::Local(s) => register_here(registry, s, pid),
        Name::Global(s) => register_here(registry, s, pid),
        Name::Via(via) => via.register_name(pid),
    }
}

/// Takes the registration of a name back; of a name in another registry, it is that registry
/// which does so.
pub fn unregister_name<R: ViaRegistry>(registry: &mut NameTable<Pid>, name: &Name<R>)
    requires
        old(registry).wf(),
    ensures
        final(registry).wf(),
        final(registry)@ == (match name.here() {
            Some(s) => unregistered(old(registry)@, s),
            None => old(registry)@,
        }),
        name matches Name::Via(via) ==> call_ensures(R::unregister_name, (via,), ()),
{
    match name {
        Name::Local(s) => {
            let _ = registry.remove(s.as_str());
        },
        Name::Global(s) => {
            let _ = registry.remove(s.as_str());
        },
        Name::Via(via) => via.unregister_name(),
    }
}

/// A process that was registered under a free name of this node is what the name's reference
/// refers to; a process that comes later is refused; and once the registration is taken back,
/// the name is free again and the registry as it was.
pub proof fn law_registered_is_found<R: ViaRegistry>(
    registry: Map<Seq<char>, Pid>,
    name: Name<R>,
    pid: Pid,
    later: Pid,
)
    requires
        name.here() matches Some(s) && !registry.contains_key(s),
    ensures
        ({
            let s = name.here()->0;
            let with = registered(registry, s, pid);
            &&& name.reference().target(with) == Some(pid@)
            &&& registered(with, s, later) == with
            &&& name.reference().target(unregistered(with, s)) is None
            &&& unregistered(with, s) == registry
        }),
{
    let s = name.here()->0;
    assert(unregistered(registered(registry, s, pid), s) =~= registry);
}

} // verus!
