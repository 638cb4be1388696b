//! What every store has: an identifier, an owner, and who may use it.

use vstd::prelude::*;

use crate::process;
use crate::process::{Pid, PidView};
use crate::table::Key;

verus! {

/// The identifier of a store.
#[derive(Debug, Clone, Copy, PartialEq, Eq, Structural)]
pub struct StoreId(u64);

impl StoreId {
    /// The number of the identifier.
    pub closed spec fn raw(&self) -> u64 {
        self.0
    }

    /// A new identifier: the number that the counter stands at, which moves on. After the last
    /// number comes zero.
    pub fn new(counter: &mut u64) -> (r: Self)
        ensures
            r.raw() == *old(counter),
            *final(counter) == crate::distribution::manager::next_seq(*old(counter)),
    {
        let id = *counter;
        *counter = crate::distribution::manager::advance(id);
        StoreId(id)
    }

    /// The number of the identifier.
    pub fn as_raw(&self) -> (r: u64)
        ensures
            r == self.raw(),
    {
        self.0
    }

    /// How the identifier is shown.
    pub fn describe(&self) -> (r: String)
        ensures
            r@ == "store#"@ + crate::text::decimal(self.raw() as nat),
    {
        let n = crate::text::decimal_string(self.0);
        crate::text::join2("store#", n.as_str())
    }
}

/// Two identifiers in a row differ.
pub proof fn law_identifiers_differ(counter: u64)
    ensures
        counter != crate::distribution::manager::next_seq(counter),
{
}

/// Who may use a store.
#[derive(Debug, Clone, Copy, PartialEq, Eq, Structural)]
pub enum Access {
    /// Every process.
    Public,
    /// The owner.
    Private,
}

impl Default for Access {
    fn default() -> (r: Self)
        ensures
            r == Access::Public,
    {
        Access::Public
    }
}

/// How a store is made.
pub struct StoreOptions {
    /// Who may use it.
    pub access: Access,
    /// The name to register it under.
    pub name: Option<String>,
    /// The process that gets it when the owner ends.
    pub heir: Option<Pid>,
}

impl Default for StoreOptions {
    fn default() -> (r: Self)
        ensures
            r.access == Access::Public,
            r.name is None,
            r.heir is None,
    {
        StoreOptions { access: Access::Public, name: None, heir: None }
    }
}

impl StoreOptions {
    /// A public store without a name and without an heir.
    pub fn new() -> (r: Self)
        ensures
            r.access == Access::Public,
            r.name is None,
            r.heir is None,
    {
        StoreOptions::default()
    }

    /// Sets who may use the store.
    pub fn access(self, access: Access) -> (r: Self)
        ensures
            r == (StoreOptions { access, ..self }),
    {
        StoreOptions { access, ..self }
    }

    /// Sets the name.
    pub fn name(self, name: &str) -> (r: Self)
        ensures
            r.name matches Some(n) && n@ == name@,
            r.access == self.access,
            r.heir == self.heir,
    {
        StoreOptions { name: Some(name.to_owned()), ..self }
    }

    /// Sets the heir.
    pub fn heir(self, heir: Pid) -> (r: Self)
        ensures
            r == (StoreOptions { heir: Some(heir), ..self }),
    {
        StoreOptions { heir: Some(heir), ..self }
    }
}

/// Why a store cannot be used.
#[derive(Debug, Clone, Copy, PartialEq, Eq, Structural)]
pub enum StoreError {
    /// It has been deleted.
    StoreDeleted,
    /// The caller may not use it.
    AccessDenied,
    /// Its name is taken.
    NameAlreadyRegistered,
    /// There is none.
    NotFound,
    /// There is no caller.
    NoProcessContext,
}

/// The text of an error.
pub open spec fn error_text(e: StoreError) -> Seq<char> {
    match e {
        StoreError::StoreDeleted => "store has been deleted"@,
        StoreError::AccessDenied => "access denied"@,
        StoreError::NameAlreadyRegistered => "name already registered"@,
        StoreError::NotFound => "store not found"@,
        StoreError::NoProcessContext => "no process context available"@,
    }
}

impl StoreError {
    /// The text of the error.
    pub fn describe(&self) -> (r: &'static str)
        ensures
            r@ == error_text(*self),
    {
        match self {
            StoreError::StoreDeleted => "store has been deleted",
            StoreError::AccessDenied => "access denied",
            StoreError::NameAlreadyRegistered => "name already registered",
            StoreError::NotFound => "store not found",
            StoreError::NoProcessContext => "no process context available",
        }
    }
}

/// What a store's head stands for.
pub struct HeadView {
    /// Its identifier.
    pub id: u64,
    /// Its owner.
    pub owner: PidView,
    /// Who may use it.
    pub access: Access,
    /// The process that gets it when the owner ends.
    pub heir: Option<PidView>,
    /// Whether it has been deleted.
    pub deleted: bool,
}

/// The head of a store that is made with the given options.
pub open spec fn first_head(id: u64, owner: PidView, opts: StoreOptions) -> HeadView {
    HeadView {
        id,
        owner,
        access: opts.access,
        heir: process::pid_option(opts.heir),
        deleted: false,
    }
}

/// What every store has, whatever it holds.
pub struct Head {
    id: StoreId,
    owner: Pid,
    access: Access,
    heir: Option<Pid>,
    deleted: bool,
}

impl View for Head {
    type V = HeadView;

    closed spec fn view(&self) -> HeadView {
        HeadView {
            id: self.id.raw(),
            owner: self.owner@,
            access: self.access,
            heir: process::pid_option(self.heir),
            deleted: self.deleted,
        }
    }
}

/// The view of an optional caller.
pub open spec fn caller_view(caller: Option<&Pid>) -> Option<PidView> {
    match caller {
        Some(pid) => Some(pid@),
        None => None,
    }
}

/// Whether a caller may use a store, and if not, why. A deleted store is of use to nobody, a
/// public one to everybody.
pub open spec fn access_of(h: HeadView, caller: Option<PidView>) -> Result<(), StoreError> {
    if h.deleted {
        Err(StoreError::StoreDeleted)
    } else if h.access == Access::Public {
        Ok(())
    } else {
        match caller {
            None => Err(StoreError::NoProcessContext),
            Some(pid) => if pid == h.owner {
                Ok(())
            } else {
                Err(StoreError::AccessDenied)
            },
        }
    }
}

/// Whether a caller may give a store away, and if not, why.
pub open spec fn may_give(h: HeadView, caller: Option<PidView>) -> Result<(), StoreError> {
    match caller {
        None => Err(StoreError::NoProcessContext),
        Some(pid) => if pid == h.owner {
            Ok(())
        } else {
            Err(StoreError::AccessDenied)
        },
    }
}

/// The head of a store that a caller gives to another process.
pub open spec fn given(h: HeadView, caller: Option<PidView>, to: PidView) -> HeadView {
    if may_give(h, caller) is Ok {
        HeadView { owner: to, ..h }
    } else {
        h
    }
}

/// The head of a store once a process has ended. A process is not its own heir.
pub open spec fn outlived(h: HeadView, pid: PidView) -> HeadView {
    if h.owner != pid {
        h
    } else {
        match h.heir {
            Some(heir) if heir != pid => HeadView { owner: heir, heir: None, ..h },
            _ => HeadView { deleted: true, heir: None, ..h },
        }
    }
}

impl Head {
    /// The head of a new store.
    pub fn new(id: StoreId, owner: Pid, opts: &StoreOptions) -> (r: Self)
        ensures
            r@ == first_head(id.raw(), owner@, *opts),
    {
        let heir = match &opts.heir {
            Some(pid) => Some(pid.clone()),
            None => None,
        };
        Head { id, owner, access: opts.access, heir, deleted: false }
    }

    /// The identifier.
    pub fn id(&self) -> (r: StoreId)
        ensures
            r.raw() == self@.id,
    {
        self.id
    }

    /// The owner.
    pub fn owner(&self) -> (r: Pid)
        ensures
            r@ == self@.owner,
    {
        self.owner.clone()
    }

    /// Who may use the store.
    pub fn access(&self) -> (r: Access)
        ensures
            r == self@.access,
    {
        self.access
    }

    /// Whether the store has been deleted.
    pub fn is_deleted(&self) -> (r: bool)
        ensures
            r == self@.deleted,
    {
        self.deleted
    }

    /// Whether the caller may use the store.
    pub fn check_access(&self, caller: Option<&Pid>) -> (r: Result<(), StoreError>)
        ensures
            r == access_of(self@, caller_view(caller)),
    {
        if self.deleted {
            return Err(StoreError::StoreDeleted);
        }
        match self.access {
            Access::Public => Ok(()),
            Access::Private => self.check_owner(caller),
        }
    }

    fn check_owner(&self, caller: Option<&Pid>) -> (r: Result<(), StoreError>)
        ensures
            r == may_give(self@, caller_view(caller)),
    {
        match caller {
            None => Err(StoreError::NoProcessContext),
            Some(pid) => if pid.same(&self.owner) {
                Ok(())
            } else {
                Err(StoreError::AccessDenied)
            },
        }
    }

    /// Gives the store to another process, if the caller owns it.
    pub fn give_away(&mut self, caller: Option<&Pid>, to: Pid) -> (r: Result<(), StoreError>)
        ensures
            r == may_give(old(self)@, caller_view(caller)),
            final(self)@ == given(old(self)@, caller_view(caller), to@),
    {
        match self.check_owner(caller) {
            Ok(()) => {
                self.owner = to;
                Ok(())
            },
            Err(e) => Err(e),
        }
    }

    /// Takes note that a process has ended: where it owned the store, its heir owns it now, or
    /// the store is deleted if there is none.
    pub fn process_ended(&mut self, pid: &Pid)
        ensures
            final(self)@ == outlived(old(self)@, pid@),
    {
        if pid.same(&self.owner) {
            match &self.heir {
                Some(heir) => {
                    if heir.same(pid) {
                        self.deleted = true;
                    } else {
                        self.owner = heir.clone();
                    }
                },
                None => {
                    self.deleted = true;
                },
            }
            self.heir = None;
        }
    }

    /// Marks the store as deleted.
    pub fn mark_deleted(&mut self)
        ensures
            final(self)@ == (HeadView { deleted: true, ..old(self)@ }),
    {
        self.deleted = true;
    }
}

/// Giving a store away moves it: the new owner may use a private store and give it on, and the
/// old one may not.
pub proof fn law_ownership_moves(h: HeadView, to: PidView)
    requires
        !h.deleted,
        h.access == Access::Private,
        to != h.owner,
    ensures
        ({
            let after = given(h, Some(h.owner), to);
            &&& after.owner == to
            &&& access_of(after, Some(to)) is Ok
            &&& may_give(after, Some(to)) is Ok
            &&& access_of(after, Some(h.owner)) == Err::<(), StoreError>(StoreError::AccessDenied)
            &&& may_give(after, Some(h.owner)) == Err::<(), StoreError>(StoreError::AccessDenied)
        }),
{
}

/// A store does not outlive its owner: it goes to the heir, or it is closed to everybody.
pub proof fn law_store_ends_with_its_owner(h: HeadView, caller: Option<PidView>)
    ensures
        ({
            let after = outlived(h, h.owner);
            if h.heir is Some && h.heir != Some(h.owner) {
                h.heir == Some(after.owner)
            } else {
                access_of(after, caller) == Err::<(), StoreError>(StoreError::StoreDeleted)
            }
        }),
{
}

/// A deleted store refuses every caller, its owner too.
pub proof fn law_deleted_store_is_closed(h: HeadView, caller: Option<PidView>)
    requires
        h.deleted,
    ensures
        access_of(h, caller) == Err::<(), StoreError>(StoreError::StoreDeleted),
{
}

/// A private store is open to its owner and to nobody else.
pub proof fn law_private_store_is_the_owners(h: HeadView, caller: Option<PidView>)
    requires
        !h.deleted,
        h.access == Access::Private,
    ensures
        access_of(h, caller) is Ok <==> caller == Some(h.owner),
{
}

} // verus!
