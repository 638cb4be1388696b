//! Which handler a message is dispatched to.

use vstd::prelude::*;

use crate::gen_server::types::{Reply, Status};
use crate::gen_server::v2::server::RawReply;
use crate::message;
use crate::message::Message;
use crate::process::ExitReason;
use crate::table::Table;
use crate::text;

verus! {

/// The handlers of one kind of server, by the tags of the messages that they take.
pub struct HandlerRegistry<C, S, I> {
    calls: Table<String, C>,
    casts: Table<String, S>,
    infos: Table<String, I>,
}

impl<C, S, I> HandlerRegistry<C, S, I> {
    /// The registry's invariant: each tag has one handler.
    pub closed spec fn wf(&self) -> bool {
        self.calls.wf() && self.casts.wf() && self.infos.wf()
    }

    /// The handlers of calls.
    pub closed spec fn calls(&self) -> Map<Seq<char>, C> {
        self.calls@
    }

    /// The handlers of casts.
    pub closed spec fn casts(&self) -> Map<Seq<char>, S> {
        self.casts@
    }

    /// The handlers of info messages.
    pub closed spec fn infos(&self) -> Map<Seq<char>, I> {
        self.infos@
    }

    /// A registry without handlers.
    pub fn new() -> (r: Self)
        ensures
            r.wf(),
            r.calls() == Map::<Seq<char>, C>::empty(),
            r.casts() == Map::<Seq<char>, S>::empty(),
            r.infos() == Map::<Seq<char>, I>::empty(),
    {
        HandlerRegistry { calls: Table::new(), casts: Table::new(), infos: Table::new() }
    }

    /// Registers the handler of a call; it replaces an earlier one.
    pub fn register_call(&mut self, tag: &str, dispatch: C)
        requires
            old(self).wf(),
        ensures
            final(self).wf(),
            final(self).calls() == old(self).calls().insert(tag@, dispatch),
            final(self).casts() == old(self).casts(),
            final(self).infos() == old(self).infos(),
    {
        let _ = self.calls.insert(tag.to_owned(), dispatch);
    }

    /// Registers the handler of a cast; it replaces an earlier one.
    pub fn register_cast(&mut self, tag: &str, dispatch: S)
        requires
            old(self).wf(),
        ensures
            final(self).wf(),
            final(self).calls() == old(self).calls(),
            final(self).casts() == old(self).casts().insert(tag@, dispatch),
            final(self).infos() == old(self).infos(),
    {
        let _ = self.casts.insert(tag.to_owned(), dispatch);
    }

    /// Registers the handler of an info message; it replaces an earlier one.
    pub fn register_info(&mut self, tag: &str, dispatch: I)
        requires
            old(self).wf(),
        ensures
            final(self).wf(),
            final(self).calls() == old(self).calls(),
            final(self).casts() == old(self).casts(),
            final(self).infos() == old(self).infos().insert(tag@, dispatch),
    {
        let _ = self.infos.insert(tag.to_owned(), dispatch);
    }

    /// The handler of a call; without one the server stops.
    pub fn dispatch_call(&self, tag: &str) -> (r: Result<&C, RawReply>)
        requires
            self.wf(),
        ensures
            match r {
                Ok(dispatch) => self.calls().contains_key(tag@) && *dispatch == self.calls()[tag@],
                Err(RawReply::StopNoReply(ExitReason::Error(text))) => !self.calls().contains_key(
                    tag@,
                ) && text@ == "unknown call: "@ + tag@,
                Err(_) => false,
            },
    {
        match self.calls.get(&tag.to_owned()) {
            Some(dispatch) => Ok(dispatch),
            None => Err(
                RawReply::StopNoReply(ExitReason::Error(text::join2("unknown call: ", tag))),
            ),
        }
    }

    /// The handler of a cast; without one the cast is dropped.
    pub fn dispatch_cast(&self, tag: &str) -> (r: Result<&S, Status>)
        requires
            self.wf(),
        ensures
            match r {
                Ok(dispatch) => self.casts().contains_key(tag@) && *dispatch == self.casts()[tag@],
                Err(status) => !self.casts().contains_key(tag@) && status == Status::Proceed,
            },
    {
        match self.casts.get(&tag.to_owned()) {
            Some(dispatch) => Ok(dispatch),
            None => Err(Status::Proceed),
        }
    }

    /// The handler of an info message; without one the message is dropped.
    pub fn dispatch_info(&self, tag: &str) -> (r: Result<&I, Status>)
        requires
            self.wf(),
        ensures
            match r {
                Ok(dispatch) => self.infos().contains_key(tag@) && *dispatch == self.infos()[tag@],
                Err(status) => !self.infos().contains_key(tag@) && status == Status::Proceed,
            },
    {
        match self.infos.get(&tag.to_owned()) {
            Some(dispatch) => Ok(dispatch),
            None => Err(Status::Proceed),
        }
    }
}

impl<C, S, I> Default for HandlerRegistry<C, S, I> {
    fn default() -> (r: Self)
        ensures
            r.wf(),
            r.calls() == Map::<Seq<char>, C>::empty(),
            r.casts() == Map::<Seq<char>, S>::empty(),
            r.infos() == Map::<Seq<char>, I>::empty(),
    {
        HandlerRegistry::new()
    }
}

/// A handler that was registered for the whole program: the number that stands for the kind of
/// server, the tag of the message, and the handler.
pub struct HandlerEntry<D> {
    /// The kind of server.
    pub server: u64,
    /// The tag of the message.
    pub tag: String,
    /// The handler.
    pub dispatch: D,
}

/// The handlers of a program, entered one after the other: a later one replaces an earlier one
/// with the same server and tag.
pub open spec fn entered<D>(entries: Seq<HandlerEntry<D>>) -> Map<(u64, Seq<char>), D>
    decreases entries.len(),
{
    if entries.len() == 0 {
        Map::empty()
    } else {
        let e = entries.last();
        entered(entries.drop_last()).insert((e.server, e.tag@), e.dispatch)
    }
}

/// The handlers of a program for one kind of message.
pub struct GlobalRegistry<D> {
    handlers: Table<(u64, String), D>,
}

impl<D> GlobalRegistry<D> {
    /// The registry's invariant: each server and tag has one handler.
    pub closed spec fn wf(&self) -> bool {
        self.handlers.wf()
    }

    /// The handlers.
    pub closed spec fn handlers(&self) -> Map<(u64, Seq<char>), D> {
        self.handlers@
    }

    /// The registry of a list of handlers.
    pub fn build(entries: Vec<HandlerEntry<D>>) -> (r: Self)
        ensures
            r.wf(),
            r.handlers() == entered(entries@),
    {
        let ghost all = entries@;
        let mut handlers: Table<(u64, String), D> = Table::new();
        assert(all.take(0) =~= Seq::empty());
        for entry in it: entries
            invariant
                it.seq() == all,
                handlers.wf(),
                handlers@ == entered(all.take(it.index() as int)),
        {
            let ghost i = it.index() as int;
            proof {
                assert(all[i] == entry);
                assert(all.take(i + 1).drop_last() =~= all.take(i));
                assert(all.take(i + 1).last() == all[i]);
            }
            let key = (entry.server, entry.tag);
            assert(key@ == (entry.server, entry.tag@));
            let _ = handlers.insert(key, entry.dispatch);
        }
        assert(all.take(all.len() as int) =~= all);
        GlobalRegistry { handlers }
    }

    /// The handler of a server for a tag.
    pub fn dispatch(&self, server: u64, tag: &str) -> (r: Option<&D>)
        requires
            self.wf(),
        ensures
            match r {
                Some(d) => self.handlers().contains_key((server, tag@)) && *d == self.handlers()[(
                    server,
                    tag@,
                )],
                None => !self.handlers().contains_key((server, tag@)),
            },
    {
        let key = (server, tag.to_owned());
        assert(key@ == (server, tag@));
        self.handlers.get(&key)
    }
}

/// The reply with its value encoded.
pub fn reply_to_raw<T: Message>(reply: Reply<T>) -> (r: RawReply)
    ensures
        ({
            let encoded = |v: T, bytes: Vec<u8>|
                bytes@ == message::tagged(T::tag_view(), T::payload(v@)) && T::unpacked(
                    T::payload(v@),
                ) == Some(v@);
            match reply {
                Reply::Answer(v) => r matches RawReply::Answer(b) && encoded(v, b),
                Reply::Continue(v, arg) => r matches RawReply::Continue(b, a) && encoded(v, b)
                    && a == arg,
                Reply::Timeout(v, d) => r matches RawReply::Timeout(b, e) && encoded(v, b) && e
                    == d,
                Reply::NoReply => r is NoReply,
                Reply::Stop(reason, v) => r matches RawReply::Stop(why, b) && encoded(v, b) && why
                    == reason,
                Reply::StopNoReply(reason) => r == RawReply::StopNoReply(reason),
            }
        }),
{
    match reply {
        Reply::Answer(v) => RawReply::Answer(v.encode_local()),
        Reply::Continue(v, arg) => RawReply::Continue(v.encode_local(), arg),
        Reply::Timeout(v, d) => RawReply::Timeout(v.encode_local(), d),
        Reply::NoReply => RawReply::NoReply,
        Reply::Stop(reason, v) => RawReply::Stop(reason, v.encode_local()),
        Reply::StopNoReply(reason) => RawReply::StopNoReply(reason),
    }
}

/// The request of a call handler; if it cannot be read, the server stops.
pub fn call_argument<M: Message>(payload: &[u8]) -> (r: Result<M, RawReply>)
    ensures
        match r {
            Ok(m) => M::unpacked(payload@) == Some(m@),
            Err(RawReply::StopNoReply(ExitReason::Error(text))) => M::unpacked(payload@) is None
                && text@ == "decode error: "@ + crate::process::decode_text(
                M::unpack_fault(payload@),
            ),
            Err(_) => false,
        },
{
    match M::decode_local(payload) {
        Ok(m) => Ok(m),
        Err(e) => {
            let text = e.describe();
            let whole = text::join2("decode error: ", text.as_str());
            Err(RawReply::StopNoReply(ExitReason::Error(whole)))
        },
    }
}

/// The message of a cast or info handler; if it cannot be read, the server stops.
pub fn cast_argument<M: Message>(payload: &[u8]) -> (r: Result<M, Status>)
    ensures
        match r {
            Ok(m) => M::unpacked(payload@) == Some(m@),
            Err(Status::Stop(ExitReason::Error(text))) => M::unpacked(payload@) is None
                && text@ == "decode error: "@ + crate::process::decode_text(
                M::unpack_fault(payload@),
            ),
            Err(_) => false,
        },
{
    match M::decode_local(payload) {
        Ok(m) => Ok(m),
        Err(e) => {
            let text = e.describe();
            let whole = text::join2("decode error: ", text.as_str());
            Err(Status::Stop(ExitReason::Error(whole)))
        },
    }
}

/// The handler that was registered last is the one that is found, and the other handlers stay.
pub proof fn law_last_registration_wins<D>(
    entries: Seq<HandlerEntry<D>>,
    e: HandlerEntry<D>,
    server: u64,
    tag: Seq<char>,
)
    ensures
        entered(entries.push(e)).contains_key((e.server, e.tag@)),
        entered(entries.push(e))[(e.server, e.tag@)] == e.dispatch,
        (server, tag) != (e.server, e.tag@) ==> (entered(entries.push(e)).contains_key(
            (server, tag),
        ) <==> entered(entries).contains_key((server, tag))),
        (server, tag) != (e.server, e.tag@) && entered(entries).contains_key((server, tag))
            ==> entered(entries.push(e))[(server, tag)] == entered(entries)[(server, tag)],
{
    assert(entries.push(e).drop_last() =~= entries);
}

} // verus!
