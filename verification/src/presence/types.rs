//! What the presence servers tell each other and their clients.

use vstd::prelude::*;

use crate::message;
use crate::message::Message;
use crate::piece;
use crate::piece::{Dict, Piece};
use crate::presence::crdt::{DeltaView, EntryView, PresenceDelta, Tag, TagView, TrackedEntry};
use crate::process::{DecodeError, DecodeErrorView, Pid, PidView};
use crate::table;
use crate::text;
use crate::wire;

verus! {

/// A reference that stands for one presence.
#[derive(Debug)]
pub struct PresenceRef {
    text: String,
}

impl View for PresenceRef {
    type V = Seq<char>;

    closed spec fn view(&self) -> Seq<char> {
        self.text@
    }
}

/// The part of a text before the first colon, or all of it.
pub open spec fn before_colon(s: Seq<char>) -> Seq<char> {
    match text::cut(s, ':') {
        Some((front, _)) => front,
        None => s,
    }
}

impl PresenceRef {
    /// A new reference, made of the node, the time in microseconds and a count.
    pub fn new(node: &str, timestamp: u64, count: u64) -> (r: Self)
        ensures
            r@ == node@ + ":"@ + text::decimal(timestamp as nat) + ":"@ + text::decimal(
                count as nat,
            ),
    {
        let time = text::decimal_string(timestamp);
        let number = text::decimal_string(count);
        let front = text::join3(node, ":", time.as_str());
        PresenceRef { text: text::join3(front.as_str(), ":", number.as_str()) }
    }

    /// The reference with a text.
    pub fn from_string(s: String) -> (r: Self)
        ensures
            r@ == s@,
    {
        PresenceRef { text: s }
    }

    /// The text of the reference.
    pub fn as_str(&self) -> (r: &str)
        ensures
            r@ == self@,
    {
        self.text.as_str()
    }

    /// The node that made the reference.
    pub fn node(&self) -> (r: &str)
        ensures
            r@ == before_colon(self@),
    {
        match text::split_once(self.text.as_str(), ':') {
            Some((front, _)) => front,
            None => self.text.as_str(),
        }
    }

    /// A copy of the reference.
    pub fn copy(&self) -> (r: Self)
        ensures
            r@ == self@,
    {
        PresenceRef { text: self.text.clone() }
    }
}

/// A reference names the node that made it, as long as the node's name has no colon.
pub proof fn law_ref_names_its_node(node: Seq<char>, rest: Seq<char>)
    requires
        !node.contains(':'),
    ensures
        before_colon(node + ":"@ + rest) == node,
{
    reveal_strlit(":");
    let s = node + ":"@ + rest;
    let i: int = node.len() as int;
    assert forall|j: int| 0 <= j < i implies s[j] != ':' by {
        assert(s[j] == node[j]);
        assert(node.contains(node[j]));
    }
    assert(s[i] == ':');
    text::lemma_cut(s, ':', i);
    assert(s.take(i) =~= node);
}

impl Piece for PresenceRef {
    open spec fn wire(v: Seq<char>) -> Seq<u8> {
        wire::postcard_str(v)
    }

    open spec fn read(b: Seq<u8>) -> Option<(Seq<char>, Seq<u8>)> {
        wire::postcard_take_str(b)
    }

    open spec fn fault(b: Seq<u8>) -> Seq<char> {
        wire::postcard_str_fault(b)
    }

    fn put(&self, out: &mut Vec<u8>) {
        let w = wire::put_str(self.text.as_str());
        wire::append_bytes(out, w.as_slice());
    }

    fn take(b: &[u8]) -> (r: Result<(PresenceRef, &[u8]), String>) {
        match wire::take_str(b) {
            Ok((text, rest)) => Ok((PresenceRef { text }, rest)),
            Err(e) => Err(e),
        }
    }
}

impl Message for PresenceRef {
    open spec fn tag_view() -> Seq<char> {
        "PresenceRef"@
    }

    open spec fn payload(v: Seq<char>) -> Seq<u8> {
        Self::wire(v)
    }

    open spec fn unpacked(bytes: Seq<u8>) -> Option<Seq<char>> {
        match Self::read(bytes) {
            Some((v, _)) => Some(v),
            None => None,
        }
    }

    open spec fn unpack_fault(bytes: Seq<u8>) -> DecodeErrorView {
        DecodeErrorView::Postcard(Self::fault(bytes))
    }

    open spec fn remote(v: Seq<char>) -> Seq<u8> {
        message::tagged(Self::tag_view(), Self::payload(v))
    }

    open spec fn from_remote(bytes: Seq<u8>) -> Option<Seq<char>> {
        match message::stripped(bytes, Self::tag_view()) {
            Some(payload) => Self::unpacked(payload),
            None => None,
        }
    }

    open spec fn remote_fault(bytes: Seq<u8>) -> DecodeErrorView {
        match message::stripped(bytes, Self::tag_view()) {
            Some(payload) => Self::unpack_fault(payload),
            None => DecodeErrorView::InvalidData(message::strip_fault(bytes, Self::tag_view())),
        }
    }

    fn tag() -> (r: &'static str) {
        "PresenceRef"
    }

    fn encode_local(&self) -> (r: Vec<u8>) {
        let mut out: Vec<u8> = Vec::new();
        self.put(&mut out);
        proof {
            assert(Self::wire(self@) + Seq::<u8>::empty() =~= Self::wire(self@));
            assert(out@ =~= Self::wire(self@));
        }
        message::encode_with_tag("PresenceRef", out.as_slice())
    }

    fn decode_local(bytes: &[u8]) -> (r: Result<Self, DecodeError>) {
        match Self::take(bytes) {
            Ok((m, _)) => Ok(m),
            Err(text) => Err(DecodeError::Postcard(text)),
        }
    }

    fn encode_remote(&self) -> (r: Vec<u8>) {
        proof {
            reveal_strlit("PresenceRef");
            message::lemma_stripped("PresenceRef"@, Self::payload(self@));
        }
        self.encode_local()
    }

    fn decode_remote(bytes: &[u8]) -> (r: Result<Self, DecodeError>) {
        match message::strip_tag(bytes, "PresenceRef") {
            Ok(payload) => Self::decode_local(payload),
            Err(e) => Err(e),
        }
    }
}

impl Piece for Tag {
    open spec fn wire(v: TagView) -> Seq<u8> {
        wire::postcard_str(v.replica)
            + wire::postcard_u64(v.clock)
    }

    open spec fn read(b0: Seq<u8>) -> Option<(TagView, Seq<u8>)> {
        match wire::postcard_take_str(b0) {
            None => None,
            Some((replica, b1)) => match wire::postcard_take_u64(b1) {
                None => None,
                Some((clock, b2)) => Some((TagView { replica, clock }, b2)),
            },
        }
    }

    open spec fn fault(b0: Seq<u8>) -> Seq<char> {
        match wire::postcard_take_str(b0) {
            None => wire::postcard_str_fault(b0),
            Some((_, b1)) => wire::postcard_u64_fault(b1),
        }
    }

    fn put(&self, out: &mut Vec<u8>) {
        let ghost before = out@;
        let w_replica = wire::put_str(self.replica.as_str());
        wire::append_bytes(out, w_replica.as_slice());
        let w_clock = wire::put_u64(self.clock);
        wire::append_bytes(out, w_clock.as_slice());
        proof {
            assert(out@ =~= before + Self::wire(self@));
            assert forall|rest: Seq<u8>| #[trigger] Self::read(Self::wire(self@) + rest) == Some(
                (self@, rest),
            ) by {
                assert(
                    Self::wire(self@) + rest =~= wire::postcard_str(self.replica@) + (
                        wire::postcard_u64(self.clock) + rest
                    )
                );
            }
        }
    }

    fn take(b0: &[u8]) -> (r: Result<(Self, &[u8]), String>) {
        match wire::take_str(b0) {
            Err(e) => Err(e),
            Ok((replica, b1)) => match wire::take_u64(b1) {
                Err(e) => Err(e),
                Ok((clock, b2)) => Ok((Tag { replica, clock }, b2)),
            },
        }
    }
}

impl Piece for TrackedEntry {
    open spec fn wire(v: EntryView) -> Seq<u8> {
        wire::postcard_str(v.topic)
            + Pid::wire(v.pid)
            + wire::postcard_str(v.key)
            + wire::postcard_bytes(v.meta)
            + Tag::wire(v.tag)
    }

    open spec fn read(b0: Seq<u8>) -> Option<(EntryView, Seq<u8>)> {
        match wire::postcard_take_str(b0) {
            None => None,
            Some((topic, b1)) => match Pid::read(b1) {
                None => None,
                Some((pid, b2)) => match wire::postcard_take_str(b2) {
                    None => None,
                    Some((key, b3)) => match wire::postcard_take_bytes(b3) {
                        None => None,
                        Some((meta, b4)) => match Tag::read(b4) {
                            None => None,
                            Some((tag, b5)) => Some((EntryView { topic, pid, key, meta, tag }, b5)),
                        },
                    },
                },
            },
        }
    }

    open spec fn fault(b0: Seq<u8>) -> Seq<char> {
        match wire::postcard_take_str(b0) {
            None => wire::postcard_str_fault(b0),
            Some((_, b1)) => match Pid::read(b1) {
                None => Pid::fault(b1),
                Some((_, b2)) => match wire::postcard_take_str(b2) {
                    None => wire::postcard_str_fault(b2),
                    Some((_, b3)) => match wire::postcard_take_bytes(b3) {
                        None => wire::postcard_bytes_fault(b3),
                        Some((_, b4)) => Tag::fault(b4),
                    },
                },
            },
        }
    }

    fn put(&self, out: &mut Vec<u8>) {
        let ghost before = out@;
        let w_topic = wire::put_str(self.topic.as_str());
        wire::append_bytes(out, w_topic.as_slice());
        self.pid.put(out);
        let w_key = wire::put_str(self.key.as_str());
        wire::append_bytes(out, w_key.as_slice());
        let w_meta = wire::put_bytes(self.meta.as_slice());
        wire::append_bytes(out, w_meta.as_slice());
        self.tag.put(out);
        proof {
            assert(out@ =~= before + Self::wire(self@));
            assert forall|rest: Seq<u8>| #[trigger] Self::read(Self::wire(self@) + rest) == Some(
                (self@, rest),
            ) by {
                assert(
                    Self::wire(self@) + rest =~= wire::postcard_str(self.topic@) + (
                        Pid::wire(self.pid@) + (
                            wire::postcard_str(self.key@) + (
                                wire::postcard_bytes(self.meta@) + (Tag::wire(self.tag@) + rest)
                            )
                        )
                    )
                );
            }
        }
    }

    fn take(b0: &[u8]) -> (r: Result<(Self, &[u8]), String>) {
        match wire::take_str(b0) {
            Err(e) => Err(e),
            Ok((topic, b1)) => match Pid::take(b1) {
                Err(e) => Err(e),
                Ok((pid, b2)) => match wire::take_str(b2) {
                    Err(e) => Err(e),
                    Ok((key, b3)) => match wire::take_bytes(b3) {
                        Err(e) => Err(e),
                        Ok((meta, b4)) => match Tag::take(b4) {
                            Err(e) => Err(e),
                            Ok((tag, b5)) => Ok((TrackedEntry { topic, pid, key, meta, tag }, b5)),
                        },
                    },
                },
            },
        }
    }
}

/// What `SharedDelta` stands for.
#[verifier::ext_equal]
pub struct SharedDeltaView {
    /// The entries added.
    pub joins: Seq<EntryView>,
    /// The tags of the entries removed.
    pub leave_tags: Seq<TagView>,
    /// The causal context of the sender.
    pub context: Seq<(Seq<char>, u64)>,
}

/// A delta in the form in which it is sent.
pub struct SharedDelta {
    /// The entries added.
    pub joins: Vec<TrackedEntry>,
    /// The tags of the entries removed.
    pub leave_tags: Vec<Tag>,
    /// The causal context of the sender.
    pub context: Dict<u64>,
}

impl View for SharedDelta {
    type V = SharedDeltaView;

    open spec fn view(&self) -> SharedDeltaView {
        SharedDeltaView {
            joins: table::views(self.joins@),
            leave_tags: table::views(self.leave_tags@),
            context: self.context@,
        }
    }
}

impl Piece for SharedDelta {
    open spec fn wire(v: SharedDeltaView) -> Seq<u8> {
        piece::list_wire::<TrackedEntry>(v.joins)
            + piece::list_wire::<Tag>(v.leave_tags)
            + Dict::<u64>::wire(v.context)
    }

    open spec fn read(b0: Seq<u8>) -> Option<(SharedDeltaView, Seq<u8>)> {
        match piece::list_read::<TrackedEntry>(b0) {
            None => None,
            Some((joins, b1)) => match piece::list_read::<Tag>(b1) {
                None => None,
                Some((leave_tags, b2)) => match Dict::<u64>::read(b2) {
                    None => None,
                    Some((context, b3)) => Some(
                        (SharedDeltaView { joins, leave_tags, context }, b3)
                    ),
                },
            },
        }
    }

    open spec fn fault(b0: Seq<u8>) -> Seq<char> {
        match piece::list_read::<TrackedEntry>(b0) {
            None => piece::list_fault::<TrackedEntry>(b0),
            Some((_, b1)) => match piece::list_read::<Tag>(b1) {
                None => piece::list_fault::<Tag>(b1),
                Some((_, b2)) => Dict::<u64>::fault(b2),
            },
        }
    }

    fn put(&self, out: &mut Vec<u8>) {
        let ghost before = out@;
        piece::put_list(out, &self.joins);
        piece::put_list(out, &self.leave_tags);
        self.context.put(out);
        proof {
            assert(out@ =~= before + Self::wire(self@));
            assert forall|rest: Seq<u8>| #[trigger] Self::read(Self::wire(self@) + rest) == Some(
                (self@, rest),
            ) by {
                assert(
                    Self::wire(self@) + rest =~= piece::list_wire::<TrackedEntry>(table::views(self.joins@)) + (
                        piece::list_wire::<Tag>(table::views(self.leave_tags@)) + (
                            Dict::<u64>::wire(self.context@) + rest
                        )
                    )
                );
            }
        }
    }

    fn take(b0: &[u8]) -> (r: Result<(Self, &[u8]), String>) {
        match piece::take_list::<TrackedEntry>(b0) {
            Err(e) => Err(e),
            Ok((joins, b1)) => match piece::take_list::<Tag>(b1) {
                Err(e) => Err(e),
                Ok((leave_tags, b2)) => match Dict::<u64>::take(b2) {
                    Err(e) => Err(e),
                    Ok((context, b3)) => Ok((SharedDelta { joins, leave_tags, context }, b3)),
                },
            },
        }
    }
}

/// What `PresenceMeta` stands for.
#[verifier::ext_equal]
pub struct PresenceMetaView {
    /// The reference of this presence.
    pub phx_ref: Seq<char>,
    /// The reference that it replaces.
    pub phx_ref_prev: Option<Seq<char>>,
    /// The process that is present.
    pub pid: PidView,
    /// The encoded custom metadata.
    pub meta: Seq<u8>,
    /// When it was last updated, in seconds.
    pub updated_at: u64,
}

/// One presence under a key.
pub struct PresenceMeta {
    /// The reference of this presence.
    pub phx_ref: PresenceRef,
    /// The reference that it replaces.
    pub phx_ref_prev: Option<PresenceRef>,
    /// The process that is present.
    pub pid: Pid,
    /// The encoded custom metadata.
    pub meta: Vec<u8>,
    /// When it was last updated, in seconds.
    pub updated_at: u64,
}

impl View for PresenceMeta {
    type V = PresenceMetaView;

    open spec fn view(&self) -> PresenceMetaView {
        PresenceMetaView {
            phx_ref: self.phx_ref@,
            phx_ref_prev: piece::option_view(self.phx_ref_prev),
            pid: self.pid@,
            meta: self.meta@,
            updated_at: self.updated_at,
        }
    }
}

impl Piece for PresenceMeta {
    open spec fn wire(v: PresenceMetaView) -> Seq<u8> {
        PresenceRef::wire(v.phx_ref)
            + piece::option_wire::<PresenceRef>(v.phx_ref_prev)
            + Pid::wire(v.pid)
            + wire::postcard_bytes(v.meta)
            + wire::postcard_u64(v.updated_at)
    }

    open spec fn read(b0: Seq<u8>) -> Option<(PresenceMetaView, Seq<u8>)> {
        match PresenceRef::read(b0) {
            None => None,
            Some((phx_ref, b1)) => match piece::option_read::<PresenceRef>(b1) {
                None => None,
                Some((phx_ref_prev, b2)) => match Pid::read(b2) {
                    None => None,
                    Some((pid, b3)) => match wire::postcard_take_bytes(b3) {
                        None => None,
                        Some((meta, b4)) => match wire::postcard_take_u64(b4) {
                            None => None,
                            Some((updated_at, b5)) => Some(
                                (
                                    PresenceMetaView {
                                        phx_ref,
                                        phx_ref_prev,
                                        pid,
                                        meta,
                                        updated_at
                                    },
                                    b5
                                )
                            ),
                        },
                    },
                },
            },
        }
    }

    open spec fn fault(b0: Seq<u8>) -> Seq<char> {
        match PresenceRef::read(b0) {
            None => PresenceRef::fault(b0),
            Some((_, b1)) => match piece::option_read::<PresenceRef>(b1) {
                None => piece::option_fault::<PresenceRef>(b1),
                Some((_, b2)) => match Pid::read(b2) {
                    None => Pid::fault(b2),
                    Some((_, b3)) => match wire::postcard_take_bytes(b3) {
                        None => wire::postcard_bytes_fault(b3),
                        Some((_, b4)) => wire::postcard_u64_fault(b4),
                    },
                },
            },
        }
    }

    fn put(&self, out: &mut Vec<u8>) {
        let ghost before = out@;
        self.phx_ref.put(out);
        piece::put_option(out, &self.phx_ref_prev);
        self.pid.put(out);
        let w_meta = wire::put_bytes(self.meta.as_slice());
        wire::append_bytes(out, w_meta.as_slice());
        let w_updated_at = wire::put_u64(self.updated_at);
        wire::append_bytes(out, w_updated_at.as_slice());
        proof {
            assert(out@ =~= before + Self::wire(self@));
            assert forall|rest: Seq<u8>| #[trigger] Self::read(Self::wire(self@) + rest) == Some(
                (self@, rest),
            ) by {
                assert(
                    Self::wire(self@) + rest =~= PresenceRef::wire(self.phx_ref@) + (
                        piece::option_wire::<PresenceRef>(piece::option_view(self.phx_ref_prev)) + (
                            Pid::wire(self.pid@) + (
                                wire::postcard_bytes(self.meta@) + (
                                    wire::postcard_u64(self.updated_at) + rest
                                )
                            )
                        )
                    )
                );
            }
        }
    }

    fn take(b0: &[u8]) -> (r: Result<(Self, &[u8]), String>) {
        match PresenceRef::take(b0) {
            Err(e) => Err(e),
            Ok((phx_ref, b1)) => match piece::take_option::<PresenceRef>(b1) {
                Err(e) => Err(e),
                Ok((phx_ref_prev, b2)) => match Pid::take(b2) {
                    Err(e) => Err(e),
                    Ok((pid, b3)) => match wire::take_bytes(b3) {
                        Err(e) => Err(e),
                        Ok((meta, b4)) => match wire::take_u64(b4) {
                            Err(e) => Err(e),
                            Ok((updated_at, b5)) => Ok(
                                (PresenceMeta { phx_ref, phx_ref_prev, pid, meta, updated_at }, b5)
                            ),
                        },
                    },
                },
            },
        }
    }
}

/// What `PresenceState` stands for.
#[verifier::ext_equal]
pub struct PresenceStateView {
    /// The presences.
    pub metas: Seq<PresenceMetaView>,
}

/// All presences under a key: the same user may be present more than once.
pub struct PresenceState {
    /// The presences.
    pub metas: Vec<PresenceMeta>,
}

impl View for PresenceState {
    type V = PresenceStateView;

    open spec fn view(&self) -> PresenceStateView {
        PresenceStateView {
            metas: table::views(self.metas@),
        }
    }
}

impl Piece for PresenceState {
    open spec fn wire(v: PresenceStateView) -> Seq<u8> {
        piece::list_wire::<PresenceMeta>(v.metas)
    }

    open spec fn read(b0: Seq<u8>) -> Option<(PresenceStateView, Seq<u8>)> {
        match piece::list_read::<PresenceMeta>(b0) {
            None => None,
            Some((metas, b1)) => Some((PresenceStateView { metas }, b1)),
        }
    }

    open spec fn fault(b0: Seq<u8>) -> Seq<char> {
        piece::list_fault::<PresenceMeta>(b0)
    }

    fn put(&self, out: &mut Vec<u8>) {
        let ghost before = out@;
        piece::put_list(out, &self.metas);
        proof {
            assert(out@ =~= before + Self::wire(self@));
            assert forall|rest: Seq<u8>| #[trigger] Self::read(Self::wire(self@) + rest) == Some(
                (self@, rest),
            ) by {
                assert(
                    Self::wire(self@) + rest =~= piece::list_wire::<PresenceMeta>(
                        table::views(self.metas@)
                    ) + rest
                );
            }
        }
    }

    fn take(b0: &[u8]) -> (r: Result<(Self, &[u8]), String>) {
        match piece::take_list::<PresenceMeta>(b0) {
            Err(e) => Err(e),
            Ok((metas, b1)) => Ok((PresenceState { metas }, b1)),
        }
    }
}

/// What `PresenceDiff` stands for.
#[verifier::ext_equal]
pub struct PresenceDiffView {
    /// Who joined or was updated, by key.
    pub joins: Seq<(Seq<char>, PresenceStateView)>,
    /// Who left, by key.
    pub leaves: Seq<(Seq<char>, PresenceStateView)>,
}

/// Who joined and who left.
pub struct PresenceDiff {
    /// Who joined or was updated, by key.
    pub joins: Dict<PresenceState>,
    /// Who left, by key.
    pub leaves: Dict<PresenceState>,
}

impl View for PresenceDiff {
    type V = PresenceDiffView;

    open spec fn view(&self) -> PresenceDiffView {
        PresenceDiffView {
            joins: self.joins@,
            leaves: self.leaves@,
        }
    }
}

impl Piece for PresenceDiff {
    open spec fn wire(v: PresenceDiffView) -> Seq<u8> {
        Dict::<PresenceState>::wire(v.joins)
            + Dict::<PresenceState>::wire(v.leaves)
    }

    open spec fn read(b0: Seq<u8>) -> Option<(PresenceDiffView, Seq<u8>)> {
        match Dict::<PresenceState>::read(b0) {
            None => None,
            Some((joins, b1)) => match Dict::<PresenceState>::read(b1) {
                None => None,
                Some((leaves, b2)) => Some((PresenceDiffView { joins, leaves }, b2)),
            },
        }
    }

    open spec fn fault(b0: Seq<u8>) -> Seq<char> {
        match Dict::<PresenceState>::read(b0) {
            None => Dict::<PresenceState>::fault(b0),
            Some((_, b1)) => Dict::<PresenceState>::fault(b1),
        }
    }

    fn put(&self, out: &mut Vec<u8>) {
        let ghost before = out@;
        self.joins.put(out);
        self.leaves.put(out);
        proof {
            assert(out@ =~= before + Self::wire(self@));
            assert forall|rest: Seq<u8>| #[trigger] Self::read(Self::wire(self@) + rest) == Some(
                (self@, rest),
            ) by {
                assert(
                    Self::wire(self@) + rest =~= Dict::<PresenceState>::wire(self.joins@) + (
                        Dict::<PresenceState>::wire(self.leaves@) + rest
                    )
                );
            }
        }
    }

    fn take(b0: &[u8]) -> (r: Result<(Self, &[u8]), String>) {
        match Dict::<PresenceState>::take(b0) {
            Err(e) => Err(e),
            Ok((joins, b1)) => match Dict::<PresenceState>::take(b1) {
                Err(e) => Err(e),
                Ok((leaves, b2)) => Ok((PresenceDiff { joins, leaves }, b2)),
            },
        }
    }
}

/// What `PresenceMessage` stands for.
#[verifier::ext_equal]
pub enum PresenceMessageView {
    /// Who joined and left a topic.
    Delta {
        /// The topic.
        topic: Seq<char>,
        /// The changes.
        diff: PresenceDiffView,
    },
    /// Who is present in a topic.
    StateSync {
        /// The topic.
        topic: Seq<char>,
        /// The presences by key.
        state: Seq<(Seq<char>, PresenceStateView)>,
    },
    /// Asks for all that a server knows.
    SyncRequest {
        /// The server that asks.
        from: PidView,
    },
    /// All that a server knows.
    SyncResponse {
        /// The presences by topic and key.
        state: Seq<(Seq<char>, Seq<(Seq<char>, PresenceStateView)>)>,
    },
}

/// What presence servers and their subscribers are told of changes.
pub enum PresenceMessage {
    /// Who joined and left a topic.
    Delta {
        /// The topic.
        topic: String,
        /// The changes.
        diff: PresenceDiff,
    },
    /// Who is present in a topic.
    StateSync {
        /// The topic.
        topic: String,
        /// The presences by key.
        state: Dict<PresenceState>,
    },
    /// Asks for all that a server knows.
    SyncRequest {
        /// The server that asks.
        from: Pid,
    },
    /// All that a server knows.
    SyncResponse {
        /// The presences by topic and key.
        state: Dict<Dict<PresenceState>>,
    },
}

impl View for PresenceMessage {
    type V = PresenceMessageView;

    open spec fn view(&self) -> PresenceMessageView {
        match *self {
            PresenceMessage::Delta { topic, diff } => PresenceMessageView::Delta {
                topic: topic@,
                diff: diff@,
            },
            PresenceMessage::StateSync { topic, state } => PresenceMessageView::StateSync {
                topic: topic@,
                state: state@,
            },
            PresenceMessage::SyncRequest { from } => PresenceMessageView::SyncRequest {
                from: from@,
            },
            PresenceMessage::SyncResponse { state } => PresenceMessageView::SyncResponse {
                state: state@,
            },
        }
    }
}

/// The fields of `PresenceMessage::Delta` at the front of some bytes.
pub open spec fn presence_message_delta_read(b0: Seq<u8>) -> Option<(
    PresenceMessageView,
    Seq<u8>
)> {
    match wire::postcard_take_str(b0) {
        None => None,
        Some((topic, b1)) => match PresenceDiff::read(b1) {
            None => None,
            Some((diff, b2)) => Some((PresenceMessageView::Delta { topic, diff }, b2)),
        },
    }
}

/// What is wrong with bytes that do not begin with a fields of `PresenceMessage::Delta`.
pub open spec fn presence_message_delta_fault(b0: Seq<u8>) -> Seq<char> {
    match wire::postcard_take_str(b0) {
        None => wire::postcard_str_fault(b0),
        Some((_, b1)) => PresenceDiff::fault(b1),
    }
}

/// The fields of `PresenceMessage::StateSync` at the front of some bytes.
pub open spec fn presence_message_state_sync_read(b0: Seq<u8>) -> Option<(
    PresenceMessageView,
    Seq<u8>
)> {
    match wire::postcard_take_str(b0) {
        None => None,
        Some((topic, b1)) => match Dict::<PresenceState>::read(b1) {
            None => None,
            Some((state, b2)) => Some((PresenceMessageView::StateSync { topic, state }, b2)),
        },
    }
}

/// What is wrong with bytes that do not begin with a fields of `PresenceMessage::StateSync`.
pub open spec fn presence_message_state_sync_fault(b0: Seq<u8>) -> Seq<char> {
    match wire::postcard_take_str(b0) {
        None => wire::postcard_str_fault(b0),
        Some((_, b1)) => Dict::<PresenceState>::fault(b1),
    }
}

/// The fields of `PresenceMessage::SyncRequest` at the front of some bytes.
pub open spec fn presence_message_sync_request_read(b0: Seq<u8>) -> Option<(
    PresenceMessageView,
    Seq<u8>
)> {
    match Pid::read(b0) {
        None => None,
        Some((from, b1)) => Some((PresenceMessageView::SyncRequest { from }, b1)),
    }
}

/// What is wrong with bytes that do not begin with a fields of `PresenceMessage::SyncRequest`.
pub open spec fn presence_message_sync_request_fault(b0: Seq<u8>) -> Seq<char> {
    Pid::fault(b0)
}

/// The fields of `PresenceMessage::SyncResponse` at the front of some bytes.
pub open spec fn presence_message_sync_response_read(b0: Seq<u8>) -> Option<(
    PresenceMessageView,
    Seq<u8>
)> {
    match Dict::<Dict::<PresenceState>>::read(b0) {
        None => None,
        Some((state, b1)) => Some((PresenceMessageView::SyncResponse { state }, b1)),
    }
}

/// What is wrong with bytes that do not begin with a fields of `PresenceMessage::SyncResponse`.
pub open spec fn presence_message_sync_response_fault(b0: Seq<u8>) -> Seq<char> {
    Dict::<Dict::<PresenceState>>::fault(b0)
}

impl Piece for PresenceMessage {
    open spec fn wire(v: PresenceMessageView) -> Seq<u8> {
        match v {
            PresenceMessageView::Delta { topic, diff } => wire::postcard_u32(0)
                + wire::postcard_str(topic)
                + PresenceDiff::wire(diff),
            PresenceMessageView::StateSync { topic, state } => wire::postcard_u32(1)
                + wire::postcard_str(topic)
                + Dict::<PresenceState>::wire(state),
            PresenceMessageView::SyncRequest { from } => wire::postcard_u32(2)
                + Pid::wire(from),
            PresenceMessageView::SyncResponse { state } => wire::postcard_u32(3)
                + Dict::<Dict::<PresenceState>>::wire(state),
        }
    }

    open spec fn read(b: Seq<u8>) -> Option<(PresenceMessageView, Seq<u8>)> {
        match wire::postcard_take_u32(b) {
            None => None,
            Some((kind, b0)) => if kind == 0 {
                presence_message_delta_read(b0)
            } else if kind == 1 {
                presence_message_state_sync_read(b0)
            } else if kind == 2 {
                presence_message_sync_request_read(b0)
            } else if kind == 3 {
                presence_message_sync_response_read(b0)
            } else {
                None
            },
        }
    }

    open spec fn fault(b: Seq<u8>) -> Seq<char> {
        match wire::postcard_take_u32(b) {
            None => wire::postcard_u32_fault(b),
            Some((kind, b0)) => if kind == 0 {
                presence_message_delta_fault(b0)
            } else if kind == 1 {
                presence_message_state_sync_fault(b0)
            } else if kind == 2 {
                presence_message_sync_request_fault(b0)
            } else if kind == 3 {
                presence_message_sync_response_fault(b0)
            } else {
                wire::BAD_VARIANT@
            },
        }
    }

    fn put(&self, out: &mut Vec<u8>) {
        match self {
            PresenceMessage::Delta { topic, diff } => put_presence_message_delta(out, topic, diff),
            PresenceMessage::StateSync { topic, state } => put_presence_message_state_sync(out, topic, state),
            PresenceMessage::SyncRequest { from } => put_presence_message_sync_request(out, from),
            PresenceMessage::SyncResponse { state } => put_presence_message_sync_response(out, state),
        }
    }

    fn take(b: &[u8]) -> (r: Result<(Self, &[u8]), String>) {
        match wire::take_u32(b) {
            Err(e) => Err(e),
            Ok((kind, b0)) => if kind == 0 {
                take_presence_message_delta(b0)
            } else if kind == 1 {
                take_presence_message_state_sync(b0)
            } else if kind == 2 {
                take_presence_message_sync_request(b0)
            } else if kind == 3 {
                take_presence_message_sync_response(b0)
            } else {
                Err(wire::BAD_VARIANT.to_owned())
            },
        }
    }
}

fn put_presence_message_delta(out: &mut Vec<u8>, topic: &String, diff: &PresenceDiff)
    ensures
        final(out)@ == old(out)@ + PresenceMessage::wire(
            (PresenceMessageView::Delta { topic: topic@, diff: diff@ }),
        ),
        forall|rest: Seq<u8>| #[trigger]
            PresenceMessage::read(
                PresenceMessage::wire(
                    (PresenceMessageView::Delta { topic: topic@, diff: diff@ })
                ) + rest,
            ) == Some(((PresenceMessageView::Delta { topic: topic@, diff: diff@ }), rest)),
{
    let ghost before = out@;
    let kind = wire::put_u32(0);
    wire::append_bytes(out, kind.as_slice());
    let w_topic = wire::put_str(topic.as_str());
    wire::append_bytes(out, w_topic.as_slice());
    diff.put(out);
    proof {
        let v = PresenceMessageView::Delta { topic: topic@, diff: diff@ };
        assert(out@ =~= before + PresenceMessage::wire(v));
        assert forall|rest: Seq<u8>| #[trigger] PresenceMessage::read(
            PresenceMessage::wire(v) + rest
        ) == Some(
            (v, rest),
        ) by {
            assert(
                PresenceMessage::wire(v) + rest =~= kind@ + (
                    wire::postcard_str(topic@) + (PresenceDiff::wire(diff@) + rest)
                )
            );
        }
    }
}

fn take_presence_message_delta(b0: &[u8]) -> (r: Result<(PresenceMessage, &[u8]), String>)
    ensures
        match r {
            Ok((m, rest)) => presence_message_delta_read(b0@) == Some((m@, rest@)),
            Err(e) => presence_message_delta_read(b0@) is None && e@
                == presence_message_delta_fault(b0@),
        },
{
    match wire::take_str(b0) {
        Err(e) => Err(e),
        Ok((topic, b1)) => match PresenceDiff::take(b1) {
            Err(e) => Err(e),
            Ok((diff, b2)) => Ok((PresenceMessage::Delta { topic, diff }, b2)),
        },
    }
}

fn put_presence_message_state_sync(out: &mut Vec<u8>, topic: &String, state: &Dict<PresenceState>)
    ensures
        final(out)@ == old(out)@ + PresenceMessage::wire(
            (PresenceMessageView::StateSync { topic: topic@, state: state@ }),
        ),
        forall|rest: Seq<u8>| #[trigger]
            PresenceMessage::read(
                PresenceMessage::wire(
                    (PresenceMessageView::StateSync { topic: topic@, state: state@ })
                ) + rest,
            ) == Some(((PresenceMessageView::StateSync { topic: topic@, state: state@ }), rest)),
{
    let ghost before = out@;
    let kind = wire::put_u32(1);
    wire::append_bytes(out, kind.as_slice());
    let w_topic = wire::put_str(topic.as_str());
    wire::append_bytes(out, w_topic.as_slice());
    state.put(out);
    proof {
        let v = PresenceMessageView::StateSync { topic: topic@, state: state@ };
        assert(out@ =~= before + PresenceMessage::wire(v));
        assert forall|rest: Seq<u8>| #[trigger] PresenceMessage::read(
            PresenceMessage::wire(v) + rest
        ) == Some(
            (v, rest),
        ) by {
            assert(
                PresenceMessage::wire(v) + rest =~= kind@ + (
                    wire::postcard_str(topic@) + (Dict::<PresenceState>::wire(state@) + rest)
                )
            );
        }
    }
}

fn take_presence_message_state_sync(b0: &[u8]) -> (r: Result<(PresenceMessage, &[u8]), String>)
    ensures
        match r {
            Ok((m, rest)) => presence_message_state_sync_read(b0@) == Some((m@, rest@)),
            Err(e) => presence_message_state_sync_read(b0@) is None && e@
                == presence_message_state_sync_fault(b0@),
        },
{
    match wire::take_str(b0) {
        Err(e) => Err(e),
        Ok((topic, b1)) => match Dict::<PresenceState>::take(b1) {
            Err(e) => Err(e),
            Ok((state, b2)) => Ok((PresenceMessage::StateSync { topic, state }, b2)),
        },
    }
}

fn put_presence_message_sync_request(out: &mut Vec<u8>, from: &Pid)
    ensures
        final(out)@ == old(out)@ + PresenceMessage::wire(
            (PresenceMessageView::SyncRequest { from: from@ }),
        ),
        forall|rest: Seq<u8>| #[trigger]
            PresenceMessage::read(
                PresenceMessage::wire((PresenceMessageView::SyncRequest { from: from@ })) + rest,
            ) == Some(((PresenceMessageView::SyncRequest { from: from@ }), rest)),
{
    let ghost before = out@;
    let kind = wire::put_u32(2);
    wire::append_bytes(out, kind.as_slice());
    from.put(out);
    proof {
        let v = PresenceMessageView::SyncRequest { from: from@ };
        assert(out@ =~= before + PresenceMessage::wire(v));
        assert forall|rest: Seq<u8>| #[trigger] PresenceMessage::read(
            PresenceMessage::wire(v) + rest
        ) == Some(
            (v, rest),
        ) by {
            assert(PresenceMessage::wire(v) + rest =~= kind@ + (Pid::wire(from@) + rest));
        }
    }
}

fn take_presence_message_sync_request(b0: &[u8]) -> (r: Result<(PresenceMessage, &[u8]), String>)
    ensures
        match r {
            Ok((m, rest)) => presence_message_sync_request_read(b0@) == Some((m@, rest@)),
            Err(e) => presence_message_sync_request_read(b0@) is None && e@
                == presence_message_sync_request_fault(b0@),
        },
{
    match Pid::take(b0) {
        Err(e) => Err(e),
        Ok((from, b1)) => Ok((PresenceMessage::SyncRequest { from }, b1)),
    }
}

fn put_presence_message_sync_response(out: &mut Vec<u8>, state: &Dict<Dict<PresenceState>>)
    ensures
        final(out)@ == old(out)@ + PresenceMessage::wire(
            (PresenceMessageView::SyncResponse { state: state@ }),
        ),
        forall|rest: Seq<u8>| #[trigger]
            PresenceMessage::read(
                PresenceMessage::wire((PresenceMessageView::SyncResponse { state: state@ })) + rest,
            ) == Some(((PresenceMessageView::SyncResponse { state: state@ }), rest)),
{
    let ghost before = out@;
    let kind = wire::put_u32(3);
    wire::append_bytes(out, kind.as_slice());
    state.put(out);
    proof {
        let v = PresenceMessageView::SyncResponse { state: state@ };
        assert(out@ =~= before + PresenceMessage::wire(v));
        assert forall|rest: Seq<u8>| #[trigger] PresenceMessage::read(
            PresenceMessage::wire(v) + rest
        ) == Some(
            (v, rest),
        ) by {
            assert(
                PresenceMessage::wire(v) + rest =~= kind@ + (
                    Dict::<Dict::<PresenceState>>::wire(state@) + rest
                )
            );
        }
    }
}

fn take_presence_message_sync_response(b0: &[u8]) -> (r: Result<(PresenceMessage, &[u8]), String>)
    ensures
        match r {
            Ok((m, rest)) => presence_message_sync_response_read(b0@) == Some((m@, rest@)),
            Err(e) => presence_message_sync_response_read(b0@) is None && e@
                == presence_message_sync_response_fault(b0@),
        },
{
    match Dict::<Dict::<PresenceState>>::take(b0) {
        Err(e) => Err(e),
        Ok((state, b1)) => Ok((PresenceMessage::SyncResponse { state }, b1)),
    }
}

/// What `CrdtPresenceMessage` stands for.
#[verifier::ext_equal]
pub enum CrdtPresenceMessageView {
    /// Changes of a replica.
    Delta {
        /// The topic.
        topic: Seq<char>,
        /// The changes.
        delta: SharedDeltaView,
    },
    /// Asks for what the sender has not seen.
    SyncRequest {
        /// The server that asks.
        from: PidView,
        /// What it has seen.
        context: Seq<(Seq<char>, u64)>,
    },
    /// What the receiver has not seen.
    SyncResponse {
        /// The changes.
        delta: SharedDeltaView,
    },
}

/// What presence servers tell each other of their replicas.
pub enum CrdtPresenceMessage {
    /// Changes of a replica.
    Delta {
        /// The topic.
        topic: String,
        /// The changes.
        delta: SharedDelta,
    },
    /// Asks for what the sender has not seen.
    SyncRequest {
        /// The server that asks.
        from: Pid,
        /// What it has seen.
        context: Dict<u64>,
    },
    /// What the receiver has not seen.
    SyncResponse {
        /// The changes.
        delta: SharedDelta,
    },
}

impl View for CrdtPresenceMessage {
    type V = CrdtPresenceMessageView;

    open spec fn view(&self) -> CrdtPresenceMessageView {
        match *self {
            CrdtPresenceMessage::Delta { topic, delta } => CrdtPresenceMessageView::Delta {
                topic: topic@,
                delta: delta@,
            },
            CrdtPresenceMessage::SyncRequest { from, context } => CrdtPresenceMessageView::SyncRequest {
                from: from@,
                context: context@,
            },
            CrdtPresenceMessage::SyncResponse { delta } => CrdtPresenceMessageView::SyncResponse {
                delta: delta@,
            },
        }
    }
}

/// The fields of `CrdtPresenceMessage::Delta` at the front of some bytes.
pub open spec fn crdt_presence_message_delta_read(b0: Seq<u8>) -> Option<(
    CrdtPresenceMessageView,
    Seq<u8>
)> {
    match wire::postcard_take_str(b0) {
        None => None,
        Some((topic, b1)) => match SharedDelta::read(b1) {
            None => None,
            Some((delta, b2)) => Some((CrdtPresenceMessageView::Delta { topic, delta }, b2)),
        },
    }
}

/// What is wrong with bytes that do not begin with a fields of `CrdtPresenceMessage::Delta`.
pub open spec fn crdt_presence_message_delta_fault(b0: Seq<u8>) -> Seq<char> {
    match wire::postcard_take_str(b0) {
        None => wire::postcard_str_fault(b0),
        Some((_, b1)) => SharedDelta::fault(b1),
    }
}

/// The fields of `CrdtPresenceMessage::SyncRequest` at the front of some bytes.
pub open spec fn crdt_presence_message_sync_request_read(b0: Seq<u8>) -> Option<(
    CrdtPresenceMessageView,
    Seq<u8>
)> {
    match Pid::read(b0) {
        None => None,
        Some((from, b1)) => match Dict::<u64>::read(b1) {
            None => None,
            Some((context, b2)) => Some(
                (CrdtPresenceMessageView::SyncRequest { from, context }, b2)
            ),
        },
    }
}

/// What is wrong with bytes that do not begin with a fields of `CrdtPresenceMessage::SyncRequest`.
pub open spec fn crdt_presence_message_sync_request_fault(b0: Seq<u8>) -> Seq<char> {
    match Pid::read(b0) {
        None => Pid::fault(b0),
        Some((_, b1)) => Dict::<u64>::fault(b1),
    }
}

/// The fields of `CrdtPresenceMessage::SyncResponse` at the front of some bytes.
pub open spec fn crdt_presence_message_sync_response_read(b0: Seq<u8>) -> Option<(
    CrdtPresenceMessageView,
    Seq<u8>
)> {
    match SharedDelta::read(b0) {
        None => None,
        Some((delta, b1)) => Some((CrdtPresenceMessageView::SyncResponse { delta }, b1)),
    }
}

/// What is wrong with bytes that do not begin with a fields of `CrdtPresenceMessage::SyncResponse`.
pub open spec fn crdt_presence_message_sync_response_fault(b0: Seq<u8>) -> Seq<char> {
    SharedDelta::fault(b0)
}

impl Piece for CrdtPresenceMessage {
    open spec fn wire(v: CrdtPresenceMessageView) -> Seq<u8> {
        match v {
            CrdtPresenceMessageView::Delta { topic, delta } => wire::postcard_u32(0)
                + wire::postcard_str(topic)
                + SharedDelta::wire(delta),
            CrdtPresenceMessageView::SyncRequest { from, context } => wire::postcard_u32(1)
                + Pid::wire(from)
                + Dict::<u64>::wire(context),
            CrdtPresenceMessageView::SyncResponse { delta } => wire::postcard_u32(2)
                + SharedDelta::wire(delta),
        }
    }

    open spec fn read(b: Seq<u8>) -> Option<(CrdtPresenceMessageView, Seq<u8>)> {
        match wire::postcard_take_u32(b) {
            None => None,
            Some((kind, b0)) => if kind == 0 {
                crdt_presence_message_delta_read(b0)
            } else if kind == 1 {
                crdt_presence_message_sync_request_read(b0)
            } else if kind == 2 {
                crdt_presence_message_sync_response_read(b0)
            } else {
                None
            },
        }
    }

    open spec fn fault(b: Seq<u8>) -> Seq<char> {
        match wire::postcard_take_u32(b) {
            None => wire::postcard_u32_fault(b),
            Some((kind, b0)) => if kind == 0 {
                crdt_presence_message_delta_fault(b0)
            } else if kind == 1 {
                crdt_presence_message_sync_request_fault(b0)
            } else if kind == 2 {
                crdt_presence_message_sync_response_fault(b0)
            } else {
                wire::BAD_VARIANT@
            },
        }
    }

    fn put(&self, out: &mut Vec<u8>) {
        match self {
            CrdtPresenceMessage::Delta { topic, delta } => put_crdt_presence_message_delta(out, topic, delta),
            CrdtPresenceMessage::SyncRequest { from, context } => put_crdt_presence_message_sync_request(out, from, context),
            CrdtPresenceMessage::SyncResponse { delta } => put_crdt_presence_message_sync_response(out, delta),
        }
    }

    fn take(b: &[u8]) -> (r: Result<(Self, &[u8]), String>) {
        match wire::take_u32(b) {
            Err(e) => Err(e),
            Ok((kind, b0)) => if kind == 0 {
                take_crdt_presence_message_delta(b0)
            } else if kind == 1 {
                take_crdt_presence_message_sync_request(b0)
            } else if kind == 2 {
                take_crdt_presence_message_sync_response(b0)
            } else {
                Err(wire::BAD_VARIANT.to_owned())
            },
        }
    }
}

fn put_crdt_presence_message_delta(out: &mut Vec<u8>, topic: &String, delta: &SharedDelta)
    ensures
        final(out)@ == old(out)@ + CrdtPresenceMessage::wire(
            (CrdtPresenceMessageView::Delta { topic: topic@, delta: delta@ }),
        ),
        forall|rest: Seq<u8>| #[trigger]
            CrdtPresenceMessage::read(
                CrdtPresenceMessage::wire(
                    (CrdtPresenceMessageView::Delta { topic: topic@, delta: delta@ })
                ) + rest,
            ) == Some(((CrdtPresenceMessageView::Delta { topic: topic@, delta: delta@ }), rest)),
{
    let ghost before = out@;
    let kind = wire::put_u32(0);
    wire::append_bytes(out, kind.as_slice());
    let w_topic = wire::put_str(topic.as_str());
    wire::append_bytes(out, w_topic.as_slice());
    delta.put(out);
    proof {
        let v = CrdtPresenceMessageView::Delta { topic: topic@, delta: delta@ };
        assert(out@ =~= before + CrdtPresenceMessage::wire(v));
        assert forall|rest: Seq<u8>| #[trigger] CrdtPresenceMessage::read(
            CrdtPresenceMessage::wire(v) + rest
        ) == Some(
            (v, rest),
        ) by {
            assert(
                CrdtPresenceMessage::wire(v) + rest =~= kind@ + (
                    wire::postcard_str(topic@) + (SharedDelta::wire(delta@) + rest)
                )
            );
        }
    }
}

fn take_crdt_presence_message_delta(b0: &[u8]) -> (r: Result<(CrdtPresenceMessage, &[u8]), String>)
    ensures
        match r {
            Ok((m, rest)) => crdt_presence_message_delta_read(b0@) == Some((m@, rest@)),
            Err(e) => crdt_presence_message_delta_read(b0@) is None && e@
                == crdt_presence_message_delta_fault(b0@),
        },
{
    match wire::take_str(b0) {
        Err(e) => Err(e),
        Ok((topic, b1)) => match SharedDelta::take(b1) {
            Err(e) => Err(e),
            Ok((delta, b2)) => Ok((CrdtPresenceMessage::Delta { topic, delta }, b2)),
        },
    }
}

fn put_crdt_presence_message_sync_request(out: &mut Vec<u8>, from: &Pid, context: &Dict<u64>)
    ensures
        final(out)@ == old(out)@ + CrdtPresenceMessage::wire(
            (CrdtPresenceMessageView::SyncRequest { from: from@, context: context@ }),
        ),
        forall|rest: Seq<u8>| #[trigger]
            CrdtPresenceMessage::read(
                CrdtPresenceMessage::wire(
                    (CrdtPresenceMessageView::SyncRequest { from: from@, context: context@ })
                ) + rest,
            ) == Some(
                ((CrdtPresenceMessageView::SyncRequest { from: from@, context: context@ }), rest)
            ),
{
    let ghost before = out@;
    let kind = wire::put_u32(1);
    wire::append_bytes(out, kind.as_slice());
    from.put(out);
    context.put(out);
    proof {
        let v = CrdtPresenceMessageView::SyncRequest { from: from@, context: context@ };
        assert(out@ =~= before + CrdtPresenceMessage::wire(v));
        assert forall|rest: Seq<u8>| #[trigger] CrdtPresenceMessage::read(
            CrdtPresenceMessage::wire(v) + rest
        ) == Some(
            (v, rest),
        ) by {
            assert(
                CrdtPresenceMessage::wire(v) + rest =~= kind@ + (
                    Pid::wire(from@) + (Dict::<u64>::wire(context@) + rest)
                )
            );
        }
    }
}

fn take_crdt_presence_message_sync_request(b0: &[u8]) -> (
    r: Result<(CrdtPresenceMessage, &[u8]),
    String>
)
    ensures
        match r {
            Ok((m, rest)) => crdt_presence_message_sync_request_read(b0@) == Some((m@, rest@)),
            Err(e) => crdt_presence_message_sync_request_read(b0@) is None && e@
                == crdt_presence_message_sync_request_fault(b0@),
        },
{
    match Pid::take(b0) {
        Err(e) => Err(e),
        Ok((from, b1)) => match Dict::<u64>::take(b1) {
            Err(e) => Err(e),
            Ok((context, b2)) => Ok((CrdtPresenceMessage::SyncRequest { from, context }, b2)),
        },
    }
}

fn put_crdt_presence_message_sync_response(out: &mut Vec<u8>, delta: &SharedDelta)
    ensures
        final(out)@ == old(out)@ + CrdtPresenceMessage::wire(
            (CrdtPresenceMessageView::SyncResponse { delta: delta@ }),
        ),
        forall|rest: Seq<u8>| #[trigger]
            CrdtPresenceMessage::read(
                CrdtPresenceMessage::wire(
                    (CrdtPresenceMessageView::SyncResponse { delta: delta@ })
                ) + rest,
            ) == Some(((CrdtPresenceMessageView::SyncResponse { delta: delta@ }), rest)),
{
    let ghost before = out@;
    let kind = wire::put_u32(2);
    wire::append_bytes(out, kind.as_slice());
    delta.put(out);
    proof {
        let v = CrdtPresenceMessageView::SyncResponse { delta: delta@ };
        assert(out@ =~= before + CrdtPresenceMessage::wire(v));
        assert forall|rest: Seq<u8>| #[trigger] CrdtPresenceMessage::read(
            CrdtPresenceMessage::wire(v) + rest
        ) == Some(
            (v, rest),
        ) by {
            assert(
                CrdtPresenceMessage::wire(v) + rest =~= kind@ + (SharedDelta::wire(delta@) + rest)
            );
        }
    }
}

fn take_crdt_presence_message_sync_response(b0: &[u8]) -> (
    r: Result<(CrdtPresenceMessage, &[u8]),
    String>
)
    ensures
        match r {
            Ok((m, rest)) => crdt_presence_message_sync_response_read(b0@) == Some((m@, rest@)),
            Err(e) => crdt_presence_message_sync_response_read(b0@) is None && e@
                == crdt_presence_message_sync_response_fault(b0@),
        },
{
    match SharedDelta::take(b0) {
        Err(e) => Err(e),
        Ok((delta, b1)) => Ok((CrdtPresenceMessage::SyncResponse { delta }, b1)),
    }
}

/// What `PresenceCall` stands for.
#[verifier::ext_equal]
pub enum PresenceCallView {
    /// Track a process.
    Track {
        /// The topic.
        topic: Seq<char>,
        /// The key.
        key: Seq<char>,
        /// The process.
        pid: PidView,
        /// The encoded custom metadata.
        meta: Seq<u8>,
    },
    /// Stop tracking a process.
    Untrack {
        /// The topic.
        topic: Seq<char>,
        /// The key.
        key: Seq<char>,
        /// The process.
        pid: PidView,
    },
    /// Stop tracking a process everywhere.
    UntrackAll {
        /// The process.
        pid: PidView,
    },
    /// Replace the metadata of a process.
    Update {
        /// The topic.
        topic: Seq<char>,
        /// The key.
        key: Seq<char>,
        /// The process.
        pid: PidView,
        /// The encoded custom metadata.
        meta: Seq<u8>,
    },
    /// Say who is present in a topic.
    List {
        /// The topic.
        topic: Seq<char>,
    },
    /// Say who is present under a key.
    Get {
        /// The topic.
        topic: Seq<char>,
        /// The key.
        key: Seq<char>,
    },
}

/// A request that waits for a reply.
pub enum PresenceCall {
    /// Track a process.
    Track {
        /// The topic.
        topic: String,
        /// The key.
        key: String,
        /// The process.
        pid: Pid,
        /// The encoded custom metadata.
        meta: Vec<u8>,
    },
    /// Stop tracking a process.
    Untrack {
        /// The topic.
        topic: String,
        /// The key.
        key: String,
        /// The process.
        pid: Pid,
    },
    /// Stop tracking a process everywhere.
    UntrackAll {
        /// The process.
        pid: Pid,
    },
    /// Replace the metadata of a process.
    Update {
        /// The topic.
        topic: String,
        /// The key.
        key: String,
        /// The process.
        pid: Pid,
        /// The encoded custom metadata.
        meta: Vec<u8>,
    },
    /// Say who is present in a topic.
    List {
        /// The topic.
        topic: String,
    },
    /// Say who is present under a key.
    Get {
        /// The topic.
        topic: String,
        /// The key.
        key: String,
    },
}

impl View for PresenceCall {
    type V = PresenceCallView;

    open spec fn view(&self) -> PresenceCallView {
        match *self {
            PresenceCall::Track { topic, key, pid, meta } => PresenceCallView::Track {
                topic: topic@,
                key: key@,
                pid: pid@,
                meta: meta@,
            },
            PresenceCall::Untrack { topic, key, pid } => PresenceCallView::Untrack {
                topic: topic@,
                key: key@,
                pid: pid@,
            },
            PresenceCall::UntrackAll { pid } => PresenceCallView::UntrackAll {
                pid: pid@,
            },
            PresenceCall::Update { topic, key, pid, meta } => PresenceCallView::Update {
                topic: topic@,
                key: key@,
                pid: pid@,
                meta: meta@,
            },
            PresenceCall::List { topic } => PresenceCallView::List {
                topic: topic@,
            },
            PresenceCall::Get { topic, key } => PresenceCallView::Get {
                topic: topic@,
                key: key@,
            },
        }
    }
}

/// The fields of `PresenceCall::Track` at the front of some bytes.
pub open spec fn presence_call_track_read(b0: Seq<u8>) -> Option<(PresenceCallView, Seq<u8>)> {
    match wire::postcard_take_str(b0) {
        None => None,
        Some((topic, b1)) => match wire::postcard_take_str(b1) {
            None => None,
            Some((key, b2)) => match Pid::read(b2) {
                None => None,
                Some((pid, b3)) => match wire::postcard_take_bytes(b3) {
                    None => None,
                    Some((meta, b4)) => Some(
                        (PresenceCallView::Track { topic, key, pid, meta }, b4)
                    ),
                },
            },
        },
    }
}

/// What is wrong with bytes that do not begin with a fields of `PresenceCall::Track`.
pub open spec fn presence_call_track_fault(b0: Seq<u8>) -> Seq<char> {
    match wire::postcard_take_str(b0) {
        None => wire::postcard_str_fault(b0),
        Some((_, b1)) => match wire::postcard_take_str(b1) {
            None => wire::postcard_str_fault(b1),
            Some((_, b2)) => match Pid::read(b2) {
                None => Pid::fault(b2),
                Some((_, b3)) => wire::postcard_bytes_fault(b3),
            },
        },
    }
}

/// The fields of `PresenceCall::Untrack` at the front of some bytes.
pub open spec fn presence_call_untrack_read(b0: Seq<u8>) -> Option<(PresenceCallView, Seq<u8>)> {
    match wire::postcard_take_str(b0) {
        None => None,
        Some((topic, b1)) => match wire::postcard_take_str(b1) {
            None => None,
            Some((key, b2)) => match Pid::read(b2) {
                None => None,
                Some((pid, b3)) => Some((PresenceCallView::Untrack { topic, key, pid }, b3)),
            },
        },
    }
}

/// What is wrong with bytes that do not begin with a fields of `PresenceCall::Untrack`.
pub open spec fn presence_call_untrack_fault(b0: Seq<u8>) -> Seq<char> {
    match wire::postcard_take_str(b0) {
        None => wire::postcard_str_fault(b0),
        Some((_, b1)) => match wire::postcard_take_str(b1) {
            None => wire::postcard_str_fault(b1),
            Some((_, b2)) => Pid::fault(b2),
        },
    }
}

/// The fields of `PresenceCall::UntrackAll` at the front of some bytes.
pub open spec fn presence_call_untrack_all_read(b0: Seq<u8>) -> Option<(
    PresenceCallView,
    Seq<u8>
)> {
    match Pid::read(b0) {
        None => None,
        Some((pid, b1)) => Some((PresenceCallView::UntrackAll { pid }, b1)),
    }
}

/// What is wrong with bytes that do not begin with a fields of `PresenceCall::UntrackAll`.
pub open spec fn presence_call_untrack_all_fault(b0: Seq<u8>) -> Seq<char> {
    Pid::fault(b0)
}

/// The fields of `PresenceCall::Update` at the front of some bytes.
pub open spec fn presence_call_update_read(b0: Seq<u8>) -> Option<(PresenceCallView, Seq<u8>)> {
    match wire::postcard_take_str(b0) {
        None => None,
        Some((topic, b1)) => match wire::postcard_take_str(b1) {
            None => None,
            Some((key, b2)) => match Pid::read(b2) {
                None => None,
                Some((pid, b3)) => match wire::postcard_take_bytes(b3) {
                    None => None,
                    Some((meta, b4)) => Some(
                        (PresenceCallView::Update { topic, key, pid, meta }, b4)
                    ),
                },
            },
        },
    }
}

/// What is wrong with bytes that do not begin with a fields of `PresenceCall::Update`.
pub open spec fn presence_call_update_fault(b0: Seq<u8>) -> Seq<char> {
    match wire::postcard_take_str(b0) {
        None => wire::postcard_str_fault(b0),
        Some((_, b1)) => match wire::postcard_take_str(b1) {
            None => wire::postcard_str_fault(b1),
            Some((_, b2)) => match Pid::read(b2) {
                None => Pid::fault(b2),
                Some((_, b3)) => wire::postcard_bytes_fault(b3),
            },
        },
    }
}

/// The fields of `PresenceCall::List` at the front of some bytes.
pub open spec fn presence_call_list_read(b0: Seq<u8>) -> Option<(PresenceCallView, Seq<u8>)> {
    match wire::postcard_take_str(b0) {
        None => None,
        Some((topic, b1)) => Some((PresenceCallView::List { topic }, b1)),
    }
}

/// What is wrong with bytes that do not begin with a fields of `PresenceCall::List`.
pub open spec fn presence_call_list_fault(b0: Seq<u8>) -> Seq<char> {
    wire::postcard_str_fault(b0)
}

/// The fields of `PresenceCall::Get` at the front of some bytes.
pub open spec fn presence_call_get_read(b0: Seq<u8>) -> Option<(PresenceCallView, Seq<u8>)> {
    match wire::postcard_take_str(b0) {
        None => None,
        Some((topic, b1)) => match wire::postcard_take_str(b1) {
            None => None,
            Some((key, b2)) => Some((PresenceCallView::Get { topic, key }, b2)),
        },
    }
}

/// What is wrong with bytes that do not begin with a fields of `PresenceCall::Get`.
pub open spec fn presence_call_get_fault(b0: Seq<u8>) -> Seq<char> {
    match wire::postcard_take_str(b0) {
        None => wire::postcard_str_fault(b0),
        Some((_, b1)) => wire::postcard_str_fault(b1),
    }
}

impl Piece for PresenceCall {
    open spec fn wire(v: PresenceCallView) -> Seq<u8> {
        match v {
            PresenceCallView::Track { topic, key, pid, meta } => wire::postcard_u32(0)
                + wire::postcard_str(topic)
                + wire::postcard_str(key)
                + Pid::wire(pid)
                + wire::postcard_bytes(meta),
            PresenceCallView::Untrack { topic, key, pid } => wire::postcard_u32(1)
                + wire::postcard_str(topic)
                + wire::postcard_str(key)
                + Pid::wire(pid),
            PresenceCallView::UntrackAll { pid } => wire::postcard_u32(2)
                + Pid::wire(pid),
            PresenceCallView::Update { topic, key, pid, meta } => wire::postcard_u32(3)
                + wire::postcard_str(topic)
                + wire::postcard_str(key)
                + Pid::wire(pid)
                + wire::postcard_bytes(meta),
            PresenceCallView::List { topic } => wire::postcard_u32(4)
                + wire::postcard_str(topic),
            PresenceCallView::Get { topic, key } => wire::postcard_u32(5)
                + wire::postcard_str(topic)
                + wire::postcard_str(key),
        }
    }

    open spec fn read(b: Seq<u8>) -> Option<(PresenceCallView, Seq<u8>)> {
        match wire::postcard_take_u32(b) {
            None => None,
            Some((kind, b0)) => if kind == 0 {
                presence_call_track_read(b0)
            } else if kind == 1 {
                presence_call_untrack_read(b0)
            } else if kind == 2 {
                presence_call_untrack_all_read(b0)
            } else if kind == 3 {
                presence_call_update_read(b0)
            } else if kind == 4 {
                presence_call_list_read(b0)
            } else if kind == 5 {
                presence_call_get_read(b0)
            } else {
                None
            },
        }
    }

    open spec fn fault(b: Seq<u8>) -> Seq<char> {
        match wire::postcard_take_u32(b) {
            None => wire::postcard_u32_fault(b),
            Some((kind, b0)) => if kind == 0 {
                presence_call_track_fault(b0)
            } else if kind == 1 {
                presence_call_untrack_fault(b0)
            } else if kind == 2 {
                presence_call_untrack_all_fault(b0)
            } else if kind == 3 {
                presence_call_update_fault(b0)
            } else if kind == 4 {
                presence_call_list_fault(b0)
            } else if kind == 5 {
                presence_call_get_fault(b0)
            } else {
                wire::BAD_VARIANT@
            },
        }
    }

    fn put(&self, out: &mut Vec<u8>) {
        match self {
            PresenceCall::Track { topic, key, pid, meta } => put_presence_call_track(
                out,
                topic,
                key,
                pid,
                meta
            ),
            PresenceCall::Untrack { topic, key, pid } => put_presence_call_untrack(
                out,
                topic,
                key,
                pid
            ),
            PresenceCall::UntrackAll { pid } => put_presence_call_untrack_all(out, pid),
            PresenceCall::Update { topic, key, pid, meta } => put_presence_call_update(
                out,
                topic,
                key,
                pid,
                meta
            ),
            PresenceCall::List { topic } => put_presence_call_list(out, topic),
            PresenceCall::Get { topic, key } => put_presence_call_get(out, topic, key),
        }
    }

    fn take(b: &[u8]) -> (r: Result<(Self, &[u8]), String>) {
        match wire::take_u32(b) {
            Err(e) => Err(e),
            Ok((kind, b0)) => if kind == 0 {
                take_presence_call_track(b0)
            } else if kind == 1 {
                take_presence_call_untrack(b0)
            } else if kind == 2 {
                take_presence_call_untrack_all(b0)
            } else if kind == 3 {
                take_presence_call_update(b0)
            } else if kind == 4 {
                take_presence_call_list(b0)
            } else if kind == 5 {
                take_presence_call_get(b0)
            } else {
                Err(wire::BAD_VARIANT.to_owned())
            },
        }
    }
}

fn put_presence_call_track(
    out: &mut Vec<u8>,
    topic: &String,
    key: &String,
    pid: &Pid,
    meta: &Vec<u8>
)
    ensures
        final(out)@ == old(out)@ + PresenceCall::wire(
            (PresenceCallView::Track { topic: topic@, key: key@, pid: pid@, meta: meta@ }),
        ),
        forall|rest: Seq<u8>| #[trigger]
            PresenceCall::read(
                PresenceCall::wire(
                    (PresenceCallView::Track { topic: topic@, key: key@, pid: pid@, meta: meta@ })
                ) + rest,
            ) == Some(
                (
                    (PresenceCallView::Track { topic: topic@, key: key@, pid: pid@, meta: meta@ }),
                    rest
                )
            ),
{
    let ghost before = out@;
    let kind = wire::put_u32(0);
    wire::append_bytes(out, kind.as_slice());
    let w_topic = wire::put_str(topic.as_str());
    wire::append_bytes(out, w_topic.as_slice());
    let w_key = wire::put_str(key.as_str());
    wire::append_bytes(out, w_key.as_slice());
    pid.put(out);
    let w_meta = wire::put_bytes(meta.as_slice());
    wire::append_bytes(out, w_meta.as_slice());
    proof {
        let v = PresenceCallView::Track { topic: topic@, key: key@, pid: pid@, meta: meta@ };
        assert(out@ =~= before + PresenceCall::wire(v));
        assert forall|rest: Seq<u8>| #[trigger] PresenceCall::read(
            PresenceCall::wire(v) + rest
        ) == Some(
            (v, rest),
        ) by {
            assert(
                PresenceCall::wire(v) + rest =~= kind@ + (
                    wire::postcard_str(topic@) + (
                        wire::postcard_str(key@) + (
                            Pid::wire(pid@) + (wire::postcard_bytes(meta@) + rest)
                        )
                    )
                )
            );
        }
    }
}

fn take_presence_call_track(b0: &[u8]) -> (r: Result<(PresenceCall, &[u8]), String>)
    ensures
        match r {
            Ok((m, rest)) => presence_call_track_read(b0@) == Some((m@, rest@)),
            Err(e) => presence_call_track_read(b0@) is None && e@ == presence_call_track_fault(b0@),
        },
{
    match wire::take_str(b0) {
        Err(e) => Err(e),
        Ok((topic, b1)) => match wire::take_str(b1) {
            Err(e) => Err(e),
            Ok((key, b2)) => match Pid::take(b2) {
                Err(e) => Err(e),
                Ok((pid, b3)) => match wire::take_bytes(b3) {
                    Err(e) => Err(e),
                    Ok((meta, b4)) => Ok((PresenceCall::Track { topic, key, pid, meta }, b4)),
                },
            },
        },
    }
}

fn put_presence_call_untrack(out: &mut Vec<u8>, topic: &String, key: &String, pid: &Pid)
    ensures
        final(out)@ == old(out)@ + PresenceCall::wire(
            (PresenceCallView::Untrack { topic: topic@, key: key@, pid: pid@ }),
        ),
        forall|rest: Seq<u8>| #[trigger]
            PresenceCall::read(
                PresenceCall::wire(
                    (PresenceCallView::Untrack { topic: topic@, key: key@, pid: pid@ })
                ) + rest,
            ) == Some(((PresenceCallView::Untrack { topic: topic@, key: key@, pid: pid@ }), rest)),
{
    let ghost before = out@;
    let kind = wire::put_u32(1);
    wire::append_bytes(out, kind.as_slice());
    let w_topic = wire::put_str(topic.as_str());
    wire::append_bytes(out, w_topic.as_slice());
    let w_key = wire::put_str(key.as_str());
    wire::append_bytes(out, w_key.as_slice());
    pid.put(out);
    proof {
        let v = PresenceCallView::Untrack { topic: topic@, key: key@, pid: pid@ };
        assert(out@ =~= before + PresenceCall::wire(v));
        assert forall|rest: Seq<u8>| #[trigger] PresenceCall::read(
            PresenceCall::wire(v) + rest
        ) == Some(
            (v, rest),
        ) by {
            assert(
                PresenceCall::wire(v) + rest =~= kind@ + (
                    wire::postcard_str(topic@) + (
                        wire::postcard_str(key@) + (Pid::wire(pid@) + rest)
                    )
                )
            );
        }
    }
}

fn take_presence_call_untrack(b0: &[u8]) -> (r: Result<(PresenceCall, &[u8]), String>)
    ensures
        match r {
            Ok((m, rest)) => presence_call_untrack_read(b0@) == Some((m@, rest@)),
            Err(e) => presence_call_untrack_read(b0@) is None && e@
                == presence_call_untrack_fault(b0@),
        },
{
    match wire::take_str(b0) {
        Err(e) => Err(e),
        Ok((topic, b1)) => match wire::take_str(b1) {
            Err(e) => Err(e),
            Ok((key, b2)) => match Pid::take(b2) {
                Err(e) => Err(e),
                Ok((pid, b3)) => Ok((PresenceCall::Untrack { topic, key, pid }, b3)),
            },
        },
    }
}

fn put_presence_call_untrack_all(out: &mut Vec<u8>, pid: &Pid)
    ensures
        final(out)@ == old(out)@ + PresenceCall::wire(
            (PresenceCallView::UntrackAll { pid: pid@ }),
        ),
        forall|rest: Seq<u8>| #[trigger]
            PresenceCall::read(
                PresenceCall::wire((PresenceCallView::UntrackAll { pid: pid@ })) + rest,
            ) == Some(((PresenceCallView::UntrackAll { pid: pid@ }), rest)),
{
    let ghost before = out@;
    let kind = wire::put_u32(2);
    wire::append_bytes(out, kind.as_slice());
    pid.put(out);
    proof {
        let v = PresenceCallView::UntrackAll { pid: pid@ };
        assert(out@ =~= before + PresenceCall::wire(v));
        assert forall|rest: Seq<u8>| #[trigger] PresenceCall::read(
            PresenceCall::wire(v) + rest
        ) == Some(
            (v, rest),
        ) by {
            assert(PresenceCall::wire(v) + rest =~= kind@ + (Pid::wire(pid@) + rest));
        }
    }
}

fn take_presence_call_untrack_all(b0: &[u8]) -> (r: Result<(PresenceCall, &[u8]), String>)
    ensures
        match r {
            Ok((m, rest)) => presence_call_untrack_all_read(b0@) == Some((m@, rest@)),
            Err(e) => presence_call_untrack_all_read(b0@) is None && e@
                == presence_call_untrack_all_fault(b0@),
        },
{
    match Pid::take(b0) {
        Err(e) => Err(e),
        Ok((pid, b1)) => Ok((PresenceCall::UntrackAll { pid }, b1)),
    }
}

fn put_presence_call_update(
    out: &mut Vec<u8>,
    topic: &String,
    key: &String,
    pid: &Pid,
    meta: &Vec<u8>
)
    ensures
        final(out)@ == old(out)@ + PresenceCall::wire(
            (PresenceCallView::Update { topic: topic@, key: key@, pid: pid@, meta: meta@ }),
        ),
        forall|rest: Seq<u8>| #[trigger]
            PresenceCall::read(
                PresenceCall::wire(
                    (PresenceCallView::Update { topic: topic@, key: key@, pid: pid@, meta: meta@ })
                ) + rest,
            ) == Some(
                (
                    (PresenceCallView::Update { topic: topic@, key: key@, pid: pid@, meta: meta@ }),
                    rest
                )
            ),
{
    let ghost before = out@;
    let kind = wire::put_u32(3);
    wire::append_bytes(out, kind.as_slice());
    let w_topic = wire::put_str(topic.as_str());
    wire::append_bytes(out, w_topic.as_slice());
    let w_key = wire::put_str(key.as_str());
    wire::append_bytes(out, w_key.as_slice());
    pid.put(out);
    let w_meta = wire::put_bytes(meta.as_slice());
    wire::append_bytes(out, w_meta.as_slice());
    proof {
        let v = PresenceCallView::Update { topic: topic@, key: key@, pid: pid@, meta: meta@ };
        assert(out@ =~= before + PresenceCall::wire(v));
        assert forall|rest: Seq<u8>| #[trigger] PresenceCall::read(
            PresenceCall::wire(v) + rest
        ) == Some(
            (v, rest),
        ) by {
            assert(
                PresenceCall::wire(v) + rest =~= kind@ + (
                    wire::postcard_str(topic@) + (
                        wire::postcard_str(key@) + (
                            Pid::wire(pid@) + (wire::postcard_bytes(meta@) + rest)
                        )
                    )
                )
            );
        }
    }
}

fn take_presence_call_update(b0: &[u8]) -> (r: Result<(PresenceCall, &[u8]), String>)
    ensures
        match r {
            Ok((m, rest)) => presence_call_update_read(b0@) == Some((m@, rest@)),
            Err(e) => presence_call_update_read(b0@) is None && e@
                == presence_call_update_fault(b0@),
        },
{
    match wire::take_str(b0) {
        Err(e) => Err(e),
        Ok((topic, b1)) => match wire::take_str(b1) {
            Err(e) => Err(e),
            Ok((key, b2)) => match Pid::take(b2) {
                Err(e) => Err(e),
                Ok((pid, b3)) => match wire::take_bytes(b3) {
                    Err(e) => Err(e),
                    Ok((meta, b4)) => Ok((PresenceCall::Update { topic, key, pid, meta }, b4)),
                },
            },
        },
    }
}

fn put_presence_call_list(out: &mut Vec<u8>, topic: &String)
    ensures
        final(out)@ == old(out)@ + PresenceCall::wire(
            (PresenceCallView::List { topic: topic@ }),
        ),
        forall|rest: Seq<u8>| #[trigger]
            PresenceCall::read(
                PresenceCall::wire((PresenceCallView::List { topic: topic@ })) + rest,
            ) == Some(((PresenceCallView::List { topic: topic@ }), rest)),
{
    let ghost before = out@;
    let kind = wire::put_u32(4);
    wire::append_bytes(out, kind.as_slice());
    let w_topic = wire::put_str(topic.as_str());
    wire::append_bytes(out, w_topic.as_slice());
    proof {
        let v = PresenceCallView::List { topic: topic@ };
        assert(out@ =~= before + PresenceCall::wire(v));
        assert forall|rest: Seq<u8>| #[trigger] PresenceCall::read(
            PresenceCall::wire(v) + rest
        ) == Some(
            (v, rest),
        ) by {
            assert(PresenceCall::wire(v) + rest =~= kind@ + (wire::postcard_str(topic@) + rest));
        }
    }
}

fn take_presence_call_list(b0: &[u8]) -> (r: Result<(PresenceCall, &[u8]), String>)
    ensures
        match r {
            Ok((m, rest)) => presence_call_list_read(b0@) == Some((m@, rest@)),
            Err(e) => presence_call_list_read(b0@) is None && e@ == presence_call_list_fault(b0@),
        },
{
    match wire::take_str(b0) {
        Err(e) => Err(e),
        Ok((topic, b1)) => Ok((PresenceCall::List { topic }, b1)),
    }
}

fn put_presence_call_get(out: &mut Vec<u8>, topic: &String, key: &String)
    ensures
        final(out)@ == old(out)@ + PresenceCall::wire(
            (PresenceCallView::Get { topic: topic@, key: key@ }),
        ),
        forall|rest: Seq<u8>| #[trigger]
            PresenceCall::read(
                PresenceCall::wire((PresenceCallView::Get { topic: topic@, key: key@ })) + rest,
            ) == Some(((PresenceCallView::Get { topic: topic@, key: key@ }), rest)),
{
    let ghost before = out@;
    let kind = wire::put_u32(5);
    wire::append_bytes(out, kind.as_slice());
    let w_topic = wire::put_str(topic.as_str());
    wire::append_bytes(out, w_topic.as_slice());
    let w_key = wire::put_str(key.as_str());
    wire::append_bytes(out, w_key.as_slice());
    proof {
        let v = PresenceCallView::Get { topic: topic@, key: key@ };
        assert(out@ =~= before + PresenceCall::wire(v));
        assert forall|rest: Seq<u8>| #[trigger] PresenceCall::read(
            PresenceCall::wire(v) + rest
        ) == Some(
            (v, rest),
        ) by {
            assert(
                PresenceCall::wire(v) + rest =~= kind@ + (
                    wire::postcard_str(topic@) + (wire::postcard_str(key@) + rest)
                )
            );
        }
    }
}

fn take_presence_call_get(b0: &[u8]) -> (r: Result<(PresenceCall, &[u8]), String>)
    ensures
        match r {
            Ok((m, rest)) => presence_call_get_read(b0@) == Some((m@, rest@)),
            Err(e) => presence_call_get_read(b0@) is None && e@ == presence_call_get_fault(b0@),
        },
{
    match wire::take_str(b0) {
        Err(e) => Err(e),
        Ok((topic, b1)) => match wire::take_str(b1) {
            Err(e) => Err(e),
            Ok((key, b2)) => Ok((PresenceCall::Get { topic, key }, b2)),
        },
    }
}

impl Message for PresenceCall {
    open spec fn tag_view() -> Seq<char> {
        "PresenceCall"@
    }

    open spec fn payload(v: PresenceCallView) -> Seq<u8> {
        Self::wire(v)
    }

    open spec fn unpacked(bytes: Seq<u8>) -> Option<PresenceCallView> {
        match Self::read(bytes) {
            Some((v, _)) => Some(v),
            None => None,
        }
    }

    open spec fn unpack_fault(bytes: Seq<u8>) -> DecodeErrorView {
        DecodeErrorView::Postcard(Self::fault(bytes))
    }

    open spec fn remote(v: PresenceCallView) -> Seq<u8> {
        message::tagged(Self::tag_view(), Self::payload(v))
    }

    open spec fn from_remote(bytes: Seq<u8>) -> Option<PresenceCallView> {
        match message::stripped(bytes, Self::tag_view()) {
            Some(payload) => Self::unpacked(payload),
            None => None,
        }
    }

    open spec fn remote_fault(bytes: Seq<u8>) -> DecodeErrorView {
        match message::stripped(bytes, Self::tag_view()) {
            Some(payload) => Self::unpack_fault(payload),
            None => DecodeErrorView::InvalidData(message::strip_fault(bytes, Self::tag_view())),
        }
    }

    fn tag() -> (r: &'static str) {
        "PresenceCall"
    }

    fn encode_local(&self) -> (r: Vec<u8>) {
        let mut out: Vec<u8> = Vec::new();
        self.put(&mut out);
        proof {
            assert(Self::wire(self@) + Seq::<u8>::empty() =~= Self::wire(self@));
            assert(out@ =~= Self::wire(self@));
        }
        message::encode_with_tag("PresenceCall", out.as_slice())
    }

    fn decode_local(bytes: &[u8]) -> (r: Result<Self, DecodeError>) {
        match Self::take(bytes) {
            Ok((m, _)) => Ok(m),
            Err(text) => Err(DecodeError::Postcard(text)),
        }
    }

    fn encode_remote(&self) -> (r: Vec<u8>) {
        proof {
            reveal_strlit("PresenceCall");
            message::lemma_stripped("PresenceCall"@, Self::payload(self@));
        }
        self.encode_local()
    }

    fn decode_remote(bytes: &[u8]) -> (r: Result<Self, DecodeError>) {
        match message::strip_tag(bytes, "PresenceCall") {
            Ok(payload) => Self::decode_local(payload),
            Err(e) => Err(e),
        }
    }
}

/// What `PresenceCast` stands for.
#[verifier::ext_equal]
pub enum PresenceCastView {
    /// Apply changes from another node.
    ApplyDelta {
        /// The topic.
        topic: Seq<char>,
        /// The changes.
        diff: PresenceDiffView,
    },
    /// Take over what another node knows of a topic.
    SyncState {
        /// The topic.
        topic: Seq<char>,
        /// The presences by key.
        state: Seq<(Seq<char>, PresenceStateView)>,
    },
}

/// A request without a reply.
pub enum PresenceCast {
    /// Apply changes from another node.
    ApplyDelta {
        /// The topic.
        topic: String,
        /// The changes.
        diff: PresenceDiff,
    },
    /// Take over what another node knows of a topic.
    SyncState {
        /// The topic.
        topic: String,
        /// The presences by key.
        state: Dict<PresenceState>,
    },
}

impl View for PresenceCast {
    type V = PresenceCastView;

    open spec fn view(&self) -> PresenceCastView {
        match *self {
            PresenceCast::ApplyDelta { topic, diff } => PresenceCastView::ApplyDelta {
                topic: topic@,
                diff: diff@,
            },
            PresenceCast::SyncState { topic, state } => PresenceCastView::SyncState {
                topic: topic@,
                state: state@,
            },
        }
    }
}

/// The fields of `PresenceCast::ApplyDelta` at the front of some bytes.
pub open spec fn presence_cast_apply_delta_read(b0: Seq<u8>) -> Option<(
    PresenceCastView,
    Seq<u8>
)> {
    match wire::postcard_take_str(b0) {
        None => None,
        Some((topic, b1)) => match PresenceDiff::read(b1) {
            None => None,
            Some((diff, b2)) => Some((PresenceCastView::ApplyDelta { topic, diff }, b2)),
        },
    }
}

/// What is wrong with bytes that do not begin with a fields of `PresenceCast::ApplyDelta`.
pub open spec fn presence_cast_apply_delta_fault(b0: Seq<u8>) -> Seq<char> {
    match wire::postcard_take_str(b0) {
        None => wire::postcard_str_fault(b0),
        Some((_, b1)) => PresenceDiff::fault(b1),
    }
}

/// The fields of `PresenceCast::SyncState` at the front of some bytes.
pub open spec fn presence_cast_sync_state_read(b0: Seq<u8>) -> Option<(PresenceCastView, Seq<u8>)> {
    match wire::postcard_take_str(b0) {
        None => None,
        Some((topic, b1)) => match Dict::<PresenceState>::read(b1) {
            None => None,
            Some((state, b2)) => Some((PresenceCastView::SyncState { topic, state }, b2)),
        },
    }
}

/// What is wrong with bytes that do not begin with a fields of `PresenceCast::SyncState`.
pub open spec fn presence_cast_sync_state_fault(b0: Seq<u8>) -> Seq<char> {
    match wire::postcard_take_str(b0) {
        None => wire::postcard_str_fault(b0),
        Some((_, b1)) => Dict::<PresenceState>::fault(b1),
    }
}

impl Piece for PresenceCast {
    open spec fn wire(v: PresenceCastView) -> Seq<u8> {
        match v {
            PresenceCastView::ApplyDelta { topic, diff } => wire::postcard_u32(0)
                + wire::postcard_str(topic)
                + PresenceDiff::wire(diff),
            PresenceCastView::SyncState { topic, state } => wire::postcard_u32(1)
                + wire::postcard_str(topic)
                + Dict::<PresenceState>::wire(state),
        }
    }

    open spec fn read(b: Seq<u8>) -> Option<(PresenceCastView, Seq<u8>)> {
        match wire::postcard_take_u32(b) {
            None => None,
            Some((kind, b0)) => if kind == 0 {
                presence_cast_apply_delta_read(b0)
            } else if kind == 1 {
                presence_cast_sync_state_read(b0)
            } else {
                None
            },
        }
    }

    open spec fn fault(b: Seq<u8>) -> Seq<char> {
        match wire::postcard_take_u32(b) {
            None => wire::postcard_u32_fault(b),
            Some((kind, b0)) => if kind == 0 {
                presence_cast_apply_delta_fault(b0)
            } else if kind == 1 {
                presence_cast_sync_state_fault(b0)
            } else {
                wire::BAD_VARIANT@
            },
        }
    }

    fn put(&self, out: &mut Vec<u8>) {
        match self {
            PresenceCast::ApplyDelta { topic, diff } => put_presence_cast_apply_delta(out, topic, diff),
            PresenceCast::SyncState { topic, state } => put_presence_cast_sync_state(out, topic, state),
        }
    }

    fn take(b: &[u8]) -> (r: Result<(Self, &[u8]), String>) {
        match wire::take_u32(b) {
            Err(e) => Err(e),
            Ok((kind, b0)) => if kind == 0 {
                take_presence_cast_apply_delta(b0)
            } else if kind == 1 {
                take_presence_cast_sync_state(b0)
            } else {
                Err(wire::BAD_VARIANT.to_owned())
            },
        }
    }
}

fn put_presence_cast_apply_delta(out: &mut Vec<u8>, topic: &String, diff: &PresenceDiff)
    ensures
        final(out)@ == old(out)@ + PresenceCast::wire(
            (PresenceCastView::ApplyDelta { topic: topic@, diff: diff@ }),
        ),
        forall|rest: Seq<u8>| #[trigger]
            PresenceCast::read(
                PresenceCast::wire(
                    (PresenceCastView::ApplyDelta { topic: topic@, diff: diff@ })
                ) + rest,
            ) == Some(((PresenceCastView::ApplyDelta { topic: topic@, diff: diff@ }), rest)),
{
    let ghost before = out@;
    let kind = wire::put_u32(0);
    wire::append_bytes(out, kind.as_slice());
    let w_topic = wire::put_str(topic.as_str());
    wire::append_bytes(out, w_topic.as_slice());
    diff.put(out);
    proof {
        let v = PresenceCastView::ApplyDelta { topic: topic@, diff: diff@ };
        assert(out@ =~= before + PresenceCast::wire(v));
        assert forall|rest: Seq<u8>| #[trigger] PresenceCast::read(
            PresenceCast::wire(v) + rest
        ) == Some(
            (v, rest),
        ) by {
            assert(
                PresenceCast::wire(v) + rest =~= kind@ + (
                    wire::postcard_str(topic@) + (PresenceDiff::wire(diff@) + rest)
                )
            );
        }
    }
}

fn take_presence_cast_apply_delta(b0: &[u8]) -> (r: Result<(PresenceCast, &[u8]), String>)
    ensures
        match r {
            Ok((m, rest)) => presence_cast_apply_delta_read(b0@) == Some((m@, rest@)),
            Err(e) => presence_cast_apply_delta_read(b0@) is None && e@
                == presence_cast_apply_delta_fault(b0@),
        },
{
    match wire::take_str(b0) {
        Err(e) => Err(e),
        Ok((topic, b1)) => match PresenceDiff::take(b1) {
            Err(e) => Err(e),
            Ok((diff, b2)) => Ok((PresenceCast::ApplyDelta { topic, diff }, b2)),
        },
    }
}

fn put_presence_cast_sync_state(out: &mut Vec<u8>, topic: &String, state: &Dict<PresenceState>)
    ensures
        final(out)@ == old(out)@ + PresenceCast::wire(
            (PresenceCastView::SyncState { topic: topic@, state: state@ }),
        ),
        forall|rest: Seq<u8>| #[trigger]
            PresenceCast::read(
                PresenceCast::wire(
                    (PresenceCastView::SyncState { topic: topic@, state: state@ })
                ) + rest,
            ) == Some(((PresenceCastView::SyncState { topic: topic@, state: state@ }), rest)),
{
    let ghost before = out@;
    let kind = wire::put_u32(1);
    wire::append_bytes(out, kind.as_slice());
    let w_topic = wire::put_str(topic.as_str());
    wire::append_bytes(out, w_topic.as_slice());
    state.put(out);
    proof {
        let v = PresenceCastView::SyncState { topic: topic@, state: state@ };
        assert(out@ =~= before + PresenceCast::wire(v));
        assert forall|rest: Seq<u8>| #[trigger] PresenceCast::read(
            PresenceCast::wire(v) + rest
        ) == Some(
            (v, rest),
        ) by {
            assert(
                PresenceCast::wire(v) + rest =~= kind@ + (
                    wire::postcard_str(topic@) + (Dict::<PresenceState>::wire(state@) + rest)
                )
            );
        }
    }
}

fn take_presence_cast_sync_state(b0: &[u8]) -> (r: Result<(PresenceCast, &[u8]), String>)
    ensures
        match r {
            Ok((m, rest)) => presence_cast_sync_state_read(b0@) == Some((m@, rest@)),
            Err(e) => presence_cast_sync_state_read(b0@) is None && e@
                == presence_cast_sync_state_fault(b0@),
        },
{
    match wire::take_str(b0) {
        Err(e) => Err(e),
        Ok((topic, b1)) => match Dict::<PresenceState>::take(b1) {
            Err(e) => Err(e),
            Ok((state, b2)) => Ok((PresenceCast::SyncState { topic, state }, b2)),
        },
    }
}

impl Message for PresenceCast {
    open spec fn tag_view() -> Seq<char> {
        "PresenceCast"@
    }

    open spec fn payload(v: PresenceCastView) -> Seq<u8> {
        Self::wire(v)
    }

    open spec fn unpacked(bytes: Seq<u8>) -> Option<PresenceCastView> {
        match Self::read(bytes) {
            Some((v, _)) => Some(v),
            None => None,
        }
    }

    open spec fn unpack_fault(bytes: Seq<u8>) -> DecodeErrorView {
        DecodeErrorView::Postcard(Self::fault(bytes))
    }

    open spec fn remote(v: PresenceCastView) -> Seq<u8> {
        message::tagged(Self::tag_view(), Self::payload(v))
    }

    open spec fn from_remote(bytes: Seq<u8>) -> Option<PresenceCastView> {
        match message::stripped(bytes, Self::tag_view()) {
            Some(payload) => Self::unpacked(payload),
            None => None,
        }
    }

    open spec fn remote_fault(bytes: Seq<u8>) -> DecodeErrorView {
        match message::stripped(bytes, Self::tag_view()) {
            Some(payload) => Self::unpack_fault(payload),
            None => DecodeErrorView::InvalidData(message::strip_fault(bytes, Self::tag_view())),
        }
    }

    fn tag() -> (r: &'static str) {
        "PresenceCast"
    }

    fn encode_local(&self) -> (r: Vec<u8>) {
        let mut out: Vec<u8> = Vec::new();
        self.put(&mut out);
        proof {
            assert(Self::wire(self@) + Seq::<u8>::empty() =~= Self::wire(self@));
            assert(out@ =~= Self::wire(self@));
        }
        message::encode_with_tag("PresenceCast", out.as_slice())
    }

    fn decode_local(bytes: &[u8]) -> (r: Result<Self, DecodeError>) {
        match Self::take(bytes) {
            Ok((m, _)) => Ok(m),
            Err(text) => Err(DecodeError::Postcard(text)),
        }
    }

    fn encode_remote(&self) -> (r: Vec<u8>) {
        proof {
            reveal_strlit("PresenceCast");
            message::lemma_stripped("PresenceCast"@, Self::payload(self@));
        }
        self.encode_local()
    }

    fn decode_remote(bytes: &[u8]) -> (r: Result<Self, DecodeError>) {
        match message::strip_tag(bytes, "PresenceCast") {
            Ok(payload) => Self::decode_local(payload),
            Err(e) => Err(e),
        }
    }
}

/// What `PresenceInfo` stands for.
#[verifier::ext_equal]
pub enum PresenceInfoView {
    /// Complete the start.
    CompleteInit,
    /// Changes of another replica.
    CrdtDelta {
        /// The topic.
        topic: Seq<char>,
        /// The changes.
        delta: SharedDeltaView,
    },
    /// Asks for what the sender has not seen.
    CrdtSyncRequest {
        /// The server that asks.
        from: PidView,
        /// What it has seen.
        context: Seq<(Seq<char>, u64)>,
    },
    /// What the receiver has not seen.
    CrdtSyncResponse {
        /// The changes.
        delta: SharedDeltaView,
    },
    /// A node was disconnected.
    NodeDown {
        /// The node.
        node_name: Seq<char>,
        /// Why.
        reason: Seq<char>,
    },
}

/// What a presence server is told besides requests.
pub enum PresenceInfo {
    /// Complete the start.
    CompleteInit,
    /// Changes of another replica.
    CrdtDelta {
        /// The topic.
        topic: String,
        /// The changes.
        delta: SharedDelta,
    },
    /// Asks for what the sender has not seen.
    CrdtSyncRequest {
        /// The server that asks.
        from: Pid,
        /// What it has seen.
        context: Dict<u64>,
    },
    /// What the receiver has not seen.
    CrdtSyncResponse {
        /// The changes.
        delta: SharedDelta,
    },
    /// A node was disconnected.
    NodeDown {
        /// The node.
        node_name: String,
        /// Why.
        reason: String,
    },
}

impl View for PresenceInfo {
    type V = PresenceInfoView;

    open spec fn view(&self) -> PresenceInfoView {
        match *self {
            PresenceInfo::CompleteInit => PresenceInfoView::CompleteInit,
            PresenceInfo::CrdtDelta { topic, delta } => PresenceInfoView::CrdtDelta {
                topic: topic@,
                delta: delta@,
            },
            PresenceInfo::CrdtSyncRequest { from, context } => PresenceInfoView::CrdtSyncRequest {
                from: from@,
                context: context@,
            },
            PresenceInfo::CrdtSyncResponse { delta } => PresenceInfoView::CrdtSyncResponse {
                delta: delta@,
            },
            PresenceInfo::NodeDown { node_name, reason } => PresenceInfoView::NodeDown {
                node_name: node_name@,
                reason: reason@,
            },
        }
    }
}

/// The fields of `PresenceInfo::CompleteInit` at the front of some bytes.
pub open spec fn presence_info_complete_init_read(b0: Seq<u8>) -> Option<(
    PresenceInfoView,
    Seq<u8>
)> {
    Some((PresenceInfoView::CompleteInit, b0))
}

/// The fields of `PresenceInfo::CrdtDelta` at the front of some bytes.
pub open spec fn presence_info_crdt_delta_read(b0: Seq<u8>) -> Option<(PresenceInfoView, Seq<u8>)> {
    match wire::postcard_take_str(b0) {
        None => None,
        Some((topic, b1)) => match SharedDelta::read(b1) {
            None => None,
            Some((delta, b2)) => Some((PresenceInfoView::CrdtDelta { topic, delta }, b2)),
        },
    }
}

/// What is wrong with bytes that do not begin with a fields of `PresenceInfo::CrdtDelta`.
pub open spec fn presence_info_crdt_delta_fault(b0: Seq<u8>) -> Seq<char> {
    match wire::postcard_take_str(b0) {
        None => wire::postcard_str_fault(b0),
        Some((_, b1)) => SharedDelta::fault(b1),
    }
}

/// The fields of `PresenceInfo::CrdtSyncRequest` at the front of some bytes.
pub open spec fn presence_info_crdt_sync_request_read(b0: Seq<u8>) -> Option<(
    PresenceInfoView,
    Seq<u8>
)> {
    match Pid::read(b0) {
        None => None,
        Some((from, b1)) => match Dict::<u64>::read(b1) {
            None => None,
            Some((context, b2)) => Some((PresenceInfoView::CrdtSyncRequest { from, context }, b2)),
        },
    }
}

/// What is wrong with bytes that do not begin with a fields of `PresenceInfo::CrdtSyncRequest`.
pub open spec fn presence_info_crdt_sync_request_fault(b0: Seq<u8>) -> Seq<char> {
    match Pid::read(b0) {
        None => Pid::fault(b0),
        Some((_, b1)) => Dict::<u64>::fault(b1),
    }
}

/// The fields of `PresenceInfo::CrdtSyncResponse` at the front of some bytes.
pub open spec fn presence_info_crdt_sync_response_read(b0: Seq<u8>) -> Option<(
    PresenceInfoView,
    Seq<u8>
)> {
    match SharedDelta::read(b0) {
        None => None,
        Some((delta, b1)) => Some((PresenceInfoView::CrdtSyncResponse { delta }, b1)),
    }
}

/// What is wrong with bytes that do not begin with a fields of `PresenceInfo::CrdtSyncResponse`.
pub open spec fn presence_info_crdt_sync_response_fault(b0: Seq<u8>) -> Seq<char> {
    SharedDelta::fault(b0)
}

/// The fields of `PresenceInfo::NodeDown` at the front of some bytes.
pub open spec fn presence_info_node_down_read(b0: Seq<u8>) -> Option<(PresenceInfoView, Seq<u8>)> {
    match wire::postcard_take_str(b0) {
        None => None,
        Some((node_name, b1)) => match wire::postcard_take_str(b1) {
            None => None,
            Some((reason, b2)) => Some((PresenceInfoView::NodeDown { node_name, reason }, b2)),
        },
    }
}

/// What is wrong with bytes that do not begin with a fields of `PresenceInfo::NodeDown`.
pub open spec fn presence_info_node_down_fault(b0: Seq<u8>) -> Seq<char> {
    match wire::postcard_take_str(b0) {
        None => wire::postcard_str_fault(b0),
        Some((_, b1)) => wire::postcard_str_fault(b1),
    }
}

impl Piece for PresenceInfo {
    open spec fn wire(v: PresenceInfoView) -> Seq<u8> {
        match v {
            PresenceInfoView::CompleteInit => wire::postcard_u32(0),
            PresenceInfoView::CrdtDelta { topic, delta } => wire::postcard_u32(1)
                + wire::postcard_str(topic)
                + SharedDelta::wire(delta),
            PresenceInfoView::CrdtSyncRequest { from, context } => wire::postcard_u32(2)
                + Pid::wire(from)
                + Dict::<u64>::wire(context),
            PresenceInfoView::CrdtSyncResponse { delta } => wire::postcard_u32(3)
                + SharedDelta::wire(delta),
            PresenceInfoView::NodeDown { node_name, reason } => wire::postcard_u32(4)
                + wire::postcard_str(node_name)
                + wire::postcard_str(reason),
        }
    }

    open spec fn read(b: Seq<u8>) -> Option<(PresenceInfoView, Seq<u8>)> {
        match wire::postcard_take_u32(b) {
            None => None,
            Some((kind, b0)) => if kind == 0 {
                presence_info_complete_init_read(b0)
            } else if kind == 1 {
                presence_info_crdt_delta_read(b0)
            } else if kind == 2 {
                presence_info_crdt_sync_request_read(b0)
            } else if kind == 3 {
                presence_info_crdt_sync_response_read(b0)
            } else if kind == 4 {
                presence_info_node_down_read(b0)
            } else {
                None
            },
        }
    }

    open spec fn fault(b: Seq<u8>) -> Seq<char> {
        match wire::postcard_take_u32(b) {
            None => wire::postcard_u32_fault(b),
            Some((kind, b0)) => if kind == 1 {
                presence_info_crdt_delta_fault(b0)
            } else if kind == 2 {
                presence_info_crdt_sync_request_fault(b0)
            } else if kind == 3 {
                presence_info_crdt_sync_response_fault(b0)
            } else if kind == 4 {
                presence_info_node_down_fault(b0)
            } else {
                wire::BAD_VARIANT@
            },
        }
    }

    fn put(&self, out: &mut Vec<u8>) {
        match self {
            PresenceInfo::CompleteInit => put_presence_info_complete_init(out),
            PresenceInfo::CrdtDelta { topic, delta } => put_presence_info_crdt_delta(out, topic, delta),
            PresenceInfo::CrdtSyncRequest { from, context } => put_presence_info_crdt_sync_request(out, from, context),
            PresenceInfo::CrdtSyncResponse { delta } => put_presence_info_crdt_sync_response(out, delta),
            PresenceInfo::NodeDown { node_name, reason } => put_presence_info_node_down(
                out,
                node_name,
                reason
            ),
        }
    }

    fn take(b: &[u8]) -> (r: Result<(Self, &[u8]), String>) {
        match wire::take_u32(b) {
            Err(e) => Err(e),
            Ok((kind, b0)) => if kind == 0 {
                take_presence_info_complete_init(b0)
            } else if kind == 1 {
                take_presence_info_crdt_delta(b0)
            } else if kind == 2 {
                take_presence_info_crdt_sync_request(b0)
            } else if kind == 3 {
                take_presence_info_crdt_sync_response(b0)
            } else if kind == 4 {
                take_presence_info_node_down(b0)
            } else {
                Err(wire::BAD_VARIANT.to_owned())
            },
        }
    }
}

fn put_presence_info_complete_init(out: &mut Vec<u8>)
    ensures
        final(out)@ == old(out)@ + PresenceInfo::wire(
            (PresenceInfoView::CompleteInit),
        ),
        forall|rest: Seq<u8>| #[trigger]
            PresenceInfo::read(
                PresenceInfo::wire((PresenceInfoView::CompleteInit)) + rest,
            ) == Some(((PresenceInfoView::CompleteInit), rest)),
{
    let ghost before = out@;
    let kind = wire::put_u32(0);
    wire::append_bytes(out, kind.as_slice());
    proof {
        let v = PresenceInfoView::CompleteInit;
        assert(out@ =~= before + PresenceInfo::wire(v));
        assert forall|rest: Seq<u8>| #[trigger] PresenceInfo::read(
            PresenceInfo::wire(v) + rest
        ) == Some(
            (v, rest),
        ) by {
            assert(PresenceInfo::wire(v) + rest =~= kind@ + rest);
        }
    }
}

fn take_presence_info_complete_init(b0: &[u8]) -> (r: Result<(PresenceInfo, &[u8]), String>)
    ensures
        match r {
            Ok((m, rest)) => presence_info_complete_init_read(b0@) == Some((m@, rest@)),
            Err(_) => presence_info_complete_init_read(b0@) is None,
        },
{
    Ok((PresenceInfo::CompleteInit, b0))
}

fn put_presence_info_crdt_delta(out: &mut Vec<u8>, topic: &String, delta: &SharedDelta)
    ensures
        final(out)@ == old(out)@ + PresenceInfo::wire(
            (PresenceInfoView::CrdtDelta { topic: topic@, delta: delta@ }),
        ),
        forall|rest: Seq<u8>| #[trigger]
            PresenceInfo::read(
                PresenceInfo::wire(
                    (PresenceInfoView::CrdtDelta { topic: topic@, delta: delta@ })
                ) + rest,
            ) == Some(((PresenceInfoView::CrdtDelta { topic: topic@, delta: delta@ }), rest)),
{
    let ghost before = out@;
    let kind = wire::put_u32(1);
    wire::append_bytes(out, kind.as_slice());
    let w_topic = wire::put_str(topic.as_str());
    wire::append_bytes(out, w_topic.as_slice());
    delta.put(out);
    proof {
        let v = PresenceInfoView::CrdtDelta { topic: topic@, delta: delta@ };
        assert(out@ =~= before + PresenceInfo::wire(v));
        assert forall|rest: Seq<u8>| #[trigger] PresenceInfo::read(
            PresenceInfo::wire(v) + rest
        ) == Some(
            (v, rest),
        ) by {
            assert(
                PresenceInfo::wire(v) + rest =~= kind@ + (
                    wire::postcard_str(topic@) + (SharedDelta::wire(delta@) + rest)
                )
            );
        }
    }
}

fn take_presence_info_crdt_delta(b0: &[u8]) -> (r: Result<(PresenceInfo, &[u8]), String>)
    ensures
        match r {
            Ok((m, rest)) => presence_info_crdt_delta_read(b0@) == Some((m@, rest@)),
            Err(e) => presence_info_crdt_delta_read(b0@) is None && e@
                == presence_info_crdt_delta_fault(b0@),
        },
{
    match wire::take_str(b0) {
        Err(e) => Err(e),
        Ok((topic, b1)) => match SharedDelta::take(b1) {
            Err(e) => Err(e),
            Ok((delta, b2)) => Ok((PresenceInfo::CrdtDelta { topic, delta }, b2)),
        },
    }
}

fn put_presence_info_crdt_sync_request(out: &mut Vec<u8>, from: &Pid, context: &Dict<u64>)
    ensures
        final(out)@ == old(out)@ + PresenceInfo::wire(
            (PresenceInfoView::CrdtSyncRequest { from: from@, context: context@ }),
        ),
        forall|rest: Seq<u8>| #[trigger]
            PresenceInfo::read(
                PresenceInfo::wire(
                    (PresenceInfoView::CrdtSyncRequest { from: from@, context: context@ })
                ) + rest,
            ) == Some(
                ((PresenceInfoView::CrdtSyncRequest { from: from@, context: context@ }), rest)
            ),
{
    let ghost before = out@;
    let kind = wire::put_u32(2);
    wire::append_bytes(out, kind.as_slice());
    from.put(out);
    context.put(out);
    proof {
        let v = PresenceInfoView::CrdtSyncRequest { from: from@, context: context@ };
        assert(out@ =~= before + PresenceInfo::wire(v));
        assert forall|rest: Seq<u8>| #[trigger] PresenceInfo::read(
            PresenceInfo::wire(v) + rest
        ) == Some(
            (v, rest),
        ) by {
            assert(
                PresenceInfo::wire(v) + rest =~= kind@ + (
                    Pid::wire(from@) + (Dict::<u64>::wire(context@) + rest)
                )
            );
        }
    }
}

fn take_presence_info_crdt_sync_request(b0: &[u8]) -> (r: Result<(PresenceInfo, &[u8]), String>)
    ensures
        match r {
            Ok((m, rest)) => presence_info_crdt_sync_request_read(b0@) == Some((m@, rest@)),
            Err(e) => presence_info_crdt_sync_request_read(b0@) is None && e@
                == presence_info_crdt_sync_request_fault(b0@),
        },
{
    match Pid::take(b0) {
        Err(e) => Err(e),
        Ok((from, b1)) => match Dict::<u64>::take(b1) {
            Err(e) => Err(e),
            Ok((context, b2)) => Ok((PresenceInfo::CrdtSyncRequest { from, context }, b2)),
        },
    }
}

fn put_presence_info_crdt_sync_response(out: &mut Vec<u8>, delta: &SharedDelta)
    ensures
        final(out)@ == old(out)@ + PresenceInfo::wire(
            (PresenceInfoView::CrdtSyncResponse { delta: delta@ }),
        ),
        forall|rest: Seq<u8>| #[trigger]
            PresenceInfo::read(
                PresenceInfo::wire((PresenceInfoView::CrdtSyncResponse { delta: delta@ })) + rest,
            ) == Some(((PresenceInfoView::CrdtSyncResponse { delta: delta@ }), rest)),
{
    let ghost before = out@;
    let kind = wire::put_u32(3);
    wire::append_bytes(out, kind.as_slice());
    delta.put(out);
    proof {
        let v = PresenceInfoView::CrdtSyncResponse { delta: delta@ };
        assert(out@ =~= before + PresenceInfo::wire(v));
        assert forall|rest: Seq<u8>| #[trigger] PresenceInfo::read(
            PresenceInfo::wire(v) + rest
        ) == Some(
            (v, rest),
        ) by {
            assert(PresenceInfo::wire(v) + rest =~= kind@ + (SharedDelta::wire(delta@) + rest));
        }
    }
}

fn take_presence_info_crdt_sync_response(b0: &[u8]) -> (r: Result<(PresenceInfo, &[u8]), String>)
    ensures
        match r {
            Ok((m, rest)) => presence_info_crdt_sync_response_read(b0@) == Some((m@, rest@)),
            Err(e) => presence_info_crdt_sync_response_read(b0@) is None && e@
                == presence_info_crdt_sync_response_fault(b0@),
        },
{
    match SharedDelta::take(b0) {
        Err(e) => Err(e),
        Ok((delta, b1)) => Ok((PresenceInfo::CrdtSyncResponse { delta }, b1)),
    }
}

fn put_presence_info_node_down(out: &mut Vec<u8>, node_name: &String, reason: &String)
    ensures
        final(out)@ == old(out)@ + PresenceInfo::wire(
            (PresenceInfoView::NodeDown { node_name: node_name@, reason: reason@ }),
        ),
        forall|rest: Seq<u8>| #[trigger]
            PresenceInfo::read(
                PresenceInfo::wire(
                    (PresenceInfoView::NodeDown { node_name: node_name@, reason: reason@ })
                ) + rest,
            ) == Some(
                ((PresenceInfoView::NodeDown { node_name: node_name@, reason: reason@ }), rest)
            ),
{
    let ghost before = out@;
    let kind = wire::put_u32(4);
    wire::append_bytes(out, kind.as_slice());
    let w_node_name = wire::put_str(node_name.as_str());
    wire::append_bytes(out, w_node_name.as_slice());
    let w_reason = wire::put_str(reason.as_str());
    wire::append_bytes(out, w_reason.as_slice());
    proof {
        let v = PresenceInfoView::NodeDown { node_name: node_name@, reason: reason@ };
        assert(out@ =~= before + PresenceInfo::wire(v));
        assert forall|rest: Seq<u8>| #[trigger] PresenceInfo::read(
            PresenceInfo::wire(v) + rest
        ) == Some(
            (v, rest),
        ) by {
            assert(
                PresenceInfo::wire(v) + rest =~= kind@ + (
                    wire::postcard_str(node_name@) + (wire::postcard_str(reason@) + rest)
                )
            );
        }
    }
}

fn take_presence_info_node_down(b0: &[u8]) -> (r: Result<(PresenceInfo, &[u8]), String>)
    ensures
        match r {
            Ok((m, rest)) => presence_info_node_down_read(b0@) == Some((m@, rest@)),
            Err(e) => presence_info_node_down_read(b0@) is None && e@
                == presence_info_node_down_fault(b0@),
        },
{
    match wire::take_str(b0) {
        Err(e) => Err(e),
        Ok((node_name, b1)) => match wire::take_str(b1) {
            Err(e) => Err(e),
            Ok((reason, b2)) => Ok((PresenceInfo::NodeDown { node_name, reason }, b2)),
        },
    }
}

impl Message for PresenceInfo {
    open spec fn tag_view() -> Seq<char> {
        "PresenceInfo"@
    }

    open spec fn payload(v: PresenceInfoView) -> Seq<u8> {
        Self::wire(v)
    }

    open spec fn unpacked(bytes: Seq<u8>) -> Option<PresenceInfoView> {
        match Self::read(bytes) {
            Some((v, _)) => Some(v),
            None => None,
        }
    }

    open spec fn unpack_fault(bytes: Seq<u8>) -> DecodeErrorView {
        DecodeErrorView::Postcard(Self::fault(bytes))
    }

    open spec fn remote(v: PresenceInfoView) -> Seq<u8> {
        message::tagged(Self::tag_view(), Self::payload(v))
    }

    open spec fn from_remote(bytes: Seq<u8>) -> Option<PresenceInfoView> {
        match message::stripped(bytes, Self::tag_view()) {
            Some(payload) => Self::unpacked(payload),
            None => None,
        }
    }

    open spec fn remote_fault(bytes: Seq<u8>) -> DecodeErrorView {
        match message::stripped(bytes, Self::tag_view()) {
            Some(payload) => Self::unpack_fault(payload),
            None => DecodeErrorView::InvalidData(message::strip_fault(bytes, Self::tag_view())),
        }
    }

    fn tag() -> (r: &'static str) {
        "PresenceInfo"
    }

    fn encode_local(&self) -> (r: Vec<u8>) {
        let mut out: Vec<u8> = Vec::new();
        self.put(&mut out);
        proof {
            assert(Self::wire(self@) + Seq::<u8>::empty() =~= Self::wire(self@));
            assert(out@ =~= Self::wire(self@));
        }
        message::encode_with_tag("PresenceInfo", out.as_slice())
    }

    fn decode_local(bytes: &[u8]) -> (r: Result<Self, DecodeError>) {
        match Self::take(bytes) {
            Ok((m, _)) => Ok(m),
            Err(text) => Err(DecodeError::Postcard(text)),
        }
    }

    fn encode_remote(&self) -> (r: Vec<u8>) {
        proof {
            reveal_strlit("PresenceInfo");
            message::lemma_stripped("PresenceInfo"@, Self::payload(self@));
        }
        self.encode_local()
    }

    fn decode_remote(bytes: &[u8]) -> (r: Result<Self, DecodeError>) {
        match message::strip_tag(bytes, "PresenceInfo") {
            Ok(payload) => Self::decode_local(payload),
            Err(e) => Err(e),
        }
    }
}

/// What `PresenceReply` stands for.
#[verifier::ext_equal]
pub enum PresenceReplyView {
    /// It is done, perhaps with a reference.
    Done {
        /// The reference.
        phx_ref: Option<Seq<char>>,
    },
    /// Who is present in a topic.
    PresenceList {
        /// The presences by key.
        presences: Seq<(Seq<char>, PresenceStateView)>,
    },
    /// Who is present under a key.
    PresenceGet {
        /// The presences.
        presence: Option<PresenceStateView>,
    },
}

/// The reply to a request.
pub enum PresenceReply {
    /// It is done, perhaps with a reference.
    Done {
        /// The reference.
        phx_ref: Option<PresenceRef>,
    },
    /// Who is present in a topic.
    PresenceList {
        /// The presences by key.
        presences: Dict<PresenceState>,
    },
    /// Who is present under a key.
    PresenceGet {
        /// The presences.
        presence: Option<PresenceState>,
    },
}

impl View for PresenceReply {
    type V = PresenceReplyView;

    open spec fn view(&self) -> PresenceReplyView {
        match *self {
            PresenceReply::Done { phx_ref } => PresenceReplyView::Done {
                phx_ref: piece::option_view(phx_ref),
            },
            PresenceReply::PresenceList { presences } => PresenceReplyView::PresenceList {
                presences: presences@,
            },
            PresenceReply::PresenceGet { presence } => PresenceReplyView::PresenceGet {
                presence: piece::option_view(presence),
            },
        }
    }
}

/// The fields of `PresenceReply::Done` at the front of some bytes.
pub open spec fn presence_reply_done_read(b0: Seq<u8>) -> Option<(PresenceReplyView, Seq<u8>)> {
    match piece::option_read::<PresenceRef>(b0) {
        None => None,
        Some((phx_ref, b1)) => Some((PresenceReplyView::Done { phx_ref }, b1)),
    }
}

/// What is wrong with bytes that do not begin with a fields of `PresenceReply::Done`.
pub open spec fn presence_reply_done_fault(b0: Seq<u8>) -> Seq<char> {
    piece::option_fault::<PresenceRef>(b0)
}

/// The fields of `PresenceReply::PresenceList` at the front of some bytes.
pub open spec fn presence_reply_presence_list_read(b0: Seq<u8>) -> Option<(
    PresenceReplyView,
    Seq<u8>
)> {
    match Dict::<PresenceState>::read(b0) {
        None => None,
        Some((presences, b1)) => Some((PresenceReplyView::PresenceList { presences }, b1)),
    }
}

/// What is wrong with bytes that do not begin with a fields of `PresenceReply::PresenceList`.
pub open spec fn presence_reply_presence_list_fault(b0: Seq<u8>) -> Seq<char> {
    Dict::<PresenceState>::fault(b0)
}

/// The fields of `PresenceReply::PresenceGet` at the front of some bytes.
pub open spec fn presence_reply_presence_get_read(b0: Seq<u8>) -> Option<(
    PresenceReplyView,
    Seq<u8>
)> {
    match piece::option_read::<PresenceState>(b0) {
        None => None,
        Some((presence, b1)) => Some((PresenceReplyView::PresenceGet { presence }, b1)),
    }
}

/// What is wrong with bytes that do not begin with a fields of `PresenceReply::PresenceGet`.
pub open spec fn presence_reply_presence_get_fault(b0: Seq<u8>) -> Seq<char> {
    piece::option_fault::<PresenceState>(b0)
}

impl Piece for PresenceReply {
    open spec fn wire(v: PresenceReplyView) -> Seq<u8> {
        match v {
            PresenceReplyView::Done { phx_ref } => wire::postcard_u32(0)
                + piece::option_wire::<PresenceRef>(phx_ref),
            PresenceReplyView::PresenceList { presences } => wire::postcard_u32(1)
                + Dict::<PresenceState>::wire(presences),
            PresenceReplyView::PresenceGet { presence } => wire::postcard_u32(2)
                + piece::option_wire::<PresenceState>(presence),
        }
    }

    open spec fn read(b: Seq<u8>) -> Option<(PresenceReplyView, Seq<u8>)> {
        match wire::postcard_take_u32(b) {
            None => None,
            Some((kind, b0)) => if kind == 0 {
                presence_reply_done_read(b0)
            } else if kind == 1 {
                presence_reply_presence_list_read(b0)
            } else if kind == 2 {
                presence_reply_presence_get_read(b0)
            } else {
                None
            },
        }
    }

    open spec fn fault(b: Seq<u8>) -> Seq<char> {
        match wire::postcard_take_u32(b) {
            None => wire::postcard_u32_fault(b),
            Some((kind, b0)) => if kind == 0 {
                presence_reply_done_fault(b0)
            } else if kind == 1 {
                presence_reply_presence_list_fault(b0)
            } else if kind == 2 {
                presence_reply_presence_get_fault(b0)
            } else {
                wire::BAD_VARIANT@
            },
        }
    }

    fn put(&self, out: &mut Vec<u8>) {
        match self {
            PresenceReply::Done { phx_ref } => put_presence_reply_done(out, phx_ref),
            PresenceReply::PresenceList { presences } => put_presence_reply_presence_list(out, presences),
            PresenceReply::PresenceGet { presence } => put_presence_reply_presence_get(out, presence),
        }
    }

    fn take(b: &[u8]) -> (r: Result<(Self, &[u8]), String>) {
        match wire::take_u32(b) {
            Err(e) => Err(e),
            Ok((kind, b0)) => if kind == 0 {
                take_presence_reply_done(b0)
            } else if kind == 1 {
                take_presence_reply_presence_list(b0)
            } else if kind == 2 {
                take_presence_reply_presence_get(b0)
            } else {
                Err(wire::BAD_VARIANT.to_owned())
            },
        }
    }
}

fn put_presence_reply_done(out: &mut Vec<u8>, phx_ref: &Option<PresenceRef>)
    ensures
        final(out)@ == old(out)@ + PresenceReply::wire(
            (PresenceReplyView::Done { phx_ref: piece::option_view(*phx_ref) }),
        ),
        forall|rest: Seq<u8>| #[trigger]
            PresenceReply::read(
                PresenceReply::wire(
                    (PresenceReplyView::Done { phx_ref: piece::option_view(*phx_ref) })
                ) + rest,
            ) == Some(((PresenceReplyView::Done { phx_ref: piece::option_view(*phx_ref) }), rest)),
{
    let ghost before = out@;
    let kind = wire::put_u32(0);
    wire::append_bytes(out, kind.as_slice());
    piece::put_option(out, phx_ref);
    proof {
        let v = PresenceReplyView::Done { phx_ref: piece::option_view(*phx_ref) };
        assert(out@ =~= before + PresenceReply::wire(v));
        assert forall|rest: Seq<u8>| #[trigger] PresenceReply::read(
            PresenceReply::wire(v) + rest
        ) == Some(
            (v, rest),
        ) by {
            assert(
                PresenceReply::wire(v) + rest =~= kind@ + (
                    piece::option_wire::<PresenceRef>(piece::option_view(*phx_ref)) + rest
                )
            );
        }
    }
}

fn take_presence_reply_done(b0: &[u8]) -> (r: Result<(PresenceReply, &[u8]), String>)
    ensures
        match r {
            Ok((m, rest)) => presence_reply_done_read(b0@) == Some((m@, rest@)),
            Err(e) => presence_reply_done_read(b0@) is None && e@ == presence_reply_done_fault(b0@),
        },
{
    match piece::take_option::<PresenceRef>(b0) {
        Err(e) => Err(e),
        Ok((phx_ref, b1)) => Ok((PresenceReply::Done { phx_ref }, b1)),
    }
}

fn put_presence_reply_presence_list(out: &mut Vec<u8>, presences: &Dict<PresenceState>)
    ensures
        final(out)@ == old(out)@ + PresenceReply::wire(
            (PresenceReplyView::PresenceList { presences: presences@ }),
        ),
        forall|rest: Seq<u8>| #[trigger]
            PresenceReply::read(
                PresenceReply::wire(
                    (PresenceReplyView::PresenceList { presences: presences@ })
                ) + rest,
            ) == Some(((PresenceReplyView::PresenceList { presences: presences@ }), rest)),
{
    let ghost before = out@;
    let kind = wire::put_u32(1);
    wire::append_bytes(out, kind.as_slice());
    presences.put(out);
    proof {
        let v = PresenceReplyView::PresenceList { presences: presences@ };
        assert(out@ =~= before + PresenceReply::wire(v));
        assert forall|rest: Seq<u8>| #[trigger] PresenceReply::read(
            PresenceReply::wire(v) + rest
        ) == Some(
            (v, rest),
        ) by {
            assert(
                PresenceReply::wire(v) + rest =~= kind@ + (
                    Dict::<PresenceState>::wire(presences@) + rest
                )
            );
        }
    }
}

fn take_presence_reply_presence_list(b0: &[u8]) -> (r: Result<(PresenceReply, &[u8]), String>)
    ensures
        match r {
            Ok((m, rest)) => presence_reply_presence_list_read(b0@) == Some((m@, rest@)),
            Err(e) => presence_reply_presence_list_read(b0@) is None && e@
                == presence_reply_presence_list_fault(b0@),
        },
{
    match Dict::<PresenceState>::take(b0) {
        Err(e) => Err(e),
        Ok((presences, b1)) => Ok((PresenceReply::PresenceList { presences }, b1)),
    }
}

fn put_presence_reply_presence_get(out: &mut Vec<u8>, presence: &Option<PresenceState>)
    ensures
        final(out)@ == old(out)@ + PresenceReply::wire(
            (PresenceReplyView::PresenceGet { presence: piece::option_view(*presence) }),
        ),
        forall|rest: Seq<u8>| #[trigger]
            PresenceReply::read(
                PresenceReply::wire(
                    (PresenceReplyView::PresenceGet { presence: piece::option_view(*presence) })
                ) + rest,
            ) == Some(
                ((PresenceReplyView::PresenceGet { presence: piece::option_view(*presence) }), rest)
            ),
{
    let ghost before = out@;
    let kind = wire::put_u32(2);
    wire::append_bytes(out, kind.as_slice());
    piece::put_option(out, presence);
    proof {
        let v = PresenceReplyView::PresenceGet { presence: piece::option_view(*presence) };
        assert(out@ =~= before + PresenceReply::wire(v));
        assert forall|rest: Seq<u8>| #[trigger] PresenceReply::read(
            PresenceReply::wire(v) + rest
        ) == Some(
            (v, rest),
        ) by {
            assert(
                PresenceReply::wire(v) + rest =~= kind@ + (
                    piece::option_wire::<PresenceState>(piece::option_view(*presence)) + rest
                )
            );
        }
    }
}

fn take_presence_reply_presence_get(b0: &[u8]) -> (r: Result<(PresenceReply, &[u8]), String>)
    ensures
        match r {
            Ok((m, rest)) => presence_reply_presence_get_read(b0@) == Some((m@, rest@)),
            Err(e) => presence_reply_presence_get_read(b0@) is None && e@
                == presence_reply_presence_get_fault(b0@),
        },
{
    match piece::take_option::<PresenceState>(b0) {
        Err(e) => Err(e),
        Ok((presence, b1)) => Ok((PresenceReply::PresenceGet { presence }, b1)),
    }
}

impl Message for PresenceReply {
    open spec fn tag_view() -> Seq<char> {
        "PresenceReply"@
    }

    open spec fn payload(v: PresenceReplyView) -> Seq<u8> {
        Self::wire(v)
    }

    open spec fn unpacked(bytes: Seq<u8>) -> Option<PresenceReplyView> {
        match Self::read(bytes) {
            Some((v, _)) => Some(v),
            None => None,
        }
    }

    open spec fn unpack_fault(bytes: Seq<u8>) -> DecodeErrorView {
        DecodeErrorView::Postcard(Self::fault(bytes))
    }

    open spec fn remote(v: PresenceReplyView) -> Seq<u8> {
        message::tagged(Self::tag_view(), Self::payload(v))
    }

    open spec fn from_remote(bytes: Seq<u8>) -> Option<PresenceReplyView> {
        match message::stripped(bytes, Self::tag_view()) {
            Some(payload) => Self::unpacked(payload),
            None => None,
        }
    }

    open spec fn remote_fault(bytes: Seq<u8>) -> DecodeErrorView {
        match message::stripped(bytes, Self::tag_view()) {
            Some(payload) => Self::unpack_fault(payload),
            None => DecodeErrorView::InvalidData(message::strip_fault(bytes, Self::tag_view())),
        }
    }

    fn tag() -> (r: &'static str) {
        "PresenceReply"
    }

    fn encode_local(&self) -> (r: Vec<u8>) {
        let mut out: Vec<u8> = Vec::new();
        self.put(&mut out);
        proof {
            assert(Self::wire(self@) + Seq::<u8>::empty() =~= Self::wire(self@));
            assert(out@ =~= Self::wire(self@));
        }
        message::encode_with_tag("PresenceReply", out.as_slice())
    }

    fn decode_local(bytes: &[u8]) -> (r: Result<Self, DecodeError>) {
        match Self::take(bytes) {
            Ok((m, _)) => Ok(m),
            Err(text) => Err(DecodeError::Postcard(text)),
        }
    }

    fn encode_remote(&self) -> (r: Vec<u8>) {
        proof {
            reveal_strlit("PresenceReply");
            message::lemma_stripped("PresenceReply"@, Self::payload(self@));
        }
        self.encode_local()
    }

    fn decode_remote(bytes: &[u8]) -> (r: Result<Self, DecodeError>) {
        match message::strip_tag(bytes, "PresenceReply") {
            Ok(payload) => Self::decode_local(payload),
            Err(e) => Err(e),
        }
    }
}

impl PresenceMeta {
    /// The metadata of a process that has just become present, with encoded custom metadata.
    pub fn new(phx_ref: PresenceRef, pid: Pid, meta: Vec<u8>, now: u64) -> (r: Self)
        ensures
            r@ == (PresenceMetaView {
                phx_ref: phx_ref@,
                phx_ref_prev: None,
                pid: pid@,
                meta: meta@,
                updated_at: now,
            }),
    {
        PresenceMeta { phx_ref, phx_ref_prev: None, pid, meta, updated_at: now }
    }
}

impl PresenceDiff {
    /// Whether nobody joined or left.
    pub fn is_empty(&self) -> (r: bool)
        ensures
            r == (self@.joins.len() == 0 && self@.leaves.len() == 0),
    {
        self.joins.is_empty() && self.leaves.is_empty()
    }
}

impl Default for PresenceDiff {
    fn default() -> (r: Self)
        ensures
            r@ == (PresenceDiffView { joins: Seq::empty(), leaves: Seq::empty() }),
    {
        PresenceDiff { joins: Dict::new(), leaves: Dict::new() }
    }
}

impl Default for PresenceState {
    fn default() -> (r: Self)
        ensures
            r@.metas == Seq::<PresenceMetaView>::empty(),
    {
        let r = PresenceState { metas: Vec::new() };
        assert(r@.metas =~= Seq::<PresenceMetaView>::empty());
        r
    }
}

/// The delta that a shared delta stands for.
pub open spec fn unshared(d: SharedDeltaView) -> DeltaView {
    DeltaView { joins: d.joins, leave_tags: d.leave_tags, context: piece::as_map(d.context) }
}

impl SharedDelta {
    /// The delta in the form in which it is sent.
    pub fn share(delta: PresenceDelta) -> (r: Self)
        requires
            delta.wf(),
        ensures
            unshared(r@) == delta@,
    {
        let context = Dict::of_table(&delta.context);
        SharedDelta { joins: delta.joins, leave_tags: delta.leave_tags, context }
    }

    /// The delta that was sent.
    pub fn received(self) -> (r: PresenceDelta)
        ensures
            r.wf(),
            r@ == unshared(self@),
    {
        PresenceDelta {
            joins: self.joins,
            leave_tags: self.leave_tags,
            context: self.context.into_table(),
        }
    }
}

} // verus!
