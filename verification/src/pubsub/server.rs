//! The publish-subscribe server, with a message type for each request.

use vstd::prelude::*;

use crate::channel::channels;
use crate::codec;
use crate::gen_server::server as enumerated;
use crate::gen_server::v2::server as dispatched;
use crate::message;
use crate::message::Message;
use crate::piece;
use crate::process::{DecodeError, DecodeErrorView, Pid, PidView};
use crate::pubsub::subscriptions;
use crate::pubsub::subscriptions::Subscriptions;
use crate::table;
use crate::table::Key;
use crate::text;
use crate::wire;

verus! {

/// What `Subscribe` stands for.
pub struct SubscribeView {
    /// The topic.
    pub topic: Seq<char>,
    /// The process.
    pub pid: PidView,
}

/// Subscribes a process to a topic.
pub struct Subscribe {
    /// The topic.
    pub topic: String,
    /// The process.
    pub pid: Pid,
}

impl View for Subscribe {
    type V = SubscribeView;

    open spec fn view(&self) -> SubscribeView {
        SubscribeView {
            topic: self.topic@,
            pid: self.pid@,
        }
    }
}

impl Message for Subscribe {
    open spec fn tag_view() -> Seq<char> {
        "Subscribe"@
    }

    open spec fn payload(v: SubscribeView) -> Seq<u8> {
        wire::postcard_str(v.topic)
            + codec::pid_wire(v.pid)
    }

    open spec fn unpacked(b0: Seq<u8>) -> Option<SubscribeView> {
        match wire::postcard_take_str(b0) {
            None => None,
            Some((topic, b1)) => match codec::pid_read(b1) {
                None => None,
                Some((pid, _)) => Some(SubscribeView { topic, pid }),
            },
        }
    }

    open spec fn unpack_fault(b0: Seq<u8>) -> DecodeErrorView {
        let text = match wire::postcard_take_str(b0) {
            None => wire::postcard_str_fault(b0),
            Some((_, b1)) => codec::pid_fault(b1),
        };
        DecodeErrorView::Postcard(text)
    }

    open spec fn remote(v: SubscribeView) -> Seq<u8> {
        message::tagged(Self::tag_view(), Self::payload(v))
    }

    open spec fn from_remote(bytes: Seq<u8>) -> Option<SubscribeView> {
        match message::stripped(bytes, Self::tag_view()) {
            Some(payload) => Self::unpacked(payload),
            None => None,
        }
    }

    open spec fn remote_fault(bytes: Seq<u8>) -> DecodeErrorView {
        match message::stripped(bytes, Self::tag_view()) {
            Some(payload) => Self::unpack_fault(payload),
            None => DecodeErrorView::InvalidData(message::strip_fault(bytes, Self::tag_view())),
        }
    }

    fn tag() -> (r: &'static str) {
        "Subscribe"
    }

    fn encode_local(&self) -> (r: Vec<u8>) {
        let mut out: Vec<u8> = Vec::new();
        let w_topic = wire::put_str(self.topic.as_str());
        wire::append_bytes(&mut out, w_topic.as_slice());
        codec::put_pid(&mut out, &self.pid);
        proof {
            assert(out@ =~= (wire::postcard_str(self.topic@)
                + (codec::pid_wire(self.pid@)
                + Seq::<u8>::empty())));
            assert(out@ =~= Self::payload(self@));
        }
        message::encode_with_tag("Subscribe", out.as_slice())
    }

    fn decode_local(b0: &[u8]) -> (r: Result<Subscribe, DecodeError>) {
        match wire::take_str(b0) {
            Err(e) => Err(DecodeError::Postcard(e)),
            Ok((topic, b1)) => match codec::take_pid(b1) {
                Err(e) => Err(DecodeError::Postcard(e)),
                Ok((pid, _)) => Ok(Subscribe { topic, pid }),
            },
        }
    }

    fn encode_remote(&self) -> (r: Vec<u8>) {
        proof {
            reveal_strlit("Subscribe");
            message::lemma_stripped("Subscribe"@, Self::payload(self@));
        }
        self.encode_local()
    }

    fn decode_remote(bytes: &[u8]) -> (r: Result<Subscribe, DecodeError>) {
        match message::strip_tag(bytes, "Subscribe") {
            Ok(payload) => Self::decode_local(payload),
            Err(e) => Err(e),
        }
    }
}

/// What `Unsubscribe` stands for.
pub struct UnsubscribeView {
    /// The topic.
    pub topic: Seq<char>,
    /// The process.
    pub pid: PidView,
}

/// Takes the subscription of a process to a topic back.
pub struct Unsubscribe {
    /// The topic.
    pub topic: String,
    /// The process.
    pub pid: Pid,
}

impl View for Unsubscribe {
    type V = UnsubscribeView;

    open spec fn view(&self) -> UnsubscribeView {
        UnsubscribeView {
            topic: self.topic@,
            pid: self.pid@,
        }
    }
}

impl Message for Unsubscribe {
    open spec fn tag_view() -> Seq<char> {
        "Unsubscribe"@
    }

    open spec fn payload(v: UnsubscribeView) -> Seq<u8> {
        wire::postcard_str(v.topic)
            + codec::pid_wire(v.pid)
    }

    open spec fn unpacked(b0: Seq<u8>) -> Option<UnsubscribeView> {
        match wire::postcard_take_str(b0) {
            None => None,
            Some((topic, b1)) => match codec::pid_read(b1) {
                None => None,
                Some((pid, _)) => Some(UnsubscribeView { topic, pid }),
            },
        }
    }

    open spec fn unpack_fault(b0: Seq<u8>) -> DecodeErrorView {
        let text = match wire::postcard_take_str(b0) {
            None => wire::postcard_str_fault(b0),
            Some((_, b1)) => codec::pid_fault(b1),
        };
        DecodeErrorView::Postcard(text)
    }

    open spec fn remote(v: UnsubscribeView) -> Seq<u8> {
        message::tagged(Self::tag_view(), Self::payload(v))
    }

    open spec fn from_remote(bytes: Seq<u8>) -> Option<UnsubscribeView> {
        match message::stripped(bytes, Self::tag_view()) {
            Some(payload) => Self::unpacked(payload),
            None => None,
        }
    }

    open spec fn remote_fault(bytes: Seq<u8>) -> DecodeErrorView {
        match message::stripped(bytes, Self::tag_view()) {
            Some(payload) => Self::unpack_fault(payload),
            None => DecodeErrorView::InvalidData(message::strip_fault(bytes, Self::tag_view())),
        }
    }

    fn tag() -> (r: &'static str) {
        "Unsubscribe"
    }

    fn encode_local(&self) -> (r: Vec<u8>) {
        let mut out: Vec<u8> = Vec::new();
        let w_topic = wire::put_str(self.topic.as_str());
        wire::append_bytes(&mut out, w_topic.as_slice());
        codec::put_pid(&mut out, &self.pid);
        proof {
            assert(out@ =~= (wire::postcard_str(self.topic@)
                + (codec::pid_wire(self.pid@)
                + Seq::<u8>::empty())));
            assert(out@ =~= Self::payload(self@));
        }
        message::encode_with_tag("Unsubscribe", out.as_slice())
    }

    fn decode_local(b0: &[u8]) -> (r: Result<Unsubscribe, DecodeError>) {
        match wire::take_str(b0) {
            Err(e) => Err(DecodeError::Postcard(e)),
            Ok((topic, b1)) => match codec::take_pid(b1) {
                Err(e) => Err(DecodeError::Postcard(e)),
                Ok((pid, _)) => Ok(Unsubscribe { topic, pid }),
            },
        }
    }

    fn encode_remote(&self) -> (r: Vec<u8>) {
        proof {
            reveal_strlit("Unsubscribe");
            message::lemma_stripped("Unsubscribe"@, Self::payload(self@));
        }
        self.encode_local()
    }

    fn decode_remote(bytes: &[u8]) -> (r: Result<Unsubscribe, DecodeError>) {
        match message::strip_tag(bytes, "Unsubscribe") {
            Ok(payload) => Self::decode_local(payload),
            Err(e) => Err(e),
        }
    }
}

/// What `UnsubscribeAll` stands for.
pub struct UnsubscribeAllView {
    /// The process.
    pub pid: PidView,
}

/// Takes all subscriptions of a process back.
pub struct UnsubscribeAll {
    /// The process.
    pub pid: Pid,
}

impl View for UnsubscribeAll {
    type V = UnsubscribeAllView;

    open spec fn view(&self) -> UnsubscribeAllView {
        UnsubscribeAllView {
            pid: self.pid@,
        }
    }
}

impl Message for UnsubscribeAll {
    open spec fn tag_view() -> Seq<char> {
        "UnsubscribeAll"@
    }

    open spec fn payload(v: UnsubscribeAllView) -> Seq<u8> {
        codec::pid_wire(v.pid)
    }

    open spec fn unpacked(b0: Seq<u8>) -> Option<UnsubscribeAllView> {
        match codec::pid_read(b0) {
            None => None,
            Some((pid, _)) => Some(UnsubscribeAllView { pid }),
        }
    }

    open spec fn unpack_fault(b0: Seq<u8>) -> DecodeErrorView {
        DecodeErrorView::Postcard(codec::pid_fault(b0))
    }

    open spec fn remote(v: UnsubscribeAllView) -> Seq<u8> {
        message::tagged(Self::tag_view(), Self::payload(v))
    }

    open spec fn from_remote(bytes: Seq<u8>) -> Option<UnsubscribeAllView> {
        match message::stripped(bytes, Self::tag_view()) {
            Some(payload) => Self::unpacked(payload),
            None => None,
        }
    }

    open spec fn remote_fault(bytes: Seq<u8>) -> DecodeErrorView {
        match message::stripped(bytes, Self::tag_view()) {
            Some(payload) => Self::unpack_fault(payload),
            None => DecodeErrorView::InvalidData(message::strip_fault(bytes, Self::tag_view())),
        }
    }

    fn tag() -> (r: &'static str) {
        "UnsubscribeAll"
    }

    fn encode_local(&self) -> (r: Vec<u8>) {
        let mut out: Vec<u8> = Vec::new();
        codec::put_pid(&mut out, &self.pid);
        proof {
            assert(out@ =~= (codec::pid_wire(self.pid@)
                + Seq::<u8>::empty()));
            assert(out@ =~= Self::payload(self@));
        }
        message::encode_with_tag("UnsubscribeAll", out.as_slice())
    }

    fn decode_local(b0: &[u8]) -> (r: Result<UnsubscribeAll, DecodeError>) {
        match codec::take_pid(b0) {
            Err(e) => Err(DecodeError::Postcard(e)),
            Ok((pid, _)) => Ok(UnsubscribeAll { pid }),
        }
    }

    fn encode_remote(&self) -> (r: Vec<u8>) {
        proof {
            reveal_strlit("UnsubscribeAll");
            message::lemma_stripped("UnsubscribeAll"@, Self::payload(self@));
        }
        self.encode_local()
    }

    fn decode_remote(bytes: &[u8]) -> (r: Result<UnsubscribeAll, DecodeError>) {
        match message::strip_tag(bytes, "UnsubscribeAll") {
            Ok(payload) => Self::decode_local(payload),
            Err(e) => Err(e),
        }
    }
}

/// What `GetSubscribers` stands for.
pub struct GetSubscribersView {
    /// The topic.
    pub topic: Seq<char>,
}

/// Asks for the subscribers of a topic.
pub struct GetSubscribers {
    /// The topic.
    pub topic: String,
}

impl View for GetSubscribers {
    type V = GetSubscribersView;

    open spec fn view(&self) -> GetSubscribersView {
        GetSubscribersView {
            topic: self.topic@,
        }
    }
}

impl Message for GetSubscribers {
    open spec fn tag_view() -> Seq<char> {
        "GetSubscribers"@
    }

    open spec fn payload(v: GetSubscribersView) -> Seq<u8> {
        wire::postcard_str(v.topic)
    }

    open spec fn unpacked(b0: Seq<u8>) -> Option<GetSubscribersView> {
        match wire::postcard_take_str(b0) {
            None => None,
            Some((topic, _)) => Some(GetSubscribersView { topic }),
        }
    }

    open spec fn unpack_fault(b0: Seq<u8>) -> DecodeErrorView {
        DecodeErrorView::Postcard(wire::postcard_str_fault(b0))
    }

    open spec fn remote(v: GetSubscribersView) -> Seq<u8> {
        message::tagged(Self::tag_view(), Self::payload(v))
    }

    open spec fn from_remote(bytes: Seq<u8>) -> Option<GetSubscribersView> {
        match message::stripped(bytes, Self::tag_view()) {
            Some(payload) => Self::unpacked(payload),
            None => None,
        }
    }

    open spec fn remote_fault(bytes: Seq<u8>) -> DecodeErrorView {
        match message::stripped(bytes, Self::tag_view()) {
            Some(payload) => Self::unpack_fault(payload),
            None => DecodeErrorView::InvalidData(message::strip_fault(bytes, Self::tag_view())),
        }
    }

    fn tag() -> (r: &'static str) {
        "GetSubscribers"
    }

    fn encode_local(&self) -> (r: Vec<u8>) {
        let mut out: Vec<u8> = Vec::new();
        let w_topic = wire::put_str(self.topic.as_str());
        wire::append_bytes(&mut out, w_topic.as_slice());
        proof {
            assert(out@ =~= (wire::postcard_str(self.topic@)
                + Seq::<u8>::empty()));
            assert(out@ =~= Self::payload(self@));
        }
        message::encode_with_tag("GetSubscribers", out.as_slice())
    }

    fn decode_local(b0: &[u8]) -> (r: Result<GetSubscribers, DecodeError>) {
        match wire::take_str(b0) {
            Err(e) => Err(DecodeError::Postcard(e)),
            Ok((topic, _)) => Ok(GetSubscribers { topic }),
        }
    }

    fn encode_remote(&self) -> (r: Vec<u8>) {
        proof {
            reveal_strlit("GetSubscribers");
            message::lemma_stripped("GetSubscribers"@, Self::payload(self@));
        }
        self.encode_local()
    }

    fn decode_remote(bytes: &[u8]) -> (r: Result<GetSubscribers, DecodeError>) {
        match message::strip_tag(bytes, "GetSubscribers") {
            Ok(payload) => Self::decode_local(payload),
            Err(e) => Err(e),
        }
    }
}

/// What `GetLocalSubscribers` stands for.
pub struct GetLocalSubscribersView {
    /// The topic.
    pub topic: Seq<char>,
}

/// Asks for the subscribers of a topic on this node.
pub struct GetLocalSubscribers {
    /// The topic.
    pub topic: String,
}

impl View for GetLocalSubscribers {
    type V = GetLocalSubscribersView;

    open spec fn view(&self) -> GetLocalSubscribersView {
        GetLocalSubscribersView {
            topic: self.topic@,
        }
    }
}

impl Message for GetLocalSubscribers {
    open spec fn tag_view() -> Seq<char> {
        "GetLocalSubscribers"@
    }

    open spec fn payload(v: GetLocalSubscribersView) -> Seq<u8> {
        wire::postcard_str(v.topic)
    }

    open spec fn unpacked(b0: Seq<u8>) -> Option<GetLocalSubscribersView> {
        match wire::postcard_take_str(b0) {
            None => None,
            Some((topic, _)) => Some(GetLocalSubscribersView { topic }),
        }
    }

    open spec fn unpack_fault(b0: Seq<u8>) -> DecodeErrorView {
        DecodeErrorView::Postcard(wire::postcard_str_fault(b0))
    }

    open spec fn remote(v: GetLocalSubscribersView) -> Seq<u8> {
        message::tagged(Self::tag_view(), Self::payload(v))
    }

    open spec fn from_remote(bytes: Seq<u8>) -> Option<GetLocalSubscribersView> {
        match message::stripped(bytes, Self::tag_view()) {
            Some(payload) => Self::unpacked(payload),
            None => None,
        }
    }

    open spec fn remote_fault(bytes: Seq<u8>) -> DecodeErrorView {
        match message::stripped(bytes, Self::tag_view()) {
            Some(payload) => Self::unpack_fault(payload),
            None => DecodeErrorView::InvalidData(message::strip_fault(bytes, Self::tag_view())),
        }
    }

    fn tag() -> (r: &'static str) {
        "GetLocalSubscribers"
    }

    fn encode_local(&self) -> (r: Vec<u8>) {
        let mut out: Vec<u8> = Vec::new();
        let w_topic = wire::put_str(self.topic.as_str());
        wire::append_bytes(&mut out, w_topic.as_slice());
        proof {
            assert(out@ =~= (wire::postcard_str(self.topic@)
                + Seq::<u8>::empty()));
            assert(out@ =~= Self::payload(self@));
        }
        message::encode_with_tag("GetLocalSubscribers", out.as_slice())
    }

    fn decode_local(b0: &[u8]) -> (r: Result<GetLocalSubscribers, DecodeError>) {
        match wire::take_str(b0) {
            Err(e) => Err(DecodeError::Postcard(e)),
            Ok((topic, _)) => Ok(GetLocalSubscribers { topic }),
        }
    }

    fn encode_remote(&self) -> (r: Vec<u8>) {
        proof {
            reveal_strlit("GetLocalSubscribers");
            message::lemma_stripped("GetLocalSubscribers"@, Self::payload(self@));
        }
        self.encode_local()
    }

    fn decode_remote(bytes: &[u8]) -> (r: Result<GetLocalSubscribers, DecodeError>) {
        match message::strip_tag(bytes, "GetLocalSubscribers") {
            Ok(payload) => Self::decode_local(payload),
            Err(e) => Err(e),
        }
    }
}

/// What `Subscribers` stands for.
pub struct SubscribersView {
    /// The subscribers.
    pub pids: Seq<PidView>,
}

/// The subscribers of a topic.
pub struct Subscribers {
    /// The subscribers.
    pub pids: Vec<Pid>,
}

impl View for Subscribers {
    type V = SubscribersView;

    open spec fn view(&self) -> SubscribersView {
        SubscribersView {
            pids: table::views(self.pids@),
        }
    }
}

impl Message for Subscribers {
    open spec fn tag_view() -> Seq<char> {
        "Subscribers"@
    }

    open spec fn payload(v: SubscribersView) -> Seq<u8> {
        piece::list_wire::<Pid>(v.pids)
    }

    open spec fn unpacked(b0: Seq<u8>) -> Option<SubscribersView> {
        match piece::list_read::<Pid>(b0) {
            None => None,
            Some((pids, _)) => Some(SubscribersView { pids }),
        }
    }

    open spec fn unpack_fault(b0: Seq<u8>) -> DecodeErrorView {
        DecodeErrorView::Postcard(piece::list_fault::<Pid>(b0))
    }

    open spec fn remote(v: SubscribersView) -> Seq<u8> {
        message::tagged(Self::tag_view(), Self::payload(v))
    }

    open spec fn from_remote(bytes: Seq<u8>) -> Option<SubscribersView> {
        match message::stripped(bytes, Self::tag_view()) {
            Some(payload) => Self::unpacked(payload),
            None => None,
        }
    }

    open spec fn remote_fault(bytes: Seq<u8>) -> DecodeErrorView {
        match message::stripped(bytes, Self::tag_view()) {
            Some(payload) => Self::unpack_fault(payload),
            None => DecodeErrorView::InvalidData(message::strip_fault(bytes, Self::tag_view())),
        }
    }

    fn tag() -> (r: &'static str) {
        "Subscribers"
    }

    fn encode_local(&self) -> (r: Vec<u8>) {
        let mut out: Vec<u8> = Vec::new();
        piece::put_list(&mut out, &self.pids);
        proof {
            assert(out@ =~= (piece::list_wire::<Pid>(table::views(self.pids@))
                + Seq::<u8>::empty()));
            assert(out@ =~= Self::payload(self@));
        }
        message::encode_with_tag("Subscribers", out.as_slice())
    }

    fn decode_local(b0: &[u8]) -> (r: Result<Subscribers, DecodeError>) {
        match piece::take_list::<Pid>(b0) {
            Err(e) => Err(DecodeError::Postcard(e)),
            Ok((pids, _)) => Ok(Subscribers { pids }),
        }
    }

    fn encode_remote(&self) -> (r: Vec<u8>) {
        proof {
            reveal_strlit("Subscribers");
            message::lemma_stripped("Subscribers"@, Self::payload(self@));
        }
        self.encode_local()
    }

    fn decode_remote(bytes: &[u8]) -> (r: Result<Subscribers, DecodeError>) {
        match message::strip_tag(bytes, "Subscribers") {
            Ok(payload) => Self::decode_local(payload),
            Err(e) => Err(e),
        }
    }
}

/// What `Broadcast` stands for.
pub struct BroadcastView {
    /// The topic.
    pub topic: Seq<char>,
    /// The encoded message.
    pub payload: Seq<u8>,
    /// The process that does not get it.
    pub exclude: Option<PidView>,
}

/// Sends a message to all subscribers of a topic.
pub struct Broadcast {
    /// The topic.
    pub topic: String,
    /// The encoded message.
    pub payload: Vec<u8>,
    /// The process that does not get it.
    pub exclude: Option<Pid>,
}

impl View for Broadcast {
    type V = BroadcastView;

    open spec fn view(&self) -> BroadcastView {
        BroadcastView {
            topic: self.topic@,
            payload: self.payload@,
            exclude: crate::process::pid_option(self.exclude),
        }
    }
}

impl Message for Broadcast {
    open spec fn tag_view() -> Seq<char> {
        "Broadcast"@
    }

    open spec fn payload(v: BroadcastView) -> Seq<u8> {
        wire::postcard_str(v.topic)
            + wire::postcard_bytes(v.payload)
            + codec::pid_option_wire(v.exclude)
    }

    open spec fn unpacked(b0: Seq<u8>) -> Option<BroadcastView> {
        match wire::postcard_take_str(b0) {
            None => None,
            Some((topic, b1)) => match wire::postcard_take_bytes(b1) {
                None => None,
                Some((payload, b2)) => match codec::pid_option_read(b2) {
                    None => None,
                    Some((exclude, _)) => Some(BroadcastView { topic, payload, exclude }),
                },
            },
        }
    }

    open spec fn unpack_fault(b0: Seq<u8>) -> DecodeErrorView {
        let text = match wire::postcard_take_str(b0) {
            None => wire::postcard_str_fault(b0),
            Some((_, b1)) => match wire::postcard_take_bytes(b1) {
                None => wire::postcard_bytes_fault(b1),
                Some((_, b2)) => codec::pid_option_fault(b2),
            },
        };
        DecodeErrorView::Postcard(text)
    }

    open spec fn remote(v: BroadcastView) -> Seq<u8> {
        message::tagged(Self::tag_view(), Self::payload(v))
    }

    open spec fn from_remote(bytes: Seq<u8>) -> Option<BroadcastView> {
        match message::stripped(bytes, Self::tag_view()) {
            Some(payload) => Self::unpacked(payload),
            None => None,
        }
    }

    open spec fn remote_fault(bytes: Seq<u8>) -> DecodeErrorView {
        match message::stripped(bytes, Self::tag_view()) {
            Some(payload) => Self::unpack_fault(payload),
            None => DecodeErrorView::InvalidData(message::strip_fault(bytes, Self::tag_view())),
        }
    }

    fn tag() -> (r: &'static str) {
        "Broadcast"
    }

    fn encode_local(&self) -> (r: Vec<u8>) {
        let mut out: Vec<u8> = Vec::new();
        let w_topic = wire::put_str(self.topic.as_str());
        wire::append_bytes(&mut out, w_topic.as_slice());
        let w_payload = wire::put_bytes(self.payload.as_slice());
        wire::append_bytes(&mut out, w_payload.as_slice());
        codec::put_pid_option(&mut out, &self.exclude);
        proof {
            assert(out@ =~= (wire::postcard_str(self.topic@)
                + (wire::postcard_bytes(self.payload@)
                + (codec::pid_option_wire(crate::process::pid_option(self.exclude))
                + Seq::<u8>::empty()))));
            assert(out@ =~= Self::payload(self@));
        }
        message::encode_with_tag("Broadcast", out.as_slice())
    }

    fn decode_local(b0: &[u8]) -> (r: Result<Broadcast, DecodeError>) {
        match wire::take_str(b0) {
            Err(e) => Err(DecodeError::Postcard(e)),
            Ok((topic, b1)) => match wire::take_bytes(b1) {
                Err(e) => Err(DecodeError::Postcard(e)),
                Ok((payload, b2)) => match codec::take_pid_option(b2) {
                    Err(e) => Err(DecodeError::Postcard(e)),
                    Ok((exclude, _)) => Ok(Broadcast { topic, payload, exclude }),
                },
            },
        }
    }

    fn encode_remote(&self) -> (r: Vec<u8>) {
        proof {
            reveal_strlit("Broadcast");
            message::lemma_stripped("Broadcast"@, Self::payload(self@));
        }
        self.encode_local()
    }

    fn decode_remote(bytes: &[u8]) -> (r: Result<Broadcast, DecodeError>) {
        match message::strip_tag(bytes, "Broadcast") {
            Ok(payload) => Self::decode_local(payload),
            Err(e) => Err(e),
        }
    }
}

/// What `LocalBroadcast` stands for.
pub struct LocalBroadcastView {
    /// The topic.
    pub topic: Seq<char>,
    /// The encoded message.
    pub payload: Seq<u8>,
    /// The process that does not get it.
    pub exclude: Option<PidView>,
}

/// Sends a message to the subscribers of a topic on this node.
pub struct LocalBroadcast {
    /// The topic.
    pub topic: String,
    /// The encoded message.
    pub payload: Vec<u8>,
    /// The process that does not get it.
    pub exclude: Option<Pid>,
}

impl View for LocalBroadcast {
    type V = LocalBroadcastView;

    open spec fn view(&self) -> LocalBroadcastView {
        LocalBroadcastView {
            topic: self.topic@,
            payload: self.payload@,
            exclude: crate::process::pid_option(self.exclude),
        }
    }
}

impl Message for LocalBroadcast {
    open spec fn tag_view() -> Seq<char> {
        "LocalBroadcast"@
    }

    open spec fn payload(v: LocalBroadcastView) -> Seq<u8> {
        wire::postcard_str(v.topic)
            + wire::postcard_bytes(v.payload)
            + codec::pid_option_wire(v.exclude)
    }

    open spec fn unpacked(b0: Seq<u8>) -> Option<LocalBroadcastView> {
        match wire::postcard_take_str(b0) {
            None => None,
            Some((topic, b1)) => match wire::postcard_take_bytes(b1) {
                None => None,
                Some((payload, b2)) => match codec::pid_option_read(b2) {
                    None => None,
                    Some((exclude, _)) => Some(LocalBroadcastView { topic, payload, exclude }),
                },
            },
        }
    }

    open spec fn unpack_fault(b0: Seq<u8>) -> DecodeErrorView {
        let text = match wire::postcard_take_str(b0) {
            None => wire::postcard_str_fault(b0),
            Some((_, b1)) => match wire::postcard_take_bytes(b1) {
                None => wire::postcard_bytes_fault(b1),
                Some((_, b2)) => codec::pid_option_fault(b2),
            },
        };
        DecodeErrorView::Postcard(text)
    }

    open spec fn remote(v: LocalBroadcastView) -> Seq<u8> {
        message::tagged(Self::tag_view(), Self::payload(v))
    }

    open spec fn from_remote(bytes: Seq<u8>) -> Option<LocalBroadcastView> {
        match message::stripped(bytes, Self::tag_view()) {
            Some(payload) => Self::unpacked(payload),
            None => None,
        }
    }

    open spec fn remote_fault(bytes: Seq<u8>) -> DecodeErrorView {
        match message::stripped(bytes, Self::tag_view()) {
            Some(payload) => Self::unpack_fault(payload),
            None => DecodeErrorView::InvalidData(message::strip_fault(bytes, Self::tag_view())),
        }
    }

    fn tag() -> (r: &'static str) {
        "LocalBroadcast"
    }

    fn encode_local(&self) -> (r: Vec<u8>) {
        let mut out: Vec<u8> = Vec::new();
        let w_topic = wire::put_str(self.topic.as_str());
        wire::append_bytes(&mut out, w_topic.as_slice());
        let w_payload = wire::put_bytes(self.payload.as_slice());
        wire::append_bytes(&mut out, w_payload.as_slice());
        codec::put_pid_option(&mut out, &self.exclude);
        proof {
            assert(out@ =~= (wire::postcard_str(self.topic@)
                + (wire::postcard_bytes(self.payload@)
                + (codec::pid_option_wire(crate::process::pid_option(self.exclude))
                + Seq::<u8>::empty()))));
            assert(out@ =~= Self::payload(self@));
        }
        message::encode_with_tag("LocalBroadcast", out.as_slice())
    }

    fn decode_local(b0: &[u8]) -> (r: Result<LocalBroadcast, DecodeError>) {
        match wire::take_str(b0) {
            Err(e) => Err(DecodeError::Postcard(e)),
            Ok((topic, b1)) => match wire::take_bytes(b1) {
                Err(e) => Err(DecodeError::Postcard(e)),
                Ok((payload, b2)) => match codec::take_pid_option(b2) {
                    Err(e) => Err(DecodeError::Postcard(e)),
                    Ok((exclude, _)) => Ok(LocalBroadcast { topic, payload, exclude }),
                },
            },
        }
    }

    fn encode_remote(&self) -> (r: Vec<u8>) {
        proof {
            reveal_strlit("LocalBroadcast");
            message::lemma_stripped("LocalBroadcast"@, Self::payload(self@));
        }
        self.encode_local()
    }

    fn decode_remote(bytes: &[u8]) -> (r: Result<LocalBroadcast, DecodeError>) {
        match message::strip_tag(bytes, "LocalBroadcast") {
            Ok(payload) => Self::decode_local(payload),
            Err(e) => Err(e),
        }
    }
}

/// What `ForwardBroadcast` stands for.
pub struct ForwardBroadcastView {
    /// The topic.
    pub topic: Seq<char>,
    /// The encoded message.
    pub payload: Seq<u8>,
    /// The process that does not get it.
    pub exclude: Option<PidView>,
}

/// Hands a broadcast on to another node.
pub struct ForwardBroadcast {
    /// The topic.
    pub topic: String,
    /// The encoded message.
    pub payload: Vec<u8>,
    /// The process that does not get it.
    pub exclude: Option<Pid>,
}

impl View for ForwardBroadcast {
    type V = ForwardBroadcastView;

    open spec fn view(&self) -> ForwardBroadcastView {
        ForwardBroadcastView {
            topic: self.topic@,
            payload: self.payload@,
            exclude: crate::process::pid_option(self.exclude),
        }
    }
}

impl Message for ForwardBroadcast {
    open spec fn tag_view() -> Seq<char> {
        "ForwardBroadcast"@
    }

    open spec fn payload(v: ForwardBroadcastView) -> Seq<u8> {
        wire::postcard_str(v.topic)
            + wire::postcard_bytes(v.payload)
            + codec::pid_option_wire(v.exclude)
    }

    open spec fn unpacked(b0: Seq<u8>) -> Option<ForwardBroadcastView> {
        match wire::postcard_take_str(b0) {
            None => None,
            Some((topic, b1)) => match wire::postcard_take_bytes(b1) {
                None => None,
                Some((payload, b2)) => match codec::pid_option_read(b2) {
                    None => None,
                    Some((exclude, _)) => Some(ForwardBroadcastView { topic, payload, exclude }),
                },
            },
        }
    }

    open spec fn unpack_fault(b0: Seq<u8>) -> DecodeErrorView {
        let text = match wire::postcard_take_str(b0) {
            None => wire::postcard_str_fault(b0),
            Some((_, b1)) => match wire::postcard_take_bytes(b1) {
                None => wire::postcard_bytes_fault(b1),
                Some((_, b2)) => codec::pid_option_fault(b2),
            },
        };
        DecodeErrorView::Postcard(text)
    }

    open spec fn remote(v: ForwardBroadcastView) -> Seq<u8> {
        message::tagged(Self::tag_view(), Self::payload(v))
    }

    open spec fn from_remote(bytes: Seq<u8>) -> Option<ForwardBroadcastView> {
        match message::stripped(bytes, Self::tag_view()) {
            Some(payload) => Self::unpacked(payload),
            None => None,
        }
    }

    open spec fn remote_fault(bytes: Seq<u8>) -> DecodeErrorView {
        match message::stripped(bytes, Self::tag_view()) {
            Some(payload) => Self::unpack_fault(payload),
            None => DecodeErrorView::InvalidData(message::strip_fault(bytes, Self::tag_view())),
        }
    }

    fn tag() -> (r: &'static str) {
        "ForwardBroadcast"
    }

    fn encode_local(&self) -> (r: Vec<u8>) {
        let mut out: Vec<u8> = Vec::new();
        let w_topic = wire::put_str(self.topic.as_str());
        wire::append_bytes(&mut out, w_topic.as_slice());
        let w_payload = wire::put_bytes(self.payload.as_slice());
        wire::append_bytes(&mut out, w_payload.as_slice());
        codec::put_pid_option(&mut out, &self.exclude);
        proof {
            assert(out@ =~= (wire::postcard_str(self.topic@)
                + (wire::postcard_bytes(self.payload@)
                + (codec::pid_option_wire(crate::process::pid_option(self.exclude))
                + Seq::<u8>::empty()))));
            assert(out@ =~= Self::payload(self@));
        }
        message::encode_with_tag("ForwardBroadcast", out.as_slice())
    }

    fn decode_local(b0: &[u8]) -> (r: Result<ForwardBroadcast, DecodeError>) {
        match wire::take_str(b0) {
            Err(e) => Err(DecodeError::Postcard(e)),
            Ok((topic, b1)) => match wire::take_bytes(b1) {
                Err(e) => Err(DecodeError::Postcard(e)),
                Ok((payload, b2)) => match codec::take_pid_option(b2) {
                    Err(e) => Err(DecodeError::Postcard(e)),
                    Ok((exclude, _)) => Ok(ForwardBroadcast { topic, payload, exclude }),
                },
            },
        }
    }

    fn encode_remote(&self) -> (r: Vec<u8>) {
        proof {
            reveal_strlit("ForwardBroadcast");
            message::lemma_stripped("ForwardBroadcast"@, Self::payload(self@));
        }
        self.encode_local()
    }

    fn decode_remote(bytes: &[u8]) -> (r: Result<ForwardBroadcast, DecodeError>) {
        match message::strip_tag(bytes, "ForwardBroadcast") {
            Ok(payload) => Self::decode_local(payload),
            Err(e) => Err(e),
        }
    }
}

/// The message of the server to itself that completes its start.
pub struct CompleteInit;

impl View for CompleteInit {
    type V = ();

    open spec fn view(&self) -> () {
        ()
    }
}

impl Message for CompleteInit {
    open spec fn tag_view() -> Seq<char> {
        "CompleteInit"@
    }

    open spec fn payload(v: ()) -> Seq<u8> {
        Seq::empty()
    }

    open spec fn unpacked(bytes: Seq<u8>) -> Option<()> {
        Some(())
    }

    open spec fn unpack_fault(bytes: Seq<u8>) -> DecodeErrorView {
        DecodeErrorView::Postcard(Seq::empty())
    }

    open spec fn remote(v: ()) -> Seq<u8> {
        message::tagged(Self::tag_view(), Self::payload(v))
    }

    open spec fn from_remote(bytes: Seq<u8>) -> Option<()> {
        match message::stripped(bytes, Self::tag_view()) {
            Some(payload) => Self::unpacked(payload),
            None => None,
        }
    }

    open spec fn remote_fault(bytes: Seq<u8>) -> DecodeErrorView {
        match message::stripped(bytes, Self::tag_view()) {
            Some(payload) => Self::unpack_fault(payload),
            None => DecodeErrorView::InvalidData(message::strip_fault(bytes, Self::tag_view())),
        }
    }

    fn tag() -> (r: &'static str) {
        "CompleteInit"
    }

    fn encode_local(&self) -> (r: Vec<u8>) {
        let none: Vec<u8> = Vec::new();
        assert(none@ =~= Seq::<u8>::empty());
        message::encode_with_tag("CompleteInit", none.as_slice())
    }

    fn decode_local(bytes: &[u8]) -> (r: Result<CompleteInit, DecodeError>) {
        Ok(CompleteInit)
    }

    fn encode_remote(&self) -> (r: Vec<u8>) {
        proof {
            reveal_strlit("CompleteInit");
            message::lemma_stripped("CompleteInit"@, Self::payload(self@));
        }
        self.encode_local()
    }

    fn decode_remote(bytes: &[u8]) -> (r: Result<CompleteInit, DecodeError>) {
        match message::strip_tag(bytes, "CompleteInit") {
            Ok(payload) => Self::decode_local(payload),
            Err(e) => Err(e),
        }
    }
}

/// How a server is started.
pub struct PubSubConfig {
    /// The name to register it under.
    pub name: String,
}

impl PubSubConfig {
    /// A server with a name.
    pub fn new(name: &str) -> (r: Self)
        ensures
            r.name@ == name@,
    {
        PubSubConfig { name: name.to_owned() }
    }
}

/// The name of the process group of the servers with a name.
pub open spec fn server_group(name: Seq<char>) -> Seq<char> {
    "pubsub:"@ + name
}

/// The name of the process group of a topic.
pub open spec fn topic_group(group: Seq<char>, topic: Seq<char>) -> Seq<char> {
    group + ":"@ + topic
}

/// What a server stands for.
#[verifier::ext_equal]
pub struct PubSubView {
    /// Its name.
    pub name: Seq<char>,
    /// The subscriptions of the processes of this node.
    pub subscriptions: Seq<(Seq<char>, PidView)>,
    /// Its process.
    pub self_pid: Option<PidView>,
}

/// The server.
pub struct PubSub {
    name: String,
    registry: Subscriptions,
    self_pid: Option<Pid>,
}

impl View for PubSub {
    type V = PubSubView;

    closed spec fn view(&self) -> PubSubView {
        PubSubView {
            name: self.name@,
            subscriptions: self.registry@,
            self_pid: crate::process::pid_option(self.self_pid),
        }
    }
}

/// A process that enters or leaves a process group.
pub enum GroupChangeView {
    /// It enters the group.
    Join {
        /// The group.
        group: Seq<char>,
        /// The process.
        pid: PidView,
    },
    /// It leaves the group.
    Leave {
        /// The group.
        group: Seq<char>,
        /// The process.
        pid: PidView,
    },
}

/// A process that enters or leaves a process group.
pub enum GroupChange {
    /// It enters the group.
    Join {
        /// The group.
        group: String,
        /// The process.
        pid: Pid,
    },
    /// It leaves the group.
    Leave {
        /// The group.
        group: String,
        /// The process.
        pid: Pid,
    },
}

impl View for GroupChange {
    type V = GroupChangeView;

    open spec fn view(&self) -> GroupChangeView {
        match *self {
            GroupChange::Join { group, pid } => GroupChangeView::Join { group: group@, pid: pid@ },
            GroupChange::Leave { group, pid } => GroupChangeView::Leave {
                group: group@,
                pid: pid@,
            },
        }
    }
}

/// The process group of a topic of a server.
pub open spec fn group_of_topic(s: PubSubView, topic: Seq<char>) -> Seq<char> {
    topic_group(server_group(s.name), topic)
}

/// A process that subscribes on this node for the first time enters the group of the topic.
pub open spec fn entering(
    s: PubSubView,
    topic: Seq<char>,
    pid: PidView,
    here: Seq<char>,
) -> Seq<GroupChangeView> {
    if pid.node == here && !subscriptions::subscribers_of(s.subscriptions, topic).contains(pid) {
        seq![GroupChangeView::Join { group: group_of_topic(s, topic), pid }]
    } else {
        Seq::empty()
    }
}

/// A process that takes its subscription on this node back leaves the group of the topic.
pub open spec fn leaving(
    s: PubSubView,
    topic: Seq<char>,
    pid: PidView,
    here: Seq<char>,
) -> Seq<GroupChangeView> {
    if pid.node == here && subscriptions::subscribers_of(s.subscriptions, topic).contains(pid) {
        seq![GroupChangeView::Leave { group: group_of_topic(s, topic), pid }]
    } else {
        Seq::empty()
    }
}

/// A process that takes all its subscriptions back leaves the groups of their topics.
pub open spec fn leaving_all(s: PubSubView, pid: PidView) -> Seq<GroupChangeView> {
    let topics = subscriptions::topics_of(s.subscriptions, pid);
    Seq::new(
        topics.len(),
        |i: int| GroupChangeView::Leave { group: group_of_topic(s, topics[i]), pid },
    )
}

/// The subscribers of a topic on all nodes: those of this node, then the members of the topic's
/// group that run on other nodes.
pub open spec fn all_subscribers(
    s: PubSubView,
    topic: Seq<char>,
    members: Seq<PidView>,
    here: Seq<char>,
) -> Seq<PidView> {
    subscriptions::subscribers_of(s.subscriptions, topic) + members.filter(
        subscriptions::elsewhere(here),
    )
}

/// What completing the start asks for.
pub struct Registration {
    /// The group to join.
    pub group: String,
    /// The name to register under.
    pub name: String,
}

impl PubSub {
    /// The server of a configuration, with the message that it sends to itself.
    pub fn init(config: PubSubConfig) -> (r: (Self, Vec<u8>))
        ensures
            r.0@ == (PubSubView {
                name: config.name@,
                subscriptions: Seq::empty(),
                self_pid: None,
            }),
            r.1@ == message::tagged("CompleteInit"@, Seq::empty()),
    {
        let server = PubSub {
            name: config.name,
            registry: Subscriptions::new(),
            self_pid: None,
        };
        (server, CompleteInit.encode_local())
    }

    /// Completes the start once the server knows its process.
    pub fn complete_init(&mut self, self_pid: Pid) -> (r: Registration)
        ensures
            final(self)@ == (PubSubView { self_pid: Some(self_pid@), ..old(self)@ }),
            r.group@ == server_group(old(self)@.name),
            r.name@ == old(self)@.name,
    {
        self.self_pid = Some(self_pid);
        let group = self.group();
        Registration { group, name: self.name.clone() }
    }

    /// The process group of the servers.
    pub fn group(&self) -> (r: String)
        ensures
            r@ == server_group(self@.name),
    {
        text::join2("pubsub:", self.name.as_str())
    }

    /// Subscribes a process, if it runs on this node.
    pub fn handle_subscribe(&mut self, msg: Subscribe, here: &str)
        ensures
            final(self)@ == (if msg@.pid.node == here@ {
                PubSubView {
                    subscriptions: old(self)@.subscriptions.push((msg@.topic, msg@.pid)),
                    ..old(self)@
                }
            } else {
                old(self)@
            }),
    {
        if msg.pid.is_local(here) {
            self.registry.register(msg.topic, msg.pid);
        }
    }

    /// Takes the subscription of a process back, if it runs on this node.
    pub fn handle_unsubscribe(&mut self, msg: &Unsubscribe, here: &str)
        ensures
            final(self)@ == (if msg@.pid.node == here@ {
                PubSubView {
                    subscriptions: old(self)@.subscriptions.filter(
                        subscriptions::not_this(msg@.topic, msg@.pid),
                    ),
                    ..old(self)@
                }
            } else {
                old(self)@
            }),
    {
        if msg.pid.is_local(here) {
            self.registry.unregister(msg.topic.as_str(), &msg.pid);
        }
    }

    /// Takes all subscriptions of a process back.
    pub fn handle_unsubscribe_all(&mut self, msg: &UnsubscribeAll)
        ensures
            final(self)@ == (PubSubView {
                subscriptions: old(self)@.subscriptions.filter(subscriptions::not_of(msg@.pid)),
                ..old(self)@
            }),
    {
        self.registry.unregister_all(&msg.pid);
    }

    /// The process group of a topic: its members are the subscribers on all nodes.
    pub fn subscribers_group(&self, topic: &str) -> (r: String)
        ensures
            r@ == group_of_topic(self@, topic@),
    {
        let group = self.group();
        text::join3(group.as_str(), ":", topic)
    }

    fn is_subscribed(&self, topic: &str, pid: &Pid) -> (r: bool)
        ensures
            r == subscriptions::subscribers_of(self@.subscriptions, topic@).contains(pid@),
    {
        let found = self.registry.lookup(topic);
        let ghost all = table::views(found@);
        let mut i: usize = 0;
        while i < found.len()
            invariant
                i <= found@.len(),
                all == table::views(found@),
                all == subscriptions::subscribers_of(self@.subscriptions, topic@),
                forall|j: int| 0 <= j < i ==> #[trigger] all[j] != pid@,
            decreases found@.len() - i,
        {
            assert(all[i as int] == found@[i as int]@);
            if found[i].same(pid) {
                return true;
            }
            i = i + 1;
        }
        false
    }

    /// Who enters a group when a process subscribes.
    pub fn entering(&self, topic: &str, pid: &Pid, here: &str) -> (r: Vec<GroupChange>)
        ensures
            table::views(r@) == entering(self@, topic@, pid@, here@),
    {
        let mut out: Vec<GroupChange> = Vec::new();
        if pid.is_local(here) && !self.is_subscribed(topic, pid) {
            out.push(GroupChange::Join { group: self.subscribers_group(topic), pid: pid.clone() });
        }
        assert(table::views(out@) =~= entering(self@, topic@, pid@, here@));
        out
    }

    /// Who leaves a group when a process takes a subscription back.
    pub fn leaving(&self, topic: &str, pid: &Pid, here: &str) -> (r: Vec<GroupChange>)
        ensures
            table::views(r@) == leaving(self@, topic@, pid@, here@),
    {
        let mut out: Vec<GroupChange> = Vec::new();
        if pid.is_local(here) && self.is_subscribed(topic, pid) {
            out.push(GroupChange::Leave { group: self.subscribers_group(topic), pid: pid.clone() });
        }
        assert(table::views(out@) =~= leaving(self@, topic@, pid@, here@));
        out
    }

    /// Who leaves which groups when a process takes all its subscriptions back.
    pub fn leaving_all(&self, pid: &Pid) -> (r: Vec<GroupChange>)
        ensures
            table::views(r@) == leaving_all(self@, pid@),
    {
        let topics = self.registry.topics_of(pid);
        let ghost all = leaving_all(self@, pid@);
        let mut out: Vec<GroupChange> = Vec::new();
        let mut i: usize = 0;
        while i < topics.len()
            invariant
                i <= topics@.len(),
                out@.len() == i,
                all == leaving_all(self@, pid@),
                table::views(topics@) == subscriptions::topics_of(self@.subscriptions, pid@),
                forall|j: int| 0 <= j < i ==> (#[trigger] out@[j])@ == all[j],
            decreases topics@.len() - i,
        {
            assert(table::views(topics@)[i as int] == topics@[i as int]@);
            let group = self.subscribers_group(topics[i].as_str());
            out.push(GroupChange::Leave { group, pid: pid.clone() });
            i = i + 1;
        }
        assert(table::views(out@) =~= all);
        out
    }

    /// The subscribers of a topic on all nodes. `members` are the members of the topic's group.
    pub fn handle_get_subscribers(
        &self,
        msg: &GetSubscribers,
        members: &Vec<Pid>,
        here: &str,
    ) -> (r: Subscribers)
        ensures
            r@.pids == all_subscribers(self@, msg@.topic, table::views(members@), here@),
    {
        let mut pids = self.registry.lookup(msg.topic.as_str());
        subscriptions::add_remote(&mut pids, members, here);
        Subscribers { pids }
    }

    /// The subscribers of a topic on this node.
    pub fn handle_get_local_subscribers(&self, msg: &GetLocalSubscribers) -> (r: Subscribers)
        ensures
            r@.pids == subscriptions::subscribers_of(self@.subscriptions, msg@.topic),
    {
        Subscribers { pids: self.registry.lookup(msg.topic.as_str()) }
    }

    /// A message for the subscribers of a topic on this node, and one for the servers of the
    /// other nodes. `members` are the servers.
    pub fn handle_broadcast(&self, msg: &Broadcast, members: &Vec<Pid>, here: &str) -> (r: Vec<
        (Pid, Vec<u8>),
    >)
        ensures
            channels::sends(r@) == channels::to_each(
                subscriptions::receivers(
                    subscriptions::subscribers_of(self@.subscriptions, msg@.topic),
                    msg@.exclude,
                ),
                msg@.payload,
            ) + channels::to_each(
                table::views(members@).filter(
                    subscriptions::is_remote(here@, self@.self_pid),
                ),
                message::tagged(
                    "ForwardBroadcast"@,
                    ForwardBroadcast::payload(
                        (ForwardBroadcastView {
                            topic: msg@.topic,
                            payload: msg@.payload,
                            exclude: msg@.exclude,
                        }),
                    ),
                ),
            ),
    {
        let mut out = subscriptions::dispatch_local(
            &self.registry,
            msg.topic.as_str(),
            &msg.payload,
            &msg.exclude,
        );
        let ghost local = channels::sends(out@);
        let forward = ForwardBroadcast {
            topic: msg.topic.clone(),
            payload: crate::presence::crdt::copy_bytes(&msg.payload),
            exclude: match &msg.exclude {
                Some(pid) => Some(pid.clone()),
                None => None,
            },
        };
        let bytes = forward.encode_local();
        let mut rest = self.forward(members, here, &bytes);
        let ghost remote = channels::sends(rest@);
        out.append(&mut rest);
        assert(channels::sends(out@) =~= local + remote);
        out
    }

    /// A message for the servers of the other nodes. `members` are the servers.
    pub fn forward(&self, members: &Vec<Pid>, here: &str, bytes: &Vec<u8>) -> (r: Vec<
        (Pid, Vec<u8>),
    >)
        ensures
            channels::sends(r@) == channels::to_each(
                table::views(members@).filter(
                    subscriptions::is_remote(here@, self@.self_pid),
                ),
                bytes@,
            ),
    {
        subscriptions::forward_to_remote_nodes(members, here, &self.self_pid, bytes)
    }

    /// A message for the subscribers of a topic on this node.
    pub fn handle_local_broadcast(&self, msg: &LocalBroadcast) -> (r: Vec<(Pid, Vec<u8>)>)
        ensures
            channels::sends(r@) == channels::to_each(
                subscriptions::receivers(
                    subscriptions::subscribers_of(self@.subscriptions, msg@.topic),
                    msg@.exclude,
                ),
                msg@.payload,
            ),
    {
        subscriptions::dispatch_local(
            &self.registry,
            msg.topic.as_str(),
            &msg.payload,
            &msg.exclude,
        )
    }

    /// A message from another node for the subscribers of a topic on this node; it is not handed
    /// on.
    pub fn handle_forward_broadcast(&self, msg: &ForwardBroadcast) -> (r: Vec<(Pid, Vec<u8>)>)
        ensures
            channels::sends(r@) == channels::to_each(
                subscriptions::receivers(
                    subscriptions::subscribers_of(self@.subscriptions, msg@.topic),
                    msg@.exclude,
                ),
                msg@.payload,
            ),
    {
        subscriptions::dispatch_local(
            &self.registry,
            msg.topic.as_str(),
            &msg.payload,
            &msg.exclude,
        )
    }
}

/// A server on another node takes a forwarded broadcast as an info message with the tag of
/// forwarded broadcasts, and finds the broadcast behind it.
pub proof fn law_forwarded_broadcast_is_taken(v: ForwardBroadcastView)
    ensures
        ({
            let payload = ForwardBroadcast::payload(v);
            let bytes = message::tagged("ForwardBroadcast"@, payload);
            dispatched::turn_of(Some(bytes)) == (dispatched::TurnView::Info {
                tagged: Some(("ForwardBroadcast"@, payload)),
                raw: bytes,
            })
        }),
{
    reveal_strlit("ForwardBroadcast");
    message::lemma_ascii_length("ForwardBroadcast"@);
    enumerated::law_tagged_messages_are_infos(
        "ForwardBroadcast"@,
        ForwardBroadcast::payload(v),
    );
}

/// What a caller is told if there is no server with a name.
pub open spec fn not_found(pubsub: Seq<char>) -> Seq<char> {
    "PubSub '"@ + pubsub + "' not found"@
}

/// The server with a name, as it was looked up.
pub fn found_server(pubsub: &str, found: Option<Pid>) -> (r: Result<Pid, String>)
    ensures
        match found {
            Some(pid) => r == Ok::<Pid, String>(pid),
            None => r matches Err(e) && e@ == not_found(pubsub@),
        },
{
    match found {
        Some(pid) => Ok(pid),
        None => Err(text::join3("PubSub '", pubsub, "' not found")),
    }
}

/// The request for a broadcast: the server and the message. `payload` is what encoding the
/// message came to.
pub fn broadcast_request(
    pubsub: &str,
    found: Option<Pid>,
    topic: &str,
    payload: Result<Vec<u8>, String>,
    exclude: Option<Pid>,
) -> (r: Result<(Pid, Broadcast), String>)
    ensures
        match found {
            None => r matches Err(e) && e@ == not_found(pubsub@),
            Some(server) => match payload {
                Err(text) => r matches Err(e) && e@ == "serialize failed: "@ + text@,
                Ok(bytes) => r matches Ok((pid, msg)) && pid == server && msg@ == (BroadcastView {
                    topic: topic@,
                    payload: bytes@,
                    exclude: crate::process::pid_option(exclude),
                }),
            },
        },
{
    let server = match found_server(pubsub, found) {
        Ok(pid) => pid,
        Err(e) => {
            return Err(e);
        },
    };
    match payload {
        Ok(payload) => Ok((server, Broadcast { topic: topic.to_owned(), payload, exclude })),
        Err(e) => Err(text::join2("serialize failed: ", e.as_str())),
    }
}

/// The request for a broadcast on this node.
pub fn local_broadcast_request(
    pubsub: &str,
    found: Option<Pid>,
    topic: &str,
    payload: Result<Vec<u8>, String>,
    exclude: Option<Pid>,
) -> (r: Result<(Pid, LocalBroadcast), String>)
    ensures
        match found {
            None => r matches Err(e) && e@ == not_found(pubsub@),
            Some(server) => match payload {
                Err(text) => r matches Err(e) && e@ == "serialize failed: "@ + text@,
                Ok(bytes) => r matches Ok((pid, msg)) && pid == server && msg@
                    == (LocalBroadcastView {
                    topic: topic@,
                    payload: bytes@,
                    exclude: crate::process::pid_option(exclude),
                }),
            },
        },
{
    match broadcast_request(pubsub, found, topic, payload, exclude) {
        Ok((pid, msg)) => Ok(
            (pid, LocalBroadcast { topic: msg.topic, payload: msg.payload, exclude: msg.exclude }),
        ),
        Err(e) => Err(e),
    }
}

} // verus!
