//! The publish-subscribe server, with one message type for all requests.

use vstd::prelude::*;
use vstd::utf8::*;

use crate::channel::channels;
use crate::codec;
use crate::gen_server::protocol;
use crate::gen_server::server::{turn_of, TurnView};
use crate::message;
use crate::message::Message;
use crate::piece;
use crate::process::{DecodeError, DecodeErrorView, Pid, PidView};
use crate::pubsub::server;
use crate::pubsub::server::PubSubConfig;
use crate::pubsub::subscriptions;
use crate::table;
use crate::wire;

verus! {

/// What `PubSubCall` stands for.
pub enum PubSubCallView {
    /// Subscribe a process to a topic.
    Subscribe {
        /// The topic.
        topic: Seq<char>,
        /// The process.
        pid: PidView,
    },
    /// Take the subscription of a process to a topic back.
    Unsubscribe {
        /// The topic.
        topic: Seq<char>,
        /// The process.
        pid: PidView,
    },
    /// Take all subscriptions of a process back.
    UnsubscribeAll {
        /// The process.
        pid: PidView,
    },
    /// Say who has subscribed to a topic.
    GetSubscribers {
        /// The topic.
        topic: Seq<char>,
    },
    /// Say who has subscribed to a topic on this node.
    GetLocalSubscribers {
        /// The topic.
        topic: Seq<char>,
    },
}

/// A request that waits for a reply.
pub enum PubSubCall {
    /// Subscribe a process to a topic.
    Subscribe {
        /// The topic.
        topic: String,
        /// The process.
        pid: Pid,
    },
    /// Take the subscription of a process to a topic back.
    Unsubscribe {
        /// The topic.
        topic: String,
        /// The process.
        pid: Pid,
    },
    /// Take all subscriptions of a process back.
    UnsubscribeAll {
        /// The process.
        pid: Pid,
    },
    /// Say who has subscribed to a topic.
    GetSubscribers {
        /// The topic.
        topic: String,
    },
    /// Say who has subscribed to a topic on this node.
    GetLocalSubscribers {
        /// The topic.
        topic: String,
    },
}

impl View for PubSubCall {
    type V = PubSubCallView;

    open spec fn view(&self) -> PubSubCallView {
        match *self {
            PubSubCall::Subscribe { topic, pid } => PubSubCallView::Subscribe {
                topic: topic@,
                pid: pid@,
            },
            PubSubCall::Unsubscribe { topic, pid } => PubSubCallView::Unsubscribe {
                topic: topic@,
                pid: pid@,
            },
            PubSubCall::UnsubscribeAll { pid } => PubSubCallView::UnsubscribeAll {
                pid: pid@,
            },
            PubSubCall::GetSubscribers { topic } => PubSubCallView::GetSubscribers {
                topic: topic@,
            },
            PubSubCall::GetLocalSubscribers { topic } => PubSubCallView::GetLocalSubscribers {
                topic: topic@,
            },
        }
    }
}

/// The fields of `Subscribe` in some bytes.
pub open spec fn pub_sub_call_subscribe_read(b0: Seq<u8>) -> Option<PubSubCallView> {
    match wire::postcard_take_str(b0) {
        None => None,
        Some((topic, b1)) => match codec::pid_read(b1) {
            None => None,
            Some((pid, _)) => Some(PubSubCallView::Subscribe { topic, pid }),
        },
    }
}

/// What is wrong with bytes that do not hold the fields of `Subscribe`.
pub open spec fn pub_sub_call_subscribe_fault(b0: Seq<u8>) -> Seq<char> {
    match wire::postcard_take_str(b0) {
        None => wire::postcard_str_fault(b0),
        Some((_, b1)) => codec::pid_fault(b1),
    }
}

/// The fields of `Unsubscribe` in some bytes.
pub open spec fn pub_sub_call_unsubscribe_read(b0: Seq<u8>) -> Option<PubSubCallView> {
    match wire::postcard_take_str(b0) {
        None => None,
        Some((topic, b1)) => match codec::pid_read(b1) {
            None => None,
            Some((pid, _)) => Some(PubSubCallView::Unsubscribe { topic, pid }),
        },
    }
}

/// What is wrong with bytes that do not hold the fields of `Unsubscribe`.
pub open spec fn pub_sub_call_unsubscribe_fault(b0: Seq<u8>) -> Seq<char> {
    match wire::postcard_take_str(b0) {
        None => wire::postcard_str_fault(b0),
        Some((_, b1)) => codec::pid_fault(b1),
    }
}

/// The fields of `UnsubscribeAll` in some bytes.
pub open spec fn pub_sub_call_unsubscribe_all_read(b0: Seq<u8>) -> Option<PubSubCallView> {
    match codec::pid_read(b0) {
        None => None,
        Some((pid, _)) => Some(PubSubCallView::UnsubscribeAll { pid }),
    }
}

/// What is wrong with bytes that do not hold the fields of `UnsubscribeAll`.
pub open spec fn pub_sub_call_unsubscribe_all_fault(b0: Seq<u8>) -> Seq<char> {
    codec::pid_fault(b0)
}

/// The fields of `GetSubscribers` in some bytes.
pub open spec fn pub_sub_call_get_subscribers_read(b0: Seq<u8>) -> Option<PubSubCallView> {
    match wire::postcard_take_str(b0) {
        None => None,
        Some((topic, _)) => Some(PubSubCallView::GetSubscribers { topic }),
    }
}

/// What is wrong with bytes that do not hold the fields of `GetSubscribers`.
pub open spec fn pub_sub_call_get_subscribers_fault(b0: Seq<u8>) -> Seq<char> {
    wire::postcard_str_fault(b0)
}

/// The fields of `GetLocalSubscribers` in some bytes.
pub open spec fn pub_sub_call_get_local_subscribers_read(b0: Seq<u8>) -> Option<PubSubCallView> {
    match wire::postcard_take_str(b0) {
        None => None,
        Some((topic, _)) => Some(PubSubCallView::GetLocalSubscribers { topic }),
    }
}

/// What is wrong with bytes that do not hold the fields of `GetLocalSubscribers`.
pub open spec fn pub_sub_call_get_local_subscribers_fault(b0: Seq<u8>) -> Seq<char> {
    wire::postcard_str_fault(b0)
}

impl Message for PubSubCall {
    open spec fn tag_view() -> Seq<char> {
        "PubSubCall"@
    }

    open spec fn payload(v: PubSubCallView) -> Seq<u8> {
        match v {
            PubSubCallView::Subscribe { topic, pid } => wire::postcard_u32(0)
                + wire::postcard_str(topic)
                + codec::pid_wire(pid),
            PubSubCallView::Unsubscribe { topic, pid } => wire::postcard_u32(1)
                + wire::postcard_str(topic)
                + codec::pid_wire(pid),
            PubSubCallView::UnsubscribeAll { pid } => wire::postcard_u32(2)
                + codec::pid_wire(pid),
            PubSubCallView::GetSubscribers { topic } => wire::postcard_u32(3)
                + wire::postcard_str(topic),
            PubSubCallView::GetLocalSubscribers { topic } => wire::postcard_u32(4)
                + wire::postcard_str(topic),
        }
    }

    open spec fn unpacked(b: Seq<u8>) -> Option<PubSubCallView> {
        match wire::postcard_take_u32(b) {
            None => None,
            Some((kind, b0)) => if kind == 0 {
                pub_sub_call_subscribe_read(b0)
            } else if kind == 1 {
                pub_sub_call_unsubscribe_read(b0)
            } else if kind == 2 {
                pub_sub_call_unsubscribe_all_read(b0)
            } else if kind == 3 {
                pub_sub_call_get_subscribers_read(b0)
            } else if kind == 4 {
                pub_sub_call_get_local_subscribers_read(b0)
            } else {
                None
            },
        }
    }

    open spec fn unpack_fault(b: Seq<u8>) -> DecodeErrorView {
        let text = match wire::postcard_take_u32(b) {
            None => wire::postcard_u32_fault(b),
            Some((kind, b0)) => if kind == 0 {
                pub_sub_call_subscribe_fault(b0)
            } else if kind == 1 {
                pub_sub_call_unsubscribe_fault(b0)
            } else if kind == 2 {
                pub_sub_call_unsubscribe_all_fault(b0)
            } else if kind == 3 {
                pub_sub_call_get_subscribers_fault(b0)
            } else if kind == 4 {
                pub_sub_call_get_local_subscribers_fault(b0)
            } else {
                wire::BAD_VARIANT@
            },
        };
        DecodeErrorView::Postcard(text)
    }

    open spec fn remote(v: PubSubCallView) -> Seq<u8> {
        message::tagged(Self::tag_view(), Self::payload(v))
    }

    open spec fn from_remote(bytes: Seq<u8>) -> Option<PubSubCallView> {
        match message::stripped(bytes, Self::tag_view()) {
            Some(payload) => Self::unpacked(payload),
            None => None,
        }
    }

    open spec fn remote_fault(bytes: Seq<u8>) -> DecodeErrorView {
        match message::stripped(bytes, Self::tag_view()) {
            Some(payload) => Self::unpack_fault(payload),
            None => DecodeErrorView::InvalidData(message::strip_fault(bytes, Self::tag_view())),
        }
    }

    fn tag() -> (r: &'static str) {
        "PubSubCall"
    }

    fn encode_local(&self) -> (r: Vec<u8>) {
        let payload = match self {
            PubSubCall::Subscribe { topic, pid } => encode_pub_sub_call_subscribe(topic, pid),
            PubSubCall::Unsubscribe { topic, pid } => encode_pub_sub_call_unsubscribe(topic, pid),
            PubSubCall::UnsubscribeAll { pid } => encode_pub_sub_call_unsubscribe_all(pid),
            PubSubCall::GetSubscribers { topic } => encode_pub_sub_call_get_subscribers(topic),
            PubSubCall::GetLocalSubscribers { topic } => encode_pub_sub_call_get_local_subscribers(topic),
        };
        message::encode_with_tag("PubSubCall", payload.as_slice())
    }

    fn decode_local(b: &[u8]) -> (r: Result<PubSubCall, DecodeError>) {
        match wire::take_u32(b) {
            Err(e) => Err(DecodeError::Postcard(e)),
            Ok((kind, b0)) => if kind == 0 {
                decode_pub_sub_call_subscribe(b0)
            } else if kind == 1 {
                decode_pub_sub_call_unsubscribe(b0)
            } else if kind == 2 {
                decode_pub_sub_call_unsubscribe_all(b0)
            } else if kind == 3 {
                decode_pub_sub_call_get_subscribers(b0)
            } else if kind == 4 {
                decode_pub_sub_call_get_local_subscribers(b0)
            } else {
                Err(DecodeError::Postcard(wire::BAD_VARIANT.to_owned()))
            },
        }
    }

    fn encode_remote(&self) -> (r: Vec<u8>) {
        proof {
            reveal_strlit("PubSubCall");
            message::lemma_stripped("PubSubCall"@, Self::payload(self@));
        }
        self.encode_local()
    }

    fn decode_remote(bytes: &[u8]) -> (r: Result<PubSubCall, DecodeError>) {
        match message::strip_tag(bytes, "PubSubCall") {
            Ok(payload) => Self::decode_local(payload),
            Err(e) => Err(e),
        }
    }
}

fn encode_pub_sub_call_subscribe(topic: &String, pid: &Pid) -> (r: Vec<u8>)
    ensures
        r@ == PubSubCall::payload((PubSubCallView::Subscribe {
                topic: topic@,
                pid: pid@,
            })),
        PubSubCall::unpacked(r@) == Some(
            (PubSubCallView::Subscribe {
                topic: topic@,
                pid: pid@,
            }),
        ),
{
    let mut out = wire::put_u32(0);
    let ghost start = out@;
    let w_topic = wire::put_str(topic.as_str());
    wire::append_bytes(&mut out, w_topic.as_slice());
    codec::put_pid(&mut out, pid);
    proof {
        assert(out@ =~= start
            + (wire::postcard_str(topic@)
            + (codec::pid_wire(pid@)
            + Seq::<u8>::empty())));
        assert(out@ =~= PubSubCall::payload((PubSubCallView::Subscribe {
                topic: topic@,
                pid: pid@,
            })));
    }
    out
}

fn decode_pub_sub_call_subscribe(b0: &[u8]) -> (r: Result<PubSubCall, DecodeError>)
    ensures
        match r {
            Ok(m) => pub_sub_call_subscribe_read(b0@) == Some(m@),
            Err(e) => pub_sub_call_subscribe_read(b0@) is None && e@
                == DecodeErrorView::Postcard(pub_sub_call_subscribe_fault(b0@)),
        },
{
    match wire::take_str(b0) {
        Err(e) => Err(DecodeError::Postcard(e)),
        Ok((topic, b1)) => match codec::take_pid(b1) {
            Err(e) => Err(DecodeError::Postcard(e)),
            Ok((pid, _)) => Ok(PubSubCall::Subscribe { topic, pid }),
        },
    }
}

fn encode_pub_sub_call_unsubscribe(topic: &String, pid: &Pid) -> (r: Vec<u8>)
    ensures
        r@ == PubSubCall::payload((PubSubCallView::Unsubscribe {
                topic: topic@,
                pid: pid@,
            })),
        PubSubCall::unpacked(r@) == Some(
            (PubSubCallView::Unsubscribe {
                topic: topic@,
                pid: pid@,
            }),
        ),
{
    let mut out = wire::put_u32(1);
    let ghost start = out@;
    let w_topic = wire::put_str(topic.as_str());
    wire::append_bytes(&mut out, w_topic.as_slice());
    codec::put_pid(&mut out, pid);
    proof {
        assert(out@ =~= start
            + (wire::postcard_str(topic@)
            + (codec::pid_wire(pid@)
            + Seq::<u8>::empty())));
        assert(out@ =~= PubSubCall::payload((PubSubCallView::Unsubscribe {
                topic: topic@,
                pid: pid@,
            })));
    }
    out
}

fn decode_pub_sub_call_unsubscribe(b0: &[u8]) -> (r: Result<PubSubCall, DecodeError>)
    ensures
        match r {
            Ok(m) => pub_sub_call_unsubscribe_read(b0@) == Some(m@),
            Err(e) => pub_sub_call_unsubscribe_read(b0@) is None && e@
                == DecodeErrorView::Postcard(pub_sub_call_unsubscribe_fault(b0@)),
        },
{
    match wire::take_str(b0) {
        Err(e) => Err(DecodeError::Postcard(e)),
        Ok((topic, b1)) => match codec::take_pid(b1) {
            Err(e) => Err(DecodeError::Postcard(e)),
            Ok((pid, _)) => Ok(PubSubCall::Unsubscribe { topic, pid }),
        },
    }
}

fn encode_pub_sub_call_unsubscribe_all(pid: &Pid) -> (r: Vec<u8>)
    ensures
        r@ == PubSubCall::payload((PubSubCallView::UnsubscribeAll {
                pid: pid@,
            })),
        PubSubCall::unpacked(r@) == Some(
            (PubSubCallView::UnsubscribeAll {
                pid: pid@,
            }),
        ),
{
    let mut out = wire::put_u32(2);
    let ghost start = out@;
    codec::put_pid(&mut out, pid);
    proof {
        assert(out@ =~= start
            + (codec::pid_wire(pid@)
            + Seq::<u8>::empty()));
        assert(out@ =~= PubSubCall::payload((PubSubCallView::UnsubscribeAll {
                pid: pid@,
            })));
    }
    out
}

fn decode_pub_sub_call_unsubscribe_all(b0: &[u8]) -> (r: Result<PubSubCall, DecodeError>)
    ensures
        match r {
            Ok(m) => pub_sub_call_unsubscribe_all_read(b0@) == Some(m@),
            Err(e) => pub_sub_call_unsubscribe_all_read(b0@) is None && e@
                == DecodeErrorView::Postcard(pub_sub_call_unsubscribe_all_fault(b0@)),
        },
{
    match codec::take_pid(b0) {
        Err(e) => Err(DecodeError::Postcard(e)),
        Ok((pid, _)) => Ok(PubSubCall::UnsubscribeAll { pid }),
    }
}

fn encode_pub_sub_call_get_subscribers(topic: &String) -> (r: Vec<u8>)
    ensures
        r@ == PubSubCall::payload((PubSubCallView::GetSubscribers {
                topic: topic@,
            })),
        PubSubCall::unpacked(r@) == Some(
            (PubSubCallView::GetSubscribers {
                topic: topic@,
            }),
        ),
{
    let mut out = wire::put_u32(3);
    let ghost start = out@;
    let w_topic = wire::put_str(topic.as_str());
    wire::append_bytes(&mut out, w_topic.as_slice());
    proof {
        assert(out@ =~= start
            + (wire::postcard_str(topic@)
            + Seq::<u8>::empty()));
        assert(out@ =~= PubSubCall::payload((PubSubCallView::GetSubscribers {
                topic: topic@,
            })));
    }
    out
}

fn decode_pub_sub_call_get_subscribers(b0: &[u8]) -> (r: Result<PubSubCall, DecodeError>)
    ensures
        match r {
            Ok(m) => pub_sub_call_get_subscribers_read(b0@) == Some(m@),
            Err(e) => pub_sub_call_get_subscribers_read(b0@) is None && e@
                == DecodeErrorView::Postcard(pub_sub_call_get_subscribers_fault(b0@)),
        },
{
    match wire::take_str(b0) {
        Err(e) => Err(DecodeError::Postcard(e)),
        Ok((topic, _)) => Ok(PubSubCall::GetSubscribers { topic }),
    }
}

fn encode_pub_sub_call_get_local_subscribers(topic: &String) -> (r: Vec<u8>)
    ensures
        r@ == PubSubCall::payload((PubSubCallView::GetLocalSubscribers {
                topic: topic@,
            })),
        PubSubCall::unpacked(r@) == Some(
            (PubSubCallView::GetLocalSubscribers {
                topic: topic@,
            }),
        ),
{
    let mut out = wire::put_u32(4);
    let ghost start = out@;
    let w_topic = wire::put_str(topic.as_str());
    wire::append_bytes(&mut out, w_topic.as_slice());
    proof {
        assert(out@ =~= start
            + (wire::postcard_str(topic@)
            + Seq::<u8>::empty()));
        assert(out@ =~= PubSubCall::payload((PubSubCallView::GetLocalSubscribers {
                topic: topic@,
            })));
    }
    out
}

fn decode_pub_sub_call_get_local_subscribers(b0: &[u8]) -> (r: Result<PubSubCall, DecodeError>)
    ensures
        match r {
            Ok(m) => pub_sub_call_get_local_subscribers_read(b0@) == Some(m@),
            Err(e) => pub_sub_call_get_local_subscribers_read(b0@) is None && e@
                == DecodeErrorView::Postcard(pub_sub_call_get_local_subscribers_fault(b0@)),
        },
{
    match wire::take_str(b0) {
        Err(e) => Err(DecodeError::Postcard(e)),
        Ok((topic, _)) => Ok(PubSubCall::GetLocalSubscribers { topic }),
    }
}

/// What `PubSubCast` stands for.
pub enum PubSubCastView {
    /// Send a message to all subscribers of a topic.
    Broadcast {
        /// The topic.
        topic: Seq<char>,
        /// The encoded message.
        payload: Seq<u8>,
        /// The process that does not get it.
        exclude: Option<PidView>,
    },
    /// Send a message to the subscribers of a topic on this node.
    LocalBroadcast {
        /// The topic.
        topic: Seq<char>,
        /// The encoded message.
        payload: Seq<u8>,
        /// The process that does not get it.
        exclude: Option<PidView>,
    },
    /// A broadcast from another node.
    ForwardBroadcast {
        /// The topic.
        topic: Seq<char>,
        /// The encoded message.
        payload: Seq<u8>,
        /// The process that does not get it.
        exclude: Option<PidView>,
    },
}

/// A request without a reply.
pub enum PubSubCast {
    /// Send a message to all subscribers of a topic.
    Broadcast {
        /// The topic.
        topic: String,
        /// The encoded message.
        payload: Vec<u8>,
        /// The process that does not get it.
        exclude: Option<Pid>,
    },
    /// Send a message to the subscribers of a topic on this node.
    LocalBroadcast {
        /// The topic.
        topic: String,
        /// The encoded message.
        payload: Vec<u8>,
        /// The process that does not get it.
        exclude: Option<Pid>,
    },
    /// A broadcast from another node.
    ForwardBroadcast {
        /// The topic.
        topic: String,
        /// The encoded message.
        payload: Vec<u8>,
        /// The process that does not get it.
        exclude: Option<Pid>,
    },
}

impl View for PubSubCast {
    type V = PubSubCastView;

    open spec fn view(&self) -> PubSubCastView {
        match *self {
            PubSubCast::Broadcast { topic, payload, exclude } => PubSubCastView::Broadcast {
                topic: topic@,
                payload: payload@,
                exclude: crate::process::pid_option(exclude),
            },
            PubSubCast::LocalBroadcast {
                topic,
                payload,
                exclude
            } => PubSubCastView::LocalBroadcast {
                topic: topic@,
                payload: payload@,
                exclude: crate::process::pid_option(exclude),
            },
            PubSubCast::ForwardBroadcast {
                topic,
                payload,
                exclude
            } => PubSubCastView::ForwardBroadcast {
                topic: topic@,
                payload: payload@,
                exclude: crate::process::pid_option(exclude),
            },
        }
    }
}

/// The fields of `Broadcast` in some bytes.
pub open spec fn pub_sub_cast_broadcast_read(b0: Seq<u8>) -> Option<PubSubCastView> {
    match wire::postcard_take_str(b0) {
        None => None,
        Some((topic, b1)) => match wire::postcard_take_bytes(b1) {
            None => None,
            Some((payload, b2)) => match codec::pid_option_read(b2) {
                None => None,
                Some((exclude, _)) => Some(PubSubCastView::Broadcast { topic, payload, exclude }),
            },
        },
    }
}

/// What is wrong with bytes that do not hold the fields of `Broadcast`.
pub open spec fn pub_sub_cast_broadcast_fault(b0: Seq<u8>) -> Seq<char> {
    match wire::postcard_take_str(b0) {
        None => wire::postcard_str_fault(b0),
        Some((_, b1)) => match wire::postcard_take_bytes(b1) {
            None => wire::postcard_bytes_fault(b1),
            Some((_, b2)) => codec::pid_option_fault(b2),
        },
    }
}

/// The fields of `LocalBroadcast` in some bytes.
pub open spec fn pub_sub_cast_local_broadcast_read(b0: Seq<u8>) -> Option<PubSubCastView> {
    match wire::postcard_take_str(b0) {
        None => None,
        Some((topic, b1)) => match wire::postcard_take_bytes(b1) {
            None => None,
            Some((payload, b2)) => match codec::pid_option_read(b2) {
                None => None,
                Some((exclude, _)) => Some(
                    PubSubCastView::LocalBroadcast { topic, payload, exclude }
                ),
            },
        },
    }
}

/// What is wrong with bytes that do not hold the fields of `LocalBroadcast`.
pub open spec fn pub_sub_cast_local_broadcast_fault(b0: Seq<u8>) -> Seq<char> {
    match wire::postcard_take_str(b0) {
        None => wire::postcard_str_fault(b0),
        Some((_, b1)) => match wire::postcard_take_bytes(b1) {
            None => wire::postcard_bytes_fault(b1),
            Some((_, b2)) => codec::pid_option_fault(b2),
        },
    }
}

/// The fields of `ForwardBroadcast` in some bytes.
pub open spec fn pub_sub_cast_forward_broadcast_read(b0: Seq<u8>) -> Option<PubSubCastView> {
    match wire::postcard_take_str(b0) {
        None => None,
        Some((topic, b1)) => match wire::postcard_take_bytes(b1) {
            None => None,
            Some((payload, b2)) => match codec::pid_option_read(b2) {
                None => None,
                Some((exclude, _)) => Some(
                    PubSubCastView::ForwardBroadcast { topic, payload, exclude }
                ),
            },
        },
    }
}

/// What is wrong with bytes that do not hold the fields of `ForwardBroadcast`.
pub open spec fn pub_sub_cast_forward_broadcast_fault(b0: Seq<u8>) -> Seq<char> {
    match wire::postcard_take_str(b0) {
        None => wire::postcard_str_fault(b0),
        Some((_, b1)) => match wire::postcard_take_bytes(b1) {
            None => wire::postcard_bytes_fault(b1),
            Some((_, b2)) => codec::pid_option_fault(b2),
        },
    }
}

impl Message for PubSubCast {
    open spec fn tag_view() -> Seq<char> {
        "PubSubCast"@
    }

    open spec fn payload(v: PubSubCastView) -> Seq<u8> {
        match v {
            PubSubCastView::Broadcast { topic, payload, exclude } => wire::postcard_u32(0)
                + wire::postcard_str(topic)
                + wire::postcard_bytes(payload)
                + codec::pid_option_wire(exclude),
            PubSubCastView::LocalBroadcast { topic, payload, exclude } => wire::postcard_u32(1)
                + wire::postcard_str(topic)
                + wire::postcard_bytes(payload)
                + codec::pid_option_wire(exclude),
            PubSubCastView::ForwardBroadcast { topic, payload, exclude } => wire::postcard_u32(2)
                + wire::postcard_str(topic)
                + wire::postcard_bytes(payload)
                + codec::pid_option_wire(exclude),
        }
    }

    open spec fn unpacked(b: Seq<u8>) -> Option<PubSubCastView> {
        match wire::postcard_take_u32(b) {
            None => None,
            Some((kind, b0)) => if kind == 0 {
                pub_sub_cast_broadcast_read(b0)
            } else if kind == 1 {
                pub_sub_cast_local_broadcast_read(b0)
            } else if kind == 2 {
                pub_sub_cast_forward_broadcast_read(b0)
            } else {
                None
            },
        }
    }

    open spec fn unpack_fault(b: Seq<u8>) -> DecodeErrorView {
        let text = match wire::postcard_take_u32(b) {
            None => wire::postcard_u32_fault(b),
            Some((kind, b0)) => if kind == 0 {
                pub_sub_cast_broadcast_fault(b0)
            } else if kind == 1 {
                pub_sub_cast_local_broadcast_fault(b0)
            } else if kind == 2 {
                pub_sub_cast_forward_broadcast_fault(b0)
            } else {
                wire::BAD_VARIANT@
            },
        };
        DecodeErrorView::Postcard(text)
    }

    open spec fn remote(v: PubSubCastView) -> Seq<u8> {
        message::tagged(Self::tag_view(), Self::payload(v))
    }

    open spec fn from_remote(bytes: Seq<u8>) -> Option<PubSubCastView> {
        match message::stripped(bytes, Self::tag_view()) {
            Some(payload) => Self::unpacked(payload),
            None => None,
        }
    }

    open spec fn remote_fault(bytes: Seq<u8>) -> DecodeErrorView {
        match message::stripped(bytes, Self::tag_view()) {
            Some(payload) => Self::unpack_fault(payload),
            None => DecodeErrorView::InvalidData(message::strip_fault(bytes, Self::tag_view())),
        }
    }

    fn tag() -> (r: &'static str) {
        "PubSubCast"
    }

    fn encode_local(&self) -> (r: Vec<u8>) {
        let payload = match self {
            PubSubCast::Broadcast {
                topic,
                payload,
                exclude
            } => encode_pub_sub_cast_broadcast(topic, payload, exclude),
            PubSubCast::LocalBroadcast {
                topic,
                payload,
                exclude
            } => encode_pub_sub_cast_local_broadcast(topic, payload, exclude),
            PubSubCast::ForwardBroadcast {
                topic,
                payload,
                exclude
            } => encode_pub_sub_cast_forward_broadcast(topic, payload, exclude),
        };
        message::encode_with_tag("PubSubCast", payload.as_slice())
    }

    fn decode_local(b: &[u8]) -> (r: Result<PubSubCast, DecodeError>) {
        match wire::take_u32(b) {
            Err(e) => Err(DecodeError::Postcard(e)),
            Ok((kind, b0)) => if kind == 0 {
                decode_pub_sub_cast_broadcast(b0)
            } else if kind == 1 {
                decode_pub_sub_cast_local_broadcast(b0)
            } else if kind == 2 {
                decode_pub_sub_cast_forward_broadcast(b0)
            } else {
                Err(DecodeError::Postcard(wire::BAD_VARIANT.to_owned()))
            },
        }
    }

    fn encode_remote(&self) -> (r: Vec<u8>) {
        proof {
            reveal_strlit("PubSubCast");
            message::lemma_stripped("PubSubCast"@, Self::payload(self@));
        }
        self.encode_local()
    }

    fn decode_remote(bytes: &[u8]) -> (r: Result<PubSubCast, DecodeError>) {
        match message::strip_tag(bytes, "PubSubCast") {
            Ok(payload) => Self::decode_local(payload),
            Err(e) => Err(e),
        }
    }
}

fn encode_pub_sub_cast_broadcast(
    topic: &String,
    payload: &Vec<u8>,
    exclude: &Option<Pid>,
) -> (r: Vec<u8>)
    ensures
        r@ == PubSubCast::payload((PubSubCastView::Broadcast {
                topic: topic@,
                payload: payload@,
                exclude: crate::process::pid_option(*exclude),
            })),
        PubSubCast::unpacked(r@) == Some(
            (PubSubCastView::Broadcast {
                topic: topic@,
                payload: payload@,
                exclude: crate::process::pid_option(*exclude),
            }),
        ),
{
    let mut out = wire::put_u32(0);
    let ghost start = out@;
    let w_topic = wire::put_str(topic.as_str());
    wire::append_bytes(&mut out, w_topic.as_slice());
    let w_payload = wire::put_bytes(payload.as_slice());
    wire::append_bytes(&mut out, w_payload.as_slice());
    codec::put_pid_option(&mut out, exclude);
    proof {
        assert(out@ =~= start
            + (wire::postcard_str(topic@)
            + (wire::postcard_bytes(payload@)
            + (codec::pid_option_wire(crate::process::pid_option(*exclude))
            + Seq::<u8>::empty()))));
        assert(out@ =~= PubSubCast::payload((PubSubCastView::Broadcast {
                topic: topic@,
                payload: payload@,
                exclude: crate::process::pid_option(*exclude),
            })));
    }
    out
}

fn decode_pub_sub_cast_broadcast(b0: &[u8]) -> (r: Result<PubSubCast, DecodeError>)
    ensures
        match r {
            Ok(m) => pub_sub_cast_broadcast_read(b0@) == Some(m@),
            Err(e) => pub_sub_cast_broadcast_read(b0@) is None && e@
                == DecodeErrorView::Postcard(pub_sub_cast_broadcast_fault(b0@)),
        },
{
    match wire::take_str(b0) {
        Err(e) => Err(DecodeError::Postcard(e)),
        Ok((topic, b1)) => match wire::take_bytes(b1) {
            Err(e) => Err(DecodeError::Postcard(e)),
            Ok((payload, b2)) => match codec::take_pid_option(b2) {
                Err(e) => Err(DecodeError::Postcard(e)),
                Ok((exclude, _)) => Ok(PubSubCast::Broadcast { topic, payload, exclude }),
            },
        },
    }
}

fn encode_pub_sub_cast_local_broadcast(
    topic: &String,
    payload: &Vec<u8>,
    exclude: &Option<Pid>,
) -> (r: Vec<u8>)
    ensures
        r@ == PubSubCast::payload((PubSubCastView::LocalBroadcast {
                topic: topic@,
                payload: payload@,
                exclude: crate::process::pid_option(*exclude),
            })),
        PubSubCast::unpacked(r@) == Some(
            (PubSubCastView::LocalBroadcast {
                topic: topic@,
                payload: payload@,
                exclude: crate::process::pid_option(*exclude),
            }),
        ),
{
    let mut out = wire::put_u32(1);
    let ghost start = out@;
    let w_topic = wire::put_str(topic.as_str());
    wire::append_bytes(&mut out, w_topic.as_slice());
    let w_payload = wire::put_bytes(payload.as_slice());
    wire::append_bytes(&mut out, w_payload.as_slice());
    codec::put_pid_option(&mut out, exclude);
    proof {
        assert(out@ =~= start
            + (wire::postcard_str(topic@)
            + (wire::postcard_bytes(payload@)
            + (codec::pid_option_wire(crate::process::pid_option(*exclude))
            + Seq::<u8>::empty()))));
        assert(out@ =~= PubSubCast::payload((PubSubCastView::LocalBroadcast {
                topic: topic@,
                payload: payload@,
                exclude: crate::process::pid_option(*exclude),
            })));
    }
    out
}

fn decode_pub_sub_cast_local_broadcast(b0: &[u8]) -> (r: Result<PubSubCast, DecodeError>)
    ensures
        match r {
            Ok(m) => pub_sub_cast_local_broadcast_read(b0@) == Some(m@),
            Err(e) => pub_sub_cast_local_broadcast_read(b0@) is None && e@
                == DecodeErrorView::Postcard(pub_sub_cast_local_broadcast_fault(b0@)),
        },
{
    match wire::take_str(b0) {
        Err(e) => Err(DecodeError::Postcard(e)),
        Ok((topic, b1)) => match wire::take_bytes(b1) {
            Err(e) => Err(DecodeError::Postcard(e)),
            Ok((payload, b2)) => match codec::take_pid_option(b2) {
                Err(e) => Err(DecodeError::Postcard(e)),
                Ok((exclude, _)) => Ok(PubSubCast::LocalBroadcast { topic, payload, exclude }),
            },
        },
    }
}

fn encode_pub_sub_cast_forward_broadcast(
    topic: &String,
    payload: &Vec<u8>,
    exclude: &Option<Pid>,
) -> (r: Vec<u8>)
    ensures
        r@ == PubSubCast::payload((PubSubCastView::ForwardBroadcast {
                topic: topic@,
                payload: payload@,
                exclude: crate::process::pid_option(*exclude),
            })),
        PubSubCast::unpacked(r@) == Some(
            (PubSubCastView::ForwardBroadcast {
                topic: topic@,
                payload: payload@,
                exclude: crate::process::pid_option(*exclude),
            }),
        ),
{
    let mut out = wire::put_u32(2);
    let ghost start = out@;
    let w_topic = wire::put_str(topic.as_str());
    wire::append_bytes(&mut out, w_topic.as_slice());
    let w_payload = wire::put_bytes(payload.as_slice());
    wire::append_bytes(&mut out, w_payload.as_slice());
    codec::put_pid_option(&mut out, exclude);
    proof {
        assert(out@ =~= start
            + (wire::postcard_str(topic@)
            + (wire::postcard_bytes(payload@)
            + (codec::pid_option_wire(crate::process::pid_option(*exclude))
            + Seq::<u8>::empty()))));
        assert(out@ =~= PubSubCast::payload((PubSubCastView::ForwardBroadcast {
                topic: topic@,
                payload: payload@,
                exclude: crate::process::pid_option(*exclude),
            })));
    }
    out
}

fn decode_pub_sub_cast_forward_broadcast(b0: &[u8]) -> (r: Result<PubSubCast, DecodeError>)
    ensures
        match r {
            Ok(m) => pub_sub_cast_forward_broadcast_read(b0@) == Some(m@),
            Err(e) => pub_sub_cast_forward_broadcast_read(b0@) is None && e@
                == DecodeErrorView::Postcard(pub_sub_cast_forward_broadcast_fault(b0@)),
        },
{
    match wire::take_str(b0) {
        Err(e) => Err(DecodeError::Postcard(e)),
        Ok((topic, b1)) => match wire::take_bytes(b1) {
            Err(e) => Err(DecodeError::Postcard(e)),
            Ok((payload, b2)) => match codec::take_pid_option(b2) {
                Err(e) => Err(DecodeError::Postcard(e)),
                Ok((exclude, _)) => Ok(PubSubCast::ForwardBroadcast { topic, payload, exclude }),
            },
        },
    }
}

/// What `PubSubInfo` stands for.
pub enum PubSubInfoView {
    /// Complete the start.
    CompleteInit,
}

/// A message of the server to itself.
pub enum PubSubInfo {
    /// Complete the start.
    CompleteInit,
}

impl View for PubSubInfo {
    type V = PubSubInfoView;

    open spec fn view(&self) -> PubSubInfoView {
        match *self {
            PubSubInfo::CompleteInit => PubSubInfoView::CompleteInit,
        }
    }
}

/// The fields of `CompleteInit` in some bytes.
pub open spec fn pub_sub_info_complete_init_read(b0: Seq<u8>) -> Option<PubSubInfoView> {
    Some(PubSubInfoView::CompleteInit)
}

impl Message for PubSubInfo {
    open spec fn tag_view() -> Seq<char> {
        "PubSubInfo"@
    }

    open spec fn payload(v: PubSubInfoView) -> Seq<u8> {
        match v {
            PubSubInfoView::CompleteInit => wire::postcard_u32(0),
        }
    }

    open spec fn unpacked(b: Seq<u8>) -> Option<PubSubInfoView> {
        match wire::postcard_take_u32(b) {
            None => None,
            Some((kind, b0)) => if kind == 0 {
                pub_sub_info_complete_init_read(b0)
            } else {
                None
            },
        }
    }

    open spec fn unpack_fault(b: Seq<u8>) -> DecodeErrorView {
        let text = match wire::postcard_take_u32(b) {
            None => wire::postcard_u32_fault(b),
            Some((_, b0)) => wire::BAD_VARIANT@,
        };
        DecodeErrorView::Postcard(text)
    }

    open spec fn remote(v: PubSubInfoView) -> Seq<u8> {
        message::tagged(Self::tag_view(), Self::payload(v))
    }

    open spec fn from_remote(bytes: Seq<u8>) -> Option<PubSubInfoView> {
        match message::stripped(bytes, Self::tag_view()) {
            Some(payload) => Self::unpacked(payload),
            None => None,
        }
    }

    open spec fn remote_fault(bytes: Seq<u8>) -> DecodeErrorView {
        match message::stripped(bytes, Self::tag_view()) {
            Some(payload) => Self::unpack_fault(payload),
            None => DecodeErrorView::InvalidData(message::strip_fault(bytes, Self::tag_view())),
        }
    }

    fn tag() -> (r: &'static str) {
        "PubSubInfo"
    }

    fn encode_local(&self) -> (r: Vec<u8>) {
        let payload = match self {
            PubSubInfo::CompleteInit => encode_pub_sub_info_complete_init(),
        };
        message::encode_with_tag("PubSubInfo", payload.as_slice())
    }

    fn decode_local(b: &[u8]) -> (r: Result<PubSubInfo, DecodeError>) {
        match wire::take_u32(b) {
            Err(e) => Err(DecodeError::Postcard(e)),
            Ok((kind, b0)) => if kind == 0 {
                decode_pub_sub_info_complete_init(b0)
            } else {
                Err(DecodeError::Postcard(wire::BAD_VARIANT.to_owned()))
            },
        }
    }

    fn encode_remote(&self) -> (r: Vec<u8>) {
        proof {
            reveal_strlit("PubSubInfo");
            message::lemma_stripped("PubSubInfo"@, Self::payload(self@));
        }
        self.encode_local()
    }

    fn decode_remote(bytes: &[u8]) -> (r: Result<PubSubInfo, DecodeError>) {
        match message::strip_tag(bytes, "PubSubInfo") {
            Ok(payload) => Self::decode_local(payload),
            Err(e) => Err(e),
        }
    }
}

fn encode_pub_sub_info_complete_init() -> (r: Vec<u8>)
    ensures
        r@ == PubSubInfo::payload(PubSubInfoView::CompleteInit),
        PubSubInfo::unpacked(r@) == Some(
            PubSubInfoView::CompleteInit,
        ),
{
    let mut out = wire::put_u32(0);
    let ghost start = out@;
    proof {
        assert(out@ =~= start
            + Seq::<u8>::empty());
        assert(out@ =~= PubSubInfo::payload(PubSubInfoView::CompleteInit));
    }
    out
}

fn decode_pub_sub_info_complete_init(b0: &[u8]) -> (r: Result<PubSubInfo, DecodeError>)
    ensures
        match r {
            Ok(m) => pub_sub_info_complete_init_read(b0@) == Some(m@),
            Err(_) => pub_sub_info_complete_init_read(b0@) is None,
        },
{
    Ok(PubSubInfo::CompleteInit)
}

/// What `PubSubReply` stands for.
pub enum PubSubReplyView {
    /// It is done.
    Done,
    /// The subscribers.
    Subscribers {
        /// The subscribers.
        pids: Seq<PidView>,
    },
}

/// The reply to a request.
pub enum PubSubReply {
    /// It is done.
    Done,
    /// The subscribers.
    Subscribers {
        /// The subscribers.
        pids: Vec<Pid>,
    },
}

impl View for PubSubReply {
    type V = PubSubReplyView;

    open spec fn view(&self) -> PubSubReplyView {
        match *self {
            PubSubReply::Done => PubSubReplyView::Done,
            PubSubReply::Subscribers { pids } => PubSubReplyView::Subscribers {
                pids: table::views(pids@),
            },
        }
    }
}

/// The fields of `Done` in some bytes.
pub open spec fn pub_sub_reply_done_read(b0: Seq<u8>) -> Option<PubSubReplyView> {
    Some(PubSubReplyView::Done)
}

/// The fields of `Subscribers` in some bytes.
pub open spec fn pub_sub_reply_subscribers_read(b0: Seq<u8>) -> Option<PubSubReplyView> {
    match piece::list_read::<Pid>(b0) {
        None => None,
        Some((pids, _)) => Some(PubSubReplyView::Subscribers { pids }),
    }
}

/// What is wrong with bytes that do not hold the fields of `Subscribers`.
pub open spec fn pub_sub_reply_subscribers_fault(b0: Seq<u8>) -> Seq<char> {
    piece::list_fault::<Pid>(b0)
}

impl Message for PubSubReply {
    open spec fn tag_view() -> Seq<char> {
        "PubSubReply"@
    }

    open spec fn payload(v: PubSubReplyView) -> Seq<u8> {
        match v {
            PubSubReplyView::Done => wire::postcard_u32(0),
            PubSubReplyView::Subscribers { pids } => wire::postcard_u32(1)
                + piece::list_wire::<Pid>(pids),
        }
    }

    open spec fn unpacked(b: Seq<u8>) -> Option<PubSubReplyView> {
        match wire::postcard_take_u32(b) {
            None => None,
            Some((kind, b0)) => if kind == 0 {
                pub_sub_reply_done_read(b0)
            } else if kind == 1 {
                pub_sub_reply_subscribers_read(b0)
            } else {
                None
            },
        }
    }

    open spec fn unpack_fault(b: Seq<u8>) -> DecodeErrorView {
        let text = match wire::postcard_take_u32(b) {
            None => wire::postcard_u32_fault(b),
            Some((kind, b0)) => if kind == 1 {
                pub_sub_reply_subscribers_fault(b0)
            } else {
                wire::BAD_VARIANT@
            },
        };
        DecodeErrorView::Postcard(text)
    }

    open spec fn remote(v: PubSubReplyView) -> Seq<u8> {
        message::tagged(Self::tag_view(), Self::payload(v))
    }

    open spec fn from_remote(bytes: Seq<u8>) -> Option<PubSubReplyView> {
        match message::stripped(bytes, Self::tag_view()) {
            Some(payload) => Self::unpacked(payload),
            None => None,
        }
    }

    open spec fn remote_fault(bytes: Seq<u8>) -> DecodeErrorView {
        match message::stripped(bytes, Self::tag_view()) {
            Some(payload) => Self::unpack_fault(payload),
            None => DecodeErrorView::InvalidData(message::strip_fault(bytes, Self::tag_view())),
        }
    }

    fn tag() -> (r: &'static str) {
        "PubSubReply"
    }

    fn encode_local(&self) -> (r: Vec<u8>) {
        let payload = match self {
            PubSubReply::Done => encode_pub_sub_reply_done(),
            PubSubReply::Subscribers { pids } => encode_pub_sub_reply_subscribers(pids),
        };
        message::encode_with_tag("PubSubReply", payload.as_slice())
    }

    fn decode_local(b: &[u8]) -> (r: Result<PubSubReply, DecodeError>) {
        match wire::take_u32(b) {
            Err(e) => Err(DecodeError::Postcard(e)),
            Ok((kind, b0)) => if kind == 0 {
                decode_pub_sub_reply_done(b0)
            } else if kind == 1 {
                decode_pub_sub_reply_subscribers(b0)
            } else {
                Err(DecodeError::Postcard(wire::BAD_VARIANT.to_owned()))
            },
        }
    }

    fn encode_remote(&self) -> (r: Vec<u8>) {
        proof {
            reveal_strlit("PubSubReply");
            message::lemma_stripped("PubSubReply"@, Self::payload(self@));
        }
        self.encode_local()
    }

    fn decode_remote(bytes: &[u8]) -> (r: Result<PubSubReply, DecodeError>) {
        match message::strip_tag(bytes, "PubSubReply") {
            Ok(payload) => Self::decode_local(payload),
            Err(e) => Err(e),
        }
    }
}

fn encode_pub_sub_reply_done() -> (r: Vec<u8>)
    ensures
        r@ == PubSubReply::payload(PubSubReplyView::Done),
        PubSubReply::unpacked(r@) == Some(
            PubSubReplyView::Done,
        ),
{
    let mut out = wire::put_u32(0);
    let ghost start = out@;
    proof {
        assert(out@ =~= start
            + Seq::<u8>::empty());
        assert(out@ =~= PubSubReply::payload(PubSubReplyView::Done));
    }
    out
}

fn decode_pub_sub_reply_done(b0: &[u8]) -> (r: Result<PubSubReply, DecodeError>)
    ensures
        match r {
            Ok(m) => pub_sub_reply_done_read(b0@) == Some(m@),
            Err(_) => pub_sub_reply_done_read(b0@) is None,
        },
{
    Ok(PubSubReply::Done)
}

fn encode_pub_sub_reply_subscribers(pids: &Vec<Pid>) -> (r: Vec<u8>)
    ensures
        r@ == PubSubReply::payload((PubSubReplyView::Subscribers {
                pids: table::views(pids@),
            })),
        PubSubReply::unpacked(r@) == Some(
            (PubSubReplyView::Subscribers {
                pids: table::views(pids@),
            }),
        ),
{
    let mut out = wire::put_u32(1);
    let ghost start = out@;
    piece::put_list(&mut out, pids);
    proof {
        assert(out@ =~= start
            + (piece::list_wire::<Pid>(table::views(pids@))
            + Seq::<u8>::empty()));
        assert(out@ =~= PubSubReply::payload((PubSubReplyView::Subscribers {
                pids: table::views(pids@),
            })));
    }
    out
}

fn decode_pub_sub_reply_subscribers(b0: &[u8]) -> (r: Result<PubSubReply, DecodeError>)
    ensures
        match r {
            Ok(m) => pub_sub_reply_subscribers_read(b0@) == Some(m@),
            Err(e) => pub_sub_reply_subscribers_read(b0@) is None && e@
                == DecodeErrorView::Postcard(pub_sub_reply_subscribers_fault(b0@)),
        },
{
    match piece::take_list::<Pid>(b0) {
        Err(e) => Err(DecodeError::Postcard(e)),
        Ok((pids, _)) => Ok(PubSubReply::Subscribers { pids }),
    }
}

/// The server.
pub struct PubSub {
    inner: server::PubSub,
}

impl View for PubSub {
    type V = server::PubSubView;

    closed spec fn view(&self) -> server::PubSubView {
        self.inner@
    }
}

/// The reply to a request. `members` are the members of the group that it asks for.
pub open spec fn reply_to_call(
    s: server::PubSubView,
    msg: PubSubCallView,
    members: Seq<PidView>,
    here: Seq<char>,
) -> PubSubReplyView {
    match msg {
        PubSubCallView::GetSubscribers { topic } => PubSubReplyView::Subscribers {
            pids: server::all_subscribers(s, topic, members, here),
        },
        PubSubCallView::GetLocalSubscribers { topic } => PubSubReplyView::Subscribers {
            pids: subscriptions::subscribers_of(s.subscriptions, topic),
        },
        _ => PubSubReplyView::Done,
    }
}

/// The server once it has handled a request.
pub open spec fn after_call(s: server::PubSubView, msg: PubSubCallView, here: Seq<char>) ->
    server::PubSubView {
    match msg {
        PubSubCallView::Subscribe { topic, pid } => if pid.node == here {
            server::PubSubView { subscriptions: s.subscriptions.push((topic, pid)), ..s }
        } else {
            s
        },
        PubSubCallView::Unsubscribe { topic, pid } => if pid.node == here {
            server::PubSubView {
                subscriptions: s.subscriptions.filter(subscriptions::not_this(topic, pid)),
                ..s
            }
        } else {
            s
        },
        PubSubCallView::UnsubscribeAll { pid } => server::PubSubView {
            subscriptions: s.subscriptions.filter(subscriptions::not_of(pid)),
            ..s
        },
        _ => s,
    }
}

/// Who enters and leaves which groups on account of a request.
pub open spec fn changes_of_call(s: server::PubSubView, msg: PubSubCallView, here: Seq<char>) ->
    Seq<server::GroupChangeView> {
    match msg {
        PubSubCallView::Subscribe { topic, pid } => server::entering(s, topic, pid, here),
        PubSubCallView::Unsubscribe { topic, pid } => server::leaving(s, topic, pid, here),
        PubSubCallView::UnsubscribeAll { pid } => server::leaving_all(s, pid),
        _ => Seq::empty(),
    }
}

/// A broadcast as it is forwarded to another node: a cast, in its envelope.
pub open spec fn forward_bytes(
    topic: Seq<char>,
    payload: Seq<u8>,
    exclude: Option<PidView>,
) -> Seq<u8> {
    protocol::envelope_wire(
        protocol::GEN_CAST_TAG@,
        wire::postcard_bytes(
            message::tagged(
                "PubSubCast"@,
                PubSubCast::payload(PubSubCastView::ForwardBroadcast { topic, payload, exclude }),
            ),
        ),
    )
}

/// What a request without a reply sends.
pub open spec fn sends_of_cast(
    s: server::PubSubView,
    msg: PubSubCastView,
    members: Seq<PidView>,
    here: Seq<char>,
) -> Seq<(PidView, Seq<u8>)> {
    match msg {
        PubSubCastView::Broadcast { topic, payload, exclude } => channels::to_each(
            subscriptions::receivers(
                subscriptions::subscribers_of(s.subscriptions, topic),
                exclude,
            ),
            payload,
        ) + channels::to_each(
            members.filter(subscriptions::is_remote(here, s.self_pid)),
            forward_bytes(topic, payload, exclude),
        ),
        PubSubCastView::LocalBroadcast { topic, payload, exclude } => channels::to_each(
            subscriptions::receivers(
                subscriptions::subscribers_of(s.subscriptions, topic),
                exclude,
            ),
            payload,
        ),
        PubSubCastView::ForwardBroadcast { topic, payload, exclude } => channels::to_each(
            subscriptions::receivers(
                subscriptions::subscribers_of(s.subscriptions, topic),
                exclude,
            ),
            payload,
        ),
    }
}

impl PubSub {
    /// The server of a configuration, with the message that it sends to itself.
    pub fn init(config: PubSubConfig) -> (r: (Self, Vec<u8>))
        ensures
            r.0@ == (server::PubSubView {
                name: config.name@,
                subscriptions: Seq::empty(),
                self_pid: None,
            }),
            r.1@ == message::tagged(
                "PubSubInfo"@,
                PubSubInfo::payload(PubSubInfoView::CompleteInit),
            ),
    {
        let (inner, _) = server::PubSub::init(config);
        (PubSub { inner }, PubSubInfo::CompleteInit.encode_local())
    }

    /// The process group of the servers.
    pub fn group(&self) -> (r: String)
        ensures
            r@ == server::server_group(self@.name),
    {
        self.inner.group()
    }

    /// The process group whose members a request asks for.
    pub fn group_of(&self, msg: &PubSubCall) -> (r: Option<String>)
        ensures
            match msg@ {
                PubSubCallView::GetSubscribers { topic } => r matches Some(group) && group@
                    == server::group_of_topic(self@, topic),
                _ => r is None,
            },
    {
        match msg {
            PubSubCall::GetSubscribers { topic } => Some(
                self.inner.subscribers_group(topic.as_str()),
            ),
            _ => None,
        }
    }

    /// Who enters and leaves which groups on account of a request, as the server stands before
    /// it handles the request.
    pub fn group_changes(&self, msg: &PubSubCall, here: &str) -> (r: Vec<server::GroupChange>)
        ensures
            table::views(r@) == changes_of_call(self@, msg@, here@),
    {
        match msg {
            PubSubCall::Subscribe { topic, pid } => self.inner.entering(topic.as_str(), pid, here),
            PubSubCall::Unsubscribe { topic, pid } => self.inner.leaving(topic.as_str(), pid, here),
            PubSubCall::UnsubscribeAll { pid } => self.inner.leaving_all(pid),
            _ => {
                let none: Vec<server::GroupChange> = Vec::new();
                assert(table::views(none@) =~= Seq::<server::GroupChangeView>::empty());
                none
            },
        }
    }

    /// Handles a request. `members` are the members of the group that it asks for.
    pub fn handle_call(&mut self, msg: PubSubCall, here: &str, members: Vec<Pid>) -> (r:
        PubSubReply)
        ensures
            final(self)@ == after_call(old(self)@, msg@, here@),
            r@ == reply_to_call(old(self)@, msg@, table::views(members@), here@),
    {
        match msg {
            PubSubCall::Subscribe { topic, pid } => {
                self.inner.handle_subscribe(server::Subscribe { topic, pid }, here);
                PubSubReply::Done
            },
            PubSubCall::Unsubscribe { topic, pid } => {
                self.inner.handle_unsubscribe(&server::Unsubscribe { topic, pid }, here);
                PubSubReply::Done
            },
            PubSubCall::UnsubscribeAll { pid } => {
                self.inner.handle_unsubscribe_all(&server::UnsubscribeAll { pid });
                PubSubReply::Done
            },
            PubSubCall::GetSubscribers { topic } => {
                let found = self.inner.handle_get_subscribers(
                    &server::GetSubscribers { topic },
                    &members,
                    here,
                );
                PubSubReply::Subscribers { pids: found.pids }
            },
            PubSubCall::GetLocalSubscribers { topic } => {
                let found = self.inner.handle_get_local_subscribers(
                    &server::GetLocalSubscribers { topic },
                );
                PubSubReply::Subscribers { pids: found.pids }
            },
        }
    }

    /// Handles a request without a reply. `members` are the servers of all nodes.
    pub fn handle_cast(&self, msg: PubSubCast, members: &Vec<Pid>, here: &str) -> (r: Vec<
        (Pid, Vec<u8>),
    >)
        ensures
            channels::sends(r@) == sends_of_cast(self@, msg@, table::views(members@), here@),
            msg@ matches PubSubCastView::Broadcast { topic, payload, exclude } ==> turn_of(
                Some(forward_bytes(topic, payload, exclude)),
            ) == (TurnView::Cast {
                payload: PubSubCast::payload(
                    PubSubCastView::ForwardBroadcast { topic, payload, exclude },
                ),
            }),
    {
        match msg {
            PubSubCast::Broadcast { topic, payload, exclude } => {
                let local = server::LocalBroadcast { topic, payload, exclude };
                let mut out = self.inner.handle_local_broadcast(&local);
                let ghost near = channels::sends(out@);
                let forward = PubSubCast::ForwardBroadcast {
                    topic: local.topic,
                    payload: local.payload,
                    exclude: local.exclude,
                };
                let request = forward.encode_local();
                let bytes = protocol::encode_gen_cast_envelope(request);
                proof {
                    reveal_strlit("PubSubCast");
                    message::lemma_ascii_length("PubSubCast"@);
                    message::law_tag_reads_back("PubSubCast"@, PubSubCast::payload(forward@));
                }
                let mut rest = self.inner.forward(members, here, &bytes);
                let ghost far = channels::sends(rest@);
                out.append(&mut rest);
                assert(channels::sends(out@) =~= near + far);
                out
            },
            PubSubCast::LocalBroadcast { topic, payload, exclude } => {
                let local = server::LocalBroadcast { topic, payload, exclude };
                self.inner.handle_local_broadcast(&local)
            },
            PubSubCast::ForwardBroadcast { topic, payload, exclude } => {
                let local = server::LocalBroadcast { topic, payload, exclude };
                self.inner.handle_local_broadcast(&local)
            },
        }
    }

    /// Handles a message of the server to itself, once the server knows its process.
    pub fn handle_info(&mut self, msg: PubSubInfo, self_pid: Pid) -> (r: server::Registration)
        ensures
            final(self)@ == (server::PubSubView { self_pid: Some(self_pid@), ..old(self)@ }),
            r.group@ == server::server_group(old(self)@.name),
            r.name@ == old(self)@.name,
    {
        self.inner.complete_init(self_pid)
    }

    /// Handles what the server went on with: a message to itself, or nothing.
    pub fn handle_continue(&mut self, arg: &[u8], self_pid: Pid) -> (r: Option<
        server::Registration,
    >)
        ensures
            match message::untagged(arg@) {
                Some((_, payload)) => match PubSubInfo::unpacked(payload) {
                    Some(_) => {
                        &&& r matches Some(reg) && reg.group@ == server::server_group(
                            old(self)@.name,
                        ) && reg.name@ == old(self)@.name
                        &&& final(self)@ == (server::PubSubView {
                            self_pid: Some(self_pid@),
                            ..old(self)@
                        })
                    },
                    None => r is None && final(self)@ == old(self)@,
                },
                None => r is None && final(self)@ == old(self)@,
            },
    {
        match message::decode_tag(arg) {
            Ok((_, payload)) => match PubSubInfo::decode_local(payload) {
                Ok(info) => Some(self.handle_info(info, self_pid)),
                Err(_) => None,
            },
            Err(_) => None,
        }
    }
}

/// The subscribers in a reply; another reply is refused.
pub fn subscribers_reply(reply: PubSubReply) -> (r: Result<Vec<Pid>, String>)
    ensures
        match reply {
            PubSubReply::Subscribers { pids } => r == Ok::<Vec<Pid>, String>(pids),
            _ => r matches Err(e) && e@ == "unexpected reply type"@,
        },
{
    match reply {
        PubSubReply::Subscribers { pids } => Ok(pids),
        _ => Err("unexpected reply type".to_owned()),
    }
}

/// A process that has subscribed on this node gets every later broadcast to the topic that does
/// not exclude it.
pub proof fn law_subscribed_process_is_reached(
    s: server::PubSubView,
    topic: Seq<char>,
    pid: PidView,
    payload: Seq<u8>,
    exclude: Option<PidView>,
    here: Seq<char>,
)
    requires
        pid.node == here,
        exclude != Some(pid),
    ensures
        sends_of_cast(
            after_call(s, PubSubCallView::Subscribe { topic, pid }, here),
            PubSubCastView::LocalBroadcast { topic, payload, exclude },
            Seq::empty(),
            here,
        ).contains((pid, payload)),
{
    subscriptions::law_subscribers_get_broadcasts(s.subscriptions, topic, pid);
    let all = subscriptions::subscribers_of(s.subscriptions, topic);
    let more = all.push(pid);
    let to = subscriptions::receivers(more, exclude);
    match exclude {
        Some(x) => {
            all.lemma_filter_push(pid, channels::other_than(x));
        },
        None => {},
    }
    assert(to.last() == pid);
    let sent = channels::to_each(to, payload);
    assert(sent[sent.len() - 1] == (pid, payload));
}

/// A server reads a forwarded broadcast: it takes the bytes as a cast, and the cast as the
/// broadcast that was forwarded, if their length can be counted.
pub proof fn law_forwarded_broadcast_is_read(
    topic: Seq<char>,
    payload: Seq<u8>,
    exclude: Option<PidView>,
)
    requires
        forward_bytes(topic, payload, exclude).len() <= usize::MAX,
    ensures
        ({
            let forward = PubSubCastView::ForwardBroadcast { topic, payload, exclude };
            &&& turn_of(Some(forward_bytes(topic, payload, exclude))) == (TurnView::Cast {
                payload: PubSubCast::payload(forward),
            })
            &&& PubSubCast::unpacked(PubSubCast::payload(forward)) == Some(forward)
        }),
{
    let forward = PubSubCastView::ForwardBroadcast { topic, payload, exclude };
    let body = PubSubCast::payload(forward);
    let request = message::tagged("PubSubCast"@, body);
    assert(wire::postcard_bytes(wire::postcard_bytes(request)).len() <= usize::MAX);
    assert(wire::postcard_bytes(request).len() <= usize::MAX && request.len() <= usize::MAX) by {
        reveal(wire::postcard_bytes);
    }
    reveal_strlit("PubSubCast");
    message::lemma_ascii_length("PubSubCast"@);
    message::law_tag_reads_back("PubSubCast"@, body);
    protocol::law_cast_envelope_reads_back(request);
    assert(body.len() <= request.len());
    lemma_forward_reads_back(topic, payload, exclude);
}

/// A forwarded broadcast reads back, if its length can be counted.
proof fn lemma_forward_reads_back(
    topic: Seq<char>,
    payload: Seq<u8>,
    exclude: Option<PidView>,
)
    requires
        PubSubCast::payload(
            PubSubCastView::ForwardBroadcast { topic, payload, exclude },
        ).len() <= usize::MAX,
    ensures
        PubSubCast::unpacked(
            PubSubCast::payload(PubSubCastView::ForwardBroadcast { topic, payload, exclude }),
        ) == Some(PubSubCastView::ForwardBroadcast { topic, payload, exclude }),
{
    let body = PubSubCast::payload(PubSubCastView::ForwardBroadcast { topic, payload, exclude });
    let kind = wire::postcard_u32(2);
    let name = wire::postcard_str(topic);
    let bytes = wire::postcard_bytes(payload);
    let who = codec::pid_option_wire(exclude);
    let none = Seq::<u8>::empty();
    assert(body.len() == kind.len() + name.len() + bytes.len() + who.len());
    assert(encode_utf8(topic).len() <= usize::MAX) by {
        reveal(wire::postcard_str);
    }
    assert(payload.len() <= usize::MAX) by {
        reveal(wire::postcard_bytes);
    }
    match exclude {
        Some(pid) => {
            assert(encode_utf8(pid.node).len() <= usize::MAX) by {
                reveal(wire::postcard_str);
            }
        },
        None => {},
    }
    assert(body =~= kind + (name + (bytes + (who + none))));
    wire::law_u32_reads_back(2, name + (bytes + (who + none)));
    wire::law_str_reads_back(topic, bytes + (who + none));
    wire::law_bytes_reads_back(payload, who + none);
    codec::law_pid_option_reads_back(exclude);
    assert(codec::pid_option_read(who + none) == Some((exclude, none)));
}

/// What a server sends on account of bytes that it received.
pub open spec fn sends_of_received(
    s: server::PubSubView,
    raw: Seq<u8>,
    members: Seq<PidView>,
    here: Seq<char>,
) -> Seq<(PidView, Seq<u8>)> {
    match turn_of(Some(raw)) {
        TurnView::Cast { payload } => match PubSubCast::unpacked(payload) {
            Some(msg) => sends_of_cast(s, msg, members, here),
            None => Seq::empty(),
        },
        _ => Seq::empty(),
    }
}

/// A broadcast reaches the subscribers on other nodes: the server sends some bytes to every
/// server of the group there, and a server that receives them passes the message on to who has
/// subscribed there.
pub proof fn law_broadcast_reaches_other_nodes(
    a: server::PubSubView,
    b: server::PubSubView,
    members: Seq<PidView>,
    members_there: Seq<PidView>,
    peer: PidView,
    topic: Seq<char>,
    pid: PidView,
    payload: Seq<u8>,
    exclude: Option<PidView>,
    here: Seq<char>,
    there: Seq<char>,
)
    requires
        members.contains(peer),
        peer.node != here,
        a.self_pid != Some(peer),
        pid.node == there,
        exclude != Some(pid),
        forward_bytes(topic, payload, exclude).len() <= usize::MAX,
    ensures
        sends_of_cast(
            a,
            PubSubCastView::Broadcast { topic, payload, exclude },
            members,
            here,
        ).contains((peer, forward_bytes(topic, payload, exclude))),
        sends_of_received(
            after_call(b, PubSubCallView::Subscribe { topic, pid }, there),
            forward_bytes(topic, payload, exclude),
            members_there,
            there,
        ).contains((pid, payload)),
{
    law_subscribed_process_is_reached(b, topic, pid, payload, exclude, there);
    law_forwarded_broadcast_is_read(topic, payload, exclude);
    let p = subscriptions::is_remote(here, a.self_pid);
    let i = choose|i: int| 0 <= i < members.len() && members[i] == peer;
    members.lemma_filter_contains(p, i);
    let peers = members.filter(p);
    let j = choose|j: int| 0 <= j < peers.len() && peers[j] == peer;
    let bytes = forward_bytes(topic, payload, exclude);
    let all = sends_of_cast(
        a,
        PubSubCastView::Broadcast { topic, payload, exclude },
        members,
        here,
    );
    let local = channels::to_each(
        subscriptions::receivers(subscriptions::subscribers_of(a.subscriptions, topic), exclude),
        payload,
    );
    assert(channels::to_each(peers, bytes)[j] == (peer, bytes));
    assert(all[local.len() + j] == (peer, bytes));
}

/// The members of the groups once processes have entered and left them.
pub open spec fn regrouped(
    joined: Set<(Seq<char>, PidView)>,
    changes: Seq<server::GroupChangeView>,
) -> Set<(Seq<char>, PidView)>
    decreases changes.len(),
{
    if changes.len() == 0 {
        joined
    } else {
        let before = regrouped(joined, changes.drop_last());
        match changes.last() {
            server::GroupChangeView::Join { group, pid } => before.insert((group, pid)),
            server::GroupChangeView::Leave { group, pid } => before.remove((group, pid)),
        }
    }
}

/// The processes of this node in the groups of the topics are the subscribers.
pub open spec fn grouped(
    s: server::PubSubView,
    joined: Set<(Seq<char>, PidView)>,
    here: Seq<char>,
) -> bool {
    forall|topic: Seq<char>, pid: PidView|
        #![trigger subscriptions::subscribers_of(s.subscriptions, topic).contains(pid)]
        pid.node == here ==> (joined.contains((server::group_of_topic(s, topic), pid))
            <==> subscriptions::subscribers_of(s.subscriptions, topic).contains(pid))
}

proof fn lemma_groups_differ(s: server::PubSubView, a: Seq<char>, b: Seq<char>)
    requires
        server::group_of_topic(s, a) == server::group_of_topic(s, b),
    ensures
        a == b,
{
    let head = server::server_group(s.name) + ":"@;
    assert(server::group_of_topic(s, a).skip(head.len() as int) =~= a);
    assert(server::group_of_topic(s, b).skip(head.len() as int) =~= b);
}

proof fn lemma_left(
    s: server::PubSubView,
    joined: Set<(Seq<char>, PidView)>,
    topics: Seq<Seq<char>>,
    pid: PidView,
    topic: Seq<char>,
    who: PidView,
)
    ensures
        ({
            let leaves = Seq::new(
                topics.len(),
                |i: int|
                    server::GroupChangeView::Leave {
                        group: server::group_of_topic(s, topics[i]),
                        pid,
                    },
            );
            regrouped(joined, leaves).contains((server::group_of_topic(s, topic), who)) == (
            joined.contains((server::group_of_topic(s, topic), who)) && !(who == pid
                && topics.contains(topic)))
        }),
    decreases topics.len(),
{
    let leaves = Seq::new(
        topics.len(),
        |i: int|
            server::GroupChangeView::Leave { group: server::group_of_topic(s, topics[i]), pid },
    );
    if topics.len() > 0 {
        let rest = topics.drop_last();
        let last = topics.last();
        lemma_left(s, joined, rest, pid, topic, who);
        assert(leaves.drop_last() =~= Seq::new(
            rest.len(),
            |i: int|
                server::GroupChangeView::Leave { group: server::group_of_topic(s, rest[i]), pid },
        ));
        assert(topics.contains(topic) == (rest.contains(topic) || topic == last)) by {
            if rest.contains(topic) {
                let i = choose|i: int| 0 <= i < rest.len() && rest[i] == topic;
                assert(topics[i] == topic);
            }
            if topic == last {
                assert(topics[topics.len() - 1] == topic);
            }
            if topics.contains(topic) && topic != last {
                let i = choose|i: int| 0 <= i < topics.len() && topics[i] == topic;
                assert(rest[i] == topic);
            }
        }
        if server::group_of_topic(s, last) == server::group_of_topic(s, topic) {
            lemma_groups_differ(s, last, topic);
        }
    }
}

/// The groups of the topics hold the subscribers of this node: a new server begins so with no
/// groups, and every request leaves it so, if the changes are made that it asks for.
pub proof fn law_groups_hold_the_subscribers(
    s: server::PubSubView,
    joined: Set<(Seq<char>, PidView)>,
    msg: PubSubCallView,
    here: Seq<char>,
)
    requires
        grouped(s, joined, here),
    ensures
        grouped(
            after_call(s, msg, here),
            regrouped(joined, changes_of_call(s, msg, here)),
            here,
        ),
        grouped(
            server::PubSubView { subscriptions: Seq::empty(), ..s },
            Set::empty(),
            here,
        ),
{
    reveal(Seq::filter);
    reveal_with_fuel(regrouped, 2);
    let after = after_call(s, msg, here);
    let now = regrouped(joined, changes_of_call(s, msg, here));
    assert forall|t: Seq<char>, p: PidView|
        #![trigger subscriptions::subscribers_of(after.subscriptions, t).contains(p)]
        p.node == here implies (now.contains((server::group_of_topic(after, t), p))
        <==> subscriptions::subscribers_of(after.subscriptions, t).contains(p)) by {
        let was = subscriptions::subscribers_of(s.subscriptions, t);
        let is = subscriptions::subscribers_of(after.subscriptions, t);
        assert(joined.contains((server::group_of_topic(s, t), p)) <==> was.contains(p));
        match msg {
            PubSubCallView::Subscribe { topic, pid } => {
                if pid.node == here {
                    lemma_subscribed(s.subscriptions, topic, pid, t, p);
                    if server::group_of_topic(s, topic) == server::group_of_topic(s, t) {
                        lemma_groups_differ(s, topic, t);
                    }
                }
            },
            PubSubCallView::Unsubscribe { topic, pid } => {
                if pid.node == here {
                    if t != topic {
                        subscriptions::law_unsubscribing_spares_the_others(
                            s.subscriptions,
                            topic,
                            pid,
                            t,
                        );
                        if server::group_of_topic(s, topic) == server::group_of_topic(s, t) {
                            lemma_groups_differ(s, topic, t);
                        }
                    } else {
                        subscriptions::law_unsubscribing_spares_the_others(
                            s.subscriptions,
                            topic,
                            pid,
                            topic.push('x'),
                        );
                        lemma_others_contain(was, pid, p);
                    }
                }
            },
            PubSubCallView::UnsubscribeAll { pid } => {
                lemma_left(
                    s,
                    joined,
                    subscriptions::topics_of(s.subscriptions, pid),
                    pid,
                    t,
                    p,
                );
                subscriptions::lemma_members(s.subscriptions, t, p);
                subscriptions::lemma_members(after.subscriptions, t, p);
                subscriptions::lemma_topics(s.subscriptions, pid, t);
                subscriptions::lemma_kept(s.subscriptions, subscriptions::not_of(pid), (t, p));
            },
            _ => {},
        }
    }
}

proof fn lemma_subscribed(
    subs: Seq<(Seq<char>, PidView)>,
    topic: Seq<char>,
    pid: PidView,
    t: Seq<char>,
    p: PidView,
)
    ensures
        subscriptions::subscribers_of(subs.push((topic, pid)), t).contains(p) == (
        subscriptions::subscribers_of(subs, t).contains(p) || (topic, pid) == (t, p)),
{
    let more = subs.push((topic, pid));
    subscriptions::lemma_members(subs, t, p);
    subscriptions::lemma_members(more, t, p);
    if subs.contains((t, p)) {
        let i = choose|i: int| 0 <= i < subs.len() && subs[i] == (t, p);
        assert(more[i] == (t, p));
    }
    if (topic, pid) == (t, p) {
        assert(more[subs.len() as int] == (t, p));
    }
    if more.contains((t, p)) && (topic, pid) != (t, p) {
        let i = choose|i: int| 0 <= i < more.len() && more[i] == (t, p);
        assert(subs[i] == (t, p));
    }
}

proof fn lemma_others_contain(all: Seq<PidView>, pid: PidView, p: PidView)
    ensures
        channels::others(all, pid).contains(p) == (all.contains(p) && p != pid),
{
    let o = channels::other_than(pid);
    let some = all.filter(o);
    if some.contains(p) {
        let i = choose|i: int| 0 <= i < some.len() && some[i] == p;
        all.lemma_filter_pred(o, i);
        all.lemma_filter_contains_rev(o, p);
    }
    if all.contains(p) && p != pid {
        let i = choose|i: int| 0 <= i < all.len() && all[i] == p;
        all.lemma_filter_contains(o, i);
    }
}

/// A request for the subscribers of a topic finds all of them: those of this node, and those of
/// other nodes, where the groups hold them.
pub proof fn law_all_subscribers_are_found(
    s: server::PubSubView,
    other: server::PubSubView,
    joined: Set<(Seq<char>, PidView)>,
    members: Seq<PidView>,
    topic: Seq<char>,
    pid: PidView,
    here: Seq<char>,
    there: Seq<char>,
)
    requires
        s.name == other.name,
        here != there,
        grouped(other, joined, there),
        forall|p: PidView|
            members.contains(p) <==> #[trigger] joined.contains(
                (server::group_of_topic(s, topic), p),
            ),
    ensures
        subscriptions::subscribers_of(s.subscriptions, topic).contains(pid)
            ==> server::all_subscribers(s, topic, members, here).contains(pid),
        pid.node == there && subscriptions::subscribers_of(other.subscriptions, topic).contains(
            pid,
        ) ==> server::all_subscribers(s, topic, members, here).contains(pid),
{
    let near = subscriptions::subscribers_of(s.subscriptions, topic);
    let p = subscriptions::elsewhere(here);
    let far = members.filter(p);
    let all = server::all_subscribers(s, topic, members, here);
    if near.contains(pid) {
        let i = choose|i: int| 0 <= i < near.len() && near[i] == pid;
        assert(all[i] == pid);
    }
    if pid.node == there && subscriptions::subscribers_of(other.subscriptions, topic).contains(
        pid,
    ) {
        assert(server::group_of_topic(s, topic) == server::group_of_topic(other, topic));
        assert(joined.contains((server::group_of_topic(s, topic), pid)));
        let i = choose|i: int| 0 <= i < members.len() && members[i] == pid;
        members.lemma_filter_contains(p, i);
        let j = choose|j: int| 0 <= j < far.len() && far[j] == pid;
        assert(all[near.len() + j] == pid);
    }
}

} // verus!
