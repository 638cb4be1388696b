//! Generic servers.

use std::time::Duration;

use ambitious::gen_server::protocol::{
    decode_gen_call_envelope, decode_gen_cast_envelope, decode_tagged_envelope,
    encode_gen_call_envelope, encode_gen_cast_envelope, encode_reply, encode_timeout, From,
    GEN_CALL_TAG,
};
use ambitious::gen_server::server;
use ambitious::gen_server::server::{Error, Later, Turn};
use ambitious::gen_server::server_ref::ServerRef;
use ambitious::gen_server::types::{Init, Reply, Status};
use ambitious::gen_server::v2;
use ambitious::gen_server::v2::dispatch::{
    call_argument, cast_argument, reply_to_raw, GlobalRegistry, HandlerEntry, HandlerRegistry,
};
use ambitious::gen_server::v2::server::RawReply;
use ambitious::gen_server::via::{
    register_name, unregister_name, AlreadyRegistered, Name, ViaRegistry,
};
use ambitious::names::NameTable;
use ambitious::process::{DecodeError, ExitReason, Pid, ProcessFlag, Ref};
use ambitious::table::Key;

fn pid(id: u64) -> Pid {
    Pid::remote("test@localhost", id, 0)
}

fn from(id: u64) -> From {
    From { pid: pid(1), reference: Ref::from_raw(id) }
}

#[test]
fn test_gen_call_envelope_roundtrip() {
    let from = from(1);
    let request = b"hello".to_vec();

    let encoded = encode_gen_call_envelope(from.clone(), request.clone());
    let decoded = decode_gen_call_envelope(&encoded).expect("should decode");

    assert!(decoded.from.pid.same(&from.pid));
    assert_eq!(decoded.request, request);
}

#[test]
fn test_gen_cast_envelope_roundtrip() {
    let request = b"cast message".to_vec();

    let encoded = encode_gen_cast_envelope(request.clone());
    let decoded = decode_gen_cast_envelope(&encoded).expect("should decode");

    assert_eq!(decoded.request, request);
}

#[test]
fn test_decode_wrong_envelope_type() {
    let cast_bytes = encode_gen_cast_envelope(b"test".to_vec());
    assert!(decode_gen_call_envelope(&cast_bytes).is_none());

    let call_bytes = encode_gen_call_envelope(from(1), b"test".to_vec());
    assert!(decode_gen_cast_envelope(&call_bytes).is_none());
}

#[test]
fn test_decode_tagged_envelope() {
    let call_bytes = encode_gen_call_envelope(from(1), b"test".to_vec());

    let (tag, _payload) = decode_tagged_envelope(&call_bytes).expect("should decode");
    assert_eq!(tag, GEN_CALL_TAG);
}

#[test]
fn test_non_envelope_returns_none() {
    let random_bytes = b"not an envelope";

    assert!(decode_gen_call_envelope(random_bytes).is_none());
    assert!(decode_gen_cast_envelope(random_bytes).is_none());
    assert!(decode_tagged_envelope(random_bytes).is_none());
}

#[test]
fn test_prelude_imports() {
    let _pid: Option<Pid> = None;
    let _ref: Option<Ref> = None;
    let _reason = ExitReason::Normal;
    assert_eq!(ProcessFlag::TrapExit, ProcessFlag::TrapExit);
}

#[test]
fn a_call_is_answered() {
    let bytes = server::call_message(from(5), &42i64);
    let payload = match server::receive(Some(bytes)) {
        Turn::Call { from, payload } => {
            assert_eq!(from.reference.as_raw(), 5);
            payload
        },
        _ => panic!("no call"),
    };
    let request: i64 = match server::call_request::<i64>(&from(5), &payload) {
        Ok(m) => m,
        Err(_) => panic!("not read"),
    };
    assert_eq!(request, 42);
    let outcome = server::handle_call_reply(&from(5), Reply::Answer(43i64));
    assert!(outcome.later.is_none() && outcome.stop.is_none());
    let (to, reply) = outcome.send.unwrap();
    assert!(to.same(&pid(1)));
    match server::wait_for_reply::<i64>(Ref::from_raw(5), Some(reply.clone())) {
        Some(Ok(v)) => assert_eq!(v, 43),
        _ => panic!("no value"),
    }
    assert!(server::wait_for_reply::<i64>(Ref::from_raw(6), Some(reply)).is_none());
    assert!(matches!(
        server::wait_for_reply::<i64>(Ref::from_raw(6), None),
        Some(Err(Error::Stopped(ExitReason::Normal)))
    ));
}

#[test]
fn casts_and_other_turns() {
    let (_, bytes) = server::cast(pid(2), &7u32);
    match server::receive(Some(bytes)) {
        Turn::Cast { payload } => {
            assert_eq!(server::plain_request::<u32>(&payload), Some(7));
        },
        _ => panic!("no cast"),
    }
    assert!(matches!(server::receive(None), Turn::Terminate(ExitReason::Normal)));
    assert!(matches!(server::receive(Some(encode_timeout())), Turn::Timeout));
    assert!(matches!(server::receive(Some(vec![99, 1])), Turn::Info { .. }));
    let bad = encode_gen_call_envelope(from(3), vec![1]);
    match server::receive(Some(bad)) {
        Turn::BadCall { from, error } => {
            let o = server::reject_call(&from, &error);
            assert!(o.send.is_some() && o.stop.is_none());
        },
        _ => panic!("not refused"),
    }
    assert!(server::call_request::<bool>(&from(3), &[7]).is_err());
}

#[test]
fn statuses_and_starts() {
    let o = server::handle_status(Status::Continue(vec![1]));
    assert!(matches!(o.later, Some(Later::Now(_))));
    let o = server::handle_status(Status::Timeout(Duration::from_millis(5)));
    match o.later {
        Some(Later::After(d, _)) => assert_eq!(d, Duration::from_millis(5)),
        _ => panic!("not later"),
    }
    let o = server::handle_status(Status::error("x".into()));
    assert!(matches!(o.stop, Some(ExitReason::Error(_))));
    assert!(server::after_init(Init::ok(1)).report.is_ok());
    assert!(matches!(server::after_init::<u8>(Init::ignore()).report, Err(Error::Ignore)));
    let o = server::acknowledge_stop(ExitReason::Shutdown, &Some(from(9)));
    let (_, bytes) = o.send.unwrap();
    assert!(matches!(server::wait_for_reply::<()>(Ref::from_raw(9), Some(bytes)), Some(Ok(()))));
    assert!(matches!(o.stop, Some(ExitReason::Shutdown)));
    assert!(server::acknowledge_stop(ExitReason::Normal, &None).send.is_none());
    assert!(server::link_parent(true, None).is_err());
    assert!(server::start_result(pid(1), None).is_err());
    let o = server::handle_call_reply::<u8>(&from(2), Reply::StopNoReply(ExitReason::Normal));
    let (_, bytes) = o.send.unwrap();
    assert!(matches!(
        server::wait_for_reply::<u8>(Ref::from_raw(2), Some(bytes)),
        Some(Err(Error::Decode(_)))
    ));
}

#[test]
fn errors_have_texts() {
    assert_eq!(Error::Timeout.describe(), "call timed out");
    assert_eq!(
        Error::InitStop(ExitReason::Error("a\"b".into())).describe(),
        "init returned stop: Error(\"a\\\"b\")"
    );
    assert_eq!(
        Error::Decode(DecodeError::Postcard("p".into())).describe(),
        "decode error: postcard error: p"
    );
    assert_eq!(AlreadyRegistered.describe(), "already registered");
}

struct Fixed(Pid);

impl ViaRegistry for Fixed {
    fn register_name(&self, _pid: Pid) -> Result<(), AlreadyRegistered> {
        Err(AlreadyRegistered)
    }

    fn unregister_name(&self) {}

    fn whereis_name(&self) -> Option<Pid> {
        Some(self.0.clone())
    }
}

#[test]
fn names_are_registered_once() {
    let mut names: NameTable<Pid> = NameTable::new();
    let name: Name<Fixed> = Name::local("server");
    assert!(register_name(&mut names, &name, pid(1)).is_ok());
    assert!(register_name(&mut names, &name, pid(2)).is_err());
    let found = ServerRef::<Fixed>::of_name("server").resolve(&names).unwrap();
    assert!(found.same(&pid(1)));
    unregister_name(&mut names, &name);
    assert!(name.into_ref().resolve(&names).is_none());
    assert!(ServerRef::of_via(Fixed(pid(8))).resolve(&names).unwrap().same(&pid(8)));
    assert!(ServerRef::<Fixed>::of_pid(pid(4)).resolve(&names).unwrap().same(&pid(4)));
    assert!(register_name(&mut names, &Name::via(Fixed(pid(1))), pid(1)).is_err());
    let global: Name<Fixed> = Name::global("g");
    assert!(register_name(&mut names, &global, pid(3)).is_ok());
}

#[test]
fn tagged_dispatch() {
    let bytes = v2::server::call(from(4), &5i32);
    match v2::server::receive(Some(bytes)) {
        v2::server::Turn::Call { tag, payload, .. } => {
            assert_eq!(tag, "i32");
            assert_eq!(call_argument::<i32>(&payload).ok(), Some(5));
        },
        _ => panic!("no call"),
    }
    let (_, bytes) = v2::server::cast(pid(1), &6i32);
    assert!(matches!(
        v2::server::receive(Some(bytes)),
        v2::server::Turn::Cast { .. }
    ));
    let bytes = v2::server::call_raw(from(4), vec![1]);
    assert!(matches!(
        v2::server::receive(Some(bytes)),
        v2::server::Turn::BadCall { .. }
    ));
    let bytes = v2::server::stop(ExitReason::Normal, from(4));
    assert!(matches!(
        v2::server::receive(Some(bytes)),
        v2::server::Turn::Stop { reason: ExitReason::Normal, .. }
    ));
    let mut registry: HandlerRegistry<u8, u8, u8> = HandlerRegistry::new();
    registry.register_call("Get", 1);
    registry.register_call("Get", 2);
    assert_eq!(registry.dispatch_call("Get").ok(), Some(&2));
    match registry.dispatch_call("Put") {
        Err(RawReply::StopNoReply(ExitReason::Error(text))) => {
            assert_eq!(text, "unknown call: Put")
        },
        _ => panic!("handled"),
    }
    assert!(matches!(registry.dispatch_cast("x"), Err(Status::Proceed)));
    assert!(matches!(registry.dispatch_info("x"), Err(Status::Proceed)));
    assert!(matches!(cast_argument::<bool>(&[8]), Err(Status::Stop(_))));
    let all = GlobalRegistry::build(vec![
        HandlerEntry { server: 1, tag: "a".into(), dispatch: 1 },
        HandlerEntry { server: 2, tag: "a".into(), dispatch: 2 },
        HandlerEntry { server: 1, tag: "a".into(), dispatch: 3 },
    ]);
    assert_eq!(all.dispatch(1, "a"), Some(&3));
    assert_eq!(all.dispatch(2, "a"), Some(&2));
    assert_eq!(all.dispatch(2, "b"), None);
}

#[test]
fn raw_replies() {
    let raw = reply_to_raw(Reply::Stop(ExitReason::Shutdown, 9u8));
    let o = v2::server::handle_raw_reply(&from(3), raw);
    assert!(matches!(o.stop, Some(ExitReason::Shutdown)));
    let (_, bytes) = o.send.unwrap();
    match server::wait_for_reply::<u8>(Ref::from_raw(3), Some(bytes)) {
        Some(Ok(v)) => assert_eq!(v, 9),
        _ => panic!("no value"),
    }
    match v2::server::call_not_implemented() {
        RawReply::StopNoReply(ExitReason::Error(text)) => {
            assert_eq!(text, "handle_call not implemented")
        },
        _ => panic!("handled"),
    }
    assert!(matches!(v2::server::bad_cast(), Status::Stop(_)));
    let (to, bytes) = v2::server::reply(&from(3), &7i32);
    assert!(to.same(&pid(1)));
    assert!(matches!(server::wait_for_reply::<i32>(Ref::from_raw(3), Some(bytes)), Some(Ok(7))));
}

#[test]
fn info_messages_may_have_their_tag() {
    let (_, bytes) = server::info(pid(1), &"news".to_string());
    match server::receive(Some(bytes.clone())) {
        server::Turn::Info { raw } => {
            assert_eq!(server::info_request::<String>(&raw), Some("news".to_string()));
        },
        _ => panic!("not taken as an info message"),
    }
    assert_eq!(server::info_request::<String>(&[2, b'h', b'i']), Some("hi".to_string()));
    assert_eq!(server::info_request::<bool>(&[7]), None);
}

struct Noted(std::cell::Cell<u32>);

impl ViaRegistry for &Noted {
    fn register_name(&self, _pid: Pid) -> Result<(), AlreadyRegistered> {
        self.0.set(self.0.get() + 1);
        Ok(())
    }

    fn unregister_name(&self) {
        self.0.set(self.0.get() + 10);
    }

    fn whereis_name(&self) -> Option<Pid> {
        None
    }
}

#[test]
fn other_registries_are_asked() {
    let noted = Noted(std::cell::Cell::new(0));
    let mut names: NameTable<Pid> = NameTable::new();
    let name = Name::via(&noted);
    assert!(register_name(&mut names, &name, pid(1)).is_ok());
    assert_eq!(noted.0.get(), 1);
    unregister_name(&mut names, &name);
    assert_eq!(noted.0.get(), 11);
    assert!(name.into_ref().resolve(&names).is_none());
}

#[test]
fn unreadable_replies_say_why() {
    let reply = |payload: &[u8]| Some(encode_reply(Ref::from_raw(3), payload));
    match server::wait_for_reply::<u32>(Ref::from_raw(3), reply(&[9])) {
        Some(Err(Error::Decode(DecodeError::InvalidData(text)))) => {
            assert_eq!(text, "message too short")
        },
        _ => panic!("read"),
    }
    match server::wait_for_reply::<u32>(Ref::from_raw(3), reply(&[3, 0, b'u', b'3', b'2', 128])) {
        Some(Err(Error::Decode(DecodeError::Postcard(text)))) => {
            assert_eq!(text, "Hit the end of buffer, expected more data")
        },
        _ => panic!("read"),
    }
    match ambitious::gen_server::protocol::Message::decode(&[3, 0, 2]) {
        Err(DecodeError::Postcard(text)) => {
            assert_eq!(text, "Found an Option discriminant that wasn't 0 or 1")
        },
        _ => panic!("read"),
    }
    match ambitious::gen_server::protocol::Message::decode(&[6]) {
        Err(DecodeError::Postcard(text)) => assert_eq!(text, "Serde Deserialization Error"),
        _ => panic!("read"),
    }
    match ambitious::gen_server::protocol::TaggedEnvelope::decode(&[1, 0xff, 0]) {
        Err(DecodeError::Postcard(text)) => assert_eq!(text, "Tried to parse invalid utf-8"),
        _ => panic!("read"),
    }
}
