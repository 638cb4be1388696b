//! The Phoenix protocol over WebSockets.

use ambitious::channel::channels::{ChannelReply, JoinError, RawHandleResult, ReplyStatus};
use ambitious::channel::websocket::{
    admission_payload, convert_result_to_json, event_reply, handle_decoded_message, handle_frame,
    handle_mailbox, info_sends, join_reply, negotiated_version, parse_query_params, DecodedMessage,
    Frame, FrameStep, MailboxStep, PhxMessage, Serializer, SerializerRegistry, V2JsonSerializer,
    WebSocketConfig, WebSocketEndpoint, WsSession, WsStep,
};
use ambitious::process::Pid;
use ambitious::table::Table;
use serde_json::Value;

fn json(text: &str) -> Value {
    serde_json::from_str(text).unwrap()
}

fn pid(id: u64) -> Pid {
    Pid::remote("test@localhost", id, 0)
}

#[test]
fn test_phx_message_parse() {
    let json = json(r#"["join-1", "ref-1", "room:lobby", "phx_join", {"nick": "alice"}]"#);
    let msg = PhxMessage::from_json(&json).unwrap();

    assert_eq!(msg.join_ref, Some("join-1".to_string()));
    assert_eq!(msg.msg_ref, Some("ref-1".to_string()));
    assert_eq!(msg.topic, "room:lobby");
    assert_eq!(msg.event, "phx_join");
    assert_eq!(msg.payload["nick"], "alice");
}

#[test]
fn test_phx_message_serialize() {
    let msg = PhxMessage::new("room:lobby", "new_msg", json(r#"{"text": "hello"}"#))
        .with_join_ref("join-1")
        .with_msg_ref("ref-1");

    let json = msg.to_json();
    let arr = json.as_array().unwrap();

    assert_eq!(arr[0], "join-1");
    assert_eq!(arr[1], "ref-1");
    assert_eq!(arr[2], "room:lobby");
    assert_eq!(arr[3], "new_msg");
    assert_eq!(arr[4]["text"], "hello");
}

#[test]
fn test_phx_message_reply() {
    let msg = PhxMessage::ok_reply(
        Some("join-1".to_string()),
        Some("ref-1".to_string()),
        "room:lobby",
        json(r#"{"users": ["alice", "bob"]}"#),
    );

    assert_eq!(msg.event, "phx_reply");
    assert_eq!(msg.payload["status"], "ok");
    assert_eq!(msg.payload["response"]["users"][0], "alice");
}

#[test]
fn test_phx_message_error_reply() {
    let msg =
        PhxMessage::error_reply(None, Some("ref-1".to_string()), "room:lobby", "not authorized");

    assert_eq!(msg.event, "phx_reply");
    assert_eq!(msg.payload["status"], "error");
    assert_eq!(msg.payload["response"]["reason"], "not authorized");
}

#[test]
fn test_invalid_message_format() {
    let wrong = json(r#"["join-1", "ref-1", "room:lobby", "phx_join"]"#);
    assert!(PhxMessage::from_json(&wrong).is_none());

    let wrong = json(r#"{"topic": "room:lobby"}"#);
    assert!(PhxMessage::from_json(&wrong).is_none());
}

#[test]
fn messages_read_back_from_the_wire() {
    let s = V2JsonSerializer;
    let bytes = s.encode_push(Some("1"), "room:a", "new_msg", br#"{"n":1}"#);
    let msg = s.decode(&bytes).unwrap();
    assert_eq!(msg.join_ref, Some("1".to_string()));
    assert_eq!(msg.msg_ref, None);
    assert_eq!((msg.topic.as_str(), msg.event.as_str()), ("room:a", "new_msg"));
    assert_eq!(msg.payload, br#"{"n":1}"#.to_vec());
    assert!(s.decode(b"nonsense").is_none());
    let reply = s.encode_reply(None, Some("2"), "room:a", "ok", b"{}");
    let v: Value = serde_json::from_slice(&reply).unwrap();
    assert_eq!(v[3], "phx_reply");
    assert_eq!(v[4]["status"], "ok");
    assert_eq!(v[1], "2");
}

#[test]
fn versions_are_negotiated() {
    let registry = SerializerRegistry::new(1).register("x", 2);
    assert_eq!(registry.get(Some("x")), Some(&2));
    assert_eq!(registry.get(Some("unknown")), Some(&1));
    assert_eq!(registry.get(None), Some(&1));
    assert_eq!(registry.versions().len(), 2);
    let registry = registry.default_version("x");
    assert_eq!(registry.get(None), Some(&2));
    let endpoint = WebSocketEndpoint::new(1)
        .config(WebSocketConfig { max_message_size: 5, heartbeat_timeout: 6 })
        .channel("room:*".into())
        .serializer_registry(registry);
    assert_eq!(endpoint.get_serializer(None), Some(&2));
    assert_eq!(endpoint.handlers().len(), 1);
    assert_eq!(endpoint.registry().get(Some("2.0.0")), Some(&1));
    let endpoint = endpoint.serializer(9);
    assert_eq!(endpoint.get_serializer(None), Some(&9));
    assert_eq!(endpoint.get_serializer(Some("2.0.0")), Some(&9));
    assert_eq!(endpoint.get_serializer(Some("default")), Some(&9));
    assert_eq!(endpoint.get_serializer(Some("other")), Some(&9));
    assert_eq!(negotiated_version("/ws?a=b&vsn=2.0.0"), Some("2.0.0".to_string()));
    assert_eq!(negotiated_version("/ws"), None);
    let params = parse_query_params("/ws?a=1&b=2&a=3&c");
    assert_eq!(params.get(&"a".to_string()), Some(&"3".to_string()));
    assert_eq!(params.get(&"c".to_string()), None);
}

fn decoded(event: &str, topic: &str) -> DecodedMessage {
    DecodedMessage {
        join_ref: Some("1".into()),
        msg_ref: Some("2".into()),
        topic: topic.into(),
        event: event.into(),
        payload: b"{}".to_vec(),
    }
}

fn session() -> WsSession {
    let s = V2JsonSerializer;
    let mut session = WsSession::new(pid(1), &vec!["room:*".to_string()]);
    let socket = match handle_decoded_message(&mut session, &s, &decoded("phx_join", "room:a"), 3, 4)
    {
        WsStep::Ask { handler: 0, socket } => socket,
        _ => panic!("join not asked"),
    };
    let (outcome, group) = session.complete_join(socket, Some("1".into()), Ok(None));
    assert!(outcome.is_ok());
    assert_eq!(group, Some("channel:room:a".to_string()));
    session
}

fn parsed(bytes: &[u8]) -> Value {
    serde_json::from_slice(bytes).unwrap()
}

#[test]
fn a_session_joins_and_answers() {
    let s = V2JsonSerializer;
    let mut session = session();
    assert!(session.is_joined("room:a"));
    assert_eq!(session.get_join_ref("room:a"), Some("1".to_string()));
    assert!(matches!(
        handle_decoded_message(&mut session, &s, &decoded("e", "room:a"), 0, 0),
        WsStep::Deliver
    ));
    let (reply, sends, left) = event_reply(
        &mut session,
        &s,
        &decoded("e", "room:a"),
        Some(RawHandleResult::Reply { status: ReplyStatus::Okay, payload: br#"{"x":1}"#.to_vec() }),
        &vec![],
    );
    assert_eq!(parsed(&reply.unwrap())[4]["response"]["x"], 1);
    assert!(sends.is_empty() && left.is_none());
    let (reply, sends, _) = event_reply(
        &mut session,
        &s,
        &decoded("e", "room:a"),
        Some(RawHandleResult::BroadcastFrom { event: "n".into(), payload: vec![] }),
        &vec![pid(1), pid(2)],
    );
    assert_eq!(parsed(&reply.unwrap())[4]["status"], "ok");
    assert_eq!(sends.len(), 1);
    let (reply, _, _) = event_reply(&mut session, &s, &decoded("e", "room:a"), None, &vec![]);
    assert_eq!(parsed(&reply.unwrap())[4]["response"]["reason"], "handler error");
    match handle_decoded_message(&mut session, &s, &decoded("heartbeat", "phoenix"), 0, 0) {
        WsStep::Answer { reply, .. } => assert_eq!(parsed(&reply)[2], "phoenix"),
        _ => panic!("heartbeat not answered"),
    }
    match handle_decoded_message(&mut session, &s, &decoded("phx_leave", "room:a"), 0, 0) {
        WsStep::Answer { left, .. } => assert!(left.is_some()),
        _ => panic!("leave not answered"),
    }
    assert!(!session.is_joined("room:a"));
    assert_eq!(session.terminate().len(), 0);
}

#[test]
fn refused_joins_name_the_reason() {
    let s = V2JsonSerializer;
    let bytes = join_reply(&s, &decoded("phx_join", "room:a"), Err(JoinError::new("full")));
    let v = parsed(&bytes);
    assert_eq!(v[4]["status"], "error");
    assert_eq!(v[4]["response"]["reason"], "full");
}

#[test]
fn frames_and_mailboxes() {
    let s = V2JsonSerializer;
    let session = session();
    let text = br#"["1","2","room:a","e",{}]"#.to_vec();
    assert!(matches!(handle_frame(&s, Frame::Text(text)), FrameStep::Handle(_)));
    assert!(matches!(handle_frame(&s, Frame::Text(vec![1])), FrameStep::Skip));
    assert!(matches!(handle_frame(&s, Frame::Other), FrameStep::Skip));
    assert!(matches!(handle_frame(&s, Frame::Close), FrameStep::Disconnect));
    let push = ChannelReply::Push {
        topic: "room:a".into(),
        event: "n".into(),
        payload: b"{}".to_vec(),
    };
    match handle_mailbox(&session, &s, &push.encode()) {
        MailboxStep::Forward(bytes) => assert_eq!(parsed(&bytes)[3], "n"),
        _ => panic!("push not forwarded"),
    }
    assert!(matches!(handle_mailbox(&session, &s, &[250]), MailboxStep::Inform));
    let sends = info_sends(
        "room:a",
        RawHandleResult::Broadcast { event: "n".into(), payload: vec![] },
        &vec![pid(1), pid(2)],
    );
    assert_eq!(sends.len(), 2);
    assert_eq!(admission_payload(br#"{"a":1}"#), br#"{"a":1}"#.to_vec());
    let r = convert_result_to_json(
        RawHandleResult::Push { event: "e".into(), payload: vec![1] },
        Some(b"{}".to_vec()),
    );
    match r {
        RawHandleResult::Push { payload, .. } => assert_eq!(payload, b"{}".to_vec()),
        _ => panic!("another result"),
    }
}

#[test]
fn events_need_a_join() {
    let s = V2JsonSerializer;
    let mut session = WsSession::new(pid(1), &vec!["room:*".to_string()]);
    match handle_decoded_message(&mut session, &s, &decoded("e", "room:a"), 0, 0) {
        WsStep::Answer { reply, left } => {
            assert_eq!(parsed(&reply)[4]["status"], "error");
            assert_eq!(parsed(&reply)[4]["response"]["reason"], "not joined");
            assert!(left.is_none());
        },
        _ => panic!("delivered"),
    }
}

#[test]
fn refusals_of_handlers_are_handed_on() {
    let mut s = session();
    let (_, socket) = s.handle_join("room:b", 1, 2).ok().unwrap();
    let mut details: Table<String, String> = Table::new();
    details.insert("limit".into(), "7".into());
    let error = JoinError::new("full").with_details(details);
    let (outcome, group) = s.complete_join(socket, None, Err(error));
    let e = outcome.err().unwrap();
    assert_eq!(e.reason, "full");
    assert_eq!(e.details.unwrap().get(&"limit".to_string()), Some(&"7".to_string()));
    assert!(group.is_none());
}
