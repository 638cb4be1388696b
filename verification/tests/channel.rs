//! Channels, their server and their transports.

use ambitious::channel::channels::{
    broadcast, broadcast_from, handle_result_to_raw, push, topic_group, topic_matches,
    topic_wildcard, ChannelReply, HandleResult, JoinError, RawHandleResult, ReplyStatus, Socket,
};
use ambitious::channel::server::{ChannelServer, ChannelServerBuilder, JoinStep};
use ambitious::channel::transport::{
    event_reply, forward, handle_message, join_reply, request_of, MessageStep, Request,
    TransportBuilder, TransportConfig, TransportMessage, TransportReply,
};
use ambitious::process::Pid;
use ambitious::table::{Key, Table};

fn pid(id: u64) -> Pid {
    Pid::remote("test@localhost", id, 0)
}

fn message(event: &str, topic: &str) -> TransportMessage {
    TransportMessage {
        join_ref: Some("j".into()),
        msg_ref: Some("7".into()),
        topic: topic.into(),
        event: event.into(),
        payload: vec![],
    }
}

#[test]
fn test_topic_matches_exact() {
    assert!(topic_matches("room:lobby", "room:lobby"));
    assert!(!topic_matches("room:lobby", "room:other"));
}

#[test]
fn test_topic_matches_wildcard() {
    assert!(topic_matches("room:*", "room:lobby"));
    assert!(topic_matches("room:*", "room:123"));
    assert!(topic_matches("room:*", "room:"));
    assert!(!topic_matches("room:*", "user:123"));
}

#[test]
fn test_topic_wildcard_extraction() {
    assert_eq!(topic_wildcard("room:*", "room:lobby"), Some("lobby"));
    assert_eq!(topic_wildcard("room:*", "room:123"), Some("123"));
    assert_eq!(topic_wildcard("room:lobby", "room:lobby"), None);
}

#[test]
fn test_join_error() {
    let err = JoinError::new("unauthorized");
    assert_eq!(err.reason, "unauthorized");
    assert!(err.details.is_none());

    let mut details: Table<String, String> = Table::new();
    details.insert("code".to_string(), "403".to_string());
    let err = err.with_details(details);
    assert!(err.details.is_some());
}

#[test]
fn test_transport_config_builder() {
    let config = TransportConfig::new()
        .recv_timeout(50)
        .heartbeat_interval(60 * 1000)
        .max_message_size(128 * 1024);

    assert_eq!(config.recv_timeout, 50);
    assert_eq!(config.heartbeat_interval, Some(60 * 1000));
    assert_eq!(config.max_message_size, Some(128 * 1024));
}

#[test]
fn test_transport_builder() {
    let config = TransportBuilder::new()
        .heartbeat_interval(45 * 1000)
        .max_message_size(32 * 1024)
        .build();

    assert_eq!(config.heartbeat_interval, Some(45 * 1000));
    assert_eq!(config.max_message_size, Some(32 * 1024));
}

#[test]
fn replies_read_back() {
    let reply = ChannelReply::JoinError { msg_ref: "1".into(), reason: "no".into() };
    match ChannelReply::decode(&reply.encode()) {
        Some(ChannelReply::JoinError { msg_ref, reason }) => {
            assert_eq!(msg_ref, "1");
            assert_eq!(reason, "no");
        },
        _ => panic!("another reply"),
    }
    assert!(ChannelReply::decode(&[200, 1]).is_none());
}

#[test]
fn broadcasts_reach_the_members() {
    let socket = Socket::new(pid(1), "room:a", 5, 6);
    let members = vec![pid(1), pid(2), pid(3)];
    assert_eq!(broadcast(&socket, "e", vec![1], &members).len(), 3);
    let others = broadcast_from(&socket, "e", vec![1], &members);
    assert_eq!(others.len(), 2);
    assert!(others[0].0.same(&pid(2)));
    let (to, bytes) = push(&socket, "e", vec![9]);
    assert!(to.same(&pid(1)));
    match ChannelReply::decode(&bytes) {
        Some(ChannelReply::Push { topic, event, payload }) => {
            assert_eq!((topic.as_str(), event.as_str()), ("room:a", "e"));
            assert_eq!(payload, vec![9]);
        },
        _ => panic!("another reply"),
    }
    assert_eq!(topic_group("room:a"), "channel:room:a");
}

#[test]
fn handler_results_become_raw() {
    let r = handle_result_to_raw(HandleResult::Reply {
        status: ReplyStatus::Error,
        payload: Some(vec![3]),
    });
    assert!(matches!(r, RawHandleResult::Reply { status: ReplyStatus::Error, .. }));
    assert!(matches!(handle_result_to_raw(HandleResult::NoReply), RawHandleResult::NoReply));
}

fn joined() -> ChannelServer {
    let mut server = ChannelServerBuilder::new().channel("room:*".into()).build(pid(1));
    let socket = match server.handle_join("room:a", "1".into(), 10, 11) {
        JoinStep::Ask { handler, socket } => {
            assert_eq!(handler, 0);
            socket
        },
        JoinStep::Refused(_) => panic!("refused"),
    };
    let (reply, group) = server.complete_join(socket, "1".into(), Ok(Some(vec![4])));
    assert!(matches!(reply, ChannelReply::JoinOk { .. }));
    assert_eq!(group, Some("channel:room:a".to_string()));
    server
}

#[test]
fn joining_and_leaving_a_topic() {
    let mut server = joined();
    assert!(server.is_joined("room:a"));
    assert_eq!(server.joined_topics(), vec!["room:a"]);
    match server.handle_join("room:a", "2".into(), 0, 0) {
        JoinStep::Refused(ChannelReply::JoinError { reason, .. }) => {
            assert_eq!(reason, "already joined")
        },
        _ => panic!("joined twice"),
    }
    match server.handle_join("user:a", "2".into(), 0, 0) {
        JoinStep::Refused(ChannelReply::JoinError { reason, .. }) => {
            assert_eq!(reason, "no handler for topic: user:a")
        },
        _ => panic!("joined without a handler"),
    }
    assert!(server.handle_leave("room:a").is_some());
    assert!(!server.is_joined("room:a"));
    assert!(server.handle_leave("room:a").is_none());
    assert_eq!(server.terminate().len(), 0);
}

#[test]
fn a_refused_join_changes_nothing() {
    let mut server = ChannelServerBuilder::new().channel("room:*".into()).build(pid(1));
    let socket = Socket::new(pid(1), "room:a", 0, 0);
    let (reply, group) = server.complete_join(socket, "1".into(), Err(JoinError::new("full")));
    assert!(matches!(reply, ChannelReply::JoinError { .. }));
    assert!(group.is_none());
    assert!(!server.is_joined("room:a"));
}

#[test]
fn events_are_answered_and_broadcast() {
    let mut server = joined();
    let members = vec![pid(1), pid(2)];
    let o = server.handle_event(
        "room:a",
        "5".into(),
        RawHandleResult::Reply { status: ReplyStatus::Okay, payload: vec![1] },
        &members,
    );
    match o.reply {
        Some(ChannelReply::Reply { msg_ref, status, payload }) => {
            assert_eq!((msg_ref.as_str(), status.as_str()), ("5", "ok"));
            assert_eq!(payload, vec![1]);
        },
        _ => panic!("no reply"),
    }
    let o = server.handle_event(
        "room:a",
        "6".into(),
        RawHandleResult::Broadcast { event: "e".into(), payload: vec![] },
        &members,
    );
    assert_eq!(o.sends.len(), 2);
    let o = server.handle_event(
        "room:a",
        "7".into(),
        RawHandleResult::Stop { reason: "over".into() },
        &members,
    );
    assert!(o.left.is_some());
    assert!(!server.is_joined("room:a"));
}

#[test]
fn requests_are_told_apart() {
    assert_eq!(request_of("phx_join", "t"), Request::Join);
    assert_eq!(request_of("phx_leave", "t"), Request::Leave);
    assert_eq!(request_of("heartbeat", "phoenix"), Request::Heartbeat);
    assert_eq!(request_of("heartbeat", "t"), Request::Event);
    assert_eq!(request_of("new_msg", "t"), Request::Event);
}

#[test]
fn transport_answers() {
    let mut server = TransportConfig::new().with_handler("room:*".into()).build_server(pid(1));
    match handle_message(&mut server, &message("heartbeat", "phoenix"), 0, 0) {
        MessageStep::Answer { reply: TransportReply::Reply { status, topic, msg_ref, .. }, .. } => {
            assert_eq!((status.as_str(), topic.as_str()), ("ok", "phoenix"));
            assert_eq!(msg_ref, Some("7".to_string()));
        },
        _ => panic!("heartbeat not answered"),
    }
    assert!(matches!(
        handle_message(&mut server, &message("phx_join", "room:a"), 0, 0),
        MessageStep::Ask { handler: 0, .. }
    ));
    assert!(matches!(
        handle_message(&mut server, &message("e", "room:a"), 0, 0),
        MessageStep::Ignore
    ));
    match handle_message(&mut server, &message("phx_join", "user:a"), 0, 0) {
        MessageStep::Answer { reply: TransportReply::Reply { status, payload, .. }, .. } => {
            assert_eq!(status, "error");
            assert_eq!(payload, br#"{"reason":"no handler for topic: user:a"}"#.to_vec());
        },
        _ => panic!("join not refused"),
    }
    let r = join_reply(
        &message("phx_join", "room:a"),
        ChannelReply::JoinOk { msg_ref: "7".into(), payload: None },
    );
    match r {
        TransportReply::Reply { status, payload, .. } => {
            assert_eq!(status, "ok");
            assert_eq!(payload, b"{}".to_vec());
        },
        _ => panic!("no reply"),
    }
    let mut server = joined();
    let (reply, sends, left) = event_reply(
        &mut server,
        &message("e", "room:a"),
        RawHandleResult::Push { event: "p".into(), payload: vec![2] },
        &vec![],
    );
    assert!(matches!(reply, Some(TransportReply::Push { .. })));
    assert!(sends.is_empty() && left.is_none());
    let pushed = ChannelReply::Push { topic: "t".into(), event: "e".into(), payload: vec![] };
    assert!(matches!(forward(&pushed.encode()), Some(TransportReply::Push { .. })));
    assert!(forward(&[255]).is_none());
}
