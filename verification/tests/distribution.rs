//! Nodes that exchange messages.

use ambitious::distribution::action::Action;
use ambitious::distribution::erlang::{
    deliver_etf_to_local, extract_atom_name, extract_local_pid, handle_erlang_incoming,
    send_to_erlang, ControlMessage, ErlangConfig, ErlangIds, ErlangPid, ErlangStep,
};
use ambitious::distribution::layer;
use ambitious::distribution::manager::{
    ConnectionState, DistributionManager, NodeInfo, NodeType, SendStep, HEARTBEAT_TIMEOUT,
};
use ambitious::distribution::protocol::{frame_message, DistError, DistMessage};
use ambitious::distribution::spawn::{execute_spawn, SpawnRegistry};
use ambitious::distribution::tcp_transport::{Chunk, ReadBuffer};
use ambitious::distribution::traits::{PostcardProtocol, Protocol, TransportType};
use ambitious::message::encode_etf_unit;
use ambitious::process::{Pid, Ref};
use ambitious::table::Key;
use erltf::types::{Atom, ExternalPid};
use erltf::OwnedTerm;

fn pid(node: &str, id: u64) -> Pid {
    Pid::remote(node, id, 0)
}

#[test]
fn test_postcard_protocol_roundtrip() {
    let protocol = PostcardProtocol;
    let msg = DistMessage::Ping { seq: 42 };

    let encoded = protocol.encode(&msg).unwrap();
    let decoded = protocol.decode(&encoded).unwrap();

    match decoded {
        DistMessage::Ping { seq } => assert_eq!(seq, 42),
        _ => panic!("wrong message type"),
    }
}

#[test]
fn test_postcard_protocol_framing() {
    let protocol = PostcardProtocol;
    let msg = DistMessage::Pong { seq: 123 };

    let encoded = protocol.encode(&msg).unwrap();
    let framed = protocol.frame(encoded);

    let (decoded, consumed) = protocol.parse_frame(&framed).unwrap().unwrap();
    assert_eq!(consumed, framed.len());

    match decoded {
        DistMessage::Pong { seq } => assert_eq!(seq, 123),
        _ => panic!("wrong message type"),
    }
}

#[test]
fn test_register_and_lookup() {
    let mut registry: SpawnRegistry<u8> = SpawnRegistry::new();
    registry.register("test_module", "test_func", 0);

    assert!(registry.contains("test_module", "test_func"));
    assert!(!registry.contains("test_module", "other_func"));
    assert!(!registry.contains("other_module", "test_func"));
}

#[test]
fn test_unregister() {
    let mut registry: SpawnRegistry<u8> = SpawnRegistry::new();
    registry.register("unregister_test", "func", 0);
    assert!(registry.contains("unregister_test", "func"));

    assert!(registry.unregister("unregister_test", "func"));
    assert!(!registry.contains("unregister_test", "func"));

    assert!(!registry.unregister("unregister_test", "func"));
}

#[test]
fn test_registry_get_returns_callable() {
    let mut registry: SpawnRegistry<fn(Vec<u8>)> = SpawnRegistry::new();
    fn hello(args: Vec<u8>) {
        assert_eq!(args, vec![1, 2, 3]);
    }
    registry.register("callable_test", "hello", hello);

    let func = registry.get("callable_test", "hello");
    assert!(func.is_some());
    func.unwrap()(vec![1, 2, 3]);

    assert!(registry.get("callable_test", "nonexistent").is_none());
}

#[test]
fn test_registry_contains() {
    let mut registry: SpawnRegistry<u8> = SpawnRegistry::new();
    registry.register("contains_test", "exists", 0);

    assert!(registry.contains("contains_test", "exists"));
    assert!(!registry.contains("contains_test", "not_exists"));
    assert!(!registry.contains("wrong_module", "exists"));
}

#[test]
fn test_multiple_functions_same_module() {
    let mut registry: SpawnRegistry<u8> = SpawnRegistry::new();
    registry.register("multi_func", "func1", 0);
    registry.register("multi_func", "func2", 0);
    registry.register("multi_func", "func3", 0);

    assert!(registry.contains("multi_func", "func1"));
    assert!(registry.contains("multi_func", "func2"));
    assert!(registry.contains("multi_func", "func3"));

    registry.unregister("multi_func", "func2");
    assert!(registry.contains("multi_func", "func1"));
    assert!(!registry.contains("multi_func", "func2"));
    assert!(registry.contains("multi_func", "func3"));
}

#[test]
fn test_register_overwrites_existing() {
    let mut registry: SpawnRegistry<u8> = SpawnRegistry::new();
    registry.register("overwrite_test", "func", 1);
    registry.register("overwrite_test", "func", 2);

    assert!(registry.contains("overwrite_test", "func"));
    assert_eq!(registry.get("overwrite_test", "func"), Some(&2));
}

#[test]
fn test_execute_spawn_not_registered() {
    let registry: SpawnRegistry<u8> = SpawnRegistry::new();
    let result = execute_spawn(&registry, "nonexistent", "func", None, None, Ref::from_raw(1));
    assert!(result.is_err());
    assert!(result.unwrap_err().contains("not registered for remote spawn"));
}

#[test]
fn spawned_functions_hand_back_their_process() {
    let mut registry: SpawnRegistry<u8> = SpawnRegistry::new();
    registry.register("m", "f", 0);
    let p = pid("a", 5);
    let (got, reference) =
        execute_spawn(&registry, "m", "f", Some(p.clone()), Some(pid("b", 1)), Ref::from_raw(8))
            .unwrap();
    assert!(got.same(&p));
    assert_eq!(reference.unwrap().as_raw(), 8);
    let none = execute_spawn(&registry, "m", "f", None, None, Ref::from_raw(8));
    assert_eq!(none.unwrap_err(), "runtime not available");
}

fn connected() -> DistributionManager {
    let mut m = DistributionManager::new("a@h".into(), 1);
    let info = NodeInfo { name: "b@h".into(), addr: Some("1.2.3.4:9".into()), creation: 2 };
    let (r, _) = m.connected(info, "1.2.3.4:9", 77, 1000);
    assert_eq!(r.ok(), Some("b@h".to_string()));
    m
}

#[test]
fn handshakes() {
    let m = DistributionManager::new("a@h".into(), 1);
    match m.connect_to("x:1").ok() {
        Some(DistMessage::Hello { node_name, creation }) => {
            assert_eq!((node_name.as_str(), creation), ("a@h", 1))
        },
        _ => panic!("no hello"),
    }
    let info = DistributionManager::perform_handshake(
        DistMessage::Welcome { node_name: "b@h".into(), creation: 2 },
        "1.2.3.4:9",
    );
    assert_eq!(info.ok().unwrap().name, "b@h");
    assert!(matches!(
        DistributionManager::perform_handshake(DistMessage::Ping { seq: 1 }, "x"),
        Err(DistError::Handshake(_))
    ));
    let mut m = connected();
    let (r, _) = m.handle_incoming_connection(DistMessage::Hello {
        node_name: "c@h".into(),
        creation: 4,
    });
    let (node, creation, welcome) = r.ok().unwrap();
    assert_eq!((node.as_str(), creation), ("c@h", 4));
    assert!(matches!(welcome, DistMessage::Welcome { .. }));
    let _ = m.accepted(node, creation, "5.6.7.8:1", 78, 1000);
    assert_eq!(m.native_nodes(), vec!["b@h", "c@h"]);
    assert!(matches!(
        m.connect_to("1.2.3.4:9"),
        Err(DistError::AlreadyConnected(_))
    ));
}

#[test]
fn messages_for_other_nodes_are_queued() {
    let mut m = connected();
    match m.send_to_remote(pid("b@h", 3), None, vec![1]) {
        SendStep::Queue { connection, msg } => {
            assert_eq!(connection, 77);
            assert!(matches!(msg, DistMessage::Send { .. }));
        },
        _ => panic!("refused"),
    }
    assert!(matches!(
        m.send_to_remote(pid("z@h", 3), None, vec![1]),
        SendStep::Refused { error: DistError::NotConnected(_), reconnect: None }
    ));
    let (r, actions) = m.disconnect_from("b@h");
    assert!(r.is_ok());
    assert!(matches!(actions[0], Action::Close { connection: 77, .. }));
    match m.send_to_remote(pid("b@h", 3), None, vec![1]) {
        SendStep::Refused { reconnect, .. } => assert_eq!(reconnect, Some("1.2.3.4:9".into())),
        _ => panic!("queued"),
    }
    assert!(m.try_reconnect("b@h").is_none());
    m.reconnect_done("b@h");
    assert!(m.try_reconnect("b@h").is_some());
}

#[test]
fn pings_are_answered_and_pongs_wake() {
    let mut m = connected();
    let actions = m.handle_incoming_message("b@h", DistMessage::Ping { seq: 9 }, None, 2000);
    match &actions[0] {
        Action::Transmit { connection, msg: DistMessage::Pong { seq } } => {
            assert_eq!((*connection, *seq), (77, 9))
        },
        _ => panic!("not answered"),
    }
    m.register_ping("b@h", 4, 12);
    let actions = m.handle_incoming_message("b@h", DistMessage::Pong { seq: 4 }, None, 2000);
    assert!(matches!(actions[0], Action::PongReceived { waiter: 12 }));
    let actions = m.handle_incoming_message("b@h", DistMessage::Pong { seq: 4 }, None, 2000);
    assert!(actions.is_empty());
    let local = m.handle_incoming_message(
        "b@h",
        DistMessage::Send { to: pid("a@h", 1), from: None, payload: vec![5] },
        None,
        2000,
    );
    assert!(matches!(local[0], Action::Deliver { .. }));
    let dead = m.handle_incoming_message(
        "b@h",
        DistMessage::MonitorProcess { from: pid("b@h", 1), target: pid("a@h", 2), reference: 3 },
        Some(false),
        2000,
    );
    assert_eq!(dead.len(), 3);
}

#[test]
fn silent_nodes_are_dropped() {
    let mut m = connected();
    let (actions, seq) = m.heartbeat(1000 + HEARTBEAT_TIMEOUT, 5);
    assert!(matches!(
        actions[0],
        Action::Transmit { connection: 77, msg: DistMessage::Ping { seq: 5 } }
    ));
    assert_eq!(seq, 6);
    let (actions, seq) = m.heartbeat(1001 + HEARTBEAT_TIMEOUT, 6);
    assert!(matches!(actions[0], Action::Close { connection: 77, .. }));
    assert_eq!(seq, 6);
    assert!(m.connected_nodes().is_empty());
}

#[test]
fn replaced_connections_survive() {
    let mut m = connected();
    assert!(matches!(m.connection_state("b@h", "1.2.3.4:9"), ConnectionState::Ours(77)));
    assert!(matches!(m.connection_state("b@h", "other"), ConnectionState::Replaced));
    assert!(matches!(m.connection_state("z", "other"), ConnectionState::Gone));
    assert!(m.connection_ended("b@h", "other").is_empty());
    assert_eq!(m.native_nodes().len(), 1);
    assert!(!m.connection_ended("b@h", "1.2.3.4:9").is_empty());
    assert_eq!(m.native_nodes().len(), 0);
}

#[test]
fn erlang_nodes_are_told_apart() {
    let mut m = connected();
    assert!(m.connect_erlang("e@h").is_ok());
    m.erlang_connected("e@h");
    assert_eq!(m.node_type("e@h"), Some(NodeType::Erlang));
    assert_eq!(m.node_type("b@h"), Some(NodeType::Native));
    assert_eq!(m.node_type("z"), None);
    assert!(matches!(m.connect_erlang("e@h"), Err(DistError::AlreadyConnected(_))));
    assert!(send_to_erlang(&m, &pid("e@h", 1), &encode_etf_unit("x")).is_ok());
    assert!(matches!(
        send_to_erlang(&m, &pid("e@h", 1), &[1]),
        Err(DistError::Decode(_))
    ));
    assert!(matches!(
        send_to_erlang(&m, &pid("b@h", 1), &[1]),
        Err(DistError::NotConnected(_))
    ));
    let mut l = Some(m);
    assert!(layer::is_beam_node(&l, "e@h"));
    assert!(layer::send_to_beam(&l, &pid("e@h", 1), &encode_etf_unit("x")).is_ok());
    assert_eq!(layer::nodes(&l).len(), 2);
    assert_eq!(layer::node_info(&l, "b@h").unwrap().creation, 2);
    assert!(layer::disconnect(&mut l, "b@h").0.is_ok());
    assert_eq!(layer::nodes(&l), vec!["e@h"]);
    let mut none: Option<DistributionManager> = None;
    assert!(layer::nodes(&none).is_empty());
    assert!(matches!(layer::disconnect(&mut none, "b@h").0, Err(DistError::NotInitialized)));
    assert!(matches!(
        layer::send_remote(&mut none, pid("b@h", 1), None, vec![]),
        SendStep::Refused { error: DistError::NotInitialized, .. }
    ));
    match layer::send_to_beam(&l, &pid("e@h", 1), &[1]) {
        Err(DistError::Decode(text)) => assert!(text.starts_with("ETF decode error: ")),
        _ => panic!("read"),
    }
    let (stopped, actions) = ambitious::node::stop(&mut l);
    assert!(stopped.is_ok());
    assert!(matches!(&actions[0], Action::CloseErlang { node } if node == "e@h"));
    assert_eq!(actions.len(), 4);
    assert!(layer::nodes(&l).is_empty());
    let (stopped, actions) = ambitious::node::stop(&mut none);
    assert!(matches!(stopped, Err(DistError::NotInitialized)));
    assert!(actions.is_empty());
    if let Some(m) = l.as_mut() {
        assert!(!m.is_erlang_connected("e@h"));
        m.erlang_connected("e@h");
        m.erlang_disconnected("e@h");
        assert!(!m.is_erlang_connected("e@h"));
    }
}

#[test]
fn erlang_messages_find_their_process() {
    let name = erltf::decode(&encode_etf_unit("worker")).unwrap();
    assert_eq!(extract_atom_name(&name), Some("worker".to_string()));
    assert!(extract_local_pid(&name, "a@h", 1).is_none());
    let theirs = ExternalPid::new(Atom::new("e@h"), 7, 0, 3);
    let ours = extract_local_pid(&OwnedTerm::Pid(theirs), "a@h", 1).unwrap();
    assert_eq!((ours.node(), ours.id(), ours.creation()), ("a@h", 7, 1));
    let bytes = deliver_etf_to_local(&name).unwrap();
    assert_eq!(bytes, encode_etf_unit("worker"));
    match handle_erlang_incoming(
        ControlMessage::RegSend { to_name: name.clone() },
        Some(name.clone()),
        "a@h",
        1,
    ) {
        ErlangStep::Lookup { name, .. } => assert_eq!(name, "worker"),
        _ => panic!("not looked up"),
    }
    assert!(matches!(
        handle_erlang_incoming(ControlMessage::Send { to_pid: name }, None, "a@h", 1),
        ErlangStep::Ignore
    ));
    let config = ErlangConfig::new("a@h", "e@h", "SECRET-REDACTED").with_timeout(9);
    assert_eq!(config.timeout_secs, 9);
    let mut ids = ErlangIds::new("a@h");
    let first = ids.allocate_pid();
    let second = ids.allocate_pid();
    assert_ne!(first.id, second.id);
    let p = ErlangPid::from_ambitious(&pid("a@h", 300), "a@h", 2);
    assert_eq!((p.id, p.serial, p.creation), (300, 0, 2));
}

#[test]
fn messages_come_out_of_a_stream() {
    let a = frame_message(&DistMessage::Ping { seq: 1 });
    let b = frame_message(&DistMessage::Pong { seq: 2 });
    let mut all = a.clone();
    all.extend_from_slice(&b);
    let mut buffer = ReadBuffer::new();
    for byte in &all[..all.len() - 1] {
        buffer.feed(Chunk::Data(vec![*byte])).unwrap();
    }
    assert!(matches!(buffer.next_message().unwrap(), Some(DistMessage::Ping { seq: 1 })));
    assert!(buffer.next_message().unwrap().is_none());
    buffer.feed(Chunk::Data(vec![all[all.len() - 1]])).unwrap();
    assert!(matches!(buffer.next_message().unwrap(), Some(DistMessage::Pong { seq: 2 })));
    assert!(matches!(buffer.feed(Chunk::Data(vec![])), Err(DistError::ConnectionClosed)));
    assert!(matches!(buffer.feed(Chunk::Failed("x".into())), Err(DistError::Io(_))));
    assert_eq!(TransportType::default(), TransportType::Quic);
    assert_eq!(&a[..4], &[0, 0, 0, (a.len() - 4) as u8]);
}

#[test]
fn messages_that_cannot_be_read_say_why() {
    let fault = |bytes: &[u8]| match PostcardProtocol.decode(bytes) {
        Err(DistError::Decode(text)) => text,
        _ => panic!("read"),
    };
    let end = "Hit the end of buffer, expected more data";
    assert_eq!(fault(&[]), end);
    assert_eq!(fault(&[18]), "Serde Deserialization Error");
    assert_eq!(fault(&[0, 1, 0xff, 0]), "Tried to parse invalid utf-8");
    assert_eq!(fault(&[0, 1, b'a']), end);
    assert_eq!(
        fault(&[3, 255, 255, 255, 255, 255, 255, 255, 255, 255, 255]),
        "Found a varint that didn't terminate. Is the usize too big for this platform?"
    );
    assert_eq!(fault(&[2, 1, b'a', 1, 0, 7]), "Found an Option discriminant that wasn't 0 or 1");
    assert_eq!(fault(&[2, 1, b'a', 1, 0, 0, 5, 1]), end);
    let mut buffer = ReadBuffer::new();
    buffer.feed(Chunk::Data(vec![0, 0, 0, 1, 18])).unwrap();
    match buffer.next_message() {
        Err(DistError::Decode(text)) => assert_eq!(text, "Serde Deserialization Error"),
        _ => panic!("read"),
    }
}
