//! Nodes.

use ambitious::distribution::layer;
use ambitious::distribution::manager::{advance, DistributionManager, NodeInfo};
use ambitious::distribution::protocol::{DistError, DistMessage};
use ambitious::node::{
    current, current_atom, is_alive, list, ping, ping_result, spawn_monitor_result, spawn_request,
    spawn_result, stop, ListOption, PingResult, SpawnAnswer, SpawnRequest, Waited, SPAWN_TIMEOUT,
};
use ambitious::process::Pid;

fn pid(id: u64) -> Pid {
    Pid::remote("a@h", id, 0)
}

#[test]
fn test_not_alive_without_distribution() {
    assert!(!is_alive(&None));
    assert!(current(&None).is_none());
    assert_eq!(current_atom(&None), "");
    assert!(is_alive(&Some("a@h".into())));
}

#[test]
fn test_list_option_default() {
    let none: Option<DistributionManager> = None;
    let nodes = list(ListOption::Connected, layer::nodes(&none), current_atom(&None));
    assert!(nodes.is_empty());
}

#[test]
fn test_ping_result_enum() {
    assert_eq!(PingResult::Pong, PingResult::Pong);
    assert_ne!(PingResult::Pong, PingResult::Pang);
}

#[test]
fn test_spawn_timeout_constant() {
    assert_eq!(SPAWN_TIMEOUT, 30 * 1000);
}

#[test]
fn test_spawn_seq_counter_increments() {
    let first: u64 = 0;
    let second = advance(first);
    assert_eq!(second, first + 1);
}

fn request() -> SpawnRequest {
    SpawnRequest {
        module: "mod".into(),
        function: "func".into(),
        args: vec![],
        link: false,
        monitor: false,
    }
}

#[test]
fn test_spawn_without_distribution() {
    let result = spawn_request(None, "remote@host", 1, pid(1), request());
    assert!(matches!(result, Err(DistError::NotInitialized)));
}

#[test]
fn test_spawn_link_without_distribution() {
    let mut linked = request();
    linked.link = true;
    let result = spawn_request(None, "remote@host", 1, pid(1), linked);
    assert!(matches!(result, Err(DistError::NotInitialized)));
}

#[test]
fn test_spawn_monitor_without_distribution() {
    let mut monitored = request();
    monitored.monitor = true;
    let result = spawn_request(None, "remote@host", 1, pid(1), monitored);
    assert!(matches!(result, Err(DistError::NotInitialized)));
}

#[test]
fn spawning_needs_a_connection() {
    let m = DistributionManager::new("a@h".into(), 1);
    let none = spawn_request(Some(&m), "remote@host", 1, pid(1), request());
    assert!(matches!(none, Err(DistError::NotConnected(_))));
}

fn connected() -> DistributionManager {
    let mut m = DistributionManager::new("a@h".into(), 1);
    let info = NodeInfo { name: "b@h".into(), addr: Some("x:1".into()), creation: 2 };
    let _ = m.connected(info, "x:1", 5, 0);
    m
}

#[test]
fn spawning_on_a_connected_node() {
    let m = connected();
    let (connection, msg) = spawn_request(Some(&m), "b@h", 3, pid(1), request()).ok().unwrap();
    assert_eq!(connection, 5);
    assert!(matches!(msg, DistMessage::Spawn { reference: 3, .. }));
    let answer = SpawnAnswer { pid: Some(pid(4)), monitor_ref: Some(6), error: None };
    let done = spawn_result(Waited::Answered(answer));
    let (p, reference) = spawn_monitor_result(done).ok().unwrap();
    assert_eq!((p.id(), reference.as_raw()), (4, 6));
    match spawn_result(Waited::TimedOut) {
        Err(DistError::Connect(text)) => assert_eq!(text, "spawn request timed out"),
        _ => panic!("spawned"),
    }
    let empty = SpawnAnswer { pid: None, monitor_ref: None, error: None };
    match spawn_result(Waited::Answered(empty)) {
        Err(DistError::Connect(text)) => assert_eq!(text, "spawn returned no PID"),
        _ => panic!("spawned"),
    }
}

#[test]
fn pings() {
    let mut m = connected();
    let (connection, msg) = ping(&mut m, "b@h", 8, 1).unwrap();
    assert_eq!(connection, 5);
    assert!(matches!(msg, DistMessage::Ping { seq: 8 }));
    assert!(ping(&mut m, "z@h", 9, 1).is_none());
    assert_eq!(ping_result(Some(Waited::Answered(()))), PingResult::Pong);
    assert_eq!(ping_result(Some(Waited::Dropped)), PingResult::Pang);
    assert_eq!(ping_result(None), PingResult::Pang);
    assert_eq!(m.complete_ping("b@h", 8), Some(1));
    let visible = list(ListOption::Visible, m.connected_nodes(), "a@h".into());
    assert_eq!(visible, vec!["b@h", "a@h"]);
    assert!(list(ListOption::Hidden, m.connected_nodes(), "a@h".into()).is_empty());
    let mut layer = Some(m);
    let (stopped, actions) = stop(&mut layer);
    assert!(stopped.is_ok());
    assert!(!actions.is_empty());
    assert!(layer.unwrap().connected_nodes().is_empty());
    assert!(matches!(stop(&mut None), (Err(DistError::NotInitialized), _)));
}
