//! Publish and subscribe.

use ambitious::gen_server::server::{receive, Turn};
use ambitious::message::{decode_tag, Message};
use ambitious::process::Pid;
use ambitious::pubsub::server;
use ambitious::pubsub::server::{
    Broadcast, ForwardBroadcast, GetLocalSubscribers, GetSubscribers, GroupChange, LocalBroadcast,
    PubSub, PubSubConfig, Subscribe, Unsubscribe, UnsubscribeAll,
};
use ambitious::pubsub::server_v3;
use ambitious::pubsub::server_v3::{PubSubCall, PubSubCast, PubSubReply};
use ambitious::table::Key;

fn pid(node: &str, id: u64) -> Pid {
    Pid::remote(node, id, 0)
}

#[test]
fn server_test_pubsub_config() {
    let config = PubSubConfig::new("test");
    assert_eq!(config.name, "test");
}

#[test]
fn server_v3_test_pubsub_config() {
    let config = PubSubConfig::new("test");
    assert_eq!(config.name, "test");
}

#[test]
fn subscribers_get_broadcasts() {
    let (mut s, first) = PubSub::init(PubSubConfig::new("p"));
    assert_eq!(decode_tag(&first).unwrap().0, "CompleteInit");
    let start = s.complete_init(pid("here", 1));
    assert_eq!((start.group.as_str(), start.name.as_str()), ("pubsub:p", "p"));
    s.handle_subscribe(Subscribe { topic: "t".into(), pid: pid("here", 2) }, "here");
    s.handle_subscribe(Subscribe { topic: "t".into(), pid: pid("here", 3) }, "here");
    s.handle_subscribe(Subscribe { topic: "t".into(), pid: pid("there", 4) }, "here");
    s.handle_subscribe(Subscribe { topic: "u".into(), pid: pid("here", 3) }, "here");
    let found = s.handle_get_local_subscribers(&GetLocalSubscribers { topic: "t".into() });
    assert_eq!(found.pids.len(), 2);
    assert_eq!(s.subscribers_group("t"), "pubsub:p:t");
    let get = GetSubscribers { topic: "t".into() };
    let all = s.handle_get_subscribers(&get, &vec![pid("here", 2), pid("there", 7)], "here");
    assert_eq!(all.pids.len(), 3);
    assert!(all.pids[0].same(&pid("here", 2)));
    assert!(all.pids[2].same(&pid("there", 7)));
    let members = vec![pid("here", 1), pid("there", 9)];
    let msg = Broadcast { topic: "t".into(), payload: vec![5], exclude: Some(pid("here", 2)) };
    let sends = s.handle_broadcast(&msg, &members, "here");
    assert_eq!(sends.len(), 2);
    assert!(sends[0].0.same(&pid("here", 3)));
    assert_eq!(sends[0].1, vec![5]);
    assert!(sends[1].0.same(&pid("there", 9)));
    let (tag, payload) = decode_tag(&sends[1].1).unwrap();
    assert_eq!(tag, "ForwardBroadcast");
    let forwarded = ForwardBroadcast::decode_local(payload).unwrap();
    assert_eq!(forwarded.topic, "t");
    assert_eq!(s.handle_forward_broadcast(&forwarded).len(), 1);
    let local = LocalBroadcast { topic: "t".into(), payload: vec![6], exclude: None };
    assert_eq!(s.handle_local_broadcast(&local).len(), 2);
    s.handle_unsubscribe(&Unsubscribe { topic: "t".into(), pid: pid("here", 2) }, "here");
    assert_eq!(s.handle_local_broadcast(&local).len(), 1);
    s.handle_unsubscribe_all(&UnsubscribeAll { pid: pid("here", 3) });
    assert_eq!(s.handle_local_broadcast(&local).len(), 0);
}

#[test]
fn requests_of_one_type() {
    let (mut s, first) = server_v3::PubSub::init(PubSubConfig::new("p"));
    assert!(s.handle_continue(&first, pid("here", 1)).is_some());
    assert!(s.handle_continue(&[1], pid("here", 1)).is_none());
    let call = PubSubCall::Subscribe { topic: "t".into(), pid: pid("here", 2) };
    let bytes = call.encode_local();
    let call = PubSubCall::decode_local(decode_tag(&bytes).unwrap().1).unwrap();
    assert!(s.group_of(&call).is_none());
    assert!(matches!(s.handle_call(call, "here", vec![]), PubSubReply::Done));
    let reply = s.handle_call(
        PubSubCall::GetLocalSubscribers { topic: "t".into() },
        "here",
        vec![],
    );
    assert_eq!(server_v3::subscribers_reply(reply).unwrap().len(), 1);
    let get = PubSubCall::GetSubscribers { topic: "t".into() };
    assert_eq!(s.group_of(&get), Some("pubsub:p:t".to_string()));
    let members = vec![pid("here", 2), pid("there", 3)];
    let reply = s.handle_call(get, "here", members);
    let all = server_v3::subscribers_reply(reply).unwrap();
    assert_eq!(all.len(), 2);
    assert!(all[0].same(&pid("here", 2)) && all[1].same(&pid("there", 3)));
    let alone = PubSubCall::GetSubscribers { topic: "t".into() };
    let alone = s.handle_call(alone, "here", vec![]);
    assert_eq!(server_v3::subscribers_reply(alone).unwrap().len(), 1);
    assert_eq!(
        server_v3::subscribers_reply(PubSubReply::Done).err(),
        Some("unexpected reply type".to_string())
    );
    let cast = PubSubCast::Broadcast { topic: "t".into(), payload: vec![1], exclude: None };
    let sends = s.handle_cast(cast, &vec![pid("here", 1), pid("there", 9)], "here");
    assert_eq!(sends.len(), 2);
    assert!(matches!(receive(Some(sends[1].1.clone())), Turn::Cast { .. }));
    let _ = s.handle_call(PubSubCall::UnsubscribeAll { pid: pid("here", 2) }, "here", vec![]);
    let cast = PubSubCast::LocalBroadcast { topic: "t".into(), payload: vec![1], exclude: None };
    assert!(s.handle_cast(cast, &vec![], "here").is_empty());
}

#[test]
fn callers_are_told_what_is_missing() {
    let r = server::broadcast_request("p", None, "t", Ok(vec![]), None);
    assert_eq!(r.err(), Some("PubSub 'p' not found".to_string()));
    let r = server::broadcast_request("p", Some(pid("a", 1)), "t", Err("bad".into()), None);
    assert_eq!(r.err(), Some("serialize failed: bad".to_string()));
    let r = server::local_broadcast_request("p", Some(pid("a", 1)), "t", Ok(vec![3]), None);
    assert_eq!(r.ok().unwrap().1.payload, vec![3]);
    assert!(server::found_server("p", Some(pid("a", 1))).is_ok());
}

#[test]
fn forwarded_broadcasts_are_passed_on() {
    let (a, _) = server_v3::PubSub::init(PubSubConfig::new("p"));
    let (mut b, _) = server_v3::PubSub::init(PubSubConfig::new("p"));
    let subscribe = PubSubCall::Subscribe { topic: "t".into(), pid: pid("there", 5) };
    let _ = b.handle_call(subscribe, "there", vec![]);
    let cast = PubSubCast::Broadcast { topic: "t".into(), payload: vec![1], exclude: None };
    let sends = a.handle_cast(cast, &vec![pid("here", 1), pid("there", 2)], "here");
    assert_eq!(sends.len(), 1);
    assert!(sends[0].0.same(&pid("there", 2)));
    let payload = match receive(Some(sends[0].1.clone())) {
        Turn::Cast { payload } => payload,
        _ => panic!("not taken as a cast"),
    };
    let forwarded = PubSubCast::decode_local(&payload).unwrap();
    let passed = b.handle_cast(forwarded, &vec![], "there");
    assert_eq!(passed.len(), 1);
    assert!(passed[0].0.same(&pid("there", 5)));
    assert_eq!(passed[0].1, vec![1]);
}

#[test]
fn subscribers_are_in_the_groups_of_their_topics() {
    let (mut s, _) = server_v3::PubSub::init(PubSubConfig::new("p"));
    let subscribe = |topic: &str| PubSubCall::Subscribe {
        topic: topic.to_string(),
        pid: pid("here", 2),
    };
    let joins = s.group_changes(&subscribe("t"), "here");
    match &joins[..] {
        [GroupChange::Join { group, pid: who }] => {
            assert_eq!(group, "pubsub:p:t");
            assert!(who.same(&pid("here", 2)));
        },
        _ => panic!("does not enter the group"),
    }
    let _ = s.handle_call(subscribe("t"), "here", vec![]);
    assert!(s.group_changes(&subscribe("t"), "here").is_empty());
    assert!(s.group_changes(&subscribe("u"), "there").is_empty());
    let _ = s.handle_call(subscribe("u"), "here", vec![]);
    let leave = PubSubCall::Unsubscribe { topic: "t".into(), pid: pid("here", 2) };
    assert!(matches!(&s.group_changes(&leave, "here")[..], [GroupChange::Leave { .. }]));
    let all = PubSubCall::UnsubscribeAll { pid: pid("here", 2) };
    assert_eq!(s.group_changes(&all, "here").len(), 2);
    let _ = s.handle_call(leave, "here", vec![]);
    assert_eq!(s.group_changes(&all, "here").len(), 1);
}

#[test]
fn dispatched_servers_take_forwarded_broadcasts() {
    let msg = ForwardBroadcast { topic: "t".into(), payload: vec![1], exclude: None };
    match ambitious::gen_server::v2::server::receive(Some(msg.encode_local())) {
        ambitious::gen_server::v2::server::Turn::Info { tagged: Some((tag, payload)), .. } => {
            assert_eq!(tag, "ForwardBroadcast");
            assert_eq!(ForwardBroadcast::decode_local(&payload).unwrap().topic, "t");
        },
        _ => panic!("not taken as an info message"),
    }
}
