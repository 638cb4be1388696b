//! The presence server.

use ambitious::gen_server::server::{info_request, receive, Turn};
use ambitious::message::{decode_tag, Message};
use ambitious::piece::{Dict, Piece};
use ambitious::presence::convert::{ref_to_tag, tag_to_ref};
use ambitious::presence::crdt::Tag;
use ambitious::presence::server;
use ambitious::presence::server::{Presence, PresenceConfig, RawMessage, Surroundings};
use ambitious::presence::types::{
    PresenceCall, PresenceCast, PresenceDiff, PresenceInfo, PresenceMessage, PresenceRef,
    PresenceReply, SharedDelta,
};
use ambitious::process::Pid;
use ambitious::table::Key;

fn pid(node: &str, id: u64) -> Pid {
    Pid::remote(node, id, 0)
}

fn at(here: &str) -> Surroundings {
    Surroundings {
        here: here.into(),
        now: 100,
        current: pid(here, 1),
        members: vec![pid("a", 1), pid("b", 1)],
    }
}

fn started(here: &str) -> Presence {
    Presence::init(PresenceConfig::new("pr", "ps"), here).0
}

fn track(s: &mut Presence, here: &str, key: &str, id: u64) -> (PresenceReply, server::Effects) {
    s.handle_call(
        PresenceCall::Track {
            topic: "room".into(),
            key: key.into(),
            pid: pid(here, id),
            meta: vec![7],
        },
        &at(here),
    )
}

fn listed(s: &mut Presence, here: &str) -> usize {
    match s.handle_call(PresenceCall::List { topic: "room".into() }, &at(here)).0 {
        PresenceReply::PresenceList { presences } => presences.len(),
        _ => panic!("no list"),
    }
}

#[test]
fn test_presence_config() {
    let config = PresenceConfig::new("test", "pubsub");
    assert_eq!(config.name, "test");
    assert_eq!(config.pubsub, "pubsub");
}

#[test]
fn references_lead_back_to_tags() {
    let tag = Tag::new("node:with@colon", 42);
    let r = tag_to_ref(&tag);
    assert_eq!(r.as_str(), "node:with@colon:42");
    assert!(ref_to_tag(&r).same(&tag));
    let odd = ref_to_tag(&PresenceRef::from_string("no clock".into()));
    assert_eq!((odd.replica.as_str(), odd.clock), ("no clock", 0));
    let odd = ref_to_tag(&PresenceRef::from_string("a:b".into()));
    assert_eq!((odd.replica.as_str(), odd.clock), ("a:b", 0));
    let fresh = PresenceRef::new("a@h", 5, 6);
    assert_eq!(fresh.as_str(), "a@h:5:6");
    assert_eq!(fresh.node(), "a@h");
}

#[test]
fn tracking_is_told_to_subscribers_and_servers() {
    let mut a = started("a");
    let (reply, effects) = track(&mut a, "a", "user:1", 5);
    assert_eq!(server::track_reply(reply).unwrap().as_str(), "a:1");
    assert_eq!(effects.broadcasts.len(), 1);
    assert_eq!(effects.broadcasts[0].0, "presence:room");
    let (to, info) = &effects.sends[0];
    assert_eq!(to.len(), 1);
    assert_eq!(to[0].node(), "b");
    assert!(matches!(info, PresenceInfo::CrdtDelta { .. }));
    assert_eq!(listed(&mut a, "a"), 1);

    let mut b = started("b");
    let bytes = info.encode_local();
    let (tag, payload) = decode_tag(&bytes).unwrap();
    assert_eq!(tag, "PresenceInfo");
    match PresenceInfo::decode_local(payload).unwrap() {
        PresenceInfo::CrdtDelta { topic, delta } => {
            assert_eq!(topic, "room");
            let joins = delta.received();
            assert_eq!(b.next_to_monitor(&joins.joins, 0, "b"), Some(0));
            b.watched("a", "b", true);
            assert_eq!(b.next_to_monitor(&joins.joins, 0, "b"), None);
            assert!(b.welcome("a", "room", &vec![pid("a", 1)]).is_none());
            b.handle_crdt_delta(SharedDelta::share(joins));
        },
        _ => panic!("no delta"),
    }
    assert_eq!(listed(&mut b, "b"), 1);
    assert!(b.welcome("a", "room", &vec![pid("a", 1)]).is_some());
    let gone = b.handle_node_down("a", 100);
    assert_eq!(gone.len(), 1);
    assert_eq!(listed(&mut b, "b"), 0);
    assert!(b.needs_monitor("a", "b"));
}

#[test]
fn subscribers_can_apply_what_they_are_told() {
    let mut a = started("a");
    let (_, effects) = track(&mut a, "a", "user:1", 5);
    let mut c = started("c");
    for (_, m) in effects.broadcasts {
        let mut bytes: Vec<u8> = Vec::new();
        m.put(&mut bytes);
        let (m, rest) = PresenceMessage::take(&bytes).unwrap();
        assert!(rest.is_empty());
        assert!(c.handle_legacy_message(m).is_none());
    }
    assert_eq!(listed(&mut c, "c"), 1);
    let (_, effects) = a.handle_call(
        PresenceCall::Untrack { topic: "room".into(), key: "user:1".into(), pid: pid("a", 5) },
        &at("a"),
    );
    for (_, m) in effects.broadcasts {
        match m {
            PresenceMessage::Delta { topic, diff } => {
                c.handle_cast(PresenceCast::ApplyDelta { topic, diff })
            },
            _ => panic!("no diff"),
        }
    }
    assert_eq!(listed(&mut c, "c"), 0);
}

#[test]
fn untracking_and_updating() {
    let mut a = started("a");
    let _ = track(&mut a, "a", "user:1", 5);
    let (reply, effects) = a.handle_call(
        PresenceCall::Update {
            topic: "room".into(),
            key: "user:1".into(),
            pid: pid("a", 5),
            meta: vec![8],
        },
        &at("a"),
    );
    assert_eq!(server::update_reply(reply).unwrap().unwrap().as_str(), "a:2");
    match &effects.broadcasts[0].1 {
        PresenceMessage::Delta { diff, .. } => {
            let state = diff.joins.get("user:1").unwrap();
            assert_eq!(state.metas[0].phx_ref_prev.as_ref().unwrap().as_str(), "a:1");
            assert_eq!(state.metas[0].updated_at, 100);
        },
        _ => panic!("no diff"),
    }
    let (reply, _) = a.handle_call(
        PresenceCall::Update {
            topic: "room".into(),
            key: "user:2".into(),
            pid: pid("a", 6),
            meta: vec![],
        },
        &at("a"),
    );
    assert!(server::update_reply(reply).unwrap().is_none());
    let (reply, effects) =
        a.handle_call(PresenceCall::UntrackAll { pid: pid("a", 5) }, &at("a"));
    assert!(server::track_reply(reply).is_err());
    assert_eq!(effects.broadcasts.len(), 1);
    assert_eq!(effects.sends.len(), 1);
    let (_, effects) = a.handle_call(
        PresenceCall::Untrack { topic: "room".into(), key: "user:1".into(), pid: pid("a", 5) },
        &at("a"),
    );
    assert!(effects.broadcasts.is_empty() && effects.sends.is_empty());
    let (reply, _) = a.handle_call(
        PresenceCall::Get { topic: "room".into(), key: "user:2".into() },
        &at("a"),
    );
    assert_eq!(server::get_reply(reply).unwrap().unwrap().metas.len(), 1);
    let (reply, _) = a.handle_call(
        PresenceCall::Get { topic: "room".into(), key: "user:1".into() },
        &at("a"),
    );
    assert!(server::list_reply(reply).is_err());
}

#[test]
fn servers_synchronise_when_they_start() {
    let mut a = started("a");
    let _ = track(&mut a, "a", "user:1", 5);
    let mut b = started("b");
    let existing = vec![pid("a", 1), pid("b", 9)];
    let connected = vec!["c".to_string(), "a".to_string()];
    let start = b.complete_init(pid("b", 1), &existing, &connected, "b");
    assert_eq!(start.nodes, vec!["a", "c", "a"]);
    b.watched("b", "b", true);
    b.watched("a", "b", false);
    assert!(b.needs_monitor("a", "b"));
    for node in &start.nodes {
        if b.needs_monitor(node, "b") {
            b.watched(node, "b", true);
        }
    }
    assert!(!b.needs_monitor("a", "b") && !b.needs_monitor("c", "b"));
    assert!(b.needs_monitor("d", "b"));
    match receive(Some(server::peer_bytes(&start.request.1))) {
        Turn::Info { raw } => assert!(matches!(
            info_request::<PresenceInfo>(&raw),
            Some(PresenceInfo::CrdtSyncRequest { .. })
        )),
        _ => panic!("not taken as an info message"),
    }
    assert_eq!((start.name.as_str(), start.group.as_str()), ("pr", "presence:pr"));
    assert_eq!(start.request.0.len(), 1);
    let answer = match start.request.1 {
        PresenceInfo::CrdtSyncRequest { from, context } => {
            a.handle_crdt_sync_request(from, context).unwrap()
        },
        _ => panic!("no request"),
    };
    assert!(answer.0.same(&pid("b", 1)));
    match answer.1 {
        PresenceInfo::CrdtSyncResponse { delta } => b.handle_crdt_sync_response(delta),
        _ => panic!("no response"),
    }
    assert_eq!(listed(&mut b, "b"), 1);
    let mut seen: Dict<u64> = Dict::new();
    seen.insert("a".into(), 1);
    assert!(a.handle_crdt_sync_request(pid("b", 1), seen).is_none());
    let (group, own) = b.terminate().unwrap();
    assert_eq!(group, "presence:pr");
    assert!(own.same(&pid("b", 1)));
    assert!(a.terminate().is_none());
    match a.handle_legacy_message(PresenceMessage::SyncRequest { from: pid("c", 1) }) {
        Some((to, PresenceInfo::CrdtSyncResponse { .. })) => assert_eq!(to.node(), "c"),
        _ => panic!("not answered"),
    }
    assert_eq!(b.pubsub_name(), "ps");
}

#[test]
fn raw_messages_are_told_apart() {
    let down = server::handle_raw_message(&[], Some("n".into()));
    assert!(matches!(down, RawMessage::NodeDown(_)));
    assert!(matches!(server::handle_raw_message(&[99], None), RawMessage::Unknown));
    let start = ambitious::message::encode_with_tag("PresenceCompleteInit", &[]);
    assert!(matches!(server::handle_raw_message(&start, None), RawMessage::CompleteInit));
    let bytes = PresenceInfo::CompleteInit.encode_local();
    assert!(matches!(server::handle_continue(&bytes), Some(PresenceInfo::CompleteInit)));
    assert!(server::handle_continue(&[1]).is_none());
    assert!(PresenceDiff::default().is_empty());
    assert_eq!(
        server::found_server("pr", None).err(),
        Some("Presence 'pr' not found".to_string())
    );
    assert_eq!(
        server::encoded_meta(Err("x".into())).err(),
        Some("serialize failed: x".to_string())
    );
}

#[test]
fn later_rows_replace_earlier_ones() {
    let mut d: Dict<u64> = Dict::new();
    d.insert("k".into(), 1);
    d.insert("l".into(), 2);
    d.insert("k".into(), 3);
    assert_eq!(d.len(), 2);
    assert_eq!(d.get("k"), Some(&3));
    let mut bytes: Vec<u8> = Vec::new();
    d.put(&mut bytes);
    let (again, _) = Dict::<u64>::take(&bytes).unwrap();
    assert_eq!(again.get("l"), Some(&2));
}
