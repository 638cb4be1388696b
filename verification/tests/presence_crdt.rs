//! Replicas of the presence state.

use ambitious::presence::crdt::{PresenceCrdt, PresenceDelta, Tag};
use ambitious::process::Pid;
use ambitious::table::{Key, Table};

fn make_pid(id: u64) -> Pid {
    make_pid_for_node("test@localhost", id)
}

fn make_pid_for_node(node: &str, id: u64) -> Pid {
    Pid::remote(node, id, 0)
}

fn has(t: &Table<String, Vec<ambitious::presence::crdt::TrackedEntry>>, key: &str) -> bool {
    t.contains_key(&key.to_string())
}

fn entries_set(crdt: &PresenceCrdt) -> Vec<(String, String, String, u64)> {
    let mut out = Vec::new();
    for (topic, keys) in crdt.list_all().rows {
        for (key, entries) in keys.rows {
            for e in entries {
                out.push((topic.clone(), key.clone(), e.tag.replica.clone(), e.tag.clock));
            }
        }
    }
    out.sort();
    out
}

#[test]
fn test_convergence_with_untrack_ops() {
    let mut node1 = PresenceCrdt::new("node1");
    let mut node2 = PresenceCrdt::new("node2");
    let mut node3 = PresenceCrdt::new("node3");

    node2.untrack("room:jgdxb", "user:39884", &make_pid_for_node("node2@localhost", 329));
    node2.track("room:vr", make_pid_for_node("node2@localhost", 911), "user:6215", vec![55]);
    node2.track("room:xtp", make_pid_for_node("node2@localhost", 260), "user:13480", vec![]);
    node2.untrack_all(&make_pid_for_node("node2@localhost", 435));

    node3.untrack("room:wc", "user:54910", &make_pid_for_node("node3@localhost", 132));
    node3.track(
        "room:ufygoims",
        make_pid_for_node("node3@localhost", 310),
        "user:3145",
        vec![161, 223, 75, 253, 15],
    );
    node3.untrack_all(&make_pid_for_node("node3@localhost", 207));

    let d1 = node1.extract_all();
    let d2 = node2.extract_all();
    let d3 = node3.extract_all();

    node1.merge(&d2);
    node1.merge(&d3);
    node2.merge(&d1);
    node2.merge(&d3);
    node3.merge(&d1);
    node3.merge(&d2);

    let set1 = entries_set(&node1);
    let set2 = entries_set(&node2);
    let set3 = entries_set(&node3);
    assert_eq!(node1.len(), 3);
    assert_eq!(node2.len(), 3);
    assert_eq!(node3.len(), 3);
    assert_eq!(set1, set2);
    assert_eq!(set2, set3);
}

#[test]
fn test_track_creates_unique_tag() {
    let mut crdt = PresenceCrdt::new("node1");
    let tag1 = crdt.track("room:lobby", make_pid(1), "user:1", vec![]);
    let tag2 = crdt.track("room:lobby", make_pid(2), "user:2", vec![]);

    assert_eq!(tag1.replica, "node1");
    assert_eq!(tag1.clock, 1);
    assert_eq!(tag2.replica, "node1");
    assert_eq!(tag2.clock, 2);
    assert!(!tag1.same(&tag2));
}

#[test]
fn test_track_increments_clock() {
    let mut crdt = PresenceCrdt::new("node1");
    for i in 1..=5u64 {
        let tag = crdt.track("room:lobby", make_pid(i), &format!("user:{}", i), vec![]);
        assert_eq!(tag.clock, i);
    }
    assert_eq!(crdt.context().get(&"node1".to_string()), Some(&5));
}

#[test]
fn test_list_returns_tracked_entries() {
    let mut crdt = PresenceCrdt::new("node1");
    crdt.track("room:lobby", make_pid(1), "user:1", vec![1, 2, 3]);
    crdt.track("room:lobby", make_pid(2), "user:2", vec![4, 5, 6]);
    crdt.track("room:other", make_pid(3), "user:3", vec![7, 8, 9]);

    let lobby = crdt.list("room:lobby");
    assert_eq!(lobby.rows.len(), 2);
    assert!(has(&lobby, "user:1"));
    assert!(has(&lobby, "user:2"));

    let other = crdt.list("room:other");
    assert_eq!(other.rows.len(), 1);
    assert!(has(&other, "user:3"));
}

#[test]
fn test_untrack_removes_entry() {
    let mut crdt = PresenceCrdt::new("node1");
    let pid = make_pid(1);

    crdt.track("room:lobby", pid.clone(), "user:1", vec![]);
    assert_eq!(crdt.list("room:lobby").rows.len(), 1);

    let removed = crdt.untrack("room:lobby", "user:1", &pid);
    assert_eq!(removed.len(), 1);
    assert_eq!(crdt.list("room:lobby").rows.len(), 0);
}

#[test]
fn test_untrack_all_removes_all_entries() {
    let mut crdt = PresenceCrdt::new("node1");
    let pid = make_pid(1);

    crdt.track("room:lobby", pid.clone(), "user:1", vec![]);
    crdt.track("room:other", pid.clone(), "user:1", vec![]);
    crdt.track("room:lobby", make_pid(2), "user:2", vec![]);

    let removed = crdt.untrack_all(&pid);
    assert_eq!(removed.rows.len(), 2);
    assert_eq!(crdt.list("room:lobby").rows.len(), 1);
    assert_eq!(crdt.list("room:other").rows.len(), 0);
}

#[test]
fn test_merge_adds_new_entries() {
    let mut crdt1 = PresenceCrdt::new("node1");
    let mut crdt2 = PresenceCrdt::new("node2");

    crdt1.track("room:lobby", make_pid(1), "user:1", vec![1]);
    crdt2.track("room:lobby", make_pid(2), "user:2", vec![2]);

    let delta1 = crdt1.extract_all();
    let result = crdt2.merge(&delta1);

    assert_eq!(result.joins.len(), 1);
    assert_eq!(result.leaves.len(), 0);

    let lobby = crdt2.list("room:lobby");
    assert_eq!(lobby.rows.len(), 2);
    assert!(has(&lobby, "user:1"));
    assert!(has(&lobby, "user:2"));
}

#[test]
fn test_merge_ignores_duplicates() {
    let mut crdt1 = PresenceCrdt::new("node1");
    let mut crdt2 = PresenceCrdt::new("node2");

    crdt1.track("room:lobby", make_pid(1), "user:1", vec![1]);
    let delta = crdt1.extract_all();

    let result1 = crdt2.merge(&delta);
    let result2 = crdt2.merge(&delta);

    assert_eq!(result1.joins.len(), 1);
    assert_eq!(result2.joins.len(), 0);
    assert_eq!(crdt2.len(), 1);
}

#[test]
fn test_merge_applies_leaves() {
    let mut crdt1 = PresenceCrdt::new("node1");
    let mut crdt2 = PresenceCrdt::new("node2");

    let pid = make_pid(1);
    crdt1.track("room:lobby", pid.clone(), "user:1", vec![]);

    let delta1 = crdt1.extract_all();
    crdt2.merge(&delta1);
    assert_eq!(crdt2.len(), 1);

    crdt1.untrack("room:lobby", "user:1", &pid);

    let delta2 = crdt1.take_delta().unwrap();
    assert_eq!(delta2.leave_tags.len(), 1);

    let result = crdt2.merge(&delta2);
    assert_eq!(result.leaves.len(), 1);
    assert_eq!(crdt2.len(), 0);
}

#[test]
fn test_extract_respects_remote_context() {
    let mut crdt = PresenceCrdt::new("node1");

    crdt.track("room:lobby", make_pid(1), "user:1", vec![]);
    crdt.track("room:lobby", make_pid(2), "user:2", vec![]);
    crdt.track("room:lobby", make_pid(3), "user:3", vec![]);

    let mut remote_context: Table<String, u64> = Table::new();
    remote_context.insert("node1".to_string(), 2);

    let delta = crdt.extract(&remote_context);
    assert_eq!(delta.joins.len(), 1);
    assert_eq!(delta.joins[0].tag.clock, 3);
}

#[test]
fn test_replica_up_down_filtering() {
    let mut crdt1 = PresenceCrdt::new("node1");
    let mut crdt2 = PresenceCrdt::new("node2");

    crdt1.track("room:lobby", make_pid(1), "user:1", vec![]);
    let delta = crdt1.extract_all();
    crdt2.merge(&delta);

    assert_eq!(crdt2.list("room:lobby").rows.len(), 1);

    let hidden = crdt2.replica_down("node1", true, 0);
    assert_eq!(hidden.len(), 1);
    assert_eq!(crdt2.list("room:lobby").rows.len(), 0);

    let visible = crdt2.replica_up("node1");
    assert_eq!(visible.len(), 1);
    assert_eq!(crdt2.list("room:lobby").rows.len(), 1);
}

#[test]
fn test_concurrent_modifications_converge() {
    let mut crdt1 = PresenceCrdt::new("node1");
    let mut crdt2 = PresenceCrdt::new("node2");

    crdt1.track("room:lobby", make_pid(1), "user:1", vec![]);
    crdt2.track("room:lobby", make_pid(2), "user:2", vec![]);

    let delta1 = crdt1.extract_all();
    let delta2 = crdt2.extract_all();

    crdt1.merge(&delta2);
    crdt2.merge(&delta1);

    assert_eq!(crdt1.len(), 2);
    assert_eq!(crdt2.len(), 2);

    let list1 = crdt1.list("room:lobby");
    let list2 = crdt2.list("room:lobby");

    assert_eq!(list1.rows.len(), list2.rows.len());
    assert!(has(&list1, "user:1"));
    assert!(has(&list1, "user:2"));
}

#[test]
fn test_delta_accumulation() {
    let mut crdt = PresenceCrdt::new("node1");

    assert!(!crdt.has_delta());

    crdt.track("room:lobby", make_pid(1), "user:1", vec![]);
    assert!(crdt.has_delta());

    let delta = crdt.take_delta();
    assert!(delta.is_some());
    assert_eq!(delta.unwrap().joins.len(), 1);

    assert!(!crdt.has_delta());
    assert!(crdt.take_delta().is_none());
}

#[test]
fn tracking_the_same_key_twice_keeps_both() {
    let mut crdt = PresenceCrdt::new("node1");
    let pid = make_pid(7);
    let tag1 = crdt.track("room:t", pid.clone(), "user:k", vec![1]);
    let tag2 = crdt.track("room:t", pid.clone(), "user:k", vec![2]);
    assert!(!tag1.same(&tag2));
    assert_eq!(crdt.get("room:t", "user:k").unwrap().len(), 2);
    assert!(crdt.get("room:t", "user:other").is_none());
}

#[test]
fn merging_in_either_order_gives_the_same() {
    let mut a = PresenceCrdt::new("a");
    let mut b = PresenceCrdt::new("b");
    a.track("t", make_pid(1), "k1", vec![]);
    a.track("t", make_pid(2), "k2", vec![]);
    b.track("t", make_pid(3), "k1", vec![]);
    let (da, db) = (a.extract_all(), b.extract_all());
    let mut x = PresenceCrdt::new("x");
    let mut y = PresenceCrdt::new("y");
    x.merge(&da);
    x.merge(&db);
    y.merge(&db);
    y.merge(&da);
    assert_eq!(entries_set(&x), entries_set(&y));
    assert_eq!(x.len(), 3);
}

#[test]
fn a_forgotten_replica_leaves_the_others() {
    let mut a = PresenceCrdt::new("a");
    let mut b = PresenceCrdt::new("b");
    a.track("t", make_pid(1), "k", vec![]);
    b.track("t", make_pid(2), "k", vec![]);
    a.merge(&b.extract_all());
    assert_eq!(a.len(), 2);
    let gone = a.remove_down_replica("b");
    assert_eq!(gone.len(), 1);
    assert_eq!(gone[0].tag.replica, "b");
    assert_eq!(a.len(), 1);
    assert!(a.is_replica_up("b"));
    assert!(!a.is_empty());
}

#[test]
fn deltas_know_their_topics() {
    let mut a = PresenceCrdt::new("a");
    a.track("t1", make_pid(1), "k", vec![]);
    a.track("t2", make_pid(2), "k", vec![]);
    let d = a.extract_all();
    assert!(!d.is_empty());
    assert_eq!(d.joins_for_topic("t1").len(), 1);
    assert_eq!(d.joins_for_topic("t3").len(), 0);
    assert!(PresenceDelta::default().is_empty());
    let t = Tag::new("r", 3);
    assert_eq!(t.clock, 3);
}

#[test]
fn what_left_within_a_delta_does_not_arrive() {
    let mut a = PresenceCrdt::new("a");
    a.track("t", make_pid(1), "k", vec![]);
    a.track("t", make_pid(2), "k", vec![]);
    a.untrack("t", "k", &make_pid(1));
    let d = a.take_delta().unwrap();
    let mut b = PresenceCrdt::new("b");
    let first = b.merge(&d);
    assert_eq!(b.len(), 1);
    assert_eq!(entries_set(&b), entries_set(&a));
    assert!(!first.is_empty());
    assert!(b.merge(&d).is_empty());
    assert_eq!(entries_set(&b), entries_set(&a));
}

#[test]
fn a_fresh_replica_takes_everything_over() {
    let mut a = PresenceCrdt::new("a");
    a.track("t", make_pid(1), "k", vec![1]);
    a.track("u", make_pid(1), "k", vec![2]);
    a.untrack("t", "k", &make_pid(1));
    let again = a.track("t", make_pid(1), "k", vec![3]);
    assert_eq!(again.clock, a.clock());
    let mut b = PresenceCrdt::new("b");
    b.merge(&a.extract_all());
    assert_eq!(entries_set(&b), entries_set(&a));
    assert_eq!(b.len(), 2);
}
