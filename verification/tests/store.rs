//! Stores, ordered and unordered.

use std::sync::{Arc, RwLock};

use ambitious::process::Pid;
use ambitious::store::access::{Access, StoreError, StoreId, StoreOptions};
use ambitious::store::ordered::{check_range, Bound, OrderedStore};
use ambitious::store::registry::StoreRegistry;
use ambitious::store::unordered::Store;
use ambitious::table::Key;

fn owner() -> Pid {
    Pid::remote("test@localhost", 1, 0)
}

fn create_test_store<V>() -> Store<V> {
    let mut counter: u64 = 1;
    Store::new_with_owner(StoreId::new(&mut counter), owner(), &StoreOptions::default())
}

fn create_test_ordered_store() -> OrderedStore<i32, String> {
    let mut counter: u64 = 1;
    OrderedStore::new_with_owner(StoreId::new(&mut counter), owner(), &StoreOptions::default())
}

fn text(v: Option<&String>) -> Option<String> {
    v.cloned()
}

#[test]
fn test_store_id_uniqueness() {
    let mut counter: u64 = 0;
    let id1 = StoreId::new(&mut counter);
    let id2 = StoreId::new(&mut counter);
    assert_ne!(id1.as_raw(), id2.as_raw());
}

#[test]
fn test_store_basic_operations() {
    let mut store: Store<i32> = create_test_store();

    assert_eq!(store.insert(None, "a".into(), 1).unwrap(), None);
    assert_eq!(store.insert(None, "a".into(), 2).unwrap(), Some(1));

    assert_eq!(store.get(None, "a").unwrap(), Some(&2));
    assert_eq!(store.get(None, "b").unwrap(), None);

    assert!(store.contains_key(None, "a").unwrap());
    assert!(!store.contains_key(None, "b").unwrap());

    assert_eq!(store.remove(None, "a").unwrap(), Some(2));
    assert_eq!(store.remove(None, "a").unwrap(), None);
}

#[test]
fn test_store_update() {
    let mut store: Store<i32> = create_test_store();

    let val = *store.update(None, "count".into(), |v: Option<i32>| v.unwrap_or(0) + 1).unwrap();
    assert_eq!(val, 1);

    let val = *store.update(None, "count".into(), |v: Option<i32>| v.unwrap_or(0) + 1).unwrap();
    assert_eq!(val, 2);

    assert_eq!(store.get(None, "count").unwrap(), Some(&2));
}

#[test]
fn test_store_bulk_operations() {
    let mut store: Store<i32> = create_test_store();

    store.insert_many(None, vec![("a".into(), 1), ("b".into(), 2), ("c".into(), 3)]).unwrap();

    assert_eq!(store.len(None).unwrap(), 3);
    assert!(!store.is_empty(None).unwrap());

    let keys = store.keys(None).unwrap();
    assert_eq!(keys.len(), 3);

    let values = store.values(None).unwrap();
    assert_eq!(values.len(), 3);

    store.clear(None).unwrap();
    assert!(store.is_empty(None).unwrap());
}

#[test]
fn test_store_retain() {
    let mut store: Store<i32> = create_test_store();

    store.insert_many(None, vec![("a".into(), 1), ("b".into(), 2), ("c".into(), 3)]).unwrap();

    store.retain(None, |_: &String, v: &mut i32| *v > 1).unwrap();

    assert_eq!(store.len(None).unwrap(), 2);
    assert!(!store.contains_key(None, "a").unwrap());
    assert!(store.contains_key(None, "b").unwrap());
    assert!(store.contains_key(None, "c").unwrap());
}

#[test]
fn test_store_deleted() {
    let mut store: Store<i32> = create_test_store();
    store.insert(None, "key".into(), 1).unwrap();

    store.mark_deleted();

    assert!(store.is_deleted());
    assert!(matches!(store.get(None, "key"), Err(StoreError::StoreDeleted)));
    assert!(matches!(store.insert(None, "key".into(), 2), Err(StoreError::StoreDeleted)));
}

#[test]
fn test_store_options() {
    let opts = StoreOptions::new().access(Access::Private).name("my_store");

    assert_eq!(opts.access, Access::Private);
    assert_eq!(opts.name, Some("my_store".into()));
}

#[test]
fn test_ordered_store_basic_operations() {
    let mut store = create_test_ordered_store();

    assert_eq!(store.insert(None, 1, "one".into()).unwrap(), None);
    assert_eq!(store.insert(None, 1, "ONE".into()).unwrap(), Some("one".into()));

    assert_eq!(text(store.get(None, &1).unwrap()), Some("ONE".into()));
    assert_eq!(text(store.get(None, &2).unwrap()), None);

    assert!(store.contains_key(None, &1).unwrap());
    assert!(!store.contains_key(None, &2).unwrap());

    assert_eq!(store.remove(None, &1).unwrap(), Some("ONE".into()));
    assert_eq!(store.remove(None, &1).unwrap(), None);
}

#[test]
fn test_ordered_store_sorted_keys() {
    let mut store = create_test_ordered_store();

    store.insert(None, 30, "thirty".into()).unwrap();
    store.insert(None, 10, "ten".into()).unwrap();
    store.insert(None, 20, "twenty".into()).unwrap();

    let keys = store.keys(None).unwrap();
    assert_eq!(keys, vec![10, 20, 30]);

    let values = store.values(None).unwrap();
    assert_eq!(values, vec!["ten", "twenty", "thirty"]);

    let entries: Vec<(i32, String)> =
        store.iter(None).unwrap().into_iter().map(|(k, v)| (k, v.clone())).collect();
    assert_eq!(
        entries,
        vec![(10, "ten".into()), (20, "twenty".into()), (30, "thirty".into())]
    );
}

#[test]
fn test_ordered_store_first_last() {
    let mut store = create_test_ordered_store();

    assert_eq!(store.first(None).unwrap(), None);
    assert_eq!(store.last(None).unwrap(), None);

    store.insert(None, 20, "twenty".into()).unwrap();
    store.insert(None, 10, "ten".into()).unwrap();
    store.insert(None, 30, "thirty".into()).unwrap();

    assert_eq!(store.first(None).unwrap(), Some((10, &"ten".to_string())));
    assert_eq!(store.last(None).unwrap(), Some((30, &"thirty".to_string())));
}

#[test]
fn test_ordered_store_pop_first_last() {
    let mut store = create_test_ordered_store();

    store.insert(None, 10, "ten".into()).unwrap();
    store.insert(None, 20, "twenty".into()).unwrap();
    store.insert(None, 30, "thirty".into()).unwrap();

    assert_eq!(store.pop_first(None).unwrap(), Some((10, "ten".into())));
    assert_eq!(store.len(None).unwrap(), 2);

    assert_eq!(store.pop_last(None).unwrap(), Some((30, "thirty".into())));
    assert_eq!(store.len(None).unwrap(), 1);

    assert_eq!(store.first(None).unwrap(), Some((20, &"twenty".to_string())));
}

fn filled(n: i32) -> OrderedStore<i32, String> {
    let mut store = create_test_ordered_store();
    for i in 1..=n {
        store.insert(None, i * 10, format!("val{}", i)).unwrap();
    }
    store
}

#[test]
fn test_ordered_store_range() {
    let store = filled(10);

    let entries = store.range(None, &Bound::Included(30), &Bound::Included(70), 100).unwrap();
    assert_eq!(entries.len(), 5);
    assert_eq!(entries[0].0, 30);
    assert_eq!(entries[4].0, 70);

    let entries = store.range(None, &Bound::Included(30), &Bound::Included(70), 2).unwrap();
    assert_eq!(entries.len(), 2);
    assert_eq!(entries[0].0, 30);
    assert_eq!(entries[1].0, 40);

    let entries = store.range(None, &Bound::Unbounded, &Bound::Included(30), 100).unwrap();
    assert_eq!(entries.len(), 3);

    let entries = store.range(None, &Bound::Included(80), &Bound::Unbounded, 100).unwrap();
    assert_eq!(entries.len(), 3);
}

#[test]
fn test_ordered_store_range_rev() {
    let store = filled(5);

    let entries = store.range_rev(None, &Bound::Included(20), &Bound::Included(40), 100).unwrap();
    assert_eq!(entries.len(), 3);
    assert_eq!(entries[0].0, 40);
    assert_eq!(entries[1].0, 30);
    assert_eq!(entries[2].0, 20);
}

#[test]
fn test_ordered_store_range_count() {
    let store = filled(10);

    assert_eq!(store.range_count(None, &Bound::Included(30), &Bound::Included(70)).unwrap(), 5);
    assert_eq!(store.range_count(None, &Bound::Unbounded, &Bound::Included(30)).unwrap(), 3);
    assert_eq!(store.range_count(None, &Bound::Included(80), &Bound::Unbounded).unwrap(), 3);
    assert_eq!(store.range_count(None, &Bound::Unbounded, &Bound::Unbounded).unwrap(), 10);
}

#[test]
fn test_ordered_store_retain() {
    let mut store = create_test_ordered_store();

    store.insert(None, 1, "one".into()).unwrap();
    store.insert(None, 2, "two".into()).unwrap();
    store.insert(None, 3, "three".into()).unwrap();

    store.retain(None, |k: &i32, _: &mut String| *k > 1).unwrap();

    assert_eq!(store.len(None).unwrap(), 2);
    assert!(!store.contains_key(None, &1).unwrap());
    assert!(store.contains_key(None, &2).unwrap());
    assert!(store.contains_key(None, &3).unwrap());
}

#[test]
fn excluded_bounds_leave_their_key_out() {
    let store = filled(5);
    let entries = store.range(None, &Bound::Excluded(10), &Bound::Excluded(40), 100).unwrap();
    let keys: Vec<i32> = entries.iter().map(|e| e.0).collect();
    assert_eq!(keys, vec![20, 30]);
}

#[test]
fn private_stores_are_for_their_owner() {
    let mut counter: u64 = 1;
    let opts = StoreOptions::new().access(Access::Private);
    let mut store: Store<i32> =
        Store::new_with_owner(StoreId::new(&mut counter), owner(), &opts);
    let other = Pid::remote("test@localhost", 2, 0);
    assert_eq!(store.insert(Some(&owner()), "a".into(), 1).unwrap(), None);
    assert!(matches!(store.get(Some(&other), "a"), Err(StoreError::AccessDenied)));
    let refused = store.give_away(Some(&other), other.clone());
    assert!(matches!(refused, Err(StoreError::AccessDenied)));
    assert!(matches!(store.give_away(None, other.clone()), Err(StoreError::NoProcessContext)));
    assert_eq!(store.owner().id(), 1);
    assert!(store.give_away(Some(&owner()), other.clone()).is_ok());
    assert!(matches!(store.get(None, "a"), Err(StoreError::NoProcessContext)));
    assert_eq!(store.owner().id(), 2);
    assert_eq!(store.get(Some(&other), "a").unwrap(), Some(&1));
    assert!(matches!(store.get(Some(&owner()), "a"), Err(StoreError::AccessDenied)));
    assert_eq!(store.id().describe(), "store#1");
}

#[test]
fn defaults_are_inserted_once() {
    let mut store: Store<i32> = create_test_store();
    assert_eq!(*store.get_or_insert(None, "k".into(), 5).unwrap(), 5);
    assert_eq!(*store.get_or_insert(None, "k".into(), 6).unwrap(), 5);
    assert_eq!(*store.get_or_insert_with(None, "l".into(), || 7).unwrap(), 7);
    assert_eq!(store.iter(None).unwrap().len(), 2);
}

#[test]
fn ordered_updates_and_strings() {
    let mut counter: u64 = 1;
    let mut store: OrderedStore<String, i32> =
        OrderedStore::new_with_owner(StoreId::new(&mut counter), owner(), &StoreOptions::new());
    store.insert_many(None, vec![("b".into(), 2), ("a".into(), 1), ("ab".into(), 3)]).unwrap();
    assert_eq!(store.keys(None).unwrap(), vec!["a", "ab", "b"]);
    assert_eq!(*store.update(None, "a".into(), |v: Option<i32>| v.unwrap() * 10).unwrap(), 10);
    store.clear(None).unwrap();
    assert!(store.is_empty(None).unwrap());
}

#[test]
fn stores_are_registered_under_their_names() {
    let mut counter: u64 = 9;
    let mut registry = StoreRegistry::new();
    let store: Store<i32> = Store::with_options(
        &mut counter,
        &mut registry,
        owner(),
        StoreOptions::new().name("cache"),
    );
    let plain: OrderedStore<u64, i32> = OrderedStore::new(&mut counter, &mut registry, owner());
    assert_eq!(registry.whereis("cache"), Some(store.id().as_raw()));
    assert_eq!(registry.whereis("other"), None);
    assert_eq!(registry.stores_owned_by(&owner()), vec![9, 10]);
    assert_eq!(plain.id().as_raw(), 10);
    let heir = Pid::remote("test@localhost", 2, 0);
    registry.transfer_ownership(9, &owner(), heir.clone());
    assert_eq!(registry.stores_owned_by(&heir), vec![9]);
    registry.transfer_ownership(10, &heir, heir.clone());
    assert_eq!(registry.stores_owned_by(&owner()), vec![10]);
    assert!(heir.same(&heir.clone()));
}

#[test]
fn store_errors_have_texts() {
    assert_eq!(StoreError::StoreDeleted.describe(), "store has been deleted");
    assert_eq!(StoreError::AccessDenied.describe(), "access denied");
}

#[test]
fn test_store_clone() {
    let store1: Arc<RwLock<Store<i32>>> = Arc::new(RwLock::new(create_test_store()));
    store1.write().unwrap().insert(None, "key".into(), 42).unwrap();

    let store2 = store1.clone();
    assert_eq!(store2.read().unwrap().get(None, "key").unwrap(), Some(&42));

    store2.write().unwrap().insert(None, "key".into(), 100).unwrap();
    assert_eq!(store1.read().unwrap().get(None, "key").unwrap(), Some(&100));
}

#[test]
fn test_ordered_store_clone() {
    let store1 = Arc::new(RwLock::new(create_test_ordered_store()));
    store1.write().unwrap().insert(None, 1, "one".into()).unwrap();

    let store2 = store1.clone();
    assert_eq!(text(store2.read().unwrap().get(None, &1).unwrap()), Some("one".into()));

    store2.write().unwrap().insert(None, 1, "ONE".into()).unwrap();
    assert_eq!(text(store1.read().unwrap().get(None, &1).unwrap()), Some("ONE".into()));
}

#[test]
fn values_that_stay_may_be_changed() {
    let mut store: Store<i32> = create_test_store();
    store.insert_many(None, vec![("a".into(), 1), ("b".into(), 2), ("c".into(), 3)]).unwrap();
    let doubled = |_: &String, v: &mut i32| {
        *v = *v * 2;
        *v > 2
    };
    store.retain(None, doubled).unwrap();
    assert_eq!(store.len(None).unwrap(), 2);
    assert_eq!(store.get(None, "b").unwrap(), Some(&4));
    assert_eq!(store.get(None, "c").unwrap(), Some(&6));

    let mut ordered = create_test_ordered_store();
    ordered.insert(None, 1, "one".into()).unwrap();
    ordered.insert(None, 2, "two".into()).unwrap();
    let marked = |k: &i32, v: &mut String| {
        v.push('!');
        *k == 2
    };
    ordered.retain(None, marked).unwrap();
    assert_eq!(ordered.len(None).unwrap(), 1);
    assert_eq!(ordered.get(None, &2).unwrap(), Some(&"two!".to_string()));
}

#[test]
fn ordered_stores_are_given_away() {
    let mut counter: u64 = 1;
    let opts = StoreOptions::new().access(Access::Private);
    let mut store: OrderedStore<i32, i32> =
        OrderedStore::new_with_owner(StoreId::new(&mut counter), owner(), &opts);
    let other = Pid::remote("test@localhost", 2, 0);
    store.insert(Some(&owner()), 1, 10).unwrap();
    assert!(store.give_away(Some(&other), other.clone()).is_err());
    store.give_away(Some(&owner()), other.clone()).unwrap();
    assert_eq!(store.owner().id(), 2);
    assert_eq!(store.get(Some(&other), &1).unwrap(), Some(&10));
}

#[test]
fn stores_go_to_their_heirs() {
    let mut counter: u64 = 1;
    let mut registry = StoreRegistry::new();
    let heir = Pid::remote("test@localhost", 2, 0);
    let opts = StoreOptions::new().heir(heir.clone()).name("kept");
    let mut kept: Store<i32> =
        Store::with_options(&mut counter, &mut registry, owner(), opts);
    let opts = StoreOptions::new().name("lost");
    let mut lost: Store<i32> =
        Store::with_options(&mut counter, &mut registry, owner(), opts);
    kept.process_ended(&heir);
    assert_eq!(kept.owner().id(), 1);
    kept.process_ended(&owner());
    lost.process_ended(&owner());
    assert_eq!(kept.owner().id(), 2);
    assert!(!kept.is_deleted());
    assert!(lost.is_deleted());
    assert_eq!(registry.cleanup_owned_stores(&owner()), vec![2]);
    assert_eq!(registry.stores_owned_by(&heir), vec![1]);
    assert_eq!(registry.whereis("kept"), Some(1));
    assert_eq!(registry.whereis("lost"), None);
    assert_eq!(registry.cleanup_owned_stores(&heir), vec![1]);
    assert_eq!(registry.whereis("kept"), None);
}

#[test]
fn ranges_do_not_run_backwards() {
    assert!(check_range(&Bound::Included(1), &Bound::Included(1)));
    assert!(check_range(&Bound::Included(1), &Bound::Excluded(1)));
    assert!(!check_range(&Bound::Excluded(1), &Bound::Excluded(1)));
    assert!(!check_range(&Bound::Included(2), &Bound::Included(1)));
    assert!(check_range(&Bound::Unbounded, &Bound::Excluded(1)));
}
