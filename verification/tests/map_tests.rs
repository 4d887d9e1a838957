use imrc::errors::PersistError;
use imrc::key::Key;
use imrc::pmap::PersistentMap;

#[test]
fn map_insert_scenario() {
    let ka = Key::from_value(10);
    let kb = Key::from_value(20);
    let m0 = PersistentMap::new();
    let m1 = m0.insert(ka, 1);
    let m2 = m1.insert(kb, 2);
    assert_eq!(m0.len(), 0);
    assert_eq!(m2.len(), 2);
    assert_eq!(m1.index(&ka), Ok(1));
    assert!(!m1.contains_key(&kb));
    // the older versions are untouched by every later call
    assert_eq!(m0.len(), 0);
    assert_eq!(m1.len(), 1);
}

#[test]
fn map_persistence_under_all_operations() {
    let ka = Key::from_value(1);
    let kb = Key::from_value(2);
    let m = PersistentMap::new().insert(ka, 11).insert(kb, 22);
    let _grown = m.insert(Key::from_value(3), 33);
    let _shrunk = m.remove(&ka).unwrap();
    let _dropped = m.discard(&kb);
    let _merged = m.update_with(&PersistentMap::new().insert(ka, 99));
    assert_eq!(m.len(), 2);
    assert_eq!(m.get(&ka), Some(11));
    assert_eq!(m.get(&kb), Some(22));
}

#[test]
fn map_order_independent_equality() {
    let ka = Key::from_value(1);
    let kb = Key::from_value(2);
    let m1 = PersistentMap::from_pairs(&vec![(ka, 1), (kb, 2)]);
    let m2 = PersistentMap::from_pairs(&vec![(kb, 2), (ka, 1)]);
    assert!(m1.eq_map(&m2));
    assert!(m2.eq_map(&m1));
}

#[test]
fn map_content_equality_needs_same_values() {
    let ka = Key::from_value(1);
    let kb = Key::from_value(2);
    let m1 = PersistentMap::from_pairs(&vec![(ka, 1), (kb, 2)]);
    let m2 = PersistentMap::from_pairs(&vec![(ka, 1), (kb, 3)]);
    let m3 = PersistentMap::from_pairs(&vec![(ka, 1)]);
    assert!(!m1.eq_map(&m2));
    assert!(!m1.eq_map(&m3));
    assert!(!m3.eq_map(&m1));
}

#[test]
fn map_discard_absent_is_identity() {
    let ka = Key::from_value(1);
    let absent = Key::from_value(9);
    let m = PersistentMap::new().insert(ka, 5);
    let d = m.discard(&absent);
    assert!(d.eq_map(&m));
}

#[test]
fn map_remove_absent_raises_discard_never() {
    let absent = Key::from_value(4);
    let m = PersistentMap::new();
    assert_eq!(
        m.remove(&absent).err(),
        Some(PersistError::KeyNotFound(absent))
    );
    let d = m.discard(&absent);
    assert_eq!(d.len(), 0);
}

#[test]
fn map_remove_present() {
    let ka = Key::from_value(1);
    let kb = Key::from_value(2);
    let m = PersistentMap::new().insert(ka, 1).insert(kb, 2);
    let r = m.remove(&ka).unwrap();
    assert_eq!(r.len(), 1);
    assert!(!r.contains_key(&ka));
    assert_eq!(r.get(&kb), Some(2));
}

#[test]
fn map_index_absent_carries_key() {
    let absent = Key::from_value(7);
    let m = PersistentMap::new().insert(Key::from_value(1), 1);
    assert_eq!(m.index(&absent), Err(PersistError::KeyNotFound(absent)));
}

#[test]
fn map_insert_replaces_value_keeps_size() {
    let ka = Key::from_value(1);
    let m = PersistentMap::new().insert(ka, 1);
    let m2 = m.insert(ka, 5);
    assert_eq!(m2.len(), 1);
    assert_eq!(m2.get(&ka), Some(5));
    assert_eq!(m.get(&ka), Some(1));
}

#[test]
fn map_colliding_hashes_keep_both_keys() {
    // two distinct keys sharing one hash code land in a collision bucket
    let ka = Key::new(7, 1);
    let kb = Key::new(7, 2);
    let m = PersistentMap::new().insert(ka, 10).insert(kb, 20);
    assert_eq!(m.len(), 2);
    assert_eq!(m.get(&ka), Some(10));
    assert_eq!(m.get(&kb), Some(20));
    let m2 = m.insert(ka, 30);
    assert_eq!(m2.len(), 2);
    assert_eq!(m2.get(&ka), Some(30));
    assert_eq!(m2.get(&kb), Some(20));
}

#[test]
fn map_from_pairs_last_duplicate_wins() {
    let ka = Key::from_value(1);
    let m = PersistentMap::from_pairs(&vec![(ka, 1), (ka, 2)]);
    assert_eq!(m.len(), 1);
    assert_eq!(m.get(&ka), Some(2));
}

#[test]
fn map_update_later_sources_win() {
    let ka = Key::from_value(1);
    let kb = Key::from_value(2);
    let kc = Key::from_value(3);
    let base = PersistentMap::new().insert(ka, 1).insert(kb, 2);
    let first = PersistentMap::new().insert(kb, 20).insert(kc, 30);
    let second = PersistentMap::new().insert(kc, 300);
    let merged = base.update(&vec![first, second]);
    assert_eq!(merged.len(), 3);
    assert_eq!(merged.get(&ka), Some(1));
    assert_eq!(merged.get(&kb), Some(20));
    assert_eq!(merged.get(&kc), Some(300));
}

#[test]
fn map_update_pairs_in_order() {
    let ka = Key::from_value(1);
    let kb = Key::from_value(2);
    let m = PersistentMap::new().insert(ka, 1);
    let m2 = m.update_pairs(&vec![(kb, 2), (ka, 9)]);
    assert_eq!(m2.len(), 2);
    assert_eq!(m2.get(&ka), Some(9));
    assert_eq!(m2.get(&kb), Some(2));
}

#[test]
fn map_keys_values_items_agree() {
    let ka = Key::from_value(1);
    let kb = Key::from_value(2);
    let m = PersistentMap::new().insert(ka, 11).insert(kb, 22);
    let keys = m.keys();
    let values = m.values();
    let items = m.items();
    assert_eq!(keys.len(), 2);
    assert_eq!(values.len(), 2);
    assert_eq!(items.len(), 2);
    assert!(keys.contains(&ka) && keys.contains(&kb));
    for (k, v) in items {
        assert_eq!(m.get(&k), Some(v));
        assert!(values.contains(&v));
    }
}

#[test]
fn map_iter_yields_each_key_once() {
    let ka = Key::from_value(1);
    let kb = Key::from_value(2);
    let m = PersistentMap::new().insert(ka, 11).insert(kb, 22);
    let mut it = m.iter();
    let mut seen: Vec<Key> = Vec::new();
    while let Some(k) = it.next() {
        assert!(!seen.contains(&k));
        seen.push(k);
    }
    assert_eq!(seen.len(), 2);
    assert!(seen.contains(&ka) && seen.contains(&kb));
    // the iterator is one-shot: once exhausted it stays exhausted
    assert_eq!(it.next(), None);
    assert_eq!(it.remaining(), 0);
}
