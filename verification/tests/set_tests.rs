use imrc::errors::PersistError;
use imrc::key::Key;
use imrc::pset::PersistentSet;

fn set_of(values: &[i64]) -> PersistentSet {
    let keys: Vec<Key> = values.iter().map(|v| Key::from_value(*v)).collect();
    PersistentSet::from_elements(&keys)
}

#[test]
fn set_algebra_scenario() {
    let s1 = set_of(&[1, 2, 3]);
    let s2 = set_of(&[2, 3, 4]);
    assert!(s1.intersection(&s2).eq_set(&set_of(&[2, 3])));
    assert!(s1.union(&s2).eq_set(&set_of(&[1, 2, 3, 4])));
    assert!(s1.symmetric_difference(&s2).eq_set(&set_of(&[1, 4])));
    assert!(s1.difference(&s2).eq_set(&set_of(&[1])));
}

#[test]
fn set_algebra_commutes() {
    let a = set_of(&[1, 2, 5]);
    let b = set_of(&[2, 3]);
    assert!(a.union(&b).eq_set(&b.union(&a)));
    assert!(a.intersection(&b).eq_set(&b.intersection(&a)));
    assert!(a
        .symmetric_difference(&b)
        .eq_set(&a.difference(&b).union(&b.difference(&a))));
}

#[test]
fn set_difference_is_disjoint_from_subtrahend() {
    let a = set_of(&[1, 2, 3, 4]);
    let b = set_of(&[2, 4, 6]);
    let d = a.difference(&b);
    for k in b.elements() {
        assert!(!d.contains(&k));
    }
}

#[test]
fn set_remove_on_empty_raises_discard_does_not() {
    let k = Key::from_value(1);
    let empty = PersistentSet::new();
    assert_eq!(empty.remove(&k).err(), Some(PersistError::KeyNotFound(k)));
    assert!(empty.discard(&k).eq_set(&PersistentSet::new()));
}

#[test]
fn set_remove_present() {
    let s = set_of(&[1, 2]);
    let r = s.remove(&Key::from_value(1)).unwrap();
    assert!(r.eq_set(&set_of(&[2])));
    assert_eq!(s.len(), 2);
}

#[test]
fn set_subset_ordering() {
    let small = set_of(&[1, 2]);
    let big = set_of(&[1, 2, 3]);
    let other = set_of(&[1, 9]);
    assert!(small.is_subset(&big));
    assert!(small.lt(&big));
    assert!(!big.is_subset(&small));
    assert!(!small.is_subset(&other));
    // a set is a subset of itself but not a strict one
    assert!(small.is_subset(&small));
    assert!(!small.lt(&small));
}

#[test]
fn set_equality_ignores_order() {
    let a = set_of(&[3, 1, 2]);
    let b = set_of(&[2, 3, 1]);
    let c = set_of(&[1, 2]);
    assert!(a.eq_set(&b));
    assert!(!a.eq_set(&c));
}

#[test]
fn set_insert_duplicate_keeps_size() {
    let s = set_of(&[5]);
    let s2 = s.insert(Key::from_value(5));
    assert_eq!(s2.len(), 1);
    let s3 = s.insert(Key::from_value(6));
    assert_eq!(s3.len(), 2);
    assert_eq!(s.len(), 1);
}

#[test]
fn set_update_folds_every_iterable() {
    let s = set_of(&[1]);
    let more = vec![
        vec![Key::from_value(2), Key::from_value(3)],
        vec![Key::from_value(3), Key::from_value(4)],
    ];
    let grown = s.update(&more);
    assert!(grown.eq_set(&set_of(&[1, 2, 3, 4])));
    assert_eq!(s.len(), 1);
}

#[test]
fn set_persistence_under_algebra() {
    let a = set_of(&[1, 2]);
    let b = set_of(&[2, 3]);
    let _u = a.union(&b);
    let _i = a.intersection(&b);
    let _d = a.difference(&b);
    let _x = a.symmetric_difference(&b);
    assert!(a.eq_set(&set_of(&[1, 2])));
    assert!(b.eq_set(&set_of(&[2, 3])));
}

#[test]
fn set_colliding_hashes_keep_both_elements() {
    let ka = Key::new(3, 1);
    let kb = Key::new(3, 2);
    let s = PersistentSet::new().insert(ka).insert(kb);
    assert_eq!(s.len(), 2);
    assert!(s.contains(&ka) && s.contains(&kb));
}

#[test]
fn set_iter_yields_each_element_once() {
    let s = set_of(&[1, 2, 3]);
    let mut it = s.iter();
    let mut seen: Vec<Key> = Vec::new();
    while let Some(k) = it.next() {
        assert!(!seen.contains(&k));
        assert!(s.contains(&k));
        seen.push(k);
    }
    assert_eq!(seen.len(), 3);
    assert_eq!(it.next(), None);
}
