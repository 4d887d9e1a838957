use imrc::errors::PersistError;
use imrc::pseq::PersistentSequence;

#[test]
fn sequence_scenario() {
    let v = PersistentSequence::from_elements(&vec![1, 2, 3]);
    assert_eq!(v.first(), Ok(1));
    assert!(v.rest().eq_seq(&PersistentSequence::from_elements(&vec![2, 3])));
    assert!(v
        .push_front(0)
        .eq_seq(&PersistentSequence::from_elements(&vec![0, 1, 2, 3])));
    // the original is untouched by every call above
    assert!(v.eq_seq(&PersistentSequence::from_elements(&vec![1, 2, 3])));
}

#[test]
fn sequence_first_on_empty_raises() {
    let empty = PersistentSequence::new();
    assert_eq!(empty.first(), Err(PersistError::IndexError));
}

#[test]
fn sequence_rest_push_front_first_restores() {
    let v = PersistentSequence::from_elements(&vec![4, 5, 6]);
    let first = v.first().unwrap();
    assert!(v.rest().push_front(first).eq_seq(&v));
    // it holds as well when the front value occurs again later
    let w = PersistentSequence::from_elements(&vec![7, 7, 8]);
    assert!(w.rest().push_front(w.first().unwrap()).eq_seq(&w));
}

#[test]
fn sequence_rest_of_empty_is_empty() {
    let empty = PersistentSequence::new();
    assert!(empty.rest().eq_seq(&empty));
    assert_eq!(empty.rest().len(), 0);
}

#[test]
fn sequence_reversed() {
    let v = PersistentSequence::from_elements(&vec![1, 2, 3]);
    let r = v.reversed();
    assert!(r.eq_seq(&PersistentSequence::from_elements(&vec![3, 2, 1])));
    assert!(v.eq_seq(&PersistentSequence::from_elements(&vec![1, 2, 3])));
    assert!(PersistentSequence::new()
        .reversed()
        .eq_seq(&PersistentSequence::new()));
}

#[test]
fn sequence_get_and_len() {
    let v = PersistentSequence::from_elements(&vec![10, 20, 30]);
    assert_eq!(v.len(), 3);
    assert_eq!(v.get(0), Some(10));
    assert_eq!(v.get(2), Some(30));
    assert_eq!(v.get(3), None);
}

#[test]
fn sequence_equality_is_length_and_order() {
    let a = PersistentSequence::from_elements(&vec![1, 2]);
    let b = PersistentSequence::from_elements(&vec![1, 2]);
    let c = PersistentSequence::from_elements(&vec![2, 1]);
    let d = PersistentSequence::from_elements(&vec![1, 2, 3]);
    assert!(a.eq_seq(&b));
    assert!(!a.eq_seq(&c));
    assert!(!a.eq_seq(&d));
}

#[test]
fn sequence_to_vec_round_trip() {
    let elems = vec![9, 8, 7];
    let v = PersistentSequence::from_elements(&elems);
    assert_eq!(v.to_vec(), elems);
}

#[test]
fn sequence_iter_is_one_shot_and_ordered() {
    let v = PersistentSequence::from_elements(&vec![1, 2, 3]);
    let mut it = v.iter();
    assert_eq!(it.remaining(), 3);
    assert_eq!(it.next(), Some(1));
    assert_eq!(it.next(), Some(2));
    assert_eq!(it.next(), Some(3));
    assert_eq!(it.next(), None);
    assert_eq!(it.remaining(), 0);
    // an iterator built before a change never sees it
    let mut early = v.iter();
    let _longer = v.push_front(0);
    assert_eq!(early.next(), Some(1));
}
