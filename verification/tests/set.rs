use vchain_plus::acc::set::IdSet;

#[test]
fn sets_are_kept_in_ascending_order() {
    let s = IdSet::from_slice(&[5, 1, 3, 3, 1]);
    assert_eq!(s.as_slice(), &[1, 3, 5]);
    assert_eq!(s.len(), 3);
    assert!(s.contains(3));
    assert!(!s.contains(2));
    assert!(IdSet::new().is_empty());
    assert!(!s.is_empty());
}

#[test]
fn insert_adds_once() {
    let mut s = IdSet::new();
    s.insert(4);
    s.insert(2);
    s.insert(4);
    s.insert(9);
    assert_eq!(s.as_slice(), &[2, 4, 9]);
}

#[test]
fn union_intersection_difference() {
    let a = IdSet::from_slice(&[1, 2, 3, 7]);
    let b = IdSet::from_slice(&[2, 3, 4]);
    assert_eq!(a.union(&b).as_slice(), &[1, 2, 3, 4, 7]);
    assert_eq!(a.intersection(&b).as_slice(), &[2, 3]);
    assert_eq!(a.difference(&b).as_slice(), &[1, 7]);
    assert_eq!(b.difference(&a).as_slice(), &[4]);
    let empty = IdSet::new();
    assert!(a.union(&empty).same(&a));
    assert!(a.intersection(&empty).is_empty());
    assert!(a.difference(&empty).same(&a));
    assert!(empty.difference(&a).is_empty());
    assert!(a.difference(&a).is_empty());
}

#[test]
fn equality_is_by_elements() {
    let a = IdSet::from_slice(&[3, 1, 2]);
    let b = IdSet::from_slice(&[1, 2, 3]);
    let c = IdSet::from_slice(&[1, 2]);
    assert!(a.same(&b));
    assert!(!a.same(&c));
    assert!(!c.same(&a));
    assert!(a.clone().same(&a));
    assert_eq!(a, b);
    assert_ne!(a, c);
}
