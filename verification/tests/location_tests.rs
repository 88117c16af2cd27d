use vimlite::location::Location;

#[test]
fn cmp() {
    assert!(Location::new(0, 0) < Location::new(0, 1));
    assert!(Location::new(0, 10) < Location::new(1, 0));
}

#[test]
fn order_is_strict_and_total() {
    let a = Location::new(3, 4);
    let b = Location::new(3, 5);
    let c = Location::new(4, 0);
    assert!(!(a < a));
    assert!(!a.is_before(&a));
    assert!(a < b && b < c && a < c);
    assert!(b > a);
    assert!(a.is_before(&b) && !b.is_before(&a));
    assert_eq!(a, Location::from((3, 4)));
    assert_ne!(a, b);
    assert_eq!(a.destruct(), (3, 4));
    assert_eq!((a.line(), a.col()), (3, 4));
    assert_eq!(Location::default(), Location::new(0, 0));
    assert_eq!(a.partial_cmp(&b), Some(std::cmp::Ordering::Less));
    assert_eq!(c.partial_cmp(&a), Some(std::cmp::Ordering::Greater));
    assert_eq!(a.cmp(&a), std::cmp::Ordering::Equal);
}
