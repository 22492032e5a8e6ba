use ayude::Catalog;

#[test]
fn add_then_get_returns_value() {
    let mut c: Catalog<u32> = Catalog::new();
    let a = c.add(10);
    let b = c.add(20);
    assert_eq!(c.get(a).copied(), Some(10));
    assert_eq!(c.get(b).copied(), Some(20));
    assert_eq!(c.len(), 2);
}

#[test]
fn handles_are_monotonic_and_distinct() {
    let mut c: Catalog<&'static str> = Catalog::new();
    let a = c.add("first");
    let b = c.add("second");
    assert_ne!(a, b);
    assert_eq!(a.index(), 0);
    assert_eq!(b.index(), 1);
}

#[test]
fn foreign_handle_lookup_returns_none() {
    let mut other: Catalog<u8> = Catalog::new();
    other.add(1);
    let foreign = other.add(2);
    let c: Catalog<u8> = Catalog::new();
    assert!(c.get(foreign).is_none());
}

#[test]
fn get_opt_handles_missing() {
    let mut c: Catalog<u8> = Catalog::new();
    let a = c.add(7);
    assert_eq!(c.get_opt(Some(a)).copied(), Some(7));
    assert_eq!(c.get_opt(None), None);
}

#[test]
fn get_mut_updates_in_place() {
    let mut c: Catalog<u32> = Catalog::new();
    let a = c.add(1);
    if let Some(v) = c.get_mut(a) {
        *v = 99;
    }
    assert_eq!(c.get(a).copied(), Some(99));
}

#[test]
fn add_never_overwrites() {
    let mut c: Catalog<u32> = Catalog::new();
    let a = c.add(5);
    for extra in 0..100u32 {
        c.add(extra);
    }
    assert_eq!(c.get(a).copied(), Some(5));
}

#[test]
fn iter_and_iter_ids_cover_all_entries() {
    let mut c: Catalog<u32> = Catalog::new();
    c.add(3);
    c.add(4);
    let values: Vec<u32> = c.iter().clone();
    assert_eq!(values, vec![3, 4]);
    let ids = c.iter_ids();
    assert_eq!(ids.len(), 2);
    assert_eq!(c.get(ids[0]).copied(), Some(3));
    assert_eq!(c.get(ids[1]).copied(), Some(4));
    let pairs = c.iter_with_id();
    assert_eq!(pairs.len(), 2);
    assert_eq!(pairs[0].0, ids[0]);
    assert_eq!(*pairs[1].1, 4);
}
