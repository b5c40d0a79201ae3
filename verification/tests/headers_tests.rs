use aero::headers::HeaderMap;

#[test]
fn insert_then_get() {
    let mut h = HeaderMap::new();
    assert_eq!(h.len(), 0);
    h.insert("A".to_string(), "1".to_string());
    h.insert("B".to_string(), "2".to_string());
    h.insert("A".to_string(), "3".to_string());
    assert_eq!(h.len(), 2);
    assert_eq!(h.get("A").unwrap(), "3");
    assert_eq!(h.get("B").unwrap(), "2");
    assert!(h.get("C").is_none());
    let (k, v) = h.entry(0);
    assert_eq!((k.as_str(), v.as_str()), ("A", "3"));
    let (k, v) = h.entry(1);
    assert_eq!((k.as_str(), v.as_str()), ("B", "2"));
}

#[test]
fn clone_keeps_entries() {
    let mut h = HeaderMap::new();
    h.insert("A".to_string(), "1".to_string());
    let c = h.clone();
    assert_eq!(c, h);
    assert_eq!(c.get("A").unwrap(), "1");
}

#[test]
fn equality_ignores_insertion_order() {
    let mut a = HeaderMap::new();
    a.insert("A".to_string(), "1".to_string());
    a.insert("B".to_string(), "2".to_string());
    let mut b = HeaderMap::new();
    b.insert("B".to_string(), "2".to_string());
    b.insert("A".to_string(), "1".to_string());
    assert!(a == b);
    b.insert("A".to_string(), "9".to_string());
    assert!(a != b);
    let mut c = HeaderMap::new();
    c.insert("A".to_string(), "1".to_string());
    assert!(a != c);
}
