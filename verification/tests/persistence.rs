use rushdb::store::Store;
use std::collections::HashMap;

#[test]
fn snapshot_bytes_follow_bincode_layout() {
    let mut s = Store::new();
    s.set("ab".to_string(), "c".to_string());
    let b = s.snapshot().unwrap();
    assert_eq!(
        b,
        vec![1, 0, 0, 0, 0, 0, 0, 0, 2, 0, 0, 0, 0, 0, 0, 0, b'a', b'b', 1, 0, 0, 0, 0, 0, 0, 0, b'c']
    );
}

#[test]
fn empty_snapshot() {
    let b = Store::new().snapshot().unwrap();
    assert_eq!(b, vec![0u8; 8]);
    assert_eq!(Store::restore(&b).unwrap().len(), 0);
}

#[test]
fn restore_after_snapshot() {
    let mut s = Store::new();
    for i in 0..20 {
        s.set(format!("k{i}"), format!("value {i}"));
    }
    s.del("k4");
    let b = s.snapshot().unwrap();
    let r = Store::restore(&b).unwrap();
    assert_eq!(r.len(), 19);
    for i in 0..20 {
        let k = format!("k{i}");
        assert_eq!(r.get(&k), s.get(&k));
    }
}

#[test]
fn snapshot_reads_as_a_bincode_map() {
    let mut s = Store::new();
    s.set("x".to_string(), "1".to_string());
    s.set("y".to_string(), "2".to_string());
    let m: HashMap<String, String> = bincode::deserialize(&s.snapshot().unwrap()).unwrap();
    assert_eq!(m.len(), 2);
    assert_eq!(m["x"], "1");
    assert_eq!(m["y"], "2");
}

#[test]
fn restore_reads_a_bincode_map() {
    let mut m = HashMap::new();
    m.insert("name".to_string(), "Alice".to_string());
    m.insert("city".to_string(), "Paris".to_string());
    let bytes = bincode::serialize(&m).unwrap();
    let s = Store::restore(&bytes).unwrap();
    assert_eq!(s.len(), 2);
    assert_eq!(s.get("name"), Some(&"Alice".to_string()));
    assert_eq!(s.get("city"), Some(&"Paris".to_string()));
}

#[test]
fn restore_ignores_trailing_bytes() {
    let mut s = Store::new();
    s.set("a".to_string(), "b".to_string());
    let mut b = s.snapshot().unwrap();
    b.extend_from_slice(&[1, 2, 3]);
    assert_eq!(Store::restore(&b).unwrap().get("a"), Some(&"b".to_string()));
}

#[test]
fn restore_refuses_bad_bytes() {
    assert!(Store::restore(&[]).is_none());
    assert!(Store::restore(&[1, 0, 0, 0, 0, 0, 0, 0]).is_none());
    let bad_utf8 = vec![1, 0, 0, 0, 0, 0, 0, 0, 1, 0, 0, 0, 0, 0, 0, 0, 0xff, 0, 0, 0, 0, 0, 0, 0, 0];
    assert!(Store::restore(&bad_utf8).is_none());
}

#[test]
fn server_starts_empty_without_usable_snapshot() {
    assert_eq!(Store::restore_or_empty(None).len(), 0);
    assert_eq!(Store::restore_or_empty(Some(&[1, 2, 3])).len(), 0);
    let mut s = Store::new();
    s.set("k".to_string(), "v".to_string());
    let b = s.snapshot().unwrap();
    let r = Store::restore_or_empty(Some(&b));
    assert_eq!(r.get("k"), Some(&"v".to_string()));
}
