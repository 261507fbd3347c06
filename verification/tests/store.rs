use rushdb::protocol::{ReqType, Request, Status};
use rushdb::store::Store;

fn request(op: ReqType, key: &str, value: Option<&str>) -> Request {
    Request { op, key: key.to_string(), value: value.map(|v| v.to_string()) }
}

#[test]
fn new_store_is_empty() {
    let s = Store::new();
    assert_eq!(s.len(), 0);
    assert!(s.get("a").is_none());
    assert!(!s.contains_key("a"));
    assert!(s.entries().is_empty());
}

#[test]
fn set_get_overwrite() {
    let mut s = Store::new();
    s.set("a".to_string(), "1".to_string());
    s.set("b".to_string(), "2".to_string());
    s.set("a".to_string(), "3".to_string());
    assert_eq!(s.get("a"), Some(&"3".to_string()));
    assert_eq!(s.get("b"), Some(&"2".to_string()));
    assert_eq!(s.len(), 2);
}

#[test]
fn del_removes_only_that_key() {
    let mut s = Store::new();
    for i in 0..10 {
        s.set(format!("k{i}"), format!("v{i}"));
    }
    s.del("k3");
    s.del("k0");
    s.del("absent");
    assert_eq!(s.len(), 8);
    assert!(s.get("k3").is_none());
    assert!(s.get("k0").is_none());
    for i in [1, 2, 4, 5, 6, 7, 8, 9] {
        assert_eq!(s.get(&format!("k{i}")), Some(&format!("v{i}")));
    }
    s.del("k9");
    s.set("k3".to_string(), "again".to_string());
    assert_eq!(s.len(), 8);
    assert_eq!(s.get("k3"), Some(&"again".to_string()));
}

#[test]
fn entries_list_each_key_once() {
    let mut s = Store::new();
    s.set("x".to_string(), "1".to_string());
    s.set("y".to_string(), "2".to_string());
    s.set("z".to_string(), "3".to_string());
    s.del("y");
    s.set("x".to_string(), "4".to_string());
    let mut e = s.entries();
    e.sort();
    assert_eq!(e, vec![("x".to_string(), "4".to_string()), ("z".to_string(), "3".to_string())]);
}

#[test]
fn snapshot_restores_store() {
    let mut s = Store::new();
    for i in 0..50 {
        s.set(format!("key{i}"), format!("{}", i * 7));
    }
    for i in (0..50).step_by(3) {
        s.del(&format!("key{i}"));
    }
    let restored = Store::from_entries(s.entries());
    assert_eq!(restored.len(), s.len());
    for i in 0..50 {
        let k = format!("key{i}");
        assert_eq!(restored.get(&k), s.get(&k));
    }
}

#[test]
fn from_entries_last_value_wins() {
    let s = Store::from_entries(vec![
        ("a".to_string(), "1".to_string()),
        ("a".to_string(), "2".to_string()),
    ]);
    assert_eq!(s.len(), 1);
    assert_eq!(s.get("a"), Some(&"2".to_string()));
}

#[test]
fn apply_requests_like_the_server() {
    let mut s = Store::new();
    let r = s.apply(request(ReqType::GET, "name", None));
    assert_eq!(r.status, Status::NotFound);
    assert_eq!(r.value, None);
    let r = s.apply(request(ReqType::SET, "name", Some("Alice")));
    assert_eq!(r.status, Status::OK);
    assert_eq!(r.value, None);
    let r = s.apply(request(ReqType::GET, "name", None));
    assert_eq!(r.status, Status::OK);
    assert_eq!(r.value, Some("Alice".to_string()));
    let r = s.apply(request(ReqType::EXISTS, "name", None));
    assert_eq!(r.value, Some("true".to_string()));
    let r = s.apply(request(ReqType::TOTAL, "", None));
    assert_eq!(r.status, Status::OK);
    assert_eq!(r.value, Some("1".to_string()));
    let r = s.apply(request(ReqType::DEL, "name", None));
    assert_eq!(r.status, Status::OK);
    assert_eq!(r.value, None);
    let r = s.apply(request(ReqType::EXISTS, "name", None));
    assert_eq!(r.value, Some("false".to_string()));
    let r = s.apply(request(ReqType::GET, "name", None));
    assert_eq!(r.status, Status::NotFound);
    let r = s.apply(request(ReqType::DEL, "name", None));
    assert_eq!(r.status, Status::OK);
}

#[test]
fn total_counts_keys_in_decimal() {
    let mut s = Store::new();
    for i in 0..123 {
        s.apply(request(ReqType::SET, &format!("k{i}"), Some("v")));
    }
    s.apply(request(ReqType::SET, "k5", Some("other")));
    let r = s.apply(request(ReqType::TOTAL, "", None));
    assert_eq!(r.value, Some("123".to_string()));
    let r = Store::new().apply(request(ReqType::TOTAL, "", None));
    assert_eq!(r.value, Some("0".to_string()));
}

#[test]
fn del_undoes_set_of_new_key() {
    let mut s = Store::new();
    s.set("a".to_string(), "1".to_string());
    s.apply(request(ReqType::SET, "b", Some("2")));
    s.apply(request(ReqType::DEL, "b", None));
    assert_eq!(s.len(), 1);
    assert_eq!(s.entries(), vec![("a".to_string(), "1".to_string())]);
}
