use rushdb::text::{decimal_text, text_from_bytes};

#[test]
fn decimal_text_matches_to_string() {
    for n in [0u64, 1, 9, 10, 42, 100, 6080, 999_999, u64::MAX] {
        assert_eq!(decimal_text(n), n.to_string());
    }
}

#[test]
fn text_from_bytes_checks_utf8() {
    assert_eq!(text_from_bytes(vec![b'o', b'k']), Some("ok".to_string()));
    assert_eq!(text_from_bytes(vec![0xe2, 0x82, 0xac]), Some("€".to_string()));
    assert_eq!(text_from_bytes(vec![0xc0, 0x80]), None);
    assert_eq!(text_from_bytes(vec![0xe2, 0x82]), None);
}
