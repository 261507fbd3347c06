use rushdb::protocol::{
    decode_raw_response, decode_request, decode_response, encode_get, encode_request,
    encode_response, encode_set, write_str, DecodeError, ReqType, RequestError, Response, Status,
};

#[test]
fn write_str_prefixes_big_endian_length() {
    let mut buf = vec![9u8];
    write_str(&mut buf, "abc");
    assert_eq!(buf, vec![9, 0, 0, 0, 3, b'a', b'b', b'c']);
}

#[test]
fn write_str_counts_bytes_not_chars() {
    let mut buf = Vec::new();
    write_str(&mut buf, "é");
    assert_eq!(buf, vec![0, 0, 0, 2, 0xc3, 0xa9]);
}

#[test]
fn write_str_empty() {
    let mut buf = Vec::new();
    write_str(&mut buf, "");
    assert_eq!(buf, vec![0, 0, 0, 0]);
}

#[test]
fn codes_match_readme_tables() {
    assert_eq!(ReqType::GET.code(), 0);
    assert_eq!(ReqType::SET.code(), 1);
    assert_eq!(ReqType::DEL.code(), 2);
    assert_eq!(ReqType::EXISTS.code(), 3);
    assert_eq!(ReqType::TOTAL.code(), 4);
    assert_eq!(Status::OK.code(), 0);
    assert_eq!(Status::NotFound.code(), 1);
    assert_eq!(Status::Error.code(), 2);
    assert_eq!(ReqType::from_code(3), Some(ReqType::EXISTS));
    assert_eq!(ReqType::from_code(5), None);
    assert_eq!(Status::from_code(1), Status::NotFound);
    assert_eq!(Status::from_code(7), Status::Error);
}

#[test]
fn encode_set_request() {
    let b = encode_request(ReqType::SET, Some("k".to_string()), Some("vv".to_string())).unwrap();
    assert_eq!(b, vec![1, 0, 0, 0, 1, b'k', 0, 0, 0, 2, b'v', b'v']);
    assert_eq!(b, encode_set("k", "vv"));
}

#[test]
fn encode_get_request() {
    let b = encode_request(ReqType::GET, Some("key".to_string()), None).unwrap();
    assert_eq!(b, vec![0, 0, 0, 0, 3, b'k', b'e', b'y']);
    assert_eq!(b, encode_get("key"));
}

#[test]
fn encode_total_ignores_key() {
    let b = encode_request(ReqType::TOTAL, Some("ignored".to_string()), None).unwrap();
    assert_eq!(b, vec![4, 0, 0, 0, 0]);
    let b = encode_request(ReqType::TOTAL, None, None).unwrap();
    assert_eq!(b, vec![4, 0, 0, 0, 0]);
}

#[test]
fn encode_errors() {
    assert_eq!(
        encode_request(ReqType::SET, Some("k".to_string()), None),
        Err(RequestError::MissingValue)
    );
    assert_eq!(encode_request(ReqType::GET, None, None), Err(RequestError::MissingKey));
    assert_eq!(
        encode_request(ReqType::SET, None, Some("v".to_string())),
        Err(RequestError::MissingKey)
    );
    assert_eq!(RequestError::MissingKey.message(), "Key is required for this operation");
    assert_eq!(RequestError::MissingValue.message(), "Value is required for SET operation");
}

#[test]
fn encode_get_with_value_sends_value_too() {
    let b = encode_request(ReqType::DEL, Some("a".to_string()), Some("b".to_string())).unwrap();
    assert_eq!(b, vec![2, 0, 0, 0, 1, b'a', 0, 0, 0, 1, b'b']);
    let (req, n) = decode_request(&b).unwrap();
    assert_eq!(req.op, ReqType::DEL);
    assert_eq!(req.key, "a");
    assert_eq!(req.value, None);
    assert_eq!(n, 6);
}

#[test]
fn encode_response_variants() {
    let r = Response { status: Status::OK, value: Some("hi".to_string()) };
    assert_eq!(encode_response(&r), vec![0, 0, 0, 0, 2, b'h', b'i']);
    let r = Response { status: Status::NotFound, value: None };
    assert_eq!(encode_response(&r), vec![1, 0, 0, 0, 0]);
}

#[test]
fn decode_request_roundtrip_set() {
    let b = encode_set("name", "Alice");
    let (req, n) = decode_request(&b).unwrap();
    assert_eq!(req.op, ReqType::SET);
    assert_eq!(req.key, "name");
    assert_eq!(req.value, Some("Alice".to_string()));
    assert_eq!(n, b.len());
}

#[test]
fn decode_request_ignores_trailing_bytes() {
    let mut b = encode_get("x");
    let len = b.len();
    b.extend_from_slice(&[7, 7, 7]);
    let (req, n) = decode_request(&b).unwrap();
    assert_eq!(req.op, ReqType::GET);
    assert_eq!(req.key, "x");
    assert_eq!(n, len);
}

#[test]
fn decode_request_incomplete_asks_for_exact_bytes() {
    let b = encode_set("ab", "cde");
    assert_eq!(decode_request(&[]).err(), Some(DecodeError::Incomplete { missing: 1 }));
    assert_eq!(decode_request(&b[..1]).err(), Some(DecodeError::Incomplete { missing: 4 }));
    assert_eq!(decode_request(&b[..3]).err(), Some(DecodeError::Incomplete { missing: 2 }));
    assert_eq!(decode_request(&b[..5]).err(), Some(DecodeError::Incomplete { missing: 2 }));
    assert_eq!(decode_request(&b[..7]).err(), Some(DecodeError::Incomplete { missing: 4 }));
    assert_eq!(decode_request(&b[..11]).err(), Some(DecodeError::Incomplete { missing: 3 }));
    assert!(decode_request(&b).is_ok());
}

#[test]
fn decode_request_unknown_op() {
    assert_eq!(decode_request(&[9, 0, 0]).err(), Some(DecodeError::UnknownOp { code: 9 }));
}

#[test]
fn decode_request_invalid_utf8() {
    assert_eq!(decode_request(&[0, 0, 0, 0, 1, 0xff]).err(), Some(DecodeError::InvalidUtf8));
    assert_eq!(
        decode_request(&[0, 0, 0, 0, 3, 0xed, 0xa0, 0x80]).err(),
        Some(DecodeError::InvalidUtf8)
    );
}

#[test]
fn decode_request_unicode_key() {
    let b = encode_get("ключ");
    let (req, _) = decode_request(&b).unwrap();
    assert_eq!(req.key, "ключ");
}

#[test]
fn decode_response_empty_value_is_none() {
    let (r, n) = decode_response(&[0, 0, 0, 0, 0]).unwrap();
    assert_eq!(r.status, Status::OK);
    assert_eq!(r.value, None);
    assert_eq!(n, 5);
    let bytes = encode_response(&Response { status: Status::OK, value: Some(String::new()) });
    let (r, _) = decode_response(&bytes).unwrap();
    assert_eq!(r.value, None);
}

#[test]
fn decode_response_roundtrip() {
    let bytes = encode_response(&Response { status: Status::NotFound, value: Some("v".into()) });
    let (r, n) = decode_response(&bytes).unwrap();
    assert_eq!(r.status, Status::NotFound);
    assert_eq!(r.value, Some("v".to_string()));
    assert_eq!(n, bytes.len());
}

#[test]
fn decode_response_unknown_status_reads_as_error() {
    let (r, _) = decode_response(&[42, 0, 0, 0, 1, b'x']).unwrap();
    assert_eq!(r.status, Status::Error);
    assert_eq!(r.value, Some("x".to_string()));
}

#[test]
fn decode_response_incomplete() {
    assert_eq!(decode_response(&[0, 0, 0]).err(), Some(DecodeError::Incomplete { missing: 2 }));
    assert_eq!(
        decode_response(&[0, 0, 0, 1, 0]).err(),
        Some(DecodeError::Incomplete { missing: 256 })
    );
}

#[test]
fn decode_raw_response_keeps_bytes() {
    let (s, v, n) = decode_raw_response(&[0, 0, 0, 0, 2, 0xff, 0xfe, 1]).unwrap();
    assert_eq!(s, 0);
    assert_eq!(v, vec![0xff, 0xfe]);
    assert_eq!(n, 7);
    assert_eq!(decode_raw_response(&[]).err(), Some(DecodeError::Incomplete { missing: 5 }));
    assert_eq!(
        decode_raw_response(&[0, 0, 0, 0, 3, 1]).err(),
        Some(DecodeError::Incomplete { missing: 2 })
    );
}

#[test]
fn decode_str_at_offset() {
    let mut b = vec![7u8, 7];
    write_str(&mut b, "hey");
    let (s, end) = rushdb::protocol::decode_str(&b, 2).unwrap();
    assert_eq!(s, "hey");
    assert_eq!(end, 9);
}
