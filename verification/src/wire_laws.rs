//! Laws of the wire protocol: what a receiver decodes from what a sender
//! encodes, and how decoding behaves as more bytes arrive.
use vstd::prelude::*;
use vstd::utf8::*;
use crate::store::apply_request;
use crate::protocol::{
    be32, be32_value, lemma_be32_roundtrip, op_code, op_of_code, opt_text, parse_request, parse_response,
    parse_raw_response, parse_str, request_bytes, response_bytes, status_code, status_of_code, str_frame, DecodeError,
    ReqType, RequestError, RequestModel, ResponseModel, Status,
};

verus! {

/// A text whose UTF-8 encoding is short enough for its length to fit the
/// four-byte length field.
pub open spec fn fits_frame(s: Seq<char>) -> bool {
    encode_utf8(s).len() <= u32::MAX
}

/// A frame placed after any bytes `pre` and followed by any bytes `rest`
/// decodes to its text, ending right after it.
pub proof fn lemma_str_frame_roundtrip(pre: Seq<u8>, s: Seq<char>, rest: Seq<u8>)
    requires
        fits_frame(s),
    ensures
        parse_str(pre + str_frame(s) + rest, pre.len() as int) == Ok::<(Seq<char>, int), DecodeError>(
            (s, (pre.len() + str_frame(s).len()) as int),
        ),
{
    let bytes = encode_utf8(s);
    let b = pre + str_frame(s) + rest;
    let pos = pre.len() as int;
    lemma_be32_roundtrip(bytes.len() as u32);
    assert(b.subrange(pos, pos + 4) =~= be32(bytes.len() as u32));
    assert(b.subrange(pos + 4, pos + 4 + bytes.len()) =~= bytes);
    encode_utf8_valid_utf8(s);
    encode_utf8_decode_utf8(s);
}

/// The bytes of a request as a server expects them: the kind byte, the key
/// frame, and for `SET` the value frame.
pub open spec fn request_wire(r: RequestModel) -> Seq<u8> {
    seq![op_code(r.op)] + str_frame(r.key) + if r.op == ReqType::SET {
        str_frame(r.value.unwrap())
    } else {
        Seq::<u8>::empty()
    }
}

/// A request that can travel: it carries a value exactly when it is a `SET`,
/// and its texts fit their length fields.
pub open spec fn sendable_request(r: RequestModel) -> bool {
    &&& (r.op == ReqType::SET) == (r.value is Some)
    &&& fits_frame(r.key)
    &&& (r.value matches Some(v) ==> fits_frame(v))
}

proof fn lemma_op_code_roundtrip(op: ReqType)
    ensures
        op_of_code(op_code(op)) == Some(op),
{
}

/// A server decodes a sent request, followed by anything, as exactly that
/// request, taking exactly its bytes.
pub proof fn lemma_request_roundtrip(r: RequestModel, rest: Seq<u8>)
    requires
        sendable_request(r),
    ensures
        parse_request(request_wire(r) + rest) == Ok::<(RequestModel, int), DecodeError>(
            (r, request_wire(r).len() as int),
        ),
{
    let head = seq![op_code(r.op)];
    let tail = if r.op == ReqType::SET {
        str_frame(r.value.unwrap())
    } else {
        Seq::<u8>::empty()
    };
    let b = request_wire(r) + rest;
    lemma_op_code_roundtrip(r.op);
    assert(b =~= head + str_frame(r.key) + (tail + rest));
    lemma_str_frame_roundtrip(head, r.key, tail + rest);
    let p = head.len() + str_frame(r.key).len();
    if r.op == ReqType::SET {
        let v = r.value.unwrap();
        assert(b =~= (head + str_frame(r.key)) + str_frame(v) + rest);
        lemma_str_frame_roundtrip(head + str_frame(r.key), v, rest);
    }
    assert(b[0] == op_code(r.op));
}

/// The request a server decodes from what a client sends for `op`, `key` and
/// `value`: `TOTAL` with an empty key, and a value only for `SET`.
pub open spec fn intended_request(op: ReqType, key: Option<Seq<char>>, value: Option<Seq<char>>)
    -> RequestModel
{
    RequestModel {
        op,
        key: if op == ReqType::TOTAL {
            Seq::<char>::empty()
        } else {
            key.unwrap()
        },
        value: if op == ReqType::SET {
            value
        } else {
            None
        },
    }
}

/// Whatever a client encodes, the server decodes as the intended request.
/// The encoding is that request's bytes, followed, when a value was given to
/// a kind other than `SET` and `TOTAL`, by that value's frame, which the server
/// then reads as the start of the next request.
pub proof fn lemma_client_request_decodes(
    op: ReqType,
    key: Option<Seq<char>>,
    value: Option<Seq<char>>,
    rest: Seq<u8>,
)
    requires
        request_bytes(op, key, value) is Ok,
        key matches Some(k) ==> fits_frame(k),
        value matches Some(v) ==> fits_frame(v),
    ensures
        ({
            let r = intended_request(op, key, value);
            let stray = if op != ReqType::SET && op != ReqType::TOTAL && value is Some {
                str_frame(value.unwrap())
            } else {
                Seq::<u8>::empty()
            };
            &&& request_bytes(op, key, value) == Ok::<Seq<u8>, RequestError>(
                request_wire(r) + stray,
            )
            &&& parse_request(request_bytes(op, key, value)->Ok_0 + rest) == Ok::<
                (RequestModel, int),
                DecodeError,
            >((r, request_wire(r).len() as int))
        }),
{
    let r = intended_request(op, key, value);
    let stray = if op != ReqType::SET && op != ReqType::TOTAL && value is Some {
        str_frame(value.unwrap())
    } else {
        Seq::<u8>::empty()
    };
    if op == ReqType::TOTAL {
        assert(str_frame(Seq::<char>::empty()) =~= be32(0));
    }
    assert(request_bytes(op, key, value)->Ok_0 =~= request_wire(r) + stray);
    assert(sendable_request(r)) by {
        if op == ReqType::TOTAL {
            assert(encode_utf8(Seq::<char>::empty()).len() == 0);
        }
    }
    lemma_request_roundtrip(r, stray + rest);
    assert(request_bytes(op, key, value)->Ok_0 + rest =~= request_wire(r) + (stray + rest));
}

/// What a client reads back from a response: the same status, and the same
/// value except that an empty value reads as none.
pub open spec fn received_response(r: ResponseModel) -> ResponseModel {
    ResponseModel {
        status: r.status,
        value: match r.value {
            Some(v) => if v.len() == 0 {
                None
            } else {
                Some(v)
            },
            None => None,
        },
    }
}

/// A client decodes a sent response, followed by anything, as the response
/// it was (an empty value reading as none), taking exactly its bytes.
pub proof fn lemma_response_roundtrip(r: ResponseModel, rest: Seq<u8>)
    requires
        r.value matches Some(v) ==> fits_frame(v),
    ensures
        parse_response(response_bytes(r) + rest) == Ok::<(ResponseModel, int), DecodeError>(
            (received_response(r), response_bytes(r).len() as int),
        ),
{
    let head = seq![status_code(r.status)];
    let v = match r.value {
        Some(v) => v,
        None => Seq::<char>::empty(),
    };
    assert(str_frame(Seq::<char>::empty()) =~= be32(0));
    let b = response_bytes(r) + rest;
    assert(b =~= head + str_frame(v) + rest);
    lemma_str_frame_roundtrip(head, v, rest);
    assert(encode_utf8(Seq::<char>::empty()).len() == 0);
    assert(b[0] == status_code(r.status));
    assert(status_of_code(status_code(r.status)) == r.status);
}

/// How a decoding outcome on `b` carries over to `b` followed by `ext`: a
/// decoded message or a malformed one stays as it was, and a message that was
/// `missing` bytes short stays short, by fewer bytes, while fewer than
/// `missing` bytes are added.
pub open spec fn outcome_extends<T>(
    before: Result<T, DecodeError>,
    after: Result<T, DecodeError>,
    added: nat,
) -> bool {
    match before {
        Err(DecodeError::Incomplete { missing }) => added < missing ==> after == Err::<
            T,
            DecodeError,
        >(DecodeError::Incomplete { missing: (missing - added) as u32 }),
        _ => after == before,
    }
}

proof fn lemma_parse_str_extends(b: Seq<u8>, pos: int, ext: Seq<u8>)
    requires
        0 <= pos <= b.len(),
    ensures
        outcome_extends(parse_str(b, pos), parse_str(b + ext, pos), ext.len()),
{
    let c = b + ext;
    if b.len() >= pos + 4 {
        assert(c.subrange(pos, pos + 4) =~= b.subrange(pos, pos + 4));
        let end = pos + 4 + be32_value(b.subrange(pos, pos + 4));
        if b.len() >= end {
            assert(c.subrange(pos + 4, end) =~= b.subrange(pos + 4, end));
        }
    }
}

/// Decoding a request never looks past the bytes it reports: once decoded or
/// refused it stays so whatever follows, and while it is `missing` bytes
/// short, reading fewer bytes than that leaves it short by the rest.
pub proof fn lemma_request_decoding_extends(b: Seq<u8>, ext: Seq<u8>)
    ensures
        outcome_extends(parse_request(b), parse_request(b + ext), ext.len()),
{
    let c = b + ext;
    if b.len() > 0 {
        assert(c[0] == b[0]);
        lemma_parse_str_extends(b, 1, ext);
        if let Ok((key, p)) = parse_str(b, 1) {
            lemma_parse_str_extends(b, p, ext);
        }
    }
}

/// Decoding a response never looks past the bytes it reports, in the same
/// sense as for requests.
pub proof fn lemma_response_decoding_extends(b: Seq<u8>, ext: Seq<u8>)
    ensures
        outcome_extends(parse_response(b), parse_response(b + ext), ext.len()),
{
    let c = b + ext;
    if b.len() > 0 {
        assert(c[0] == b[0]);
        lemma_parse_str_extends(b, 1, ext);
    }
}

/// A read gives back a write, across the wire: a client's `SET` of a
/// non-empty value, decoded and applied by the server, then a client's `GET`
/// of the same key, decoded and applied, is answered with a response that the
/// client reads as `OK` with that value. (An empty value is sent back as an
/// empty frame, which a client reads as no value.)
pub proof fn lemma_read_after_write_over_the_wire(
    m: Map<Seq<char>, Seq<char>>,
    k: Seq<char>,
    v: Seq<char>,
)
    requires
        fits_frame(k),
        fits_frame(v),
        v.len() > 0,
    ensures
        ({
            let set_bytes = request_bytes(ReqType::SET, Some(k), Some(v))->Ok_0;
            let set_req = parse_request(set_bytes)->Ok_0.0;
            let m1 = apply_request(m, set_req).0;
            let get_bytes = request_bytes(ReqType::GET, Some(k), None)->Ok_0;
            let get_req = parse_request(get_bytes)->Ok_0.0;
            let reply = response_bytes(apply_request(m1, get_req).1);
            parse_response(reply)->Ok_0.0 == ResponseModel { status: Status::OK, value: Some(v) }
        }),
{
    let empty = Seq::<u8>::empty();
    lemma_client_request_decodes(ReqType::SET, Some(k), Some(v), empty);
    let set_bytes = request_bytes(ReqType::SET, Some(k), Some(v))->Ok_0;
    assert(set_bytes + empty =~= set_bytes);
    lemma_client_request_decodes(ReqType::GET, Some(k), None, empty);
    let get_bytes = request_bytes(ReqType::GET, Some(k), None)->Ok_0;
    assert(get_bytes + empty =~= get_bytes);
    let m1 = m.insert(k, v);
    let resp = ResponseModel { status: Status::OK, value: Some(v) };
    lemma_response_roundtrip(resp, empty);
    assert(response_bytes(resp) + empty =~= response_bytes(resp));
}

/// A raw response is read as it is: the status is the reply's first byte,
/// the value the bytes after the length field, as many as it says, and the
/// bytes taken end right after them.
pub proof fn lemma_raw_response_fields(b: Seq<u8>)
    ensures
        parse_raw_response(b) matches Ok((s, v, n)) ==> {
            &&& s == b[0]
            &&& n == 5 + be32_value(b.subrange(1, 5))
            &&& n <= b.len()
            &&& v == b.subrange(5, n)
        },
        parse_raw_response(b) is Err ==> b.len() < 5 || b.len() < 5 + be32_value(b.subrange(1, 5)),
{
}

/// Only `SET` needs a value and only `TOTAL` goes without a key: encoding
/// succeeds exactly when the request kind is `TOTAL`, or a key is given and
/// the kind is not `SET` or a value is given. A request with a key and no value
/// of a kind other than `SET` and `TOTAL` is its kind byte and the key's frame.
pub proof fn lemma_encoding_succeeds(op: ReqType, key: Option<Seq<char>>, value: Option<Seq<char>>)
    ensures
        (request_bytes(op, key, value) is Ok) == (op == ReqType::TOTAL || (key is Some && (op
            != ReqType::SET || value is Some))),
        request_bytes(op, key, value) == Err::<Seq<u8>, RequestError>(RequestError::MissingKey)
            <==> (op != ReqType::TOTAL && key is None),
        request_bytes(op, key, value) == Err::<Seq<u8>, RequestError>(RequestError::MissingValue)
            <==> (op == ReqType::SET && key is Some && value is None),
        (op != ReqType::SET && op != ReqType::TOTAL && key is Some && value is None)
            ==> request_bytes(op, key, value) == Ok::<Seq<u8>, RequestError>(
            seq![op_code(op)] + str_frame(key->Some_0),
        ),
{
}

} // verus!
