//! The wire protocol: request kinds, status codes, and the big-endian,
//! length-prefixed framing of strings.
use vstd::prelude::*;
use vstd::utf8::*;
use vstd::slice::*;
use vstd::string::*;
use crate::text::text_from_bytes;

verus! {

/// The four bytes of `n` in big-endian order.
pub open spec fn be32(n: u32) -> Seq<u8> {
    seq![(n >> 24u32) as u8, (n >> 16u32) as u8, (n >> 8u32) as u8, n as u8]
}

/// The `u32` whose big-endian bytes are the first four of `b`.
pub open spec fn be32_value(b: Seq<u8>) -> u32
    recommends
        b.len() >= 4,
{
    ((b[0] as u32) << 24u32) | ((b[1] as u32) << 16u32) | ((b[2] as u32) << 8u32) | (b[3] as u32)
}

/// Reading back the four bytes of a number gives the number.
pub proof fn lemma_be32_roundtrip(n: u32)
    ensures
        be32_value(be32(n)) == n,
{
    let b0 = (n >> 24u32) as u8;
    let b1 = (n >> 16u32) as u8;
    let b2 = (n >> 8u32) as u8;
    let b3 = n as u8;
    assert(((b0 as u32) << 24u32) | ((b1 as u32) << 16u32) | ((b2 as u32) << 8u32) | (b3 as u32)
        == n) by (bit_vector)
        requires
            b0 == (n >> 24u32) as u8,
            b1 == (n >> 16u32) as u8,
            b2 == (n >> 8u32) as u8,
            b3 == n as u8,
    ;
}

/// A byte string preceded by its length, as four big-endian bytes.
/// The length is taken modulo 2^32, as the sender writes it.
pub open spec fn frame(bytes: Seq<u8>) -> Seq<u8> {
    be32(bytes.len() as u32) + bytes
}

/// The frame of a text: its UTF-8 bytes preceded by their length.
pub open spec fn str_frame(s: Seq<char>) -> Seq<u8> {
    frame(encode_utf8(s))
}

/// Appends the big-endian bytes of `n` to `buf`.
fn push_be32(buf: &mut Vec<u8>, n: u32)
    ensures
        final(buf)@ == old(buf)@ + be32(n),
{
    buf.push((n >> 24u32) as u8);
    buf.push((n >> 16u32) as u8);
    buf.push((n >> 8u32) as u8);
    buf.push(n as u8);
    assert(final(buf)@ =~= old(buf)@ + be32(n));
}

/// Appends `s` to `buf` as a frame: the byte length of `s` as a big-endian
/// `u32`, then the UTF-8 bytes of `s`.
pub fn write_str(buf: &mut Vec<u8>, s: &str)
    ensures
        final(buf)@ == old(buf)@ + str_frame(s@),
{
    let bytes = s.as_bytes();
    push_be32(buf, bytes.len() as u32);
    buf.extend_from_slice(bytes);
    assert(final(buf)@ =~= old(buf)@ + str_frame(s@));
}

/// The kind of a request; its byte on the wire is given by [`ReqType::code`].
#[allow(non_camel_case_types)]
#[derive(Clone, Copy, Debug, PartialEq, Eq, Structural)]
pub enum ReqType {
    GET,
    SET,
    DEL,
    EXISTS,
    TOTAL,
}

/// The status of a response; its byte on the wire is given by [`Status::code`].
#[derive(Clone, Copy, Debug, PartialEq, Eq, Structural)]
pub enum Status {
    OK,
    NotFound,
    Error,
}

/// The wire byte of each request kind.
pub open spec fn op_code(op: ReqType) -> u8 {
    match op {
        ReqType::GET => 0,
        ReqType::SET => 1,
        ReqType::DEL => 2,
        ReqType::EXISTS => 3,
        ReqType::TOTAL => 4,
    }
}

/// The request kind of a wire byte; `None` for a byte that names none.
pub open spec fn op_of_code(b: u8) -> Option<ReqType> {
    if b == 0 {
        Some(ReqType::GET)
    } else if b == 1 {
        Some(ReqType::SET)
    } else if b == 2 {
        Some(ReqType::DEL)
    } else if b == 3 {
        Some(ReqType::EXISTS)
    } else if b == 4 {
        Some(ReqType::TOTAL)
    } else {
        None
    }
}

/// The wire byte of each status.
pub open spec fn status_code(s: Status) -> u8 {
    match s {
        Status::OK => 0,
        Status::NotFound => 1,
        Status::Error => 2,
    }
}

/// The status a client reads from a wire byte: every byte other than
/// those of `Ok` and `NotFound` reads as `Error`.
pub open spec fn status_of_code(b: u8) -> Status {
    if b == 0 {
        Status::OK
    } else if b == 1 {
        Status::NotFound
    } else {
        Status::Error
    }
}

impl ReqType {
    /// The wire byte of this request kind.
    pub fn code(self) -> (b: u8)
        ensures
            b == op_code(self),
    {
        match self {
            ReqType::GET => 0,
            ReqType::SET => 1,
            ReqType::DEL => 2,
            ReqType::EXISTS => 3,
            ReqType::TOTAL => 4,
        }
    }

    /// The request kind of a wire byte, if the byte names one.
    pub fn from_code(b: u8) -> (op: Option<ReqType>)
        ensures
            op == op_of_code(b),
    {
        if b == 0 {
            Some(ReqType::GET)
        } else if b == 1 {
            Some(ReqType::SET)
        } else if b == 2 {
            Some(ReqType::DEL)
        } else if b == 3 {
            Some(ReqType::EXISTS)
        } else if b == 4 {
            Some(ReqType::TOTAL)
        } else {
            None
        }
    }
}

impl Status {
    /// The wire byte of this status.
    pub fn code(self) -> (b: u8)
        ensures
            b == status_code(self),
    {
        match self {
            Status::OK => 0,
            Status::NotFound => 1,
            Status::Error => 2,
        }
    }

    /// The status a client reads from a wire byte.
    pub fn from_code(b: u8) -> (s: Status)
        ensures
            s == status_of_code(b),
    {
        if b == 0 {
            Status::OK
        } else if b == 1 {
            Status::NotFound
        } else {
            Status::Error
        }
    }
}

/// The text of an optional string.
pub open spec fn opt_text(o: Option<String>) -> Option<Seq<char>> {
    match o {
        Some(s) => Some(s@),
        None => None,
    }
}

/// A request as the server receives it. `value` is present for `SET` only.
pub struct Request {
    pub op: ReqType,
    pub key: String,
    pub value: Option<String>,
}

/// The mathematical content of a [`Request`].
pub struct RequestModel {
    pub op: ReqType,
    pub key: Seq<char>,
    pub value: Option<Seq<char>>,
}

impl View for Request {
    type V = RequestModel;

    open spec fn view(&self) -> RequestModel {
        RequestModel { op: self.op, key: self.key@, value: opt_text(self.value) }
    }
}

/// A response: a status and an optional value.
#[derive(Clone)]
pub struct Response {
    pub status: Status,
    pub value: Option<String>,
}

/// The mathematical content of a [`Response`].
pub struct ResponseModel {
    pub status: Status,
    pub value: Option<Seq<char>>,
}

impl View for Response {
    type V = ResponseModel;

    open spec fn view(&self) -> ResponseModel {
        ResponseModel { status: self.status, value: opt_text(self.value) }
    }
}

/// Why a client-side request could not be encoded.
#[derive(Clone, Copy, Debug, PartialEq, Eq, Structural)]
pub enum RequestError {
    /// Every request kind but `TOTAL` names a key.
    MissingKey,
    /// `SET` carries a value.
    MissingValue,
}

impl RequestError {
    /// The message the client reports for this error.
    pub fn message(&self) -> (m: String)
        ensures
            m@ == match self {
                RequestError::MissingKey => "Key is required for this operation"@,
                RequestError::MissingValue => "Value is required for SET operation"@,
            },
    {
        match self {
            RequestError::MissingKey => "Key is required for this operation".to_owned(),
            RequestError::MissingValue => "Value is required for SET operation".to_owned(),
        }
    }
}

/// The bytes a client sends for a request of kind `op` with the given key and
/// value. `TOTAL` is sent with an empty key whatever is given; other kinds
/// need a key, and `SET` a value; a value given to another kind is sent too.
pub open spec fn request_bytes(op: ReqType, key: Option<Seq<char>>, value: Option<Seq<char>>)
    -> Result<Seq<u8>, RequestError>
{
    if op == ReqType::TOTAL {
        Ok(seq![op_code(op)] + be32(0))
    } else {
        match key {
            None => Err(RequestError::MissingKey),
            Some(k) => match value {
                Some(v) => Ok(seq![op_code(op)] + str_frame(k) + str_frame(v)),
                None => if op == ReqType::SET {
                    Err(RequestError::MissingValue)
                } else {
                    Ok(seq![op_code(op)] + str_frame(k))
                },
            },
        }
    }
}

/// The bytes of a response: the status byte, then the value as a frame, an
/// absent value being sent as an empty frame.
pub open spec fn response_bytes(r: ResponseModel) -> Seq<u8> {
    seq![status_code(r.status)] + match r.value {
        Some(v) => str_frame(v),
        None => be32(0),
    }
}

/// Encodes the request a client sends for `op` with `key` and `value`.
pub fn encode_request(op: ReqType, key: Option<String>, value: Option<String>) -> (result: Result<
    Vec<u8>,
    RequestError,
>)
    ensures
        match result {
            Ok(bytes) => request_bytes(op, opt_text(key), opt_text(value)) == Ok::<
                Seq<u8>,
                RequestError,
            >(bytes@),
            Err(e) => request_bytes(op, opt_text(key), opt_text(value)) == Err::<
                Seq<u8>,
                RequestError,
            >(e),
        },
{
    let mut buf: Vec<u8> = Vec::new();
    buf.push(op.code());
    if op == ReqType::TOTAL {
        push_be32(&mut buf, 0);
        assert(buf@ =~= seq![op_code(op)] + be32(0));
        return Ok(buf);
    }
    match key {
        None => Err(RequestError::MissingKey),
        Some(k) => {
            write_str(&mut buf, k.as_str());
            match value {
                Some(v) => {
                    write_str(&mut buf, v.as_str());
                    Ok(buf)
                },
                None => {
                    if op == ReqType::SET {
                        Err(RequestError::MissingValue)
                    } else {
                        Ok(buf)
                    }
                },
            }
        },
    }
}

/// The request a benchmark client sends to store `val` under `key`.
pub fn encode_set(key: &str, val: &str) -> (bytes: Vec<u8>)
    ensures
        bytes@ == seq![op_code(ReqType::SET)] + str_frame(key@) + str_frame(val@),
{
    let mut buf: Vec<u8> = Vec::new();
    buf.push(1u8);
    write_str(&mut buf, key);
    write_str(&mut buf, val);
    buf
}

/// The request a benchmark client sends to read `key`.
pub fn encode_get(key: &str) -> (bytes: Vec<u8>)
    ensures
        bytes@ == seq![op_code(ReqType::GET)] + str_frame(key@),
{
    let mut buf: Vec<u8> = Vec::new();
    buf.push(0u8);
    write_str(&mut buf, key);
    buf
}

/// Encodes a response as the server sends it.
pub fn encode_response(res: &Response) -> (bytes: Vec<u8>)
    ensures
        bytes@ == response_bytes(res@),
{
    let mut buf: Vec<u8> = Vec::new();
    buf.push(res.status.code());
    match &res.value {
        Some(v) => write_str(&mut buf, v.as_str()),
        None => push_be32(&mut buf, 0),
    }
    buf
}

/// Why received bytes do not (yet) decode.
#[derive(Clone, Copy, Debug, PartialEq, Eq, Structural)]
pub enum DecodeError {
    /// The bytes are a strict prefix of a message: at least `missing` more
    /// bytes are needed before decoding can go on.
    Incomplete { missing: u32 },
    /// The first byte names no request kind.
    UnknownOp { code: u8 },
    /// A string's bytes are not well-formed UTF-8.
    InvalidUtf8,
}

/// Decodes the frame that starts at `pos` in `b`: the text and the position
/// just after it.
pub open spec fn parse_str(b: Seq<u8>, pos: int) -> Result<(Seq<char>, int), DecodeError> {
    if b.len() < pos + 4 {
        Err(DecodeError::Incomplete { missing: (pos + 4 - b.len()) as u32 })
    } else {
        let end = pos + 4 + be32_value(b.subrange(pos, pos + 4));
        if b.len() < end {
            Err(DecodeError::Incomplete { missing: (end - b.len()) as u32 })
        } else if valid_utf8(b.subrange(pos + 4, end)) {
            Ok((decode_utf8(b.subrange(pos + 4, end)), end))
        } else {
            Err(DecodeError::InvalidUtf8)
        }
    }
}

/// Decodes the request at the start of `b`: the kind byte, the key, and for
/// `SET` the value; with the number of bytes it takes.
pub open spec fn parse_request(b: Seq<u8>) -> Result<(RequestModel, int), DecodeError> {
    if b.len() == 0 {
        Err(DecodeError::Incomplete { missing: 1 })
    } else {
        match op_of_code(b[0]) {
            None => Err(DecodeError::UnknownOp { code: b[0] }),
            Some(op) => match parse_str(b, 1) {
                Err(e) => Err(e),
                Ok((key, p)) => if op == ReqType::SET {
                    match parse_str(b, p) {
                        Err(e) => Err(e),
                        Ok((v, q)) => Ok((RequestModel { op, key, value: Some(v) }, q)),
                    }
                } else {
                    Ok((RequestModel { op, key, value: None }, p))
                },
            },
        }
    }
}

/// Decodes the response at the start of `b` as a client reads it: an empty
/// value reads as no value.
pub open spec fn parse_response(b: Seq<u8>) -> Result<(ResponseModel, int), DecodeError> {
    if b.len() == 0 {
        Err(DecodeError::Incomplete { missing: 1 })
    } else {
        match parse_str(b, 1) {
            Err(e) => Err(e),
            Ok((v, p)) => Ok(
                (
                    ResponseModel {
                        status: status_of_code(b[0]),
                        value: if v.len() == 0 {
                            None
                        } else {
                            Some(v)
                        },
                    },
                    p,
                ),
            ),
        }
    }
}

/// Decodes the response at the start of `b` without reading its value as
/// text: the status byte, the value's bytes, and the bytes taken.
pub open spec fn parse_raw_response(b: Seq<u8>) -> Result<(u8, Seq<u8>, int), DecodeError> {
    if b.len() < 5 {
        Err(DecodeError::Incomplete { missing: (5 - b.len()) as u32 })
    } else {
        let end = 5 + be32_value(b.subrange(1, 5));
        if b.len() < end {
            Err(DecodeError::Incomplete { missing: (end - b.len()) as u32 })
        } else {
            Ok((b[0], b.subrange(5, end), end))
        }
    }
}

/// Reads the big-endian `u32` at `pos`.
fn read_be32(buf: &[u8], pos: usize) -> (n: u32)
    requires
        pos + 4 <= buf@.len(),
    ensures
        n == be32_value(buf@.subrange(pos as int, pos + 4)),
{
    let b0 = buf[pos];
    let b1 = buf[pos + 1];
    let b2 = buf[pos + 2];
    let b3 = buf[pos + 3];
    ((b0 as u32) << 24u32) | ((b1 as u32) << 16u32) | ((b2 as u32) << 8u32) | (b3 as u32)
}

/// Locates the frame that starts at `pos`: the end of its length field and
/// the end of its bytes.
fn locate_frame(buf: &[u8], pos: usize) -> (r: Result<(usize, usize), DecodeError>)
    requires
        pos <= buf@.len(),
    ensures
        match r {
            Ok((start, end)) => {
                &&& buf@.len() >= pos + 4
                &&& start == pos + 4
                &&& end == start + be32_value(buf@.subrange(pos as int, pos + 4))
                &&& end <= buf@.len()
            },
            Err(e) => {
                ||| (buf@.len() < pos + 4 && e == DecodeError::Incomplete {
                    missing: (pos + 4 - buf@.len()) as u32,
                })
                ||| (buf@.len() >= pos + 4 && buf@.len() < pos + 4 + be32_value(
                    buf@.subrange(pos as int, pos + 4),
                ) && e == DecodeError::Incomplete {
                    missing: (pos + 4 + be32_value(buf@.subrange(pos as int, pos + 4))
                        - buf@.len()) as u32,
                })
            },
        },
{
    let len = buf.len();
    if len - pos < 4 {
        return Err(DecodeError::Incomplete { missing: (4 - (len - pos)) as u32 });
    }
    let n = read_be32(buf, pos);
    let avail = len - pos - 4;
    if (avail as u64) < (n as u64) {
        return Err(DecodeError::Incomplete { missing: n - (avail as u32) });
    }
    let start = pos + 4;
    Ok((start, start + n as usize))
}

/// Decodes the frame that starts at `pos` as text, with the position just
/// after it.
pub fn decode_str(buf: &[u8], pos: usize) -> (r: Result<(String, usize), DecodeError>)
    requires
        pos <= buf@.len(),
    ensures
        match r {
            Ok((s, end)) => parse_str(buf@, pos as int) == Ok::<(Seq<char>, int), DecodeError>(
                (s@, end as int),
            ),
            Err(e) => parse_str(buf@, pos as int) == Err::<(Seq<char>, int), DecodeError>(e),
        },
{
    let (start, end) = match locate_frame(buf, pos) {
        Ok(p) => p,
        Err(e) => return Err(e),
    };
    let bytes = slice_to_vec(slice_subrange(buf, start, end));
    match text_from_bytes(bytes) {
        Some(s) => Ok((s, end)),
        None => Err(DecodeError::InvalidUtf8),
    }
}

/// Decodes the request at the start of `buf`, with the number of bytes it
/// takes; `Incomplete` tells how many more bytes to read first.
pub fn decode_request(buf: &[u8]) -> (r: Result<(Request, usize), DecodeError>)
    ensures
        match r {
            Ok((req, n)) => parse_request(buf@) == Ok::<(RequestModel, int), DecodeError>(
                (req@, n as int),
            ),
            Err(e) => parse_request(buf@) == Err::<(RequestModel, int), DecodeError>(e),
        },
{
    if buf.len() == 0 {
        return Err(DecodeError::Incomplete { missing: 1 });
    }
    let op = match ReqType::from_code(buf[0]) {
        Some(op) => op,
        None => return Err(DecodeError::UnknownOp { code: buf[0] }),
    };
    let (key, p) = match decode_str(buf, 1) {
        Ok(kp) => kp,
        Err(e) => return Err(e),
    };
    if op == ReqType::SET {
        let (value, q) = match decode_str(buf, p) {
            Ok(vq) => vq,
            Err(e) => return Err(e),
        };
        Ok((Request { op, key, value: Some(value) }, q))
    } else {
        Ok((Request { op, key, value: None }, p))
    }
}

/// Decodes the response at the start of `buf` as a client reads it, with the
/// number of bytes it takes.
pub fn decode_response(buf: &[u8]) -> (r: Result<(Response, usize), DecodeError>)
    ensures
        match r {
            Ok((res, n)) => parse_response(buf@) == Ok::<(ResponseModel, int), DecodeError>(
                (res@, n as int),
            ),
            Err(e) => parse_response(buf@) == Err::<(ResponseModel, int), DecodeError>(e),
        },
{
    if buf.len() == 0 {
        return Err(DecodeError::Incomplete { missing: 1 });
    }
    let status = Status::from_code(buf[0]);
    let (text, p) = match decode_str(buf, 1) {
        Ok(tp) => tp,
        Err(e) => return Err(e),
    };
    let value = if text.as_str().is_empty() {
        None
    } else {
        Some(text)
    };
    Ok((Response { status, value }, p))
}

/// Decodes the response at the start of `buf` without reading its value as
/// text: the status byte, the value's bytes, and the bytes taken.
pub fn decode_raw_response(buf: &[u8]) -> (r: Result<(u8, Vec<u8>, usize), DecodeError>)
    ensures
        match r {
            Ok((status, value, n)) => parse_raw_response(buf@) == Ok::<
                (u8, Seq<u8>, int),
                DecodeError,
            >((status, value@, n as int)),
            Err(e) => parse_raw_response(buf@) == Err::<(u8, Seq<u8>, int), DecodeError>(e),
        },
{
    if buf.len() == 0 {
        return Err(DecodeError::Incomplete { missing: 5 });
    }
    let (start, end) = match locate_frame(buf, 1) {
        Ok(p) => p,
        Err(e) => return Err(e),
    };
    let value = slice_to_vec(slice_subrange(buf, start, end));
    Ok((buf[0], value, end))
}

} // verus!
