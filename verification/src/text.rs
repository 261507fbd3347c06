//! Text helpers: UTF-8 checked conversion of received bytes and the
//! decimal rendering of numbers.
use vstd::prelude::*;
use vstd::string::*;
use vstd::utf8::*;

verus! {

/// `String::from_utf8` from std: turns the bytes into a `String` when they are
/// well-formed UTF-8 (the string then holds exactly those bytes) and fails when
/// they are not.
#[verifier::external_body]
fn string_from_utf8(bytes: Vec<u8>) -> (result: Option<String>)
    ensures
        match result {
            Some(s) => encode_utf8(s@) == bytes@,
            None => !valid_utf8(bytes@),
        },
{
    String::from_utf8(bytes).ok()
}

/// Decodes `bytes` as UTF-8 text; `None` when they are not well-formed UTF-8.
pub fn text_from_bytes(bytes: Vec<u8>) -> (result: Option<String>)
    ensures
        match result {
            Some(s) => valid_utf8(bytes@) && s@ == decode_utf8(bytes@),
            None => !valid_utf8(bytes@),
        },
{
    let r = string_from_utf8(bytes);
    proof {
        if r is Some {
            encode_utf8_valid_utf8(r->0@);
            encode_utf8_decode_utf8(r->0@);
        }
    }
    r
}

/// The decimal digit character for `d < 10`.
pub open spec fn digit_char(d: nat) -> char {
    if d == 0 { '0' } else if d == 1 { '1' } else if d == 2 { '2' } else if d == 3 { '3' }
    else if d == 4 { '4' } else if d == 5 { '5' } else if d == 6 { '6' } else if d == 7 { '7' }
    else if d == 8 { '8' } else { '9' }
}

/// The decimal representation of `n`, most significant digit first, with no
/// leading zeros (`0` is written as a single digit).
pub open spec fn decimal(n: nat) -> Seq<char>
    decreases n,
{
    if n < 10 {
        seq![digit_char(n)]
    } else {
        decimal(n / 10).push(digit_char(n % 10))
    }
}

/// The bytes of an ASCII character sequence.
pub open spec fn ascii_bytes(cs: Seq<char>) -> Seq<u8> {
    cs.map_values(|c: char| c as u8)
}

proof fn lemma_digit_byte(d: nat)
    requires
        d < 10,
    ensures
        digit_char(d) as u8 == 48 + d,
        '\0' <= digit_char(d) <= '\u{7f}',
{
}

/// Every character of a decimal representation is ASCII.
proof fn lemma_decimal_ascii(n: nat)
    ensures
        is_ascii_chars(decimal(n)),
        decimal(n).len() >= 1,
    decreases n,
{
    lemma_digit_byte(n % 10);
    if n >= 10 {
        lemma_decimal_ascii(n / 10);
        let d = decimal(n / 10);
        assert forall|i| 0 <= i < decimal(n).len() implies '\0' <= #[trigger] decimal(n)[i]
            <= '\u{7f}' by {
            if i < d.len() {
                assert(decimal(n)[i] == d[i]);
            }
        }
    }
}

/// Appends the ASCII digits of `n` to `buf`.
fn push_decimal(buf: &mut Vec<u8>, n: u64)
    ensures
        final(buf)@ == old(buf)@ + ascii_bytes(decimal(n as nat)),
    decreases n,
{
    if n >= 10 {
        push_decimal(buf, n / 10);
    }
    let d = (n % 10) as u8;
    proof {
        lemma_digit_byte(d as nat);
    }
    buf.push(48u8 + d);
    proof {
        let tail = ascii_bytes(decimal((n / 10) as nat));
        if n >= 10 {
            assert(ascii_bytes(decimal(n as nat)) =~= tail.push((48 + d) as u8));
        } else {
            assert(ascii_bytes(decimal(n as nat)) =~= seq![(48 + d) as u8]);
        }
        assert(final(buf)@ =~= old(buf)@ + ascii_bytes(decimal(n as nat)));
    }
}

/// The decimal text of `n`, as Rust's `to_string` writes an unsigned integer.
pub fn decimal_text(n: u64) -> (result: String)
    ensures
        result@ == decimal(n as nat),
{
    let mut buf: Vec<u8> = Vec::new();
    push_decimal(&mut buf, n);
    proof {
        let cs = decimal(n as nat);
        lemma_decimal_ascii(n as nat);
        is_ascii_chars_encode_utf8(cs);
        assert(buf@ =~= encode_utf8(cs));
        encode_utf8_valid_utf8(cs);
        encode_utf8_decode_utf8(cs);
    }
    match text_from_bytes(buf) {
        Some(s) => s,
        None => {
            proof {
                assert(false);
            }
            String::new()
        },
    }
}

} // verus!
