//! Escapes a title so that it can stand in the query of an address without
//! changing the query: every byte of its UTF-8 form that is not an ASCII
//! letter, a digit, `-`, `.`, `_` or `~` is written as `%` and two
//! hexadecimal digits.

use vstd::prelude::*;
use vstd::utf8::encode_utf8;

verus! {

/// The byte may stand in a query as it is.
pub open spec fn is_unreserved(byte: u8) -> bool {
    (0x41 <= byte && byte <= 0x5a) || (0x61 <= byte && byte <= 0x7a) || (0x30 <= byte && byte
        <= 0x39) || byte == 0x2d || byte == 0x2e || byte == 0x5f || byte == 0x7e
}

/// The hexadecimal digit, in capitals, that stands for `v`, for `v` below
/// sixteen.
pub open spec fn hex_digit(v: int) -> char {
    if v < 10 {
        (48 + v) as char
    } else {
        (55 + v) as char
    }
}

/// What stands for `byte` in a query.
pub open spec fn escaped_byte(byte: u8) -> Seq<char> {
    if is_unreserved(byte) {
        seq![byte as char]
    } else {
        seq!['%', hex_digit(byte as int / 16), hex_digit(byte as int % 16)]
    }
}

/// What stands for `bytes` in a query.
pub open spec fn escaped_bytes(bytes: Seq<u8>) -> Seq<char> {
    bytes.map_values(|b: u8| escaped_byte(b)).flatten()
}

/// What stands for `text` in a query.
pub open spec fn escaped(text: Seq<char>) -> Seq<char> {
    escaped_bytes(encode_utf8(text))
}

/// `c` may stand in an escaped text: an unreserved character, or `%`.
pub open spec fn is_query_safe(c: char) -> bool {
    ('A' <= c && c <= 'Z') || ('a' <= c && c <= 'z') || ('0' <= c && c <= '9') || c == '-' || c
        == '.' || c == '_' || c == '~' || c == '%'
}

/// Every character of `text` may stand in an escaped text.
pub open spec fn is_escaped(text: Seq<char>) -> bool {
    forall|i: int| 0 <= i < text.len() ==> is_query_safe(#[trigger] text[i])
}

/// An escaped text holds no character that could change a query: no `&`,
/// `=`, `#`, `+`, `?`, no space, nothing but unreserved characters and `%`.
pub proof fn lemma_escaped_bytes_are_safe(bytes: Seq<u8>)
    ensures
        is_escaped(escaped_bytes(bytes)),
    decreases bytes.len(),
{
    let parts = bytes.map_values(|b: u8| escaped_byte(b));
    if bytes.len() > 0 {
        lemma_escaped_bytes_are_safe(bytes.drop_last());
        assert(parts.drop_last() == bytes.drop_last().map_values(|b: u8| escaped_byte(b)));
        assert(parts == parts.drop_last().push(parts.last()));
        parts.drop_last().lemma_flatten_push(parts.last());
    }
}

/// The hexadecimal digit that stands for `v`.
fn hex_digit_for(v: u8) -> (c: char)
    requires
        v < 16,
    ensures
        c == hex_digit(v as int),
{
    if v < 10 {
        (48u8 + v) as char
    } else {
        (55u8 + v) as char
    }
}

/// What stands for `text` in a query. The result holds unreserved
/// characters and `%` only, so that nothing in it can end the query or open
/// another one.
pub fn escape(text: &str) -> (safe: String)
    ensures
        safe@ == escaped(text@),
        is_escaped(safe@),
{
    let bytes = text.as_bytes();
    let mut safe = String::new();
    let mut i: usize = 0;
    proof {
        lemma_escaped_bytes_are_safe(bytes@);
    }
    while i < bytes.len()
        invariant
            i <= bytes.len(),
            safe@ == escaped_bytes(bytes@.take(i as int)),
        decreases bytes.len() - i,
    {
        let byte = bytes[i];
        proof {
            let done = bytes@.take(i as int).map_values(|b: u8| escaped_byte(b));
            let next = bytes@.take(i + 1).map_values(|b: u8| escaped_byte(b));
            assert(next == done.push(escaped_byte(byte)));
            done.lemma_flatten_push(escaped_byte(byte));
        }
        let unreserved = (byte >= 0x41 && byte <= 0x5a) || (byte >= 0x61 && byte <= 0x7a) || (byte
            >= 0x30 && byte <= 0x39) || byte == 0x2d || byte == 0x2e || byte == 0x5f || byte
            == 0x7e;
        if unreserved {
            safe.push(byte as char);
        } else {
            safe.push('%');
            safe.push(hex_digit_for(byte / 16));
            safe.push(hex_digit_for(byte % 16));
        }
        i = i + 1;
    }
    assert(bytes@.take(bytes.len() as int) == bytes@);
    safe
}

} // verus!
