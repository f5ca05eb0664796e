//! Writes a byte string as a short identifier that can stand in a CSS class
//! name or a URL path: base 64 over the alphabet `A-Z a-z 0-9 - _`, six bits a
//! character, most significant bits first, without padding.

use vstd::prelude::*;

verus! {

/// The character that stands for the six-bit value `v`: `A` to `Z` for 0 to
/// 25, `a` to `z` for 26 to 51, `0` to `9` for 52 to 61, then `-` and `_`.
pub open spec fn symbol(v: int) -> char {
    if v < 26 {
        (65 + v) as char
    } else if v < 52 {
        (71 + v) as char
    } else if v < 62 {
        (v - 4) as char
    } else if v == 62 {
        '-'
    } else {
        '_'
    }
}

/// `c` may stand in an identifier: an ASCII letter or digit, `-` or `_`.
pub open spec fn is_identifier_char(c: char) -> bool {
    ('A' <= c && c <= 'Z') || ('a' <= c && c <= 'z') || ('0' <= c && c <= '9') || c == '-' || c
        == '_'
}

/// Every character of `text` may stand in an identifier.
pub open spec fn is_identifier(text: Seq<char>) -> bool {
    forall|i: int| 0 <= i < text.len() ==> is_identifier_char(#[trigger] text[i])
}

/// The identifier that stands for `bytes`. Three bytes give four characters; a
/// last group of one byte gives two, of two bytes three.
pub open spec fn encoded(bytes: Seq<u8>) -> Seq<char>
    decreases bytes.len(),
{
    if bytes.len() == 0 {
        Seq::empty()
    } else if bytes.len() == 1 {
        let b0 = bytes[0] as int;
        seq![symbol(b0 / 4), symbol((b0 % 4) * 16)]
    } else if bytes.len() == 2 {
        let b0 = bytes[0] as int;
        let b1 = bytes[1] as int;
        seq![symbol(b0 / 4), symbol((b0 % 4) * 16 + b1 / 16), symbol((b1 % 16) * 4)]
    } else {
        let b0 = bytes[0] as int;
        let b1 = bytes[1] as int;
        let b2 = bytes[2] as int;
        seq![
            symbol(b0 / 4),
            symbol((b0 % 4) * 16 + b1 / 16),
            symbol((b1 % 16) * 4 + b2 / 64),
            symbol(b2 % 64),
        ] + encoded(bytes.skip(3))
    }
}

/// The number of characters that stand for `count` bytes.
pub open spec fn encoded_len(count: nat) -> nat {
    (count / 3 * 4 + if count % 3 == 0 {
        0
    } else {
        count % 3 + 1
    }) as nat
}

/// An identifier holds only characters that may stand in an identifier,
/// among them no padding, and as many as its bytes ask for.
pub proof fn lemma_encoded_is_identifier(bytes: Seq<u8>)
    ensures
        is_identifier(encoded(bytes)),
        encoded(bytes).len() == encoded_len(bytes.len()),
        !encoded(bytes).contains('='),
    decreases bytes.len(),
{
    if bytes.len() >= 3 {
        lemma_encoded_is_identifier(bytes.skip(3));
    }
}

/// Two six-bit values with the same character are the same value.
proof fn lemma_symbol_is_injective(first: int, second: int)
    requires
        0 <= first < 64,
        0 <= second < 64,
        symbol(first) == symbol(second),
    ensures
        first == second,
{
}

/// Two byte strings with the same identifier are the same byte string.
pub proof fn lemma_encoded_is_injective(first: Seq<u8>, second: Seq<u8>)
    requires
        encoded(first) == encoded(second),
    ensures
        first == second,
    decreases first.len(),
{
    lemma_encoded_is_identifier(first);
    lemma_encoded_is_identifier(second);
    assert(first.len() == second.len());
    let a = encoded(first);
    let b = encoded(second);
    if first.len() == 0 {
    } else {
        let a0 = first[0] as int;
        let b0 = second[0] as int;
        assert(a[0] == b[0] && a[1] == b[1]);
        lemma_symbol_is_injective(a0 / 4, b0 / 4);
        if first.len() == 1 {
            lemma_symbol_is_injective((a0 % 4) * 16, (b0 % 4) * 16);
        } else {
            let a1 = first[1] as int;
            let b1 = second[1] as int;
            assert(a[2] == b[2]);
            lemma_symbol_is_injective((a0 % 4) * 16 + a1 / 16, (b0 % 4) * 16 + b1 / 16);
            if first.len() == 2 {
                lemma_symbol_is_injective((a1 % 16) * 4, (b1 % 16) * 4);
            } else {
                let a2 = first[2] as int;
                let b2 = second[2] as int;
                assert(a[3] == b[3]);
                lemma_symbol_is_injective((a1 % 16) * 4 + a2 / 64, (b1 % 16) * 4 + b2 / 64);
                lemma_symbol_is_injective(a2 % 64, b2 % 64);
                assert(encoded(first.skip(3)) == a.skip(4));
                assert(encoded(second.skip(3)) == b.skip(4));
                lemma_encoded_is_injective(first.skip(3), second.skip(3));
                assert(second =~= seq![second[0], second[1], second[2]] + second.skip(3));
            }
        }
    }
}

/// The character that stands for the six-bit value `v`.
pub fn symbol_for(v: u8) -> (c: char)
    requires
        v < 64,
    ensures
        c == symbol(v as int),
        is_identifier_char(c),
{
    if v < 26 {
        (65u8 + v) as char
    } else if v < 52 {
        (71u8 + v) as char
    } else if v < 62 {
        (v - 4u8) as char
    } else if v == 62 {
        '-'
    } else {
        '_'
    }
}

/// The identifier that stands for `bytes`.
pub fn encode(bytes: &[u8]) -> (id: String)
    ensures
        id@ == encoded(bytes@),
        is_identifier(id@),
        id@.len() == encoded_len(bytes@.len()),
{
    proof {
        lemma_encoded_is_identifier(bytes@);
    }
    let mut id = String::new();
    let mut i: usize = 0;
    assert(bytes@.skip(0) == bytes@);
    while bytes.len() - i >= 3
        invariant
            i <= bytes.len(),
            id@ + encoded(bytes@.skip(i as int)) == encoded(bytes@),
            is_identifier(id@),
        decreases bytes.len() - i,
    {
        let b0 = bytes[i];
        let b1 = bytes[i + 1];
        let b2 = bytes[i + 2];
        assert(bytes@.skip(i as int).skip(3) == bytes@.skip(i + 3));
        id.push(symbol_for(b0 / 4));
        id.push(symbol_for((b0 % 4) * 16 + b1 / 16));
        id.push(symbol_for((b1 % 16) * 4 + b2 / 64));
        id.push(symbol_for(b2 % 64));
        i = i + 3;
    }
    if bytes.len() - i == 1 {
        let b0 = bytes[i];
        id.push(symbol_for(b0 / 4));
        id.push(symbol_for((b0 % 4) * 16));
    } else if bytes.len() - i == 2 {
        let b0 = bytes[i];
        let b1 = bytes[i + 1];
        id.push(symbol_for(b0 / 4));
        id.push(symbol_for((b0 % 4) * 16 + b1 / 16));
        id.push(symbol_for((b1 % 16) * 4));
    }
    id
}

} // verus!
