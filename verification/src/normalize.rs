//! Reduces a word to a canonical lower-case ASCII form: first every character
//! is transliterated to ASCII, then ASCII capitals are lowered.

use vstd::prelude::*;
use vstd::utf8::is_ascii_chars;

verus! {

/// The ASCII transliteration of `text`: what `unidecode::unidecode` returns
/// for it.
pub uninterp spec fn transliteration(text: Seq<char>) -> Seq<char>;

/// `unidecode::unidecode`. The result is named by [`transliteration`]. The
/// crate looks every character up in a fixed table of ASCII strings and joins
/// what it finds, so the result is ASCII, and ASCII text, which the table maps
/// to itself character by character, comes back unchanged.
#[verifier::external_body]
fn transliterate(text: &str) -> (plain: String)
    ensures
        plain@ == transliteration(text@),
        is_ascii_chars(plain@),
        is_ascii_chars(text@) ==> plain@ == text@,
{
    unidecode::unidecode(text)
}

/// `c` with an ASCII capital replaced by its small letter.
pub open spec fn lower(c: char) -> char {
    if 'A' <= c && c <= 'Z' {
        ((c as u32) + 32) as char
    } else {
        c
    }
}

/// `text` with every ASCII capital replaced by its small letter.
pub open spec fn lowercase(text: Seq<char>) -> Seq<char> {
    text.map_values(|c: char| lower(c))
}

/// The canonical form of `word`.
pub open spec fn normal_form(word: Seq<char>) -> Seq<char> {
    lowercase(transliteration(word))
}

/// No character of `text` is an ASCII capital.
pub open spec fn has_no_capitals(text: Seq<char>) -> bool {
    forall|i: int| 0 <= i < text.len() ==> !('A' <= #[trigger] text[i] && text[i] <= 'Z')
}

/// Lowers one character.
pub fn lower_char(c: char) -> (l: char)
    ensures
        l == lower(c),
{
    if c >= 'A' && c <= 'Z' {
        ((c as u8) + 32u8) as char
    } else {
        c
    }
}

/// Lowers the ASCII capitals of `text`; every other character stays.
pub fn to_lowercase(text: &str) -> (lowered: String)
    ensures
        lowered@ == lowercase(text@),
{
    let mut lowered = String::new();
    for c in it: text.chars()
        invariant
            it.seq() == text@,
            lowered@ == lowercase(text@).take(it.index() as int),
    {
        lowered.push(lower_char(c));
    }
    lowered
}

/// The canonical form of `word`: its ASCII transliteration in lower case. It
/// is defined for every word, is pure ASCII and holds no capital; of an ASCII
/// word it is the word itself in lower case.
pub fn normalize(word: &str) -> (normal: String)
    ensures
        normal@ == normal_form(word@),
        is_ascii_chars(normal@),
        has_no_capitals(normal@),
        is_ascii_chars(word@) ==> normal@ == lowercase(word@),
{
    let plain = transliterate(word);
    to_lowercase(plain.as_str())
}

} // verus!
