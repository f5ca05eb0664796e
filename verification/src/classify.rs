//! Derives the class identifier of a word: the word is brought to canonical
//! form, reduced to its root, and the root's bytes are written as an
//! identifier. Words with one root share one identifier.

use vstd::prelude::*;
use vstd::utf8::{encode_utf8, encode_utf8_decode_utf8, is_ascii_chars};
use crate::encode::{
    encode, encoded, is_identifier, lemma_encoded_is_identifier, lemma_encoded_is_injective,
};
use crate::normalize::{lowercase, normal_form, normalize};
use crate::stem::{stem, stem_of};

verus! {

/// The root that decides the class of `word`.
pub open spec fn root_of(word: Seq<char>) -> Seq<char> {
    stem_of(normal_form(word))
}

/// The class identifier of `word`.
pub open spec fn class_id(word: Seq<char>) -> Seq<char> {
    encoded(encode_utf8(root_of(word)))
}

/// The class identifier of `word`. It is defined for every word, depends on
/// nothing but the word's characters, and holds only characters that may
/// stand in a CSS class name. Of an ASCII word it is the identifier of the
/// root of the word in lower case, so that capitals make no difference.
pub fn classify(word: &str) -> (id: String)
    ensures
        id@ == class_id(word@),
        is_identifier(id@),
        is_ascii_chars(word@) ==> id@ == encoded(encode_utf8(stem_of(lowercase(word@)))),
{
    let normal = normalize(word);
    let root = stem(normal.as_str());
    encode(root.as_str().as_bytes())
}

/// Every class identifier can stand in a CSS class name: it holds ASCII
/// letters and digits, `-` and `_`, and nothing else.
pub proof fn lemma_class_id_is_identifier(word: Seq<char>)
    ensures
        is_identifier(class_id(word)),
{
    lemma_encoded_is_identifier(encode_utf8(root_of(word)));
}

/// Classifying the same word twice gives the same identifier: the identifier
/// is a function of the word's characters alone.
pub proof fn lemma_classification_is_stable(first: Seq<char>, second: Seq<char>)
    requires
        first == second,
    ensures
        class_id(first) == class_id(second),
{
}

/// Two words get the same identifier exactly if their canonical forms have
/// the same root: inflections of one word share an identifier, and words
/// with different roots never do.
pub proof fn lemma_same_class_iff_same_root(first: Seq<char>, second: Seq<char>)
    ensures
        class_id(first) == class_id(second) <==> root_of(first) == root_of(second),
{
    if class_id(first) == class_id(second) {
        lemma_encoded_is_injective(encode_utf8(root_of(first)), encode_utf8(root_of(second)));
        encode_utf8_decode_utf8(root_of(first));
        encode_utf8_decode_utf8(root_of(second));
    }
}

} // verus!
