//! Reduces a word in canonical form to its English root.

use vstd::prelude::*;
use vstd::string::is_ascii_spec_bytes;
use vstd::utf8::is_ascii_chars;

verus! {

/// The longest word, in characters, that is handed to the stemmer, which
/// keeps its positions in 32-bit signed integers.
pub const STEM_LIMIT: usize = 0x7fff_ffff;

/// The root of `word` after the Snowball algorithm for English: what
/// `rust_stemmers::Stemmer::stem` returns for it.
pub uninterp spec fn english_stem(word: Seq<char>) -> Seq<char>;

/// `word` can be handed to the stemmer: it is ASCII and within
/// [`STEM_LIMIT`].
pub open spec fn stemmable(word: Seq<char>) -> bool {
    is_ascii_chars(word) && word.len() <= STEM_LIMIT
}

/// `rust_stemmers::Stemmer::stem` of the stemmer that
/// `Stemmer::create(Algorithm::English)` makes. The stemmer is a fixed function
/// of the word, and its result is named by [`english_stem`].
#[verifier::external_body]
fn snowball_english(word: &str) -> (root: String)
    requires
        stemmable(word@),
    ensures
        root@ == english_stem(word@),
{
    rust_stemmers::Stemmer::create(rust_stemmers::Algorithm::English).stem(word).into_owned()
}

/// The root of `word`: its English stem where the stemmer can take the word,
/// else the word itself.
pub open spec fn stem_of(word: Seq<char>) -> Seq<char> {
    if stemmable(word) {
        english_stem(word)
    } else {
        word
    }
}

/// The root of `word`. A word that is not ASCII, or longer than
/// [`STEM_LIMIT`], is returned as it is.
pub fn stem(word: &str) -> (root: String)
    ensures
        root@ == stem_of(word@),
{
    let ascii = word.is_ascii();
    let length = word.as_bytes().len();
    proof {
        if ascii {
            is_ascii_spec_bytes(word);
        }
    }
    if ascii && length <= STEM_LIMIT {
        snowball_english(word)
    } else {
        word.to_owned()
    }
}

} // verus!
