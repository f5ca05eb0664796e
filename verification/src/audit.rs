//! Checks the answer of the content service for a title of the list of
//! video games, to find titles that do not lead to the article of a game.

use vstd::prelude::*;
use crate::text::{chars_of, contains, occurs_in};

verus! {

/// The answer for a title looks doubtful: the title was redirected, it
/// leads to a page that lists several meanings, or the page does not speak
/// of a video game.
pub open spec fn is_doubtful(answer: Seq<char>) -> bool {
    occurs_in(answer, "redirects"@) || occurs_in(answer, "refer to:"@) || !occurs_in(
        answer,
        "video game"@,
    )
}

/// Whether the answer for a title looks doubtful.
pub fn looks_doubtful(answer: &str) -> (doubtful: bool)
    ensures
        doubtful == is_doubtful(answer@),
{
    let text = chars_of(answer);
    contains(&text, &chars_of("redirects")) || contains(&text, &chars_of("refer to:"))
        || !contains(&text, &chars_of("video game"))
}

} // verus!
