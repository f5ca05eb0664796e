//! Removes annotation blocks, the embedded non-prose markup of an article,
//! before the text is scanned for words.
//!
//! A block opens with `<annotation`, holds at least one character, and closes
//! with `/annotation>`. Where several closers follow an opener the block runs
//! to the last of them, over line breaks too, so that two blocks leave
//! together with whatever stands between them.

use vstd::prelude::*;
use crate::text::{chars_of, matches_at, occurs_at};

verus! {

/// The text that opens a block.
pub open spec fn opener() -> Seq<char> {
    "<annotation"@
}

/// The text that closes a block.
pub open spec fn closer() -> Seq<char> {
    "/annotation>"@
}

/// The block that opens at `start` can close with the closer at `close`: the
/// opener stands at `start`, the closer at `close`, and at least one
/// character, of whatever kind, lies between the two.
pub open spec fn closes_block(text: Seq<char>, start: int, close: int) -> bool {
    &&& occurs_at(text, opener(), start)
    &&& start + opener().len() < close
    &&& occurs_at(text, closer(), close)
}

/// The last position up to `upper` at which the block that opens at `start`
/// can close, or `start` where there is none.
pub open spec fn last_close(text: Seq<char>, start: int, upper: int) -> int
    decreases upper - start,
{
    if upper <= start {
        start
    } else if closes_block(text, start, upper) {
        upper
    } else {
        last_close(text, start, upper - 1)
    }
}

/// A block opens at `start`.
pub open spec fn opens_block(text: Seq<char>, start: int) -> bool {
    last_close(text, start, text.len() as int) > start
}

/// The position behind the block that opens at `start`.
pub open spec fn block_end(text: Seq<char>, start: int) -> int {
    last_close(text, start, text.len() as int) + closer().len()
}

/// `text[from..]` without its blocks, scanning from left to right.
pub open spec fn stripped_from(text: Seq<char>, from: int) -> Seq<char>
    decreases text.len() - from,
    via stripped_from_decreases
{
    if from < 0 || from >= text.len() {
        Seq::empty()
    } else if opens_block(text, from) {
        stripped_from(text, block_end(text, from))
    } else {
        seq![text[from]] + stripped_from(text, from + 1)
    }
}

#[via_fn]
proof fn stripped_from_decreases(text: Seq<char>, from: int) {
    if 0 <= from < text.len() && opens_block(text, from) {
        lemma_last_close(text, from, text.len() as int);
    }
}

/// `text` without its blocks.
pub open spec fn stripped(text: Seq<char>) -> Seq<char> {
    stripped_from(text, 0)
}

/// Where `last_close` finds a position, the block can close there and at no
/// later position up to `upper`; where it finds none, the block can close
/// nowhere up to `upper`.
pub proof fn lemma_last_close(text: Seq<char>, start: int, upper: int)
    ensures
        start <= last_close(text, start, upper),
        last_close(text, start, upper) > start ==> last_close(text, start, upper) <= upper,
        last_close(text, start, upper) > start ==> closes_block(
            text,
            start,
            last_close(text, start, upper),
        ),
        forall|close: int|
            last_close(text, start, upper) < close <= upper ==> !closes_block(text, start, close),
    decreases upper - start,
{
    if upper > start && !closes_block(text, start, upper) {
        lemma_last_close(text, start, upper - 1);
    }
}

/// A block opens at `start` exactly if it can close somewhere, and it ends
/// behind the last closer with which it can close.
pub proof fn lemma_block_runs_to_last_closer(text: Seq<char>, start: int)
    ensures
        opens_block(text, start) <==> exists|close: int| closes_block(text, start, close),
        opens_block(text, start) ==> closes_block(
            text,
            start,
            block_end(text, start) - closer().len(),
        ),
        opens_block(text, start) ==> start < block_end(text, start) <= text.len(),
        forall|close: int| #[trigger]
            closes_block(text, start, close) ==> close + closer().len() <= block_end(text, start),
{
    lemma_last_close(text, start, text.len() as int);
}

/// Text in which no block opens is kept as it is: where no block opens
/// between `from` and `to`, stripping `text[from..]` gives `text[from..to]`
/// and then what stripping `text[to..]` gives.
pub proof fn lemma_text_outside_blocks_is_kept(text: Seq<char>, from: int, to: int)
    requires
        0 <= from <= to <= text.len(),
        forall|k: int| from <= k < to ==> !opens_block(text, k),
    ensures
        stripped_from(text, from) == text.subrange(from, to) + stripped_from(text, to),
    decreases to - from,
{
    if from < to {
        lemma_text_outside_blocks_is_kept(text, from + 1, to);
    }
}

/// The first block takes all later blocks along: where the first block of
/// `text` opens at `start`, stripping keeps what stands before the opener and
/// what stands behind the last closer of the text, and drops everything
/// between, line breaks and further blocks included. A text in which no
/// block opens is not changed.
pub proof fn lemma_first_block_is_removed(text: Seq<char>, start: int)
    requires
        0 <= start <= text.len(),
        forall|k: int| 0 <= k < start ==> !opens_block(text, k),
        start < text.len() ==> opens_block(text, start),
    ensures
        start < text.len() ==> stripped(text) == text.subrange(0, start) + text.subrange(
            block_end(text, start),
            text.len() as int,
        ),
        start == text.len() ==> stripped(text) == text,
{
    lemma_text_outside_blocks_is_kept(text, 0, start);
    if start < text.len() {
        let end = block_end(text, start);
        lemma_block_runs_to_last_closer(text, start);
        assert forall|k: int| end <= k < text.len() implies !opens_block(text, k) by {
            lemma_block_runs_to_last_closer(text, k);
            if opens_block(text, k) {
                let close = block_end(text, k) - closer().len();
                assert(closes_block(text, start, close));
            }
        }
        lemma_text_outside_blocks_is_kept(text, end, text.len() as int);
    }
}

/// Where the block cannot close at any position in `(lower, upper]`, the
/// search up to `upper` gives what the search up to `lower` gives.
proof fn lemma_last_close_skips(text: Seq<char>, start: int, lower: int, upper: int)
    requires
        lower <= upper,
        forall|close: int| lower < close <= upper ==> !closes_block(text, start, close),
    ensures
        last_close(text, start, upper) == last_close(text, start, lower),
    decreases upper - lower,
{
    if lower < upper {
        lemma_last_close_skips(text, start, lower, upper - 1);
    }
}

/// `last` is the position of the last closer in `text`, or nothing where
/// `text` holds no closer.
spec fn is_last_closer(text: Seq<char>, last: Option<usize>) -> bool {
    match last {
        Some(at) => occurs_at(text, closer(), at as int) && forall|k: int|
            at < k ==> !occurs_at(text, closer(), k),
        None => forall|k: int| !occurs_at(text, closer(), k),
    }
}

/// The position of the last closer in `text`, if it holds one.
fn last_closer(text: &Vec<char>, closer: &Vec<char>) -> (last: Option<usize>)
    requires
        closer@ == self::closer(),
    ensures
        is_last_closer(text@, last),
{
    let mut upper = text.len();
    loop
        invariant
            upper <= text.len(),
            closer@ == self::closer(),
            forall|k: int| upper < k ==> !occurs_at(text@, closer@, k),
        decreases upper,
    {
        if matches_at(text, closer, upper) {
            return Some(upper);
        }
        if upper == 0 {
            return None;
        }
        upper = upper - 1;
    }
}

/// The position behind the block that opens at `start`, if one opens there:
/// the position behind the last closer of `text`, which stands at `last`.
fn find_block_end(
    text: &Vec<char>,
    opener: &Vec<char>,
    closer: &Vec<char>,
    last: Option<usize>,
    start: usize,
) -> (end: Option<usize>)
    requires
        start < text.len(),
        opener@ == self::opener(),
        closer@ == self::closer(),
        is_last_closer(text@, last),
    ensures
        end is Some <==> opens_block(text@, start as int),
        end matches Some(e) ==> e == block_end(text@, start as int) && start < e <= text.len(),
{
    let total = text.len();
    if matches_at(text, opener, start) {
        if let Some(close) = last {
            if close > start && close - start > opener.len() {
                proof {
                    lemma_last_close_skips(text@, start as int, close as int, total as int);
                }
                return Some(close + closer.len());
            }
        }
    }
    proof {
        lemma_last_close_skips(text@, start as int, start as int, total as int);
    }
    None
}

/// `text` without its annotation blocks. Where a block opens, everything
/// from its opener through the last closer of the text is dropped, and what
/// stands before and behind is kept.
pub fn strip_annotations(text: &str) -> (clean: String)
    ensures
        clean@ == stripped(text@),
{
    let chars = chars_of(text);
    let opener = chars_of("<annotation");
    let closer = chars_of("/annotation>");
    let last = last_closer(&chars, &closer);
    let mut clean = String::new();
    let mut at: usize = 0;
    while at < chars.len()
        invariant
            at <= chars.len(),
            opener@ == self::opener(),
            closer@ == self::closer(),
            is_last_closer(chars@, last),
            clean@ + stripped_from(chars@, at as int) == stripped(chars@),
        decreases chars.len() - at,
    {
        match find_block_end(&chars, &opener, &closer, last, at) {
            Some(end) => {
                at = end;
            },
            None => {
                clean.push(chars[at]);
                at = at + 1;
            },
        }
    }
    clean
}

} // verus!
