//! Splits article text into tokens: words, which are to be redacted, and the
//! markup between them, which is passed through.
//!
//! A word is a maximal run of letters, ASCII digits and apostrophes that
//! starts outside a tag. It takes a `&` that stands directly before it and a
//! `;` that stands directly behind it along; a word with both looks like an
//! HTML entity. A position lies inside a tag when, reading on from it, a `>`
//! comes before any `<`.

use vstd::prelude::*;
use crate::text::{chars_of, string_of_range};

verus! {

/// `pattern` finds a match in the text that holds `c` alone: what
/// `fancy_regex::Regex::is_match` returns for the two.
pub uninterp spec fn matches_alone(pattern: Seq<char>, c: char) -> bool;

/// The pattern of the letters: the Unicode general category `L`.
pub open spec fn letter_pattern() -> Seq<char> {
    "\\p{L}"@
}

/// `c` is a letter.
pub open spec fn unicode_letter(c: char) -> bool {
    matches_alone(letter_pattern(), c)
}

/// `fancy_regex::Regex::new` for `pattern`, then `Regex::is_match` on the text
/// that holds `c` alone. The answer is named by [`matches_alone`]; an error of
/// the engine counts as no match.
#[verifier::external_body]
fn matches_char(pattern: &str, c: char) -> (found: bool)
    requires
        pattern@ == letter_pattern(),
    ensures
        found == matches_alone(pattern@, c),
{
    let mut buffer = [0u8; 4];
    match fancy_regex::Regex::new(pattern) {
        Ok(class) => matches!(class.is_match(c.encode_utf8(&mut buffer)), Ok(true)),
        Err(_) => false,
    }
}

/// `c` can stand in a word: a letter, an ASCII digit or an apostrophe. Among
/// the ASCII characters the letters are `a` to `z` and `A` to `Z`.
pub open spec fn is_word_char(c: char) -> bool {
    if c <= '\u{7f}' {
        ('a' <= c && c <= 'z') || ('A' <= c && c <= 'Z') || ('0' <= c && c <= '9') || c == '\''
    } else {
        unicode_letter(c)
    }
}

/// The position `at` lies inside a tag: from `at` on, a `>` comes before any
/// `<`.
pub open spec fn inside_tag(text: Seq<char>, at: int) -> bool {
    exists|close: int|
        at <= close < text.len() && #[trigger] text[close] == '>' && forall|k: int|
            at <= k < close ==> text[k] != '<'
}

/// A word can start at `at`: a word character stands there, outside any tag.
pub open spec fn word_starts(text: Seq<char>, at: int) -> bool {
    0 <= at < text.len() && is_word_char(text[at]) && !inside_tag(text, at)
}

/// The end of the run of word characters that starts at `at`.
pub open spec fn run_end(text: Seq<char>, at: int) -> int
    decreases text.len() - at,
{
    if 0 <= at < text.len() && is_word_char(text[at]) {
        run_end(text, at + 1)
    } else {
        at
    }
}

/// A word token starts at `at` with a `&`.
pub open spec fn word_led_at(text: Seq<char>, at: int) -> bool {
    0 <= at < text.len() && text[at] == '&' && word_starts(text, at + 1)
}

/// A word token starts at `at`.
pub open spec fn word_token_at(text: Seq<char>, at: int) -> bool {
    word_led_at(text, at) || word_starts(text, at)
}

/// Where the word of the token at `at` starts: behind the `&`, if it has one.
pub open spec fn word_from(text: Seq<char>, at: int) -> int {
    if word_led_at(text, at) {
        at + 1
    } else {
        at
    }
}

/// Where the word of the token at `at` ends.
pub open spec fn word_to(text: Seq<char>, at: int) -> int {
    run_end(text, word_from(text, at))
}

/// The word of the token at `at` is followed by a `;`.
pub open spec fn word_trailed_at(text: Seq<char>, at: int) -> bool {
    word_to(text, at) < text.len() && text[word_to(text, at)] == ';'
}

/// Where the word token at `at` ends: behind the `;`, if it has one.
pub open spec fn word_token_end(text: Seq<char>, at: int) -> int {
    if word_trailed_at(text, at) {
        word_to(text, at) + 1
    } else {
        word_to(text, at)
    }
}

/// The first position from `at` on at which a word token starts, or the end
/// of the text.
pub open spec fn next_word_token(text: Seq<char>, at: int) -> int
    decreases text.len() - at,
{
    if at < 0 || at >= text.len() {
        text.len() as int
    } else if word_token_at(text, at) {
        at
    } else {
        next_word_token(text, at + 1)
    }
}

/// A token as the contracts see it.
pub enum TokenView {
    /// Text between words, passed through as it is.
    Markup { text: Seq<char> },
    /// A word, with the `&` before and the `;` behind it where they stand
    /// there.
    Word { text: Seq<char>, ampersand: bool, semicolon: bool },
}

impl TokenView {
    /// The text that the token was read from.
    pub open spec fn source(self) -> Seq<char> {
        match self {
            TokenView::Markup { text } => text,
            TokenView::Word { text, ampersand, semicolon } => {
                (if ampersand {
                    seq!['&']
                } else {
                    Seq::empty()
                }) + text + (if semicolon {
                    seq![';']
                } else {
                    Seq::empty()
                })
            },
        }
    }

    /// The token looks like an HTML entity: a word between `&` and `;`.
    pub open spec fn is_entity(self) -> bool {
        self matches TokenView::Word { ampersand, semicolon, .. } && ampersand && semicolon
    }

    /// The token is a word that is to be redacted.
    pub open spec fn is_redacted(self) -> bool {
        self is Word && !self.is_entity()
    }
}

/// The word token that starts at `at`.
pub open spec fn word_token(text: Seq<char>, at: int) -> TokenView {
    TokenView::Word {
        text: text.subrange(word_from(text, at), word_to(text, at)),
        ampersand: word_led_at(text, at),
        semicolon: word_trailed_at(text, at),
    }
}

/// The tokens of `text[at..]`.
pub open spec fn tokens_from(text: Seq<char>, at: int) -> Seq<TokenView>
    decreases text.len() - at,
    via tokens_from_decreases
{
    if at < 0 || at >= text.len() {
        Seq::empty()
    } else if word_token_at(text, at) {
        seq![word_token(text, at)] + tokens_from(text, word_token_end(text, at))
    } else {
        let next = next_word_token(text, at + 1);
        seq![TokenView::Markup { text: text.subrange(at, next) }] + tokens_from(text, next)
    }
}

#[via_fn]
proof fn tokens_from_decreases(text: Seq<char>, at: int) {
    if 0 <= at < text.len() {
        if word_token_at(text, at) {
            lemma_word_token_bounds(text, at);
        } else {
            lemma_next_word_token(text, at + 1);
        }
    }
}

/// The tokens of `text`.
pub open spec fn tokens(text: Seq<char>) -> Seq<TokenView> {
    tokens_from(text, 0)
}

/// A run of word characters ends within the text, holds word characters
/// only, and is not followed by one.
pub proof fn lemma_run_end(text: Seq<char>, at: int)
    requires
        0 <= at <= text.len(),
    ensures
        at <= run_end(text, at) <= text.len(),
        forall|k: int| at <= k < run_end(text, at) ==> is_word_char(#[trigger] text[k]),
        run_end(text, at) < text.len() ==> !is_word_char(text[run_end(text, at)]),
        at < text.len() && is_word_char(text[at]) ==> at < run_end(text, at),
    decreases text.len() - at,
{
    if at < text.len() && is_word_char(text[at]) {
        lemma_run_end(text, at + 1);
    }
}

/// A word token holds at least one character of word, and ends within the
/// text.
pub proof fn lemma_word_token_bounds(text: Seq<char>, at: int)
    requires
        word_token_at(text, at),
    ensures
        0 <= at <= word_from(text, at) < word_to(text, at) <= word_token_end(text, at)
            <= text.len(),
        word_token(text, at).source() == text.subrange(at, word_token_end(text, at)),
{
    lemma_run_end(text, word_from(text, at));
}

/// The next word token starts within the text, and none starts before it.
pub proof fn lemma_next_word_token(text: Seq<char>, at: int)
    requires
        0 <= at <= text.len(),
    ensures
        at <= next_word_token(text, at) <= text.len(),
        forall|k: int| at <= k < next_word_token(text, at) ==> !word_token_at(text, k),
        next_word_token(text, at) < text.len() ==> word_token_at(
            text,
            next_word_token(text, at),
        ),
    decreases text.len() - at,
{
    if at < text.len() && !word_token_at(text, at) {
        lemma_next_word_token(text, at + 1);
    }
}

/// Whether a position lies inside a tag follows from the character there and
/// from the position behind it.
pub proof fn lemma_inside_tag_step(text: Seq<char>, at: int)
    requires
        0 <= at < text.len(),
    ensures
        inside_tag(text, at) == (text[at] == '>' || (text[at] != '<' && inside_tag(text, at + 1))),
        !inside_tag(text, text.len() as int),
{
}

/// The sources of `tokens`, one behind the other.
pub open spec fn source_text(tokens: Seq<TokenView>) -> Seq<char> {
    tokens.map_values(|t: TokenView| t.source()).flatten()
}

/// A token is well formed: markup is not empty, and a word is a run of at
/// least one word character.
pub open spec fn is_well_formed(token: TokenView) -> bool {
    match token {
        TokenView::Markup { text } => text.len() > 0,
        TokenView::Word { text, .. } => text.len() > 0 && forall|k: int|
            0 <= k < text.len() ==> is_word_char(#[trigger] text[k]),
    }
}

/// The source of a token at the head of a sequence stands at the head of the
/// sequence's source.
proof fn lemma_source_text_of_head(head: TokenView, rest: Seq<TokenView>)
    ensures
        source_text(seq![head] + rest) == head.source() + source_text(rest),
{
    let sources = (seq![head] + rest).map_values(|t: TokenView| t.source());
    assert(sources.drop_first() == rest.map_values(|t: TokenView| t.source()));
}

/// The tokens of `text[at..]` are well formed, and their sources, read one
/// behind the other, give `text[at..]`.
proof fn lemma_tokens_from(text: Seq<char>, at: int)
    requires
        0 <= at <= text.len(),
    ensures
        source_text(tokens_from(text, at)) == text.subrange(at, text.len() as int),
        forall|i: int|
            0 <= i < tokens_from(text, at).len() ==> is_well_formed(
                #[trigger] tokens_from(text, at)[i],
            ),
    decreases text.len() - at,
{
    let total = text.len() as int;
    if at < total {
        let (head, next) = if word_token_at(text, at) {
            (word_token(text, at), word_token_end(text, at))
        } else {
            let next = next_word_token(text, at + 1);
            (TokenView::Markup { text: text.subrange(at, next) }, next)
        };
        if word_token_at(text, at) {
            lemma_word_token_bounds(text, at);
            lemma_run_end(text, word_from(text, at));
        } else {
            lemma_next_word_token(text, at + 1);
        }
        let rest = tokens_from(text, next);
        lemma_tokens_from(text, next);
        lemma_source_text_of_head(head, rest);
    }
}

/// Nothing of the text is lost or doubled in its tokens: their sources, read
/// one behind the other, give the text again. Every token is well formed.
pub proof fn lemma_tokens_rebuild_text(text: Seq<char>)
    ensures
        source_text(tokens(text)) == text,
        forall|i: int| 0 <= i < tokens(text).len() ==> is_well_formed(#[trigger] tokens(text)[i]),
{
    lemma_tokens_from(text, 0);
}

/// Two tokens that stand side by side cut no run in two: markup does not
/// follow markup; a word without `;` is followed neither by a word character
/// nor by `;`; a word without `&` is preceded neither by a word character nor
/// by `&`.
pub open spec fn meet_cleanly(before: TokenView, after: TokenView) -> bool {
    &&& !(before is Markup && after is Markup)
    &&& (before matches TokenView::Word { semicolon, .. } && !semicolon) ==> {
        &&& !is_word_char(after.source().first())
        &&& after.source().first() != ';'
    }
    &&& (after matches TokenView::Word { ampersand, .. } && !ampersand) ==> {
        &&& !is_word_char(before.source().last())
        &&& before.source().last() != '&'
    }
}

/// Each token of `tokens` meets the next one cleanly.
pub open spec fn are_maximal(tokens: Seq<TokenView>) -> bool {
    forall|i: int| 0 <= i < tokens.len() - 1 ==> #[trigger] meet_cleanly(tokens[i], tokens[i + 1])
}

/// Only `<` and `>` change whether a position lies inside a tag: across any
/// other character, and so across every character of a word, the positions
/// before and behind it agree.
pub proof fn lemma_tag_state_changes_at_brackets(text: Seq<char>, at: int)
    requires
        0 <= at < text.len(),
        text[at] != '<',
        text[at] != '>',
    ensures
        inside_tag(text, at) == inside_tag(text, at + 1),
{
    lemma_inside_tag_step(text, at);
}

/// The first of `tokens` is the token that `text` has at `at`: a word
/// exactly if a word token starts there, led by `&` exactly if that one is,
/// and with the character at `at` as the first of its source.
spec fn starts_as_text(tokens: Seq<TokenView>, text: Seq<char>, at: int) -> bool {
    &&& tokens.len() > 0
    &&& tokens[0] is Word <==> word_token_at(text, at)
    &&& tokens[0].source().len() > 0
    &&& tokens[0].source().first() == text[at]
    &&& tokens[0] matches TokenView::Word { ampersand, .. } ==> ampersand == word_led_at(text, at)
}

/// The tokens of `text[at..]` start with the token that `text` has at `at`,
/// and each of them meets the next one cleanly.
proof fn lemma_tokens_from_are_maximal(text: Seq<char>, at: int)
    requires
        0 <= at <= text.len(),
    ensures
        are_maximal(tokens_from(text, at)),
        at < text.len() ==> starts_as_text(tokens_from(text, at), text, at),
    decreases text.len() - at,
{
    let total = text.len() as int;
    if at < total {
        let (head, next) = if word_token_at(text, at) {
            (word_token(text, at), word_token_end(text, at))
        } else {
            let next = next_word_token(text, at + 1);
            (TokenView::Markup { text: text.subrange(at, next) }, next)
        };
        if word_token_at(text, at) {
            lemma_word_token_bounds(text, at);
            lemma_run_end(text, word_from(text, at));
        } else {
            lemma_next_word_token(text, at + 1);
        }
        let rest = tokens_from(text, next);
        let all = tokens_from(text, at);
        lemma_tokens_from_are_maximal(text, next);
        if next < total {
            let after = rest[0];
            if after matches TokenView::Word { ampersand, .. } && !ampersand {
                if is_word_char(text[next - 1]) || text[next - 1] == '&' {
                    lemma_tag_state_changes_at_brackets(text, next - 1);
                    assert(word_token_at(text, next - 1));
                }
            }
        }
        assert forall|i: int| 0 <= i < all.len() - 1 implies #[trigger] meet_cleanly(
            all[i],
            all[i + 1],
        ) by {
            if i > 0 {
                assert(meet_cleanly(rest[i - 1], rest[i - 1 + 1]));
            }
        }
    }
}

/// Tokens are maximal: each of them meets the next one cleanly, so that no
/// run of word characters, and no stretch of markup, is cut in two.
pub proof fn lemma_tokens_are_maximal(text: Seq<char>)
    ensures
        are_maximal(tokens(text)),
{
    lemma_tokens_from_are_maximal(text, 0);
}

/// A token.
#[derive(Debug, Clone, PartialEq, Eq)]
pub enum Token {
    /// Text between words, passed through as it is.
    Markup { text: String },
    /// A word, with the `&` before and the `;` behind it where they stand
    /// there.
    Word { text: String, ampersand: bool, semicolon: bool },
}

impl View for Token {
    type V = TokenView;

    open spec fn view(&self) -> TokenView {
        match self {
            Token::Markup { text } => TokenView::Markup { text: text@ },
            Token::Word { text, ampersand, semicolon } => TokenView::Word {
                text: text@,
                ampersand: *ampersand,
                semicolon: *semicolon,
            },
        }
    }
}

/// The tokens as the contracts see them.
pub open spec fn token_views(tokens: Seq<Token>) -> Seq<TokenView> {
    tokens.map_values(|t: Token| t@)
}

/// `word` and `tagged` say of each position of `text` whether a word
/// character stands there and whether it lies inside a tag.
spec fn marks(text: Seq<char>, word: Seq<bool>, tagged: Seq<bool>) -> bool {
    &&& word.len() == text.len()
    &&& tagged.len() == text.len()
    &&& forall|i: int| 0 <= i < text.len() ==> #[trigger] word[i] == is_word_char(text[i])
    &&& forall|i: int| 0 <= i < text.len() ==> #[trigger] tagged[i] == inside_tag(text, i)
}

/// The characters that the engine was asked about, each with its answer.
struct KnownLetters {
    asked: Vec<char>,
    answers: Vec<bool>,
}

impl KnownLetters {
    /// Each answer says whether its character is a letter.
    spec fn is_sound(&self) -> bool {
        &&& self.asked@.len() == self.answers@.len()
        &&& forall|j: int|
            0 <= j < self.asked@.len() ==> self.answers@[j] == unicode_letter(
                #[trigger] self.asked@[j],
            )
    }

    /// Whether `c` is a letter. The engine is asked once for each character;
    /// the answer is kept for the next time.
    fn is_letter(&mut self, c: char) -> (letter: bool)
        requires
            old(self).is_sound(),
        ensures
            final(self).is_sound(),
            letter == unicode_letter(c),
    {
        let mut j: usize = 0;
        while j < self.asked.len()
            invariant
                self.is_sound(),
                j <= self.asked.len(),
            decreases self.asked.len() - j,
        {
            if self.asked[j] == c {
                return self.answers[j];
            }
            j = j + 1;
        }
        let letter = matches_char("\\p{L}", c);
        self.asked.push(c);
        self.answers.push(letter);
        letter
    }
}

/// For each position of `text`, whether a word character stands there.
fn word_flags(chars: &Vec<char>) -> (word: Vec<bool>)
    ensures
        word@.len() == chars@.len(),
        forall|i: int| 0 <= i < chars@.len() ==> #[trigger] word@[i] == is_word_char(chars@[i]),
{
    let mut known = KnownLetters { asked: Vec::new(), answers: Vec::new() };
    let mut word: Vec<bool> = Vec::new();
    let mut i: usize = 0;
    while i < chars.len()
        invariant
            i <= chars.len(),
            known.is_sound(),
            word@.len() == i,
            forall|k: int| 0 <= k < i ==> #[trigger] word@[k] == is_word_char(chars@[k]),
        decreases chars.len() - i,
    {
        let c = chars[i];
        let flag = if c <= '\u{7f}' {
            (c >= 'a' && c <= 'z') || (c >= 'A' && c <= 'Z') || (c >= '0' && c <= '9') || c
                == '\''
        } else {
            known.is_letter(c)
        };
        word.push(flag);
        i = i + 1;
    }
    word
}

/// For each position of `text`, whether it lies inside a tag.
fn tag_flags(chars: &Vec<char>) -> (tagged: Vec<bool>)
    ensures
        tagged@.len() == chars@.len(),
        forall|i: int| 0 <= i < chars@.len() ==> #[trigger] tagged@[i] == inside_tag(chars@, i),
{
    let total = chars.len();
    let mut tagged: Vec<bool> = Vec::new();
    let mut i: usize = 0;
    while i < total
        invariant
            i <= total,
            tagged@.len() == i,
        decreases total - i,
    {
        tagged.push(false);
        i = i + 1;
    }
    let mut behind = false;
    let mut at: usize = total;
    while at > 0
        invariant
            total == chars.len(),
            at <= total,
            tagged@.len() == total,
            behind == inside_tag(chars@, at as int),
            forall|k: int| at <= k < total ==> #[trigger] tagged@[k] == inside_tag(chars@, k),
        decreases at,
    {
        at = at - 1;
        let c = chars[at];
        proof {
            lemma_inside_tag_step(chars@, at as int);
        }
        behind = c == '>' || (c != '<' && behind);
        tagged.set(at, behind);
    }
    tagged
}

/// Whether a word token starts at `at`, and if so whether with a `&`.
fn word_token_starts(chars: &Vec<char>, word: &Vec<bool>, tagged: &Vec<bool>, at: usize) -> (found:
    (bool, bool))
    requires
        at < chars.len(),
        marks(chars@, word@, tagged@),
    ensures
        found.0 == word_token_at(chars@, at as int),
        found.1 == word_led_at(chars@, at as int),
{
    if chars[at] == '&' {
        let led = at + 1 < chars.len() && word[at + 1] && !tagged[at + 1];
        (led, led)
    } else {
        (word[at] && !tagged[at], false)
    }
}

/// The tokens of `text`, in order. Read one behind the other, their sources
/// give `text` again.
pub fn tokenize(text: &str) -> (tokens: Vec<Token>)
    ensures
        token_views(tokens@) == self::tokens(text@),
        source_text(token_views(tokens@)) == text@,
{
    proof {
        lemma_tokens_rebuild_text(text@);
    }
    let chars = chars_of(text);
    let word = word_flags(&chars);
    let tagged = tag_flags(&chars);
    let total = chars.len();
    let mut tokens: Vec<Token> = Vec::new();
    let mut at: usize = 0;
    while at < total
        invariant
            total == chars.len(),
            at <= total,
            marks(chars@, word@, tagged@),
            token_views(tokens@) + tokens_from(chars@, at as int) == self::tokens(chars@),
        decreases total - at,
    {
        let (found, led) = word_token_starts(&chars, &word, &tagged, at);
        if found {
            let from = if led {
                at + 1
            } else {
                at
            };
            let mut to = from;
            proof {
                lemma_word_token_bounds(chars@, at as int);
                lemma_run_end(chars@, from as int);
            }
            while to < total && word[to]
                invariant
                    total == chars.len(),
                    from <= to <= total,
                    marks(chars@, word@, tagged@),
                    run_end(chars@, to as int) == run_end(chars@, from as int),
                decreases total - to,
            {
                to = to + 1;
            }
            let trailed = to < total && chars[to] == ';';
            let end = if trailed {
                to + 1
            } else {
                to
            };
            let token = Token::Word {
                text: string_of_range(&chars, from, to),
                ampersand: led,
                semicolon: trailed,
            };
            tokens.push(token);
            at = end;
        } else {
            let mut next = at + 1;
            while next < total && !word_token_starts(&chars, &word, &tagged, next).0
                invariant
                    total == chars.len(),
                    at < next <= total,
                    marks(chars@, word@, tagged@),
                    next_word_token(chars@, next as int) == next_word_token(chars@, at + 1),
                decreases total - next,
            {
                next = next + 1;
            }
            let token = Token::Markup { text: string_of_range(&chars, at, next) };
            tokens.push(token);
            at = next;
        }
    }
    tokens
}

} // verus!
