//! Curated title lists. A list is a flat file; each of its lines that is not
//! blank is a title.

use vstd::prelude::*;
use crate::error::{SourceError, SourceErrorView};
use crate::text::{chars_of, string_of_range};

verus! {

/// `c` is white space: it has the Unicode property `White_Space`, which
/// holds of U+0009 to U+000D, U+0020, U+0085, U+00A0, U+1680, U+2000 to
/// U+200A, U+2028, U+2029, U+202F, U+205F and U+3000.
pub open spec fn is_white_space(c: char) -> bool {
    ('\u{9}' <= c && c <= '\u{d}') || c == ' ' || c == '\u{85}' || c == '\u{a0}' || c
        == '\u{1680}' || ('\u{2000}' <= c && c <= '\u{200a}') || c == '\u{2028}' || c
        == '\u{2029}' || c == '\u{202f}' || c == '\u{205f}' || c == '\u{3000}'
}

/// `char::is_whitespace` of the standard library, which says whether the
/// character has the Unicode property `White_Space`: whether it is one of the
/// characters that [`is_white_space`] lists.
pub assume_specification[ char::is_whitespace ](c: char) -> (white: bool)
    ensures
        white == is_white_space(c),
;

/// `line` holds nothing but white space.
pub open spec fn is_blank(line: Seq<char>) -> bool {
    forall|i: int| 0 <= i < line.len() ==> is_white_space(#[trigger] line[i])
}

/// Whether `line` holds nothing but white space.
pub fn blank(line: &str) -> (b: bool)
    ensures
        b == is_blank(line@),
{
    let chars = chars_of(line);
    let mut i: usize = 0;
    while i < chars.len()
        invariant
            i <= chars.len(),
            chars@ == line@,
            forall|k: int| 0 <= k < i ==> is_white_space(#[trigger] chars@[k]),
        decreases chars.len() - i,
    {
        if !chars[i].is_whitespace() {
            return false;
        }
        i = i + 1;
    }
    true
}

/// The position of the first line feed from `at` on, or the end of the text.
pub open spec fn line_break(text: Seq<char>, at: int) -> int
    decreases text.len() - at,
{
    if at < 0 || at >= text.len() {
        text.len() as int
    } else if text[at] == '\n' {
        at
    } else {
        line_break(text, at + 1)
    }
}

/// The line that starts at `at`, without its line feed and without a
/// carriage return that stands directly before the line feed.
pub open spec fn line_at(text: Seq<char>, at: int) -> Seq<char> {
    let end = line_break(text, at);
    if at < end < text.len() && text[end - 1] == '\r' {
        text.subrange(at, end - 1)
    } else {
        text.subrange(at, end)
    }
}

/// The lines of `text[at..]`.
pub open spec fn lines_from(text: Seq<char>, at: int) -> Seq<Seq<char>>
    decreases text.len() + 1 - at,
    via lines_from_decreases
{
    if at < 0 || at >= text.len() {
        Seq::empty()
    } else {
        seq![line_at(text, at)] + lines_from(text, line_break(text, at) + 1)
    }
}

#[via_fn]
proof fn lines_from_decreases(text: Seq<char>, at: int) {
    if 0 <= at < text.len() {
        lemma_line_break(text, at);
    }
}

/// The lines of `text`. A line ends with a line feed, or with a carriage
/// return and a line feed; the last line needs no ending.
pub open spec fn lines_of(text: Seq<char>) -> Seq<Seq<char>> {
    lines_from(text, 0)
}

/// The line break lies within the text, and no line feed stands before it.
pub proof fn lemma_line_break(text: Seq<char>, at: int)
    requires
        0 <= at <= text.len(),
    ensures
        at <= line_break(text, at) <= text.len(),
        forall|k: int| at <= k < line_break(text, at) ==> text[k] != '\n',
        line_break(text, at) < text.len() ==> text[line_break(text, at)] == '\n',
    decreases text.len() - at,
{
    if at < text.len() && text[at] != '\n' {
        lemma_line_break(text, at + 1);
    }
}

/// The strings as the contracts see them.
pub open spec fn string_views(strings: Seq<String>) -> Seq<Seq<char>> {
    strings.map_values(|s: String| s@)
}

/// The lines of `text`, in order.
pub fn split_lines(text: &str) -> (lines: Vec<String>)
    ensures
        string_views(lines@) == lines_of(text@),
{
    let chars = chars_of(text);
    let total = chars.len();
    let mut lines: Vec<String> = Vec::new();
    let mut at: usize = 0;
    while at < total
        invariant
            total == chars.len(),
            at <= total,
            string_views(lines@) + lines_from(chars@, at as int) == lines_of(chars@),
        decreases total - at,
    {
        let ghost before = string_views(lines@);
        let mut end = at;
        while end < total && chars[end] != '\n'
            invariant
                total == chars.len(),
                at <= end <= total,
                line_break(chars@, end as int) == line_break(chars@, at as int),
            decreases total - end,
        {
            end = end + 1;
        }
        let stop = if at < end && end < total && chars[end - 1] == '\r' {
            end - 1
        } else {
            end
        };
        let line = string_of_range(&chars, at, stop);
        lines.push(line);
        assert(before.push(line_at(chars@, at as int)) + lines_from(chars@, end + 1) == before
            + lines_from(chars@, at as int));
        if end == total {
            at = total;
        } else {
            at = end + 1;
        }
    }
    lines
}

/// The titles among `lines`: those that are not blank, in order.
pub open spec fn titles_of(lines: Seq<Seq<char>>) -> Seq<Seq<char>> {
    lines.filter(|line: Seq<char>| !is_blank(line))
}

/// The titles among `lines`: those that are not blank, in order and as they
/// stand.
pub fn titles_among(lines: Vec<String>) -> (titles: Vec<String>)
    ensures
        string_views(titles@) == titles_of(string_views(lines@)),
{
    let mut titles: Vec<String> = Vec::new();
    let mut i: usize = 0;
    proof {
        reveal(Seq::filter);
    }
    while i < lines.len()
        invariant
            i <= lines.len(),
            string_views(titles@) == titles_of(string_views(lines@.take(i as int))),
        decreases lines.len() - i,
    {
        proof {
            reveal(Seq::filter);
            let done = string_views(lines@.take(i as int));
            let next = string_views(lines@.take(i + 1));
            assert(next.drop_last() == done);
        }
        if !blank(lines[i].as_str()) {
            titles.push(lines[i].clone());
        }
        i = i + 1;
    }
    assert(lines@.take(lines.len() as int) == lines@);
    titles
}

/// The titles of the list whose file holds `content`.
pub open spec fn titles_in(content: Seq<char>) -> Seq<Seq<char>> {
    titles_of(lines_of(content))
}

/// The titles among `lines` are lines, and none of them is blank.
pub proof fn lemma_titles_are_not_blank(lines: Seq<Seq<char>>)
    ensures
        forall|i: int|
            0 <= i < titles_of(lines).len() ==> !is_blank(#[trigger] titles_of(lines)[i]),
        forall|i: int|
            0 <= i < titles_of(lines).len() ==> lines.contains(#[trigger] titles_of(lines)[i]),
{
    let kept = |line: Seq<char>| !is_blank(line);
    assert forall|i: int| 0 <= i < titles_of(lines).len() implies !is_blank(
        #[trigger] titles_of(lines)[i],
    ) && lines.contains(titles_of(lines)[i]) by {
        lines.lemma_filter_pred(kept, i);
        lines.lemma_filter_contains_rev(kept, titles_of(lines)[i]);
    }
}

/// There is a title among `lines` exactly if one of them is not blank, and
/// every line that is not blank is a title.
pub proof fn lemma_lines_that_are_not_blank_are_titles(lines: Seq<Seq<char>>)
    ensures
        titles_of(lines).len() > 0 <==> exists|i: int|
            0 <= i < lines.len() && !is_blank(#[trigger] lines[i]),
        forall|i: int|
            0 <= i < lines.len() && !is_blank(#[trigger] lines[i]) ==> titles_of(lines).contains(
                lines[i],
            ),
{
    let kept = |line: Seq<char>| !is_blank(line);
    lemma_titles_are_not_blank(lines);
    assert forall|i: int| 0 <= i < lines.len() && !is_blank(#[trigger] lines[i]) implies titles_of(
        lines,
    ).contains(lines[i]) by {
        lines.lemma_filter_contains(kept, i);
    }
    if titles_of(lines).len() > 0 {
        let title = titles_of(lines)[0];
        assert(lines.contains(title));
        let i = choose|i: int| 0 <= i < lines.len() && lines[i] == title;
        assert(!is_blank(lines[i]));
    }
}

/// The titles of the list whose file holds `content`: its lines that are not
/// blank, in order and as they stand.
pub fn list_titles(content: &str) -> (titles: Vec<String>)
    ensures
        string_views(titles@) == titles_in(content@),
{
    titles_among(split_lines(content))
}

/// `SliceRandom::choose` of `rand`, with the generator that `rand::thread_rng`
/// hands out: one item of the slice, picked at random, or nothing where the
/// slice is empty. Which item comes back is open.
#[verifier::external_body]
fn choose_one<'a>(items: &'a Vec<String>) -> (chosen: Option<&'a String>)
    ensures
        items@.len() == 0 <==> chosen is None,
        chosen matches Some(item) ==> items@.contains(*item),
{
    rand::seq::SliceRandom::choose(items.as_slice(), &mut rand::thread_rng())
}

/// The outcome of a draw: the title that was drawn, or the failure of an
/// empty list where nothing could be drawn.
pub fn title_from_choice(choice: Option<&String>) -> (outcome: Result<String, SourceError>)
    ensures
        choice is Some <==> outcome is Ok,
        outcome matches Ok(drawn) ==> choice matches Some(title) && drawn@ == title@,
        outcome matches Err(e) ==> e@ == SourceErrorView::Empty,
{
    match choice {
        Some(title) => Ok(title.clone()),
        None => Err(SourceError::Empty),
    }
}

/// One of `titles`, drawn at random. It fails, with the failure of an empty
/// list, exactly if there is no title.
pub fn pick_title(titles: &Vec<String>) -> (outcome: Result<String, SourceError>)
    ensures
        titles@.len() == 0 <==> outcome is Err,
        outcome matches Err(e) ==> e@ == SourceErrorView::Empty,
        outcome matches Ok(drawn) ==> string_views(titles@).contains(drawn@),
{
    let choice = choose_one(titles);
    proof {
        if let Some(item) = choice {
            let i = choose|i: int| 0 <= i < titles@.len() && titles@[i] == *item;
            assert(string_views(titles@)[i] == item@);
        }
    }
    title_from_choice(choice)
}

/// One title among `lines`, drawn at random: a line that is not blank, as it
/// stands. It succeeds exactly if some line is not blank, and fails, with
/// the failure of an empty list, if every line is blank.
pub fn random_line_title(lines: Vec<String>) -> (outcome: Result<String, SourceError>)
    ensures
        titles_of(string_views(lines@)).len() == 0 <==> outcome is Err,
        outcome is Ok <==> exists|i: int|
            0 <= i < lines@.len() && !is_blank(#[trigger] string_views(lines@)[i]),
        outcome matches Err(e) ==> e@ == SourceErrorView::Empty,
        outcome matches Ok(drawn) ==> titles_of(string_views(lines@)).contains(drawn@)
            && !is_blank(drawn@) && string_views(lines@).contains(drawn@),
{
    proof {
        lemma_titles_are_not_blank(string_views(lines@));
        lemma_lines_that_are_not_blank_are_titles(string_views(lines@));
    }
    let titles = titles_among(lines);
    pick_title(&titles)
}

/// One title of the list whose file holds `content`, drawn at random: a line
/// of the file that is not blank. It succeeds exactly if some line is not
/// blank, and fails, with the failure of an empty list, if every line is
/// blank.
pub fn random_list_title(content: &str) -> (outcome: Result<String, SourceError>)
    ensures
        titles_in(content@).len() == 0 <==> outcome is Err,
        outcome is Ok <==> exists|i: int|
            0 <= i < lines_of(content@).len() && !is_blank(#[trigger] lines_of(content@)[i]),
        outcome matches Err(e) ==> e@ == SourceErrorView::Empty,
        outcome matches Ok(drawn) ==> titles_in(content@).contains(drawn@) && !is_blank(drawn@)
            && lines_of(content@).contains(drawn@),
{
    random_line_title(split_lines(content))
}

/// An entry of the directory that holds the lists, as the contracts see it.
pub struct ListEntryView {
    pub name: Option<Seq<char>>,
    pub is_file: bool,
}

/// An entry of the directory that holds the lists: its name, where the name
/// is text, and whether it is a regular file.
#[derive(Debug, Clone, PartialEq, Eq)]
pub struct ListEntry {
    pub name: Option<String>,
    pub is_file: bool,
}

impl View for ListEntry {
    type V = ListEntryView;

    open spec fn view(&self) -> ListEntryView {
        ListEntryView {
            name: match self.name {
                Some(name) => Some(name@),
                None => None,
            },
            is_file: self.is_file,
        }
    }
}

/// The entries as the contracts see them.
pub open spec fn entry_views(entries: Seq<ListEntry>) -> Seq<ListEntryView> {
    entries.map_values(|e: ListEntry| e@)
}

/// The names of the lists among `entries`: the names of the regular files,
/// in the order of the entries.
pub open spec fn list_names(entries: Seq<ListEntryView>) -> Seq<Seq<char>>
    decreases entries.len(),
{
    if entries.len() == 0 {
        Seq::empty()
    } else {
        let before = list_names(entries.drop_last());
        match entries.last().name {
            Some(name) => if entries.last().is_file {
                before.push(name)
            } else {
                before
            },
            None => before,
        }
    }
}

/// The names of the lists among `entries`. The order is that of the entries,
/// which a directory hands out in no particular order.
pub fn available_lists(entries: &Vec<ListEntry>) -> (names: Vec<String>)
    ensures
        string_views(names@) == list_names(entry_views(entries@)),
{
    let mut names: Vec<String> = Vec::new();
    let mut i: usize = 0;
    while i < entries.len()
        invariant
            i <= entries.len(),
            string_views(names@) == list_names(entry_views(entries@.take(i as int))),
        decreases entries.len() - i,
    {
        proof {
            let done = entry_views(entries@.take(i as int));
            let next = entry_views(entries@.take(i + 1));
            assert(next.drop_last() == done);
        }
        let entry = &entries[i];
        if entry.is_file {
            match &entry.name {
                Some(name) => {
                    names.push(name.clone());
                },
                None => {},
            }
        }
        i = i + 1;
    }
    assert(entries@.take(entries.len() as int) == entries@);
    names
}

} // verus!
