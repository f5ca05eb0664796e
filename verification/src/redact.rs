//! Redacts article text: every word is replaced by a placeholder that shows
//! its length and its class, while markup and HTML entities pass through
//! untouched.

use vstd::prelude::*;
use crate::annotation::{strip_annotations, stripped};
use crate::classify::{class_id, classify, lemma_class_id_is_identifier};
use crate::encode::is_identifier;
use crate::text::{decimal, push_decimal};
use crate::token::{
    is_well_formed, lemma_tokens_rebuild_text, source_text, token_views, tokenize, tokens, Token,
    TokenView,
};

verus! {

/// A piece of redacted markup as the contracts see it.
pub enum SegmentView {
    /// Text that is passed through.
    Literal { text: Seq<char> },
    /// What stands for a redacted word: the number of its characters, its
    /// class identifier, and the word itself.
    Placeholder { length: nat, class_id: Seq<char>, word: Seq<char> },
}

impl SegmentView {
    /// The part of the source text that the segment carries: the literal
    /// text, or the redacted word.
    pub open spec fn visible(self) -> Seq<char> {
        match self {
            SegmentView::Literal { text } => text,
            SegmentView::Placeholder { word, .. } => word,
        }
    }

    /// The markup of the segment.
    pub open spec fn rendered(self) -> Seq<char> {
        match self {
            SegmentView::Literal { text } => text,
            SegmentView::Placeholder { length, class_id, word } => "<span title=\""@ + decimal(
                length,
            ) + "\" style=\"--len: "@ + decimal(length) + "\" class=\"redacted word word--"@
                + class_id + "\">"@ + word + "</span>"@,
        }
    }

    /// A placeholder states the length and the class of the word it holds.
    pub open spec fn is_faithful(self) -> bool {
        self matches SegmentView::Placeholder { length, class_id, word } ==> length
            == word.len() && class_id == crate::classify::class_id(word)
    }
}

/// The segment that stands for `token`: markup and entities are literal, any
/// other word becomes a placeholder.
pub open spec fn segment_of(token: TokenView) -> SegmentView {
    match token {
        TokenView::Markup { text } => SegmentView::Literal { text },
        TokenView::Word { text, ampersand, semicolon } => if ampersand && semicolon {
            SegmentView::Literal { text: token.source() }
        } else {
            SegmentView::Placeholder { length: text.len(), class_id: class_id(text), word: text }
        },
    }
}

/// The segments that stand for `tokens`, one for one.
pub open spec fn segments_of(tokens: Seq<TokenView>) -> Seq<SegmentView> {
    tokens.map_values(|t: TokenView| segment_of(t))
}

/// The markup of `segments`, one behind the other.
pub open spec fn markup_of(segments: Seq<SegmentView>) -> Seq<char> {
    segments.map_values(|s: SegmentView| s.rendered()).flatten()
}

/// The segments of the redacted form of `text`.
pub open spec fn redacted_segments(text: Seq<char>) -> Seq<SegmentView> {
    segments_of(tokens(stripped(text)))
}

/// The redacted form of `text`.
pub open spec fn redacted(text: Seq<char>) -> Seq<char> {
    markup_of(redacted_segments(text))
}

/// What a token keeps of its source when it is redacted: all of it, but for
/// a redacted word, which keeps the word and drops the single `&` or `;`
/// that stood beside it.
pub open spec fn kept(token: TokenView) -> Seq<char> {
    match token {
        TokenView::Markup { text } => text,
        TokenView::Word { text, .. } => if token.is_entity() {
            token.source()
        } else {
            text
        },
    }
}

/// What `tokens` keep of their sources, one behind the other.
pub open spec fn kept_text(tokens: Seq<TokenView>) -> Seq<char> {
    tokens.map_values(|t: TokenView| kept(t)).flatten()
}

/// The token is a word with a `&` before it or a `;` behind it, but not
/// both.
pub open spec fn has_single_mark(token: TokenView) -> bool {
    token matches TokenView::Word { ampersand, semicolon, .. } && ampersand != semicolon
}

/// The parts of the source text that `segments` carry, one behind the other.
pub open spec fn visible_text(segments: Seq<SegmentView>) -> Seq<char> {
    segments.map_values(|s: SegmentView| s.visible()).flatten()
}

/// Every placeholder states the number of characters of the word it holds,
/// and the class of that word.
pub proof fn lemma_placeholders_are_faithful(tokens: Seq<TokenView>)
    ensures
        segments_of(tokens).len() == tokens.len(),
        forall|i: int|
            0 <= i < tokens.len() ==> (#[trigger] segments_of(tokens)[i]).is_faithful(),
        forall|i: int|
            0 <= i < tokens.len() ==> (segments_of(tokens)[i] is Placeholder
                <==> (#[trigger] tokens[i]).is_redacted()),
{
}

/// `c` has a meaning of its own in markup: `<`, `>`, `&` or `"`.
pub open spec fn is_markup_char(c: char) -> bool {
    c == '<' || c == '>' || c == '&' || c == '"'
}

/// Neither the identifier nor the word of a placeholder holds a character
/// that has a meaning of its own in markup, and the identifier fits a class
/// name.
pub open spec fn holds_no_markup(segment: SegmentView) -> bool {
    segment matches SegmentView::Placeholder { class_id, word, .. } ==> is_identifier(class_id)
        && (forall|k: int| 0 <= k < class_id.len() ==> !is_markup_char(#[trigger] class_id[k]))
        && (forall|k: int| 0 <= k < word.len() ==> !is_markup_char(#[trigger] word[k]))
}

/// A placeholder can be set into markup as it is: what it carries of the
/// word holds no markup.
pub proof fn lemma_placeholder_holds_no_markup(token: TokenView)
    requires
        is_well_formed(token),
    ensures
        holds_no_markup(segment_of(token)),
{
    if token.is_redacted() {
        let text = token->Word_text;
        lemma_class_id_is_identifier(text);
    }
}

/// Markup and entities are not touched: the markup of their segment is their
/// source, character for character.
pub proof fn lemma_unredacted_token_is_unchanged(token: TokenView)
    requires
        !token.is_redacted(),
    ensures
        segment_of(token).rendered() == token.source(),
{
}

/// The literal segments and the words held by the placeholders, read one
/// behind the other, give what the tokens keep of their sources.
pub proof fn lemma_segments_carry_kept_text(tokens: Seq<TokenView>)
    ensures
        visible_text(segments_of(tokens)) == kept_text(tokens),
        (forall|i: int| 0 <= i < tokens.len() ==> !has_single_mark(#[trigger] tokens[i]))
            ==> kept_text(tokens) == source_text(tokens),
        (forall|i: int| 0 <= i < tokens.len() ==> !(#[trigger] tokens[i]).is_redacted())
            ==> markup_of(segments_of(tokens)) == source_text(tokens),
{
    assert(segments_of(tokens).map_values(|s: SegmentView| s.visible()) == tokens.map_values(
        |t: TokenView| kept(t),
    ));
    if forall|i: int| 0 <= i < tokens.len() ==> !has_single_mark(#[trigger] tokens[i]) {
        assert(tokens.map_values(|t: TokenView| kept(t)) == tokens.map_values(
            |t: TokenView| t.source(),
        ));
    }
    if forall|i: int| 0 <= i < tokens.len() ==> !(#[trigger] tokens[i]).is_redacted() {
        assert(segments_of(tokens).map_values(|s: SegmentView| s.rendered())
            == tokens.map_values(|t: TokenView| t.source()));
    }
}

/// Redaction keeps the text. The literal segments and the words held by the
/// placeholders, read in order, give the text without its annotation
/// blocks, but for the single `&` or `;` beside a redacted word; where no
/// word has such a mark they give that text exactly. A text that holds no
/// word to redact comes out as it went in.
pub proof fn lemma_redaction_keeps_the_text(text: Seq<char>)
    ensures
        source_text(tokens(stripped(text))) == stripped(text),
        visible_text(redacted_segments(text)) == kept_text(tokens(stripped(text))),
        (forall|i: int|
            0 <= i < tokens(stripped(text)).len() ==> !has_single_mark(
                #[trigger] tokens(stripped(text))[i],
            )) ==> visible_text(redacted_segments(text)) == stripped(text),
        (forall|i: int|
            0 <= i < tokens(stripped(text)).len() ==> !(#[trigger] tokens(
                stripped(text),
            )[i]).is_redacted()) ==> redacted(text) == stripped(text),
{
    lemma_tokens_rebuild_text(stripped(text));
    lemma_segments_carry_kept_text(tokens(stripped(text)));
}

/// A piece of redacted markup.
#[derive(Debug, Clone, PartialEq, Eq)]
pub enum Segment {
    /// Text that is passed through.
    Literal { text: String },
    /// What stands for a redacted word: the number of its characters, its
    /// class identifier, and the word itself.
    Placeholder { length: usize, class_id: String, word: String },
}

impl View for Segment {
    type V = SegmentView;

    open spec fn view(&self) -> SegmentView {
        match self {
            Segment::Literal { text } => SegmentView::Literal { text: text@ },
            Segment::Placeholder { length, class_id, word } => SegmentView::Placeholder {
                length: *length as nat,
                class_id: class_id@,
                word: word@,
            },
        }
    }
}

/// The segments as the contracts see them.
pub open spec fn segment_views(segments: Seq<Segment>) -> Seq<SegmentView> {
    segments.map_values(|s: Segment| s@)
}

/// The segment that stands for `token`.
pub fn redact_token(token: &Token) -> (segment: Segment)
    ensures
        segment@ == segment_of(token@),
        segment@.is_faithful(),
{
    match token {
        Token::Markup { text } => Segment::Literal { text: text.clone() },
        Token::Word { text, ampersand, semicolon } => {
            if *ampersand && *semicolon {
                let mut entity = String::new();
                entity.push('&');
                entity.append(text.as_str());
                entity.push(';');
                assert(entity@ == token@.source());
                Segment::Literal { text: entity }
            } else {
                Segment::Placeholder {
                    length: text.as_str().unicode_len(),
                    class_id: classify(text.as_str()),
                    word: text.clone(),
                }
            }
        },
    }
}

/// The segments that stand for `tokens`, one for one.
pub fn redact_tokens(tokens: &Vec<Token>) -> (segments: Vec<Segment>)
    ensures
        segment_views(segments@) == segments_of(token_views(tokens@)),
        forall|i: int| 0 <= i < segments@.len() ==> (#[trigger] segments@[i])@.is_faithful(),
{
    let mut segments: Vec<Segment> = Vec::new();
    let mut i: usize = 0;
    while i < tokens.len()
        invariant
            i <= tokens.len(),
            segments@.len() == i,
            forall|k: int| 0 <= k < i ==> (#[trigger] segments@[k])@ == segment_of(tokens@[k]@),
            forall|k: int| 0 <= k < i ==> (#[trigger] segments@[k])@.is_faithful(),
        decreases tokens.len() - i,
    {
        segments.push(redact_token(&tokens[i]));
        i = i + 1;
    }
    segments
}

/// Appends the markup of `segment` to `out`.
pub fn render_segment(out: &mut String, segment: &Segment)
    ensures
        final(out)@ == old(out)@ + segment@.rendered(),
{
    match segment {
        Segment::Literal { text } => {
            out.append(text.as_str());
        },
        Segment::Placeholder { length, class_id, word } => {
            out.append("<span title=\"");
            push_decimal(out, *length);
            out.append("\" style=\"--len: ");
            push_decimal(out, *length);
            out.append("\" class=\"redacted word word--");
            out.append(class_id.as_str());
            out.append("\">");
            out.append(word.as_str());
            out.append("</span>");
        },
    }
}

/// The markup of `segments`, one behind the other.
pub fn render(segments: &Vec<Segment>) -> (markup: String)
    ensures
        markup@ == markup_of(segment_views(segments@)),
{
    let mut markup = String::new();
    let mut i: usize = 0;
    while i < segments.len()
        invariant
            i <= segments.len(),
            markup@ == markup_of(segment_views(segments@.take(i as int))),
        decreases segments.len() - i,
    {
        proof {
            let done = segment_views(segments@.take(i as int)).map_values(
                |s: SegmentView| s.rendered(),
            );
            let next = segment_views(segments@.take(i + 1)).map_values(
                |s: SegmentView| s.rendered(),
            );
            assert(next == done.push(segments@[i as int]@.rendered()));
            done.lemma_flatten_push(segments@[i as int]@.rendered());
        }
        render_segment(&mut markup, &segments[i]);
        i = i + 1;
    }
    assert(segments@.take(segments.len() as int) == segments@);
    markup
}

/// The segments of the redacted form of `text`: the annotation blocks are
/// removed, then every token is given its segment. Each placeholder states
/// the length, in characters, and the class of the word it holds.
pub fn redact_segments(text: &str) -> (segments: Vec<Segment>)
    ensures
        segment_views(segments@) == redacted_segments(text@),
        forall|i: int| 0 <= i < segments@.len() ==> (#[trigger] segments@[i])@.is_faithful(),
{
    let clean = strip_annotations(text);
    let tokens = tokenize(clean.as_str());
    redact_tokens(&tokens)
}

/// The redacted form of `text`. The annotation blocks are removed. Of what
/// is left, every word becomes a placeholder, which shows the number of the
/// word's characters and carries the identifier of its class and the word
/// itself; markup and HTML entities are copied as they stand. Each word is
/// classified on its own, so that equal words, and words with one root, get
/// the same identifier wherever they stand.
pub fn redact(text: &str) -> (markup: String)
    ensures
        markup@ == redacted(text@),
{
    let segments = redact_segments(text);
    render(&segments)
}

} // verus!
