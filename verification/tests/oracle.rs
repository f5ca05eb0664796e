use base64::Engine;
use wiki_redact::annotation::strip_annotations;
use wiki_redact::classify::classify;
use wiki_redact::encode::encode;
use wiki_redact::normalize::normalize;
use wiki_redact::redact::redact;
use wiki_redact::stem::stem;
use wiki_redact::token::{tokenize, Token};

fn alphabet_engine() -> base64::engine::GeneralPurpose {
    let alphabet = base64::alphabet::Alphabet::new(
        "ABCDEFGHIJKLMNOPQRSTUVWXYZabcdefghijklmnopqrstuvwxyz0123456789-_",
    )
    .unwrap();
    let config = base64::engine::GeneralPurposeConfig::new().with_encode_padding(false);
    base64::engine::GeneralPurpose::new(&alphabet, config)
}

fn pattern_identifier(word: &str) -> String {
    let lowered = unidecode::unidecode(word).to_ascii_lowercase();
    let stemmer = rust_stemmers::Stemmer::create(rust_stemmers::Algorithm::English);
    let root = stemmer.stem(&lowered).to_string();
    alphabet_engine().encode(root)
}

fn block_pattern() -> fancy_regex::Regex {
    fancy_regex::Regex::new(r"(?s)<annotation.+\/annotation>").unwrap()
}

fn word_pattern() -> fancy_regex::Regex {
    fancy_regex::Regex::new(r"&?(?![^<]*>)([\p{L}0-9']+);?").unwrap()
}

fn strip_with(blocks: &fancy_regex::Regex, text: &str) -> String {
    blocks.replace_all(text, "").to_string()
}

fn pattern_strip(text: &str) -> String {
    strip_with(&block_pattern(), text)
}

fn pattern_redact(text: &str) -> String {
    redact_with(&block_pattern(), &word_pattern(), text)
}

fn redact_with(blocks: &fancy_regex::Regex, words: &fancy_regex::Regex, text: &str) -> String {
    let clean = strip_with(blocks, text);
    let mut out = String::new();
    let mut last = 0;
    for found in words.captures_iter(&clean) {
        let found = found.unwrap();
        let whole = found.get(0).unwrap();
        let word = found.get(1).unwrap();
        out.push_str(&clean[last..whole.start()]);
        if whole.as_str().len() != word.as_str().len() + 2 {
            let len = word.as_str().chars().count();
            out.push_str(&format!(
                "<span title=\"{}\" style=\"--len: {}\" class=\"redacted word word--{}\">{}</span>",
                len,
                len,
                pattern_identifier(word.as_str()),
                word.as_str()
            ));
        } else {
            out.push_str(whole.as_str());
        }
        last = whole.end();
    }
    out.push_str(&clean[last..]);
    out
}

const SAMPLES: [&str; 40] = [
    "",
    "The <b>quick</b> fox",
    "&amp;",
    "amp",
    "&amp",
    "amp;",
    "Tom &amp; Jerry; and &lt;friends&gt;",
    "<a href=\"x.html\" title='A title'>link text</a> tail",
    "a > b < c > d",
    "no closing < bracket here",
    "closing > only",
    "x<y>z",
    "it's 9 o'clock, isn't it?",
    "caf\u{e9} na\u{ef}ve \u{5317}\u{4eb0} \u{43c}\u{43e}\u{441}\u{43a}\u{432}\u{430}",
    "\u{2167} \u{24b6} \u{939}\u{93f}\u{928}\u{94d}\u{926}\u{940} \u{ff21}\u{ff42}",
    "a&b;c;&;&&d;;e",
    "&&amp;;",
    "&<b>x</b>;",
    "&1;",
    "&'';",
    "word&",
    ";word",
    "<p>One</p>\n<p>Two words</p>\n",
    "<annotation encoding=\"tex\">x^2</annotation> after",
    "before <annotation>one</annotation> between <annotation>two</annotation> after",
    "first <annotation>one</annotation>\nsecond <annotation>two</annotation> end",
    "<annotation/annotation>",
    "<annotation</annotation>",
    "<annotation>\n</annotation>",
    "<annotationX/annotation>/annotation> rest /annotation>",
    "<annotation<annotation>a</annotation>",
    "/annotation> <annotation",
    "<annotation> never closed",
    "<annotation>a/annotation>\n/annotation>",
    "<<annotation>>x<//annotation>>",
    "running runs ran Games game's",
    "tab\tseparated\u{a0}words\u{2003}here",
    "emoji \u{1f600} and \u{10400}\u{10428} letters",
    "UPPER lower MiXeD 123abc abc123",
    "<span class=\"x\">in</span><br/>out>still>",
];

#[test]
fn identifiers_agree_with_the_crates() {
    for word in ["game", "Games", "running", "caf\u{e9}", "\u{5317}\u{4eb0}", "it's", "", "a", "ab", "abc", "abcd"] {
        assert_eq!(classify(word), pattern_identifier(word), "word {:?}", word);
    }
}

#[test]
fn encoding_agrees_with_base64() {
    let engine = alphabet_engine();
    let mut bytes: Vec<u8> = Vec::new();
    for n in 0..=255u8 {
        assert_eq!(encode(&bytes), engine.encode(&bytes));
        assert_eq!(
            encode(&bytes),
            base64::engine::general_purpose::URL_SAFE_NO_PAD.encode(&bytes)
        );
        bytes.push(n.wrapping_mul(37).wrapping_add(11));
    }
    for n in 0..=255u8 {
        let triple = [n, n.wrapping_add(85), n.wrapping_add(170)];
        assert_eq!(encode(&triple), engine.encode(triple));
        assert_eq!(encode(&[n]), engine.encode([n]));
        assert_eq!(encode(&[n, 255 - n]), engine.encode([n, 255 - n]));
    }
}

#[test]
fn stripping_agrees_with_the_pattern() {
    for text in SAMPLES {
        assert_eq!(strip_annotations(text), pattern_strip(text), "text {:?}", text);
    }
}

#[test]
fn redaction_agrees_with_the_pattern() {
    for text in SAMPLES {
        assert_eq!(redact(text), pattern_redact(text), "text {:?}", text);
    }
}

const PIECES: [&str; 32] = [
    "<", ">", "&", ";", "'", "/", " ", "\n", "a", "b", "Z", "0", "9", "\u{e9}", "\u{5317}",
    "\u{20ac}", "\u{2167}", "\u{93f}", "<annotation", "/annotation>", "</annotation>",
    "<annotation>", "annotation", "amp", "&amp;", "<b>", "</b>", "=\"x\"", "\r\n", "-", "\u{1f600}",
    "\u{aa}",
];

fn jumble(seed: &mut u64, pieces: usize) -> String {
    let mut text = String::new();
    for _ in 0..pieces {
        *seed = seed.wrapping_mul(6364136223846793005).wrapping_add(1442695040888963407);
        text.push_str(PIECES[((*seed >> 33) % 32) as usize]);
    }
    text
}

fn compare_stripping(mut seed: u64, rounds: usize) {
    let blocks = block_pattern();
    for round in 0..rounds {
        let text = jumble(&mut seed, 1 + round % 12);
        assert_eq!(strip_annotations(&text), strip_with(&blocks, &text), "text {:?}", text);
    }
}

fn compare_redaction(mut seed: u64, rounds: usize) {
    let blocks = block_pattern();
    let words = word_pattern();
    for round in 0..rounds {
        let text = jumble(&mut seed, 1 + round % 10);
        assert_eq!(redact(&text), redact_with(&blocks, &words, &text), "text {:?}", text);
    }
}

#[test]
fn stripping_agrees_with_the_pattern_on_jumbled_text() {
    compare_stripping(7, 3000);
}

#[test]
fn redaction_agrees_with_the_pattern_on_jumbled_text() {
    compare_redaction(11, 300);
}

#[test]
fn redaction_agrees_with_the_pattern_on_more_jumbled_text() {
    compare_redaction(2024, 300);
}

#[test]
fn every_character_has_an_ascii_form() {
    let mut chunk = String::new();
    for code in 0..=0x10ffffu32 {
        if let Some(c) = char::from_u32(code) {
            chunk.push(c);
        }
        if chunk.len() > 60000 || code == 0x10ffff {
            let normal = normalize(&chunk);
            assert!(normal.is_ascii());
            assert!(!normal.bytes().any(|b| b.is_ascii_uppercase()));
            assert_eq!(normal, unidecode::unidecode(&chunk).to_ascii_lowercase());
            chunk.clear();
        }
    }
}

#[test]
fn ascii_text_is_only_lowered() {
    let ascii: String = (0u8..128).map(|b| b as char).collect();
    assert_eq!(normalize(&ascii), ascii.to_ascii_lowercase());
    for b in 0u8..128 {
        let one = (b as char).to_string();
        assert_eq!(normalize(&one), one.to_ascii_lowercase());
    }
}

#[test]
fn stemmer_takes_every_ascii_pair() {
    let stemmer = rust_stemmers::Stemmer::create(rust_stemmers::Algorithm::English);
    for a in 0u8..128 {
        for b in 0u8..128 {
            let word: String = [a as char, b as char, 's'].iter().collect();
            assert_eq!(stem(&word), stemmer.stem(&word));
        }
    }
}

#[test]
fn stemmer_takes_jumbled_ascii() {
    let stemmer = rust_stemmers::Stemmer::create(rust_stemmers::Algorithm::English);
    let mut seed: u64 = 99;
    for round in 0..20000 {
        let mut word = String::new();
        for _ in 0..(1 + round % 14) {
            seed = seed.wrapping_mul(6364136223846793005).wrapping_add(1442695040888963407);
            let pick = (seed >> 33) % 40;
            word.push(if pick < 26 { (b'a' + pick as u8) as char } else { b"'y -.0\n\t&;ings"[(pick - 26) as usize] as char });
        }
        assert_eq!(stem(&word), stemmer.stem(&word), "word {:?}", word);
    }
}

fn compare_letters(codes: Vec<u32>) {
    let letters = fancy_regex::Regex::new(r"^[\p{L}0-9']$").unwrap();
    let mut text = String::new();
    let mut expected: Vec<bool> = Vec::new();
    for code in codes {
        if let Some(c) = char::from_u32(code) {
            if c == '<' || c == '>' || c == '&' || c == ';' {
                continue;
            }
            text.push(c);
            text.push(' ');
            expected.push(letters.is_match(&c.to_string()).unwrap());
        }
    }
    let mut found: Vec<bool> = Vec::new();
    let mut at = 0;
    let chars: Vec<char> = text.chars().collect();
    for token in tokenize(&text) {
        match token {
            Token::Markup { text: markup } => {
                for c in markup.chars() {
                    if at % 2 == 0 {
                        found.push(false);
                    }
                    assert_eq!(c, chars[at]);
                    at += 1;
                }
            }
            Token::Word { text: word, ampersand, semicolon } => {
                assert!(!ampersand && !semicolon);
                assert_eq!(word.chars().count(), 1);
                assert_eq!(at % 2, 0);
                found.push(true);
                at += 1;
            }
        }
    }
    assert_eq!(found, expected);
}

#[test]
fn ascii_and_latin_letters_agree_with_the_pattern() {
    compare_letters((0..0x500u32).collect());
}

#[test]
fn letters_of_many_scripts_agree_with_the_pattern() {
    compare_letters((0x500..0x3100u32).step_by(7).collect());
}

#[test]
fn wide_and_high_letters_agree_with_the_pattern() {
    compare_letters(
        (0xff00..0xfff0u32).chain(0x10000..0x10100).chain(0x1f000..0x1f100).chain(0x4e00..0x4f00).collect(),
    );
}

const EXTRACT: &str = "<p class=\"mw-empty-elt\">\n</p>\n<p><b>Portal</b> is a 2007 puzzle-platform game developed and published by Valve. It was released in a bundle, <i>The Orange Box</i>, for Windows, Xbox&#160;360 and PlayStation&nbsp;3.</p>\n<p>The momentum <span class=\"mwe-math-element\"><span class=\"mwe-math-mathml-inline\" style=\"display: none;\"><math xmlns=\"http://www.w3.org/1998/Math/MathML\"><semantics><mi>p</mi><annotation encoding=\"application/x-tex\">{\\displaystyle p}</annotation></semantics></math></span></span> of the player&#8217;s body isn't lost &amp; carries over.</p>\n<h2><span id=\"Gameplay\">Gameplay</span></h2>\n<ul><li>caf\u{e9} &mdash; na\u{ef}ve</li>\n<li>\u{30dd}\u{30fc}\u{30bf}\u{30eb}</li></ul>";

#[test]
fn article_extract_agrees_with_the_pattern() {
    assert_eq!(strip_annotations(EXTRACT), pattern_strip(EXTRACT));
    assert_eq!(redact(EXTRACT), pattern_redact(EXTRACT));
    let out = redact(EXTRACT);
    assert!(!out.contains("displaystyle"));
    assert!(out.contains("<p class=\"mw-empty-elt\">"));
    assert!(out.contains("&nbsp;"));
    assert!(out.contains("&amp;"));
    assert!(out.contains("<span title=\"6\" style=\"--len: 6\" class=\"redacted word word--cG9ydGFs\">Portal</span>"));
}
