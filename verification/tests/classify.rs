use wiki_redact::classify::classify;
use wiki_redact::encode::encode;
use wiki_redact::normalize::{lower_char, normalize, to_lowercase};
use wiki_redact::stem::{stem, STEM_LIMIT};

#[test]
fn classification_is_repeatable() {
    for word in ["game", "Wikipedia", "caf\u{e9}", "o'clock", "42", ""] {
        let first = classify(word);
        let second = classify(word);
        assert_eq!(first, second);
    }
}

#[test]
fn inflections_share_an_identifier() {
    assert_eq!(classify("game"), classify("games"));
    assert_eq!(classify("running"), classify("runs"));
    assert_eq!(classify("connect"), classify("connected"));
    assert_eq!(classify("connect"), classify("connecting"));
}

#[test]
fn unrelated_words_differ() {
    assert_ne!(classify("game"), classify("gate"));
    assert_ne!(classify("fox"), classify("box"));
    assert_ne!(classify("a"), classify("b"));
}

#[test]
fn identifier_ignores_case_and_accents() {
    assert_eq!(classify("Game"), classify("game"));
    assert_eq!(classify("GAMES"), classify("game"));
    assert_eq!(classify("caf\u{e9}"), classify("cafe"));
    assert_eq!(classify("\u{c9}TUDE"), classify("etude"));
}

#[test]
fn identifier_of_a_known_word() {
    assert_eq!(normalize("Games"), "games");
    assert_eq!(stem("games"), "game");
    assert_eq!(encode(b"game"), "Z2FtZQ");
    assert_eq!(classify("Games"), "Z2FtZQ");
    assert_eq!(classify("quick"), "cXVpY2s");
    assert_eq!(classify("fox"), "Zm94");
    assert_eq!(classify("The"), "dGhl");
}

#[test]
fn identifier_of_the_empty_word_is_empty() {
    assert_eq!(classify(""), "");
}

#[test]
fn identifier_fits_a_class_name() {
    for word in ["game", "\u{5317}\u{4eb0}", "na\u{ef}ve", "it's", "~~~", "\u{1f600}", "x y"] {
        let id = classify(word);
        assert!(id.chars().all(|c| c.is_ascii_alphanumeric() || c == '-' || c == '_'), "{:?}", id);
    }
}

#[test]
fn normalize_transliterates_and_lowers() {
    assert_eq!(normalize("\u{c6}neid"), "aeneid");
    assert_eq!(normalize("\u{e9}tude"), "etude");
    assert_eq!(normalize("\u{5317}\u{4eb0}"), "bei jing ");
    assert_eq!(normalize("Stra\u{df}e"), "strasse");
    assert_eq!(normalize("HELLO World"), "hello world");
    assert_eq!(normalize(""), "");
}

#[test]
fn normalize_degrades_unknown_characters() {
    assert_eq!(normalize("\u{1f600}"), "");
    assert_eq!(normalize("a\u{10ffff}b"), "ab");
    assert!(normalize("\u{e000}\u{fffd}\u{2603}").is_ascii());
}

#[test]
fn lowercase_touches_ascii_capitals_only() {
    assert_eq!(lower_char('A'), 'a');
    assert_eq!(lower_char('Z'), 'z');
    assert_eq!(lower_char('a'), 'a');
    assert_eq!(lower_char('@'), '@');
    assert_eq!(lower_char('['), '[');
    assert_eq!(lower_char('\u{c9}'), '\u{c9}');
    assert_eq!(to_lowercase("AbC \u{c9}\u{e9} XYZ[]@`"), "abc \u{c9}\u{e9} xyz[]@`");
}

#[test]
fn stem_finds_the_root() {
    assert_eq!(stem("fruitlessly"), "fruitless");
    assert_eq!(stem("running"), "run");
    assert_eq!(stem("runs"), "run");
    assert_eq!(stem("game"), "game");
    assert_eq!(stem(""), "");
}

#[test]
fn stem_leaves_other_words_as_they_are() {
    assert_eq!(stem("caf\u{e9}s"), "caf\u{e9}s");
    assert_eq!(stem("\u{438}\u{433}\u{440}\u{44b}"), "\u{438}\u{433}\u{440}\u{44b}");
    assert_eq!(STEM_LIMIT, 2147483647);
}

#[test]
fn encode_groups_of_every_length() {
    assert_eq!(encode(b""), "");
    assert_eq!(encode(b"f"), "Zg");
    assert_eq!(encode(b"fo"), "Zm8");
    assert_eq!(encode(b"foo"), "Zm9v");
    assert_eq!(encode(b"foob"), "Zm9vYg");
    assert_eq!(encode(b"fooba"), "Zm9vYmE");
    assert_eq!(encode(b"foobar"), "Zm9vYmFy");
}

#[test]
fn encode_uses_hyphen_and_underscore() {
    assert_eq!(encode(&[0xfb, 0xff]), "-_8");
    assert_eq!(encode(&[0xff, 0xff, 0xff]), "____");
    assert_eq!(encode(&[0xfb, 0xef, 0xbe]), "----");
    assert_eq!(encode(&[0x00, 0x00, 0x00]), "AAAA");
    assert_eq!(encode(&[0x00]), "AA");
}

#[test]
fn encode_never_pads() {
    for len in 0..20usize {
        let bytes = vec![0x5au8; len];
        let id = encode(&bytes);
        assert!(!id.contains('='));
        assert_eq!(id.len(), len / 3 * 4 + if len % 3 == 0 { 0 } else { len % 3 + 1 });
    }
}

#[test]
fn encode_tells_byte_strings_apart() {
    let mut seen: Vec<String> = Vec::new();
    for a in 0..=255u8 {
        seen.push(encode(&[a]));
        seen.push(encode(&[a, a]));
        seen.push(encode(&[a, 0, a]));
    }
    let total = seen.len();
    seen.sort();
    seen.dedup();
    assert_eq!(seen.len(), total);
}
