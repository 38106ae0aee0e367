use inventory_ledger::item::validate;
use inventory_ledger::text::{chars_of, contains_chars, is_blank, is_white_space, lowercase_chars};
use inventory_ledger::{Invalid, Price};

fn chars(s: &str) -> Vec<char> {
    s.chars().collect()
}

#[test]
fn is_white_space_agrees_with_the_standard_library_on_every_character() {
    for code in 0..=0x10FFFFu32 {
        if let Some(c) = char::from_u32(code) {
            assert_eq!(is_white_space(c), c.is_whitespace(), "U+{:04X}", code);
        }
    }
}

#[test]
fn is_white_space_at_the_edges_of_its_ranges() {
    for c in ['\u{9}', '\u{d}', ' ', '\u{85}', '\u{a0}', '\u{1680}', '\u{2000}', '\u{200a}'] {
        assert!(is_white_space(c));
    }
    for c in ['\u{2028}', '\u{2029}', '\u{202f}', '\u{205f}', '\u{3000}'] {
        assert!(is_white_space(c));
    }
    for c in ['\u{8}', '\u{e}', '\u{1f}', '!', '\u{84}', '\u{86}', '\u{180e}', '\u{1fff}'] {
        assert!(!is_white_space(c));
    }
    for c in ['\u{200b}', '\u{2027}', '\u{202a}', '\u{2060}', '\u{feff}', 'a', '0'] {
        assert!(!is_white_space(c));
    }
}

#[test]
fn is_blank_agrees_with_trimming() {
    let samples = [
        "",
        " ",
        "\t\r\n",
        "\u{a0}\u{2003}\u{3000}",
        "a",
        " a",
        "a ",
        "  a  ",
        "\u{200b}",
        " \u{feff} ",
        "Widget",
        "  \u{1680}x",
    ];
    for s in samples {
        assert_eq!(is_blank(s), s.trim().is_empty(), "{:?}", s);
    }
    assert!(is_blank(""));
    assert!(is_blank(" \t"));
    assert!(!is_blank(" x "));
}

#[test]
fn chars_of_gives_the_characters_in_order() {
    assert_eq!(chars_of(""), Vec::<char>::new());
    assert_eq!(chars_of("aé越"), vec!['a', 'é', '越']);
}

#[test]
fn lowercase_chars_gives_the_lowercase_form() {
    assert_eq!(lowercase_chars("Widget"), chars("widget"));
    assert_eq!(lowercase_chars("ÀÉÎ 10"), chars("àéî 10"));
    assert_eq!(lowercase_chars("ΟΔΟΣ"), chars("οδος"));
    assert_eq!(lowercase_chars("İ"), chars("i\u{307}"));
    assert_eq!(lowercase_chars(""), Vec::<char>::new());
}

#[test]
fn contains_chars_agrees_with_the_standard_library() {
    let hays = ["", "a", "ab", "abc", "aab", "abab", "widget", "aaa", "é越a"];
    let needles = ["", "a", "b", "ab", "ba", "abc", "aab", "bab", "aaaa", "get", "越", "越a"];
    for hay in hays {
        for needle in needles {
            assert_eq!(
                contains_chars(&chars(hay), &chars(needle)),
                hay.contains(needle),
                "{:?} in {:?}",
                needle,
                hay
            );
        }
    }
}

#[test]
fn contains_chars_finds_a_match_at_either_end() {
    assert!(contains_chars(&chars("widget"), &chars("wid")));
    assert!(contains_chars(&chars("widget"), &chars("get")));
    assert!(contains_chars(&chars("widget"), &chars("widget")));
    assert!(!contains_chars(&chars("widget"), &chars("widgets")));
    assert!(!contains_chars(&chars(""), &chars("w")));
    assert!(contains_chars(&chars(""), &chars("")));
}

#[test]
fn validate_reports_the_first_broken_rule() {
    let good = Price::from_bits(1.5f64.to_bits());
    let bad = Price::from_bits(0);
    assert_eq!(validate(None, None, None), None);
    assert_eq!(validate(Some("x"), Some(1), Some(good)), None);
    assert_eq!(validate(Some(" "), Some(0), Some(bad)), Some(Invalid::EmptyName));
    assert_eq!(validate(Some("x"), Some(0), Some(bad)), Some(Invalid::ZeroQuantity));
    assert_eq!(validate(None, None, Some(bad)), Some(Invalid::NonPositivePrice));
    assert_eq!(validate(None, Some(0), None), Some(Invalid::ZeroQuantity));
}
