use basscript_core::scan::{
    count_words, ends_with, first_and_last, is_whitespace, same_text, split_on, starts_with, trim,
    trim_end_matches, trim_start,
};

#[test]
fn white_space_is_what_std_calls_white_space() {
    for code in 0u32..=0x10FFFF {
        if let Some(c) = char::from_u32(code) {
            assert_eq!(is_whitespace(c), c.is_whitespace(), "U+{code:04X}");
        }
    }
}

#[test]
fn trim_is_what_std_trims() {
    let samples = [
        "",
        " ",
        "a",
        "  a  ",
        "\t a b \n",
        "\u{a0}é\u{2003}",
        "\u{3000}\u{3000}",
        " 日本 語 ",
        "x\u{85}",
        "\u{feff}x",
    ];
    for text in samples {
        assert_eq!(trim(text), text.trim(), "{text:?}");
        assert_eq!(trim_start(text), text.trim_start(), "{text:?}");
    }
}

#[test]
fn prefix_suffix_and_equality() {
    assert!(starts_with("héllo", "hé"));
    assert!(starts_with("héllo", ""));
    assert!(starts_with("héllo", "héllo"));
    assert!(!starts_with("héllo", "héllo!"));
    assert!(!starts_with("héllo", "he"));
    assert!(ends_with("héllo wörld", "wörld"));
    assert!(ends_with("héllo", ""));
    assert!(ends_with("héllo", "héllo"));
    assert!(!ends_with("héllo", "xhéllo"));
    assert!(!ends_with("héllo", "la"));
    assert!(same_text("日本", "日本"));
    assert!(same_text("", ""));
    assert!(!same_text("日本", "日本語"));
    assert!(!same_text("日本語", "日本"));
    assert!(!same_text("ab", "ac"));
}

#[test]
fn words_are_counted_as_std_splits_them() {
    let samples = ["", " ", "a", " a ", "a b", "a  b\tc\nd", "\u{a0}x\u{2003}y", "日本 語"];
    for text in samples {
        assert_eq!(count_words(text), text.split_whitespace().count(), "{text:?}");
    }
    assert_eq!(count_words("one two  three"), 3);
}

#[test]
fn first_and_last_characters() {
    assert_eq!(first_and_last(""), None);
    assert_eq!(first_and_last("a"), Some(('a', 'a')));
    assert_eq!(first_and_last("日本語"), Some(('日', '語')));
}

#[test]
fn split_on_gives_the_pieces_between_separators() {
    for text in ["", "a", "a\nb", "a\n", "\n", "\n\nx\n", "é\n日本\n", "a=b=c", "=", "x"] {
        for separator in ['\n', '='] {
            let expected: Vec<&str> = text.split(separator).collect();
            assert_eq!(split_on(text, separator), expected, "{text:?} {separator:?}");
        }
    }
    assert_eq!(split_on("a,b,,c", ','), vec!["a", "b", "", "c"]);
}

#[test]
fn trim_end_matches_drops_the_trailing_run() {
    for text in ["", "a", "a\r", "a\r\r", "\r", "\ra\r", "é\r", "a\r b"] {
        assert_eq!(trim_end_matches(text, '\r'), text.trim_end_matches('\r'), "{text:?}");
    }
    assert_eq!(trim_end_matches("xyy", 'y'), "x");
}
