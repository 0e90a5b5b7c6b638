use asset_describer::text::{is_whitespace_char, strip_trailing, trim};

#[test]
fn trim_removes_ascii_whitespace_on_both_sides() {
    assert_eq!(trim("  a scenic lake \n"), "a scenic lake");
}

#[test]
fn trim_keeps_inner_whitespace() {
    assert_eq!(trim("\ta  b\r\n"), "a  b");
}

#[test]
fn trim_removes_unicode_whitespace() {
    assert_eq!(trim("\u{3000}\u{00a0}caf\u{e9}\u{2003}"), "caf\u{e9}");
}

#[test]
fn trim_of_blank_text_is_empty() {
    assert_eq!(trim(""), "");
    assert_eq!(trim(" \n\t \u{2028}"), "");
}

#[test]
fn trim_leaves_clean_text_alone() {
    assert_eq!(trim("x"), "x");
    assert_eq!(trim("two words"), "two words");
}

#[test]
fn trim_does_not_treat_zero_width_space_as_whitespace() {
    assert_eq!(trim("\u{200b}a\u{200b}"), "\u{200b}a\u{200b}");
}

#[test]
fn trim_agrees_with_the_standard_library() {
    let samples = [
        "",
        " ",
        "a",
        " a",
        "a ",
        "\n\na b\t\t",
        "\u{1680}x\u{205f}",
        "  \u{feff} ",
        "\u{85}line\u{85}",
    ];
    for s in samples {
        assert_eq!(trim(s), s.trim());
    }
}

#[test]
fn strip_trailing_removes_every_trailing_slash() {
    assert_eq!(strip_trailing("http://host:8080///", '/'), "http://host:8080");
    assert_eq!(strip_trailing("http://host:8080/", '/'), "http://host:8080");
}

#[test]
fn strip_trailing_keeps_inner_and_leading_characters() {
    assert_eq!(strip_trailing("/a/b", '/'), "/a/b");
    assert_eq!(strip_trailing("", '/'), "");
    assert_eq!(strip_trailing("///", '/'), "");
}

#[test]
fn whitespace_is_the_unicode_property() {
    for c in ['\t', '\n', '\u{b}', '\u{c}', '\r', ' ', '\u{85}', '\u{a0}', '\u{1680}', '\u{2000}',
        '\u{200a}', '\u{2028}', '\u{2029}', '\u{202f}', '\u{205f}', '\u{3000}']
    {
        assert!(is_whitespace_char(c));
    }
    for c in ['a', '0', '\u{8}', '\u{e}', '\u{1f}', '!', '\u{84}', '\u{86}', '\u{180e}',
        '\u{1fff}', '\u{200b}', '\u{2060}', '\u{feff}', '\u{3001}']
    {
        assert!(!is_whitespace_char(c));
    }
}

#[test]
fn whitespace_agrees_with_the_standard_library_on_every_character() {
    for n in 0..=0x10ffffu32 {
        if let Some(c) = char::from_u32(n) {
            assert_eq!(is_whitespace_char(c), c.is_whitespace());
        }
    }
}
