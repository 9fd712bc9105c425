use kdf_init::text::{
    chars_of, split_fields, split_once, split_words, strip_prefix, Separator,
};

#[test]
fn test_whitespace_is_that_of_unicode() {
    let blank = Separator::Whitespace;
    for code in 0..=0x10FFFFu32 {
        if let Some(c) = char::from_u32(code) {
            assert_eq!(blank.test(c), c.is_whitespace(), "U+{:04X}", code);
        }
    }
}

#[test]
fn test_char_separator() {
    let comma = Separator::Char(',');
    assert!(comma.test(','));
    assert!(!comma.test(';'));
    assert!(!comma.test(' '));
}

#[test]
fn test_chars_of() {
    assert_eq!(chars_of(""), Vec::<char>::new());
    assert_eq!(chars_of("a\u{e9}\u{4e2d}\u{1f600}b"), vec!['a', '\u{e9}', '\u{4e2d}', '\u{1f600}', 'b']);
}

#[test]
fn test_split_words_on_whitespace() {
    let blank = Separator::Whitespace;
    assert_eq!(split_words("", blank), Vec::<&str>::new());
    assert_eq!(split_words("   \t\n ", blank), Vec::<&str>::new());
    assert_eq!(split_words("a", blank), vec!["a"]);
    assert_eq!(split_words("  a  b\tc\nd  ", blank), vec!["a", "b", "c", "d"]);
    assert_eq!(split_words("a\u{a0}b\u{3000}c\u{85}d\u{200b}e", blank), vec!["a", "b", "c", "d\u{200b}e"]);
    assert_eq!(split_words("\u{e9}t\u{e9} \u{4e2d}\u{6587}", blank), vec!["\u{e9}t\u{e9}", "\u{4e2d}\u{6587}"]);
}

#[test]
fn test_split_words_is_split_whitespace() {
    let lines = [
        "console=ttyS0 init.cmd=/bin/sh quiet",
        "\t a \r\n b \u{b}\u{c} c ",
        "\u{2028}x\u{2029}y\u{202f}z\u{205f}w\u{1680}v",
        "no-blank",
        " ",
    ];
    for line in lines {
        let expected: Vec<&str> = line.split_whitespace().collect();
        assert_eq!(split_words(line, Separator::Whitespace), expected);
    }
}

#[test]
fn test_split_words_on_comma_skips_empty_items() {
    let comma = Separator::Char(',');
    assert_eq!(split_words("a,b", comma), vec!["a", "b"]);
    assert_eq!(split_words(",a,,b,", comma), vec!["a", "b"]);
    assert_eq!(split_words(",,,", comma), Vec::<&str>::new());
    assert_eq!(split_words("a b", comma), vec!["a b"]);
}

#[test]
fn test_split_fields_keeps_empty_fields() {
    let colon = Separator::Char(':');
    assert_eq!(split_fields("", colon), vec![""]);
    assert_eq!(split_fields("a", colon), vec!["a"]);
    assert_eq!(split_fields("a:b", colon), vec!["a", "b"]);
    assert_eq!(split_fields("a:b:c:d", colon), vec!["a", "b", "c", "d"]);
    assert_eq!(split_fields(":", colon), vec!["", ""]);
    assert_eq!(split_fields("a::b:", colon), vec!["a", "", "b", ""]);
    assert_eq!(split_fields(":\u{e9}:", colon), vec!["", "\u{e9}", ""]);
}

#[test]
fn test_split_fields_is_split() {
    let items = ["", ":", "a:b", "::a::", "tag:/p:Y", "a:b:c:d:e", "\u{4e2d}:\u{6587}"];
    for item in items {
        let expected: Vec<&str> = item.split(':').collect();
        assert_eq!(split_fields(item, Separator::Char(':')), expected);
    }
}

#[test]
fn test_split_once() {
    let colon = Separator::Char(':');
    assert_eq!(split_once("/a:b:c:/d", colon), Some(("/a", "b:c:/d")));
    assert_eq!(split_once("a:", colon), Some(("a", "")));
    assert_eq!(split_once(":a", colon), Some(("", "a")));
    assert_eq!(split_once(":", colon), Some(("", "")));
    assert_eq!(split_once("a", colon), None);
    assert_eq!(split_once("", colon), None);
    assert_eq!(split_once("\u{e9}=\u{e8}=", Separator::Char('=')), Some(("\u{e9}", "\u{e8}=")));
}

#[test]
fn test_strip_prefix() {
    assert_eq!(strip_prefix("init.cmd=/bin/sh", "init.cmd="), Some("/bin/sh"));
    assert_eq!(strip_prefix("init.cmd=", "init.cmd="), Some(""));
    assert_eq!(strip_prefix("init.cmd", "init.cmd="), None);
    assert_eq!(strip_prefix("xinit.cmd=a", "init.cmd="), None);
    assert_eq!(strip_prefix("abc", ""), Some("abc"));
    assert_eq!(strip_prefix("", ""), Some(""));
    assert_eq!(strip_prefix("", "a"), None);
    assert_eq!(strip_prefix("\u{e9}\u{e8}x", "\u{e9}\u{e8}"), Some("x"));
}
