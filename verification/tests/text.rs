use notetui::text::{
    get_bytes, is_whitespace, push_count, push_number, split_lines, split_whitespace, trim,
};

fn number(n: i64) -> String {
    let mut s = String::new();
    push_number(&mut s, n);
    s
}

#[test]
fn white_space_is_that_of_unicode() {
    for u in 0..=0x10ffffu32 {
        if let Some(c) = char::from_u32(u) {
            assert_eq!(is_whitespace(c), c.is_whitespace(), "{:x}", u);
        }
    }
}

#[test]
fn words_are_split_at_any_white_space() {
    assert_eq!(split_whitespace("  a\tbc\u{3000}d \n"), vec!["a", "bc", "d"]);
    assert!(split_whitespace(" \t ").is_empty());
    assert!(split_whitespace("").is_empty());
    assert_eq!(split_whitespace("日本語"), vec!["日本語"]);
}

#[test]
fn trim_removes_white_space_at_both_ends() {
    assert_eq!(trim("  misskey.io \r\n"), "misskey.io");
    assert_eq!(trim("\u{a0}a b\u{2028}"), "a b");
    assert_eq!(trim(" \n"), "");
    assert_eq!(trim(""), "");
    assert_eq!(trim(&trim("\t x y ")), trim("\t x y "));
}

#[test]
fn lines_are_split_at_line_feeds() {
    assert_eq!(split_lines("a\n\nb\n"), vec!["a", "", "b", ""]);
    assert_eq!(split_lines(""), vec![""]);
    assert_eq!(split_lines("x\r\ny"), vec!["x\r", "y"]);
    assert_eq!(split_lines("a\n\nb\n").join("\n"), "a\n\nb\n");
}

#[test]
fn numbers_are_decimal() {
    for n in [0, 1, 9, 10, 99, 100, 1234567890, -1, -10, -907, i64::MAX, i64::MIN] {
        assert_eq!(number(n), n.to_string());
    }
    let mut s = String::from("n=");
    push_count(&mut s, usize::MAX);
    assert_eq!(s, format!("n={}", usize::MAX));
}

#[test]
fn byte_ranges_respect_characters() {
    assert_eq!(get_bytes("abcdef", 1, 4), Some(String::from("bcd")));
    assert_eq!(get_bytes("abc", 3, 3), Some(String::new()));
    assert_eq!(get_bytes("abc", 2, 4), None);
    assert_eq!(get_bytes("a日b", 1, 4), Some(String::from("日")));
    assert_eq!(get_bytes("a日b", 1, 3), None);
    assert_eq!(get_bytes("a日b", 2, 4), None);
    for text in ["2026-06-18T12:34:56.789Z", "日本語テキスト", "é🔁é", ""] {
        for from in 0..12 {
            for to in from..14 {
                assert_eq!(get_bytes(text, from, to).as_deref(), text.get(from..to));
            }
        }
    }
}
