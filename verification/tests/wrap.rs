use notetui::text::split_whitespace;
use notetui::wrap::wrap;

fn samples() -> Vec<&'static str> {
    vec![
        "",
        "   ",
        "a",
        "the quick brown fox jumps over the lazy dog",
        "supercalifragilistic is long",
        "  leading and   trailing\tspace  ",
        "日本語のテキスト は 折り返す",
        "aa bbbb c dddddddddddd e ff",
        "x\u{a0}y\u{3000}z",
    ]
}

fn ink(s: &str) -> String {
    s.chars().filter(|c| !c.is_whitespace()).collect()
}

#[test]
fn empty_text_is_one_empty_line() {
    assert_eq!(wrap("", 10), vec![""]);
    assert_eq!(wrap(" \t ", 10), vec![""]);
}

#[test]
fn words_fill_lines_greedily() {
    assert_eq!(
        wrap("the quick brown fox", 10),
        vec!["the quick", "brown fox"]
    );
    assert_eq!(wrap("a b c", 1), vec!["a", "b", "c"]);
    assert_eq!(wrap("ab cd", 5), vec!["ab cd"]);
    assert_eq!(wrap("ab cd", 4), vec!["ab", "cd"]);
    assert_eq!(wrap("  a   b  ", 80), vec!["a b"]);
}

#[test]
fn long_words_are_cut() {
    assert_eq!(wrap("abcdefgh", 3), vec!["abc", "def", "gh"]);
    assert_eq!(wrap("abcdef", 3), vec!["abc", "def"]);
    assert_eq!(wrap("xy abcdefgh z", 3), vec!["xy", "abc", "def", "gh", "z"]);
    assert_eq!(wrap("abcdefg h", 3), vec!["abc", "def", "g h"]);
    assert_eq!(wrap("日本語テキスト", 4), vec!["日本語テ", "キスト"]);
}

#[test]
fn width_zero_is_one_column() {
    assert_eq!(wrap("ab c", 0), vec!["a", "b", "c"]);
}

#[test]
fn lines_fit_the_width() {
    for text in samples() {
        for width in 0..15 {
            for line in wrap(text, width) {
                assert!(line.chars().count() <= width.max(1));
            }
        }
    }
}

#[test]
fn nothing_is_lost() {
    for text in samples() {
        for width in 0..15 {
            assert_eq!(ink(&wrap(text, width).concat()), ink(text));
        }
    }
}

#[test]
fn lines_are_words_with_single_spaces() {
    for text in samples() {
        for width in 0..15 {
            let lines = wrap(text, width);
            if split_whitespace(text).is_empty() {
                assert_eq!(lines, vec![""]);
            } else {
                for line in &lines {
                    assert!(!line.is_empty());
                    assert_eq!(&split_whitespace(line).join(" "), line);
                }
            }
        }
    }
}

#[test]
fn short_words_stay_whole() {
    let text = "aa bbbb c dddd e ff";
    for width in 4..12 {
        let words: Vec<String> = wrap(text, width)
            .iter()
            .flat_map(|l| split_whitespace(l))
            .collect();
        assert_eq!(words, split_whitespace(text));
    }
}

#[test]
fn the_next_word_would_not_have_fitted() {
    for text in samples() {
        for width in 1..15 {
            let lines = wrap(text, width);
            for pair in lines.windows(2) {
                let first = split_whitespace(&pair[1])[0].chars().count();
                assert!(pair[0].chars().count() + 1 + first > width);
            }
        }
    }
}

#[test]
fn text_that_fits_is_one_line() {
    assert_eq!(wrap(" a\tlittle  note ", 13), vec!["a little note"]);
}

#[test]
fn wrapped_lines_are_stable() {
    for text in samples() {
        for width in 0..15 {
            for line in wrap(text, width) {
                assert_eq!(wrap(&line, width), vec![line.clone()]);
            }
        }
    }
}
