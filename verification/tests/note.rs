use notetui::note::{
    can_show, can_total, display_handle, note_lines, reaction_total, short_time, Note, User,
};
use notetui::style::{Color, Line, Style};

fn user(name: Option<&str>, username: &str, host: Option<&str>) -> User {
    User {
        name: name.map(String::from),
        username: String::from(username),
        host: host.map(String::from),
    }
}

fn note(text: Option<&str>) -> Note {
    Note {
        user: user(Some("Ai"), "ai", Some("misskey.io")),
        created_at: String::from("2026-06-18T12:34:56.789Z"),
        cw: None,
        text: text.map(String::from),
        renote: None,
        replies_count: 1,
        renote_count: 2,
        reactions: vec![3, 4],
    }
}

fn texts(lines: &[Line]) -> Vec<String> {
    lines
        .iter()
        .map(|l| l.spans.iter().map(|s| s.text.as_str()).collect())
        .collect()
}

fn fg(color: Color) -> Style {
    Style { fg: Some(color), bg: None, bold: false }
}

#[test]
fn handle_of_a_remote_user() {
    assert_eq!(display_handle(&note(None)), "Ai @ai@misskey.io");
}

#[test]
fn handle_without_name_or_host() {
    let mut n = note(None);
    n.user = user(None, "ai", None);
    assert_eq!(display_handle(&n), "ai @ai");
    n.user = user(Some(""), "ai", Some(""));
    assert_eq!(display_handle(&n), "ai @ai");
    n.user = user(Some("藍"), "ai", None);
    assert_eq!(display_handle(&n), "藍 @ai");
}

#[test]
fn short_time_of_a_full_time() {
    assert_eq!(short_time("2026-06-18T12:34:56.789Z"), "06-18 12:34");
}

#[test]
fn short_time_of_what_is_no_time() {
    assert_eq!(short_time(""), "");
    assert_eq!(short_time("2026-06-18"), "06-18");
    assert_eq!(short_time("2026-06-18T12:3"), "06-18");
    assert_eq!(short_time("2026"), "");
    assert_eq!(short_time("日本語日本語日本語"), "");
    assert_eq!(short_time("2026-日本T12:34:56"), "T12:3");
    assert_eq!(short_time("12345日ab6789"), "日ab");
    assert_eq!(short_time("2026-  18 T12:3 x"), "18  12:3");
}

#[test]
fn reactions_are_added_up() {
    assert_eq!(reaction_total(&vec![]), 0);
    assert_eq!(reaction_total(&vec![1, 2, 39]), 42);
    assert_eq!(reaction_total(&vec![39, 1, 2]), 42);
    assert_eq!(reaction_total(&vec![i64::MAX, i64::MIN]), -1);
    assert!(can_total(&vec![i64::MAX, i64::MIN]));
    assert!(!can_total(&vec![i64::MAX, -1, 1]));
    assert!(!can_total(&vec![-1, i64::MIN]));
    assert!(can_total(&vec![]));
}

#[test]
fn a_note_is_shown_with_author_text_and_counts() {
    let lines = note_lines(&note(Some("hello wide world\nbye")), 11);
    assert_eq!(
        texts(&lines),
        vec![
            "Ai @ai@misskey.io  06-18 12:34",
            "hello wide",
            "world",
            "bye",
            "↩ 1  🔁 2  ❤ 7",
            "",
        ]
    );
    let author = &lines[0].spans;
    assert_eq!(author.len(), 3);
    assert_eq!(
        author[0].style,
        Style { fg: Some(Color::Cyan), bg: None, bold: true }
    );
    assert_eq!(author[1].text, "  ");
    assert_eq!(author[1].style, Style::plain());
    assert_eq!(author[2].style, fg(Color::DarkGray));
    assert_eq!(lines[1].spans[0].style, Style::plain());
    assert_eq!(lines[4].spans[0].style, fg(Color::DarkGray));
    assert!(lines[5].spans.is_empty());
}

#[test]
fn a_content_warning_comes_first() {
    let mut n = note(Some("body"));
    n.cw = Some(String::from("spoiler"));
    let lines = note_lines(&n, 40);
    assert_eq!(lines.len(), 5);
    assert_eq!(texts(&lines)[1], "⚠ spoiler");
    assert_eq!(lines[1].spans[0].style, fg(Color::Yellow));
    n.cw = Some(String::new());
    assert_eq!(note_lines(&n, 40).len(), 4);
}

#[test]
fn a_note_without_text_has_an_empty_line() {
    let lines = note_lines(&note(None), 40);
    assert_eq!(lines.len(), 4);
    assert!(lines[1].spans.is_empty());
    assert_eq!(note_lines(&note(Some("a\n\nb")), 40).len(), 6);
}

#[test]
fn a_pure_renote_shows_the_renoted_note() {
    let mut outer = note(Some(""));
    outer.user = user(None, "boost", None);
    outer.renote = Some(Box::new(note(Some("12345678"))));
    let lines = note_lines(&outer, 8);
    assert_eq!(
        texts(&lines),
        vec![
            "🔁 boost @boost renoted",
            "Ai @ai@misskey.io  06-18 12:34",
            "123456",
            "78",
            "↩ 1  🔁 2  ❤ 7",
            "",
            "",
        ]
    );
    assert_eq!(lines[0].spans[0].style, fg(Color::Green));
}

#[test]
fn nested_renotes_narrow_to_one_column() {
    let mut inner = note(Some("ab"));
    for _ in 0..3 {
        let mut outer = note(None);
        outer.renote = Some(Box::new(inner));
        inner = outer;
    }
    let shown = texts(&note_lines(&inner, 3));
    assert_eq!(shown[4], "a");
    assert_eq!(shown[5], "b");
}

#[test]
fn a_quote_shows_its_own_text() {
    let mut quote = note(Some("look"));
    quote.renote = Some(Box::new(note(Some("inner"))));
    assert_eq!(texts(&note_lines(&quote, 40))[1], "look");
}

#[test]
fn blocks_end_with_a_blank_line() {
    for text in [None, Some(""), Some("a b"), Some("a\nb\nc")] {
        let lines = note_lines(&note(text), 20);
        assert!(lines.len() >= 4);
        assert!(lines[lines.len() - 1].spans.is_empty());
    }
}

#[test]
fn bodies_fit_the_width() {
    let body = "a long body that has to be wrapped somewhereinthemiddle";
    for width in 1..20 {
        let lines = note_lines(&note(Some(body)), width);
        for line in &lines[1..lines.len() - 2] {
            assert!(line.spans[0].text.chars().count() <= width);
        }
    }
}

#[test]
fn only_shown_reactions_have_to_fit() {
    let mut outer = note(None);
    outer.reactions = vec![i64::MAX, 1];
    assert!(!can_show(&outer));
    outer.renote = Some(Box::new(note(Some("x"))));
    assert!(can_show(&outer));
    outer.text = Some(String::from("own"));
    assert!(!can_show(&outer));
}
