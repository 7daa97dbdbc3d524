use notetui::app::{Action, App, Event, FetchRequest, KeyCode, KeyKind, TimelineBody};
use notetui::layout::Area;
use notetui::login::Account;
use notetui::note::{Note, User};
use notetui::style::{Color, Line, Style};

fn account() -> Account {
    Account {
        id: String::from("acc"),
        host: String::from("misskey.io"),
        token: String::from("stored"),
        user_id: String::from("u"),
        username: String::from("ai"),
        display_name: None,
        avatar_url: None,
        software: String::from("misskey"),
    }
}

fn note(text: &str) -> Note {
    Note {
        user: User { name: None, username: String::from("ai"), host: None },
        created_at: String::new(),
        cw: None,
        text: Some(String::from(text)),
        renote: None,
        replies_count: 0,
        renote_count: 0,
        reactions: vec![],
    }
}

fn app() -> App {
    App::new(account(), String::from("misskey.io"), String::from("secret"))
}

fn app_with(n: usize) -> App {
    let mut a = app();
    a.loaded((0..n).map(|i| note(&format!("note {}", i))).collect());
    a
}

fn press(a: &mut App, code: KeyCode) -> Option<FetchRequest> {
    match a.handle_events(Event::Key(code, KeyKind::Press)) {
        Action::Fetch(request) => Some(request),
        Action::Wait => None,
    }
}

fn text(line: &Line) -> String {
    line.spans.iter().map(|s| s.text.as_str()).collect()
}

fn status(a: &App) -> String {
    a.draw_footer().spans[0].text.clone()
}

fn selected(a: &App) -> Option<usize> {
    a.cursor().selected
}

#[test]
fn a_new_app_is_loading_the_first_timeline() {
    let a = app();
    assert!(!a.should_quit());
    assert_eq!(a.timeline(), "home");
    assert_eq!(selected(&a), None);
    assert_eq!(a.cursor().offset, 0);
    assert_eq!(status(&a), " loading… ");
}

#[test]
fn refresh_asks_for_the_shown_timeline() {
    let mut a = app();
    let request = a.refresh();
    assert_eq!(request.host, "misskey.io");
    assert_eq!(request.token, "secret");
    assert_eq!(request.account_id, "acc");
    assert_eq!(request.timeline, "home");
    assert_eq!(request.limit, 40);
    assert_eq!(request.since_id, None);
    assert_eq!(request.until_id, None);
    assert_eq!(status(&a), " fetching Home… ");
}

#[test]
fn loading_selects_the_first_note() {
    let mut a = app_with(3);
    assert_eq!(selected(&a), Some(0));
    assert_eq!(status(&a), " 3 notes ");
    a.scrolled(2);
    assert_eq!(a.cursor().offset, 2);
    a.loaded(vec![note("x")]);
    assert_eq!(selected(&a), Some(0));
    assert_eq!(a.cursor().offset, 2);
    a.loaded(vec![]);
    assert_eq!(selected(&a), None);
    assert_eq!(a.cursor().offset, 0);
    assert_eq!(status(&a), " 0 notes ");
}

#[test]
fn a_failed_refresh_keeps_the_notes() {
    let mut a = app_with(3);
    press(&mut a, KeyCode::Down);
    a.refresh();
    a.failed("no route");
    assert_eq!(status(&a), " error: no route ");
    assert_eq!(selected(&a), Some(1));
    match a.draw_timeline(40).body {
        TimelineBody::Notes(blocks, _, _) => assert_eq!(blocks.len(), 3),
        TimelineBody::Hint(_) => panic!("the notes are gone"),
    }
}

#[test]
fn quit_keys_quit() {
    for code in [KeyCode::Char('q'), KeyCode::Esc] {
        let mut a = app();
        assert!(press(&mut a, code).is_none());
        assert!(a.should_quit());
        press(&mut a, KeyCode::Char('j'));
        assert!(a.should_quit());
    }
    let mut a = app();
    for code in [KeyCode::Char('Q'), KeyCode::Other, KeyCode::Char('r'), KeyCode::Tab] {
        press(&mut a, code);
        assert!(!a.should_quit());
    }
}

#[test]
fn only_presses_count() {
    let mut a = app_with(3);
    for event in [
        Event::Quiet,
        Event::Other,
        Event::Key(KeyCode::Char('q'), KeyKind::Release),
        Event::Key(KeyCode::Down, KeyKind::Repeat),
        Event::Key(KeyCode::Tab, KeyKind::Release),
    ] {
        assert!(matches!(a.handle_events(event), Action::Wait));
        assert!(!a.should_quit());
        assert_eq!(selected(&a), Some(0));
        assert_eq!(a.timeline(), "home");
    }
}

#[test]
fn moving_stays_within_the_list() {
    for (down, up) in [
        (KeyCode::Char('j'), KeyCode::Char('k')),
        (KeyCode::Down, KeyCode::Up),
    ] {
        let mut a = app_with(2);
        press(&mut a, up);
        assert_eq!(selected(&a), Some(0));
        press(&mut a, down);
        assert_eq!(selected(&a), Some(1));
        press(&mut a, down);
        assert_eq!(selected(&a), Some(1));
        press(&mut a, up);
        assert_eq!(selected(&a), Some(0));
    }
}

#[test]
fn moving_by_any_distance_is_clamped() {
    let mut a = app_with(5);
    a.move_selection(3);
    assert_eq!(selected(&a), Some(3));
    a.move_selection(isize::MAX);
    assert_eq!(selected(&a), Some(4));
    a.move_selection(isize::MIN);
    assert_eq!(selected(&a), Some(0));
    a.select(9);
    assert_eq!(selected(&a), Some(4));
    a.select(2);
    assert_eq!(selected(&a), Some(2));
}

#[test]
fn top_and_bottom() {
    for (top, bottom) in [
        (KeyCode::Char('g'), KeyCode::Char('G')),
        (KeyCode::Home, KeyCode::End),
    ] {
        let mut a = app_with(4);
        press(&mut a, bottom);
        assert_eq!(selected(&a), Some(3));
        press(&mut a, top);
        assert_eq!(selected(&a), Some(0));
    }
}

#[test]
fn without_notes_nothing_is_selected() {
    let mut a = app();
    for code in [KeyCode::Down, KeyCode::Up, KeyCode::Home, KeyCode::End] {
        assert!(press(&mut a, code).is_none());
        assert_eq!(selected(&a), None);
    }
    a.move_selection(1);
    a.select(0);
    assert_eq!(selected(&a), None);
}

#[test]
fn switching_goes_round() {
    for (on, back) in [
        (KeyCode::Tab, KeyCode::BackTab),
        (KeyCode::Char('l'), KeyCode::Char('h')),
    ] {
        let mut a = app_with(2);
        for key in ["social", "local", "global", "home"] {
            let request = press(&mut a, on).unwrap();
            assert_eq!(request.timeline, key);
            assert_eq!(a.timeline(), key);
        }
        assert_eq!(press(&mut a, back).unwrap().timeline, "global");
        assert_eq!(status(&a), " fetching Global… ");
        assert_eq!(press(&mut a, on).unwrap().timeline, "home");
        assert_eq!(selected(&a), Some(0));
    }
    let mut a = app();
    assert_eq!(press(&mut a, KeyCode::Char('r')).unwrap().timeline, "home");
}

#[test]
fn the_header_marks_the_shown_timeline() {
    let mut a = app();
    press(&mut a, KeyCode::Tab);
    let header = a.draw_header();
    assert_eq!(text(&header), "@ai@misskey.io  Home   Social   Local   Global  ");
    assert_eq!(header.spans.len(), 9);
    assert_eq!(
        header.spans[0].style,
        Style { fg: Some(Color::Yellow), bg: None, bold: false }
    );
    for i in 0..4 {
        let style = header.spans[1 + 2 * i].style;
        if i == 1 {
            assert_eq!(
                style,
                Style { fg: Some(Color::Black), bg: Some(Color::Cyan), bold: true }
            );
        } else {
            assert_eq!(style, Style { fg: Some(Color::Gray), bg: None, bold: false });
        }
        assert_eq!(header.spans[2 + 2 * i].style, Style::plain());
    }
}

#[test]
fn the_footer_shows_status_and_keys() {
    let footer = app().draw_footer();
    assert_eq!(
        text(&footer),
        " loading…   q quit  j/k move  r refresh  Tab/h/l switch  g/G top/bottom"
    );
    assert_eq!(
        footer.spans[0].style,
        Style { fg: Some(Color::Black), bg: Some(Color::Green), bold: false }
    );
    assert_eq!(
        footer.spans[2].style,
        Style { fg: Some(Color::DarkGray), bg: None, bold: false }
    );
}

#[test]
fn an_empty_timeline_shows_the_status() {
    let view = app().draw_timeline(40);
    assert_eq!(view.title, " Home ");
    match view.body {
        TimelineBody::Hint(line) => {
            assert_eq!(text(&line), "  loading…");
            assert_eq!(line.spans[0].style.fg, Some(Color::DarkGray));
        }
        TimelineBody::Notes(_, _, _) => panic!("there are no notes"),
    }
}

#[test]
fn notes_are_wrapped_to_the_frame() {
    let mut a = app();
    a.loaded(vec![note("1234567890")]);
    for (width, first) in [
        (40u16, "1234567890"),
        (12, "1234567890"),
        (11, "123456789"),
        (10, "12345678"),
        (3, "12345678"),
        (0, "12345678"),
    ] {
        match a.draw_timeline(width).body {
            TimelineBody::Notes(blocks, highlight, symbol) => {
                assert_eq!(text(&blocks[0][1]), first);
                assert_eq!(
                    highlight,
                    Style { fg: None, bg: Some(Color::Rgb(40, 40, 60)), bold: false }
                );
                assert_eq!(symbol, "▌");
            }
            TimelineBody::Hint(_) => panic!("there is a note"),
        }
    }
}

#[test]
fn the_screen_is_drawn_in_rows() {
    let a = app_with(1);
    assert!(a.can_draw());
    let screen = a.draw(Area { x: 0, y: 0, width: 80, height: 24 });
    assert_eq!(screen.rows.header, Area { x: 0, y: 0, width: 80, height: 1 });
    assert_eq!(screen.rows.timeline, Area { x: 0, y: 1, width: 80, height: 22 });
    assert_eq!(screen.rows.footer, Area { x: 0, y: 23, width: 80, height: 1 });
    assert_eq!(text(&screen.header), text(&a.draw_header()));
    assert_eq!(text(&screen.footer), text(&a.draw_footer()));
    assert_eq!(screen.timeline.title, " Home ");
}

#[test]
fn notes_whose_reactions_overflow_cannot_be_drawn() {
    let mut a = app();
    let mut n = note("x");
    n.reactions = vec![i64::MAX, i64::MAX];
    a.loaded(vec![note("y"), n]);
    assert!(!a.can_draw());
}
