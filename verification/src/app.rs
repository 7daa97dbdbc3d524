//! The state of the screen, the events that change it, and what it shows.

use vstd::prelude::*;

use crate::layout;
use crate::layout::{Area, Rows};
use crate::list;
use crate::list::ListCursor;
use crate::login::Account;
use crate::note;
use crate::note::Note;
use crate::style;
use crate::style::{Color, Line, SpanView, Style};
use crate::text;
use crate::timeline;

verus! {

/// The number of notes that are asked for at a time.
pub const NOTE_LIMIT: u32 = 40;

/// The help in the footer.
pub const HELP: &'static str = "q quit  j/k move  r refresh  Tab/h/l switch  g/G top/bottom";

/// A key, as far as it matters.
#[derive(Clone, Copy, Debug, PartialEq, Eq, Structural)]
pub enum KeyCode {
    Char(char),
    Esc,
    Down,
    Up,
    Home,
    End,
    Tab,
    BackTab,
    Other,
}

/// What happened to a key.
#[derive(Clone, Copy, Debug, PartialEq, Eq, Structural)]
pub enum KeyKind {
    Press,
    Repeat,
    Release,
}

/// What the terminal reports.
#[derive(Clone, Copy, Debug, PartialEq, Eq, Structural)]
pub enum Event {
    /// Nothing happened while the program waited.
    Quiet,
    /// Something happened to a key.
    Key(KeyCode, KeyKind),
    /// Something else happened.
    Other,
}

/// The notes that are to be fetched.
pub struct FetchRequest {
    pub host: String,
    pub token: String,
    pub account_id: String,
    pub timeline: &'static str,
    pub limit: u32,
    pub since_id: Option<String>,
    pub until_id: Option<String>,
}

/// What is to be done after an event.
pub enum Action {
    /// Wait for the next event.
    Wait,
    /// Fetch notes, and hand them to [`App::loaded`] or the failure to
    /// [`App::failed`].
    Fetch(FetchRequest),
}

/// The state of the program.
pub struct App {
    account: Account,
    host: String,
    token: String,
    tl_idx: usize,
    notes: Vec<Note>,
    cursor: ListCursor,
    status: String,
    should_quit: bool,
}

/// The model of [`App`].
pub struct AppState {
    pub account: Account,
    pub host: Seq<char>,
    pub token: Seq<char>,
    pub tl_idx: int,
    pub notes: Seq<Note>,
    pub cursor: ListCursor,
    pub status: Seq<char>,
    pub should_quit: bool,
}

impl View for App {
    type V = AppState;

    closed spec fn view(&self) -> AppState {
        AppState {
            account: self.account,
            host: self.host@,
            token: self.token@,
            tl_idx: self.tl_idx as int,
            notes: self.notes@,
            cursor: self.cursor,
            status: self.status@,
            should_quit: self.should_quit,
        }
    }
}

/// The model holds every field of the state, as it is.
proof fn law_view(app: App)
    ensures
        app@.account == app.account,
        app@.host == app.host@,
        app@.token == app.token@,
        app@.tl_idx == app.tl_idx,
        app@.notes == app.notes@,
        app@.cursor == app.cursor,
        app@.status == app.status@,
        app@.should_quit == app.should_quit,
{
}

/// The cursor after the item `index`, or none, was selected.
pub open spec fn reselected(cursor: ListCursor, index: Option<usize>) -> ListCursor {
    ListCursor {
        offset: if index is None {
            0
        } else {
            cursor.offset
        },
        selected: index,
    }
}

/// `n`, or the nearest bound where it is not from `lo` to `hi`.
pub open spec fn clamped(n: int, lo: int, hi: int) -> int {
    if n < lo {
        lo
    } else if n > hi {
        hi
    } else {
        n
    }
}

impl AppState {
    /// The shown timeline is one of the selectable ones, and a note is selected
    /// exactly where there are notes: one of them.
    pub open spec fn wf(self) -> bool {
        &&& 0 <= self.tl_idx < timeline::count()
        &&& match self.cursor.selected {
            Some(i) => i < self.notes.len(),
            None => self.notes.len() == 0,
        }
        &&& self.notes.len() <= usize::MAX
    }

    /// The state with the note at `idx` selected, or the last one where there are
    /// fewer; without notes nothing changes.
    pub open spec fn with_selected(self, idx: int) -> AppState {
        if self.notes.len() == 0 {
            self
        } else {
            AppState {
                cursor: reselected(
                    self.cursor,
                    Some(clamped(idx, 0, self.notes.len() - 1) as usize),
                ),
                ..self
            }
        }
    }

    /// The index of the selected note, or of the first one.
    pub open spec fn current(self) -> int {
        match self.cursor.selected {
            Some(i) => i as int,
            None => 0,
        }
    }

    /// The state that waits for the notes of its timeline.
    pub open spec fn fetching(self) -> AppState {
        AppState {
            status: "fetching "@ + timeline::label_at(self.tl_idx) + "…"@,
            ..self
        }
    }

    /// The state with another timeline, whose notes it waits for.
    pub open spec fn switched(self, tl_idx: int) -> AppState {
        AppState { tl_idx, ..self }.fetching()
    }

    /// The state after a key was pressed.
    pub open spec fn after_key(self, code: KeyCode) -> AppState {
        match code {
            KeyCode::Char('q') | KeyCode::Esc => AppState { should_quit: true, ..self },
            KeyCode::Char('j') | KeyCode::Down => self.with_selected(self.current() + 1),
            KeyCode::Char('k') | KeyCode::Up => self.with_selected(self.current() - 1),
            KeyCode::Char('g') | KeyCode::Home => self.with_selected(0),
            KeyCode::Char('G') | KeyCode::End => self.with_selected(self.notes.len() - 1),
            KeyCode::Char('r') => self.fetching(),
            KeyCode::Tab | KeyCode::Char('l') => self.switched(timeline::after(self.tl_idx)),
            KeyCode::BackTab | KeyCode::Char('h') => self.switched(timeline::before(self.tl_idx)),
            _ => self,
        }
    }

    /// The state after an event: only the press of a key changes it.
    pub open spec fn after_event(self, event: Event) -> AppState {
        match event {
            Event::Key(code, KeyKind::Press) => self.after_key(code),
            _ => self,
        }
    }

    /// The state after the notes of the timeline came.
    pub open spec fn after_load(self, notes: Seq<Note>) -> AppState {
        AppState {
            notes,
            cursor: reselected(
                self.cursor,
                if notes.len() == 0 {
                    None
                } else {
                    Some(0)
                },
            ),
            status: text::decimal(notes.len() as int) + " notes"@,
            ..self
        }
    }

    /// The state after the notes of the timeline could not be fetched.
    pub open spec fn after_failure(self, message: Seq<char>) -> AppState {
        AppState { status: "error: "@ + message, ..self }
    }

    /// The state after the list was scrolled to `offset`.
    pub open spec fn after_scroll(self, offset: usize) -> AppState {
        AppState { cursor: ListCursor { offset, ..self.cursor }, ..self }
    }
}

/// The keys on which notes are fetched.
pub open spec fn is_fetch_key(code: KeyCode) -> bool {
    match code {
        KeyCode::Char('r') | KeyCode::Char('l') | KeyCode::Char('h') | KeyCode::Tab
        | KeyCode::BackTab => true,
        _ => false,
    }
}

/// The events on which notes are fetched.
pub open spec fn is_fetch_event(event: Event) -> bool {
    match event {
        Event::Key(code, KeyKind::Press) => is_fetch_key(code),
        _ => false,
    }
}

/// `request` asks for the latest notes of the timeline of `state`, for its account.
pub open spec fn is_request_of(request: FetchRequest, state: AppState) -> bool {
    &&& request.host@ == state.host
    &&& request.token@ == state.token
    &&& request.account_id@ == state.account.id@
    &&& request.timeline@ == timeline::key_at(state.tl_idx)
    &&& request.limit == NOTE_LIMIT
    &&& request.since_id is None
    &&& request.until_id is None
}

impl App {
    /// The state at the start: the first timeline, without notes.
    pub fn new(account: Account, host: String, token: String) -> (app: App)
        ensures
            app@ == (AppState {
                account,
                host: host@,
                token: token@,
                tl_idx: 0,
                notes: Seq::empty(),
                cursor: ListCursor { offset: 0, selected: None },
                status: "loading…"@,
                should_quit: false,
            }),
            app@.wf(),
    {
        let app: App = App {
            account,
            host,
            token,
            tl_idx: 0,
            notes: Vec::new(),
            cursor: list::initial(),
            status: "loading…".to_owned(),
            should_quit: false,
        };
        proof {
            assert(app@.notes =~= Seq::empty());
        }
        app
    }

    /// Whether the program is to end.
    pub fn should_quit(&self) -> (r: bool)
        ensures
            r == self@.should_quit,
    {
        self.should_quit
    }

    /// The cursor of the note list.
    pub fn cursor(&self) -> (cursor: ListCursor)
        ensures
            cursor == self@.cursor,
    {
        self.cursor
    }

    /// The key of the shown timeline.
    pub fn timeline(&self) -> (key: &'static str)
        requires
            self@.wf(),
        ensures
            key@ == timeline::key_at(self@.tl_idx),
    {
        timeline::key(self.tl_idx)
    }

    /// Starts to fetch the current timeline.
    pub fn refresh(&mut self) -> (request: FetchRequest)
        requires
            old(self)@.wf(),
        ensures
            final(self)@ == old(self)@.fetching(),
            final(self)@.wf(),
            is_request_of(request, final(self)@),
    {
        let mut status: String = "fetching ".to_owned();
        status.append(timeline::label(self.tl_idx));
        status.append("…");
        self.status = status;
        FetchRequest {
            host: self.host.clone(),
            token: self.token.clone(),
            account_id: self.account.id.clone(),
            timeline: self.timeline(),
            limit: NOTE_LIMIT,
            since_id: None,
            until_id: None,
        }
    }

    /// Shows the fetched notes and selects the first of them.
    pub fn loaded(&mut self, notes: Vec<Note>)
        requires
            old(self)@.wf(),
        ensures
            final(self)@ == old(self)@.after_load(notes@),
            final(self)@.wf(),
    {
        let n: usize = notes.len();
        self.notes = notes;
        self.cursor = list::select(
            self.cursor,
            if n == 0 {
                None
            } else {
                Some(0)
            },
        );
        let mut status: String = String::new();
        text::push_count(&mut status, n);
        status.append(" notes");
        proof {
            assert(status@ =~= text::decimal(n as int) + " notes"@);
        }
        self.status = status;
    }

    /// Tells that the notes could not be fetched; those that are shown stay.
    pub fn failed(&mut self, message: &str)
        requires
            old(self)@.wf(),
        ensures
            final(self)@ == old(self)@.after_failure(message@),
            final(self)@.wf(),
    {
        let mut status: String = "error: ".to_owned();
        status.append(message);
        self.status = status;
    }

    /// Takes note of the item at which the drawn list starts.
    pub fn scrolled(&mut self, offset: usize)
        requires
            old(self)@.wf(),
        ensures
            final(self)@ == old(self)@.after_scroll(offset),
            final(self)@.wf(),
    {
        self.cursor = ListCursor { offset, selected: self.cursor.selected };
    }

    /// Changes the state as an event asks for, and tells what is to be done.
    pub fn handle_events(&mut self, event: Event) -> (action: Action)
        requires
            old(self)@.wf(),
        ensures
            final(self)@ == old(self)@.after_event(event),
            final(self)@.wf(),
            action is Fetch <==> is_fetch_event(event),
            action matches Action::Fetch(request) ==> is_request_of(request, final(self)@),
    {
        let code: KeyCode = match event {
            Event::Key(code, KeyKind::Press) => code,
            _ => return Action::Wait,
        };
        match code {
            KeyCode::Char('q') | KeyCode::Esc => {
                self.should_quit = true;
            },
            KeyCode::Char('j') | KeyCode::Down => {
                self.move_selection(1);
            },
            KeyCode::Char('k') | KeyCode::Up => {
                self.move_selection(-1);
            },
            KeyCode::Char('g') | KeyCode::Home => {
                self.select(0);
            },
            KeyCode::Char('G') | KeyCode::End => {
                if self.notes.len() > 0 {
                    self.select(self.notes.len() - 1);
                }
            },
            KeyCode::Char('r') => {
                return Action::Fetch(self.refresh());
            },
            KeyCode::Tab | KeyCode::Char('l') => {
                self.tl_idx = timeline::next(self.tl_idx);
                return Action::Fetch(self.refresh());
            },
            KeyCode::BackTab | KeyCode::Char('h') => {
                self.tl_idx = timeline::previous(self.tl_idx);
                return Action::Fetch(self.refresh());
            },
            _ => {},
        }
        Action::Wait
    }

    /// Moves the selection by `delta` notes, within the list.
    pub fn move_selection(&mut self, delta: isize)
        requires
            old(self)@.wf(),
        ensures
            final(self)@ == old(self)@.with_selected(old(self)@.current() + delta),
            final(self)@.wf(),
    {
        if self.notes.len() == 0 {
            return;
        }
        let cur: i128 = match self.cursor.selected {
            Some(i) => i as i128,
            None => 0,
        };
        let last: i128 = self.notes.len() as i128 - 1;
        let to: i128 = cur + delta as i128;
        let next: i128 = if to < 0 {
            0
        } else if to > last {
            last
        } else {
            to
        };
        self.cursor = list::select(self.cursor, Some(next as usize));
    }

    /// Selects the note at `idx`, or the last one where there are fewer.
    pub fn select(&mut self, idx: usize)
        requires
            old(self)@.wf(),
        ensures
            final(self)@ == old(self)@.with_selected(idx as int),
            final(self)@.wf(),
    {
        if self.notes.len() > 0 {
            let last: usize = self.notes.len() - 1;
            let to: usize = if idx < last {
                idx
            } else {
                last
            };
            self.cursor = list::select(self.cursor, Some(to));
        }
    }
}

/// The background of the selected note.
pub open spec fn highlight_style() -> Style {
    Style { fg: None, bg: Some(Color::Rgb(40, 40, 60)), bold: false }
}

/// The mark in front of the selected note.
pub const HIGHLIGHT_SYMBOL: &'static str = "▌";

/// The columns that the frame of the timeline takes.
pub const FRAME_WIDTH: u16 = 2;

/// The least width that notes are wrapped to.
pub const MIN_NOTE_WIDTH: usize = 8;

/// The style of a timeline's tab.
pub open spec fn tab_style(shown: bool) -> Style {
    if shown {
        Style { fg: Some(Color::Black), bg: Some(Color::Cyan), bold: true }
    } else {
        style::in_color(Color::Gray)
    }
}

/// The tabs of the first `n` timelines, with a space behind each.
pub open spec fn tabs(n: int, shown: int) -> Seq<SpanView>
    decreases n,
{
    if n <= 0 {
        Seq::empty()
    } else {
        tabs(n - 1, shown) + seq![
            style::span(" "@ + timeline::label_at(n - 1) + " "@, tab_style(n - 1 == shown)),
            style::span(" "@, style::unstyled()),
        ]
    }
}

/// The header: the account, and a tab for each timeline.
pub open spec fn header_line(state: AppState) -> Seq<SpanView> {
    seq![
        style::span(
            "@"@ + state.account.username@ + "@"@ + state.host + " "@,
            style::in_color(Color::Yellow),
        ),
    ] + tabs(timeline::count(), state.tl_idx)
}

/// The footer: the status, and the keys.
pub open spec fn footer_line(state: AppState) -> Seq<SpanView> {
    seq![
        style::span(" "@ + state.status + " "@, style::on_color(Color::Black, Color::Green)),
        style::span("  "@, style::unstyled()),
        style::span(HELP@, style::in_color(Color::DarkGray)),
    ]
}

/// The line that stands for notes where there are none.
pub open spec fn hint_line(state: AppState) -> Seq<SpanView> {
    seq![style::span("  "@ + state.status, style::in_color(Color::DarkGray))]
}

/// The width that notes are wrapped to in an area of `width` columns.
pub open spec fn note_width(width: int) -> nat {
    if width - FRAME_WIDTH < MIN_NOTE_WIDTH {
        MIN_NOTE_WIDTH as nat
    } else {
        (width - FRAME_WIDTH) as nat
    }
}

/// What the frame of the timeline holds.
pub enum TimelineBody {
    /// A hint in place of notes.
    Hint(Line),
    /// A block of lines for each note, the style of the selected one and the mark in
    /// front of it.
    Notes(Vec<Vec<Line>>, Style, &'static str),
}

/// The timeline as it is drawn.
pub struct TimelineView {
    pub title: String,
    pub body: TimelineBody,
}

/// `view` shows the timeline of `state` in an area of `width` columns.
pub open spec fn shows_timeline(view: TimelineView, state: AppState, width: int) -> bool {
    &&& view.title@ == " "@ + timeline::label_at(state.tl_idx) + " "@
    &&& match view.body {
        TimelineBody::Hint(line) => state.notes.len() == 0 && line@ == hint_line(state),
        TimelineBody::Notes(blocks, highlight, symbol) => {
            &&& state.notes.len() > 0
            &&& blocks@.len() == state.notes.len()
            &&& forall|i: int|
                0 <= i < blocks@.len() ==> style::line_views((#[trigger] blocks@[i])@)
                    == note::note_block(state.notes[i], note_width(width))
            &&& highlight == highlight_style()
            &&& symbol@ == HIGHLIGHT_SYMBOL@
        },
    }
}

/// The screen as it is drawn, and where its parts stand.
pub struct Screen {
    pub rows: Rows,
    pub header: Line,
    pub timeline: TimelineView,
    pub footer: Line,
}

/// Every note can be shown.
pub open spec fn can_show_all(notes: Seq<Note>) -> bool {
    forall|i: int| 0 <= i < notes.len() ==> note::reactions_fit(#[trigger] notes[i])
}

impl App {
    /// Whether the reactions of every note can be added up, so that it can be shown.
    pub fn can_draw(&self) -> (r: bool)
        ensures
            r == can_show_all(self@.notes),
    {
        let mut i: usize = 0;
        while i < self.notes.len()
            invariant
                i <= self.notes@.len(),
                forall|k: int| 0 <= k < i ==> note::reactions_fit(#[trigger] self.notes@[k]),
            decreases self.notes@.len() - i,
        {
            if !note::can_show(&self.notes[i]) {
                return false;
            }
            i = i + 1;
        }
        true
    }

    /// The whole screen.
    pub fn draw(&self, area: Area) -> (screen: Screen)
        requires
            self@.wf(),
            can_show_all(self@.notes),
        ensures
            layout::divides(screen.rows, area),
            screen.header@ == header_line(self@),
            shows_timeline(screen.timeline, self@, screen.rows.timeline.width as int),
            screen.footer@ == footer_line(self@),
    {
        let rows: Rows = layout::rows(area);
        Screen {
            rows,
            header: self.draw_header(),
            timeline: self.draw_timeline(rows.timeline.width),
            footer: self.draw_footer(),
        }
    }

    /// The header: the account, and a tab for each timeline.
    pub fn draw_header(&self) -> (line: Line)
        ensures
            line@ == header_line(self@),
    {
        let mut line: Line = Line::new();
        let mut acct: String = "@".to_owned();
        acct.append(self.account.username.as_str());
        acct.append("@");
        acct.append(self.host.as_str());
        acct.append(" ");
        line.add(acct, Style::fg(Color::Yellow));
        let ghost first = line@;
        let mut i: usize = 0;
        proof {
            assert(first + tabs(0, self@.tl_idx) =~= first);
        }
        while i < timeline::TIMELINES.len()
            invariant
                i <= timeline::count(),
                line@ == first + tabs(i as int, self@.tl_idx),
            decreases timeline::count() - i,
        {
            let style: Style = if i == self.tl_idx {
                Style::fg(Color::Black).on(Color::Cyan).bold()
            } else {
                Style::fg(Color::Gray)
            };
            let mut tab: String = " ".to_owned();
            tab.append(timeline::label(i));
            tab.append(" ");
            line.add(tab, style);
            line.add(" ".to_owned(), Style::plain());
            proof {
                assert(line@ =~= first + tabs(i + 1, self@.tl_idx));
            }
            i = i + 1;
        }
        proof {
            assert(line@ =~= header_line(self@));
        }
        line
    }

    /// The timeline in an area of `width` columns: a block for each note, or a hint
    /// where there is none (loading, or no notes).
    pub fn draw_timeline(&self, width: u16) -> (view: TimelineView)
        requires
            self@.wf(),
            can_show_all(self@.notes),
        ensures
            shows_timeline(view, self@, width as int),
    {
        let mut title: String = " ".to_owned();
        title.append(timeline::label(self.tl_idx));
        title.append(" ");
        if self.notes.len() == 0 {
            let mut hint: String = "  ".to_owned();
            hint.append(self.status.as_str());
            let line: Line = Line::styled(hint, Style::fg(Color::DarkGray));
            return TimelineView { title, body: TimelineBody::Hint(line) };
        }
        let inner: usize = if width >= FRAME_WIDTH {
            (width - FRAME_WIDTH) as usize
        } else {
            0
        };
        let wide: usize = if inner < MIN_NOTE_WIDTH {
            MIN_NOTE_WIDTH
        } else {
            inner
        };
        let mut blocks: Vec<Vec<Line>> = Vec::new();
        let mut i: usize = 0;
        while i < self.notes.len()
            invariant
                i <= self.notes@.len(),
                self@.notes == self.notes@,
                can_show_all(self@.notes),
                wide == note_width(width as int),
                blocks@.len() == i,
                forall|k: int|
                    0 <= k < i ==> style::line_views((#[trigger] blocks@[k])@) == note::note_block(
                        self.notes@[k],
                        wide as nat,
                    ),
            decreases self.notes@.len() - i,
        {
            blocks.push(note::note_lines(&self.notes[i], wide));
            i = i + 1;
        }
        let highlight: Style = Style::plain().on(Color::Rgb(40, 40, 60));
        TimelineView { title, body: TimelineBody::Notes(blocks, highlight, HIGHLIGHT_SYMBOL) }
    }

    /// The footer: the status, and the keys.
    pub fn draw_footer(&self) -> (line: Line)
        ensures
            line@ == footer_line(self@),
    {
        let mut line: Line = Line::new();
        let mut status: String = " ".to_owned();
        status.append(self.status.as_str());
        status.append(" ");
        line.add(status, Style::fg(Color::Black).on(Color::Green));
        line.add("  ".to_owned(), Style::plain());
        line.add(HELP.to_owned(), Style::fg(Color::DarkGray));
        proof {
            assert(line@ =~= footer_line(self@));
        }
        line
    }
}

/// Anything that changes the state.
pub enum Step {
    Event(Event),
    Refresh,
    Load(Seq<Note>),
    Failure(Seq<char>),
    Scroll(usize),
}

/// The state after a step.
pub open spec fn after_step(state: AppState, step: Step) -> AppState {
    match step {
        Step::Event(event) => state.after_event(event),
        Step::Refresh => state.fetching(),
        Step::Load(notes) => state.after_load(notes),
        Step::Failure(message) => state.after_failure(message),
        Step::Scroll(offset) => state.after_scroll(offset),
    }
}

/// The state after several steps.
pub open spec fn after_steps(state: AppState, steps: Seq<Step>) -> AppState
    decreases steps.len(),
{
    if steps.len() == 0 {
        state
    } else {
        after_step(after_steps(state, steps.drop_last()), steps.last())
    }
}

/// No step loads more notes than a vector can hold.
pub open spec fn loads_fit(steps: Seq<Step>) -> bool {
    forall|i: int|
        0 <= i < steps.len() ==> (#[trigger] steps[i] matches Step::Load(notes) ==> notes.len()
            <= usize::MAX)
}

/// Whatever happens, in whatever order: a note is selected exactly where there are
/// notes, it is one of them, the timeline is one of the selectable ones, and the
/// account stays the same.
pub proof fn law_state_stays_well_formed(state: AppState, steps: Seq<Step>)
    requires
        state.wf(),
        loads_fit(steps),
    ensures
        after_steps(state, steps).wf(),
        after_steps(state, steps).account == state.account,
        after_steps(state, steps).host == state.host,
        after_steps(state, steps).token == state.token,
    decreases steps.len(),
{
    if steps.len() > 0 {
        let front = steps.drop_last();
        assert(loads_fit(front));
        law_state_stays_well_formed(state, front);
    }
}

/// Once the program is to end, nothing takes that back; and nothing but the press of
/// `q` or `Esc` makes it end.
pub proof fn law_only_quit_keys_quit(state: AppState, step: Step)
    ensures
        after_step(state, step).should_quit <==> state.should_quit || step == Step::Event(
            Event::Key(KeyCode::Char('q'), KeyKind::Press),
        ) || step == Step::Event(Event::Key(KeyCode::Esc, KeyKind::Press)),
{
}

/// An event that is not the press of a key changes nothing and fetches nothing.
pub proof fn law_only_presses_count(state: AppState, event: Event)
    requires
        !(event matches Event::Key(_, KeyKind::Press)),
    ensures
        state.after_event(event) == state,
        !is_fetch_event(event),
{
}

/// Keys never change which notes are shown: only loading does.
pub proof fn law_keys_keep_notes(state: AppState, event: Event)
    ensures
        state.after_event(event).notes == state.notes,
{
}

/// Each letter does what its arrow or named key does.
pub proof fn law_letters_and_named_keys(state: AppState)
    ensures
        state.after_key(KeyCode::Char('q')) == state.after_key(KeyCode::Esc),
        state.after_key(KeyCode::Char('j')) == state.after_key(KeyCode::Down),
        state.after_key(KeyCode::Char('k')) == state.after_key(KeyCode::Up),
        state.after_key(KeyCode::Char('g')) == state.after_key(KeyCode::Home),
        state.after_key(KeyCode::Char('G')) == state.after_key(KeyCode::End),
        state.after_key(KeyCode::Char('l')) == state.after_key(KeyCode::Tab),
        state.after_key(KeyCode::Char('h')) == state.after_key(KeyCode::BackTab),
{
}

/// Moving down selects the next note and moving up takes that back, except at the
/// last note, where moving down changes nothing.
pub proof fn law_down_then_up(state: AppState)
    requires
        state.wf(),
        state.notes.len() > 0,
    ensures
        state.current() < state.notes.len() - 1 ==> {
            &&& state.after_key(KeyCode::Down).current() == state.current() + 1
            &&& state.after_key(KeyCode::Down).after_key(KeyCode::Up) == state
        },
        state.current() == state.notes.len() - 1 ==> state.after_key(KeyCode::Down) == state,
{
}

/// Moving up selects the note before and moving down takes that back, except at the
/// first note, where moving up changes nothing.
pub proof fn law_up_then_down(state: AppState)
    requires
        state.wf(),
        state.notes.len() > 0,
    ensures
        state.current() > 0 ==> {
            &&& state.after_key(KeyCode::Up).current() == state.current() - 1
            &&& state.after_key(KeyCode::Up).after_key(KeyCode::Down) == state
        },
        state.current() == 0 ==> state.after_key(KeyCode::Up) == state,
{
}

/// The top key selects the first note, the bottom key the last; without notes they
/// and the arrows change nothing.
pub proof fn law_top_and_bottom(state: AppState)
    requires
        state.wf(),
    ensures
        state.notes.len() > 0 ==> {
            &&& state.after_key(KeyCode::Home).cursor.selected == Some(0usize)
            &&& state.after_key(KeyCode::End).cursor.selected == Some(
                (state.notes.len() - 1) as usize,
            )
        },
        state.notes.len() == 0 ==> {
            &&& state.after_key(KeyCode::Home) == state
            &&& state.after_key(KeyCode::End) == state
            &&& state.after_key(KeyCode::Down) == state
            &&& state.after_key(KeyCode::Up) == state
        },
{
}

/// Switching on and back, or back and on, comes to the same as a refresh.
pub proof fn law_switch_and_back(state: AppState)
    requires
        state.wf(),
    ensures
        state.after_key(KeyCode::Tab).after_key(KeyCode::BackTab) == state.after_key(
            KeyCode::Char('r'),
        ),
        state.after_key(KeyCode::BackTab).after_key(KeyCode::Tab) == state.after_key(
            KeyCode::Char('r'),
        ),
{
    timeline::law_next_and_previous(state.tl_idx);
}

/// A refresh that fails leaves the notes, the selection and the timeline as they
/// were before it.
pub proof fn law_failed_refresh_keeps_notes(state: AppState, message: Seq<char>)
    ensures
        state.fetching().after_failure(message).notes == state.notes,
        state.fetching().after_failure(message).cursor == state.cursor,
        state.fetching().after_failure(message).tl_idx == state.tl_idx,
        state.fetching().after_failure(message).should_quit == state.should_quit,
{
}

/// In the header every timeline has its tab, in order, and only that of the shown
/// one is marked.
pub proof fn law_header_tabs(state: AppState)
    ensures
        header_line(state).len() == 1 + 2 * timeline::count(),
        forall|i: int|
            0 <= i < timeline::count() ==> {
                let tab = header_line(state)[1 + 2 * i];
                &&& tab.text == " "@ + #[trigger] timeline::label_at(i) + " "@
                &&& tab.style == tab_style(i == state.tl_idx)
            },
{
    lemma_tabs(timeline::count(), state.tl_idx);
    let all = tabs(timeline::count(), state.tl_idx);
    assert forall|i: int| 0 <= i < timeline::count() implies {
        let tab = header_line(state)[1 + 2 * i];
        &&& tab.text == " "@ + #[trigger] timeline::label_at(i) + " "@
        &&& tab.style == tab_style(i == state.tl_idx)
    } by {
        assert(header_line(state)[1 + 2 * i] == all[2 * i]);
    }
}

proof fn lemma_tabs(n: int, shown: int)
    requires
        0 <= n,
    ensures
        tabs(n, shown).len() == 2 * n,
        forall|i: int|
            0 <= i < n ==> tabs(n, shown)[2 * i] == style::span(
                " "@ + #[trigger] timeline::label_at(i) + " "@,
                tab_style(i == shown),
            ),
    decreases n,
{
    if n > 0 {
        lemma_tabs(n - 1, shown);
        let front = tabs(n - 1, shown);
        assert forall|i: int| 0 <= i < n implies tabs(n, shown)[2 * i] == style::span(
            " "@ + #[trigger] timeline::label_at(i) + " "@,
            tab_style(i == shown),
        ) by {
            if i < n - 1 {
                assert(tabs(n, shown)[2 * i] == front[2 * i]);
            }
        }
    }
}

/// What a valid state is: one of the four timelines is shown, and either there are no notes
/// and none is selected, or one of them is.
pub proof fn law_valid_states(state: AppState)
    requires
        state.notes.len() <= usize::MAX,
    ensures
        state.wf() <==> 0 <= state.tl_idx < 4 && (if state.notes.len() == 0 {
            state.cursor.selected is None
        } else {
            state.cursor.selected is Some && state.cursor.selected->0 < state.notes.len()
        }),
{
}

/// Notes that come are shown from the top: whatever was shown or selected before, the
/// first of them is selected, or none where none came, and the status counts them. Nothing
/// else changes; where none came, the list is back at its start.
pub proof fn law_load(state: AppState, notes: Seq<Note>)
    ensures
        state.after_load(notes).notes == notes,
        notes.len() > 0 ==> state.after_load(notes).cursor.selected == Some(0usize),
        notes.len() > 0 ==> state.after_load(notes).cursor.offset == state.cursor.offset,
        notes.len() == 0 ==> state.after_load(notes).cursor.selected is None,
        notes.len() == 0 ==> state.after_load(notes).cursor.offset == 0,
        state.after_load(notes).status == text::decimal(notes.len() as int) + " notes"@,
        state.after_load(notes).account == state.account,
        state.after_load(notes).host == state.host,
        state.after_load(notes).token == state.token,
        state.after_load(notes).tl_idx == state.tl_idx,
        state.after_load(notes).should_quit == state.should_quit,
{
}

/// What was selected before makes no difference to what is shown and selected after notes
/// came.
pub proof fn law_load_forgets_selection(a: AppState, b: AppState, notes: Seq<Note>)
    ensures
        a.after_load(notes).notes == b.after_load(notes).notes,
        a.after_load(notes).cursor.selected == b.after_load(notes).cursor.selected,
        a.after_load(notes).status == b.after_load(notes).status,
{
}

/// A failure changes the status, to the message behind `error: `, and nothing else. So does
/// the start of a refresh, to the label of the shown timeline. Scrolling changes where the
/// list starts, and nothing else.
pub proof fn law_other_steps(state: AppState, message: Seq<char>, offset: usize)
    ensures
        state.after_failure(message) == (AppState { status: "error: "@ + message, ..state }),
        state.fetching() == (AppState {
            status: "fetching "@ + timeline::TIMELINES@[state.tl_idx].1@ + "…"@,
            ..state
        }),
        state.after_scroll(offset) == (AppState {
            cursor: ListCursor { offset, selected: state.cursor.selected },
            ..state
        }),
{
}

/// To select a note is to select it where it is there, the last one where it would be
/// behind it, and the first one where it would be before it. Nothing else changes, and
/// without notes nothing does.
pub proof fn law_select(state: AppState, idx: int)
    requires
        state.notes.len() <= usize::MAX,
    ensures
        state.notes.len() == 0 ==> state.with_selected(idx) == state,
        state.notes.len() > 0 ==> {
            let after = state.with_selected(idx);
            &&& after.cursor.selected is Some
            &&& after.cursor.selected->0 < state.notes.len()
            &&& 0 <= idx < state.notes.len() ==> after.cursor.selected->0 == idx
            &&& idx < 0 ==> after.cursor.selected->0 == 0
            &&& idx >= state.notes.len() ==> after.cursor.selected->0 == state.notes.len() - 1
            &&& after == (AppState {
                cursor: ListCursor {
                    offset: state.cursor.offset,
                    selected: after.cursor.selected,
                },
                ..state
            })
        },
{
}

/// What each key does to a state with the note at `i` selected: the arrows go to the notes
/// beside it, as far as there are any; the top and bottom keys to the first and the last;
/// and none of them changes anything but the selection.
pub proof fn law_selection_keys(state: AppState, i: usize)
    requires
        state.notes.len() <= usize::MAX,
        state.cursor.selected == Some(i),
        i < state.notes.len(),
    ensures
        ({
            let last = (state.notes.len() - 1) as usize;
            let at = |k: usize|
                AppState {
                    cursor: ListCursor { offset: state.cursor.offset, selected: Some(k) },
                    ..state
                };
            &&& state.after_key(KeyCode::Down) == at(
                if i < last {
                    (i + 1) as usize
                } else {
                    last
                },
            )
            &&& state.after_key(KeyCode::Up) == at(
                if i > 0 {
                    (i - 1) as usize
                } else {
                    0
                },
            )
            &&& state.after_key(KeyCode::Home) == at(0)
            &&& state.after_key(KeyCode::End) == at(last)
        }),
{
}

/// What the other keys do: `q` makes the program end, `r` starts a refresh, `Tab` and
/// `BackTab` start one of the next and the previous timeline of the four, and a key without
/// a meaning does nothing.
pub proof fn law_other_keys(state: AppState, code: KeyCode)
    requires
        0 <= state.tl_idx < 4,
    ensures
        state.after_key(KeyCode::Char('q')) == (AppState { should_quit: true, ..state }),
        state.after_key(KeyCode::Char('r')) == (AppState {
            status: "fetching "@ + timeline::TIMELINES@[state.tl_idx].1@ + "…"@,
            ..state
        }),
        state.after_key(KeyCode::Tab) == (AppState {
            tl_idx: (state.tl_idx + 1) % 4,
            status: "fetching "@ + timeline::TIMELINES@[(state.tl_idx + 1) % 4].1@ + "…"@,
            ..state
        }),
        state.after_key(KeyCode::BackTab) == (AppState {
            tl_idx: (state.tl_idx + 3) % 4,
            status: "fetching "@ + timeline::TIMELINES@[(state.tl_idx + 3) % 4].1@ + "…"@,
            ..state
        }),
        code == KeyCode::Other ==> state.after_key(code) == state,
        code matches KeyCode::Char(c) ==> c != 'q' && c != 'j' && c != 'k' && c != 'g' && c != 'G'
            && c != 'r' && c != 'l' && c != 'h' ==> state.after_key(code) == state,
{
    timeline::law_table(state.tl_idx);
}

/// An event changes the state as the key does that was pressed, and not at all where none
/// was. Notes are fetched on the press of `r`, `l`, `h`, `Tab` or `BackTab`, and on nothing
/// else.
pub proof fn law_events(state: AppState, code: KeyCode, kind: KeyKind)
    ensures
        state.after_event(Event::Quiet) == state,
        state.after_event(Event::Other) == state,
        kind == KeyKind::Press ==> state.after_event(Event::Key(code, kind)) == state.after_key(
            code,
        ),
        kind != KeyKind::Press ==> state.after_event(Event::Key(code, kind)) == state,
        !is_fetch_event(Event::Quiet),
        !is_fetch_event(Event::Other),
        is_fetch_event(Event::Key(code, kind)) <==> kind == KeyKind::Press && (code
            == KeyCode::Char('r') || code == KeyCode::Char('l') || code == KeyCode::Char('h')
            || code == KeyCode::Tab || code == KeyCode::BackTab),
{
}

/// A request goes to the host of the state, with its token and the id of its account, and
/// asks for the latest forty notes of the shown timeline.
pub proof fn law_request(request: FetchRequest, state: AppState)
    requires
        is_request_of(request, state),
    ensures
        request.host@ == state.host,
        request.token@ == state.token,
        request.account_id@ == state.account.id@,
        request.timeline@ == timeline::TIMELINES@[state.tl_idx].0@,
        request.limit == 40,
        request.since_id is None,
        request.until_id is None,
{
}

/// The header is the account in yellow, and for each timeline its label between spaces,
/// black on cyan and bold for the shown one and gray for the others, and a space.
pub proof fn law_header(state: AppState, i: int)
    requires
        0 <= i < 4,
    ensures
        header_line(state).len() == 9,
        header_line(state)[0] == (SpanView {
            text: "@"@ + state.account.username@ + "@"@ + state.host + " "@,
            style: Style { fg: Some(Color::Yellow), bg: None, bold: false },
        }),
        header_line(state)[1 + 2 * i].text == " "@ + timeline::TIMELINES@[i].1@ + " "@,
        i == state.tl_idx ==> header_line(state)[1 + 2 * i].style == (Style {
            fg: Some(Color::Black),
            bg: Some(Color::Cyan),
            bold: true,
        }),
        i != state.tl_idx ==> header_line(state)[1 + 2 * i].style == (Style {
            fg: Some(Color::Gray),
            bg: None,
            bold: false,
        }),
        header_line(state)[2 + 2 * i] == (SpanView {
            text: " "@,
            style: Style { fg: None, bg: None, bold: false },
        }),
{
    reveal_with_fuel(tabs, 5);
    assert(timeline::label_at(i) == timeline::TIMELINES@[i].1@);
}

/// The footer is the status between spaces, black on green, two spaces, and the keys in
/// dark gray.
pub proof fn law_footer(state: AppState)
    ensures
        footer_line(state).len() == 3,
        footer_line(state)[0] == (SpanView {
            text: " "@ + state.status + " "@,
            style: Style { fg: Some(Color::Black), bg: Some(Color::Green), bold: false },
        }),
        footer_line(state)[1] == (SpanView {
            text: "  "@,
            style: Style { fg: None, bg: None, bold: false },
        }),
        footer_line(state)[2] == (SpanView {
            text: "q quit  j/k move  r refresh  Tab/h/l switch  g/G top/bottom"@,
            style: Style { fg: Some(Color::DarkGray), bg: None, bold: false },
        }),
{
}

/// Notes are wrapped to all the columns inside the frame, which takes two, but never to
/// fewer than eight. So with ten columns or more, each further column is one more for the
/// notes.
pub proof fn law_note_width(width: int)
    ensures
        width >= 10 ==> note_width(width) == width - 2,
        width < 10 ==> note_width(width) == 8,
        width >= 10 ==> note_width(width + 1) == note_width(width) + 1,
{
}

/// A drawn timeline has the label of the shown one as its title. Without notes it shows the
/// status in dark gray. With notes it shows the block of each of them, in order, wrapped to
/// the columns inside the frame, and marks the selected one.
pub proof fn law_timeline_view(view: TimelineView, state: AppState, width: int)
    requires
        shows_timeline(view, state, width),
    ensures
        view.title@ == " "@ + timeline::TIMELINES@[state.tl_idx].1@ + " "@,
        view.body is Hint <==> state.notes.len() == 0,
        view.body matches TimelineBody::Hint(line) ==> line@ == seq![
            SpanView {
                text: "  "@ + state.status,
                style: Style { fg: Some(Color::DarkGray), bg: None, bold: false },
            },
        ],
        view.body matches TimelineBody::Notes(blocks, highlight, symbol) ==> {
            &&& blocks@.len() == state.notes.len()
            &&& highlight == (Style {
                fg: None,
                bg: Some(Color::Rgb(40, 40, 60)),
                bold: false,
            })
            &&& symbol@ == "▌"@
            &&& width >= 10 ==> forall|i: int|
                0 <= i < blocks@.len() ==> style::line_views((#[trigger] blocks@[i])@)
                    == note::note_block(state.notes[i], (width - 2) as nat)
            &&& width < 10 ==> forall|i: int|
                0 <= i < blocks@.len() ==> style::line_views((#[trigger] blocks@[i])@)
                    == note::note_block(state.notes[i], 8)
        },
{
}

/// Every note can be shown exactly where each can.
pub proof fn law_can_show_all(a: Seq<Note>, b: Seq<Note>, note: Note)
    ensures
        can_show_all(a + b) <==> can_show_all(a) && can_show_all(b),
        can_show_all(seq![note]) <==> note::reactions_fit(note),
        can_show_all(Seq::empty()),
{
    let all = a + b;
    if can_show_all(all) {
        assert forall|i: int| 0 <= i < a.len() implies note::reactions_fit(#[trigger] a[i]) by {
            assert(all[i] == a[i]);
        }
        assert forall|i: int| 0 <= i < b.len() implies note::reactions_fit(#[trigger] b[i]) by {
            assert(all[a.len() + i] == b[i]);
        }
    }
    assert(seq![note][0] == note);
}

} // verus!
