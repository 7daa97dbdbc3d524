//! Styled text: spans, lines and the styles of the screen.

use vstd::prelude::*;

use crate::text;

verus! {

/// A terminal colour.
#[derive(Clone, Copy, Debug, PartialEq, Eq, Structural)]
pub enum Color {
    Black,
    Cyan,
    DarkGray,
    Gray,
    Green,
    Yellow,
    Rgb(u8, u8, u8),
}

/// How a piece of text is shown; a missing colour is the terminal's own.
#[derive(Clone, Copy, Debug, PartialEq, Eq, Structural)]
pub struct Style {
    pub fg: Option<Color>,
    pub bg: Option<Color>,
    pub bold: bool,
}

/// The style of unmarked text.
pub open spec fn unstyled() -> Style {
    Style { fg: None, bg: None, bold: false }
}

/// Text in the colour `fg`.
pub open spec fn in_color(fg: Color) -> Style {
    Style { fg: Some(fg), bg: None, bold: false }
}

/// Text in the colour `fg` on the colour `bg`.
pub open spec fn on_color(fg: Color, bg: Color) -> Style {
    Style { fg: Some(fg), bg: Some(bg), bold: false }
}

impl Style {
    /// The style of unmarked text.
    pub fn plain() -> (style: Style)
        ensures
            style == unstyled(),
    {
        Style { fg: None, bg: None, bold: false }
    }

    /// Text in the colour `fg`.
    pub fn fg(fg: Color) -> (style: Style)
        ensures
            style == in_color(fg),
    {
        Style { fg: Some(fg), bg: None, bold: false }
    }

    /// The same style on the colour `bg`.
    pub fn on(self, bg: Color) -> (style: Style)
        ensures
            style == (Style { bg: Some(bg), ..self }),
    {
        Style { fg: self.fg, bg: Some(bg), bold: self.bold }
    }

    /// The same style in bold.
    pub fn bold(self) -> (style: Style)
        ensures
            style == (Style { bold: true, ..self }),
    {
        Style { fg: self.fg, bg: self.bg, bold: true }
    }
}

/// A piece of text in one style.
#[derive(Debug)]
pub struct Span {
    pub text: String,
    pub style: Style,
}

/// What a [`Span`] shows.
pub struct SpanView {
    pub text: Seq<char>,
    pub style: Style,
}

impl View for Span {
    type V = SpanView;

    open spec fn view(&self) -> SpanView {
        SpanView { text: self.text@, style: self.style }
    }
}

/// What is shown of `text` in `style`.
pub open spec fn span(text: Seq<char>, style: Style) -> SpanView {
    SpanView { text, style }
}

/// A line of spans, from left to right.
#[derive(Debug)]
pub struct Line {
    pub spans: Vec<Span>,
}

impl View for Line {
    type V = Seq<SpanView>;

    open spec fn view(&self) -> Seq<SpanView> {
        self.spans@.map_values(|s: Span| s@)
    }
}

/// What the lines show, from top to bottom.
pub open spec fn line_views(lines: Seq<Line>) -> Seq<Seq<SpanView>> {
    lines.map_values(|l: Line| l@)
}

/// A line of unstyled text; an empty one has no span.
pub open spec fn raw(text: Seq<char>) -> Seq<SpanView> {
    if text.len() == 0 {
        Seq::empty()
    } else {
        seq![span(text, unstyled())]
    }
}

impl Line {
    /// A line without a span.
    pub fn new() -> (line: Line)
        ensures
            line@ == Seq::<SpanView>::empty(),
    {
        let line: Line = Line { spans: Vec::new() };
        proof {
            assert(line@ =~= Seq::empty());
        }
        line
    }

    /// Adds `text` in `style` at the end of the line.
    pub fn add(&mut self, text: String, style: Style)
        ensures
            final(self)@ == old(self)@.push(span(text@, style)),
    {
        self.spans.push(Span { text, style });
        proof {
            assert(self@ =~= old(self)@.push(span(text@, style)));
        }
    }

    /// A line of `text` in one style.
    pub fn styled(text: String, style: Style) -> (line: Line)
        ensures
            line@ == seq![span(text@, style)],
    {
        let mut line: Line = Line::new();
        line.add(text, style);
        proof {
            assert(line@ =~= seq![span(text@, style)]);
        }
        line
    }

    /// A line of unstyled text without a line feed.
    pub(crate) fn raw(text: &str) -> (line: Line)
        requires
            !text@.contains('\n'),
        ensures
            line@ == raw(text@),
    {
        let parts: Vec<String> = raw_parts(text);
        let mut line: Line = Line::new();
        proof {
            assert(parts@.len() == text::views(parts@).len());
            assert(text@.len() > 0 ==> parts@[0]@ == text::views(parts@)[0]);
        }
        if parts.len() > 0 {
            line.add(parts[0].clone(), Style::plain());
        }
        proof {
            assert(line@ =~= raw(text@));
        }
        line
    }
}

/// The texts of the spans of `ratatui::text::Line::raw(text)`, which makes one span
/// of each line of its argument: of text without a line feed that is the text
/// itself, and nothing where the text is empty.
#[verifier::external_body]
fn raw_parts(text: &str) -> (parts: Vec<String>)
    requires
        !text@.contains('\n'),
    ensures
        text::views(parts@) == (if text@.len() == 0 {
            Seq::empty()
        } else {
            seq![text@]
        }),
{
    let line = ratatui::text::Line::raw(text);
    line.spans.into_iter().map(|s| s.content.into_owned()).collect()
}

/// What the named styles and lines are made of: unmarked text has no colour and is not
/// bold, text in a colour or on one has that and nothing else, and a line of unstyled
/// text is one unmarked span, or no span where the text is empty.
pub proof fn law_styles(text: Seq<char>, fg: Color, bg: Color)
    ensures
        unstyled().fg is None && unstyled().bg is None && !unstyled().bold,
        in_color(fg).fg == Some(fg) && in_color(fg).bg is None && !in_color(fg).bold,
        on_color(fg, bg).fg == Some(fg) && on_color(fg, bg).bg == Some(bg) && !on_color(
            fg,
            bg,
        ).bold,
        span(text, in_color(fg)).text == text && span(text, in_color(fg)).style == in_color(fg),
        text.len() == 0 ==> raw(text).len() == 0,
        text.len() > 0 ==> raw(text).len() == 1 && raw(text)[0].text == text && raw(text)[0].style
            == unstyled(),
{
}

/// What lines show is what each of them shows, one for one, and what a line shows is what
/// each of its spans shows, one for one.
pub proof fn law_line_views(lines: Seq<Line>)
    ensures
        line_views(lines).len() == lines.len(),
        forall|i: int, k: int|
            0 <= i < lines.len() && 0 <= k < lines[i].spans@.len() ==> {
                &&& (#[trigger] line_views(lines)[i])[k].text == (
                #[trigger] lines[i].spans@[k]).text@
                &&& line_views(lines)[i][k].style == lines[i].spans@[k].style
            },
        forall|i: int|
            0 <= i < lines.len() ==> (#[trigger] line_views(lines)[i]).len()
                == lines[i].spans@.len(),
{
}

} // verus!
