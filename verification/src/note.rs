//! Notes and how they are shown on the timeline.

use vstd::prelude::*;
use vstd::utf8::*;

use crate::style;
use crate::style::{Color, Line, SpanView, Style};
use crate::text;
use crate::wrap;

verus! {

/// The author of a note.
#[derive(Debug)]
pub struct User {
    pub name: Option<String>,
    pub username: String,
    pub host: Option<String>,
}

/// A note of a timeline, as far as it is shown.
///
/// `reactions` holds the count of each kind of reaction, in no particular order.
#[derive(Debug)]
pub struct Note {
    pub user: User,
    pub created_at: String,
    pub cw: Option<String>,
    pub text: Option<String>,
    pub renote: Option<Box<Note>>,
    pub replies_count: i64,
    pub renote_count: i64,
    pub reactions: Vec<i64>,
}

/// The name that a user goes by: the display name, or the username where there is
/// none or it is empty.
pub open spec fn shown_name(user: User) -> Seq<char> {
    if text::text_or_empty(user.name).len() > 0 {
        text::text_or_empty(user.name)
    } else {
        user.username@
    }
}

/// `Display Name @user@host`; the host is left out where it is missing or empty.
pub open spec fn handle(user: User) -> Seq<char> {
    let local = shown_name(user) + " @"@ + user.username@;
    if text::text_or_empty(user.host).len() > 0 {
        local + "@"@ + text::text_or_empty(user.host)
    } else {
        local
    }
}

/// Whether an optional text is there and not empty.
fn has_text(s: &Option<String>) -> (r: bool)
    ensures
        r == (text::text_or_empty(*s).len() > 0),
{
    match s {
        Some(t) => !t.as_str().is_empty(),
        None => false,
    }
}

/// "Display Name @user@host" for a note's author.
pub fn display_handle(note: &Note) -> (out: String)
    ensures
        out@ == handle(note.user),
{
    let u: &User = &note.user;
    let mut out: String = String::new();
    if has_text(&u.name) {
        if let Some(name) = &u.name {
            out.append(name.as_str());
        }
    } else {
        out.append(u.username.as_str());
    }
    proof {
        assert(out@ =~= shown_name(note.user));
    }
    out.append(" @");
    out.append(u.username.as_str());
    if has_text(&u.host) {
        if let Some(host) = &u.host {
            out.append("@");
            out.append(host.as_str());
        }
    }
    out
}

/// The text of an optional byte range; nothing where there is none.
pub open spec fn range_or_empty(s: Seq<char>, from: int, to: int) -> Seq<char> {
    match text::byte_range(s, from, to) {
        Some(part) => part,
        None => Seq::empty(),
    }
}

/// The month, day, hour and minute of an ISO-8601 time, by position.
pub open spec fn short_form(iso: Seq<char>) -> Seq<char> {
    text::trimmed(range_or_empty(iso, 5, 10) + " "@ + range_or_empty(iso, 11, 16))
}

/// ISO-8601 ("2026-06-18T12:34:56.789Z") to "06-18 12:34". Best-effort slicing by
/// byte position: a part that is not there is left out.
pub fn short_time(iso: &str) -> (out: String)
    ensures
        out@ == short_form(iso@),
{
    let mut both: String = String::new();
    if let Some(date) = text::get_bytes(iso, 5, 10) {
        both.append(date.as_str());
    }
    proof {
        assert(both@ =~= range_or_empty(iso@, 5, 10));
    }
    both.append(" ");
    if let Some(time) = text::get_bytes(iso, 11, 16) {
        both.append(time.as_str());
    }
    proof {
        assert(both@ =~= range_or_empty(iso@, 5, 10) + " "@ + range_or_empty(iso@, 11, 16));
    }
    text::trim(both.as_str())
}

/// The sum of the counts.
pub open spec fn total(counts: Seq<i64>) -> int
    decreases counts.len(),
{
    if counts.len() == 0 {
        0
    } else {
        total(counts.drop_last()) + counts.last()
    }
}

/// The sum of the positive counts: the largest that a partial sum can become in any
/// order.
pub open spec fn gains(counts: Seq<i64>) -> int
    decreases counts.len(),
{
    if counts.len() == 0 {
        0
    } else {
        gains(counts.drop_last()) + if counts.last() > 0 {
            counts.last() as int
        } else {
            0
        }
    }
}

/// The sum of the negative counts: the smallest that a partial sum can become in any
/// order.
pub open spec fn losses(counts: Seq<i64>) -> int
    decreases counts.len(),
{
    if counts.len() == 0 {
        0
    } else {
        losses(counts.drop_last()) + if counts.last() < 0 {
            counts.last() as int
        } else {
            0
        }
    }
}

/// The counts can be added up in any order within an `i64`.
pub open spec fn counts_fit(counts: Seq<i64>) -> bool {
    gains(counts) <= i64::MAX && losses(counts) >= i64::MIN
}

proof fn lemma_partial_sums(counts: Seq<i64>, n: int)
    requires
        0 <= n <= counts.len(),
    ensures
        losses(counts) <= losses(counts.take(n)) <= total(counts.take(n)) <= gains(counts.take(n))
            <= gains(counts),
        losses(counts) <= 0 <= gains(counts),
    decreases counts.len(),
{
    if counts.len() > 0 {
        let front = counts.drop_last();
        if n < counts.len() {
            lemma_partial_sums(front, n);
            assert(front.take(n) =~= counts.take(n));
        } else {
            lemma_partial_sums(front, n - 1);
            assert(front.take(n - 1) =~= front);
            assert(counts.take(n) =~= counts);
        }
    }
}

/// The number of reactions to a note.
pub fn reaction_total(counts: &Vec<i64>) -> (sum: i64)
    requires
        counts_fit(counts@),
    ensures
        sum == total(counts@),
{
    let mut sum: i64 = 0;
    let mut i: usize = 0;
    while i < counts.len()
        invariant
            i <= counts@.len(),
            counts_fit(counts@),
            sum == total(counts@.take(i as int)),
        decreases counts@.len() - i,
    {
        proof {
            lemma_partial_sums(counts@, i + 1);
            assert(counts@.take(i + 1).drop_last() =~= counts@.take(i as int));
        }
        sum = sum + counts[i];
        i = i + 1;
    }
    proof {
        assert(counts@.take(i as int) =~= counts@);
    }
    sum
}

/// Whether the counts can be added up in any order within an `i64`.
pub fn can_total(counts: &Vec<i64>) -> (r: bool)
    ensures
        r == counts_fit(counts@),
{
    let mut up: i64 = 0;
    let mut down: i64 = 0;
    let mut i: usize = 0;
    while i < counts.len()
        invariant
            i <= counts@.len(),
            0 <= up == gains(counts@.take(i as int)),
            0 >= down == losses(counts@.take(i as int)),
        decreases counts@.len() - i,
    {
        let c: i64 = counts[i];
        proof {
            lemma_partial_sums(counts@, i + 1);
            assert(counts@.take(i + 1).drop_last() =~= counts@.take(i as int));
        }
        if c > 0 {
            if up > i64::MAX - c {
                return false;
            }
            up = up + c;
        } else {
            if down < i64::MIN - c {
                return false;
            }
            down = down + c;
        }
        i = i + 1;
    }
    proof {
        assert(counts@.take(i as int) =~= counts@);
    }
    true
}

/// A renote without text of its own, which only passes another note on.
pub open spec fn is_pure_renote(note: Note) -> bool {
    note.renote is Some && text::text_or_empty(note.text).len() == 0
}

/// The reaction counts that are shown for a note can be added up: those of the note
/// itself, or of the note that it passes on.
pub open spec fn reactions_fit(note: Note) -> bool
    decreases note,
{
    if is_pure_renote(note) {
        reactions_fit(*note.renote->0)
    } else {
        counts_fit(note.reactions@)
    }
}

/// `width` without the two columns by which a renoted note is narrower.
pub open spec fn narrowed(width: nat) -> nat {
    if width >= 2 {
        (width - 2) as nat
    } else {
        0
    }
}

/// The line above a renoted note.
pub open spec fn renote_line(note: Note) -> Seq<SpanView> {
    seq![style::span("🔁 "@ + handle(note.user) + " renoted"@, style::in_color(Color::Green))]
}

/// The style of a note's author.
pub open spec fn author_style() -> Style {
    Style { fg: Some(Color::Cyan), bg: None, bold: true }
}

/// The first line of a note: its author and time.
pub open spec fn author_line(note: Note) -> Seq<SpanView> {
    seq![
        style::span(handle(note.user), author_style()),
        style::span("  "@, style::unstyled()),
        style::span(short_form(note.created_at@), style::in_color(Color::DarkGray)),
    ]
}

/// The content warning, where there is one that is not empty.
pub open spec fn warning_lines(note: Note) -> Seq<Seq<SpanView>> {
    let cw = text::text_or_empty(note.cw);
    if cw.len() > 0 {
        seq![seq![style::span("⚠ "@ + cw, style::in_color(Color::Yellow))]]
    } else {
        Seq::empty()
    }
}

/// Lines of unstyled text.
pub open spec fn raw_lines(lines: Seq<Seq<char>>) -> Seq<Seq<SpanView>> {
    lines.map_values(|l: Seq<char>| style::raw(l))
}

/// Each of `lines` wrapped to `width`, one after another.
pub open spec fn wrapped_lines(lines: Seq<Seq<char>>, width: nat) -> Seq<Seq<SpanView>>
    decreases lines.len(),
{
    if lines.len() == 0 {
        Seq::empty()
    } else {
        wrapped_lines(lines.drop_last(), width) + raw_lines(wrap::wrapped(lines.last(), width))
    }
}

/// The text of a note, line by line, wrapped to `width`.
pub open spec fn body_lines(note: Note, width: nat) -> Seq<Seq<SpanView>> {
    wrapped_lines(text::lines(text::text_or_empty(note.text)), width)
}

/// The counts below a note.
pub open spec fn counts_line(note: Note) -> Seq<SpanView> {
    seq![
        style::span(
            "↩ "@ + text::decimal(note.replies_count as int) + "  🔁 "@ + text::decimal(
                note.renote_count as int,
            ) + "  ❤ "@ + text::decimal(total(note.reactions@)),
            style::in_color(Color::DarkGray),
        ),
    ]
}

/// A note as a block of lines: author, content warning, wrapped text, counts, and a
/// blank line. A pure renote is a line about it, the block of the note that it
/// passes on, two columns narrower, and a blank line.
pub open spec fn note_block(note: Note, width: nat) -> Seq<Seq<SpanView>>
    decreases note,
{
    if is_pure_renote(note) {
        seq![renote_line(note)] + note_block(*note.renote->0, narrowed(width)) + seq![
            style::raw(Seq::empty()),
        ]
    } else {
        seq![author_line(note)] + warning_lines(note) + body_lines(note, width) + seq![
            counts_line(note),
            style::raw(Seq::empty()),
        ]
    }
}

/// Whether the reaction counts that are shown for a note can be added up within an
/// `i64`, whatever their order.
pub fn can_show(note: &Note) -> (r: bool)
    ensures
        r == reactions_fit(*note),
    decreases note,
{
    if !has_text(&note.text) {
        if let Some(renote) = &note.renote {
            return can_show(renote);
        }
    }
    can_total(&note.reactions)
}

/// A line of unstyled text for each of `lines`, behind those of `out`.
fn push_raw_lines(out: &mut Vec<Line>, lines: &Vec<String>)
    requires
        forall|i: int| 0 <= i < lines@.len() ==> !(#[trigger] lines@[i]@).contains('\n'),
    ensures
        style::line_views(final(out)@) == style::line_views(old(out)@) + raw_lines(
            text::views(lines@),
        ),
{
    let mut i: usize = 0;
    let ghost all = raw_lines(text::views(lines@));
    while i < lines.len()
        invariant
            i <= lines@.len(),
            forall|k: int| 0 <= k < lines@.len() ==> !(#[trigger] lines@[k]@).contains('\n'),
            all == raw_lines(text::views(lines@)),
            style::line_views(out@) == style::line_views(old(out)@) + all.take(i as int),
        decreases lines@.len() - i,
    {
        let line: Line = Line::raw(lines[i].as_str());
        let ghost before = style::line_views(out@);
        out.push(line);
        proof {
            assert(all[i as int] == line@);
            assert(style::line_views(out@) =~= before.push(line@));
            assert(all.take(i + 1) =~= all.take(i as int).push(line@));
        }
        i = i + 1;
    }
    proof {
        assert(all.take(i as int) =~= all);
    }
}

/// No line that came of wrapping holds a line feed.
proof fn lemma_wrapped_has_no_line_feed(text: Seq<char>, width: nat)
    ensures
        forall|i: int|
            0 <= i < wrap::wrapped(text, width).len() ==> !(#[trigger] wrap::wrapped(
                text,
                width,
            )[i]).contains('\n'),
{
    wrap::law_lines_are_tidy(text, width);
    let all = wrap::wrapped(text, width);
    assert forall|i: int| 0 <= i < all.len() implies !(#[trigger] all[i]).contains('\n') by {
        if text::words(text).len() > 0 {
            assert(text::is_tidy(all[i]));
            text::lemma_tidy_chars(all[i]);
            assert(text::is_space('\n'));
        }
    }
}

/// Puts the text of a note behind the lines of `out`.
fn push_body(out: &mut Vec<Line>, body: &str, width: usize)
    ensures
        style::line_views(final(out)@) == style::line_views(old(out)@) + wrapped_lines(
            text::lines(body@),
            width as nat,
        ),
{
    let lines: Vec<String> = text::split_lines(body);
    let ghost parts = text::lines(body@);
    let ghost w = width as nat;
    let mut i: usize = 0;
    proof {
        assert(style::line_views(out@) + wrapped_lines(parts.take(0), w) =~= style::line_views(
            out@,
        ));
    }
    while i < lines.len()
        invariant
            i <= lines@.len(),
            parts == text::views(lines@),
            w == width as nat,
            style::line_views(out@) == style::line_views(old(out)@) + wrapped_lines(
                parts.take(i as int),
                w,
            ),
        decreases lines@.len() - i,
    {
        let wrapped: Vec<String> = wrap::wrap(lines[i].as_str(), width);
        proof {
            let line = lines@[i as int]@;
            assert(parts[i as int] == line);
            lemma_wrapped_has_no_line_feed(line, w);
            assert forall|k: int| 0 <= k < wrapped@.len() implies !(
            #[trigger] wrapped@[k]@).contains('\n') by {
                assert(text::views(wrapped@)[k] == wrapped@[k]@);
            }
            assert(parts.take(i + 1).drop_last() =~= parts.take(i as int));
            assert(parts.take(i + 1).last() == line);
        }
        push_raw_lines(out, &wrapped);
        proof {
            let done = wrapped_lines(parts.take(i as int), w);
            let more = raw_lines(wrap::wrapped(parts[i as int], w));
            assert(style::line_views(old(out)@) + (done + more) =~= (style::line_views(old(out)@)
                + done) + more);
        }
        i = i + 1;
    }
    proof {
        assert(parts.take(i as int) =~= parts);
    }
}

/// The first line of a note: its author and time.
fn author(note: &Note) -> (line: Line)
    ensures
        line@ == author_line(*note),
{
    let mut line: Line = Line::new();
    line.add(display_handle(note), Style::fg(Color::Cyan).bold());
    line.add("  ".to_owned(), Style::plain());
    line.add(short_time(note.created_at.as_str()), Style::fg(Color::DarkGray));
    proof {
        assert(line@ =~= author_line(*note));
    }
    line
}

/// The counts below a note.
fn counts(note: &Note) -> (line: Line)
    requires
        counts_fit(note.reactions@),
    ensures
        line@ == counts_line(*note),
{
    let reactions: i64 = reaction_total(&note.reactions);
    let mut s: String = "↩ ".to_owned();
    text::push_number(&mut s, note.replies_count);
    s.append("  🔁 ");
    text::push_number(&mut s, note.renote_count);
    s.append("  ❤ ");
    text::push_number(&mut s, reactions);
    Line::styled(s, Style::fg(Color::DarkGray))
}

/// Renders a single note as a block of lines: header, body (wrapped), footer.
pub fn note_lines(note: &Note, width: usize) -> (lines: Vec<Line>)
    requires
        reactions_fit(*note),
    ensures
        style::line_views(lines@) == note_block(*note, width as nat),
    decreases note,
{
    proof {
        reveal_strlit("");
        assert(""@ =~= Seq::<char>::empty());
    }
    let mut lines: Vec<Line> = Vec::new();
    if !has_text(&note.text) {
        if let Some(renote) = &note.renote {
            let mut s: String = "🔁 ".to_owned();
            s.append(display_handle(note).as_str());
            s.append(" renoted");
            lines.push(Line::styled(s, Style::fg(Color::Green)));
            let narrow: usize = if width >= 2 {
                width - 2
            } else {
                0
            };
            let mut inner: Vec<Line> = note_lines(renote, narrow);
            let ghost block = style::line_views(inner@);
            lines.append(&mut inner);
            let blank: Line = Line::raw("");
            lines.push(blank);
            proof {
                assert(blank@ =~= style::raw(Seq::empty()));
                assert(style::line_views(lines@) =~= seq![renote_line(*note)] + block + seq![
                    blank@,
                ]);
            }
            return lines;
        }
    }
    lines.push(author(note));
    if has_text(&note.cw) {
        if let Some(cw) = &note.cw {
            let mut s: String = "⚠ ".to_owned();
            s.append(cw.as_str());
            lines.push(Line::styled(s, Style::fg(Color::Yellow)));
        }
    }
    proof {
        assert(style::line_views(lines@) =~= seq![author_line(*note)] + warning_lines(*note));
    }
    match &note.text {
        Some(body) => push_body(&mut lines, body.as_str(), width),
        None => push_body(&mut lines, "", width),
    }
    let ghost upper = style::line_views(lines@);
    lines.push(counts(note));
    let blank: Line = Line::raw("");
    lines.push(blank);
    proof {
        assert(blank@ =~= style::raw(Seq::empty()));
        assert(style::line_views(lines@) =~= upper + seq![counts_line(*note), blank@]);
    }
    lines
}

proof fn lemma_remove_count(counts: Seq<i64>, k: int)
    requires
        0 <= k < counts.len(),
    ensures
        total(counts) == total(counts.remove(k)) + counts[k],
        gains(counts) == gains(counts.remove(k)) + (if counts[k] > 0 {
            counts[k] as int
        } else {
            0
        }),
        losses(counts) == losses(counts.remove(k)) + (if counts[k] < 0 {
            counts[k] as int
        } else {
            0
        }),
    decreases counts.len(),
{
    let less = counts.remove(k);
    if k == counts.len() - 1 {
        assert(less =~= counts.drop_last());
    } else {
        lemma_remove_count(counts.drop_last(), k);
        assert(less.drop_last() =~= counts.drop_last().remove(k));
        assert(less.last() == counts.last());
    }
}

/// The number of reactions, and whether they can be added up, do not depend on the
/// order of the counts.
pub proof fn law_reactions_in_any_order(a: Seq<i64>, b: Seq<i64>)
    requires
        a.to_multiset() == b.to_multiset(),
    ensures
        total(a) == total(b),
        counts_fit(a) == counts_fit(b),
{
    lemma_same_sums(a, b);
}

proof fn lemma_same_sums(a: Seq<i64>, b: Seq<i64>)
    requires
        a.to_multiset() == b.to_multiset(),
    ensures
        total(a) == total(b),
        gains(a) == gains(b),
        losses(a) == losses(b),
    decreases a.len(),
{
    a.to_multiset_ensures();
    b.to_multiset_ensures();
    if a.len() > 0 {
        let n = a.len() - 1;
        let x = a[n];
        assert(a.contains(x));
        assert(a.to_multiset().count(x) > 0);
        assert(b.to_multiset().count(x) > 0);
        assert(b.contains(x));
        let k = choose|k: int| 0 <= k < b.len() && b[k] == x;
        lemma_remove_count(a, n);
        lemma_remove_count(b, k);
        lemma_same_sums(a.remove(n), b.remove(k));
    }
}

/// Of an ASCII time whose date and time parts are there, the short form is those
/// parts with a space between them, without white space at the ends.
pub proof fn law_short_form_of_ascii(iso: Seq<char>)
    requires
        is_ascii_chars(iso),
        iso.len() >= 16,
    ensures
        short_form(iso) == text::trimmed(iso.subrange(5, 10) + seq![' '] + iso.subrange(11, 16)),
        !text::is_space(iso[5]) && !text::is_space(iso[15]) ==> short_form(iso) == iso.subrange(
            5,
            10,
        ) + seq![' '] + iso.subrange(11, 16),
{
    text::lemma_byte_range_of_ascii(iso, 5, 10);
    text::lemma_byte_range_of_ascii(iso, 11, 16);
    reveal_strlit(" ");
    assert(" "@ =~= seq![' ']);
    let both = iso.subrange(5, 10) + seq![' '] + iso.subrange(11, 16);
    assert(both[0] == iso[5]);
    assert(both.last() == iso[15]);
}

/// The block of a note is at least four lines high and ends with a blank one.
pub proof fn law_block_ends_with_blank(note: Note, width: nat)
    ensures
        note_block(note, width).len() >= 4,
        note_block(note, width).last() == style::raw(Seq::empty()),
    decreases note,
{
    if is_pure_renote(note) {
        law_block_ends_with_blank(*note.renote->0, narrowed(width));
    } else {
        let parts = text::lines(text::text_or_empty(note.text));
        wrap::law_lines_are_tidy(parts.last(), width);
    }
}

/// The text of a note never runs past the width: each line of it is empty or one
/// unstyled span of at most that many characters (one, for a width of zero).
pub proof fn law_body_fits(note: Note, width: nat)
    ensures
        forall|i: int|
            0 <= i < body_lines(note, width).len() ==> {
                let line = #[trigger] body_lines(note, width)[i];
                ||| line.len() == 0
                ||| line.len() == 1 && line[0].style == style::unstyled() && line[0].text.len()
                    <= wrap::columns(width)
            },
{
    lemma_wrapped_lines_fit(text::lines(text::text_or_empty(note.text)), width);
}

proof fn lemma_wrapped_lines_fit(lines: Seq<Seq<char>>, width: nat)
    ensures
        forall|i: int|
            0 <= i < wrapped_lines(lines, width).len() ==> {
                let line = #[trigger] wrapped_lines(lines, width)[i];
                ||| line.len() == 0
                ||| line.len() == 1 && line[0].style == style::unstyled() && line[0].text.len()
                    <= wrap::columns(width)
            },
    decreases lines.len(),
{
    if lines.len() > 0 {
        lemma_wrapped_lines_fit(lines.drop_last(), width);
        wrap::law_lines_fit(lines.last(), width);
        let front = wrapped_lines(lines.drop_last(), width);
        let last = wrap::wrapped(lines.last(), width);
        let all = wrapped_lines(lines, width);
        assert forall|i: int| 0 <= i < all.len() implies {
            let line = #[trigger] all[i];
            ||| line.len() == 0
            ||| line.len() == 1 && line[0].style == style::unstyled() && line[0].text.len()
                <= wrap::columns(width)
        } by {
            if i < front.len() {
                assert(all[i] == front[i]);
            } else {
                assert(all[i] == style::raw(last[i - front.len()]));
            }
        }
    }
}

/// A handle begins with the name that the user goes by (the username, where there is no
/// display name) and goes on with a space, `@` and the username. With a host that is not
/// empty it then ends with `@` and the host, with or without a display name; else it ends
/// there.
pub proof fn law_handle(user: User)
    ensures
        ({
            let h = handle(user);
            let own = " @"@ + user.username@;
            let remote = user.host is Some && user.host->0@.len() > 0;
            let end = if remote {
                own + "@"@ + user.host->0@
            } else {
                own
            };
            let named = user.name is Some && user.name->0@.len() > 0;
            let name = if named {
                user.name->0@
            } else {
                user.username@
            };
            &&& h.len() == name.len() + end.len()
            &&& h.take(name.len() as int) == name
            &&& h.skip(name.len() as int) == end
        }),
{
    let h = handle(user);
    let own = " @"@ + user.username@;
    let n = shown_name(user).len() as int;
    assert(h.take(n) =~= shown_name(user));
    if user.host is Some && user.host->0@.len() > 0 {
        assert(h.skip(n) =~= own + "@"@ + user.host->0@);
    } else {
        assert(h.skip(n) =~= own);
    }
}

/// A remote user is never shown as another: of two users with the same name and username,
/// who are at different hosts (or of whom one is at none), the handles differ; and the
/// remote handle is the local one with `@` and the host behind it.
pub proof fn law_handles_tell_hosts_apart(a: User, b: User)
    requires
        a.name == b.name,
        a.username@ == b.username@,
        a.host is Some && a.host->0@.len() > 0,
    ensures
        b.host is None || b.host->0@.len() == 0 ==> handle(a) == handle(b) + "@"@ + a.host->0@,
        b.host is Some && b.host->0@ != a.host->0@ ==> handle(a) != handle(b),
        b.host is None ==> handle(a) != handle(b),
{
    reveal_strlit("@");
    let local = shown_name(a) + " @"@ + a.username@;
    let n = local.len() + 1;
    assert(handle(a).skip(n as int) =~= a.host->0@);
    if b.host is Some && b.host->0@.len() > 0 {
        assert(handle(b).skip(n as int) =~= b.host->0@);
    }
}

/// The short form holds the bytes 5 to 10 and 11 to 16 of the time, with a space between
/// them, without the white space at the ends. A part that is not there is left out.
pub proof fn law_short_form(iso: Seq<char>)
    ensures
        match (text::byte_range(iso, 5, 10), text::byte_range(iso, 11, 16)) {
            (Some(date), Some(time)) => short_form(iso) == text::trimmed(date + seq![' '] + time),
            (Some(date), None) => short_form(iso) == text::trimmed(date),
            (None, Some(time)) => short_form(iso) == text::trimmed(time),
            (None, None) => short_form(iso).len() == 0,
        },
{
    reveal_strlit(" ");
    assert(" "@ =~= seq![' ']);
    let date = range_or_empty(iso, 5, 10);
    let time = range_or_empty(iso, 11, 16);
    if text::byte_range(iso, 11, 16) is None {
        text::law_trimmed_ignores_outer_space(date, ' ');
        assert(date + seq![' '] + time =~= date.push(' '));
        if text::byte_range(iso, 5, 10) is None {
            assert(date =~= Seq::empty());
        }
    } else if text::byte_range(iso, 5, 10) is None {
        text::law_trimmed_ignores_outer_space(time, ' ');
        assert(date + seq![' '] + time =~= seq![' '] + time);
    }
}

/// The number of reactions of two groups of kinds is that of the one and of the other; a
/// single count is itself.
pub proof fn law_total(a: Seq<i64>, b: Seq<i64>, count: i64)
    ensures
        total(a + b) == total(a) + total(b),
        total(seq![count]) == count,
        total(Seq::empty()) == 0,
    decreases b.len(),
{
    reveal_with_fuel(total, 2);
    assert(seq![count].drop_last() =~= Seq::<i64>::empty());
    if b.len() == 0 {
        assert(a + b =~= a);
    } else {
        law_total(a, b.drop_last(), count);
        assert((a + b).drop_last() =~= a + b.drop_last());
    }
}

/// The counts `counts` above zero (`up`) or below it, and all the others.
spec fn sorted_out(counts: Seq<i64>, up: bool) -> (Seq<i64>, Seq<i64>)
    decreases counts.len(),
{
    if counts.len() == 0 {
        (Seq::empty(), Seq::empty())
    } else {
        let (picked, others) = sorted_out(counts.drop_last(), up);
        let c = counts.last();
        if (up && c > 0) || (!up && c < 0) {
            (picked.push(c), others)
        } else {
            (picked, others.push(c))
        }
    }
}

proof fn lemma_sorted_out(counts: Seq<i64>, up: bool)
    ensures
        ({
            let (picked, others) = sorted_out(counts, up);
            &&& (picked + others).to_multiset() =~= counts.to_multiset()
            &&& total(picked) == (if up {
                gains(counts)
            } else {
                losses(counts)
            })
        }),
    decreases counts.len(),
{
    let (picked, others) = sorted_out(counts, up);
    if counts.len() == 0 {
        assert(picked + others =~= counts);
    } else {
        let front = counts.drop_last();
        let c = counts.last();
        lemma_sorted_out(front, up);
        let (p, o) = sorted_out(front, up);
        assert(front.push(c) =~= counts);
        front.to_multiset_ensures();
        (p + o).to_multiset_ensures();
        vstd::seq_lib::lemma_multiset_commutative(p, o);
        vstd::seq_lib::lemma_multiset_commutative(picked, others);
        p.to_multiset_ensures();
        o.to_multiset_ensures();
        if (up && c > 0) || (!up && c < 0) {
            assert(picked.drop_last() =~= p);
            assert(picked.to_multiset() =~= p.to_multiset().insert(c));
        } else {
            assert(others.to_multiset() =~= o.to_multiset().insert(c));
        }
        assert((picked + others).to_multiset() =~= counts.to_multiset());
    }
}

/// Counts fit exactly where no order of adding them up, at no point on the way, leaves
/// the range of an `i64`.
pub proof fn law_counts_fit(counts: Seq<i64>)
    ensures
        counts_fit(counts) <==> forall|order: Seq<i64>, n: int|
            #![trigger order.to_multiset(), order.take(n)]
            order.to_multiset() == counts.to_multiset() && 0 <= n <= order.len() ==> i64::MIN
                <= total(order.take(n)) <= i64::MAX,
{
    if counts_fit(counts) {
        assert forall|order: Seq<i64>, n: int|
            #![trigger order.to_multiset(), order.take(n)]
            order.to_multiset() == counts.to_multiset() && 0 <= n
                <= order.len() implies i64::MIN <= total(order.take(n)) <= i64::MAX by {
            lemma_same_sums(order, counts);
            lemma_partial_sums(order, n);
        }
    } else {
        let up = gains(counts) > i64::MAX;
        let (picked, others) = sorted_out(counts, up);
        lemma_sorted_out(counts, up);
        let order = picked + others;
        let n = picked.len() as int;
        assert(order.take(n) =~= picked);
        assert(order.to_multiset() == counts.to_multiset());
        assert(!(i64::MIN <= total(order.take(n)) <= i64::MAX));
    }
}

/// Which counts have to fit: those of the renoted note where a renote has no text of its
/// own, else those of the note itself.
pub proof fn law_reactions_fit(note: Note)
    ensures
        note.renote is Some && (note.text is None || note.text->0@.len() == 0) ==> reactions_fit(note)
            == reactions_fit(*note.renote->0),
        note.renote is None || (note.text is Some && note.text->0@.len() > 0) ==> reactions_fit(note)
            == counts_fit(note.reactions@),
{
}

/// The block of a note that is not a pure renote. Its first line is the author and the
/// time. The second is the content warning, where there is one that is not empty. The
/// last two are the counts and a blank line. All between is the text of the note, with or
/// without a content warning.
pub proof fn law_note_block(note: Note, width: nat)
    requires
        note.renote is None || (note.text is Some && note.text->0@.len() > 0),
    ensures
        ({
            let block = note_block(note, width);
            let warned = note.cw is Some && note.cw->0@.len() > 0;
            let top: int = if warned {
                2
            } else {
                1
            };
            &&& block.len() == top + body_lines(note, width).len() + 2
            &&& block[0] == seq![
                SpanView {
                    text: handle(note.user),
                    style: Style { fg: Some(Color::Cyan), bg: None, bold: true },
                },
                SpanView { text: "  "@, style: Style { fg: None, bg: None, bold: false } },
                SpanView {
                    text: short_form(note.created_at@),
                    style: Style { fg: Some(Color::DarkGray), bg: None, bold: false },
                },
            ]
            &&& warned ==> block[1] == seq![
                SpanView {
                    text: "⚠ "@ + note.cw->0@,
                    style: Style { fg: Some(Color::Yellow), bg: None, bold: false },
                },
            ]
            &&& block.subrange(top, block.len() - 2) == body_lines(note, width)
            &&& block[block.len() - 2] == seq![
                SpanView {
                    text: "↩ "@ + text::decimal(note.replies_count as int) + "  🔁 "@
                        + text::decimal(note.renote_count as int) + "  ❤ "@ + text::decimal(
                        total(note.reactions@),
                    ),
                    style: Style { fg: Some(Color::DarkGray), bg: None, bold: false },
                },
            ]
            &&& block.last().len() == 0
        }),
{
    let block = note_block(note, width);
    let top: int = 1 + warning_lines(note).len() as int;
    assert(block.subrange(top, block.len() - 2) =~= body_lines(note, width));
}

/// The block of a renote without text of its own: a line that names who renoted, the
/// block of the renoted note as it would be shown two columns narrower, and a blank line.
pub proof fn law_renote_block(note: Note, width: nat)
    requires
        note.renote is Some,
        note.text is None || note.text->0@.len() == 0,
    ensures
        ({
            let block = note_block(note, width);
            let inner = note_block(
                *note.renote->0,
                if width < 2 {
                    0
                } else {
                    (width - 2) as nat
                },
            );
            &&& block.len() == inner.len() + 2
            &&& block[0] == seq![
                SpanView {
                    text: "🔁 "@ + handle(note.user) + " renoted"@,
                    style: Style { fg: Some(Color::Green), bg: None, bold: false },
                },
            ]
            &&& block.subrange(1, block.len() - 1) == inner
            &&& block.last().len() == 0
        }),
{
    let block = note_block(note, width);
    let inner = note_block(*note.renote->0, narrowed(width));
    assert(block.subrange(1, block.len() - 1) =~= inner);
}

/// Text of one line is shown as its wrapping, an unstyled span for each line of it that
/// is not empty.
pub proof fn law_body_of_one_line(note: Note, line: Seq<char>, width: nat)
    requires
        note.text is Some ==> note.text->0@ == line,
        note.text is None ==> line.len() == 0,
        !line.contains('\n'),
    ensures
        ({
            let body = body_lines(note, width);
            let wrapping = wrap::wrapped(line, width);
            &&& body.len() == wrapping.len()
            &&& forall|i: int|
                0 <= i < body.len() ==> {
                    &&& (#[trigger] wrapping[i]).len() == 0 ==> body[i].len() == 0
                    &&& wrapping[i].len() > 0 ==> body[i] == seq![
                        SpanView {
                            text: wrapping[i],
                            style: Style { fg: None, bg: None, bold: false },
                        },
                    ]
                }
        }),
{
    let t = text::text_or_empty(note.text);
    assert(t =~= line);
    assert forall|i: int| 0 <= i < t.len() implies #[trigger] t[i] != '\n' by {
        if t[i] == '\n' {
            assert(t.contains('\n'));
        }
    }
    text::law_lines(Seq::empty(), Seq::empty(), t);
    reveal_with_fuel(wrapped_lines, 2);
    let parts = seq![t];
    assert(parts.drop_last() =~= Seq::empty());
    assert(wrapped_lines(parts, width) =~= raw_lines(wrap::wrapped(t, width)));
}

/// Text of several lines is shown line by line: what is shown of it is what would be shown
/// of the text before a line feed, followed by what would be shown of the text behind it.
pub proof fn law_body_line_by_line(note: Note, before: Note, after: Note, width: nat)
    requires
        note.text is Some,
        before.text is Some,
        after.text is Some,
        note.text->0@ == before.text->0@ + seq!['\n'] + after.text->0@,
    ensures
        body_lines(note, width) == body_lines(before, width) + body_lines(after, width),
{
    let a = before.text->0@;
    let b = after.text->0@;
    text::law_lines(a, b, Seq::empty());
    lemma_wrapped_lines_concat(text::lines(a), text::lines(b), width);
}

proof fn lemma_wrapped_lines_concat(a: Seq<Seq<char>>, b: Seq<Seq<char>>, width: nat)
    ensures
        wrapped_lines(a + b, width) == wrapped_lines(a, width) + wrapped_lines(b, width),
    decreases b.len(),
{
    if b.len() == 0 {
        assert(a + b =~= a);
        assert(wrapped_lines(a, width) + wrapped_lines(b, width) =~= wrapped_lines(a, width));
    } else {
        let t = b.drop_last();
        lemma_wrapped_lines_concat(a, t, width);
        assert((a + b).drop_last() =~= a + t);
        let last = raw_lines(wrap::wrapped(b.last(), width));
        assert((wrapped_lines(a, width) + wrapped_lines(t, width)) + last =~= wrapped_lines(a, width)
            + wrapped_lines(b, width));
    }
}

/// The text of a line of at most one span.
pub open spec fn single_text(line: Seq<SpanView>) -> Seq<char> {
    if line.len() == 0 {
        Seq::empty()
    } else {
        line[0].text
    }
}

/// The text of a note is shown whole, with or without a content warning: the lines between
/// the author or warning and the counts hold its characters other than white space, all of
/// them and in order.
pub proof fn law_note_text_is_shown(note: Note, width: nat)
    requires
        note.renote is None || (note.text is Some && note.text->0@.len() > 0),
    ensures
        ({
            let block = note_block(note, width);
            let top: int = if note.cw is Some && note.cw->0@.len() > 0 {
                2
            } else {
                1
            };
            let body = block.subrange(top, block.len() - 2);
            text::ink_of(body.map_values(|l: Seq<SpanView>| single_text(l))) == text::ink(
                if note.text is Some {
                    note.text->0@
                } else {
                    Seq::empty()
                },
            )
        }),
{
    law_note_block(note, width);
    let t = text::text_or_empty(note.text);
    lemma_body_ink(text::lines(t), width);
    text::law_lines_join_to_text(t);
    lemma_ink_of_joined(text::lines(t));
}

proof fn lemma_body_ink(lines: Seq<Seq<char>>, width: nat)
    ensures
        text::ink_of(
            wrapped_lines(lines, width).map_values(|l: Seq<SpanView>| single_text(l)),
        ) == text::ink_of(lines),
    decreases lines.len(),
{
    let f = |l: Seq<SpanView>| single_text(l);
    let all = wrapped_lines(lines, width);
    if lines.len() == 0 {
        assert(all.map_values(f) =~= lines);
    } else {
        let front = lines.drop_last();
        let last = lines.last();
        let w = wrap::wrapped(last, width);
        lemma_body_ink(front, width);
        assert forall|i: int| 0 <= i < w.len() implies #[trigger] raw_lines(w).map_values(f)[i]
            == w[i] by {
            assert(single_text(style::raw(w[i])) =~= w[i]);
        }
        assert(raw_lines(w).map_values(f) =~= w);
        assert(all.map_values(f) =~= wrapped_lines(front, width).map_values(f) + w);
        text::lemma_parts_concat(wrapped_lines(front, width).map_values(f), w);
        wrap::law_wrap_keeps_ink(last, width);
        text::lemma_parts_concat(front, seq![last]);
        text::lemma_ink_of_one(last);
        assert(front + seq![last] =~= lines);
    }
}

proof fn lemma_ink_of_joined(lines: Seq<Seq<char>>)
    ensures
        text::ink(text::joined(lines, seq!['\n'])) == text::ink_of(lines),
    decreases lines.len(),
{
    if lines.len() == 1 {
        assert(lines =~= seq![lines[0]]);
        text::lemma_ink_of_one(lines[0]);
    } else if lines.len() > 1 {
        let rest = lines.drop_first();
        let tail = text::joined(rest, seq!['\n']);
        lemma_ink_of_joined(rest);
        text::law_ink(lines[0] + seq!['\n'], tail, '\n');
        text::law_ink(lines[0], seq!['\n'], '\n');
        assert(text::ink(lines[0]) + Seq::<char>::empty() =~= text::ink(lines[0]));
    }
}

} // verus!
