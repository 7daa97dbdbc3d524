//! How the screen is divided.

use vstd::prelude::*;

verus! {

/// A rectangle of the terminal, in cells.
#[derive(Clone, Copy, Debug, PartialEq, Eq, Structural)]
pub struct Area {
    pub x: u16,
    pub y: u16,
    pub width: u16,
    pub height: u16,
}

/// The three parts of the screen, from top to bottom.
#[derive(Clone, Copy, Debug, PartialEq, Eq, Structural)]
pub struct Rows {
    pub header: Area,
    pub timeline: Area,
    pub footer: Area,
}

/// The height of the header.
pub const HEADER_HEIGHT: u16 = 1;

/// The least height of the timeline.
pub const TIMELINE_MIN_HEIGHT: u16 = 1;

/// The height of the footer.
pub const FOOTER_HEIGHT: u16 = 1;

/// The part of `area` that is `height` cells high and starts `down` cells below its
/// top.
pub open spec fn band(area: Area, down: int, height: int) -> Area {
    Area { x: area.x, y: (area.y + down) as u16, width: area.width, height: height as u16 }
}

/// `part` has the columns of `area`.
pub open spec fn same_columns(part: Area, area: Area) -> bool {
    part.x == area.x && part.width == area.width
}

/// `part` lies within the rows of `area`.
pub open spec fn within_rows(part: Area, area: Area) -> bool {
    area.y <= part.y && part.y + part.height <= area.y + area.height
}

/// The parts lie one below the other, from the first row of `area` to its last.
pub open spec fn stacked(top: Area, middle: Area, bottom: Area, area: Area) -> bool {
    &&& top.y == area.y
    &&& middle.y == top.y + top.height
    &&& bottom.y == middle.y + middle.height
    &&& top.height + middle.height + bottom.height == area.height
}

/// `ratatui::layout::Layout::split` of a vertical layout: `top` rows, at least
/// `middle` rows, `bottom` rows. Each of the three parts has the columns of the area
/// and, where the area ends at a row that a `u16` can number, lies within its rows.
/// Where the three heights fit there, the first and the last part have theirs, the parts
/// lie one below the other, and the middle one takes what is left. Where only `middle`
/// fits, and is at most `i16::MAX`, the middle part has exactly that height, since a
/// minimum outweighs a length, and the parts still fill the area one below the other.
/// How the first and the last part then share the other rows is a tie, which the
/// solver behind the layout breaks by the order of a hash map, and is not stated.
#[verifier::external_body]
fn split_vertical(area: Area, top: u16, middle: u16, bottom: u16) -> (parts: Vec<Area>)
    ensures
        parts@.len() == 3,
        forall|i: int| 0 <= i < 3 ==> same_columns(#[trigger] parts@[i], area),
        area.y + area.height <= u16::MAX ==> forall|i: int|
            0 <= i < 3 ==> within_rows(#[trigger] parts@[i], area),
        area.y + area.height <= u16::MAX && top + middle + bottom <= area.height ==> {
            &&& parts@[0] == band(area, 0, top as int)
            &&& parts@[1] == band(area, top as int, area.height - top - bottom)
            &&& parts@[2] == band(area, area.height - bottom, bottom as int)
        },
        area.y + area.height <= u16::MAX && middle <= i16::MAX && middle <= area.height < top
            + middle + bottom ==> {
            &&& stacked(parts@[0], parts@[1], parts@[2], area)
            &&& parts@[1].height == middle
        },
{
    let Area { x, y, width, height } = area;
    let whole = ratatui::layout::Rect { x, y, width, height };
    let heights = [
        ratatui::layout::Constraint::Length(top),
        ratatui::layout::Constraint::Min(middle),
        ratatui::layout::Constraint::Length(bottom),
    ];
    let parts = ratatui::layout::Layout::vertical(heights).split(whole);
    parts.iter().map(|r| Area { x: r.x, y: r.y, width: r.width, height: r.height }).collect()
}

/// `rows` divide `area`: every part has the columns of the area. Where the area ends
/// at a row that a `u16` can number, the parts lie within it, one below the other, and
/// fill it. Of three rows or more the header is the first, the footer the last, and the
/// timeline what is between them. Of one or two rows the timeline has one.
pub open spec fn divides(rows: Rows, area: Area) -> bool {
    &&& same_columns(rows.header, area)
    &&& same_columns(rows.timeline, area)
    &&& same_columns(rows.footer, area)
    &&& area.y + area.height <= u16::MAX ==> {
        &&& within_rows(rows.header, area)
        &&& within_rows(rows.timeline, area)
        &&& within_rows(rows.footer, area)
        &&& stacked(rows.header, rows.timeline, rows.footer, area)
        &&& 1 <= area.height <= 2 ==> rows.timeline.height == 1
        &&& area.height >= 3 ==> {
            &&& rows.header == band(area, 0, 1)
            &&& rows.timeline == band(area, 1, area.height - 2)
            &&& rows.footer == band(area, area.height - 1, 1)
        }
    }
}

/// Divides the screen: one row for the header, one for the footer, and the rows
/// between them for the timeline. Of fewer than three rows the timeline gets the first,
/// and which of header and footer gets the second is not stated.
pub fn rows(area: Area) -> (rows: Rows)
    ensures
        divides(rows, area),
{
    let parts: Vec<Area> = split_vertical(area, HEADER_HEIGHT, TIMELINE_MIN_HEIGHT, FOOTER_HEIGHT);
    Rows { header: parts[0], timeline: parts[1], footer: parts[2] }
}

/// What a division of the screen is, cell by cell. All parts have the columns of the
/// screen. The parts follow one another from its first row to its last, none is outside,
/// and none overlaps another. With three rows or more, header and footer have one row
/// each; with one or two, the timeline has one.
pub proof fn law_division(rows: Rows, area: Area)
    requires
        divides(rows, area),
    ensures
        rows.header.x == area.x && rows.header.width == area.width,
        rows.timeline.x == area.x && rows.timeline.width == area.width,
        rows.footer.x == area.x && rows.footer.width == area.width,
        area.y + area.height <= 0xffff ==> {
            &&& rows.header.y == area.y
            &&& rows.timeline.y == area.y + rows.header.height
            &&& rows.footer.y == rows.timeline.y + rows.timeline.height
            &&& rows.header.height + rows.timeline.height + rows.footer.height == area.height
            &&& area.height >= 3 ==> rows.header.height == 1 && rows.footer.height == 1
            &&& area.height == 1 || area.height == 2 ==> rows.timeline.height == 1
        },
{
}

/// With three rows or more there is but one way to divide the screen.
pub proof fn law_division_is_unique(a: Rows, b: Rows, area: Area)
    requires
        divides(a, area),
        divides(b, area),
        area.y + area.height <= 0xffff,
        area.height >= 3,
    ensures
        a == b,
{
}

} // verus!
