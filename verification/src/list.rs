//! The cursor of the note list.

use vstd::prelude::*;

verus! {

/// The state of a scrolled list: the first item that is shown and the one that is
/// selected.
#[derive(Clone, Copy, Debug, PartialEq, Eq, Structural)]
pub struct ListCursor {
    pub offset: usize,
    pub selected: Option<usize>,
}

/// `ratatui::widgets::ListState::default()`: the list is at its start and nothing is
/// selected.
#[verifier::external_body]
pub(crate) fn initial() -> (cursor: ListCursor)
    ensures
        cursor == (ListCursor { offset: 0, selected: None }),
{
    let state = ratatui::widgets::ListState::default();
    ListCursor { offset: state.offset(), selected: state.selected() }
}

/// `ratatui::widgets::ListState::select`: the given item, or none, is selected. To
/// select none also brings the list back to its start.
#[verifier::external_body]
pub(crate) fn select(cursor: ListCursor, index: Option<usize>) -> (out: ListCursor)
    ensures
        out.selected == index,
        out.offset == (if index is None {
            0
        } else {
            cursor.offset
        }),
{
    let state = ratatui::widgets::ListState::default();
    let mut state = state.with_offset(cursor.offset).with_selected(cursor.selected);
    state.select(index);
    ListCursor { offset: state.offset(), selected: state.selected() }
}

} // verus!
