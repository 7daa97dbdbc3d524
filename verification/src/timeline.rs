//! The timelines that can be shown.

use vstd::prelude::*;

verus! {

/// Selectable timelines: (timeline key, display label).
pub const TIMELINES: [(&'static str, &'static str); 4] = [
    ("home", "Home"),
    ("social", "Social"),
    ("local", "Local"),
    ("global", "Global"),
];

/// The number of timelines.
pub open spec fn count() -> int {
    TIMELINES@.len() as int
}

/// The key of the timeline at `idx`.
pub open spec fn key_at(idx: int) -> Seq<char> {
    TIMELINES@[idx].0@
}

/// The label of the timeline at `idx`.
pub open spec fn label_at(idx: int) -> Seq<char> {
    TIMELINES@[idx].1@
}

/// The timeline behind `idx`, or the first one behind the last.
pub open spec fn after(idx: int) -> int {
    if idx + 1 < count() {
        idx + 1
    } else {
        0
    }
}

/// The timeline before `idx`, or the last one before the first.
pub open spec fn before(idx: int) -> int {
    if idx > 0 {
        idx - 1
    } else {
        count() - 1
    }
}

/// The key of the timeline at `idx`.
pub fn key(idx: usize) -> (key: &'static str)
    requires
        idx < count(),
    ensures
        key@ == key_at(idx as int),
{
    TIMELINES[idx].0
}

/// The label of the timeline at `idx`.
pub fn label(idx: usize) -> (label: &'static str)
    requires
        idx < count(),
    ensures
        label@ == label_at(idx as int),
{
    TIMELINES[idx].1
}

/// The timeline behind `idx`, or the first one behind the last.
pub fn next(idx: usize) -> (next: usize)
    requires
        idx < count(),
    ensures
        next == after(idx as int),
        next < count(),
{
    (idx + 1) % TIMELINES.len()
}

/// The timeline before `idx`, or the last one before the first.
pub fn previous(idx: usize) -> (previous: usize)
    requires
        idx < count(),
    ensures
        previous == before(idx as int),
        previous < count(),
{
    (idx + TIMELINES.len() - 1) % TIMELINES.len()
}

/// Going on and going back undo each other.
pub proof fn law_next_and_previous(idx: int)
    requires
        0 <= idx < count(),
    ensures
        0 <= after(idx) < count(),
        0 <= before(idx) < count(),
        before(after(idx)) == idx,
        after(before(idx)) == idx,
{
}

/// The timeline that `steps` steps forward lead to.
pub open spec fn after_steps(idx: int, steps: nat) -> int
    decreases steps,
{
    if steps == 0 {
        idx
    } else {
        after(after_steps(idx, (steps - 1) as nat))
    }
}

/// Going on visits every timeline, and comes back after as many steps as there are
/// timelines.
pub proof fn law_next_visits_all(from: int, to: int)
    requires
        0 <= from < count(),
        0 <= to < count(),
    ensures
        after_steps(from, count() as nat) == from,
        exists|steps: nat| steps < count() && #[trigger] after_steps(from, steps) == to,
{
    reveal_with_fuel(after_steps, 5);
    let steps = if from <= to {
        (to - from) as nat
    } else {
        (to - from + count()) as nat
    };
    assert(after_steps(from, steps) == to);
}

/// There are four timelines, from home to global, each with its own key and label; the one
/// behind the last is the first.
pub proof fn law_table(idx: int)
    requires
        0 <= idx < 4,
    ensures
        count() == 4,
        key_at(0) == "home"@ && label_at(0) == "Home"@,
        key_at(1) == "social"@ && label_at(1) == "Social"@,
        key_at(2) == "local"@ && label_at(2) == "Local"@,
        key_at(3) == "global"@ && label_at(3) == "Global"@,
        after(idx) == (idx + 1) % 4,
        before(idx) == (idx + 3) % 4,
{
}

} // verus!
