//! Small types of the calculator's shell.
use vstd::prelude::*;

verus! {

/// Which panel has the focus.
#[derive(Clone, Copy, Debug, PartialEq, Eq, Structural)]
pub enum Focus {
    Input,
    History,
    Variables,
}

impl Focus {
    /// The next panel, wrapping from the last to the first.
    pub fn next(self) -> (r: Self)
        ensures
            r == match self {
                Focus::Input => Focus::History,
                Focus::History => Focus::Variables,
                Focus::Variables => Focus::Input,
            },
    {
        match self {
            Focus::Input => Focus::History,
            Focus::History => Focus::Variables,
            Focus::Variables => Focus::Input,
        }
    }

    /// The previous panel, wrapping from the first to the last.
    pub fn prev(self) -> (r: Self)
        ensures
            r == match self {
                Focus::Input => Focus::Variables,
                Focus::History => Focus::Input,
                Focus::Variables => Focus::History,
            },
    {
        match self {
            Focus::Input => Focus::Variables,
            Focus::History => Focus::Input,
            Focus::Variables => Focus::History,
        }
    }
}

/// A yanked range to highlight until a moment on the shell's clock, in milliseconds.
#[derive(Clone, Copy, Debug, PartialEq, Eq, Structural)]
pub struct YankFlash {
    pub start: usize,
    pub end: usize,
    pub expires_at: u64,
}

impl YankFlash {
    /// Whether the highlight still shows at `now`.
    pub fn is_active(&self, now: u64) -> (r: bool)
        ensures
            r == (now < self.expires_at),
    {
        now < self.expires_at
    }
}

/// The selection of a list of `len` items after a step up: the item above, or the first
/// item when none was selected; nothing in an empty list.
pub fn selection_up(selected: Option<usize>, len: usize) -> (r: Option<usize>)
    ensures
        len == 0 ==> r is None,
        len > 0 ==> r == Some(match selected {
            Some(i) => if i == 0 { 0 } else { (i - 1) as usize },
            None => 0usize,
        }),
{
    if len == 0 {
        return None;
    }
    match selected {
        Some(i) => Some(if i == 0 { 0 } else { i - 1 }),
        None => Some(0),
    }
}

/// The selection of a list of `len` items after a step down: the item below, up to the
/// last, or the first item when none was selected; nothing in an empty list.
pub fn selection_down(selected: Option<usize>, len: usize) -> (r: Option<usize>)
    ensures
        len == 0 ==> r is None,
        len > 0 ==> r == Some(match selected {
            Some(i) => if i + 1 < len { (i + 1) as usize } else { (len - 1) as usize },
            None => 0usize,
        }),
{
    if len == 0 {
        return None;
    }
    match selected {
        Some(i) => Some(if i < len - 1 { i + 1 } else { len - 1 }),
        None => Some(0),
    }
}

/// The selection when a list of `len` items gets the focus: the first item if none was
/// selected; nothing in an empty list.
pub fn select_first_if_available(selected: Option<usize>, len: usize) -> (r: Option<usize>)
    ensures
        len == 0 ==> r is None,
        len > 0 ==> r == Some(match selected {
            Some(i) => i,
            None => 0usize,
        }),
{
    if len == 0 {
        None
    } else {
        match selected {
            Some(i) => Some(i),
            None => Some(0),
        }
    }
}

/// The index into a history of `len` entries of the row `row` of a list that shows the
/// newest entry first.
pub fn history_index(row: usize, len: usize) -> (r: Option<usize>)
    ensures
        r == if row < len { Some((len - 1 - row) as usize) } else { None::<usize> },
{
    if row < len {
        Some(len - 1 - row)
    } else {
        None
    }
}

} // verus!
