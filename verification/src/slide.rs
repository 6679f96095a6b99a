//! Cursor movement in the sliding side panels.
use vstd::prelude::*;

verus! {

/// A cursor moved by `delta` and held within `len` entries.
pub open spec fn clamp_spec(current: int, delta: int, len: int) -> int {
    if len == 0 {
        0
    } else {
        let target = current + delta;
        if target < 0 {
            0
        } else if target > len - 1 {
            len - 1
        } else {
            target
        }
    }
}

/// Moves a cursor by `delta`, held within `len` entries (0 when there are none).
pub fn clamp_index(current: usize, delta: isize, len: usize) -> (r: usize)
    requires
        current <= isize::MAX,
        isize::MIN <= current + delta <= isize::MAX,
        len <= isize::MAX,
    ensures
        r == clamp_spec(current as int, delta as int, len as int),
        len > 0 ==> r < len,
{
    if len == 0 {
        return 0;
    }
    let last = (len - 1) as isize;
    let target = current as isize + delta;
    if target < 0 {
        0
    } else if target > last {
        last as usize
    } else {
        target as usize
    }
}

/// The entries of a side panel and the cursor on them. (How far the panel
/// has slid in is animation state, kept by the renderer.)
pub struct SlidePanel<T> {
    pub entries: Vec<T>,
    pub selected: usize,
}

impl<T> SlidePanel<T> {
    /// A panel opening on `entries`, with the cursor on the first.
    pub fn opening(entries: Vec<T>) -> (r: Self)
        ensures
            r.entries@ == entries@,
            r.selected == 0,
    {
        SlidePanel { entries, selected: 0 }
    }

    /// The entry under the cursor.
    pub fn focused(&self) -> (r: Option<&T>)
        ensures
            r == (if self.selected < self.entries@.len() {
                Some(&self.entries@[self.selected as int])
            } else {
                None
            }),
    {
        if self.selected < self.entries.len() {
            Some(&self.entries[self.selected])
        } else {
            None
        }
    }

    /// Moves the cursor by `delta`, held within the entries.
    pub fn move_selection(&mut self, delta: isize)
        requires
            old(self).selected <= isize::MAX,
            isize::MIN <= old(self).selected + delta <= isize::MAX,
            old(self).entries@.len() <= isize::MAX,
        ensures
            final(self).entries@ == old(self).entries@,
            final(self).selected == clamp_spec(
                old(self).selected as int,
                delta as int,
                old(self).entries@.len() as int,
            ),
    {
        self.selected = clamp_index(self.selected, delta, self.entries.len());
    }

    /// Replaces the entries, keeping the cursor where it still fits.
    pub fn refresh(&mut self, entries: Vec<T>)
        ensures
            final(self).entries@ == entries@,
            final(self).selected == (if entries@.len() == 0 {
                0
            } else if old(self).selected < entries@.len() {
                old(self).selected as int
            } else {
                entries@.len() - 1
            }),
    {
        let last = if entries.len() == 0 {
            0
        } else {
            entries.len() - 1
        };
        self.selected = if self.selected < last {
            self.selected
        } else {
            last
        };
        self.entries = entries;
    }
}

} // verus!
