//! The working-directory view: which file and hunk the cursor is on.
use vstd::prelude::*;

use crate::slide::{clamp_index, clamp_spec};
use crate::staging::FileDiff;

verus! {

#[derive(Debug, Clone, Copy, PartialEq, Eq, Structural)]
pub enum Focus {
    Files,
    Hunks,
}

/// The working view's state. (How far the view has slid in is animation
/// state, kept by the renderer.)
pub struct WorkingView {
    pub fullscreen: bool,
    pub split: bool,
    pub selected: usize,
    pub focus: Focus,
    pub diff: Option<FileDiff>,
    pub staged_side: bool,
    pub hunk: usize,
}

/// The number of hunks of the diff shown, if any.
pub open spec fn hunk_count(diff: Option<FileDiff>) -> nat {
    match diff {
        Some(d) => d.hunks@.len(),
        None => 0,
    }
}

impl WorkingView {
    /// A view on the first file, with the file list focused and no diff yet.
    pub fn opening() -> (r: Self)
        ensures
            !r.fullscreen,
            !r.split,
            r.selected == 0,
            r.focus == Focus::Files,
            r.diff is None,
            !r.staged_side,
            r.hunk == 0,
    {
        WorkingView {
            fullscreen: false,
            split: false,
            selected: 0,
            focus: Focus::Files,
            diff: None,
            staged_side: false,
            hunk: 0,
        }
    }

    /// Moves the file cursor by `delta` among `len` files.
    pub fn move_file(&mut self, delta: isize, len: usize)
        requires
            old(self).selected <= isize::MAX,
            isize::MIN <= old(self).selected + delta <= isize::MAX,
            len <= isize::MAX,
        ensures
            final(self).selected == clamp_spec(old(self).selected as int, delta as int, len as int),
            final(self).hunk == old(self).hunk,
            final(self).focus == old(self).focus,
            final(self).diff == old(self).diff,
    {
        self.selected = clamp_index(self.selected, delta, len);
    }

    /// Moves the hunk cursor by `delta` among the diff's hunks.
    pub fn move_hunk(&mut self, delta: isize)
        requires
            old(self).hunk <= isize::MAX,
            isize::MIN <= old(self).hunk + delta <= isize::MAX,
            hunk_count(old(self).diff) <= isize::MAX,
        ensures
            final(self).hunk == clamp_spec(old(self).hunk as int, delta as int, hunk_count(old(self).diff) as int),
            final(self).selected == old(self).selected,
            final(self).diff == old(self).diff,
    {
        let len = match &self.diff {
            Some(diff) => diff.hunks.len(),
            None => 0,
        };
        self.hunk = clamp_index(self.hunk, delta, len);
    }

    /// Keeps the cursors on what still exists after the files changed: the
    /// file cursor within `len` files, and, with the hunks focused, back on
    /// the file list when the diff has no hunk left.
    pub fn reconcile(&mut self, len: usize)
        ensures
            final(self).selected == (if old(self).selected < len || len == 0 {
                if len == 0 {
                    0
                } else {
                    old(self).selected as int
                }
            } else {
                len - 1
            }),
            old(self).focus == Focus::Hunks && hunk_count(old(self).diff) == 0 ==> {
                &&& final(self).focus == Focus::Files
                &&& final(self).diff is None
                &&& final(self).hunk == 0
            },
            old(self).focus == Focus::Hunks && hunk_count(old(self).diff) > 0 ==> {
                &&& final(self).focus == Focus::Hunks
                &&& final(self).diff == old(self).diff
                &&& final(self).hunk == (if old(self).hunk < hunk_count(old(self).diff) {
                    old(self).hunk as int
                } else {
                    hunk_count(old(self).diff) - 1
                })
            },
            old(self).focus == Focus::Files ==> final(self).focus == Focus::Files && final(self).diff
                == old(self).diff && final(self).hunk == old(self).hunk,
    {
        let last = if len == 0 {
            0
        } else {
            len - 1
        };
        if self.selected > last {
            self.selected = last;
        }
        if self.focus == Focus::Hunks {
            let hunks = match &self.diff {
                Some(diff) => diff.hunks.len(),
                None => 0,
            };
            if hunks == 0 {
                self.focus = Focus::Files;
                self.diff = None;
                self.hunk = 0;
            } else if self.hunk > hunks - 1 {
                self.hunk = hunks - 1;
            }
        }
    }
}

} // verus!
