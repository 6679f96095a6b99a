//! The frame of a diff pane: its title and mode, how far it may scroll
//! sideways, and where it scrolls to bring the focused hunk into view.
use vstd::prelude::*;

use crate::text::push_str;

verus! {

/// What the pane's title says of the view mode and its key.
pub open spec fn mode_text(split: bool) -> Seq<char> {
    if split {
        "side-by-side · [v] unified"@
    } else {
        "[v] side-by-side"@
    }
}

/// The title of a diff pane: the file's path, or "Diff" when there is no
/// diff, then the view mode.
pub open spec fn diff_title_spec(path: Option<Seq<char>>, split: bool) -> Seq<char> {
    " "@ + (match path {
        Some(p) => p,
        None => "Diff"@,
    }) + "   "@ + mode_text(split) + " "@
}

/// The title of a diff pane.
pub fn diff_title(path: Option<&str>, split: bool) -> (r: String)
    ensures
        r@ == diff_title_spec(
            match path {
                Some(p) => Some(p@),
                None => None,
            },
            split,
        ),
{
    let mut r = String::new();
    push_str(&mut r, " ");
    match path {
        Some(p) => push_str(&mut r, p),
        None => push_str(&mut r, "Diff"),
    }
    push_str(&mut r, "   ");
    push_str(&mut r, if split {
        "side-by-side · [v] unified"
    } else {
        "[v] side-by-side"
    });
    push_str(&mut r, " ");
    r
}

/// The width of one side of a side-by-side view: half of what is left
/// once the three columns of the separator are taken.
pub open spec fn column_width(inner_width: nat) -> nat {
    (if inner_width >= 3 {
        inner_width - 3
    } else {
        0
    }) as nat / 2
}

/// How far a view may be scrolled sideways: in a side-by-side view, as far
/// as the widest line reaches past a side's width (as a `u16`, the low
/// sixteen bits of it); a unified view wraps its lines and does not scroll.
pub open spec fn hscroll_spec(hscroll: u16, split: bool, widest: nat, inner_width: nat) -> u16 {
    if split {
        let overflow = (if widest >= column_width(inner_width) {
            widest - column_width(inner_width)
        } else {
            0
        }) % 65536;
        if hscroll <= overflow {
            hscroll
        } else {
            overflow as u16
        }
    } else {
        0
    }
}

/// The sideways scroll of a diff pane, kept within what its lines reach.
pub fn clamp_hscroll(hscroll: u16, split: bool, widest: usize, inner_width: usize) -> (r: u16)
    ensures
        r == hscroll_spec(hscroll, split, widest as nat, inner_width as nat),
{
    if !split {
        return 0;
    }
    let spare = if inner_width >= 3 {
        inner_width - 3
    } else {
        0
    };
    let column = spare / 2;
    let overflow = if widest >= column {
        widest - column
    } else {
        0
    };
    let capped = overflow % 65536;
    if (hscroll as usize) <= capped {
        hscroll
    } else {
        capped as u16
    }
}

/// Where a diff pane scrolls to: to the focused hunk's first row when asked
/// to snap to it and it is out of view, else where it was; never past the
/// last screenful of rows (as a `u16`, the low sixteen bits of that).
pub open spec fn snap_spec(scroll: u16, focus: Option<nat>, snap: bool, height: nat, rows: nat) -> u16 {
    let target: nat = match focus {
        Some(f) => if snap && !(scroll <= f % 65536 && f % 65536 < scroll + height) {
            f % 65536
        } else {
            scroll as nat
        },
        None => scroll as nat,
    };
    let last: nat = (if rows >= height {
        rows - height
    } else {
        0
    }) as nat % 65536;
    (if target <= last {
        target
    } else {
        last
    }) as u16
}

/// Where a diff pane scrolls to.
pub fn snap_scroll(scroll: u16, focus: Option<usize>, snap: bool, height: usize, rows: usize) -> (r: u16)
    ensures
        r == snap_spec(
            scroll,
            match focus {
                Some(f) => Some(f as nat),
                None => None,
            },
            snap,
            height as nat,
            rows as nat,
        ),
{
    let mut target: usize = scroll as usize;
    match focus {
        Some(f) => {
            let at = f % 65536;
            let within = (scroll as usize) <= at && at - (scroll as usize) < height;
            if snap && !within {
                target = at;
            }
        },
        None => {},
    }
    let last = (if rows >= height {
        rows - height
    } else {
        0
    }) % 65536;
    if target <= last {
        target as u16
    } else {
        last as u16
    }
}

} // verus!
