//! The text of the branch panel: a row per branch with its marks, the
//! panel's title with the filter, and the key hints.
use vstd::prelude::*;

use crate::branches::BranchEntry;
use crate::text::{decimal, push_decimal, push_str};
use crate::ui::wrap::{StyledSpan, rows_view, span_views};
use crate::visibility::Visibility;

verus! {

/// The selection marker, and the blank mark of a shown branch.
pub const TAG_MARK: u32 = 1;

/// The dot of the checked-out branch.
pub const TAG_HEAD: u32 = 2;

/// The star of a pinned branch.
pub const TAG_PINNED: u32 = 3;

/// The ring of a hidden branch.
pub const TAG_HIDDEN: u32 = 4;

/// Ahead and behind counts.
pub const TAG_META: u32 = 5;

/// A branch's name: this tag, one more when selected, two more when hidden.
pub const TAG_NAME: u32 = 10;

pub type RowView = Seq<(Seq<char>, u32)>;

/// The tag of a branch's name.
pub open spec fn name_tag(selected: bool, hidden: bool) -> u32 {
    (TAG_NAME + (if selected {
        1u32
    } else {
        0u32
    }) + (if hidden {
        2u32
    } else {
        0u32
    })) as u32
}

/// The row of a branch: selection marker, a dot on the checked-out branch,
/// a star when pinned or a ring when hidden, its name, and how far it is
/// ahead of and behind its upstream when it differs.
pub open spec fn branch_row_spec(e: BranchEntry, selected: bool, hidden: bool, pinned: bool) -> RowView {
    seq![
        (if selected {
            "❯ "@
        } else {
            "  "@
        }, TAG_MARK),
        (if e.is_head {
            "● "@
        } else {
            "  "@
        }, TAG_HEAD),
        (if pinned {
            "★ "@
        } else if hidden {
            "◌ "@
        } else {
            "  "@
        }, if pinned {
            TAG_PINNED
        } else if hidden {
            TAG_HIDDEN
        } else {
            TAG_MARK
        }),
        (e.name@, name_tag(selected, hidden)),
    ] + (if e.ahead > 0 || e.behind > 0 {
        seq![("  ↑"@ + decimal(e.ahead as nat) + " ↓"@ + decimal(e.behind as nat), TAG_META)]
    } else {
        seq![]
    })
}

/// The rows of the branch list, the selected one marked; whether a branch
/// is hidden or pinned is as `visibility` has it.
pub open spec fn branch_rows_spec(entries: Seq<BranchEntry>, selected: int, vis: (Set<Seq<char>>, Set<Seq<char>>)) -> Seq<
    RowView,
> {
    Seq::new(
        entries.len(),
        |i: int|
            branch_row_spec(
                entries[i],
                i == selected,
                !(entries[i].is_head || vis.1.contains(entries[i].name@) || !vis.0.contains(entries[i].name@)),
                vis.1.contains(entries[i].name@),
            ),
    )
}

fn span(content: String, style: u32) -> (r: StyledSpan)
    ensures
        r.content == content,
        r.style == style,
{
    StyledSpan { content, style }
}

fn owned(s: &str) -> (r: String)
    ensures
        r@ == s@,
{
    let mut r = String::new();
    push_str(&mut r, s);
    r
}

/// The row of a branch.
pub fn branch_row(e: &BranchEntry, selected: bool, hidden: bool, pinned: bool) -> (r: Vec<StyledSpan>)
    ensures
        span_views(r@) == branch_row_spec(*e, selected, hidden, pinned),
{
    let name_tag: u32 = TAG_NAME + (if selected {
        1u32
    } else {
        0u32
    }) + (if hidden {
        2u32
    } else {
        0u32
    });
    let mut r = vec![
        span(owned(if selected {
            "❯ "
        } else {
            "  "
        }), TAG_MARK),
        span(owned(if e.is_head {
            "● "
        } else {
            "  "
        }), TAG_HEAD),
        span(owned(if pinned {
            "★ "
        } else if hidden {
            "◌ "
        } else {
            "  "
        }), if pinned {
            TAG_PINNED
        } else if hidden {
            TAG_HIDDEN
        } else {
            TAG_MARK
        }),
        span(e.name.clone(), name_tag),
    ];
    let ghost head = span_views(r@);
    if e.ahead > 0 || e.behind > 0 {
        let mut counts = owned("  ↑");
        push_decimal(&mut counts, e.ahead);
        push_str(&mut counts, " ↓");
        push_decimal(&mut counts, e.behind);
        r.push(span(counts, TAG_META));
    }
    assert(span_views(r@) =~= branch_row_spec(*e, selected, hidden, pinned));
    r
}

/// The rows of the branch list.
pub fn branch_rows(entries: &Vec<BranchEntry>, selected: usize, visibility: &Visibility) -> (r: Vec<Vec<StyledSpan>>)
    ensures
        rows_view(r@) == branch_rows_spec(entries@, selected as int, visibility@),
{
    let ghost want = branch_rows_spec(entries@, selected as int, visibility@);
    let mut rows: Vec<Vec<StyledSpan>> = Vec::new();
    let mut i: usize = 0;
    while i < entries.len()
        invariant
            i <= entries@.len(),
            want == branch_rows_spec(entries@, selected as int, visibility@),
            rows_view(rows@) == want.take(i as int),
        decreases entries@.len() - i,
    {
        let e = &entries[i];
        let hidden = !visibility.is_visible(e.name.as_str(), e.is_head);
        let pinned = visibility.is_pinned(e.name.as_str());
        let row = branch_row(e, i == selected, hidden, pinned);
        let ghost before = rows@;
        rows.push(row);
        proof {
            assert(rows@ =~= before.push(row));
            assert(rows_view(rows@) =~= rows_view(before).push(span_views(row@)));
            assert(want[i as int] == span_views(row@));
            assert(want.take(i + 1) =~= want.take(i as int).push(want[i as int]));
        }
        i = i + 1;
    }
    assert(want.take(i as int) =~= want);
    rows
}

/// The title of the branch panel: the filter being typed (with a cursor)
/// or applied, if any.
pub open spec fn branch_title_spec(filter: Option<(Seq<char>, bool)>) -> Seq<char> {
    match filter {
        Some((query, editing)) => " Branches   /"@ + query + (if editing {
            "▏"@
        } else {
            " "@
        }),
        None => " Branches "@,
    }
}

/// The title of the branch panel.
pub fn branch_title(filter: Option<(&str, bool)>) -> (r: String)
    ensures
        r@ == branch_title_spec(match filter {
            Some((q, e)) => Some((q@, e)),
            None => None,
        }),
{
    match filter {
        Some((query, editing)) => {
            let mut r = owned(" Branches   /");
            push_str(&mut r, query);
            push_str(&mut r, if editing {
                "▏"
            } else {
                " "
            });
            r
        },
        None => owned(" Branches "),
    }
}

/// The key hints of the branch panel: those of the filter while it is
/// typed, else those of the list.
pub fn branch_hints(filter_editing: bool) -> (r: (&'static str, &'static str))
    ensures
        (r.0@, r.1@) == (if filter_editing {
            ("↑/↓ move · ↵ apply filter (keys act on matches)"@, "Esc cancel filter"@)
        } else {
            ("↵ checkout · n new · d delete · M join"@, "Space hide · o solo/all · p pin · / filter"@)
        }),
{
    if filter_editing {
        ("↑/↓ move · ↵ apply filter (keys act on matches)", "Esc cancel filter")
    } else {
        ("↵ checkout · n new · d delete · M join", "Space hide · o solo/all · p pin · / filter")
    }
}

} // verus!
