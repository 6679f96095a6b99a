//! The text of the graph's rows: which commits show, the line for
//! uncommitted changes, and each commit's columns (ref pill, rule,
//! selection marker, graph glyphs, message, author, age and short id) with
//! the shade of its row.
use vstd::prelude::*;

use crate::git::BadgeKind;
use crate::text::{chars_of, decimal, push_char, push_decimal, push_str};
use crate::ui::graph_view::{
    AGE_WIDTH, AUTHOR_WIDTH, COLUMN_GAP, MergedRef, MergedView, RAIL_MAX, SHA_WIDTH, clip_pad, clip_pad_spec,
    merged_views, rail_cell, rail_cell_spec, spaces,
};
use crate::ui::wrap::{PLAIN, StyledSpan, span_views};

verus! {

/// The rule between the ref rail and the graph.
pub const TAG_RULE: u32 = 1;

/// The selection marker.
pub const TAG_MARK: u32 = 2;

/// The graph's glyphs.
pub const TAG_GLYPHS: u32 = 3;

/// A commit's message.
pub const TAG_SUMMARY: u32 = 4;

/// Secondary columns: author and age.
pub const TAG_META: u32 = 5;

/// The short commit id.
pub const TAG_SHA: u32 = 6;

/// The count of further refs beside a pill.
pub const TAG_MORE: u32 = 7;

/// The line for uncommitted changes.
pub const TAG_WIP: u32 = 8;

/// The line for uncommitted changes, selected.
pub const TAG_WIP_SELECTED: u32 = 9;

/// A pill whose first ref is of this kind; on the HEAD commit the tag is
/// ten more.
pub const TAG_PILL_HEAD: u32 = 10;
pub const TAG_PILL_CURRENT: u32 = 11;
pub const TAG_PILL_LOCAL: u32 = 12;
pub const TAG_PILL_UPSTREAM: u32 = 13;

/// The tag of a pill: by the kind of its first ref, ten more on the HEAD
/// commit.
pub open spec fn pill_tag(refs: Seq<MergedView>, is_head: bool) -> u32 {
    if refs.len() == 0 {
        PLAIN
    } else {
        let base: u32 = match refs[0].1 {
            BadgeKind::Head => TAG_PILL_HEAD,
            BadgeKind::CurrentBranch => TAG_PILL_CURRENT,
            BadgeKind::LocalBranch => TAG_PILL_LOCAL,
            BadgeKind::Upstream => TAG_PILL_UPSTREAM,
        };
        if is_head {
            (base + 10) as u32
        } else {
            base
        }
    }
}

/// A text right-aligned in `width` characters, as `format!("{:>width$}")`
/// does: spaces in front when it is shorter.
pub open spec fn right_aligned(s: Seq<char>, width: nat) -> Seq<char> {
    if s.len() < width {
        spaces((width - s.len()) as nat) + s
    } else {
        s
    }
}

/// The spans of a commit's row.
pub open spec fn commit_row_spec(
    refs: Seq<MergedView>,
    rail_width: nat,
    is_head: bool,
    selected: bool,
    glyphs: Seq<char>,
    graph_width: nat,
    summary: Seq<char>,
    message_width: nat,
    author: Seq<char>,
    age: Seq<char>,
    short_id: Seq<char>,
) -> Seq<(Seq<char>, u32)> {
    let cell = rail_cell_spec(refs, rail_width);
    seq![
        (spaces(cell.0), PLAIN),
        (cell.1, pill_tag(refs, is_head)),
        (cell.2, TAG_MORE),
        (" ┊ "@, TAG_RULE),
        (if selected {
            "❯ "@
        } else {
            "  "@
        }, TAG_MARK),
        (clip_pad_spec(glyphs, graph_width), TAG_GLYPHS),
        (spaces(COLUMN_GAP as nat), PLAIN),
        (clip_pad_spec(summary, message_width), TAG_SUMMARY),
        (spaces(COLUMN_GAP as nat), PLAIN),
        (clip_pad_spec(author, AUTHOR_WIDTH as nat), TAG_META),
        (spaces(COLUMN_GAP as nat), PLAIN),
        (right_aligned(age, AGE_WIDTH as nat), TAG_META),
        (spaces(COLUMN_GAP as nat), PLAIN),
        (clip_pad_spec(short_id, SHA_WIDTH as nat), TAG_SHA),
    ]
}

/// `n` spaces.
pub fn spaces_of(n: usize) -> (r: String)
    ensures
        r@ == spaces(n as nat),
{
    let mut r = String::new();
    let mut k: usize = 0;
    while k < n
        invariant
            k <= n,
            r@ == spaces(k as nat),
        decreases n - k,
    {
        push_char(&mut r, ' ');
        k = k + 1;
        assert(r@ =~= spaces(k as nat));
    }
    r
}

fn owned(s: &str) -> (r: String)
    ensures
        r@ == s@,
{
    let mut r = String::new();
    push_str(&mut r, s);
    r
}

fn span(content: String, style: u32) -> (r: StyledSpan)
    ensures
        r.content == content,
        r.style == style,
{
    StyledSpan { content, style }
}

fn pill_tag_of(refs: &Vec<MergedRef>, is_head: bool) -> (r: u32)
    ensures
        r == pill_tag(merged_views(refs@), is_head),
{
    if refs.len() == 0 {
        return PLAIN;
    }
    let base: u32 = match refs[0].kind {
        BadgeKind::Head => TAG_PILL_HEAD,
        BadgeKind::CurrentBranch => TAG_PILL_CURRENT,
        BadgeKind::LocalBranch => TAG_PILL_LOCAL,
        BadgeKind::Upstream => TAG_PILL_UPSTREAM,
    };
    assert(merged_views(refs@)[0].1 == refs@[0].kind);
    if is_head {
        base + 10
    } else {
        base
    }
}

/// A text right-aligned in `width` characters.
pub fn right_align(s: &str, width: usize) -> (r: String)
    ensures
        r@ == right_aligned(s@, width as nat),
{
    let n = chars_of(s).len();
    if n < width {
        let mut r = spaces_of(width - n);
        push_str(&mut r, s);
        r
    } else {
        owned(s)
    }
}

/// The spans of a commit's row: the ref pill in the rail, the rule, the
/// selection marker, the graph glyphs, the message, the author, the age
/// and the short id, each clipped and padded to its column.
pub fn commit_row_text(
    refs: &Vec<MergedRef>,
    rail_width: usize,
    is_head: bool,
    selected: bool,
    glyphs: &str,
    graph_width: usize,
    summary: &str,
    message_width: usize,
    author: &str,
    age: &str,
    short_id: &str,
) -> (r: Vec<StyledSpan>)
    requires
        forall|j: int| 0 <= j < refs@.len() ==> (#[trigger] refs@[j]).label@.len() < usize::MAX / 4 - 10,
        rail_width <= RAIL_MAX,
        glyphs@.len() < usize::MAX / 4,
        summary@.len() < usize::MAX / 4,
        author@.len() < usize::MAX / 4,
        short_id@.len() < usize::MAX / 4,
    ensures
        span_views(r@) == commit_row_spec(
            merged_views(refs@),
            rail_width as nat,
            is_head,
            selected,
            glyphs@,
            graph_width as nat,
            summary@,
            message_width as nat,
            author@,
            age@,
            short_id@,
        ),
{
    let (pad, pill, extra) = rail_cell(refs, rail_width);
    let r = vec![
        span(spaces_of(pad), PLAIN),
        span(pill, pill_tag_of(refs, is_head)),
        span(extra, TAG_MORE),
        span(owned(" ┊ "), TAG_RULE),
        span(owned(if selected {
            "❯ "
        } else {
            "  "
        }), TAG_MARK),
        span(clip_pad(glyphs, graph_width), TAG_GLYPHS),
        span(spaces_of(COLUMN_GAP), PLAIN),
        span(clip_pad(summary, message_width), TAG_SUMMARY),
        span(spaces_of(COLUMN_GAP), PLAIN),
        span(clip_pad(author, AUTHOR_WIDTH), TAG_META),
        span(spaces_of(COLUMN_GAP), PLAIN),
        span(right_align(age, AGE_WIDTH), TAG_META),
        span(spaces_of(COLUMN_GAP), PLAIN),
        span(clip_pad(short_id, SHA_WIDTH), TAG_SHA),
    ];
    assert(span_views(r@) =~= commit_row_spec(
        merged_views(refs@),
        rail_width as nat,
        is_head,
        selected,
        glyphs@,
        graph_width as nat,
        summary@,
        message_width as nat,
        author@,
        age@,
        short_id@,
    ));
    r
}

/// The line for uncommitted changes, under the rail: how many files changed.
pub open spec fn wip_row_spec(rail_width: nat, files: nat, selected: bool) -> Seq<(Seq<char>, u32)> {
    seq![
        (spaces(rail_width) + " ┊ ◌ uncommitted changes ("@ + (if files == 1 {
            "1 file"@
        } else {
            decimal(files) + " files"@
        }) + ")"@, if selected {
            TAG_WIP_SELECTED
        } else {
            TAG_WIP
        }),
    ]
}

/// The line for uncommitted changes.
pub fn wip_row_text(rail_width: usize, files: usize, selected: bool) -> (r: Vec<StyledSpan>)
    ensures
        span_views(r@) == wip_row_spec(rail_width as nat, files as nat, selected),
{
    let mut text = spaces_of(rail_width);
    push_str(&mut text, " ┊ ◌ uncommitted changes (");
    if files == 1 {
        push_str(&mut text, "1 file");
    } else {
        push_decimal(&mut text, files);
        push_str(&mut text, " files");
    }
    push_str(&mut text, ")");
    assert(text@ =~= spaces(rail_width as nat) + " ┊ ◌ uncommitted changes ("@ + (if files == 1 {
        "1 file"@
    } else {
        decimal(files as nat) + " files"@
    }) + ")"@);
    let r = vec![span(text, if selected {
        TAG_WIP_SELECTED
    } else {
        TAG_WIP
    })];
    assert(span_views(r@) =~= wip_row_spec(rail_width as nat, files as nat, selected));
    r
}

/// The commits that show under the header: from the first in view, as
/// many as the rows left hold, and none past the last.
pub fn visible_commits(offset: usize, rows: usize, total: usize) -> (r: (usize, usize))
    ensures
        r.0 == offset,
        r.1 == (if offset >= total {
            offset as int
        } else if offset + rows < total {
            offset + rows
        } else {
            total as int
        }),
{
    if offset >= total {
        (offset, offset)
    } else if rows < total - offset {
        (offset, offset + rows)
    } else {
        (offset, total)
    }
}

/// How a row of the graph is shaded.
#[derive(Debug, Clone, Copy, PartialEq, Eq, Structural)]
pub enum RowShade {
    DropTarget,
    DragSource,
    Selected,
    Head,
    Zebra,
    Plain,
}

/// The shade of a row: the row a drag hovers over, else the dragged row,
/// else the selected row, else the HEAD commit's row, else every other row
/// striped.
pub open spec fn row_shade_spec(index: nat, selected: bool, is_head: bool, drag_source: bool, drag_hover: bool) -> RowShade {
    if drag_hover {
        RowShade::DropTarget
    } else if drag_source {
        RowShade::DragSource
    } else if selected {
        RowShade::Selected
    } else if is_head {
        RowShade::Head
    } else if index % 2 == 1 {
        RowShade::Zebra
    } else {
        RowShade::Plain
    }
}

/// The shade of a row.
pub fn row_shade(index: usize, selected: bool, is_head: bool, drag_source: bool, drag_hover: bool) -> (r: RowShade)
    ensures
        r == row_shade_spec(index as nat, selected, is_head, drag_source, drag_hover),
{
    if drag_hover {
        RowShade::DropTarget
    } else if drag_source {
        RowShade::DragSource
    } else if selected {
        RowShade::Selected
    } else if is_head {
        RowShade::Head
    } else if index % 2 == 1 {
        RowShade::Zebra
    } else {
        RowShade::Plain
    }
}

} // verus!
