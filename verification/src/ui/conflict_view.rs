//! The text of the conflict browser: the list of conflicted files, and the
//! focused file's code with each block's two sides.
use vstd::prelude::*;

use crate::conflict::{
    ConflictBrowser, ConflictFile, OpKind, Segment, SegmentView, Side, all_chosen, op_label, open_blocks,
    segment_view, segments_view,
};
use crate::text::{decimal, push_decimal, push_str, strs};
use crate::ui::wrap::{StyledSpan, rows_view, span_views};

verus! {

/// The selection marker in front of a file.
pub const TAG_MARKER: u32 = 1;

/// The mark of a file whose blocks all have a side.
pub const TAG_RESOLVED: u32 = 2;

/// The mark of a file with a block still open.
pub const TAG_OPEN: u32 = 3;

/// The focused file's name.
pub const TAG_FOCUSED: u32 = 4;

/// Any other file's name.
pub const TAG_NAME: u32 = 5;

/// Secondary text: block counts, context lines, the key hints.
pub const TAG_META: u32 = 6;

/// The line that says which operation stopped.
pub const TAG_HEADLINE: u32 = 7;

/// A block's header.
pub const TAG_BLOCK: u32 = 8;

/// The heading of a block's own side.
pub const TAG_OURS_HEADING: u32 = 9;

/// The heading of a block's incoming side.
pub const TAG_THEIRS_HEADING: u32 = 10;

/// The margin of a line of the own side.
pub const TAG_OURS_MARGIN: u32 = 11;

/// The margin of a line of the incoming side.
pub const TAG_THEIRS_MARGIN: u32 = 12;

/// Code of the own side, to be coloured by its syntax.
pub const TAG_OURS_CODE: u32 = 13;

/// Code of the incoming side, to be coloured by its syntax.
pub const TAG_THEIRS_CODE: u32 = 14;

/// A row of text as its spans' characters and style tags.
pub type RowView = Seq<(Seq<char>, u32)>;

/// The row of one file in the list.
pub open spec fn file_row(f: ConflictFile, selected: bool) -> RowView {
    let resolved = all_chosen(f.choices@) is Some;
    seq![
        (if selected {
            "❯ "@
        } else {
            "  "@
        }, TAG_MARKER),
        (if resolved {
            "✓ "@
        } else {
            "◆ "@
        }, if resolved {
            TAG_RESOLVED
        } else {
            TAG_OPEN
        }),
        (f.path@, if selected {
            TAG_FOCUSED
        } else {
            TAG_NAME
        }),
        ("  ("@ + decimal(f.choices@.len()) + " blocks)"@, TAG_META),
    ]
}

/// The file list: a row per file, the focused one marked; a note that all
/// is resolved when no file is left.
pub open spec fn file_rows(b: ConflictBrowser) -> Seq<RowView> {
    if b.files@.len() == 0 {
        seq![seq![("all resolved — press [c] to continue"@, TAG_RESOLVED)]]
    } else {
        Seq::new(b.files@.len(), |i: int| file_row(b.files@[i], i == b.file))
    }
}

/// How a line of code is shown.
#[derive(Clone, Copy)]
pub enum LineKind {
    Context,
    Ours,
    Theirs,
}

/// The row of one line of code.
pub open spec fn line_row(kind: LineKind, l: Seq<char>) -> RowView {
    match kind {
        LineKind::Context => seq![("  "@ + l, TAG_META)],
        LineKind::Ours => seq![("  "@, TAG_OURS_MARGIN), (l, TAG_OURS_CODE)],
        LineKind::Theirs => seq![("  "@, TAG_THEIRS_MARGIN), (l, TAG_THEIRS_CODE)],
    }
}

/// The rows of some lines of code.
pub open spec fn line_rows(kind: LineKind, ls: Seq<Seq<char>>) -> Seq<RowView> {
    ls.map_values(|l: Seq<char>| line_row(kind, l))
}

/// The side chosen for block `k`, if any.
pub open spec fn choice_at(choices: Seq<Option<Side>>, k: int) -> Option<Side> {
    if 0 <= k < choices.len() {
        choices[k]
    } else {
        None
    }
}

/// What a block's header says of the side taken.
pub open spec fn taken_text(choice: Option<Side>) -> Seq<char> {
    match choice {
        Some(Side::Ours) => "  · took OURS"@,
        Some(Side::Theirs) => "  · took THEIRS"@,
        None => ""@,
    }
}

/// The header of block `k` (counted from zero) of `count`.
pub open spec fn block_header(k: nat, count: nat, focused: bool, choice: Option<Side>) -> RowView {
    seq![
        ((if focused {
            "❯"@
        } else {
            " "@
        }) + " conflict "@ + decimal(k + 1) + "/"@ + decimal(count) + taken_text(choice), TAG_BLOCK),
    ]
}

/// The rows of a block: its header, its own side, its incoming side and a
/// blank row.
pub open spec fn block_rows(
    ours: Seq<Seq<char>>,
    theirs: Seq<Seq<char>>,
    k: nat,
    count: nat,
    focused: bool,
    choice: Option<Side>,
) -> Seq<RowView> {
    seq![block_header(k, count, focused, choice), seq![("  ── OURS ──"@, TAG_OURS_HEADING)]] + line_rows(
        LineKind::Ours,
        ours,
    ) + seq![seq![("  ── THEIRS ──"@, TAG_THEIRS_HEADING)]] + line_rows(LineKind::Theirs, theirs) + seq![
        Seq::empty(),
    ]
}

/// The rows of a file's segments, whose first block is block `k`.
pub open spec fn segment_rows(segs: Seq<SegmentView>, choices: Seq<Option<Side>>, block: int, k: nat) -> Seq<
    RowView,
>
    decreases segs.len(),
{
    if segs.len() == 0 {
        seq![]
    } else {
        match segs[0] {
            SegmentView::Context(ls) => line_rows(LineKind::Context, ls) + segment_rows(
                segs.drop_first(),
                choices,
                block,
                k,
            ),
            SegmentView::Conflict(ours, theirs) => block_rows(
                ours,
                theirs,
                k,
                choices.len(),
                k == block,
                choice_at(choices, k as int),
            ) + segment_rows(segs.drop_first(), choices, block, k + 1),
        }
    }
}

/// Which step of a rebase stopped, when known.
pub open spec fn progress_text(progress: Option<(usize, usize)>) -> Seq<char> {
    match progress {
        Some((current, total)) => " · step "@ + decimal(current as nat) + "/"@ + decimal(total as nat),
        None => ""@,
    }
}

/// The key hints, with the number of blocks still open.
pub open spec fn hint_row(op: OpKind, open: nat) -> RowView {
    seq![
        ("[o] ours · [t] theirs · [e] edit · [c] continue"@ + (if op == OpKind::Rebase {
            " · [s] skip"@
        } else {
            ""@
        }) + " · [A]/[Esc] abort — "@ + decimal(open) + " left"@, TAG_META),
    ]
}

/// The code column: what stopped, the focused file's segments, and the key
/// hints.
pub open spec fn code_rows(b: ConflictBrowser) -> Seq<RowView> {
    seq![seq![(op_label(b.op) + " in progress"@ + progress_text(b.progress), TAG_HEADLINE)], Seq::empty()]
        + (if b.file < b.files@.len() {
        segment_rows(segments_view(b.files@[b.file as int].segments@), b.files@[b.file as int].choices@, b.block as int, 0)
    } else {
        seq![]
    }) + seq![hint_row(b.op, open_blocks(b.files@))]
}

/// The title over the code column.
pub open spec fn conflict_title_spec(b: ConflictBrowser) -> Seq<char> {
    if b.file < b.files@.len() {
        " "@ + b.files@[b.file as int].path@ + " "@
    } else {
        " Conflict "@
    }
}

proof fn lemma_push_row(rows: Seq<Vec<StyledSpan>>, row: Vec<StyledSpan>)
    ensures
        rows_view(rows.push(row)) == rows_view(rows).push(span_views(row@)),
{
    assert(rows_view(rows.push(row)) =~= rows_view(rows).push(span_views(row@)));
}

fn owned(s: &str) -> (r: String)
    ensures
        r@ == s@,
{
    let mut r = String::new();
    push_str(&mut r, s);
    r
}

fn span(content: String, style: u32) -> (r: StyledSpan)
    ensures
        r.content == content,
        r.style == style,
{
    StyledSpan { content, style }
}

fn one(content: String, style: u32) -> (r: Vec<StyledSpan>)
    ensures
        span_views(r@) == seq![(content@, style)],
{
    let r = vec![span(content, style)];
    assert(span_views(r@) =~= seq![(content@, style)]);
    r
}

fn file_row_of(f: &ConflictFile, selected: bool) -> (r: Vec<StyledSpan>)
    ensures
        span_views(r@) == file_row(*f, selected),
{
    let resolved = f.is_resolved();
    let mut count = owned("  (");
    push_decimal(&mut count, f.count());
    push_str(&mut count, " blocks)");
    let r = vec![
        span(owned(if selected {
            "❯ "
        } else {
            "  "
        }), TAG_MARKER),
        span(owned(if resolved {
            "✓ "
        } else {
            "◆ "
        }), if resolved {
            TAG_RESOLVED
        } else {
            TAG_OPEN
        }),
        span(f.path.clone(), if selected {
            TAG_FOCUSED
        } else {
            TAG_NAME
        }),
        span(count, TAG_META),
    ];
    assert(span_views(r@) =~= file_row(*f, selected));
    r
}

/// The rows of the conflicted files: each with its mark, name and block
/// count, the focused one marked; a note that all is resolved when none is
/// left.
pub fn conflict_file_rows(b: &ConflictBrowser) -> (r: Vec<Vec<StyledSpan>>)
    ensures
        rows_view(r@) == file_rows(*b),
{
    let mut rows: Vec<Vec<StyledSpan>> = Vec::new();
    if b.files.len() == 0 {
        rows.push(one(owned("all resolved — press [c] to continue"), TAG_RESOLVED));
        assert(rows_view(rows@) =~= file_rows(*b));
        return rows;
    }
    let ghost want = file_rows(*b);
    let mut i: usize = 0;
    while i < b.files.len()
        invariant
            i <= b.files@.len(),
            b.files@.len() > 0,
            want == file_rows(*b),
            rows_view(rows@) == want.take(i as int),
        decreases b.files@.len() - i,
    {
        let row = file_row_of(&b.files[i], i == b.file);
        let ghost before = rows@;
        rows.push(row);
        proof {
            assert(rows@ =~= before.push(row));
            assert(rows_view(rows@) =~= rows_view(before).push(span_views(row@)));
            assert(want[i as int] == file_row(b.files@[i as int], i == b.file));
            assert(want.take(i + 1) =~= want.take(i as int).push(want[i as int]));
        }
        i = i + 1;
    }
    assert(want.take(i as int) =~= want);
    rows
}

/// Appends the rows of some lines of code.
fn push_line_rows(rows: &mut Vec<Vec<StyledSpan>>, kind: LineKind, lines: &Vec<String>)
    ensures
        rows_view(final(rows)@) == rows_view(old(rows)@) + line_rows(kind, strs(lines@)),
{
    let ghost start = rows_view(rows@);
    let mut i: usize = 0;
    while i < lines.len()
        invariant
            i <= lines@.len(),
            rows_view(rows@) == start + line_rows(kind, strs(lines@)).take(i as int),
        decreases lines@.len() - i,
    {
        let line = &lines[i];
        let row = match kind {
            LineKind::Context => {
                let mut text = owned("  ");
                push_str(&mut text, line.as_str());
                one(text, TAG_META)
            },
            LineKind::Ours => {
                let r = vec![span(owned("  "), TAG_OURS_MARGIN), span(line.clone(), TAG_OURS_CODE)];
                assert(span_views(r@) =~= line_row(kind, line@));
                r
            },
            LineKind::Theirs => {
                let r = vec![span(owned("  "), TAG_THEIRS_MARGIN), span(line.clone(), TAG_THEIRS_CODE)];
                assert(span_views(r@) =~= line_row(kind, line@));
                r
            },
        };
        assert(span_views(row@) == line_row(kind, strs(lines@)[i as int]));
        let ghost before = rows@;
        rows.push(row);
        proof {
            let want = line_rows(kind, strs(lines@));
            assert(rows@ =~= before.push(row));
            assert(rows_view(rows@) =~= rows_view(before).push(span_views(row@)));
            assert(want[i as int] == line_row(kind, strs(lines@)[i as int]));
            assert(want.take(i + 1) =~= want.take(i as int).push(want[i as int]));
            assert(start + want.take(i + 1) =~= (start + want.take(i as int)).push(want[i as int]));
        }
        i = i + 1;
    }
    assert(line_rows(kind, strs(lines@)).take(i as int) =~= line_rows(kind, strs(lines@)));
}

fn block_header_of(k: usize, count: usize, focused: bool, choice: Option<Side>) -> (r: Vec<StyledSpan>)
    requires
        k < usize::MAX,
    ensures
        span_views(r@) == block_header(k as nat, count as nat, focused, choice),
{
    let mut text = owned(if focused {
        "❯"
    } else {
        " "
    });
    push_str(&mut text, " conflict ");
    push_decimal(&mut text, k + 1);
    push_str(&mut text, "/");
    push_decimal(&mut text, count);
    match choice {
        Some(Side::Ours) => push_str(&mut text, "  · took OURS"),
        Some(Side::Theirs) => push_str(&mut text, "  · took THEIRS"),
        None => push_str(&mut text, ""),
    }
    one(text, TAG_BLOCK)
}

fn choice_of(choices: &Vec<Option<Side>>, k: usize) -> (r: Option<Side>)
    ensures
        r == choice_at(choices@, k as int),
{
    if k < choices.len() {
        choices[k]
    } else {
        None
    }
}

proof fn lemma_segment_rows_step(segs: Seq<SegmentView>, choices: Seq<Option<Side>>, block: int, k: nat, i: int)
    requires
        0 <= i < segs.len(),
    ensures
        segment_rows(segs.skip(i), choices, block, k) == match segs[i] {
            SegmentView::Context(ls) => line_rows(LineKind::Context, ls) + segment_rows(
                segs.skip(i + 1),
                choices,
                block,
                k,
            ),
            SegmentView::Conflict(ours, theirs) => block_rows(
                ours,
                theirs,
                k,
                choices.len(),
                k == block,
                choice_at(choices, k as int),
            ) + segment_rows(segs.skip(i + 1), choices, block, k + 1),
        },
{
    assert(segs.skip(i).drop_first() =~= segs.skip(i + 1));
    assert(segs.skip(i)[0] == segs[i]);
}

/// Appends the rows of a file's segments.
fn push_segment_rows(rows: &mut Vec<Vec<StyledSpan>>, f: &ConflictFile, block: usize)
    ensures
        rows_view(final(rows)@) == rows_view(old(rows)@) + segment_rows(
            segments_view(f.segments@),
            f.choices@,
            block as int,
            0,
        ),
{
    let ghost sv = segments_view(f.segments@);
    let ghost start = rows_view(rows@);
    let ghost total = segment_rows(sv, f.choices@, block as int, 0);
    let mut k: usize = 0;
    let mut i: usize = 0;
    assert(sv.skip(0) =~= sv);
    while i < f.segments.len()
        invariant
            i <= f.segments@.len(),
            k <= i,
            sv == segments_view(f.segments@),
            total == segment_rows(sv, f.choices@, block as int, 0),
            rows_view(rows@) + segment_rows(sv.skip(i as int), f.choices@, block as int, k as nat) == start
                + total,
        decreases f.segments@.len() - i,
    {
        proof {
            lemma_segment_rows_step(sv, f.choices@, block as int, k as nat, i as int);
        }
        let ghost before = rows_view(rows@);
        assert(sv[i as int] == segment_view(f.segments@[i as int]));
        match &f.segments[i] {
            Segment::Context(lines) => {
                push_line_rows(rows, LineKind::Context, lines);
                assert(rows_view(rows@) + segment_rows(sv.skip(i + 1), f.choices@, block as int, k as nat)
                    =~= before + (line_rows(LineKind::Context, strs(lines@)) + segment_rows(
                    sv.skip(i + 1),
                    f.choices@,
                    block as int,
                    k as nat,
                )));
            },
            Segment::Conflict { ours, theirs } => {
                let choice = choice_of(&f.choices, k);
                let header = block_header_of(k, f.choices.len(), k == block, choice);
                let ghost g0 = rows@;
                rows.push(header);
                proof {
                    lemma_push_row(g0, header);
                }
                let ours_heading = one(owned("  ── OURS ──"), TAG_OURS_HEADING);
                let ghost g1 = rows@;
                rows.push(ours_heading);
                proof {
                    lemma_push_row(g1, ours_heading);
                }
                let ghost v2 = rows_view(rows@);
                push_line_rows(rows, LineKind::Ours, ours);
                let theirs_heading = one(owned("  ── THEIRS ──"), TAG_THEIRS_HEADING);
                let ghost g3 = rows@;
                rows.push(theirs_heading);
                proof {
                    lemma_push_row(g3, theirs_heading);
                }
                let ghost v4 = rows_view(rows@);
                push_line_rows(rows, LineKind::Theirs, theirs);
                let blank: Vec<StyledSpan> = Vec::new();
                assert(span_views(blank@) =~= Seq::<(Seq<char>, u32)>::empty());
                let ghost g5 = rows@;
                rows.push(blank);
                proof {
                    lemma_push_row(g5, blank);
                    let lo = line_rows(LineKind::Ours, strs(ours@));
                    let lt = line_rows(LineKind::Theirs, strs(theirs@));
                    let hd = block_header(k as nat, f.choices@.len(), k == block, choice_at(f.choices@, k as int));
                    let oh: RowView = seq![("  ── OURS ──"@, TAG_OURS_HEADING)];
                    let th: RowView = seq![("  ── THEIRS ──"@, TAG_THEIRS_HEADING)];
                    assert(v2 =~= before + seq![hd, oh]);
                    assert(v4 =~= before + seq![hd, oh] + lo + seq![th]);
                    assert(rows_view(rows@) =~= before + seq![hd, oh] + lo + seq![th] + lt + seq![
                        Seq::<(Seq<char>, u32)>::empty(),
                    ]);
                    assert(rows_view(rows@) =~= before + block_rows(
                        strs(ours@),
                        strs(theirs@),
                        k as nat,
                        f.choices@.len(),
                        k == block,
                        choice_at(f.choices@, k as int),
                    ));
                }
                k = k + 1;
            },
        }
        i = i + 1;
    }
    assert(sv.skip(i as int) =~= Seq::<SegmentView>::empty());
    assert(rows_view(rows@) + Seq::<RowView>::empty() =~= rows_view(rows@));
}

/// The rows of the code column: which operation stopped, at which step of
/// a rebase; the focused file's context lines and each block with its
/// header, its own side and its incoming side; then the key hints with the
/// number of blocks still open.
pub fn conflict_code_rows(b: &ConflictBrowser) -> (r: Vec<Vec<StyledSpan>>)
    requires
        open_blocks(b.files@) <= usize::MAX,
    ensures
        rows_view(r@) == code_rows(*b),
{
    let mut rows: Vec<Vec<StyledSpan>> = Vec::new();
    let mut headline = owned(b.op.label());
    push_str(&mut headline, " in progress");
    match b.progress {
        Some((current, total)) => {
            push_str(&mut headline, " · step ");
            push_decimal(&mut headline, current);
            push_str(&mut headline, "/");
            push_decimal(&mut headline, total);
            assert(headline@ =~= op_label(b.op) + " in progress"@ + progress_text(b.progress));
        },
        None => {
            push_str(&mut headline, "");
            assert(headline@ =~= op_label(b.op) + " in progress"@ + progress_text(b.progress));
        },
    }
    let head_row = one(headline, TAG_HEADLINE);
    rows.push(head_row);
    let blank: Vec<StyledSpan> = Vec::new();
    assert(span_views(blank@) =~= Seq::<(Seq<char>, u32)>::empty());
    let ghost g0 = rows@;
    rows.push(blank);
    proof {
        lemma_push_row(g0, blank);
        assert(rows_view(g0) =~= seq![span_views(head_row@)]);
    }
    let ghost head = rows_view(rows@);
    if b.file < b.files.len() {
        push_segment_rows(&mut rows, &b.files[b.file], b.block);
    }
    let ghost mid = rows_view(rows@);
    let mut hint = owned("[o] ours · [t] theirs · [e] edit · [c] continue");
    match b.op {
        OpKind::Rebase => push_str(&mut hint, " · [s] skip"),
        _ => push_str(&mut hint, ""),
    }
    push_str(&mut hint, " · [A]/[Esc] abort — ");
    push_decimal(&mut hint, b.remaining());
    push_str(&mut hint, " left");
    let hint_line = one(hint, TAG_META);
    let ghost g1 = rows@;
    rows.push(hint_line);
    proof {
        lemma_push_row(g1, hint_line);
        let body = if b.file < b.files@.len() {
            segment_rows(segments_view(b.files@[b.file as int].segments@), b.files@[b.file as int].choices@, b.block as int, 0)
        } else {
            seq![]
        };
        assert(mid =~= head + body);
        assert(span_views(hint_line@) == hint_row(b.op, open_blocks(b.files@)));
        assert(span_views(head_row@) == seq![(op_label(b.op) + " in progress"@ + progress_text(b.progress), TAG_HEADLINE)]);
        assert(rows_view(rows@) =~= code_rows(*b));
    }
    rows
}

/// The title over the code column: the focused file's name, or "Conflict".
pub fn conflict_title(b: &ConflictBrowser) -> (r: String)
    ensures
        r@ == conflict_title_spec(*b),
{
    if b.file < b.files.len() {
        let mut r = owned(" ");
        push_str(&mut r, b.files[b.file].path.as_str());
        push_str(&mut r, " ");
        r
    } else {
        owned(" Conflict ")
    }
}

} // verus!
