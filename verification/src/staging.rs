//! Diff hunks: the side-by-side view of a hunk's lines, and the patch that
//! stages (or unstages, or discards) a chosen set of hunks.
use vstd::prelude::*;
use vstd::string::StrSliceExecFns;

use crate::text::{push_char, push_str, strs, unlines};

verus! {

#[derive(Debug, Clone, PartialEq, Eq)]
pub struct Hunk {
    pub header: String,
    pub lines: Vec<String>,
}

#[derive(Debug, Clone, PartialEq, Eq)]
pub struct FileDiff {
    pub old_path: String,
    pub new_path: String,
    pub hunks: Vec<Hunk>,
}

#[derive(Debug, Clone, PartialEq, Eq)]
pub struct SplitRow {
    pub left: Option<String>,
    pub right: Option<String>,
}

/// The first character of a diff line (`' '` for an empty line).
pub open spec fn marker(l: Seq<char>) -> char {
    if l.len() > 0 {
        l[0]
    } else {
        ' '
    }
}

/// A diff line without its marker.
pub open spec fn content(l: Seq<char>) -> Seq<char> {
    if l.len() > 0 {
        l.drop_first()
    } else {
        l
    }
}

/// The marker of a diff line: `+`, `-`, or anything else for context.
pub fn marker_of(line: &str) -> (c: char)
    ensures
        c == marker(line@),
{
    if line.unicode_len() > 0 {
        line.get_char(0)
    } else {
        ' '
    }
}

/// A diff line without its marker.
pub fn content_of(line: &str) -> (r: &str)
    ensures
        r@ == content(line@),
{
    let n = line.unicode_len();
    if n > 0 {
        let r = line.substring_char(1, n);
        assert(line@.subrange(1, n as int) =~= line@.drop_first());
        r
    } else {
        line
    }
}

// ---------------------------------------------------------------------------
// Side-by-side rows
// ---------------------------------------------------------------------------

/// The end of the run of lines marked `m` that starts at `i`.
pub open spec fn run_end(ls: Seq<Seq<char>>, i: int, m: char) -> int
    decreases ls.len() - i,
{
    if 0 <= i < ls.len() && marker(ls[i]) == m {
        run_end(ls, i + 1, m)
    } else {
        i
    }
}

pub proof fn lemma_run_end(ls: Seq<Seq<char>>, i: int, m: char)
    requires
        0 <= i <= ls.len(),
    ensures
        i <= run_end(ls, i, m) <= ls.len(),
        forall|j: int| i <= j < run_end(ls, i, m) ==> marker(#[trigger] ls[j]) == m,
        run_end(ls, i, m) < ls.len() ==> marker(ls[run_end(ls, i, m)]) != m,
    decreases ls.len() - i,
{
    if i < ls.len() && marker(ls[i]) == m {
        lemma_run_end(ls, i + 1, m);
    }
}

pub type RowView = (Option<Seq<char>>, Option<Seq<char>>);

/// The `k`-th line of `ls[lo..hi]`, if there is one.
pub open spec fn nth_in(ls: Seq<Seq<char>>, lo: int, hi: int, k: int) -> Option<Seq<char>> {
    if lo + k < hi {
        Some(ls[lo + k])
    } else {
        None
    }
}

/// The side-by-side rows of the lines from `i` on: a run of removals and the
/// run of additions right after it pair up row by row; an addition on its
/// own fills only the right; context fills both.
pub open spec fn rows_from(ls: Seq<Seq<char>>, i: int) -> Seq<RowView>
    decreases ls.len() - i,
{
    if i < 0 || i >= ls.len() {
        seq![]
    } else if marker(ls[i]) == '-' {
        proof {
            lemma_run_end(ls, i, '-');
            lemma_run_end(ls, run_end(ls, i, '-'), '+');
        }
        let r = run_end(ls, i, '-');
        let a = run_end(ls, r, '+');
        let n = if r - i >= a - r {
            r - i
        } else {
            a - r
        };
        Seq::new(n as nat, |k: int| (nth_in(ls, i, r, k), nth_in(ls, r, a, k))) + rows_from(ls, a)
    } else if marker(ls[i]) == '+' {
        seq![(None, Some(ls[i]))] + rows_from(ls, i + 1)
    } else {
        seq![(Some(ls[i]), Some(ls[i]))] + rows_from(ls, i + 1)
    }
}

pub open spec fn opt_view(o: Option<String>) -> Option<Seq<char>> {
    match o {
        Some(s) => Some(s@),
        None => None,
    }
}

pub open spec fn split_row_view(r: SplitRow) -> RowView {
    (opt_view(r.left), opt_view(r.right))
}

fn run_end_of(lines: &[String], i: usize, m: char) -> (r: usize)
    requires
        i <= lines@.len(),
    ensures
        r == run_end(strs(lines@), i as int, m),
{
    let ghost ls = strs(lines@);
    proof {
        lemma_run_end(ls, i as int, m);
    }
    let mut j = i;
    while j < lines.len() && marker_of(lines[j].as_str()) == m
        invariant
            i <= j <= lines@.len(),
            ls == strs(lines@),
            run_end(ls, j as int, m) == run_end(ls, i as int, m),
        decreases lines@.len() - j,
    {
        j = j + 1;
    }
    j
}

/// The side-by-side rows of a hunk's lines.
pub fn split_rows(lines: &[String]) -> (rows: Vec<SplitRow>)
    ensures
        rows@.map_values(|r: SplitRow| split_row_view(r)) == rows_from(strs(lines@), 0),
{
    let ghost ls = strs(lines@);
    let mut rows: Vec<SplitRow> = Vec::new();
    let mut index: usize = 0;
    assert(rows@.map_values(|r: SplitRow| split_row_view(r)) + rows_from(ls, 0) =~= rows_from(ls, 0));
    while index < lines.len()
        invariant
            index <= lines@.len(),
            ls == strs(lines@),
            rows_from(ls, 0) == rows@.map_values(|r: SplitRow| split_row_view(r)) + rows_from(
                ls,
                index as int,
            ),
        decreases lines@.len() - index,
    {
        let ghost before = rows@.map_values(|r: SplitRow| split_row_view(r));
        let m = marker_of(lines[index].as_str());
        if m == '-' {
            let removed_end = run_end_of(lines, index, '-');
            proof {
                lemma_run_end(ls, index as int, '-');
            }
            let added_end = run_end_of(lines, removed_end, '+');
            proof {
                lemma_run_end(ls, removed_end as int, '+');
            }
            let removed = removed_end - index;
            let added = added_end - removed_end;
            let n = if removed >= added {
                removed
            } else {
                added
            };
            let ghost block = Seq::new(
                n as nat,
                |k: int|
                    (
                        nth_in(ls, index as int, removed_end as int, k),
                        nth_in(ls, removed_end as int, added_end as int, k),
                    ),
            );
            let mut k: usize = 0;
            while k < n
                invariant
                    k <= n,
                    index + removed == removed_end,
                    removed_end + added == added_end,
                    added_end <= lines@.len(),
                    ls == strs(lines@),
                    block.len() == n,
                    forall|q: int|
                        0 <= q < n ==> #[trigger] block[q] == (
                            nth_in(ls, index as int, removed_end as int, q),
                            nth_in(ls, removed_end as int, added_end as int, q),
                        ),
                    rows@.map_values(|r: SplitRow| split_row_view(r)) == before + block.take(
                        k as int,
                    ),
                decreases n - k,
            {
                let left = if k < removed {
                    Some(lines[index + k].clone())
                } else {
                    None
                };
                let right = if k < added {
                    Some(lines[removed_end + k].clone())
                } else {
                    None
                };
                let row = SplitRow { left, right };
                let ghost prev = rows@.map_values(|r: SplitRow| split_row_view(r));
                rows.push(row);
                assert(split_row_view(row) == block[k as int]);
                k = k + 1;
                assert(rows@.map_values(|r: SplitRow| split_row_view(r)) =~= prev.push(
                    block[k - 1],
                ));
                assert(block.take(k as int) =~= block.take(k - 1).push(block[k - 1]));
            }
            assert(block.take(n as int) =~= block);
            assert(rows_from(ls, index as int) == block + rows_from(ls, added_end as int));
            assert(rows_from(ls, 0) =~= rows@.map_values(|r: SplitRow| split_row_view(r))
                + rows_from(ls, added_end as int));
            index = added_end;
        } else if m == '+' {
            let row = SplitRow { left: None, right: Some(lines[index].clone()) };
            rows.push(row);
            assert(rows@.map_values(|r: SplitRow| split_row_view(r)) =~= before.push(
                split_row_view(row),
            ));
            assert(rows_from(ls, 0) =~= rows@.map_values(|r: SplitRow| split_row_view(r))
                + rows_from(ls, index + 1));
            index = index + 1;
        } else {
            let row = SplitRow { left: Some(lines[index].clone()), right: Some(lines[index].clone()) };
            rows.push(row);
            assert(rows@.map_values(|r: SplitRow| split_row_view(r)) =~= before.push(
                split_row_view(row),
            ));
            assert(rows_from(ls, 0) =~= rows@.map_values(|r: SplitRow| split_row_view(r))
                + rows_from(ls, index + 1));
            index = index + 1;
        }
    }
    assert(rows_from(ls, index as int) =~= Seq::<RowView>::empty());
    assert(rows_from(ls, 0) =~= rows@.map_values(|r: SplitRow| split_row_view(r)));
    rows
}

// ---------------------------------------------------------------------------
// Patches
// ---------------------------------------------------------------------------

/// A hunk as the spec sees it: header and lines.
pub open spec fn hunk_view(h: Hunk) -> (Seq<char>, Seq<Seq<char>>) {
    (h.header@, strs(h.lines@))
}

/// The header of a patch of one file.
pub open spec fn patch_header(old: Seq<char>, new: Seq<char>) -> Seq<char> {
    "diff --git a/"@ + old + " b/"@ + new + "\n--- a/"@ + old + "\n+++ b/"@ + new + "\n"@
}

/// A hunk as it stands in a patch: its header and its lines, each ended by a line feed.
pub open spec fn hunk_text(h: (Seq<char>, Seq<Seq<char>>)) -> Seq<char> {
    h.0.push('\n') + unlines(h.1)
}

/// The selected hunks in the order selected; indexes past the end are skipped.
pub open spec fn patch_body(hunks: Seq<(Seq<char>, Seq<Seq<char>>)>, selected: Seq<usize>) -> Seq<char>
    decreases selected.len(),
{
    if selected.len() == 0 {
        seq![]
    } else {
        patch_body(hunks, selected.drop_last()) + if selected.last() < hunks.len() {
            hunk_text(hunks[selected.last() as int])
        } else {
            seq![]
        }
    }
}

pub open spec fn hunks_view(hs: Seq<Hunk>) -> Seq<(Seq<char>, Seq<Seq<char>>)> {
    hs.map_values(|h: Hunk| hunk_view(h))
}

/// The patch of one file holding the selected hunks.
pub fn build_patch(diff: &FileDiff, selected: &[usize]) -> (patch: String)
    ensures
        patch@ == patch_header(diff.old_path@, diff.new_path@) + patch_body(
            hunks_view(diff.hunks@),
            selected@,
        ),
{
    let mut patch = String::new();
    push_str(&mut patch, "diff --git a/");
    push_str(&mut patch, diff.old_path.as_str());
    push_str(&mut patch, " b/");
    push_str(&mut patch, diff.new_path.as_str());
    push_str(&mut patch, "\n--- a/");
    push_str(&mut patch, diff.old_path.as_str());
    push_str(&mut patch, "\n+++ b/");
    push_str(&mut patch, diff.new_path.as_str());
    push_str(&mut patch, "\n");
    let ghost head = patch_header(diff.old_path@, diff.new_path@);
    assert(patch@ =~= head + patch_body(hunks_view(diff.hunks@), selected@.take(0)));
    let mut k: usize = 0;
    while k < selected.len()
        invariant
            k <= selected@.len(),
            head == patch_header(diff.old_path@, diff.new_path@),
            patch@ == head + patch_body(hunks_view(diff.hunks@), selected@.take(k as int)),
        decreases selected@.len() - k,
    {
        let index = selected[k];
        let ghost before = patch@;
        if index < diff.hunks.len() {
            let hunk = &diff.hunks[index];
            push_str(&mut patch, hunk.header.as_str());
            push_char(&mut patch, '\n');
            let mut j: usize = 0;
            let ghost mid = patch@;
            assert(strs(hunk.lines@).take(0) =~= Seq::<Seq<char>>::empty());
            while j < hunk.lines.len()
                invariant
                    j <= hunk.lines@.len(),
                    patch@ == mid + unlines(strs(hunk.lines@).take(j as int)),
                decreases hunk.lines@.len() - j,
            {
                let ghost p = patch@;
                push_str(&mut patch, hunk.lines[j].as_str());
                push_char(&mut patch, '\n');
                j = j + 1;
                proof {
                    let t = strs(hunk.lines@).take(j as int);
                    assert(t.drop_last() =~= strs(hunk.lines@).take(j - 1));
                    assert(t.last() == hunk.lines@[j - 1]@);
                    assert(patch@ =~= p + hunk.lines@[j - 1]@.push('\n'));
                }
            }
            assert(strs(hunk.lines@).take(j as int) =~= strs(hunk.lines@));
            assert(hunks_view(diff.hunks@)[index as int] == hunk_view(*hunk));
            assert(patch@ =~= before + hunk_text(hunk_view(*hunk)));
        }
        k = k + 1;
        proof {
            let t = selected@.take(k as int);
            assert(t.drop_last() =~= selected@.take(k - 1));
            assert(t.last() == index);
        }
    }
    assert(selected@.take(k as int) =~= selected@);
    patch
}

// ---------------------------------------------------------------------------
// Each side of the side-by-side view keeps its lines
// ---------------------------------------------------------------------------

/// The lines present in a column of cells, top to bottom.
pub open spec fn column(cells: Seq<Option<Seq<char>>>) -> Seq<Seq<char>>
    decreases cells.len(),
{
    if cells.len() == 0 {
        seq![]
    } else {
        (match cells[0] {
            Some(l) => seq![l],
            None => seq![],
        }) + column(cells.drop_first())
    }
}

/// The left cells of some rows.
pub open spec fn lefts(rows: Seq<RowView>) -> Seq<Option<Seq<char>>> {
    rows.map_values(|r: RowView| r.0)
}

/// The right cells of some rows.
pub open spec fn rights(rows: Seq<RowView>) -> Seq<Option<Seq<char>>> {
    rows.map_values(|r: RowView| r.1)
}

/// The lines from `i` on whose marker is not `excluded`: with `+` excluded
/// the old side of a hunk, with `-` excluded the new side.
pub open spec fn side_lines(ls: Seq<Seq<char>>, i: int, excluded: char) -> Seq<Seq<char>>
    decreases ls.len() - i,
{
    if i < 0 || i >= ls.len() {
        seq![]
    } else {
        (if marker(ls[i]) != excluded {
            seq![ls[i]]
        } else {
            seq![]
        }) + side_lines(ls, i + 1, excluded)
    }
}

proof fn lemma_column_append(a: Seq<Option<Seq<char>>>, b: Seq<Option<Seq<char>>>)
    ensures
        column(a + b) == column(a) + column(b),
    decreases a.len(),
{
    if a.len() == 0 {
        assert(a + b =~= b);
        assert(column(a) + column(b) =~= column(b));
    } else {
        lemma_column_append(a.drop_first(), b);
        assert((a + b).drop_first() =~= a.drop_first() + b);
        assert((a + b)[0] == a[0]);
        let head: Seq<Seq<char>> = match a[0] {
            Some(l) => seq![l],
            None => seq![],
        };
        assert(head + (column(a.drop_first()) + column(b)) =~= (head + column(a.drop_first())) + column(b));
    }
}

/// A column of `n` cells holding `ls[lo..hi]` first and nothing after.
proof fn lemma_column_window(ls: Seq<Seq<char>>, lo: int, hi: int, n: int)
    requires
        0 <= lo <= hi <= ls.len(),
        hi - lo <= n,
    ensures
        column(Seq::new(n as nat, |k: int| nth_in(ls, lo, hi, k))) == ls.subrange(lo, hi),
    decreases n,
{
    let cells = Seq::new(n as nat, |k: int| nth_in(ls, lo, hi, k));
    if n == 0 {
        assert(ls.subrange(lo, hi) =~= Seq::<Seq<char>>::empty());
    } else if lo < hi {
        lemma_column_window(ls, lo + 1, hi, n - 1);
        assert(cells.drop_first() =~= Seq::new((n - 1) as nat, |k: int| nth_in(ls, lo + 1, hi, k)));
        assert(cells[0] == Some(ls[lo]));
        assert(seq![ls[lo]] + ls.subrange(lo + 1, hi) =~= ls.subrange(lo, hi));
    } else {
        lemma_column_window(ls, lo, hi, n - 1);
        assert(cells.drop_first() =~= Seq::new((n - 1) as nat, |k: int| nth_in(ls, lo, hi, k)));
        assert(cells[0] is None);
        assert(Seq::<Seq<char>>::empty() + column(cells.drop_first()) =~= column(cells.drop_first()));
    }
}

proof fn lemma_side_run_kept(ls: Seq<Seq<char>>, i: int, j: int, excluded: char)
    requires
        0 <= i <= j <= ls.len(),
        forall|k: int| i <= k < j ==> marker(#[trigger] ls[k]) != excluded,
    ensures
        side_lines(ls, i, excluded) == ls.subrange(i, j) + side_lines(ls, j, excluded),
    decreases j - i,
{
    if i == j {
        assert(ls.subrange(i, j) + side_lines(ls, j, excluded) =~= side_lines(ls, j, excluded));
    } else {
        lemma_side_run_kept(ls, i + 1, j, excluded);
        assert(seq![ls[i]] + (ls.subrange(i + 1, j) + side_lines(ls, j, excluded)) =~= ls.subrange(i, j)
            + side_lines(ls, j, excluded));
    }
}

proof fn lemma_side_run_dropped(ls: Seq<Seq<char>>, i: int, j: int, excluded: char)
    requires
        0 <= i <= j <= ls.len(),
        forall|k: int| i <= k < j ==> marker(#[trigger] ls[k]) == excluded,
    ensures
        side_lines(ls, i, excluded) == side_lines(ls, j, excluded),
    decreases j - i,
{
    if i < j {
        lemma_side_run_dropped(ls, i + 1, j, excluded);
        assert(Seq::<Seq<char>>::empty() + side_lines(ls, i + 1, excluded) =~= side_lines(ls, i + 1, excluded));
    }
}

proof fn lemma_sides_from(ls: Seq<Seq<char>>, i: int)
    requires
        0 <= i <= ls.len(),
    ensures
        column(lefts(rows_from(ls, i))) == side_lines(ls, i, '+'),
        column(rights(rows_from(ls, i))) == side_lines(ls, i, '-'),
    decreases ls.len() - i,
{
    if i < ls.len() {
        let l = ls[i];
        if marker(l) == '-' {
            lemma_run_end(ls, i, '-');
            let r = run_end(ls, i, '-');
            lemma_run_end(ls, r, '+');
            let a = run_end(ls, r, '+');
            let n = if r - i >= a - r {
                r - i
            } else {
                a - r
            };
            let block = Seq::new(n as nat, |k: int| (nth_in(ls, i, r, k), nth_in(ls, r, a, k)));
            let rest = rows_from(ls, a);
            assert(rows_from(ls, i) == block + rest);
            lemma_sides_from(ls, a);
            assert(lefts(block + rest) =~= lefts(block) + lefts(rest));
            assert(rights(block + rest) =~= rights(block) + rights(rest));
            assert(lefts(block) =~= Seq::new(n as nat, |k: int| nth_in(ls, i, r, k)));
            assert(rights(block) =~= Seq::new(n as nat, |k: int| nth_in(ls, r, a, k)));
            lemma_column_append(lefts(block), lefts(rest));
            lemma_column_append(rights(block), rights(rest));
            lemma_column_window(ls, i, r, n);
            lemma_column_window(ls, r, a, n);
            lemma_side_run_kept(ls, i, r, '+');
            lemma_side_run_dropped(ls, r, a, '+');
            lemma_side_run_dropped(ls, i, r, '-');
            lemma_side_run_kept(ls, r, a, '-');
        } else {
            lemma_sides_from(ls, i + 1);
            let row: RowView = if marker(l) == '+' {
                (None, Some(l))
            } else {
                (Some(l), Some(l))
            };
            let rest = rows_from(ls, i + 1);
            assert(rows_from(ls, i) == seq![row] + rest);
            assert(lefts(seq![row] + rest) =~= seq![row.0] + lefts(rest));
            assert(rights(seq![row] + rest) =~= seq![row.1] + rights(rest));
            assert((seq![row.0] + lefts(rest)).drop_first() =~= lefts(rest));
            assert((seq![row.1] + rights(rest)).drop_first() =~= rights(rest));
        }
    }
}

/// The side-by-side view drops no line: its left column is the hunk's old
/// side (context and removals) and its right column the new side (context
/// and additions), each in order.
pub proof fn law_split_rows_keep_each_side(ls: Seq<Seq<char>>)
    ensures
        column(lefts(rows_from(ls, 0))) == side_lines(ls, 0, '+'),
        column(rights(rows_from(ls, 0))) == side_lines(ls, 0, '-'),
{
    lemma_sides_from(ls, 0);
}


/// The shape of a side-by-side row: never empty on both sides; a context
/// line on both sides alike; otherwise a removed line on the left, an added
/// line on the right, or a removed line paired with an added one.
pub open spec fn row_shape(row: RowView) -> bool {
    match row {
        (None, None) => false,
        (Some(l), None) => marker(l) == '-',
        (None, Some(r)) => marker(r) == '+',
        (Some(l), Some(r)) => (l == r && marker(l) != '-' && marker(l) != '+') || (marker(l) == '-'
            && marker(r) == '+'),
    }
}

proof fn lemma_shapes_from(ls: Seq<Seq<char>>, i: int)
    requires
        0 <= i <= ls.len(),
    ensures
        forall|k: int| 0 <= k < rows_from(ls, i).len() ==> row_shape(#[trigger] rows_from(ls, i)[k]),
    decreases ls.len() - i,
{
    if i < ls.len() {
        let l = ls[i];
        if marker(l) == '-' {
            lemma_run_end(ls, i, '-');
            let r = run_end(ls, i, '-');
            lemma_run_end(ls, r, '+');
            let a = run_end(ls, r, '+');
            let n = if r - i >= a - r {
                r - i
            } else {
                a - r
            };
            let block = Seq::new(n as nat, |k: int| (nth_in(ls, i, r, k), nth_in(ls, r, a, k)));
            let rest = rows_from(ls, a);
            assert(rows_from(ls, i) == block + rest);
            lemma_shapes_from(ls, a);
            assert forall|k: int| 0 <= k < (block + rest).len() implies row_shape(#[trigger] (block + rest)[k]) by {
                if k < block.len() {
                    assert((block + rest)[k] == block[k]);
                    if i + k < r {
                        assert(marker(ls[i + k]) == '-');
                    }
                    if r + k < a {
                        assert(marker(ls[r + k]) == '+');
                    }
                } else {
                    assert((block + rest)[k] == rest[k - block.len()]);
                }
            }
        } else {
            lemma_shapes_from(ls, i + 1);
            let row: RowView = if marker(l) == '+' {
                (None, Some(l))
            } else {
                (Some(l), Some(l))
            };
            let rest = rows_from(ls, i + 1);
            assert(rows_from(ls, i) == seq![row] + rest);
            assert forall|k: int| 0 <= k < (seq![row] + rest).len() implies row_shape(#[trigger] (seq![row] + rest)[k]) by {
                if k > 0 {
                    assert((seq![row] + rest)[k] == rest[k - 1]);
                }
            }
        }
    }
}

/// Every side-by-side row has a line on at least one side: a context line
/// shows alike on both sides, a lone removal only on the left, a lone
/// addition only on the right, and a row with two different lines pairs a
/// removal with an addition.
pub proof fn law_split_rows_are_well_shaped(ls: Seq<Seq<char>>)
    ensures
        forall|k: int| 0 <= k < rows_from(ls, 0).len() ==> row_shape(#[trigger] rows_from(ls, 0)[k]),
{
    lemma_shapes_from(ls, 0);
}

} // verus!
