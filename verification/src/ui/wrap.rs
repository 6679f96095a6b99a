//! Styled text broken into screen rows: word wrapping of a diff line, the
//! grouping of a row back into spans, and horizontal clipping.
use vstd::prelude::*;

use crate::text::{chars_of, push_char, string_of};

verus! {

/// The style tag of unstyled text.
pub const PLAIN: u32 = 0;

/// A piece of text drawn in one style; the style is a tag the caller chose.
#[derive(Debug, Clone, PartialEq, Eq)]
pub struct StyledSpan {
    pub content: String,
    pub style: u32,
}

/// A span as its characters and its style tag.
pub open spec fn span_views(spans: Seq<StyledSpan>) -> Seq<(Seq<char>, u32)> {
    spans.map_values(|s: StyledSpan| (s.content@, s.style))
}

/// Rows of spans, each as its spans' views.
pub open spec fn rows_view(rows: Seq<Vec<StyledSpan>>) -> Seq<Seq<(Seq<char>, u32)>> {
    rows.map_values(|r: Vec<StyledSpan>| span_views(r@))
}

/// Each character of some runs of text, paired with its run's style.
pub open spec fn spread(runs: Seq<(Seq<char>, u32)>) -> Seq<(char, u32)>
    decreases runs.len(),
{
    if runs.len() == 0 {
        Seq::empty()
    } else {
        spread(runs.drop_last()) + runs.last().0.map_values(|c: char| (c, runs.last().1))
    }
}

/// The characters of styled cells.
pub open spec fn chars(cells: Seq<(char, u32)>) -> Seq<char> {
    cells.map_values(|p: (char, u32)| p.0)
}

/// Styled cells grouped into maximal runs of one style, left to right.
pub open spec fn runs(cells: Seq<(char, u32)>) -> Seq<(Seq<char>, u32)>
    decreases cells.len(),
{
    if cells.len() == 0 {
        Seq::empty()
    } else {
        let prev = runs(cells.drop_last());
        let c = cells.last();
        if prev.len() > 0 && prev.last().1 == c.1 {
            prev.drop_last().push((prev.last().0.push(c.0), c.1))
        } else {
            prev.push((seq![c.0], c.1))
        }
    }
}

/// The last space in `cs[lo..=hi]`.
pub open spec fn last_space(cs: Seq<char>, lo: int, hi: int) -> Option<int>
    decreases hi - lo + 1,
{
    if hi < lo {
        None
    } else if cs[hi] == ' ' {
        Some(hi)
    } else {
        last_space(cs, lo, hi - 1)
    }
}

/// Where the row that starts at `start` ends, and where the next row
/// starts. A row holds at most `width` characters; when the text goes on
/// past them, the row breaks at the last space that leaves it non-empty
/// (dropping that space), and where there is none it breaks hard.
pub open spec fn row_break(cs: Seq<char>, start: int, width: int) -> (int, int) {
    let hard_end = if start + width < cs.len() {
        start + width
    } else {
        cs.len() as int
    };
    if hard_end == cs.len() {
        (hard_end, hard_end)
    } else {
        match last_space(cs, start + 1, hard_end) {
            Some(i) => (i, i + 1),
            None => (hard_end, hard_end),
        }
    }
}

/// The rows, as `(start, end)` character ranges, of `cs` wrapped from `start`.
pub open spec fn row_bounds(cs: Seq<char>, start: int, width: int) -> Seq<(int, int)>
    decreases cs.len() - start,
{
    if start < 0 || start >= cs.len() {
        Seq::empty()
    } else {
        let (end, next) = row_break(cs, start, width);
        if next <= start || next > cs.len() {
            seq![(start, end)]
        } else {
            seq![(start, end)] + row_bounds(cs, next, width)
        }
    }
}

/// Spans wrapped to `width` columns (at least one): each row as its spans.
/// Text with no characters still makes one, empty, row.
pub open spec fn wrapped(spans: Seq<StyledSpan>, width: int) -> Seq<Seq<(Seq<char>, u32)>> {
    let cells = spread(span_views(spans));
    let w = if width < 1 {
        1
    } else {
        width
    };
    if cells.len() == 0 {
        seq![Seq::empty()]
    } else {
        row_bounds(chars(cells), 0, w).map_values(|b: (int, int)| runs(cells.subrange(b.0, b.1)))
    }
}

/// The styled cells of some spans.
fn cells_of(spans: &[StyledSpan]) -> (out: Vec<(char, u32)>)
    ensures
        out@ == spread(span_views(spans@)),
{
    let mut out: Vec<(char, u32)> = Vec::new();
    let mut k: usize = 0;
    while k < spans.len()
        invariant
            k <= spans@.len(),
            out@ == spread(span_views(spans@.take(k as int))),
        decreases spans@.len() - k,
    {
        let cs = chars_of(spans[k].content.as_str());
        let style = spans[k].style;
        let ghost before = out@;
        let mut j: usize = 0;
        while j < cs.len()
            invariant
                j <= cs@.len(),
                cs@ == spans@[k as int].content@,
                style == spans@[k as int].style,
                out@ == before + cs@.take(j as int).map_values(|c: char| (c, style)),
            decreases cs@.len() - j,
        {
            out.push((cs[j], style));
            proof {
                assert(cs@.take(j + 1).map_values(|c: char| (c, style)) =~= cs@.take(j as int).map_values(
                    |c: char| (c, style),
                ).push((cs@[j as int], style)));
            }
            j = j + 1;
        }
        proof {
            let vs = span_views(spans@.take(k + 1));
            assert(vs.drop_last() =~= span_views(spans@.take(k as int)));
            assert(vs.last() == (cs@, style));
            assert(cs@.take(j as int) =~= cs@);
        }
        k = k + 1;
    }
    assert(spans@.take(spans@.len() as int) =~= spans@);
    out
}

/// `cells[from..to]` grouped into spans of one style.
fn runs_of(cells: &Vec<(char, u32)>, from: usize, to: usize) -> (out: Vec<StyledSpan>)
    requires
        from <= to <= cells@.len(),
    ensures
        span_views(out@) == runs(cells@.subrange(from as int, to as int)),
{
    let ghost sub = cells@.subrange(from as int, to as int);
    let mut out: Vec<StyledSpan> = Vec::new();
    let mut k = from;
    while k < to
        invariant
            from <= k <= to <= cells@.len(),
            sub == cells@.subrange(from as int, to as int),
            span_views(out@) == runs(sub.take(k - from)),
        decreases to - k,
    {
        let (c, style) = cells[k];
        proof {
            assert(sub.take(k - from + 1).drop_last() =~= sub.take(k - from));
            assert(sub.take(k - from + 1).last() == (c, style));
        }
        let n = out.len();
        if n > 0 && out[n - 1].style == style {
            let mut last = out.pop().unwrap();
            let ghost before = last.content@;
            push_char(&mut last.content, c);
            out.push(last);
            proof {
                let prev = runs(sub.take(k - from));
                assert(prev.last() == (before, style));
                assert(span_views(out@) =~= prev.drop_last().push((before.push(c), style)));
            }
        } else {
            let mut text = String::new();
            push_char(&mut text, c);
            out.push(StyledSpan { content: text, style });
            proof {
                let prev = runs(sub.take(k - from));
                assert(text@ =~= seq![c]);
                assert(span_views(out@) =~= prev.push((seq![c], style)));
            }
        }
        k = k + 1;
    }
    assert(sub.take(to - from) =~= sub);
    out
}

/// The last space in `cells[lo..=hi]`, found from the right.
fn last_space_in(cells: &Vec<(char, u32)>, lo: usize, hi: usize) -> (r: Option<usize>)
    requires
        lo <= hi + 1,
        hi < cells@.len(),
    ensures
        match r {
            Some(i) => last_space(chars(cells@), lo as int, hi as int) == Some(i as int) && lo <= i <= hi,
            None => last_space(chars(cells@), lo as int, hi as int) is None,
        },
{
    let ghost cs = chars(cells@);
    let n = cells.len();
    let mut i: usize = hi + 1;
    while i > lo
        invariant
            lo <= i <= hi + 1,
            hi < cells@.len(),
            cs == chars(cells@),
            last_space(cs, lo as int, hi as int) == last_space(cs, lo as int, i - 1),
        decreases i,
    {
        i = i - 1;
        if cells[i].0 == ' ' {
            return Some(i);
        }
    }
    None
}

/// The end of the row that starts at `start`, and where the next row starts.
fn row_end(cells: &Vec<(char, u32)>, start: usize, width: usize) -> (r: (usize, usize))
    requires
        start < cells@.len(),
        width >= 1,
    ensures
        (r.0 as int, r.1 as int) == row_break(chars(cells@), start as int, width as int),
        start < r.0 <= r.1 <= cells@.len(),
        r.1 <= r.0 + 1,
{
    let hard_end = if width < cells.len() - start {
        start + width
    } else {
        cells.len()
    };
    if hard_end == cells.len() {
        return (hard_end, hard_end);
    }
    match last_space_in(cells, start + 1, hard_end) {
        Some(i) => (i, i + 1),
        None => (hard_end, hard_end),
    }
}

/// Spans wrapped to `width` columns (a width of 0 counts as 1): rows of at
/// most that many characters, broken at the last space that fits (the space
/// is dropped) or hard inside a longer word, each row grouped back into
/// spans of one style. Text with no characters makes one empty row.
pub fn wrap_content_rows(spans: &[StyledSpan], width: usize) -> (rows: Vec<Vec<StyledSpan>>)
    ensures
        rows_view(rows@) == wrapped(spans@, width as int),
{
    let w: usize = if width == 0 {
        1
    } else {
        width
    };
    let cells = cells_of(spans);
    if cells.len() == 0 {
        let rows: Vec<Vec<StyledSpan>> = vec![Vec::new()];
        assert(rows_view(rows@) =~= seq![Seq::<(Seq<char>, u32)>::empty()]) by {
            assert(span_views(rows@[0]@) =~= Seq::<(Seq<char>, u32)>::empty());
        }
        return rows;
    }
    let ghost cs = chars(cells@);
    let ghost all = row_bounds(cs, 0, w as int);
    let ghost mut done: Seq<(int, int)> = Seq::empty();
    let mut rows: Vec<Vec<StyledSpan>> = Vec::new();
    let mut start: usize = 0;
    assert(done + all =~= all);
    while start < cells.len()
        invariant
            w >= 1,
            start <= cells@.len(),
            cs == chars(cells@),
            cells@ == spread(span_views(spans@)),
            all == row_bounds(cs, 0, w as int),
            done + row_bounds(cs, start as int, w as int) == all,
            rows_view(rows@) == done.map_values(|b: (int, int)| runs(cells@.subrange(b.0, b.1))),
        decreases cells@.len() - start,
    {
        let (end, next) = row_end(&cells, start, w);
        let row = runs_of(&cells, start, end);
        let ghost old_rows = rows@;
        let ghost row_view = span_views(row@);
        rows.push(row);
        proof {
            assert(rows_view(rows@) =~= rows_view(old_rows).push(row_view));
            assert(row_bounds(cs, start as int, w as int) == seq![(start as int, end as int)] + row_bounds(
                cs,
                next as int,
                w as int,
            ));
            let old_done = done;
            done = done.push((start as int, end as int));
            assert(done.map_values(|b: (int, int)| runs(cells@.subrange(b.0, b.1))) =~= old_done.map_values(
                |b: (int, int)| runs(cells@.subrange(b.0, b.1)),
            ).push(runs(cells@.subrange(start as int, end as int))));
            assert(done + row_bounds(cs, next as int, w as int) =~= old_done + (seq![(start as int, end as int)]
                + row_bounds(cs, next as int, w as int)));
            assert(rows_view(rows@) =~= done.map_values(|b: (int, int)| runs(cells@.subrange(b.0, b.1))));
        }
        start = next;
    }
    assert(done =~= all);
    rows
}

/// Row `k + 1` starts where row `k` ended, or one past a space dropped there.
pub open spec fn follows(cs: Seq<char>, b: Seq<(int, int)>, k: int) -> bool {
    b[k + 1].0 == b[k].1 || (b[k + 1].0 == b[k].1 + 1 && cs[b[k].1] == ' ')
}

proof fn lemma_runs_step(cells: Seq<(char, u32)>)
    requires
        cells.len() > 0,
        spread(runs(cells.drop_last())) == cells.drop_last(),
    ensures
        spread(runs(cells)) == cells,
{
    let prev = runs(cells.drop_last());
    let c = cells.last();
    if prev.len() > 0 && prev.last().1 == c.1 {
        let merged = prev.drop_last().push((prev.last().0.push(c.0), c.1));
        assert(merged.drop_last() =~= prev.drop_last());
        assert(prev.last().0.push(c.0).map_values(|x: char| (x, c.1)) =~= prev.last().0.map_values(
            |x: char| (x, prev.last().1),
        ).push((c.0, c.1)));
        assert(spread(merged) =~= spread(prev).push(c));
    } else {
        let pushed = prev.push((seq![c.0], c.1));
        assert(pushed.drop_last() =~= prev);
        assert(seq![c.0].map_values(|x: char| (x, c.1)) =~= seq![c]);
        assert(spread(pushed) =~= spread(prev).push(c));
    }
    assert(cells.drop_last().push(c) =~= cells);
}

/// Grouping cells into spans keeps each character with its style: the
/// spans are non-empty, neighbouring spans differ in style, and spelled out
/// they give the cells back.
pub proof fn law_runs_keep_styles(cells: Seq<(char, u32)>)
    ensures
        spread(runs(cells)) == cells,
        forall|k: int| 0 <= k < runs(cells).len() ==> (#[trigger] runs(cells)[k]).0.len() > 0,
        forall|k: int| 0 < k < runs(cells).len() ==> (#[trigger] runs(cells)[k]).1 != runs(cells)[k - 1].1,
    decreases cells.len(),
{
    if cells.len() > 0 {
        law_runs_keep_styles(cells.drop_last());
        lemma_runs_step(cells);
        let prev = runs(cells.drop_last());
        let c = cells.last();
        let rs = runs(cells);
        if prev.len() > 0 && prev.last().1 == c.1 {
            assert forall|k: int| 0 <= k < rs.len() implies (#[trigger] rs[k]).0.len() > 0 by {
                if k < prev.len() - 1 {
                    assert(rs[k] == prev[k]);
                }
            }
            assert forall|k: int| 0 < k < rs.len() implies (#[trigger] rs[k]).1 != rs[k - 1].1 by {
                assert(rs[k - 1] == prev[k - 1]);
                if k < prev.len() - 1 {
                    assert(rs[k] == prev[k]);
                } else {
                    assert(rs[k].1 == prev[k].1);
                }
            }
        } else {
            assert forall|k: int| 0 <= k < rs.len() implies (#[trigger] rs[k]).0.len() > 0 by {
                if k < prev.len() {
                    assert(rs[k] == prev[k]);
                }
            }
            assert forall|k: int| 0 < k < rs.len() implies (#[trigger] rs[k]).1 != rs[k - 1].1 by {
                assert(rs[k - 1] == prev[k - 1]);
                if k < prev.len() {
                    assert(rs[k] == prev[k]);
                }
            }
        }
    }
}

proof fn lemma_last_space(cs: Seq<char>, lo: int, hi: int)
    ensures
        match last_space(cs, lo, hi) {
            Some(i) => lo <= i <= hi && cs[i] == ' ',
            None => true,
        },
    decreases hi - lo + 1,
{
    if hi >= lo && cs[hi] != ' ' {
        lemma_last_space(cs, lo, hi - 1);
    }
}

proof fn lemma_rows_from(cs: Seq<char>, start: int, width: int)
    requires
        0 <= start < cs.len(),
        width >= 1,
    ensures
        ({
            let b = row_bounds(cs, start, width);
            &&& b.len() >= 1
            &&& b[0].0 == start
            &&& forall|k: int|
                0 <= k < b.len() ==> start <= (#[trigger] b[k]).0 < b[k].1 <= cs.len() && b[k].1 - b[k].0
                    <= width
            &&& forall|k: int| 0 <= k < b.len() - 1 ==> #[trigger] follows(cs, b, k)
            &&& b.last().1 == cs.len() || (b.last().1 + 1 == cs.len() && cs[b.last().1] == ' ')
        }),
    decreases cs.len() - start,
{
    let (end, next) = row_break(cs, start, width);
    let hard_end = if start + width < cs.len() {
        start + width
    } else {
        cs.len() as int
    };
    lemma_last_space(cs, start + 1, hard_end);
    assert(start < end <= next <= cs.len() && end - start <= width);
    assert(next == end || (next == end + 1 && cs[end] == ' '));
    let b = row_bounds(cs, start, width);
    if next < cs.len() {
        lemma_rows_from(cs, next, width);
        let rest = row_bounds(cs, next, width);
        assert(b == seq![(start, end)] + rest);
        assert forall|k: int| 0 <= k < b.len() implies start <= (#[trigger] b[k]).0 < b[k].1 <= cs.len()
            && b[k].1 - b[k].0 <= width by {
            if k > 0 {
                assert(b[k] == rest[k - 1]);
            }
        }
        assert forall|k: int| 0 <= k < b.len() - 1 implies #[trigger] follows(cs, b, k) by {
            assert(b[k + 1] == rest[k]);
            if k > 0 {
                assert(b[k] == rest[k - 1]);
                assert(follows(cs, rest, k - 1));
            }
        }
        assert(b.last() == rest.last());
    } else {
        assert(row_bounds(cs, next, width) =~= Seq::<(int, int)>::empty());
        assert(b =~= seq![(start, end)]);
    }
}

/// Wrapping keeps the text in order: the rows are non-empty and at most
/// `width` wide, the first starts at the beginning, each next one starts
/// where the previous ended or just past the one space dropped there, and
/// the last reaches the end of the text (or stops before one final space).
pub proof fn law_rows_tile_the_text(cs: Seq<char>, width: int)
    requires
        cs.len() > 0,
        width >= 1,
    ensures
        ({
            let b = row_bounds(cs, 0, width);
            &&& b.len() >= 1
            &&& b[0].0 == 0
            &&& forall|k: int|
                0 <= k < b.len() ==> 0 <= (#[trigger] b[k]).0 < b[k].1 <= cs.len() && b[k].1 - b[k].0 <= width
            &&& forall|k: int| 0 <= k < b.len() - 1 ==> #[trigger] follows(cs, b, k)
            &&& b.last().1 == cs.len() || (b.last().1 + 1 == cs.len() && cs[b.last().1] == ' ')
        }),
{
    lemma_rows_from(cs, 0, width);
}

/// Runs of text with their first `skip` characters dropped and cut to
/// `room` characters, each run keeping its own style; runs left with no
/// characters are left out.
pub open spec fn clipped(rs: Seq<(Seq<char>, u32)>, skip: int, room: int) -> Seq<(Seq<char>, u32)>
    decreases rs.len(),
{
    if rs.len() == 0 || room <= 0 {
        Seq::empty()
    } else {
        let t = rs[0].0;
        let k = if skip < t.len() {
            skip
        } else {
            t.len() as int
        };
        let take = if t.len() - k < room {
            t.len() - k
        } else {
            room
        };
        let here = if take > 0 {
            seq![(t.subrange(k, k + take), rs[0].1)]
        } else {
            Seq::empty()
        };
        here + clipped(rs.drop_first(), skip - k, room - take)
    }
}

/// A copy of a span.
fn copy_span(s: &StyledSpan) -> (r: StyledSpan)
    ensures
        r.content@ == s.content@,
        r.style == s.style,
{
    StyledSpan { content: s.content.clone(), style: s.style }
}

/// The spans scrolled `offset` characters to the left and cut to
/// `max_width` characters, and how many characters are left.
pub fn slice_spans(spans: Vec<StyledSpan>, offset: usize, max_width: usize) -> (r: (Vec<StyledSpan>, usize))
    ensures
        span_views(r.0@) == clipped(span_views(spans@), offset as int, max_width as int),
        r.1 == spread(span_views(r.0@)).len(),
{
    let ghost rs = span_views(spans@);
    let mut out: Vec<StyledSpan> = Vec::new();
    let mut skip = offset;
    let mut room = max_width;
    let mut k: usize = 0;
    assert(rs.skip(0) =~= rs);
    assert(span_views(out@) =~= Seq::<(Seq<char>, u32)>::empty());
    while k < spans.len()
        invariant
            k <= spans@.len(),
            rs == span_views(spans@),
            room <= max_width,
            span_views(out@) + clipped(rs.skip(k as int), skip as int, room as int) == clipped(
                rs,
                offset as int,
                max_width as int,
            ),
            max_width - room == spread(span_views(out@)).len(),
        decreases spans@.len() - k,
    {
        let ghost before = span_views(out@);
        proof {
            assert(rs.skip(k as int).drop_first() =~= rs.skip(k + 1));
            assert(rs.skip(k as int)[0] == (spans@[k as int].content@, spans@[k as int].style));
        }
        if room > 0 {
            let cs = chars_of(spans[k].content.as_str());
            let dropped = if skip < cs.len() {
                skip
            } else {
                cs.len()
            };
            let take = if cs.len() - dropped < room {
                cs.len() - dropped
            } else {
                room
            };
            if take > 0 {
                let text = string_of(&cs, dropped, dropped + take);
                let ghost piece = (text@, spans@[k as int].style);
                out.push(StyledSpan { content: text, style: spans[k].style });
                proof {
                    assert(span_views(out@) =~= before.push(piece));
                    assert(span_views(out@).drop_last() =~= before);
                    assert(before + clipped(rs.skip(k as int), skip as int, room as int) =~= before.push(piece)
                        + clipped(rs.skip(k + 1), (skip - dropped) as int, (room - take) as int));
                }
            } else {
                proof {
                    assert(before + clipped(rs.skip(k as int), skip as int, room as int) =~= before + clipped(
                        rs.skip(k + 1),
                        (skip - dropped) as int,
                        (room - take) as int,
                    ));
                }
            }
            skip = skip - dropped;
            room = room - take;
        } else {
            assert(clipped(rs.skip(k + 1), skip as int, room as int) =~= Seq::<(Seq<char>, u32)>::empty());
        }
        k = k + 1;
    }
    assert(rs.skip(k as int) =~= Seq::<(Seq<char>, u32)>::empty());
    assert(span_views(out@) + Seq::<(Seq<char>, u32)>::empty() =~= span_views(out@));
    (out, max_width - room)
}

proof fn lemma_spread_append(a: Seq<(Seq<char>, u32)>, b: Seq<(Seq<char>, u32)>)
    ensures
        spread(a + b) == spread(a) + spread(b),
    decreases b.len(),
{
    if b.len() == 0 {
        assert(a + b =~= a);
        assert(spread(a) + spread(b) =~= spread(a));
    } else {
        lemma_spread_append(a, b.drop_last());
        assert((a + b).drop_last() =~= a + b.drop_last());
        assert((a + b).last() == b.last());
        assert(spread(a + b) =~= spread(a) + spread(b));
    }
}

/// Clipping scrolls and cuts the characters themselves: spelled out, the
/// clipped spans are the characters from `skip` on, at most `room` of them,
/// each with the style it had.
pub proof fn law_clipping_takes_the_window(rs: Seq<(Seq<char>, u32)>, skip: int, room: int)
    requires
        skip >= 0,
        room >= 0,
    ensures
        ({
            let all = spread(rs);
            let lo = if skip < all.len() {
                skip
            } else {
                all.len() as int
            };
            let hi = if skip + room < all.len() {
                skip + room
            } else {
                all.len() as int
            };
            spread(clipped(rs, skip, room)) == all.subrange(lo, hi)
        }),
    decreases rs.len(),
{
    if rs.len() == 0 || room == 0 {
        assert(spread(clipped(rs, skip, room)) =~= Seq::<(char, u32)>::empty());
    } else {
        let t = rs[0].0;
        let style = rs[0].1;
        let rest = rs.drop_first();
        let k = if skip < t.len() {
            skip
        } else {
            t.len() as int
        };
        let take = if t.len() - k < room {
            t.len() - k
        } else {
            room
        };
        law_clipping_takes_the_window(rest, skip - k, room - take);
        let tc = t.map_values(|c: char| (c, style));
        let r = spread(rest);
        assert(rs =~= seq![rs[0]] + rest);
        lemma_spread_append(seq![rs[0]], rest);
        assert(seq![rs[0]].drop_last() =~= Seq::<(Seq<char>, u32)>::empty());
        assert(seq![rs[0]].last() == rs[0]);
        assert(spread(Seq::<(Seq<char>, u32)>::empty()) == Seq::<(char, u32)>::empty());
        assert(Seq::<(char, u32)>::empty() + tc =~= tc);
        assert(spread(seq![rs[0]]) =~= tc);
        assert(spread(rs) == tc + r);
        let here: Seq<(Seq<char>, u32)> = if take > 0 {
            seq![(t.subrange(k, k + take), style)]
        } else {
            Seq::empty()
        };
        let after = clipped(rest, skip - k, room - take);
        assert(clipped(rs, skip, room) == here + after);
        lemma_spread_append(here, after);
        if take > 0 {
            assert(here.drop_last() =~= Seq::<(Seq<char>, u32)>::empty());
            assert(spread(here) =~= tc.subrange(k, k + take));
        } else {
            assert(spread(here) =~= tc.subrange(k, k + take));
        }
        let all = tc + r;
        let lo = if skip < all.len() {
            skip
        } else {
            all.len() as int
        };
        let hi = if skip + room < all.len() {
            skip + room
        } else {
            all.len() as int
        };
        let lo2 = if skip - k < r.len() {
            skip - k
        } else {
            r.len() as int
        };
        let hi2 = if skip - k + room - take < r.len() {
            skip - k + room - take
        } else {
            r.len() as int
        };
        assert(spread(after) == r.subrange(lo2, hi2));
        assert(tc.subrange(k, k + take) + r.subrange(lo2, hi2) =~= all.subrange(lo, hi));
    }
}

/// `n` spaces.
pub open spec fn blank(n: nat) -> Seq<char> {
    Seq::new(n, |i: int| ' ')
}

/// The rows of a diff line: its body wrapped to what the gutter leaves of
/// `width` (at least one column), the gutter in front of the first row and
/// as many unstyled spaces in front of each later one.
pub open spec fn diff_body_rows(gutter: StyledSpan, content: Seq<StyledSpan>, width: int) -> Seq<
    Seq<(Seq<char>, u32)>,
> {
    let gw = gutter.content@.len();
    let body = wrapped(content, width - gw);
    Seq::new(
        body.len(),
        |k: int|
            if k == 0 {
                seq![(gutter.content@, gutter.style)] + body[k]
            } else {
                seq![(blank(gw), PLAIN)] + body[k]
            },
    )
}

/// A string of `n` spaces.
fn spaces(n: usize) -> (r: String)
    ensures
        r@ == blank(n as nat),
{
    let mut r = String::new();
    let mut i: usize = 0;
    while i < n
        invariant
            i <= n,
            r@ == blank(i as nat),
        decreases n - i,
    {
        push_char(&mut r, ' ');
        i = i + 1;
        assert(r@ =~= blank(i as nat));
    }
    r
}

/// A diff line's body wrapped under its gutter: the gutter leads the first
/// row, and a blank gutter as wide leads each row after it.
pub fn wrap_diff_body(gutter: StyledSpan, content: Vec<StyledSpan>, width: usize) -> (lines: Vec<Vec<StyledSpan>>)
    ensures
        rows_view(lines@) == diff_body_rows(gutter, content@, width as int),
{
    let gutter_chars = chars_of(gutter.content.as_str());
    let gutter_width = gutter_chars.len();
    let content_width = if width > gutter_width {
        width - gutter_width
    } else {
        0
    };
    let rows = wrap_content_rows(&content, content_width);
    let ghost body = wrapped(content@, width - gutter_width);
    assert(rows_view(rows@) == body) by {
        if width <= gutter_width {
            assert(wrapped(content@, content_width as int) == wrapped(content@, width - gutter_width));
        }
    }
    let ghost want = diff_body_rows(gutter, content@, width as int);
    let mut lines: Vec<Vec<StyledSpan>> = Vec::new();
    let mut k: usize = 0;
    while k < rows.len()
        invariant
            k <= rows@.len(),
            rows_view(rows@) == body,
            body.len() == want.len(),
            gutter_width == gutter.content@.len(),
            want == diff_body_rows(gutter, content@, width as int),
            body == wrapped(content@, width - gutter_width),
            rows_view(lines@) == want.take(k as int),
        decreases rows@.len() - k,
    {
        let mut line: Vec<StyledSpan> = Vec::new();
        if k == 0 {
            line.push(copy_span(&gutter));
        } else {
            line.push(StyledSpan { content: spaces(gutter_width), style: PLAIN });
        }
        let row = &rows[k];
        let mut j: usize = 0;
        while j < row.len()
            invariant
                j <= row@.len(),
                row@ == rows@[k as int]@,
                line@.len() == j + 1,
                span_views(line@) == span_views(line@.take(1)) + span_views(row@.take(j as int)),
                span_views(line@.take(1)) == (if k == 0 {
                    seq![(gutter.content@, gutter.style)]
                } else {
                    seq![(blank(gutter_width as nat), PLAIN)]
                }),
            decreases row@.len() - j,
        {
            let ghost before = line@;
            line.push(copy_span(&row[j]));
            proof {
                assert(line@.take(1) =~= before.take(1));
                assert(span_views(row@.take(j + 1)) =~= span_views(row@.take(j as int)).push(
                    (row@[j as int].content@, row@[j as int].style),
                ));
                assert(span_views(line@) =~= span_views(before).push((row@[j as int].content@, row@[j as int].style)));
            }
            j = j + 1;
        }
        proof {
            assert(row@.take(j as int) =~= row@);
            assert(span_views(row@) == body[k as int]);
        }
        let ghost old_lines = lines@;
        let ghost line_view = span_views(line@);
        lines.push(line);
        proof {
            assert(rows_view(lines@) =~= rows_view(old_lines).push(line_view));
            assert(want.take(k + 1) =~= want.take(k as int).push(want[k as int]));
        }
        k = k + 1;
    }
    assert(want.take(k as int) =~= want);
    lines
}

} // verus!
