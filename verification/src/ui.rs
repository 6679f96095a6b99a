//! What the screen shows, as text: the graph's ref pills and columns, and
//! the small formatting rules of the panels.
use vstd::prelude::*;

use std::ops::Range;
use vstd::string::StringSliceAdditionalSpecFns;

use crate::enrich::{WordKind, coalesced, emphasis_added, emphasis_removed, emphasis_spec, word_changes, word_diff};
use crate::staging::{FileDiff, content, content_of, lemma_run_end, marker, marker_of, run_end};
use crate::stash::{StashEntry, StashView, MessageView, message_view};
use crate::text::{chars_of, decimal, push_decimal, push_decimal_u64, push_str, strs};

pub mod branch_text;
pub mod commit_row;
pub mod conflict_view;
pub mod diff_pane;
pub mod stash_text;
pub mod graph_view;
pub mod wrap;

verus! {

/// How many rows a stash card takes.
pub const CARD_ROWS: usize = 2;

/// The FNV-1a hash of some bytes.
pub open spec fn fnv_spec(bs: Seq<u8>) -> u32
    decreases bs.len(),
{
    if bs.len() == 0 {
        2_166_136_261u32
    } else {
        (fnv_spec(bs.drop_last()) ^ (bs.last() as u32)).wrapping_mul(16_777_619)
    }
}

/// The 32-bit FNV-1a hash of a text's UTF-8 bytes.
pub fn fnv1a(text: &str) -> (r: u32)
    ensures
        r == fnv_spec(text.spec_bytes()),
{
    let bytes = text.as_bytes();
    let mut hash: u32 = 2_166_136_261;
    let mut k: usize = 0;
    assert(bytes@.take(0) =~= Seq::<u8>::empty());
    while k < bytes.len()
        invariant
            k <= bytes@.len(),
            bytes@ == text.spec_bytes(),
            hash == fnv_spec(bytes@.take(k as int)),
        decreases bytes@.len() - k,
    {
        let mixed = hash ^ (bytes[k] as u32);
        let next = mixed.wrapping_mul(16_777_619);
        proof {
            assert(bytes@.take(k + 1).drop_last() =~= bytes@.take(k as int));
            assert(bytes@.take(k + 1).last() == bytes@[k as int]);
        }
        hash = next;
        k = k + 1;
    }
    assert(bytes@.take(k as int) =~= bytes@);
    hash
}

/// Where a stash entry came from: its branch, else the commit it was made
/// on, else nothing known.
pub fn stash_origin(entry: &StashEntry) -> (r: String)
    ensures
        r@ == match entry.branch {
            Some(b) => b@,
            None => match message_view(entry.message) {
                MessageView::Auto(id, _) => id,
                MessageView::Named(_) => "detached"@,
            },
        },
{
    match &entry.branch {
        Some(branch) => branch.clone(),
        None => match entry.message.base_id() {
            Some(base) => base.to_owned(),
            None => "detached".to_owned(),
        },
    }
}

/// A count of files in words.
pub fn file_word(count: usize) -> (r: String)
    ensures
        r@ == (if count == 1 {
            "1 file"@
        } else {
            decimal(count as nat) + " files"@
        }),
{
    if count == 1 {
        "1 file".to_owned()
    } else {
        let mut out = String::new();
        push_decimal(&mut out, count);
        push_str(&mut out, " files");
        out
    }
}

/// The stash cards that fit in `rows`, as a range of entries: at least
/// one, centred on the selection where the list allows.
pub open spec fn card_window_spec(total: int, selected: int, rows: int) -> (int, int) {
    let cap = if total > 1 { total } else { 1 };
    let fit = rows / CARD_ROWS as int;
    let visible = if fit < 1 { 1 } else if fit > cap { cap } else { fit };
    let back = if selected >= visible / 2 { selected - visible / 2 } else { 0 };
    let latest = if total >= visible { total - visible } else { 0 };
    let first = if back <= latest { back } else { latest };
    let end = if first + visible <= total { first + visible } else { total };
    (first, end)
}

pub fn card_window(view: &StashView, rows: usize) -> (r: Range<usize>)
    ensures
        (r.start as int, r.end as int) == card_window_spec(
            view.panel.entries@.len() as int,
            view.panel.selected as int,
            rows as int,
        ),
{
    let total = view.panel.entries.len();
    let cap = if total > 1 { total } else { 1 };
    let fit = rows / CARD_ROWS;
    let visible = if fit < 1 { 1 } else if fit > cap { cap } else { fit };
    let half = visible / 2;
    let selected = view.panel.selected;
    let back = if selected >= half { selected - half } else { 0 };
    let latest = if total >= visible { total - visible } else { 0 };
    let first = if back <= latest { back } else { latest };
    let end = if first <= total && visible <= total - first { first + visible } else { total };
    first..end
}

/// The offset that keeps `selected` in a window of `height` rows, moving as
/// little as possible and never past the end; as a `u16` it keeps the low
/// sixteen bits.
pub open spec fn scroll_spec(offset: int, selected: int, height: int, total: int) -> int {
    let moved = if selected < offset {
        selected
    } else if height > 0 && selected >= offset + height {
        selected + 1 - height
    } else {
        offset
    };
    let last = if total >= height { total - height } else { 0 };
    (if moved <= last { moved } else { last }) % 65536
}

pub fn scroll_into_view(offset: u16, selected: usize, height: usize, total: usize) -> (r: u16)
    ensures
        r == scroll_spec(offset as int, selected as int, height as int, total as int),
{
    let mut at = offset as usize;
    if selected < at {
        at = selected;
    } else if height > 0 && selected - at >= height {
        at = selected - height + 1;
    }
    let last = if total >= height { total - height } else { 0 };
    let capped = if at <= last { at } else { last };
    (capped % 65536) as u16
}

/// Scrolling a list to its selection puts the selection on screen: at or
/// below the first row shown and above the last, for any offset it starts
/// from.
pub proof fn law_selection_stays_visible(offset: u16, selected: usize, height: usize, total: usize)
    requires
        selected < total <= 65536,
        height > 0,
    ensures
        scroll_spec(offset as int, selected as int, height as int, total as int) <= selected,
        selected < scroll_spec(offset as int, selected as int, height as int, total as int) + height,
{
}

/// The widest line of a diff, in characters, counting its marker and a
/// space of margin, or zero for a diff without lines.
pub open spec fn widest(lines: Seq<Seq<char>>) -> nat
    decreases lines.len(),
{
    if lines.len() == 0 {
        0
    } else {
        let w = content(lines.last()).len() + 2;
        let rest = widest(lines.drop_last());
        if w >= rest { w } else { rest }
    }
}

/// All the lines of a diff's hunks, in order.
pub open spec fn diff_lines(d: FileDiff) -> Seq<Seq<char>> {
    d.hunks@.map_values(|h: crate::staging::Hunk| strs(h.lines@)).flatten()
}

pub fn max_content_width(diff: &FileDiff) -> (r: usize)
    requires
        forall|h: int, i: int|
            0 <= h < diff.hunks@.len() && 0 <= i < diff.hunks@[h].lines@.len() ==> #[trigger] diff.hunks@[h].lines@[i]@.len()
                < usize::MAX - 2,
    ensures
        r == widest(diff_lines(*diff)),
{
    let ghost hs = diff.hunks@.map_values(|h: crate::staging::Hunk| strs(h.lines@));
    let mut best: usize = 0;
    let mut k: usize = 0;
    assert(hs.take(0).flatten() =~= Seq::<Seq<char>>::empty());
    while k < diff.hunks.len()
        invariant
            k <= diff.hunks@.len(),
            hs == diff.hunks@.map_values(|h: crate::staging::Hunk| strs(h.lines@)),
            forall|h: int, i: int|
                0 <= h < diff.hunks@.len() && 0 <= i < diff.hunks@[h].lines@.len() ==> #[trigger] diff.hunks@[h].lines@[i]@.len()
                    < usize::MAX - 2,
            best == widest(hs.take(k as int).flatten()),
        decreases diff.hunks@.len() - k,
    {
        let lines = &diff.hunks[k].lines;
        let ghost done = hs.take(k as int).flatten();
        proof {
            assert(hs.take(k + 1) =~= hs.take(k as int).push(strs(lines@)));
            hs.take(k as int).lemma_flatten_push(strs(lines@));
        }
        assert(forall|i: int| 0 <= i < lines@.len() ==> #[trigger] lines@[i]@.len() < usize::MAX - 2) by {
            assert forall|i: int| 0 <= i < lines@.len() implies #[trigger] lines@[i]@.len() < usize::MAX - 2 by {
                assert(diff.hunks@[k as int].lines@[i]@.len() < usize::MAX - 2);
            }
        }
        assert(done + strs(lines@).take(0) =~= done);
        let mut j: usize = 0;
        while j < lines.len()
            invariant
                j <= lines@.len(),
                forall|i: int| 0 <= i < lines@.len() ==> #[trigger] lines@[i]@.len() < usize::MAX - 2,
                best == widest(done + strs(lines@).take(j as int)),
            decreases lines@.len() - j,
        {
            let w = content_of(lines[j].as_str()).unicode_len() + 2;
            proof {
                assert((done + strs(lines@).take(j + 1)).drop_last() =~= done + strs(lines@).take(j as int));
                assert((done + strs(lines@).take(j + 1)).last() == lines@[j as int]@);
            }
            if w >= best {
                best = w;
            }
            j = j + 1;
        }
        assert(strs(lines@).take(j as int) =~= strs(lines@));
        k = k + 1;
    }
    assert(hs.take(k as int) =~= hs);
    best
}

/// The first seven bytes of a commit id.
pub fn short_oid(oid: &str) -> (r: &str)
    requires
        vstd::utf8::is_char_boundary(oid.spec_bytes(), if oid.spec_bytes().len() < 7 { oid.spec_bytes().len() as int } else { 7 }),
    ensures
        r.spec_bytes() == oid.spec_bytes().subrange(0, if oid.spec_bytes().len() < 7 { oid.spec_bytes().len() as int } else { 7 }),
{
    let len = oid.as_bytes().len();
    let n = if len < 7 { len } else { 7 };
    let (head, _) = oid.split_at(n);
    head
}

/// How long ago, in the largest unit that is at least one.
pub open spec fn relative_spec(delta: int) -> Seq<char> {
    if delta < 60 {
        decimal(delta as nat) + "s"@
    } else if delta < 3_600 {
        decimal((delta / 60) as nat) + "m"@
    } else if delta < 86_400 {
        decimal((delta / 3_600) as nat) + "h"@
    } else if delta < 604_800 {
        decimal((delta / 86_400) as nat) + "d"@
    } else if delta < 2_629_800 {
        decimal((delta / 604_800) as nat) + "w"@
    } else if delta < 31_557_600 {
        decimal((delta / 2_629_800) as nat) + "mo"@
    } else {
        decimal((delta / 31_557_600) as nat) + "y"@
    }
}

/// How long before `now` a time was, in seconds, minutes, hours, days,
/// weeks, months or years; a time in the future counts as now.
pub fn relative_time(now: i64, then: i64) -> (r: String)
    requires
        i64::MIN <= now - then <= i64::MAX,
    ensures
        r@ == relative_spec(if now - then > 0 { now - then } else { 0 }),
{
    let diff = now - then;
    let d: u64 = if diff > 0 { diff as u64 } else { 0 };
    let mut out = String::new();
    if d < 60 {
        push_decimal_u64(&mut out, d);
        push_str(&mut out, "s");
    } else if d < 3_600 {
        push_decimal_u64(&mut out, d / 60);
        push_str(&mut out, "m");
    } else if d < 86_400 {
        push_decimal_u64(&mut out, d / 3_600);
        push_str(&mut out, "h");
    } else if d < 604_800 {
        push_decimal_u64(&mut out, d / 86_400);
        push_str(&mut out, "d");
    } else if d < 2_629_800 {
        push_decimal_u64(&mut out, d / 604_800);
        push_str(&mut out, "w");
    } else if d < 31_557_600 {
        push_decimal_u64(&mut out, d / 2_629_800);
        push_str(&mut out, "mo");
    } else {
        push_decimal_u64(&mut out, d / 31_557_600);
        push_str(&mut out, "y");
    }
    out
}

// ---------------------------------------------------------------------------
// Word emphasis across a hunk
// ---------------------------------------------------------------------------

/// The first line of the run of lines marked `m` that ends at line `i`.
pub open spec fn run_start(ls: Seq<Seq<char>>, i: int, m: char) -> int
    decreases i,
{
    if 0 < i <= ls.len() && marker(ls[i - 1]) == m {
        run_start(ls, i - 1, m)
    } else {
        i
    }
}

/// The emphasis of the removed line `r` against the added line `a`, from
/// the side of line `i` (one of the two).
pub open spec fn paired_emphasis(ls: Seq<Seq<char>>, r: int, a: int, side: WordKind) -> Seq<bool> {
    emphasis_spec(coalesced(word_changes(content(ls[r]), content(ls[a]))), side)
}

/// Which characters of line `i` are emphasised: a removed line is paired
/// with the added line at the same offset in the run of added lines that
/// directly follows its run of removed lines, and each is emphasised where
/// its words differ from its partner's; a line without a partner has none.
pub open spec fn intraline_spec(ls: Seq<Seq<char>>, i: int) -> Seq<bool> {
    if marker(ls[i]) == '-' {
        let a = run_start(ls, i, '-');
        let b = run_end(ls, i, '-');
        let c = run_end(ls, b, '+');
        if i - a < c - b {
            paired_emphasis(ls, i, b + (i - a), WordKind::Removed)
        } else {
            seq![]
        }
    } else if marker(ls[i]) == '+' {
        let b = run_start(ls, i, '+');
        if b > 0 && marker(ls[b - 1]) == '-' {
            let a = run_start(ls, b - 1, '-');
            if i - b < b - a {
                paired_emphasis(ls, a + (i - b), i, WordKind::Added)
            } else {
                seq![]
            }
        } else {
            seq![]
        }
    } else {
        seq![]
    }
}

proof fn lemma_run_start_le(ls: Seq<Seq<char>>, i: int, m: char)
    ensures
        run_start(ls, i, m) <= i,
    decreases i,
{
    if 0 < i <= ls.len() && marker(ls[i - 1]) == m {
        lemma_run_start_le(ls, i - 1, m);
    }
}

proof fn lemma_run_start_at(ls: Seq<Seq<char>>, a: int, j: int, m: char)
    requires
        0 <= a <= j <= ls.len(),
        forall|q: int| a <= q < j ==> marker(#[trigger] ls[q]) == m,
        a == 0 || marker(ls[a - 1]) != m,
    ensures
        run_start(ls, j, m) == a,
    decreases j,
{
    if j > a {
        lemma_run_start_at(ls, a, j - 1, m);
    }
}

proof fn lemma_run_end_at(ls: Seq<Seq<char>>, j: int, b: int, m: char)
    requires
        0 <= j <= b <= ls.len(),
        forall|q: int| j <= q < b ==> marker(#[trigger] ls[q]) == m,
        b == ls.len() || marker(ls[b]) != m,
    ensures
        run_end(ls, j, m) == b,
    decreases b - j,
{
    if j < b {
        lemma_run_end_at(ls, j + 1, b, m);
    }
}

/// The word emphasis of every line of a hunk.
pub fn intraline_emphasis(lines: &[String]) -> (r: Vec<Vec<bool>>)
    ensures
        r@.len() == lines@.len(),
        forall|i: int| 0 <= i < r@.len() ==> (#[trigger] r@[i])@ == intraline_spec(
            lines@.map_values(|l: String| l@),
            i,
        ),
{
    let ghost ls = lines@.map_values(|l: String| l@);
    let n = lines.len();
    let mut emphasis: Vec<Vec<bool>> = Vec::new();
    let mut k: usize = 0;
    while k < n
        invariant
            n == lines@.len(),
            k <= n,
            emphasis@.len() == k,
            forall|i: int| 0 <= i < k ==> (#[trigger] emphasis@[i])@ == Seq::<bool>::empty(),
        decreases n - k,
    {
        emphasis.push(Vec::new());
        k = k + 1;
    }
    let mut index: usize = 0;
    while index < n
        invariant
            n == lines@.len(),
            ls == lines@.map_values(|l: String| l@),
            index <= n,
            emphasis@.len() == n,
            forall|i: int| 0 <= i < index ==> (#[trigger] emphasis@[i])@ == intraline_spec(ls, i),
            forall|i: int| index <= i < n ==> (#[trigger] emphasis@[i])@ == Seq::<bool>::empty(),
            index < n && marker(ls[index as int]) == '-' ==> run_start(ls, index as int, '-') == index,
            index < n && marker(ls[index as int]) == '+' ==> ({
                let b = run_start(ls, index as int, '+');
                !(b > 0 && marker(ls[b - 1]) == '-')
            }),
        decreases n - index,
    {
        if marker_of(lines[index].as_str()) != '-' {
            proof {
                assert(marker(ls[index as int]) != '-');
                if index + 1 < n && marker(ls[index + 1]) == '+' && marker(ls[index as int]) == '+' {
                    assert(run_start(ls, index + 1, '+') == run_start(ls, index as int, '+'));
                }
            }
            index = index + 1;
            continue;
        }
        let removed_start = index;
        proof {
            lemma_run_end(ls, index as int, '-');
        }
        while index < n && marker_of(lines[index].as_str()) == '-'
            invariant
                n == lines@.len(),
                ls == lines@.map_values(|l: String| l@),
                removed_start <= index <= n,
                forall|q: int| removed_start <= q < index ==> marker(#[trigger] ls[q]) == '-',
            decreases n - index,
        {
            index = index + 1;
        }
        let added_start = index;
        while index < n && marker_of(lines[index].as_str()) == '+'
            invariant
                n == lines@.len(),
                ls == lines@.map_values(|l: String| l@),
                added_start <= index <= n,
                forall|q: int| added_start <= q < index ==> marker(#[trigger] ls[q]) == '+',
            decreases n - index,
        {
            index = index + 1;
        }
        let ghost a = removed_start as int;
        let ghost b = added_start as int;
        let ghost c = index as int;
        proof {
            assert(a < b);
            assert(marker(ls[a]) == '-');
            if a > 0 && marker(ls[a - 1]) == '-' {
                lemma_run_start_le(ls, a - 1, '-');
            }
            assert(a == 0 || marker(ls[a - 1]) != '-');
            lemma_run_end_at(ls, a, b, '-');
            lemma_run_end_at(ls, b, c, '+');
            assert forall|q: int| a <= q < b implies run_start(ls, q, '-') == a && run_end(ls, q, '-') == b by {
                lemma_run_start_at(ls, a, q, '-');
                lemma_run_end_at(ls, q, b, '-');
            }
            assert forall|q: int| b <= q < c implies run_start(ls, q, '+') == b by {
                lemma_run_start_at(ls, b, q, '+');
            }
            assert(run_start(ls, b - 1, '-') == a);
        }
        let pairs = if added_start - removed_start <= index - added_start {
            added_start - removed_start
        } else {
            index - added_start
        };
        let mut offset: usize = 0;
        while offset < pairs
            invariant
                n == lines@.len(),
                ls == lines@.map_values(|l: String| l@),
                emphasis@.len() == n,
                removed_start < added_start <= index <= n,
                a == removed_start,
                b == added_start,
                c == index,
                pairs <= added_start - removed_start,
                pairs <= index - added_start,
                offset <= pairs,
                forall|i: int| 0 <= i < removed_start ==> (#[trigger] emphasis@[i])@ == intraline_spec(ls, i),
                forall|i: int|
                    removed_start <= i < removed_start + offset ==> (#[trigger] emphasis@[i])@
                        == paired_emphasis(ls, i, b + (i - a), WordKind::Removed),
                forall|i: int|
                    removed_start + offset <= i < added_start ==> (#[trigger] emphasis@[i])@
                        == Seq::<bool>::empty(),
                forall|i: int|
                    added_start <= i < added_start + offset ==> (#[trigger] emphasis@[i])@
                        == paired_emphasis(ls, a + (i - b), i, WordKind::Added),
                forall|i: int| added_start + offset <= i < n ==> (#[trigger] emphasis@[i])@ == Seq::<bool>::empty(),
            decreases pairs - offset,
        {
            let removed = removed_start + offset;
            let added = added_start + offset;
            let spans = word_diff(content_of(lines[removed].as_str()), content_of(lines[added].as_str()));
            let er = emphasis_removed(spans.as_slice());
            let ea = emphasis_added(spans.as_slice());
            emphasis.set(removed, er);
            emphasis.set(added, ea);
            offset = offset + 1;
        }
        proof {
            assert forall|i: int| 0 <= i < index implies (#[trigger] emphasis@[i])@ == intraline_spec(ls, i) by {
                if a <= i < b {
                    assert(marker(ls[i]) == '-');
                } else if b <= i < c {
                    assert(marker(ls[i]) == '+');
                    assert(marker(ls[b - 1]) == '-');
                }
            }
            if c < n {
                lemma_run_end(ls, b, '+');
                assert(marker(ls[c]) != '+');
                if marker(ls[c]) == '-' {
                    if c > b {
                        assert(marker(ls[c - 1]) == '+');
                    } else {
                        lemma_run_end(ls, a, '-');
                        assert(marker(ls[c]) != '-');
                    }
                }
            }
        }
    }
    emphasis
}

} // verus!
