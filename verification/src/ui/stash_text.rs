//! The text of the stash view: a card of two rows for each stash in view,
//! the files of the focused stash, the focus line and the titles.
use vstd::prelude::*;

use crate::git::{FileStatus, LineStats, status_code};
use crate::stash::{Focus, MessageView, StashEntry, StashFile, StashView, message_view};
use crate::text::{decimal, push_char, push_decimal, push_str};
use crate::ui::commit_row::spaces_of;
use crate::ui::graph_view::{display_width, spaces, width_spec};
use crate::ui::wrap::{PLAIN, StyledSpan, span_views};
use crate::ui::{card_window, card_window_spec, file_word, relative_spec, relative_time, stash_origin};

verus! {

/// The selection marker.
pub const TAG_MARK: u32 = 1;

/// A stash's number.
pub const TAG_ID: u32 = 2;

/// A message the user gave.
pub const TAG_NAMED: u32 = 3;

/// The note of a stash saved without a message.
pub const TAG_UNNAMED: u32 = 4;

/// Secondary text.
pub const TAG_META: u32 = 5;

/// Where a stash was saved.
pub const TAG_ORIGIN: u32 = 6;

/// The commit a stash was saved on.
pub const TAG_BASE: u32 = 7;

/// Added lines.
pub const TAG_ADDED: u32 = 8;

/// Removed lines.
pub const TAG_REMOVED: u32 = 9;

/// The focused file's path.
pub const TAG_FOCUSED: u32 = 10;

/// Another file's path.
pub const TAG_PATH: u32 = 11;

/// The label of the part that has the focus.
pub const TAG_LABEL: u32 = 12;

/// A file's status letter, by status: the tag is this plus the status's
/// place in `FileStatus`.
pub const TAG_STATUS: u32 = 20;

pub type RowView = Seq<(Seq<char>, u32)>;

/// The columns a row of spans takes.
pub open spec fn spans_width(row: RowView) -> nat
    decreases row.len(),
{
    if row.len() == 0 {
        0
    } else {
        spans_width(row.drop_last()) + width_spec(row.last().0)
    }
}

/// A row filled with spaces up to `width` columns.
pub open spec fn pad_row(row: RowView, width: nat) -> RowView {
    let w = spans_width(row);
    if w < width {
        row.push((spaces((width - w) as nat), PLAIN))
    } else {
        row
    }
}

/// A row with `tail` pushed to its right end when both fit in `width`
/// columns with two to spare; the row alone otherwise.
pub open spec fn align_row(row: RowView, tail: RowView, width: nat) -> RowView {
    let w = spans_width(row);
    let t = spans_width(tail);
    if w + t + 2 <= width {
        row.push((spaces((width - w - t) as nat), PLAIN)) + tail
    } else {
        row
    }
}

/// The added and removed line counts.
pub open spec fn stats_row(stats: LineStats) -> RowView {
    seq![("+"@ + decimal(stats.added as nat) + " "@, TAG_ADDED), ("−"@ + decimal(stats.removed as nat), TAG_REMOVED)]
}

/// The title row of a stash's card.
pub open spec fn card_title(e: StashEntry, selected: bool, focused: bool) -> RowView {
    let named = message_view(e.message) is Named;
    seq![
        (if focused {
            "❯ "@
        } else {
            "  "@
        }, TAG_MARK),
        ((if selected {
            "▣"@
        } else {
            "▢"@
        }) + " "@ + decimal(e.index as nat) + "  "@, TAG_ID),
        (match message_view(e.message) {
            MessageView::Named(t) => t,
            MessageView::Auto(_, _) => "no message"@,
        }, if named {
            TAG_NAMED
        } else {
            TAG_UNNAMED
        }),
    ]
}

/// Where a stash was saved: its branch, else the commit it was saved on.
pub open spec fn origin_spec(e: StashEntry) -> Seq<char> {
    match e.branch {
        Some(b) => b@,
        None => match message_view(e.message) {
            MessageView::Auto(id, _) => id,
            MessageView::Named(_) => "detached"@,
        },
    }
}

/// The meta row of a stash's card, before its line counts.
pub open spec fn card_meta(e: StashEntry, age: int, files: nat) -> RowView {
    let base: RowView = match (e.branch, message_view(e.message)) {
        (Some(_), MessageView::Auto(id, _)) => seq![(" · "@ + id, TAG_BASE)],
        _ => seq![],
    };
    seq![("      "@, PLAIN), ("⎇ "@, TAG_META), (origin_spec(e), TAG_ORIGIN)] + base + seq![
        (" · "@ + relative_spec(age) + " · "@ + (if files == 1 {
            "1 file"@
        } else {
            decimal(files) + " files"@
        }), TAG_META),
    ]
}

/// What a card knows beyond its stash: how many files and lines it changes.
#[derive(Debug, Clone, Copy)]
pub struct CardStats {
    pub files: usize,
    pub lines: LineStats,
}

/// A stash's card: whether it is the selected one, and its two rows.
pub struct Card {
    pub selected: bool,
    pub title: Vec<StyledSpan>,
    pub meta: Vec<StyledSpan>,
}

pub open spec fn card_view(c: Card) -> (bool, RowView, RowView) {
    (c.selected, span_views(c.title@), span_views(c.meta@))
}

/// How long ago a stash was saved, counting a time in the future as now.
pub open spec fn age_of(now: i64, then: i64) -> int {
    if now - then > 0 {
        now - then
    } else {
        0
    }
}

/// The card of the stash at `i`.
pub open spec fn card_spec(v: StashView, stats: Seq<CardStats>, width: nat, now: i64, i: int) -> (bool, RowView, RowView) {
    let e = v.panel.entries@[i];
    let selected = i == v.panel.selected;
    (
        selected,
        pad_row(card_title(e, selected, selected && v.focus == Focus::Entries), width),
        pad_row(align_row(card_meta(e, age_of(now, e.time), stats[i].files as nat), stats_row(stats[i].lines), width), width),
    )
}

/// The cards of the stashes in view, around the selected one.
pub open spec fn cards_spec(v: StashView, stats: Seq<CardStats>, width: nat, now: i64, rows: int) -> Seq<
    (bool, RowView, RowView),
> {
    let w = card_window_spec(v.panel.entries@.len() as int, v.panel.selected as int, rows);
    Seq::new((w.1 - w.0) as nat, |k: int| card_spec(v, stats, width, now, w.0 + k))
}

/// Texts short enough for a card or a row to measure, with room to spare
/// for what is written around them.
pub open spec fn short(s: Seq<char>) -> bool {
    s.len() + 64 <= usize::MAX / 64
}

/// Ten to the power `k`.
pub open spec fn pow10(k: nat) -> nat
    decreases k,
{
    if k == 0 {
        1
    } else {
        10 * pow10((k - 1) as nat)
    }
}

proof fn lemma_decimal_digits(n: nat, k: nat)
    requires
        k >= 1,
        n < pow10(k),
    ensures
        decimal(n).len() <= k,
    decreases k,
{
    if n >= 10 {
        if k == 1 {
            assert(pow10(1) == 10) by {
                assert(pow10(0) == 1);
            }
        } else {
            let p = pow10((k - 1) as nat);
            assert(n / 10 < p) by (nonlinear_arith)
                requires
                    n < 10 * p,
            ;
            lemma_decimal_digits(n / 10, (k - 1) as nat);
        }
    }
}

/// A number of at most 64 bits has at most twenty digits.
pub proof fn lemma_decimal_short(n: nat)
    requires
        n <= u64::MAX,
    ensures
        decimal(n).len() <= 20,
{
    reveal_with_fuel(pow10, 21);
    assert(pow10(20) == 100000000000000000000);
    lemma_decimal_digits(n, 20);
}

/// The stashes' texts are short enough to measure and their times are
/// within reach of now.
pub open spec fn entries_fit(entries: Seq<StashEntry>, now: i64) -> bool {
    forall|i: int| 0 <= i < entries.len() ==> entry_fits(#[trigger] entries[i], now)
}

/// A stash's texts are short enough to measure and its time is within
/// reach of now.
pub open spec fn entry_fits(e: StashEntry, now: i64) -> bool {
    &&& i64::MIN <= now - e.time <= i64::MAX
    &&& match e.branch {
        Some(b) => roomy(b@),
        None => true,
    }
    &&& match message_view(e.message) {
        MessageView::Named(t) => roomy(t),
        MessageView::Auto(id, s) => roomy(id) && roomy(s),
    }
}

/// A text that stays short with a few characters written around it.
pub open spec fn roomy(s: Seq<char>) -> bool {
    s.len() + 128 <= usize::MAX / 64
}

fn span(content: String, style: u32) -> (r: StyledSpan)
    ensures
        r.content == content,
        r.style == style,
{
    StyledSpan { content, style }
}

fn owned(s: &str) -> (r: String)
    ensures
        r@ == s@,
{
    let mut r = String::new();
    push_str(&mut r, s);
    r
}

/// The columns a row takes.
fn row_width(row: &Vec<StyledSpan>) -> (r: usize)
    requires
        row@.len() <= 16,
        forall|i: int| 0 <= i < row@.len() ==> short((#[trigger] row@[i]).content@),
    ensures
        r == spans_width(span_views(row@)),
{
    let mut total: usize = 0;
    let mut i: usize = 0;
    while i < row.len()
        invariant
            i <= row@.len(),
            row@.len() <= 16,
            forall|j: int| 0 <= j < row@.len() ==> short((#[trigger] row@[j]).content@),
            total == spans_width(span_views(row@).take(i as int)),
            total <= 3 * (usize::MAX / 64) * i,
        decreases row@.len() - i,
    {
        assert(short(row@[i as int].content@));
        let w = display_width(row[i].content.as_str());
        assert(w <= 3 * (usize::MAX / 64));
        assert(total + w <= 3 * (usize::MAX / 64) * (i + 1) && 3 * (usize::MAX / 64) * (i + 1) <= usize::MAX)
            by (nonlinear_arith)
            requires
                total <= 3 * (usize::MAX / 64) * i,
                w <= 3 * (usize::MAX / 64),
                i < 16,
        ;
        proof {
            let t = span_views(row@).take(i + 1);
            assert(t.drop_last() =~= span_views(row@).take(i as int));
            assert(t.last().0 == row@[i as int].content@);
        }
        total = total + w;
        i = i + 1;
    }
    assert(span_views(row@).take(i as int) =~= span_views(row@));
    total
}

/// Fills a row with spaces up to `width` columns.
fn pad(row: &mut Vec<StyledSpan>, width: usize)
    requires
        width + 64 <= usize::MAX / 64,
        old(row)@.len() <= 15,
        forall|i: int| 0 <= i < old(row)@.len() ==> short((#[trigger] old(row)@[i]).content@),
    ensures
        span_views(final(row)@) == pad_row(span_views(old(row)@), width as nat),
{
    let w = row_width(row);
    if w < width {
        let fill = span(spaces_of(width - w), PLAIN);
        let ghost before = row@;
        row.push(fill);
        assert(span_views(row@) =~= span_views(before).push((spaces((width - w) as nat), PLAIN)));
    }
}

/// Pushes `tail` to the right end of a row when both fit.
fn align(row: &mut Vec<StyledSpan>, tail: Vec<StyledSpan>, width: usize)
    requires
        width + 64 <= usize::MAX / 64,
        old(row)@.len() + tail@.len() <= 14,
        forall|i: int| 0 <= i < old(row)@.len() ==> short((#[trigger] old(row)@[i]).content@),
        forall|i: int| 0 <= i < tail@.len() ==> short((#[trigger] tail@[i]).content@),
    ensures
        span_views(final(row)@) == align_row(span_views(old(row)@), span_views(tail@), width as nat),
        final(row)@.len() <= old(row)@.len() + tail@.len() + 1,
        forall|i: int| 0 <= i < final(row)@.len() ==> short((#[trigger] final(row)@[i]).content@),
{
    let w = row_width(row);
    let t = row_width(&tail);
    if w <= width && t <= width - w && 2 <= width - w - t {
        let ghost before = row@;
        row.push(span(spaces_of(width - w - t), PLAIN));
        let ghost mid = row@;
        let mut tail = tail;
        let ghost tv = tail@;
        row.append(&mut tail);
        assert(row@ =~= mid + tv);
        assert(span_views(row@) =~= span_views(before).push((spaces((width - w - t) as nat), PLAIN)) + span_views(tv));
    }
}

fn stats_spans(stats: LineStats) -> (r: Vec<StyledSpan>)
    ensures
        span_views(r@) == stats_row(stats),
        r@.len() == 2,
        forall|i: int| 0 <= i < r@.len() ==> short((#[trigger] r@[i]).content@),
{
    let mut added = owned("+");
    push_decimal(&mut added, stats.added);
    push_str(&mut added, " ");
    let mut removed = owned("−");
    push_decimal(&mut removed, stats.removed);
    proof {
        lemma_decimal_short(stats.added as nat);
        lemma_decimal_short(stats.removed as nat);
        reveal_strlit("+");
        reveal_strlit(" ");
        reveal_strlit("−");
    }
    let r = vec![span(added, TAG_ADDED), span(removed, TAG_REMOVED)];
    assert(span_views(r@) =~= stats_row(stats));
    r
}

proof fn lemma_relative_short(d: int)
    requires
        0 <= d <= i64::MAX,
    ensures
        relative_spec(d).len() <= 22,
{
    reveal_strlit("s");
    reveal_strlit("m");
    reveal_strlit("h");
    reveal_strlit("d");
    reveal_strlit("w");
    reveal_strlit("mo");
    reveal_strlit("y");
    if d < 60 {
        lemma_decimal_short(d as nat);
    } else if d < 3_600 {
        lemma_decimal_short((d / 60) as nat);
    } else if d < 86_400 {
        lemma_decimal_short((d / 3_600) as nat);
    } else if d < 604_800 {
        lemma_decimal_short((d / 86_400) as nat);
    } else if d < 2_629_800 {
        lemma_decimal_short((d / 604_800) as nat);
    } else if d < 31_557_600 {
        lemma_decimal_short((d / 2_629_800) as nat);
    } else {
        lemma_decimal_short((d / 31_557_600) as nat);
    }
}

fn card_title_of(e: &StashEntry, selected: bool, focused: bool, now: i64) -> (r: Vec<StyledSpan>)
    requires
        entry_fits(*e, now),
    ensures
        span_views(r@) == card_title(*e, selected, focused),
        r@.len() == 3,
        forall|i: int| 0 <= i < r@.len() ==> short((#[trigger] r@[i]).content@),
{
    let mut id = owned(if selected {
        "▣"
    } else {
        "▢"
    });
    push_str(&mut id, " ");
    push_decimal(&mut id, e.index);
    push_str(&mut id, "  ");
    let named = match &e.message {
        crate::stash::StashMessage::Named(_) => true,
        crate::stash::StashMessage::Auto { .. } => false,
    };
    proof {
        lemma_decimal_short(e.index as nat);
        reveal_strlit("▣");
        reveal_strlit("▢");
        reveal_strlit(" ");
        reveal_strlit("  ");
        reveal_strlit("❯ ");
        reveal_strlit("no message");
    }
    let r = vec![
        span(owned(if focused {
            "❯ "
        } else {
            "  "
        }), TAG_MARK),
        span(id, TAG_ID),
        span(owned(e.message.text()), if named {
            TAG_NAMED
        } else {
            TAG_UNNAMED
        }),
    ];
    assert(span_views(r@) =~= card_title(*e, selected, focused));
    r
}

fn card_meta_of(e: &StashEntry, now: i64, files: usize) -> (r: Vec<StyledSpan>)
    requires
        entry_fits(*e, now),
    ensures
        span_views(r@) == card_meta(*e, age_of(now, e.time), files as nat),
        r@.len() <= 5,
        forall|i: int| 0 <= i < r@.len() ==> short((#[trigger] r@[i]).content@),
{
    proof {
        lemma_relative_short(age_of(now, e.time));
        lemma_decimal_short(files as nat);
        reveal_strlit("      ");
        reveal_strlit("⎇ ");
        reveal_strlit(" · ");
        reveal_strlit("1 file");
        reveal_strlit(" files");
        reveal_strlit("detached");
    }
    let mut r = vec![span(owned("      "), PLAIN), span(owned("⎇ "), TAG_META), span(stash_origin(e), TAG_ORIGIN)];
    let ghost head = span_views(r@);
    assert(short(r@[2].content@));
    match (&e.branch, &e.message) {
        (Some(_), crate::stash::StashMessage::Auto { base_id, .. }) => {
            let mut base = owned(" · ");
            push_str(&mut base, base_id.as_str());
            assert(short(base@));
            r.push(span(base, TAG_BASE));
            assert(span_views(r@) =~= head + seq![(" · "@ + base_id@, TAG_BASE)]);
        },
        _ => {
            assert(span_views(r@) =~= head + Seq::<(Seq<char>, u32)>::empty());
        },
    }
    let ghost with_base = span_views(r@);
    let mut tail = owned(" · ");
    let age = relative_time(now, e.time);
    push_str(&mut tail, age.as_str());
    push_str(&mut tail, " · ");
    let word = crate::ui::file_word(files);
    push_str(&mut tail, word.as_str());
    let ghost before = r@;
    assert(short(tail@));
    r.push(span(tail, TAG_META));
    proof {
        assert(age@ == relative_spec(age_of(now, e.time)));
        assert(span_views(r@) =~= card_meta(*e, age_of(now, e.time), files as nat));
    }
    r
}

/// The cards of the stashes in view, around the selected one: a title row
/// with the selection marker, the stash's number and its message; a meta
/// row with where it was saved, how long ago, how many files and, at its
/// right end when they fit, the added and removed line counts; both filled
/// to `width` columns.
pub fn stash_cards(view: &StashView, stats: &Vec<CardStats>, width: usize, now: i64, rows: usize) -> (r: Vec<Card>)
    requires
        stats@.len() == view.panel.entries@.len(),
        entries_fit(view.panel.entries@, now),
        width + 64 <= usize::MAX / 64,
    ensures
        r@.map_values(|c: Card| card_view(c)) == cards_spec(*view, stats@, width as nat, now, rows as int),
{
    let window = card_window(view, rows);
    let ghost want = cards_spec(*view, stats@, width as nat, now, rows as int);
    let mut cards: Vec<Card> = Vec::new();
    let mut i = window.start;
    assert(window.end <= view.panel.entries@.len());
    while i < window.end
        invariant
            window.start <= i <= window.end <= view.panel.entries@.len(),
            (window.start as int, window.end as int) == card_window_spec(
                view.panel.entries@.len() as int,
                view.panel.selected as int,
                rows as int,
            ),
            stats@.len() == view.panel.entries@.len(),
            entries_fit(view.panel.entries@, now),
            width + 64 <= usize::MAX / 64,
            want == cards_spec(*view, stats@, width as nat, now, rows as int),
            cards@.map_values(|c: Card| card_view(c)) == want.take(i - window.start),
        decreases window.end - i,
    {
        let e = &view.panel.entries[i];
        assert(entry_fits(*e, now));
        let selected = i == view.panel.selected;
        let focused = selected && match view.focus {
            Focus::Entries => true,
            _ => false,
        };
        let mut title = card_title_of(e, selected, focused, now);
        pad(&mut title, width);
        let mut meta = card_meta_of(e, now, stats[i].files);
        align(&mut meta, stats_spans(stats[i].lines), width);
        pad(&mut meta, width);
        let card = Card { selected, title, meta };
        let ghost before = cards@;
        cards.push(card);
        proof {
            assert(card_view(card) == card_spec(*view, stats@, width as nat, now, i as int));
            assert(want[i - window.start] == card_spec(*view, stats@, width as nat, now, i as int));
            assert(cards@ =~= before.push(card));
            assert(cards@.map_values(|c: Card| card_view(c)) =~= before.map_values(|c: Card| card_view(c)).push(
                card_view(card),
            ));
            assert(want.take(i + 1 - window.start) =~= want.take(i - window.start).push(want[i - window.start]));
        }
        i = i + 1;
    }
    assert(want.take(i - window.start) =~= want);
    cards
}

/// The tag of a file's status letter.
pub open spec fn status_tag(s: FileStatus) -> u32 {
    match s {
        FileStatus::Added => TAG_STATUS,
        FileStatus::Deleted => (TAG_STATUS + 1) as u32,
        FileStatus::Modified => (TAG_STATUS + 2) as u32,
        FileStatus::Renamed => (TAG_STATUS + 3) as u32,
        FileStatus::Copied => (TAG_STATUS + 4) as u32,
        FileStatus::Typechange => (TAG_STATUS + 5) as u32,
        FileStatus::Other => (TAG_STATUS + 6) as u32,
    }
}

/// The row of one file of a stash, before its line counts.
pub open spec fn file_head(f: StashFile, selected: bool, focused: bool) -> RowView {
    seq![
        (if focused {
            "❯ "@
        } else {
            "  "@
        }, TAG_MARK),
        (seq![status_code(f.status), ' '], status_tag(f.status)),
        (f.path@, if selected {
            TAG_FOCUSED
        } else {
            TAG_PATH
        }),
    ]
}

/// A row of the file list: whether it has the focus, and its spans.
pub struct FileRow {
    pub focused: bool,
    pub spans: Vec<StyledSpan>,
}

pub open spec fn file_row_view(r: FileRow) -> (bool, RowView) {
    (r.focused, span_views(r.spans@))
}

/// The row of the file at `i`: marker, status and path, with the line
/// counts at its right end when they fit, filled to `width` columns.
pub open spec fn stash_file_spec(v: StashView, width: nat, i: int) -> (bool, RowView) {
    let selected = i == v.file;
    let focused = selected && v.focus != Focus::Entries;
    let f = v.files@[i];
    (focused, pad_row(align_row(file_head(f, selected, focused), stats_row(f.stats), width), width))
}

/// The heading of the file list: its title and how many files it holds.
pub open spec fn files_heading(n: nat) -> RowView {
    seq![("Files "@, TAG_LABEL), ("("@ + decimal(n) + ")"@, TAG_META)]
}

/// The file list: its heading when asked for, then a row per file, or a
/// note that the stash holds none.
pub open spec fn stash_files_spec(v: StashView, width: nat, heading: bool) -> Seq<(bool, RowView)> {
    (if heading {
        seq![(false, files_heading(v.files@.len()))]
    } else {
        seq![]
    }) + (if v.files@.len() == 0 {
        seq![(false, seq![("  nothing in this entry"@, TAG_META)])]
    } else {
        Seq::new(v.files@.len(), |i: int| stash_file_spec(v, width, i))
    })
}

/// The paths of a stash's files are short enough to measure.
pub open spec fn paths_fit(files: Seq<StashFile>) -> bool {
    forall|i: int| 0 <= i < files.len() ==> roomy((#[trigger] files[i]).path@)
}

fn file_head_of(f: &StashFile, selected: bool, focused: bool) -> (r: Vec<StyledSpan>)
    requires
        roomy(f.path@),
    ensures
        span_views(r@) == file_head(*f, selected, focused),
        r@.len() == 3,
        forall|i: int| 0 <= i < r@.len() ==> short((#[trigger] r@[i]).content@),
{
    let mut status = String::new();
    push_char(&mut status, f.status.code());
    push_char(&mut status, ' ');
    let tag: u32 = match f.status {
        FileStatus::Added => TAG_STATUS,
        FileStatus::Deleted => TAG_STATUS + 1,
        FileStatus::Modified => TAG_STATUS + 2,
        FileStatus::Renamed => TAG_STATUS + 3,
        FileStatus::Copied => TAG_STATUS + 4,
        FileStatus::Typechange => TAG_STATUS + 5,
        FileStatus::Other => TAG_STATUS + 6,
    };
    assert(status@ =~= seq![status_code(f.status), ' ']);
    assert(tag == status_tag(f.status));
    proof {
        reveal_strlit("❯ ");
        reveal_strlit("  ");
    }
    let r = vec![
        span(owned(if focused {
            "❯ "
        } else {
            "  "
        }), TAG_MARK),
        span(status, tag),
        span(f.path.clone(), if selected {
            TAG_FOCUSED
        } else {
            TAG_PATH
        }),
    ];
    assert(span_views(r@) =~= file_head(*f, selected, focused));
    r
}

/// The file list of the focused stash: its heading when asked for, then a
/// row per file (marker, status, path and, at the right end when they fit,
/// the line counts, filled to `width` columns), or a note that the stash
/// holds none.
pub fn stash_file_rows(view: &StashView, width: usize, heading: bool) -> (r: Vec<FileRow>)
    requires
        paths_fit(view.files@),
        width + 64 <= usize::MAX / 64,
    ensures
        r@.map_values(|x: FileRow| file_row_view(x)) == stash_files_spec(*view, width as nat, heading),
{
    let mut rows: Vec<FileRow> = Vec::new();
    if heading {
        let mut count = owned("(");
        push_decimal(&mut count, view.files.len());
        push_str(&mut count, ")");
        let spans = vec![span(owned("Files "), TAG_LABEL), span(count, TAG_META)];
        assert(span_views(spans@) =~= files_heading(view.files@.len()));
        rows.push(FileRow { focused: false, spans });
    }
    let ghost head = rows@.map_values(|x: FileRow| file_row_view(x));
    assert(head =~= (if heading {
        seq![(false, files_heading(view.files@.len()))]
    } else {
        Seq::<(bool, RowView)>::empty()
    }));
    if view.files.len() == 0 {
        let spans = vec![span(owned("  nothing in this entry"), TAG_META)];
        assert(span_views(spans@) =~= seq![("  nothing in this entry"@, TAG_META)]);
        let ghost before = rows@;
        let row = FileRow { focused: false, spans };
        rows.push(row);
        assert(rows@ =~= before.push(row));
        assert(rows@.map_values(|x: FileRow| file_row_view(x)) =~= stash_files_spec(*view, width as nat, heading));
        return rows;
    }
    let ghost body = Seq::new(view.files@.len(), |i: int| stash_file_spec(*view, width as nat, i));
    let entries_focus = match view.focus {
        Focus::Entries => true,
        _ => false,
    };
    let mut i: usize = 0;
    while i < view.files.len()
        invariant
            i <= view.files@.len(),
            paths_fit(view.files@),
            width + 64 <= usize::MAX / 64,
            entries_focus == (view.focus == Focus::Entries),
            body == Seq::new(view.files@.len(), |i: int| stash_file_spec(*view, width as nat, i)),
            rows@.map_values(|x: FileRow| file_row_view(x)) == head + body.take(i as int),
        decreases view.files@.len() - i,
    {
        let f = &view.files[i];
        assert(roomy(f.path@));
        let selected = i == view.file;
        let focused = selected && !entries_focus;
        let mut spans = file_head_of(f, selected, focused);
        align(&mut spans, stats_spans(f.stats), width);
        pad(&mut spans, width);
        let row = FileRow { focused, spans };
        let ghost before = rows@;
        rows.push(row);
        proof {
            assert(file_row_view(row) == stash_file_spec(*view, width as nat, i as int));
            assert(rows@ =~= before.push(row));
            assert(rows@.map_values(|x: FileRow| file_row_view(x)) =~= before.map_values(
                |x: FileRow| file_row_view(x),
            ).push(file_row_view(row)));
            assert(body.take(i + 1) =~= body.take(i as int).push(body[i as int]));
        }
        i = i + 1;
    }
    assert(body.take(i as int) =~= body);
    rows
}

/// What the part that has the focus is called, and its keys.
pub open spec fn focus_row_spec(focus: Focus) -> RowView {
    match focus {
        Focus::Entries => seq![("stashes "@, TAG_LABEL), ("[p] pop  [a] apply  [b] branch  [d] drop"@, TAG_META)],
        Focus::Files => seq![("files "@, TAG_LABEL), ("[x] restore one  [p] pop  [a] apply  [d] drop"@, TAG_META)],
        Focus::Hunks => seq![("diff "@, TAG_LABEL), ("[v] side-by-side  [p] pop  [a] apply"@, TAG_META)],
    }
}

/// The line that names the part with the focus and its keys.
pub fn stash_focus_row(focus: Focus) -> (r: Vec<StyledSpan>)
    ensures
        span_views(r@) == focus_row_spec(focus),
{
    let (label, keys) = match focus {
        Focus::Entries => ("stashes ", "[p] pop  [a] apply  [b] branch  [d] drop"),
        Focus::Files => ("files ", "[x] restore one  [p] pop  [a] apply  [d] drop"),
        Focus::Hunks => ("diff ", "[v] side-by-side  [p] pop  [a] apply"),
    };
    let r = vec![span(owned(label), TAG_LABEL), span(owned(keys), TAG_META)];
    assert(span_views(r@) =~= focus_row_spec(focus));
    r
}

/// The title of the stash list: how many stashes, and the filter being
/// typed (with a cursor) or applied, else the keys.
pub open spec fn entries_title_spec(count: nat, filter: Option<(Seq<char>, bool)>) -> Seq<char> {
    " Stashes "@ + decimal(count) + " · "@ + match filter {
        Some((query, editing)) => "/"@ + query + (if editing {
            "▏"@
        } else {
            " "@
        }),
        None => "p pop · a apply · d drop "@,
    }
}

/// The title of the stash list.
pub fn stash_entries_title(count: usize, filter: Option<(&str, bool)>) -> (r: String)
    ensures
        r@ == entries_title_spec(count as nat, match filter {
            Some((q, e)) => Some((q@, e)),
            None => None,
        }),
{
    let mut r = owned(" Stashes ");
    push_decimal(&mut r, count);
    push_str(&mut r, " · ");
    match filter {
        Some((query, editing)) => {
            push_str(&mut r, "/");
            push_str(&mut r, query);
            push_str(&mut r, if editing {
                "▏"
            } else {
                " "
            });
        },
        None => push_str(&mut r, "p pop · a apply · d drop "),
    }
    assert(r@ =~= entries_title_spec(count as nat, match filter {
        Some((q, e)) => Some((q@, e)),
        None => None,
    }));
    r
}

/// The title of the file list: how many files, and its keys.
pub fn stash_files_title(count: usize) -> (r: String)
    ensures
        r@ == " Files "@ + decimal(count as nat) + " · x restore one · b branch "@,
{
    let mut r = owned(" Files ");
    push_decimal(&mut r, count);
    push_str(&mut r, " · x restore one · b branch ");
    r
}

} // verus!
