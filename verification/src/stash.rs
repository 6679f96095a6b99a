//! Stash entries as `git stash list` prints them, and the stash view's cursor.
use vstd::prelude::*;

use crate::git::{FileStatus, LineStats};
use crate::slide::{clamp_index, clamp_spec, SlidePanel};
use crate::staging::FileDiff;
use crate::text::{
    chars_of, find_char, find_in, find_seq, find_seq_in, has_prefix, lemma_find_char_bounds,
    line_spans, lines, parse_i64, parse_i64_in, parse_usize, parse_usize_in, span_text, split_spans,
    splits, starts_within, string_of, trim, trim_bounds, range_eq, Span,
};

verus! {

/// The `--format` that `git stash list` is run with: selector, commit time,
/// subject and commit id, separated by NUL characters.
pub const LIST_FORMAT: &'static str = "%gd%x00%ct%x00%gs%x00%H";

#[derive(Debug, Clone, PartialEq, Eq)]
pub enum StashMessage {
    Named(String),
    Auto { base_id: String, base_summary: String },
}

#[derive(Debug, Clone, PartialEq, Eq)]
pub struct StashEntry {
    pub index: usize,
    pub oid: String,
    pub branch: Option<String>,
    pub time: i64,
    pub message: StashMessage,
}

/// A message as the spec sees it.
pub enum MessageView {
    Named(Seq<char>),
    Auto(Seq<char>, Seq<char>),
}

/// An entry as the spec sees it.
pub struct EntryView {
    pub index: usize,
    pub oid: Seq<char>,
    pub branch: Option<Seq<char>>,
    pub time: i64,
    pub message: MessageView,
}

pub open spec fn message_view(m: StashMessage) -> MessageView {
    match m {
        StashMessage::Named(t) => MessageView::Named(t@),
        StashMessage::Auto { base_id, base_summary } => MessageView::Auto(base_id@, base_summary@),
    }
}

pub open spec fn opt_str(o: Option<String>) -> Option<Seq<char>> {
    match o {
        Some(s) => Some(s@),
        None => None,
    }
}

pub open spec fn entry_view(e: StashEntry) -> EntryView {
    EntryView {
        index: e.index,
        oid: e.oid@,
        branch: opt_str(e.branch),
        time: e.time,
        message: message_view(e.message),
    }
}

pub open spec fn entries_view(es: Seq<StashEntry>) -> Seq<EntryView> {
    es.map_values(|e: StashEntry| entry_view(e))
}

impl StashMessage {
    /// The text shown for the message.
    pub fn text(&self) -> (r: &str)
        ensures
            r@ == match message_view(*self) {
                MessageView::Named(t) => t,
                MessageView::Auto(_, _) => "no message"@,
            },
    {
        match self {
            StashMessage::Named(text) => text.as_str(),
            StashMessage::Auto { .. } => "no message",
        }
    }

    /// The commit an automatic message was made on.
    pub fn base_id(&self) -> (r: Option<&str>)
        ensures
            match message_view(*self) {
                MessageView::Named(_) => r is None,
                MessageView::Auto(id, _) => r is Some && r->0@ == id,
            },
    {
        match self {
            StashMessage::Named(_) => None,
            StashMessage::Auto { base_id, .. } => Some(base_id.as_str()),
        }
    }
}

#[derive(Debug, Clone, PartialEq, Eq)]
pub struct StashConflict {
    pub index: usize,
    pub message: String,
    pub pop: bool,
}

// ---------------------------------------------------------------------------
// The list format, as a spec
// ---------------------------------------------------------------------------

/// The index in a selector such as `stash@{2}`.
pub open spec fn index_of(selector: Seq<char>) -> Option<usize> {
    let t = trim(selector);
    if has_prefix(t, "stash@{"@) {
        let rest = t.skip(7);
        let j = find_char(rest, '}');
        if 0 <= j < rest.len() {
            parse_usize(trim(rest.take(j)))
        } else {
            None
        }
    } else {
        None
    }
}

/// The branch and message in a subject such as `WIP on main: abc123 fix`
/// (an automatic message) or `On main: my message` (a named one).
pub open spec fn subject_of(subject: Seq<char>) -> Option<(Option<Seq<char>>, MessageView)> {
    let auto = has_prefix(subject, "WIP on "@);
    let named = !auto && has_prefix(subject, "On "@);
    if !auto && !named {
        None
    } else {
        let rest = if auto {
            subject.skip(7)
        } else {
            subject.skip(3)
        };
        let j = find_seq(rest, ": "@);
        if j >= rest.len() {
            None
        } else {
            let branch = rest.take(j);
            let text = trim(rest.skip(j + 2));
            if text.len() == 0 {
                None
            } else {
                let b = if branch == "(no branch)"@ {
                    None
                } else {
                    Some(branch)
                };
                let message = if auto {
                    let k = find_char(text, ' ');
                    if 0 <= k < text.len() {
                        MessageView::Auto(text.take(k), text.skip(k + 1))
                    } else {
                        MessageView::Auto(text, seq![])
                    }
                } else {
                    MessageView::Named(text)
                };
                Some((b, message))
            }
        }
    }
}

/// The entry a line of the list describes, if it is well formed.
pub open spec fn entry_of(line: Seq<char>) -> Option<EntryView> {
    let fields = splits(line, '\0');
    if fields.len() < 4 {
        None
    } else {
        match (index_of(fields[0]), parse_i64(trim(fields[1])), subject_of(fields[2])) {
            (Some(index), Some(time), Some((branch, message))) => Some(
                EntryView { index, oid: trim(fields[3]), branch, time, message },
            ),
            _ => None,
        }
    }
}

/// The entries of the well-formed lines, in order.
pub open spec fn entries_of(ls: Seq<Seq<char>>) -> Seq<EntryView>
    decreases ls.len(),
{
    if ls.len() == 0 {
        seq![]
    } else {
        entries_of(ls.drop_last()) + match entry_of(ls.last()) {
            Some(e) => seq![e],
            None => seq![],
        }
    }
}

// ---------------------------------------------------------------------------
// The list format, in code
// ---------------------------------------------------------------------------

fn parse_index(cs: &Vec<char>, from: usize, to: usize) -> (r: Option<usize>)
    requires
        from <= to <= cs@.len(),
    ensures
        r == index_of(cs@.subrange(from as int, to as int)),
{
    let ghost sel = cs@.subrange(from as int, to as int);
    let (a, b) = trim_bounds(cs, from, to);
    let ghost t = trim(sel);
    assert(t == cs@.subrange(a as int, b as int));
    let prefix = chars_of("stash@{");
    proof {
        reveal_strlit("stash@{");
    }
    if !starts_within(cs, a, b, &prefix) {
        return None;
    }
    let start = a + 7;
    assert(t.skip(7) =~= cs@.subrange(start as int, b as int));
    let j = find_in(cs, start, b, '}');
    if j == b - start {
        return None;
    }
    assert(t.skip(7).take(j as int) =~= cs@.subrange(start as int, (start + j) as int));
    let (c, d) = trim_bounds(cs, start, start + j);
    parse_usize_in(cs, c, d)
}

fn subject_message(cs: &Vec<char>, a: usize, b: usize, auto: bool) -> (r: StashMessage)
    requires
        a <= b <= cs@.len(),
    ensures
        message_view(r) == (if auto {
            let text = cs@.subrange(a as int, b as int);
            let k = find_char(text, ' ');
            if 0 <= k < text.len() {
                MessageView::Auto(text.take(k), text.skip(k + 1))
            } else {
                MessageView::Auto(text, seq![])
            }
        } else {
            MessageView::Named(cs@.subrange(a as int, b as int))
        }),
{
    let ghost text = cs@.subrange(a as int, b as int);
    if auto {
        let k = find_in(cs, a, b, ' ');
        if k < b - a {
            assert(text.take(k as int) =~= cs@.subrange(a as int, (a + k) as int));
            assert(text.skip(k + 1) =~= cs@.subrange((a + k + 1) as int, b as int));
            StashMessage::Auto {
                base_id: string_of(cs, a, a + k),
                base_summary: string_of(cs, a + k + 1, b),
            }
        } else {
            let e: Vec<char> = Vec::new();
            let summary = string_of(&e, 0, 0);
            assert(e@.subrange(0, 0) =~= Seq::<char>::empty());
            StashMessage::Auto { base_id: string_of(cs, a, b), base_summary: summary }
        }
    } else {
        StashMessage::Named(string_of(cs, a, b))
    }
}

#[verifier::rlimit(60)]
fn parse_subject(cs: &Vec<char>, from: usize, to: usize) -> (r: Option<(Option<String>, StashMessage)>)
    requires
        from <= to <= cs@.len(),
    ensures
        match (r, subject_of(cs@.subrange(from as int, to as int))) {
            (Some((b, m)), Some((vb, vm))) => opt_str(b) == vb && message_view(m) == vm,
            (None, None) => true,
            _ => false,
        },
{
    let ghost subject = cs@.subrange(from as int, to as int);
    let wip = chars_of("WIP on ");
    let on = chars_of("On ");
    proof {
        reveal_strlit("WIP on ");
        reveal_strlit("On ");
        reveal_strlit(": ");
    }
    let auto = starts_within(cs, from, to, &wip);
    let start = if auto {
        from + 7
    } else if starts_within(cs, from, to, &on) {
        from + 3
    } else {
        return None;
    };
    let ghost rest = if auto {
        subject.skip(7)
    } else {
        subject.skip(3)
    };
    assert(rest =~= cs@.subrange(start as int, to as int));
    let sep = chars_of(": ");
    let j = find_seq_in(cs, start, to, &sep);
    if j == to - start {
        return None;
    }
    let branch_end = start + j;
    let text_start = branch_end + 2;
    assert(rest.take(j as int) =~= cs@.subrange(start as int, branch_end as int));
    assert(rest.skip(j + 2) =~= cs@.subrange(text_start as int, to as int));
    let (a, b) = trim_bounds(cs, text_start, to);
    if a == b {
        return None;
    }
    let no_branch = chars_of("(no branch)");
    let branch = if range_eq(cs, start, branch_end, &no_branch) {
        None
    } else {
        Some(string_of(cs, start, branch_end))
    };
    let message = subject_message(cs, a, b, auto);
    Some((branch, message))
}

fn parse_line(cs: &Vec<char>, from: usize, to: usize) -> (r: Option<StashEntry>)
    requires
        from <= to <= cs@.len(),
    ensures
        match (r, entry_of(cs@.subrange(from as int, to as int))) {
            (Some(e), Some(v)) => entry_view(e) == v,
            (None, None) => true,
            _ => false,
        },
{
    let fields = split_spans(cs, from, to, '\0');
    if fields.len() < 4 {
        return None;
    }
    let f0 = &fields[0];
    let f1 = &fields[1];
    let f2 = &fields[2];
    let f3 = &fields[3];
    let index = parse_index(cs, f0.start, f0.end);
    let (ta, tb) = trim_bounds(cs, f1.start, f1.end);
    let time = parse_i64_in(cs, ta, tb);
    let subject = parse_subject(cs, f2.start, f2.end);
    match (index, time, subject) {
        (Some(index), Some(time), Some((branch, message))) => {
            let (oa, ob) = trim_bounds(cs, f3.start, f3.end);
            let oid = string_of(cs, oa, ob);
            Some(StashEntry { index, oid, branch, time, message })
        },
        _ => None,
    }
}

/// The entries of `git stash list` output; malformed lines are skipped.
#[verifier::spinoff_prover]
#[verifier::rlimit(50)]
pub fn parse_stash_list(text: &str) -> (entries: Vec<StashEntry>)
    ensures
        entries_view(entries@) == entries_of(lines(text@)),
{
    let cs = chars_of(text);
    let spans = line_spans(&cs);
    let ghost ls = lines(cs@);
    let mut entries: Vec<StashEntry> = Vec::new();
    let mut k: usize = 0;
    assert(ls.take(0) =~= Seq::<Seq<char>>::empty());
    assert(entries_view(entries@) =~= Seq::<EntryView>::empty());
    while k < spans.len()
        invariant
            cs@ == text@,
            ls == lines(cs@),
            spans@.len() == ls.len(),
            forall|q: int|
                0 <= q < spans@.len() ==> {
                    &&& (#[trigger] spans@[q]).start <= spans@[q].end <= cs@.len()
                    &&& span_text(cs@, spans@[q]) == ls[q]
                },
            k <= spans@.len(),
            entries_view(entries@) == entries_of(ls.take(k as int)),
        decreases spans@.len() - k,
    {
        let sp = &spans[k];
        let ghost before = entries_view(entries@);
        let parsed = parse_line(&cs, sp.start, sp.end);
        match parsed {
            Some(entry) => {
                entries.push(entry);
                assert(entries_view(entries@) =~= before + seq![entry_view(entry)]);
            },
            None => {
                assert(entries_view(entries@) =~= before + Seq::<EntryView>::empty());
            },
        }
        k = k + 1;
        proof {
            let t = ls.take(k as int);
            assert(t.drop_last() =~= ls.take(k - 1));
            assert(t.last() == ls[k - 1]);
        }
    }
    assert(ls.take(k as int) =~= ls);
    entries
}

// ---------------------------------------------------------------------------
// The stash view
// ---------------------------------------------------------------------------

#[derive(Debug, Clone, Copy, Default, PartialEq, Eq)]
pub struct StashStats {
    pub files: usize,
    pub added: usize,
    pub removed: usize,
}

#[derive(Debug, Clone)]
pub struct StashFile {
    pub path: String,
    pub status: FileStatus,
    pub stats: LineStats,
    pub untracked: bool,
}

#[derive(Debug, Clone, Copy, PartialEq, Eq, Structural)]
pub enum Focus {
    Entries,
    Files,
    Hunks,
}

pub type StashPanel = SlidePanel<StashEntry>;

/// The stash list with the focused entry's files and diff.
pub struct StashView {
    pub panel: StashPanel,
    pub focus: Focus,
    pub files: Vec<StashFile>,
    pub file: usize,
    pub diff: Option<FileDiff>,
    pub fullscreen: bool,
    pub split: bool,
    pub hunk: usize,
    pub diff_scroll: u16,
    pub diff_hscroll: u16,
    pub files_scroll: u16,
    pub hunk_snap: bool,
}

impl StashView {
    /// The view opening on `entries`, focused on the list.
    pub fn opening(entries: Vec<StashEntry>) -> (r: Self)
        ensures
            r.panel.entries@ == entries@,
            r.panel.selected == 0,
            r.focus == Focus::Entries,
            r.files@.len() == 0,
            r.file == 0,
            r.diff is None,
            !r.fullscreen,
            !r.split,
            r.hunk == 0,
            r.diff_scroll == 0,
            r.diff_hscroll == 0,
            r.files_scroll == 0,
            !r.hunk_snap,
    {
        StashView {
            panel: StashPanel::opening(entries),
            focus: Focus::Entries,
            files: Vec::new(),
            file: 0,
            diff: None,
            fullscreen: false,
            split: false,
            hunk: 0,
            diff_scroll: 0,
            diff_hscroll: 0,
            files_scroll: 0,
            hunk_snap: false,
        }
    }

    pub fn focused_entry(&self) -> (r: Option<&StashEntry>)
        ensures
            r == (if self.panel.selected < self.panel.entries@.len() {
                Some(&self.panel.entries@[self.panel.selected as int])
            } else {
                None
            }),
    {
        self.panel.focused()
    }

    pub fn focused_file(&self) -> (r: Option<&StashFile>)
        ensures
            r == (if self.file < self.files@.len() {
                Some(&self.files@[self.file as int])
            } else {
                None
            }),
    {
        if self.file < self.files.len() {
            Some(&self.files[self.file])
        } else {
            None
        }
    }

    /// Moves to another file; its diff starts at the top, on its first hunk.
    pub fn move_file(&mut self, delta: isize)
        requires
            old(self).file <= isize::MAX,
            isize::MIN <= old(self).file + delta <= isize::MAX,
            old(self).files@.len() <= isize::MAX,
        ensures
            final(self).file == clamp_spec(
                old(self).file as int,
                delta as int,
                old(self).files@.len() as int,
            ),
            final(self).diff_scroll == 0,
            final(self).diff_hscroll == 0,
            final(self).hunk == 0,
            final(self).files@ == old(self).files@,
            final(self).focus == old(self).focus,
            final(self).hunk_snap == old(self).hunk_snap,
    {
        self.file = clamp_index(self.file, delta, self.files.len());
        self.diff_scroll = 0;
        self.diff_hscroll = 0;
        self.hunk = 0;
    }

    /// Moves to another hunk of the diff and asks for it to be scrolled into view.
    pub fn move_hunk(&mut self, delta: isize)
        requires
            old(self).hunk <= isize::MAX,
            isize::MIN <= old(self).hunk + delta <= isize::MAX,
            old(self).diff matches Some(d) ==> d.hunks@.len() <= isize::MAX,
        ensures
            ({
                let len = match old(self).diff {
                    Some(d) => d.hunks@.len() as int,
                    None => 0,
                };
                &&& final(self).hunk == clamp_spec(old(self).hunk as int, delta as int, len)
                &&& final(self).hunk_snap == (len > 0 || old(self).hunk_snap)
            }),
            final(self).file == old(self).file,
            final(self).focus == old(self).focus,
    {
        let len = match &self.diff {
            Some(diff) => diff.hunks.len(),
            None => 0,
        };
        if len == 0 {
            self.hunk = 0;
            return;
        }
        self.hunk = clamp_index(self.hunk, delta, len);
        self.hunk_snap = true;
    }

    /// Moves the focus on: the list, then its files when there are any,
    /// then the diff when one is loaded, then back to the list.
    pub fn rotate_focus(&mut self)
        ensures
            final(self).focus == match old(self).focus {
                Focus::Entries => if old(self).files@.len() > 0 {
                    Focus::Files
                } else {
                    Focus::Entries
                },
                Focus::Files => if old(self).diff is Some {
                    Focus::Hunks
                } else {
                    Focus::Entries
                },
                Focus::Hunks => Focus::Entries,
            },
            final(self).file == old(self).file,
            final(self).hunk == old(self).hunk,
    {
        self.focus = match self.focus {
            Focus::Entries => if self.files.len() > 0 {
                Focus::Files
            } else {
                Focus::Entries
            },
            Focus::Files => if self.diff.is_some() {
                Focus::Hunks
            } else {
                Focus::Entries
            },
            Focus::Hunks => Focus::Entries,
        };
    }
}

} // verus!
