//! What the repository reader hands over: ref badges, file statuses, the
//! working tree's status, and the lines of a file's diff.
use vstd::prelude::*;
use vstd::string::StrSliceExecFns;

use crate::text::{
    chars_of, is_whitespace, is_ws, lemma_trim_end_at, push_char, push_str, string_of, trim_end,
};

verus! {

#[derive(Debug, Clone, Copy, PartialEq, Eq, Structural)]
pub enum BadgeKind {
    Head,
    CurrentBranch,
    LocalBranch,
    Upstream,
}

#[derive(Debug, Clone)]
pub struct RefBadge {
    pub label: String,
    pub kind: BadgeKind,
}

#[derive(Debug, Clone, Copy, PartialEq, Eq, Structural)]
pub enum FileStatus {
    Added,
    Deleted,
    Modified,
    Renamed,
    Copied,
    Typechange,
    Other,
}

pub open spec fn status_code(s: FileStatus) -> char {
    match s {
        FileStatus::Added => 'A',
        FileStatus::Deleted => 'D',
        FileStatus::Modified => 'M',
        FileStatus::Renamed => 'R',
        FileStatus::Copied => 'C',
        FileStatus::Typechange => 'T',
        FileStatus::Other => '?',
    }
}

impl FileStatus {
    /// The one-letter code git uses for the status.
    pub fn code(self) -> (c: char)
        ensures
            c == status_code(self),
    {
        match self {
            FileStatus::Added => 'A',
            FileStatus::Deleted => 'D',
            FileStatus::Modified => 'M',
            FileStatus::Renamed => 'R',
            FileStatus::Copied => 'C',
            FileStatus::Typechange => 'T',
            FileStatus::Other => '?',
        }
    }
}

#[derive(Debug, Clone)]
pub struct FileChange {
    pub path: String,
    pub status: FileStatus,
}

#[derive(Debug, Clone, Copy, PartialEq, Eq, Structural)]
pub enum StageState {
    Staged,
    Unstaged,
    Untracked,
}

/// The status code of a file with unresolved conflicts.
pub const CONFLICTED: char = 'U';

#[derive(Debug, Clone, PartialEq, Eq)]
pub struct WorkingFile {
    pub path: String,
    pub status: char,
    pub state: StageState,
}

#[derive(Debug, Clone, PartialEq, Eq)]
pub struct WorkingStatus {
    pub staged: Vec<WorkingFile>,
    pub unstaged: Vec<WorkingFile>,
    pub untracked: Vec<WorkingFile>,
}

impl Default for WorkingStatus {
    fn default() -> (r: Self)
        ensures
            r.staged@.len() == 0,
            r.unstaged@.len() == 0,
            r.untracked@.len() == 0,
    {
        WorkingStatus { staged: Vec::new(), unstaged: Vec::new(), untracked: Vec::new() }
    }
}

impl WorkingStatus {
    /// Whether nothing is staged, changed or untracked.
    pub fn is_empty(&self) -> (r: bool)
        ensures
            r == (self.staged@.len() == 0 && self.unstaged@.len() == 0 && self.untracked@.len()
                == 0),
    {
        self.staged.len() == 0 && self.unstaged.len() == 0 && self.untracked.len() == 0
    }

    /// The number of entries over the three lists.
    pub fn total(&self) -> (n: usize)
        requires
            self.staged@.len() + self.unstaged@.len() + self.untracked@.len() <= usize::MAX,
        ensures
            n == self.staged@.len() + self.unstaged@.len() + self.untracked@.len(),
    {
        self.staged.len() + self.unstaged.len() + self.untracked.len()
    }
}

/// Lines added and removed.
#[derive(Debug, Clone, Copy, Default, PartialEq, Eq)]
pub struct LineStats {
    pub added: usize,
    pub removed: usize,
}

/// The status bits of one path, as the repository reports them.
#[derive(Debug, Clone, Copy, PartialEq, Eq)]
pub struct StatusFlags {
    pub index_new: bool,
    pub index_modified: bool,
    pub index_deleted: bool,
    pub index_renamed: bool,
    pub index_typechange: bool,
    pub wt_new: bool,
    pub wt_modified: bool,
    pub wt_deleted: bool,
    pub wt_renamed: bool,
    pub wt_typechange: bool,
}

/// The staged code of a path, by precedence: new, modified, deleted, renamed, type change.
pub open spec fn index_code(f: StatusFlags) -> Option<char> {
    if f.index_new {
        Some('A')
    } else if f.index_modified {
        Some('M')
    } else if f.index_deleted {
        Some('D')
    } else if f.index_renamed {
        Some('R')
    } else if f.index_typechange {
        Some('T')
    } else {
        None
    }
}

/// The unstaged code of a tracked path, by precedence: modified, deleted, renamed, type change.
pub open spec fn worktree_code(f: StatusFlags) -> Option<char> {
    if f.wt_modified {
        Some('M')
    } else if f.wt_deleted {
        Some('D')
    } else if f.wt_renamed {
        Some('R')
    } else if f.wt_typechange {
        Some('T')
    } else {
        None
    }
}

pub fn index_status(f: StatusFlags) -> (r: Option<char>)
    ensures
        r == index_code(f),
{
    if f.index_new {
        Some('A')
    } else if f.index_modified {
        Some('M')
    } else if f.index_deleted {
        Some('D')
    } else if f.index_renamed {
        Some('R')
    } else if f.index_typechange {
        Some('T')
    } else {
        None
    }
}

pub fn worktree_status(f: StatusFlags) -> (r: Option<char>)
    ensures
        r == worktree_code(f),
{
    if f.wt_modified {
        Some('M')
    } else if f.wt_deleted {
        Some('D')
    } else if f.wt_renamed {
        Some('R')
    } else if f.wt_typechange {
        Some('T')
    } else {
        None
    }
}

/// A path with its status bits.
#[derive(Debug, Clone)]
pub struct StatusEntry {
    pub path: String,
    pub flags: StatusFlags,
}

pub open spec fn wf_view(w: WorkingFile) -> (Seq<char>, char, StageState) {
    (w.path@, w.status, w.state)
}

pub open spec fn wfs_view(ws: Seq<WorkingFile>) -> Seq<(Seq<char>, char, StageState)> {
    ws.map_values(|w: WorkingFile| wf_view(w))
}

/// The staged list: every path with a staged code, in order.
pub open spec fn staged_of(es: Seq<StatusEntry>) -> Seq<(Seq<char>, char, StageState)>
    decreases es.len(),
{
    if es.len() == 0 {
        seq![]
    } else {
        let e = es.last();
        staged_of(es.drop_last()) + match index_code(e.flags) {
            Some(c) => seq![(e.path@, c, StageState::Staged)],
            None => seq![],
        }
    }
}

/// The untracked list: every new path in the working tree, in order.
pub open spec fn untracked_of(es: Seq<StatusEntry>) -> Seq<(Seq<char>, char, StageState)>
    decreases es.len(),
{
    if es.len() == 0 {
        seq![]
    } else {
        let e = es.last();
        untracked_of(es.drop_last()) + if e.flags.wt_new {
            seq![(e.path@, '?', StageState::Untracked)]
        } else {
            seq![]
        }
    }
}

/// The unstaged list: every tracked path with an unstaged code, in order.
pub open spec fn unstaged_of(es: Seq<StatusEntry>) -> Seq<(Seq<char>, char, StageState)>
    decreases es.len(),
{
    if es.len() == 0 {
        seq![]
    } else {
        let e = es.last();
        unstaged_of(es.drop_last()) + if e.flags.wt_new {
            seq![]
        } else {
            match worktree_code(e.flags) {
                Some(c) => seq![(e.path@, c, StageState::Unstaged)],
                None => seq![],
            }
        }
    }
}

/// Sorts the reported paths into the staged, unstaged and untracked lists;
/// a path can be both staged and unstaged, and a new path in the working
/// tree is untracked and never unstaged.
pub fn classify_status(entries: &[StatusEntry]) -> (status: WorkingStatus)
    ensures
        wfs_view(status.staged@) == staged_of(entries@),
        wfs_view(status.unstaged@) == unstaged_of(entries@),
        wfs_view(status.untracked@) == untracked_of(entries@),
{
    let mut status = WorkingStatus::default();
    let mut k: usize = 0;
    assert(entries@.take(0) =~= Seq::<StatusEntry>::empty());
    assert(wfs_view(status.staged@) =~= Seq::<(Seq<char>, char, StageState)>::empty());
    assert(wfs_view(status.unstaged@) =~= Seq::<(Seq<char>, char, StageState)>::empty());
    assert(wfs_view(status.untracked@) =~= Seq::<(Seq<char>, char, StageState)>::empty());
    while k < entries.len()
        invariant
            k <= entries@.len(),
            wfs_view(status.staged@) == staged_of(entries@.take(k as int)),
            wfs_view(status.unstaged@) == unstaged_of(entries@.take(k as int)),
            wfs_view(status.untracked@) == untracked_of(entries@.take(k as int)),
        decreases entries@.len() - k,
    {
        let entry = &entries[k];
        let flags = entry.flags;
        let ghost s0 = wfs_view(status.staged@);
        let ghost u0 = wfs_view(status.unstaged@);
        let ghost n0 = wfs_view(status.untracked@);
        if let Some(code) = index_status(flags) {
            status.staged.push(
                WorkingFile { path: entry.path.clone(), status: code, state: StageState::Staged },
            );
            assert(wfs_view(status.staged@) =~= s0 + seq![(entry.path@, code, StageState::Staged)]);
        } else {
            assert(wfs_view(status.staged@) =~= s0 + Seq::<(Seq<char>, char, StageState)>::empty());
        }
        if flags.wt_new {
            status.untracked.push(
                WorkingFile { path: entry.path.clone(), status: '?', state: StageState::Untracked },
            );
            assert(wfs_view(status.untracked@) =~= n0 + seq![(entry.path@, '?', StageState::Untracked)]);
            assert(wfs_view(status.unstaged@) =~= u0 + Seq::<(Seq<char>, char, StageState)>::empty());
        } else {
            assert(wfs_view(status.untracked@) =~= n0 + Seq::<(Seq<char>, char, StageState)>::empty());
            if let Some(code) = worktree_status(flags) {
                status.unstaged.push(
                    WorkingFile {
                        path: entry.path.clone(),
                        status: code,
                        state: StageState::Unstaged,
                    },
                );
                assert(wfs_view(status.unstaged@) =~= u0 + seq![(entry.path@, code, StageState::Unstaged)]);
            } else {
                assert(wfs_view(status.unstaged@) =~= u0 + Seq::<(Seq<char>, char, StageState)>::empty());
            }
        }
        k = k + 1;
        proof {
            let t = entries@.take(k as int);
            assert(t.drop_last() =~= entries@.take(k - 1));
            assert(t.last() == *entry);
        }
    }
    assert(entries@.take(k as int) =~= entries@);
    status
}

/// The marker a diff line takes from its origin: additions (also of a
/// missing final newline) `+`, removals `-`, anything else a space.
pub open spec fn origin_marker(origin: char) -> char {
    if origin == '+' || origin == '>' {
        '+'
    } else if origin == '-' || origin == '<' {
        '-'
    } else {
        ' '
    }
}

/// `s` without one final line feed.
pub open spec fn strip_lf(s: Seq<char>) -> Seq<char> {
    if s.len() > 0 && s.last() == '\n' {
        s.drop_last()
    } else {
        s
    }
}

/// A diff line as the hunk keeps it: the marker, then the text without its line feed.
pub fn diff_line(origin: char, text: &str) -> (line: String)
    ensures
        line@ == seq![origin_marker(origin)] + strip_lf(text@),
{
    let marker = if origin == '+' || origin == '>' {
        '+'
    } else if origin == '-' || origin == '<' {
        '-'
    } else {
        ' '
    };
    let mut line = String::new();
    push_char(&mut line, marker);
    let n = text.unicode_len();
    if n > 0 && text.get_char(n - 1) == '\n' {
        let body = text.substring_char(0, n - 1);
        push_str(&mut line, body);
        assert(text@.subrange(0, n - 1) =~= text@.drop_last());
    } else {
        push_str(&mut line, text);
    }
    assert(line@ =~= seq![marker] + strip_lf(text@));
    line
}

/// A hunk's header as the diff shows it: the header line without the
/// whitespace, line feed included, that ends it.
pub fn hunk_header(text: &str) -> (header: String)
    ensures
        header@ == trim_end(text@),
{
    let cs = chars_of(text);
    let n = cs.len();
    let end = trimmed_end(&cs, n);
    assert(cs@.subrange(0, n as int) =~= text@);
    string_of(&cs, 0, end)
}

/// Where `cs[..to]` ends once its trailing whitespace is cut off.
fn trimmed_end(cs: &Vec<char>, to: usize) -> (end: usize)
    requires
        to <= cs@.len(),
    ensures
        end <= to,
        cs@.subrange(0, end as int) == trim_end(cs@.subrange(0, to as int)),
{
    let mut b = to;
    while b > 0 && is_whitespace(cs[b - 1])
        invariant
            b <= to <= cs@.len(),
            forall|j: int| b <= j < to ==> is_ws(#[trigger] cs@[j]),
        decreases b,
    {
        b = b - 1;
    }
    proof {
        let t = cs@.subrange(0, to as int);
        assert forall|j: int| b <= j < t.len() implies is_ws(#[trigger] t[j]) by {
            assert(t[j] == cs@[j]);
        }
        if b > 0 {
            assert(t[b - 1] == cs@[b - 1]);
        }
        lemma_trim_end_at(t, b as int);
        assert(t.take(b as int) =~= cs@.subrange(0, b as int));
    }
    b
}


/// Whether a path's flags hold a change in the index.
pub open spec fn index_changed(f: StatusFlags) -> bool {
    f.index_new || f.index_modified || f.index_deleted || f.index_renamed || f.index_typechange
}

/// Whether a path's flags hold a change of a tracked file in the working tree.
pub open spec fn worktree_changed(f: StatusFlags) -> bool {
    f.wt_modified || f.wt_deleted || f.wt_renamed || f.wt_typechange
}

/// The index flag a status letter stands for.
pub open spec fn index_flag(f: StatusFlags, c: char) -> bool {
    ||| c == 'A' && f.index_new
    ||| c == 'M' && f.index_modified
    ||| c == 'D' && f.index_deleted
    ||| c == 'R' && f.index_renamed
    ||| c == 'T' && f.index_typechange
}

/// The working-tree flag a status letter stands for.
pub open spec fn worktree_flag(f: StatusFlags, c: char) -> bool {
    ||| c == 'M' && f.wt_modified
    ||| c == 'D' && f.wt_deleted
    ||| c == 'R' && f.wt_renamed
    ||| c == 'T' && f.wt_typechange
}

/// A path has a staged code exactly when its index holds a change, and the
/// code is the letter of one of the changes it holds; a path whose only
/// index change is one kind gets that kind's letter (a staged deletion is
/// `D`). The same holds of the unstaged code and the working tree.
pub proof fn law_status_codes_name_the_changes(f: StatusFlags)
    ensures
        index_code(f) is Some <==> index_changed(f),
        index_code(f) matches Some(c) ==> index_flag(f, c),
        f.index_deleted && !f.index_new && !f.index_modified ==> index_code(f) == Some('D'),
        f.index_new ==> index_code(f) == Some('A'),
        worktree_code(f) is Some <==> worktree_changed(f),
        worktree_code(f) matches Some(c) ==> worktree_flag(f, c),
        f.wt_deleted && !f.wt_modified ==> worktree_code(f) == Some('D'),
{
}

/// Every reported path with a change in the index is in the staged list,
/// with the letter of one of its index changes; nothing else is.
pub proof fn law_staged_list_holds_the_index_changes(es: Seq<StatusEntry>)
    ensures
        forall|k: int|
            0 <= k < es.len() && index_changed(#[trigger] es[k].flags) ==> exists|c: char|
                index_flag(es[k].flags, c) && staged_of(es).contains((es[k].path@, c, StageState::Staged)),
        forall|j: int|
            0 <= j < staged_of(es).len() ==> exists|k: int|
                0 <= k < es.len() && (#[trigger] staged_of(es)[j]).0 == es[k].path@ && staged_of(es)[j].2
                    == StageState::Staged && index_flag(es[k].flags, staged_of(es)[j].1),
    decreases es.len(),
{
    if es.len() > 0 {
        let init = es.drop_last();
        law_staged_list_holds_the_index_changes(init);
        let e = es.last();
        law_status_codes_name_the_changes(e.flags);
        let tail: Seq<(Seq<char>, char, StageState)> = match index_code(e.flags) {
            Some(c) => seq![(e.path@, c, StageState::Staged)],
            None => seq![],
        };
        let s = staged_of(es);
        assert(s == staged_of(init) + tail);
        assert forall|k: int|
            0 <= k < es.len() && index_changed(#[trigger] es[k].flags) implies exists|c: char|
                index_flag(es[k].flags, c) && s.contains((es[k].path@, c, StageState::Staged)) by {
            if k < es.len() - 1 {
                assert(es[k] == init[k]);
                let c = choose|c: char|
                    index_flag(init[k].flags, c) && staged_of(init).contains((init[k].path@, c, StageState::Staged));
                let i = choose|i: int| 0 <= i < staged_of(init).len() && staged_of(init)[i] == (init[k].path@, c, StageState::Staged);
                assert(s[i] == staged_of(init)[i]);
                assert(s.contains((es[k].path@, c, StageState::Staged)));
            } else {
                let c = index_code(e.flags)->0;
                assert(s[s.len() - 1] == (e.path@, c, StageState::Staged));
                assert(s.contains((es[k].path@, c, StageState::Staged)));
            }
        }
        assert forall|j: int| 0 <= j < s.len() implies exists|k: int|
            0 <= k < es.len() && (#[trigger] s[j]).0 == es[k].path@ && s[j].2 == StageState::Staged && index_flag(
                es[k].flags,
                s[j].1,
            ) by {
            if j < staged_of(init).len() {
                assert(s[j] == staged_of(init)[j]);
                let k = choose|k: int|
                    0 <= k < init.len() && (#[trigger] staged_of(init)[j]).0 == init[k].path@ && staged_of(init)[j].2
                        == StageState::Staged && index_flag(init[k].flags, staged_of(init)[j].1);
                assert(es[k] == init[k]);
            } else {
                assert(s[j] == tail[j - staged_of(init).len()]);
                assert(es[es.len() - 1] == e);
            }
        }
    }
}

} // verus!
