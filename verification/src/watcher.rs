//! Which filesystem events make the client reload, and how a burst of them
//! is coalesced into one reload.
use vstd::prelude::*;

use crate::text::{chars_of, splits, split_spans, span_text};

verus! {

/// The part of a modification that an event reports.
#[derive(Debug, Clone, Copy, PartialEq, Eq, Structural)]
pub enum ModifyClass {
    Any,
    Data,
    Metadata,
    Name,
    Other,
}

/// What a filesystem event says happened.
#[derive(Debug, Clone, Copy, PartialEq, Eq, Structural)]
pub enum ChangeKind {
    Any,
    Access,
    Create,
    Modify(ModifyClass),
    Remove,
    Other,
}

/// Whether an event can mean that the repository changed: reads and
/// metadata-only updates (access times and the like) cannot.
pub fn signals_change(kind: &ChangeKind) -> (r: bool)
    ensures
        r == !(*kind == ChangeKind::Access || *kind == ChangeKind::Modify(ModifyClass::Metadata)),
{
    match kind {
        ChangeKind::Access => false,
        ChangeKind::Modify(ModifyClass::Metadata) => false,
        _ => true,
    }
}

/// Whether an event can bring a new directory into the tree: a creation or
/// a rename.
pub fn opens_directories(kind: &ChangeKind) -> (r: bool)
    ensures
        r == (*kind == ChangeKind::Create || *kind == ChangeKind::Modify(ModifyClass::Name)),
{
    match kind {
        ChangeKind::Create => true,
        ChangeKind::Modify(ModifyClass::Name) => true,
        _ => false,
    }
}

/// Whether an event makes the client reload: it signals a change, and it
/// names no paths or at least one relevant path.
pub fn should_reload(kind: &ChangeKind, relevant: &[bool]) -> (r: bool)
    ensures
        r == (signals_change_spec(*kind) && (relevant@.len() == 0 || relevant@.contains(true))),
{
    if !signals_change(kind) {
        return false;
    }
    if relevant.len() == 0 {
        return true;
    }
    let mut k: usize = 0;
    while k < relevant.len()
        invariant
            k <= relevant@.len(),
            signals_change_spec(*kind),
            forall|j: int| 0 <= j < k ==> !relevant@[j],
        decreases relevant@.len() - k,
    {
        if relevant[k] {
            assert(relevant@[k as int] == true);
            return true;
        }
        k = k + 1;
    }
    false
}

pub open spec fn signals_change_spec(kind: ChangeKind) -> bool {
    !(kind == ChangeKind::Access || kind == ChangeKind::Modify(ModifyClass::Metadata))
}

pub open spec fn git_name() -> Seq<char> {
    seq!['.', 'g', 'i', 't']
}

/// Whether some component of a relative path is a `.git` directory.
pub open spec fn holds_git_dir_spec(path: Seq<char>) -> bool {
    splits(path, '/').contains(git_name())
}

/// Whether a path runs through a `.git` directory: such paths always matter,
/// since they hold the refs and index of nested repositories.
pub fn holds_git_dir(path: &str) -> (r: bool)
    ensures
        r == holds_git_dir_spec(path@),
{
    let cs = chars_of(path);
    let n = cs.len();
    let spans = split_spans(&cs, 0, n, '/');
    assert(cs@.subrange(0, n as int) =~= path@);
    let ghost parts = splits(path@, '/');
    let dot_git = chars_of(".git");
    proof {
        reveal_strlit(".git");
        assert(dot_git@ =~= git_name());
    }
    let mut k: usize = 0;
    while k < spans.len()
        invariant
            k <= spans@.len(),
            spans@.len() == parts.len(),
            parts == splits(path@, '/'),
            cs@ == path@,
            dot_git@ == git_name(),
            forall|q: int|
                0 <= q < spans@.len() ==> {
                    &&& (#[trigger] spans@[q]).start <= spans@[q].end <= cs@.len()
                    &&& span_text(cs@, spans@[q]) == parts[q]
                },
            forall|j: int| 0 <= j < k ==> parts[j] != git_name(),
        decreases spans@.len() - k,
    {
        let sp = &spans[k];
        if crate::text::range_eq(&cs, sp.start, sp.end, &dot_git) {
            assert(parts[k as int] == git_name());
            return true;
        }
        k = k + 1;
    }
    false
}

/// The components of a path that name something: pieces between slashes
/// that are neither empty nor `.`.
pub open spec fn named_parts(path: Seq<char>) -> Seq<Seq<char>> {
    splits(path, '/').filter(|p: Seq<char>| p.len() > 0 && p != seq!['.'])
}

/// Whether the last component of a path is a `.git` directory.
pub open spec fn is_git_dir_spec(path: Seq<char>) -> bool {
    let ps = named_parts(path);
    ps.len() > 0 && ps.last() == git_name()
}

/// Whether a path is a `.git` directory itself.
pub fn is_git_dir(path: &str) -> (r: bool)
    ensures
        r == is_git_dir_spec(path@),
{
    let cs = chars_of(path);
    let n = cs.len();
    let spans = split_spans(&cs, 0, n, '/');
    assert(cs@.subrange(0, n as int) =~= path@);
    let ghost parts = splits(path@, '/');
    let dot_git = chars_of(".git");
    let dot = chars_of(".");
    proof {
        reveal_strlit(".git");
        reveal_strlit(".");
        assert(dot_git@ =~= git_name());
        assert(dot@ =~= seq!['.']);
    }
    let mut last_is_git = false;
    let mut k: usize = 0;
    proof {
        reveal(Seq::filter);
        assert(parts.take(0).filter(|p: Seq<char>| p.len() > 0 && p != seq!['.']) =~= Seq::<
            Seq<char>,
        >::empty());
    }
    while k < spans.len()
        invariant
            k <= spans@.len(),
            spans@.len() == parts.len(),
            parts == splits(path@, '/'),
            cs@ == path@,
            dot_git@ == git_name(),
            dot@ == seq!['.'],
            forall|q: int|
                0 <= q < spans@.len() ==> {
                    &&& (#[trigger] spans@[q]).start <= spans@[q].end <= cs@.len()
                    &&& span_text(cs@, spans@[q]) == parts[q]
                },
            ({
                let ps = parts.take(k as int).filter(|p: Seq<char>| p.len() > 0 && p != seq!['.']);
                last_is_git == (ps.len() > 0 && ps.last() == git_name())
            }),
        decreases spans@.len() - k,
    {
        let sp = &spans[k];
        proof {
            reveal(Seq::filter);
            assert(parts.take(k + 1).drop_last() =~= parts.take(k as int));
            assert(parts.take(k + 1).last() == parts[k as int]);
        }
        let named = sp.start < sp.end && !crate::text::range_eq(&cs, sp.start, sp.end, &dot);
        if named {
            last_is_git = crate::text::range_eq(&cs, sp.start, sp.end, &dot_git);
        }
        k = k + 1;
    }
    assert(parts.take(k as int) =~= parts);
    last_is_git
}

/// What reaches the debouncer: a change, or a new directory to watch.
#[derive(Debug, Clone, PartialEq, Eq)]
pub enum Signal {
    Changed,
    Discovered(String),
}

/// What one signal asks of the debouncer: whether a reload is owed, and
/// which directory to start watching, if any.
pub fn absorb(signal: Signal) -> (r: (bool, Option<String>))
    ensures
        match signal {
            Signal::Changed => r.0 && r.1.is_none(),
            Signal::Discovered(path) => !r.0 && r.1 == Some(path),
        },
{
    match signal {
        Signal::Changed => (true, None),
        Signal::Discovered(path) => (false, Some(path)),
    }
}

/// How long to wait for more of a burst: the debounce period, but never past
/// `max_coalesce` after the burst began.
pub open spec fn quiet_spec(debounce: u128, max_coalesce: u128, elapsed: u128) -> int {
    let left: int = if elapsed >= max_coalesce {
        0
    } else {
        max_coalesce - elapsed
    };
    if debounce <= left {
        debounce as int
    } else {
        left
    }
}

/// The wait before the next signal of a burst, in nanoseconds; zero means
/// the burst is over and the reload is due now.
pub fn quiet_period(debounce: u128, max_coalesce: u128, elapsed: u128) -> (r: u128)
    ensures
        r == quiet_spec(debounce, max_coalesce, elapsed),
        elapsed + r <= max_coalesce || r == 0,
        r <= debounce,
{
    let left = if elapsed >= max_coalesce {
        0
    } else {
        max_coalesce - elapsed
    };
    if debounce <= left {
        debounce
    } else {
        left
    }
}

/// A burst never outlasts `max_coalesce`: once that much time has passed
/// since it began, the wait is over, whatever the debounce period.
pub proof fn law_burst_is_bounded(debounce: u128, max_coalesce: u128, elapsed: u128)
    ensures
        elapsed >= max_coalesce ==> quiet_spec(debounce, max_coalesce, elapsed) == 0,
        elapsed + quiet_spec(debounce, max_coalesce, elapsed) <= max_coalesce || quiet_spec(
            debounce,
            max_coalesce,
            elapsed,
        ) == 0,
{
}

/// Where a path stands against the repository being watched.
#[derive(Debug, Clone, PartialEq, Eq)]
pub enum PathPlace {
    /// Inside the git directory.
    GitDir,
    /// The repository has no working tree, and the path is not in the git directory.
    NoWorktree,
    /// Outside the working tree.
    OutsideWorktree,
    /// Inside the working tree, at this path relative to its root.
    InWorktree(String),
}

/// Whether a change at a path can matter: anything in the git directory, in
/// a repository without a working tree, or outside the tree; in the tree,
/// its root, anything that runs through a nested `.git`, and whatever git
/// does not ignore.
pub open spec fn relevant_spec(place: PathPlace, ignored: bool) -> bool {
    match place {
        PathPlace::InWorktree(relative) => relative@.len() == 0 || holds_git_dir_spec(relative@) || !ignored,
        _ => true,
    }
}

pub fn is_relevant(place: &PathPlace, ignored: bool) -> (r: bool)
    ensures
        r == relevant_spec(*place, ignored),
{
    match place {
        PathPlace::InWorktree(relative) => {
            let n = chars_of(relative.as_str()).len();
            n == 0 || holds_git_dir(relative.as_str()) || !ignored
        },
        _ => true,
    }
}

/// Whether a directory is watched on its own: never inside the git directory
/// (that is watched whole), and only directories; a nested `.git` always; in
/// a repository without a working tree every directory; outside the tree
/// none; in the tree its root and whatever git does not ignore.
pub open spec fn watched_spec(place: PathPlace, is_dir: bool, names_git_dir: bool, ignored: bool) -> bool {
    match place {
        PathPlace::GitDir => false,
        PathPlace::NoWorktree => is_dir,
        PathPlace::OutsideWorktree => is_dir && names_git_dir,
        PathPlace::InWorktree(relative) => is_dir && (names_git_dir || relative@.len() == 0 || !ignored),
    }
}

pub fn is_watched(place: &PathPlace, is_dir: bool, names_git_dir: bool, ignored: bool) -> (r: bool)
    ensures
        r == watched_spec(*place, is_dir, names_git_dir, ignored),
{
    match place {
        PathPlace::GitDir => false,
        PathPlace::NoWorktree => is_dir,
        PathPlace::OutsideWorktree => is_dir && names_git_dir,
        PathPlace::InWorktree(relative) => {
            let n = chars_of(relative.as_str()).len();
            is_dir && (names_git_dir || n == 0 || !ignored)
        },
    }
}

} // verus!
