//! The client's input vocabulary and the small pieces of state and wording
//! around it: actions, input contexts, prompts, the command palette and the
//! notes that describe a join before it runs.
use vstd::prelude::*;

use std::time::Duration;

use crate::askpass::PromptKind;
use crate::conflict::OpKind;
use crate::git::{CONFLICTED, StageState, WorkingFile};
use crate::join::{JoinOption, JoinStrategy, MergePrediction};
use crate::mutate::{CliView, GitCli, GitCommand, runs, stash_ref};
use crate::celebrate::Event;
use crate::undo::{UndoableAction, inverse, run_args};
use crate::palette::{filter_spec, fuzzy_filter, strs_of};
use crate::text::{chars_of, decimal, push_char, push_decimal, push_str, string_of, strs};

verus! {

/// A copy of a `Duration` (`Duration` is `Copy`: its clone is the value itself).
pub assume_specification[ <Duration as Clone>::clone ](d: &Duration) -> (r: Duration)
    ensures
        r == *d,
;

#[derive(Debug, Clone, PartialEq, Eq)]
pub enum Action {
    SelectNext,
    SelectPrev,
    SelectFirst,
    SelectLast,
    PageDown,
    PageUp,
    ScrollDown,
    ScrollUp,
    ScrollFilesDown,
    ScrollFilesUp,
    ScrollDiffLeft,
    ScrollDiffRight,
    ClickRow(usize),
    PointerDown(usize),
    PointerDrag(usize),
    PointerUp(usize),
    PointerCancel,
    OpenPanel,
    Dismiss,
    ToggleHelp,
    ToggleStage,
    StageAll,
    Discard,
    OpenCommit,
    ToggleFocus,
    ToggleFocusBack,
    ToggleDiffView,
    CommitInput(char),
    CommitBackspace,
    CommitSubmit,
    ConfirmYes,
    ConfirmNo,
    ToggleBranches,
    Checkout,
    Fetch,
    Pull,
    Push,
    StashSave,
    StashMessageInput(char),
    StashMessageBackspace,
    StashMessageSubmit,
    ToggleStashes,
    StashPop,
    StashApply,
    StashDrop,
    StashRestoreFile,
    StashBranch,
    OpenJoin,
    ExecuteJoin,
    TakeOurs,
    TakeTheirs,
    ContinueConflict,
    AbortConflict,
    EditConflict,
    SkipRebase,
    ConflictNextFile,
    NewBranch,
    DeleteBranch,
    ToggleBranchVisibility,
    SoloBranch,
    PinBranch,
    StartBranchFilter,
    StartStashFilter,
    StashFilterInput(char),
    StashFilterBackspace,
    StashFilterSubmit,
    BranchFilterInput(char),
    BranchFilterBackspace,
    BranchFilterSubmit,
    ToggleFocusPanel,
    SaveFocus,
    FocusNameInput(char),
    FocusNameBackspace,
    FocusNameSubmit,
    ActivateFocus,
    DeleteFocus,
    ToggleSubmodulePanel,
    EnterSubmodule,
    ExitSubmodule,
    InitSubmodule,
    UpdateSubmodule,
    BranchNameInput(char),
    BranchNameBackspace,
    BranchNameSubmit,
    OpenPalette,
    PaletteInput(char),
    PaletteBackspace,
    PaletteSubmit,
    PasswordInput(char),
    PasswordBackspace,
    PasswordSubmit,
    CycleCelebrations,
    Undo,
    Reload,
    Tick(Duration),
    Quit,
}

#[derive(Debug, Clone, Copy, PartialEq, Eq, Structural)]
pub enum InputContext {
    Graph,
    Working,
    Commit,
    StashMessage,
    Confirm,
    Branch,
    BranchName,
    BranchFilter,
    StashFilter,
    FocusSets,
    FocusName,
    Submodules,
    CommitDiff,
    Alert,
    Join,
    Conflict,
    Stash,
    Palette,
    Password,
}

/// A scroll offset moved by `delta` lines, stopping at the top; as a `u16`
/// it keeps the low sixteen bits of the new offset.
pub open spec fn shifted(current: u16, delta: isize) -> int {
    let moved = current + delta;
    (if moved < 0 {
        0
    } else {
        moved
    }) % 65536
}

pub fn shift_scroll(current: u16, delta: isize) -> (r: u16)
    requires
        current + delta <= isize::MAX,
    ensures
        r == shifted(current, delta),
{
    let moved: isize = current as isize + delta;
    let clamped: isize = if moved < 0 {
        0
    } else {
        moved
    };
    (clamped % 65536) as u16
}

/// The message being written for a commit, and the operation the commit
/// finishes, if any.
#[derive(Default)]
pub struct CommitEditor {
    pub message: String,
    pub finish: Option<OpKind>,
}

/// Where a new branch starts: at a commit, or from a stash entry.
pub enum BranchStart {
    Commit(String),
    Stash(usize),
}

pub struct BranchCreate {
    pub name: String,
    pub start: BranchStart,
}

impl BranchCreate {
    /// A branch to be named, starting at `start`.
    pub fn new(start: BranchStart) -> (r: BranchCreate)
        ensures
            r.name@ == Seq::<char>::empty(),
            r.start == start,
    {
        BranchCreate { name: String::new(), start }
    }

    /// Whether the branch is made from a stash entry.
    pub fn is_from_stash(&self) -> (r: bool)
        ensures
            r == (self.start is Stash),
    {
        match self.start {
            BranchStart::Stash(_) => true,
            BranchStart::Commit(_) => false,
        }
    }
}

#[derive(Debug, Clone, Copy, PartialEq, Eq, Structural)]
pub enum NavDirection {
    Push,
    Pop,
}

/// A drag over the graph: the row it began on, the branch it carries, and
/// the row under the pointer now.
pub struct DragState {
    pub down: usize,
    pub source_branch: Option<String>,
    pub hover: usize,
}

/// How a file's change is thrown away: in the working tree only, back to
/// HEAD in the index too, or by deleting an untracked file.
#[derive(Debug, Clone, Copy, PartialEq, Eq, Structural)]
pub enum DiscardMode {
    Worktree,
    Head,
    Untracked,
}

/// Untracked files are deleted; staged and conflicted files go back to HEAD;
/// other files lose their working-tree change only.
pub fn discard_mode(file: &WorkingFile) -> (r: DiscardMode)
    ensures
        r == match file.state {
            StageState::Untracked => DiscardMode::Untracked,
            StageState::Staged => DiscardMode::Head,
            StageState::Unstaged => if file.status == CONFLICTED {
                DiscardMode::Head
            } else {
                DiscardMode::Worktree
            },
        },
{
    match file.state {
        StageState::Untracked => DiscardMode::Untracked,
        StageState::Staged => DiscardMode::Head,
        StageState::Unstaged => if file.status == CONFLICTED {
            DiscardMode::Head
        } else {
            DiscardMode::Worktree
        },
    }
}

/// What a confirmation, once given, goes on to do.
pub enum ConfirmKind {
    Discard { path: String, mode: DiscardMode },
    DiscardHunk { path: String, patch: String },
    DeleteBranch { name: String, oid: Option<String>, upstream: Option<String> },
    ForceDeleteBranch { name: String, oid: Option<String>, upstream: Option<String> },
    DeleteRemoteBranch { remote: String, remote_branch: String },
    ForcePush,
    DropStash { index: usize },
    AbortStashConflict,
    DeleteFocus { name: String },
}

pub struct Confirm {
    pub message: String,
    pub kind: ConfirmKind,
}

/// A credential being typed in for git: what is asked, for which host, and
/// what was typed so far.
pub struct PasswordPrompt {
    kind: PromptKind,
    host: String,
    input: String,
}

impl PasswordPrompt {
    pub closed spec fn kind_spec(&self) -> PromptKind {
        self.kind
    }

    pub closed spec fn host_spec(&self) -> Seq<char> {
        self.host@
    }

    pub closed spec fn input_spec(&self) -> Seq<char> {
        self.input@
    }

    pub fn new(kind: PromptKind, host: String) -> (r: PasswordPrompt)
        ensures
            r.kind_spec() == kind,
            r.host_spec() == host@,
            r.input_spec() == Seq::<char>::empty(),
    {
        PasswordPrompt { kind, host, input: String::new() }
    }

    /// Whether what is typed is hidden: it is for a password.
    pub fn masked(&self) -> (r: bool)
        ensures
            r == (self.kind_spec() == PromptKind::Password),
    {
        self.kind == PromptKind::Password
    }

    pub fn host(&self) -> (r: &str)
        ensures
            r@ == self.host_spec(),
    {
        self.host.as_str()
    }

    pub fn label(&self) -> (r: &'static str)
        ensures
            r@ == match self.kind_spec() {
                PromptKind::Username => "Username"@,
                PromptKind::Password => "Password"@,
            },
    {
        match self.kind {
            PromptKind::Username => "Username",
            PromptKind::Password => "Password",
        }
    }

    pub fn input(&self) -> (r: &str)
        ensures
            r@ == self.input_spec(),
    {
        self.input.as_str()
    }

    pub fn push_input(&mut self, c: char)
        ensures
            final(self).input_spec() == old(self).input_spec().push(c),
            final(self).kind_spec() == old(self).kind_spec(),
            final(self).host_spec() == old(self).host_spec(),
    {
        push_char(&mut self.input, c);
    }

    /// Deletes the last character typed, if any.
    pub fn pop_input(&mut self)
        ensures
            final(self).input_spec() == (if old(self).input_spec().len() == 0 {
                old(self).input_spec()
            } else {
                old(self).input_spec().drop_last()
            }),
            final(self).kind_spec() == old(self).kind_spec(),
            final(self).host_spec() == old(self).host_spec(),
    {
        let cs = chars_of(self.input.as_str());
        if cs.len() > 0 {
            self.input = string_of(&cs, 0, cs.len() - 1);
            assert(cs@.subrange(0, cs@.len() - 1) =~= cs@.drop_last());
        }
    }

    /// What the prompt shows of the input: a dot per character when masked,
    /// else the input itself.
    pub fn shown(&self) -> (r: String)
        ensures
            r@ == (if self.kind_spec() == PromptKind::Password {
                Seq::new(self.input_spec().len(), |i: int| '•')
            } else {
                self.input_spec()
            }),
    {
        let cs = chars_of(self.input.as_str());
        if self.masked() {
            let mut out = String::new();
            let mut k: usize = 0;
            while k < cs.len()
                invariant
                    k <= cs@.len(),
                    out@ == Seq::new(k as nat, |i: int| '•'),
                decreases cs@.len() - k,
            {
                push_char(&mut out, '•');
                k = k + 1;
                assert(out@ =~= Seq::new(k as nat, |i: int| '•'));
            }
            out
        } else {
            string_of(&cs, 0, cs.len())
        }
    }
}

// ---------------------------------------------------------------------------
// The command palette
// ---------------------------------------------------------------------------

/// How many commands the palette offers.
pub const COMMAND_COUNT: usize = 14;

/// The palette's commands: label, key and action, in the order listed.
pub open spec fn command_spec(index: int) -> (Seq<char>, Seq<char>) {
    if index == 0 {
        ("Fetch"@, "f"@)
    } else if index == 1 {
        ("Pull"@, "p"@)
    } else if index == 2 {
        ("Push"@, "P"@)
    } else if index == 3 {
        ("Stash changes"@, "s"@)
    } else if index == 4 {
        ("Stash list"@, "S"@)
    } else if index == 5 {
        ("Branches"@, "b"@)
    } else if index == 6 {
        ("Focus sets"@, "F"@)
    } else if index == 7 {
        ("Submodules"@, ">"@)
    } else if index == 8 {
        ("New branch"@, "n"@)
    } else if index == 9 {
        ("Join / merge"@, "M"@)
    } else if index == 10 {
        ("Undo"@, "u"@)
    } else if index == 11 {
        ("Cycle celebrations"@, ""@)
    } else if index == 12 {
        ("Help"@, "?"@)
    } else {
        ("Quit"@, "q"@)
    }
}

/// The label and key of the command at `index`.
pub fn command(index: usize) -> (r: (&'static str, &'static str))
    requires
        index < COMMAND_COUNT,
    ensures
        (r.0@, r.1@) == command_spec(index as int),
{
    match index {
        0 => ("Fetch", "f"),
        1 => ("Pull", "p"),
        2 => ("Push", "P"),
        3 => ("Stash changes", "s"),
        4 => ("Stash list", "S"),
        5 => ("Branches", "b"),
        6 => ("Focus sets", "F"),
        7 => ("Submodules", ">"),
        8 => ("New branch", "n"),
        9 => ("Join / merge", "M"),
        10 => ("Undo", "u"),
        11 => ("Cycle celebrations", ""),
        12 => ("Help", "?"),
        _ => ("Quit", "q"),
    }
}

/// The action of the command at `index`.
pub fn command_action(index: usize) -> (r: Action)
    requires
        index < COMMAND_COUNT,
    ensures
        r == (if index == 0 {
            Action::Fetch
        } else if index == 1 {
            Action::Pull
        } else if index == 2 {
            Action::Push
        } else if index == 3 {
            Action::StashSave
        } else if index == 4 {
            Action::ToggleStashes
        } else if index == 5 {
            Action::ToggleBranches
        } else if index == 6 {
            Action::ToggleFocusPanel
        } else if index == 7 {
            Action::ToggleSubmodulePanel
        } else if index == 8 {
            Action::NewBranch
        } else if index == 9 {
            Action::OpenJoin
        } else if index == 10 {
            Action::Undo
        } else if index == 11 {
            Action::CycleCelebrations
        } else if index == 12 {
            Action::ToggleHelp
        } else {
            Action::Quit
        }),
{
    match index {
        0 => Action::Fetch,
        1 => Action::Pull,
        2 => Action::Push,
        3 => Action::StashSave,
        4 => Action::ToggleStashes,
        5 => Action::ToggleBranches,
        6 => Action::ToggleFocusPanel,
        7 => Action::ToggleSubmodulePanel,
        8 => Action::NewBranch,
        9 => Action::OpenJoin,
        10 => Action::Undo,
        11 => Action::CycleCelebrations,
        12 => Action::ToggleHelp,
        _ => Action::Quit,
    }
}

/// The labels of all commands, in order.
pub open spec fn command_labels() -> Seq<Seq<char>> {
    Seq::new(COMMAND_COUNT as nat, |i: int| command_spec(i).0)
}

/// The palette: the query typed, the commands it selects, and the
/// highlighted one among them.
pub struct Palette {
    pub query: String,
    pub matches: Vec<usize>,
    pub selected: usize,
}

impl Palette {
    /// Every match names a command.
    pub open spec fn well_formed(&self) -> bool {
        forall|i: int| 0 <= i < self.matches@.len() ==> #[trigger] self.matches@[i] < COMMAND_COUNT
    }

    /// An empty query, every command listed in order, the first highlighted.
    pub fn opening() -> (r: Palette)
        ensures
            r.query@ == Seq::<char>::empty(),
            r.matches@ == Seq::new(COMMAND_COUNT as nat, |i: int| i as usize),
            r.selected == 0,
            r.well_formed(),
    {
        let mut matches: Vec<usize> = Vec::new();
        let mut i: usize = 0;
        while i < COMMAND_COUNT
            invariant
                i <= COMMAND_COUNT,
                matches@ == Seq::new(i as nat, |j: int| j as usize),
            decreases COMMAND_COUNT - i,
        {
            matches.push(i);
            i = i + 1;
            assert(matches@ =~= Seq::new(i as nat, |j: int| j as usize));
        }
        Palette { query: String::new(), matches, selected: 0 }
    }

    /// The commands the query selects, the first highlighted.
    pub fn refilter(&mut self)
        ensures
            final(self).query == old(self).query,
            final(self).matches@ == filter_spec(old(self).query@, command_labels()),
            final(self).selected == 0,
            final(self).well_formed(),
    {
        let mut labels: Vec<&str> = Vec::new();
        let mut i: usize = 0;
        while i < COMMAND_COUNT
            invariant
                i <= COMMAND_COUNT,
                strs_of(labels@) == command_labels().take(i as int),
            decreases COMMAND_COUNT - i,
        {
            let (label, _) = command(i);
            let ghost prev = labels@;
            labels.push(label);
            proof {
                assert(labels@ =~= prev.push(label));
                assert(command_labels().take(i + 1) =~= command_labels().take(i as int).push(
                    command_spec(i as int).0,
                ));
                assert(strs_of(labels@) =~= strs_of(prev).push(label@));
            }
            i = i + 1;
        }
        assert(command_labels().take(COMMAND_COUNT as int) =~= command_labels());
        let matches = fuzzy_filter(self.query.as_str(), labels.as_slice());
        proof {
            crate::palette::lemma_filter_indexes(self.query@, command_labels());
        }
        self.matches = matches;
        self.selected = 0;
    }

    /// The label and key of each match, in order.
    pub fn rows(&self) -> (r: Vec<(&'static str, &'static str)>)
        requires
            self.well_formed(),
        ensures
            r@.len() == self.matches@.len(),
            forall|i: int|
                0 <= i < r@.len() ==> ((#[trigger] r@[i]).0@, r@[i].1@) == command_spec(
                    self.matches@[i] as int,
                ),
    {
        let mut out: Vec<(&'static str, &'static str)> = Vec::new();
        let mut k: usize = 0;
        while k < self.matches.len()
            invariant
                self.well_formed(),
                k <= self.matches@.len(),
                out@.len() == k,
                forall|i: int|
                    0 <= i < k ==> ((#[trigger] out@[i]).0@, out@[i].1@) == command_spec(
                        self.matches@[i] as int,
                    ),
            decreases self.matches@.len() - k,
        {
            out.push(command(self.matches[k]));
            k = k + 1;
        }
        out
    }

    /// Moves the highlight by `delta`, staying on the matches.
    pub fn move_selection(&mut self, delta: isize)
        requires
            old(self).selected <= isize::MAX,
            old(self).selected + delta <= isize::MAX,
            old(self).matches@.len() <= isize::MAX,
        ensures
            final(self).query == old(self).query,
            final(self).matches == old(self).matches,
            final(self).selected == (if old(self).matches@.len() == 0 {
                0
            } else {
                let moved = old(self).selected + delta;
                let last = old(self).matches@.len() - 1;
                if moved < 0 {
                    0
                } else if moved > last {
                    last
                } else {
                    moved
                }
            }),
    {
        if self.matches.len() == 0 {
            self.selected = 0;
            return;
        }
        let last = (self.matches.len() - 1) as isize;
        let moved: isize = self.selected as isize + delta;
        self.selected = if moved < 0 {
            0
        } else if moved > last {
            last as usize
        } else {
            moved as usize
        };
    }
}

/// The graph's measured widths: the branch rail and the lane columns.
#[derive(Clone, Copy)]
pub struct GraphDims {
    pub rail: usize,
    pub graph: usize,
}

// ---------------------------------------------------------------------------
// Short texts
// ---------------------------------------------------------------------------

/// The first seven characters of a commit id.
pub fn short_oid(oid: &str) -> (r: String)
    ensures
        r@ == (if oid@.len() <= 7 {
            oid@
        } else {
            oid@.take(7)
        }),
{
    let cs = chars_of(oid);
    let n = if cs.len() <= 7 {
        cs.len()
    } else {
        7
    };
    let r = string_of(&cs, 0, n);
    assert(cs@.subrange(0, n as int) =~= (if oid@.len() <= 7 {
        oid@
    } else {
        oid@.take(7)
    }));
    r
}

/// A remote branch name split at its first slash: remote, then branch.
pub fn split_remote_ref(reference: &str) -> (r: Option<(String, String)>)
    ensures
        match r {
            Some((remote, branch)) => {
                let i = crate::text::find_char(reference@, '/');
                i < reference@.len() && remote@ == reference@.take(i) && branch@ == reference@.skip(
                    i + 1,
                )
            },
            None => crate::text::find_char(reference@, '/') >= reference@.len(),
        },
{
    let cs = chars_of(reference);
    let n = cs.len();
    let i = crate::text::find_in(&cs, 0, n, '/');
    assert(cs@.subrange(0, n as int) =~= cs@);
    if i == n {
        return None;
    }
    let remote = string_of(&cs, 0, i);
    let branch = string_of(&cs, i + 1, n);
    assert(remote@ =~= cs@.take(i as int));
    assert(branch@ =~= cs@.skip(i + 1));
    Some((remote, branch))
}

/// What a confirmed prompt goes on to do.
pub enum ConfirmPlan {
    /// Delete an untracked file from the working tree.
    RemoveFile,
    /// Run a git command and report how it went.
    Run(GitCommand),
    /// Run a git command that talks to a remote, in the background.
    Remote(GitCommand),
    /// Restore the files of a conflicted stash from HEAD.
    RestoreConflict,
    /// Forget a saved focus.
    ForgetFocus,
}

/// The plan for each confirmation: the git command it runs, with the
/// working directory and askpass setting of `cli`, or what it does instead.
pub open spec fn confirm_plan_spec(cli: CliView, kind: ConfirmKind, plan: ConfirmPlan) -> bool {
    match kind {
        ConfirmKind::Discard { path, mode } => match mode {
            DiscardMode::Untracked => plan is RemoveFile,
            DiscardMode::Head => match plan {
                ConfirmPlan::Run(c) => runs(
                    cli,
                    c,
                    seq!["restore"@, "--source=HEAD"@, "--staged"@, "--worktree"@, "--"@, path@],
                    None,
                ),
                _ => false,
            },
            DiscardMode::Worktree => match plan {
                ConfirmPlan::Run(c) => runs(cli, c, seq!["restore"@, "--recurse-submodules"@, "--"@, path@], None),
                _ => false,
            },
        },
        ConfirmKind::DiscardHunk { patch, .. } => match plan {
            ConfirmPlan::Run(c) => runs(cli, c, seq!["apply"@, "--reverse"@, "--whitespace=nowarn"@], Some(patch@)),
            _ => false,
        },
        ConfirmKind::DeleteBranch { name, .. } => match plan {
            ConfirmPlan::Run(c) => runs(cli, c, seq!["branch"@, "-d"@, name@], None),
            _ => false,
        },
        ConfirmKind::ForceDeleteBranch { name, .. } => match plan {
            ConfirmPlan::Run(c) => runs(cli, c, seq!["branch"@, "-D"@, name@], None),
            _ => false,
        },
        ConfirmKind::DeleteRemoteBranch { remote, remote_branch } => match plan {
            ConfirmPlan::Remote(c) => runs(cli, c, seq!["push"@, remote@, "--delete"@, remote_branch@], None),
            _ => false,
        },
        ConfirmKind::ForcePush => match plan {
            ConfirmPlan::Remote(c) => runs(cli, c, seq!["push"@, "--force-with-lease"@], None),
            _ => false,
        },
        ConfirmKind::DropStash { index } => match plan {
            ConfirmPlan::Run(c) => runs(cli, c, seq!["stash"@, "drop"@, stash_ref(index as nat)], None),
            _ => false,
        },
        ConfirmKind::AbortStashConflict => plan is RestoreConflict,
        ConfirmKind::DeleteFocus { .. } => plan is ForgetFocus,
    }
}

/// What a confirmed prompt goes on to do.
pub fn confirm_plan(cli: &GitCli, kind: &ConfirmKind) -> (plan: ConfirmPlan)
    ensures
        confirm_plan_spec(cli@, *kind, plan),
{
    match kind {
        ConfirmKind::Discard { path, mode } => match mode {
            DiscardMode::Untracked => ConfirmPlan::RemoveFile,
            DiscardMode::Head => {
                let paths = vec![path.clone()];
                match cli.restore_from_head(&paths) {
                    Some(c) => {
                        assert(strs(paths@) =~= seq![path@]);
                        assert(seq!["restore"@, "--source=HEAD"@, "--staged"@, "--worktree"@, "--"@] + seq![path@]
                            =~= seq!["restore"@, "--source=HEAD"@, "--staged"@, "--worktree"@, "--"@, path@]);
                        ConfirmPlan::Run(c)
                    },
                    None => ConfirmPlan::Run(cli.discard_file(path.as_str())),
                }
            },
            DiscardMode::Worktree => ConfirmPlan::Run(cli.discard_file(path.as_str())),
        },
        ConfirmKind::DiscardHunk { patch, .. } => ConfirmPlan::Run(cli.discard_hunk(patch.as_str())),
        ConfirmKind::DeleteBranch { name, .. } => ConfirmPlan::Run(cli.delete_branch(name.as_str())),
        ConfirmKind::ForceDeleteBranch { name, .. } => ConfirmPlan::Run(cli.force_delete_branch(name.as_str())),
        ConfirmKind::DeleteRemoteBranch { remote, remote_branch } => ConfirmPlan::Remote(
            cli.delete_remote_branch(remote.as_str(), remote_branch.as_str()),
        ),
        ConfirmKind::ForcePush => ConfirmPlan::Remote(cli.push_force_with_lease()),
        ConfirmKind::DropStash { index } => ConfirmPlan::Run(cli.stash_drop(*index)),
        ConfirmKind::AbortStashConflict => ConfirmPlan::RestoreConflict,
        ConfirmKind::DeleteFocus { .. } => ConfirmPlan::ForgetFocus,
    }
}

/// The prompt that asks to force a branch delete that git refused.
pub open spec fn force_delete_prompt(name: Seq<char>) -> Seq<char> {
    seq!['\''] + name + "' is not fully merged. Force delete? (y/n)"@
}

/// The prompt that offers to delete a deleted branch's upstream too.
pub open spec fn remote_delete_prompt(upstream: Seq<char>) -> Seq<char> {
    "Delete remote "@ + upstream + " too? (y/n)"@
}

/// What is asked after a branch was deleted: whether to delete its
/// upstream too, when it has one of the form `remote/branch`.
pub open spec fn offers_remote_delete(upstream: Option<String>, r: Option<Confirm>) -> bool {
    match upstream {
        Some(u) => {
            let i = crate::text::find_char(u@, '/');
            if i < u@.len() {
                match r {
                    Some(c) => c.message@ == remote_delete_prompt(u@) && match c.kind {
                        ConfirmKind::DeleteRemoteBranch { remote, remote_branch } => remote@ == u@.take(i)
                            && remote_branch@ == u@.skip(i + 1),
                        _ => false,
                    },
                    None => false,
                }
            } else {
                r is None
            }
        },
        None => r is None,
    }
}

fn clone_opt(o: &Option<String>) -> (r: Option<String>)
    ensures
        r == *o,
{
    match o {
        Some(s) => Some(s.clone()),
        None => None,
    }
}

/// The prompt that follows a confirmed branch delete, by whether git
/// deleted the branch: a plain delete that failed asks to force it; a
/// delete that went through offers to delete the upstream too; nothing
/// follows a forced delete that failed, nor any other confirmation.
pub fn after_delete(kind: &ConfirmKind, ok: bool) -> (r: Option<Confirm>)
    ensures
        match *kind {
            ConfirmKind::DeleteBranch { name, oid, upstream } => if ok {
                offers_remote_delete(upstream, r)
            } else {
                match r {
                    Some(c) => c.message@ == force_delete_prompt(name@) && c.kind == (
                    ConfirmKind::ForceDeleteBranch { name, oid, upstream }),
                    None => false,
                }
            },
            ConfirmKind::ForceDeleteBranch { upstream, .. } => if ok {
                offers_remote_delete(upstream, r)
            } else {
                r is None
            },
            _ => r is None,
        },
{
    match kind {
        ConfirmKind::DeleteBranch { name, oid, upstream } => {
            if ok {
                offer_remote_delete(upstream)
            } else {
                let mut message = String::new();
                push_char(&mut message, '\'');
                push_str(&mut message, name.as_str());
                push_str(&mut message, "' is not fully merged. Force delete? (y/n)");
                assert(message@ =~= force_delete_prompt(name@));
                Some(
                    Confirm {
                        message,
                        kind: ConfirmKind::ForceDeleteBranch {
                            name: name.clone(),
                            oid: clone_opt(oid),
                            upstream: clone_opt(upstream),
                        },
                    },
                )
            }
        },
        ConfirmKind::ForceDeleteBranch { upstream, .. } => {
            if ok {
                offer_remote_delete(upstream)
            } else {
                None
            }
        },
        _ => None,
    }
}

fn offer_remote_delete(upstream: &Option<String>) -> (r: Option<Confirm>)
    ensures
        offers_remote_delete(*upstream, r),
{
    match upstream {
        Some(u) => match split_remote_ref(u.as_str()) {
            Some((remote, remote_branch)) => {
                let mut message = String::new();
                push_str(&mut message, "Delete remote ");
                push_str(&mut message, u.as_str());
                push_str(&mut message, " too? (y/n)");
                assert(message@ =~= remote_delete_prompt(u@));
                Some(Confirm { message, kind: ConfirmKind::DeleteRemoteBranch { remote, remote_branch } })
            },
            None => None,
        },
        None => None,
    }
}

/// `"{count} {word}"`.
fn counted(count: usize, word: &str) -> (r: String)
    ensures
        r@ == decimal(count as nat) + " "@ + word@,
{
    let mut out = String::new();
    push_decimal(&mut out, count);
    push_str(&mut out, " ");
    push_str(&mut out, word);
    assert(out@ =~= decimal(count as nat) + " "@ + word@);
    out
}

fn text(s: &str) -> (r: String)
    ensures
        r@ == s@,
{
    s.to_owned()
}

/// How a merge would go, in a word or two.
pub fn merge_note(prediction: &MergePrediction) -> (r: String)
    ensures
        r@ == match prediction {
            MergePrediction::UpToDate => "up to date"@,
            MergePrediction::FastForward => "fast-forward"@,
            MergePrediction::Clean => "clean"@,
            MergePrediction::Conflicts { files } => decimal(files@.len()) + " "@ + "conflicts"@,
        },
{
    match prediction {
        MergePrediction::UpToDate => text("up to date"),
        MergePrediction::FastForward => text("fast-forward"),
        MergePrediction::Clean => text("clean"),
        MergePrediction::Conflicts { files } => counted(files.len(), "conflicts"),
    }
}

/// Whether a fast-forward is possible.
pub fn fast_forward_note(prediction: &MergePrediction) -> (r: String)
    ensures
        r@ == match prediction {
            MergePrediction::FastForward => "fast-forward"@,
            MergePrediction::UpToDate => "up to date"@,
            _ => "not possible (diverged)"@,
        },
{
    match prediction {
        MergePrediction::FastForward => text("fast-forward"),
        MergePrediction::UpToDate => text("up to date"),
        _ => text("not possible (diverged)"),
    }
}

/// What a rebase would do: nothing on a detached HEAD or when up to date,
/// else replay the commits ahead.
pub fn rebase_note(prediction: &MergePrediction, ahead: usize, attached: bool) -> (r: String)
    ensures
        r@ == (if !attached {
            "detached HEAD"@
        } else if prediction is UpToDate {
            "up to date"@
        } else {
            "replays "@ + decimal(ahead as nat) + " commit"@ + (if ahead == 1 {
                Seq::<char>::empty()
            } else {
                "s"@
            })
        }),
{
    if !attached {
        return text("detached HEAD");
    }
    if let MergePrediction::UpToDate = prediction {
        return text("up to date");
    }
    let mut out = String::new();
    push_str(&mut out, "replays ");
    push_decimal(&mut out, ahead);
    push_str(&mut out, " commit");
    if ahead != 1 {
        push_str(&mut out, "s");
    }
    assert(out@ =~= "replays "@ + decimal(ahead as nat) + " commit"@ + (if ahead == 1 {
        Seq::<char>::empty()
    } else {
        "s"@
    }));
    out
}

/// How a cherry-pick would go.
pub fn cherry_pick_note(prediction: &MergePrediction) -> (r: String)
    ensures
        r@ == match prediction {
            MergePrediction::Clean => "clean"@,
            MergePrediction::FastForward => "clean"@,
            MergePrediction::UpToDate => "already applied"@,
            MergePrediction::Conflicts { files } => decimal(files@.len()) + " "@ + "conflicts"@,
        },
{
    match prediction {
        MergePrediction::Clean | MergePrediction::FastForward => text("clean"),
        MergePrediction::UpToDate => text("already applied"),
        MergePrediction::Conflicts { files } => counted(files.len(), "conflicts"),
    }
}

/// One line on what joining would do, for a branch or a single commit.
pub fn join_summary(prediction: &MergePrediction, is_branch: bool, incoming: usize) -> (r: String)
    ensures
        r@ == match prediction {
            MergePrediction::UpToDate => "already up to date"@,
            MergePrediction::FastForward => "+"@ + decimal(incoming as nat)
                + " commits · fast-forward · linear"@,
            MergePrediction::Clean => if is_branch {
                "+"@ + decimal(incoming as nat) + " commits · merge commit · 2 parents · clean"@
            } else {
                "cherry-pick · clean"@
            },
            MergePrediction::Conflicts { files } => decimal(files@.len())
                + " conflicting file(s) · resolve in 3.3"@,
        },
{
    match prediction {
        MergePrediction::UpToDate => text("already up to date"),
        MergePrediction::FastForward => {
            let mut out = String::new();
            push_str(&mut out, "+");
            push_decimal(&mut out, incoming);
            push_str(&mut out, " commits · fast-forward · linear");
            assert(out@ =~= "+"@ + decimal(incoming as nat) + " commits · fast-forward · linear"@);
            out
        },
        MergePrediction::Clean => if is_branch {
            let mut out = String::new();
            push_str(&mut out, "+");
            push_decimal(&mut out, incoming);
            push_str(&mut out, " commits · merge commit · 2 parents · clean");
            assert(out@ =~= "+"@ + decimal(incoming as nat)
                + " commits · merge commit · 2 parents · clean"@);
            out
        } else {
            text("cherry-pick · clean")
        },
        MergePrediction::Conflicts { files } => {
            let mut out = String::new();
            push_decimal(&mut out, files.len());
            push_str(&mut out, " conflicting file(s) · resolve in 3.3");
            assert(out@ =~= decimal(files@.len()) + " conflicting file(s) · resolve in 3.3"@);
            out
        },
    }
}

// ---------------------------------------------------------------------------
// Which layer is in front
// ---------------------------------------------------------------------------

/// The layers open over the graph, as the client tracks them: for the
/// stash view, working view and commit panel also whether their first zone
/// is focused and whether they fill the screen; for the filters whether
/// they are being edited.
#[derive(Debug, Clone, Copy)]
pub struct Layers {
    pub password: bool,
    pub alert: bool,
    pub palette: bool,
    pub stash_message: bool,
    pub commit: bool,
    pub branch_create: bool,
    pub confirm: bool,
    pub conflict: bool,
    pub stash_filter: Option<bool>,
    pub stash: Option<(bool, bool)>,
    pub join: bool,
    pub focus_name: bool,
    pub branch_filter: Option<bool>,
    pub focus_panel: bool,
    pub submodule_panel: bool,
    pub branch: bool,
    pub working: Option<(bool, bool)>,
    pub panel: Option<bool>,
    pub help_visible: bool,
}

/// The context keys are read in: that of the front-most layer that takes
/// input, in a fixed order of precedence, else the graph.
pub open spec fn context_spec(l: Layers) -> InputContext {
    if l.password {
        InputContext::Password
    } else if l.alert {
        InputContext::Alert
    } else if l.palette {
        InputContext::Palette
    } else if l.stash_message {
        InputContext::StashMessage
    } else if l.commit {
        InputContext::Commit
    } else if l.branch_create {
        InputContext::BranchName
    } else if l.confirm {
        InputContext::Confirm
    } else if l.conflict {
        InputContext::Conflict
    } else if l.stash_filter == Some(true) {
        InputContext::StashFilter
    } else if l.stash is Some {
        InputContext::Stash
    } else if l.join {
        InputContext::Join
    } else if l.focus_name {
        InputContext::FocusName
    } else if l.branch_filter == Some(true) {
        InputContext::BranchFilter
    } else if l.focus_panel {
        InputContext::FocusSets
    } else if l.submodule_panel {
        InputContext::Submodules
    } else if l.branch {
        InputContext::Branch
    } else if l.working is Some {
        InputContext::Working
    } else if l.panel == Some(true) {
        InputContext::CommitDiff
    } else {
        InputContext::Graph
    }
}

pub fn input_context(l: &Layers) -> (r: InputContext)
    ensures
        r == context_spec(*l),
{
    if l.password {
        InputContext::Password
    } else if l.alert {
        InputContext::Alert
    } else if l.palette {
        InputContext::Palette
    } else if l.stash_message {
        InputContext::StashMessage
    } else if l.commit {
        InputContext::Commit
    } else if l.branch_create {
        InputContext::BranchName
    } else if l.confirm {
        InputContext::Confirm
    } else if l.conflict {
        InputContext::Conflict
    } else if matches!(l.stash_filter, Some(true)) {
        InputContext::StashFilter
    } else if l.stash.is_some() {
        InputContext::Stash
    } else if l.join {
        InputContext::Join
    } else if l.focus_name {
        InputContext::FocusName
    } else if matches!(l.branch_filter, Some(true)) {
        InputContext::BranchFilter
    } else if l.focus_panel {
        InputContext::FocusSets
    } else if l.submodule_panel {
        InputContext::Submodules
    } else if l.branch {
        InputContext::Branch
    } else if l.working.is_some() {
        InputContext::Working
    } else if matches!(l.panel, Some(true)) {
        InputContext::CommitDiff
    } else {
        InputContext::Graph
    }
}

/// What Escape closes or steps back from.
#[derive(Debug, Clone, Copy, PartialEq, Eq, Structural)]
pub enum Dismissal {
    CancelPassword,
    FocusName,
    StashFilter,
    BranchFilter,
    Alert,
    Palette,
    StashMessage,
    Commit,
    BranchCreate,
    Confirm,
    Help,
    FocusPanel,
    SubmodulePanel,
    StashToEntries,
    StashFullscreen,
    StashPanel,
    Join,
    Branch,
    WorkingToFiles,
    WorkingFullscreen,
    Working,
    PanelFullscreen,
    Panel,
}

/// The front-most layer Escape acts on, if any: prompts and inputs first,
/// then help, then panels, where a view in a sub-zone or full screen steps
/// back one level before it closes.
pub open spec fn dismissal_spec(l: Layers) -> Option<Dismissal> {
    if l.password {
        Some(Dismissal::CancelPassword)
    } else if l.focus_name {
        Some(Dismissal::FocusName)
    } else if l.stash_filter is Some {
        Some(Dismissal::StashFilter)
    } else if l.branch_filter is Some {
        Some(Dismissal::BranchFilter)
    } else if l.alert {
        Some(Dismissal::Alert)
    } else if l.palette {
        Some(Dismissal::Palette)
    } else if l.stash_message {
        Some(Dismissal::StashMessage)
    } else if l.commit {
        Some(Dismissal::Commit)
    } else if l.branch_create {
        Some(Dismissal::BranchCreate)
    } else if l.confirm {
        Some(Dismissal::Confirm)
    } else if l.help_visible {
        Some(Dismissal::Help)
    } else if l.focus_panel {
        Some(Dismissal::FocusPanel)
    } else if l.submodule_panel {
        Some(Dismissal::SubmodulePanel)
    } else if l.stash is Some {
        let (on_entries, fullscreen) = l.stash->0;
        if !on_entries {
            Some(Dismissal::StashToEntries)
        } else if fullscreen {
            Some(Dismissal::StashFullscreen)
        } else {
            Some(Dismissal::StashPanel)
        }
    } else if l.join {
        Some(Dismissal::Join)
    } else if l.branch {
        Some(Dismissal::Branch)
    } else if l.working is Some {
        let (on_hunks, fullscreen) = l.working->0;
        if on_hunks {
            Some(Dismissal::WorkingToFiles)
        } else if fullscreen {
            Some(Dismissal::WorkingFullscreen)
        } else {
            Some(Dismissal::Working)
        }
    } else if l.panel is Some {
        if l.panel->0 {
            Some(Dismissal::PanelFullscreen)
        } else {
            Some(Dismissal::Panel)
        }
    } else {
        None
    }
}

pub fn dismissal(l: &Layers) -> (r: Option<Dismissal>)
    ensures
        r == dismissal_spec(*l),
{
    if l.password {
        Some(Dismissal::CancelPassword)
    } else if l.focus_name {
        Some(Dismissal::FocusName)
    } else if l.stash_filter.is_some() {
        Some(Dismissal::StashFilter)
    } else if l.branch_filter.is_some() {
        Some(Dismissal::BranchFilter)
    } else if l.alert {
        Some(Dismissal::Alert)
    } else if l.palette {
        Some(Dismissal::Palette)
    } else if l.stash_message {
        Some(Dismissal::StashMessage)
    } else if l.commit {
        Some(Dismissal::Commit)
    } else if l.branch_create {
        Some(Dismissal::BranchCreate)
    } else if l.confirm {
        Some(Dismissal::Confirm)
    } else if l.help_visible {
        Some(Dismissal::Help)
    } else if l.focus_panel {
        Some(Dismissal::FocusPanel)
    } else if l.submodule_panel {
        Some(Dismissal::SubmodulePanel)
    } else if let Some((on_entries, fullscreen)) = l.stash {
        if !on_entries {
            Some(Dismissal::StashToEntries)
        } else if fullscreen {
            Some(Dismissal::StashFullscreen)
        } else {
            Some(Dismissal::StashPanel)
        }
    } else if l.join {
        Some(Dismissal::Join)
    } else if l.branch {
        Some(Dismissal::Branch)
    } else if let Some((on_hunks, fullscreen)) = l.working {
        if on_hunks {
            Some(Dismissal::WorkingToFiles)
        } else if fullscreen {
            Some(Dismissal::WorkingFullscreen)
        } else {
            Some(Dismissal::Working)
        }
    } else if let Some(fullscreen) = l.panel {
        if fullscreen {
            Some(Dismissal::PanelFullscreen)
        } else {
            Some(Dismissal::Panel)
        }
    } else {
        None
    }
}

// ---------------------------------------------------------------------------
// The step of an action
// ---------------------------------------------------------------------------

/// What actions change of the client without the repository: the help,
/// quitting, the open confirmation and the texts being typed.
pub struct UiState {
    pub help_visible: bool,
    pub should_quit: bool,
    pub confirm: Option<Confirm>,
    pub commit: Option<CommitEditor>,
    pub stash_message: Option<String>,
    pub branch_create: Option<BranchCreate>,
    pub focus_name: Option<String>,
}

/// Whether a step finished an action, or the action is left to the
/// handler that reads or writes the repository.
#[derive(Debug, Clone, Copy, PartialEq, Eq, Structural)]
pub enum Effect {
    Done,
    Handle,
}

/// A text after a key: the character typed added, or, for a backspace,
/// its last character removed.
pub open spec fn edited(t: Seq<char>, key: Option<char>) -> Seq<char> {
    match key {
        Some(c) => t.push(c),
        None => if t.len() > 0 {
            t.drop_last()
        } else {
            t
        },
    }
}

/// A text being typed after a key; nothing when none is being typed.
pub open spec fn text_after(before: Option<String>, after: Option<String>, key: Option<char>) -> bool {
    match (before, after) {
        (Some(b), Some(a)) => a@ == edited(b@, key),
        (None, None) => true,
        _ => false,
    }
}

/// A text opened empty for typing.
pub open spec fn opened_empty(after: Option<String>) -> bool {
    match after {
        Some(a) => a@ == Seq::<char>::empty(),
        None => false,
    }
}

/// The commit message after an action.
pub open spec fn commit_after(before: Option<CommitEditor>, after: Option<CommitEditor>, action: Action) -> bool {
    let edit = |key: Option<char>|
        match (before, after) {
            (Some(b), Some(a)) => a.message@ == edited(b.message@, key) && a.finish == b.finish,
            (None, None) => true,
            _ => false,
        };
    match action {
        Action::OpenCommit => match after {
            Some(a) => a.message@ == Seq::<char>::empty() && a.finish is None,
            None => false,
        },
        Action::CommitInput(c) => edit(Some(c)),
        Action::CommitBackspace => edit(None),
        _ => after == before,
    }
}

/// The new branch's name after an action.
pub open spec fn branch_name_after(before: Option<BranchCreate>, after: Option<BranchCreate>, action: Action) -> bool {
    let edit = |key: Option<char>|
        match (before, after) {
            (Some(b), Some(a)) => a.name@ == edited(b.name@, key) && a.start == b.start,
            (None, None) => true,
            _ => false,
        };
    match action {
        Action::BranchNameInput(c) => edit(Some(c)),
        Action::BranchNameBackspace => edit(None),
        _ => after == before,
    }
}

/// The actions a step finishes itself.
pub open spec fn handled_here(action: Action) -> bool {
    match action {
        Action::ToggleHelp | Action::Quit | Action::ConfirmNo | Action::OpenCommit | Action::CommitInput(_)
        | Action::CommitBackspace | Action::StashSave | Action::StashMessageInput(_)
        | Action::StashMessageBackspace | Action::BranchNameInput(_) | Action::BranchNameBackspace
        | Action::SaveFocus | Action::FocusNameInput(_) | Action::FocusNameBackspace => true,
        _ => false,
    }
}

fn backspaced(t: String) -> (r: String)
    ensures
        r@ == edited(t@, None),
{
    let cs = chars_of(t.as_str());
    if cs.len() > 0 {
        let r = string_of(&cs, 0, cs.len() - 1);
        assert(cs@.subrange(0, cs@.len() - 1) =~= t@.drop_last());
        r
    } else {
        t
    }
}

fn typed(t: String, key: Option<char>) -> (r: String)
    ensures
        r@ == edited(t@, key),
{
    match key {
        Some(c) => {
            let mut t = t;
            push_char(&mut t, c);
            t
        },
        None => backspaced(t),
    }
}

fn type_into(o: Option<String>, key: Option<char>) -> (r: Option<String>)
    ensures
        text_after(o, r, key),
{
    match o {
        Some(t) => Some(typed(t, key)),
        None => None,
    }
}

/// One action's step on the state it changes without the repository: the
/// help toggles, quitting is asked, the confirmation is declined, a commit
/// message, stash message, branch name or focus-set name is opened empty
/// or takes a key. Those actions are done; every other action leaves the
/// state as it is, for its handler.
pub fn update_step(state: &mut UiState, action: &Action) -> (r: Effect)
    ensures
        r == (if handled_here(*action) {
            Effect::Done
        } else {
            Effect::Handle
        }),
        final(state).help_visible == (if *action is ToggleHelp {
            !old(state).help_visible
        } else {
            old(state).help_visible
        }),
        final(state).should_quit == (old(state).should_quit || *action is Quit),
        final(state).confirm == (if *action is ConfirmNo {
            None
        } else {
            old(state).confirm
        }),
        commit_after(old(state).commit, final(state).commit, *action),
        match *action {
            Action::StashSave => opened_empty(final(state).stash_message),
            Action::StashMessageInput(c) => text_after(old(state).stash_message, final(state).stash_message, Some(c)),
            Action::StashMessageBackspace => text_after(old(state).stash_message, final(state).stash_message, None),
            _ => final(state).stash_message == old(state).stash_message,
        },
        branch_name_after(old(state).branch_create, final(state).branch_create, *action),
        match *action {
            Action::SaveFocus => opened_empty(final(state).focus_name),
            Action::FocusNameInput(c) => text_after(old(state).focus_name, final(state).focus_name, Some(c)),
            Action::FocusNameBackspace => text_after(old(state).focus_name, final(state).focus_name, None),
            _ => final(state).focus_name == old(state).focus_name,
        },
{
    match action {
        Action::ToggleHelp => {
            state.help_visible = !state.help_visible;
            Effect::Done
        },
        Action::Quit => {
            state.should_quit = true;
            Effect::Done
        },
        Action::ConfirmNo => {
            state.confirm = None;
            Effect::Done
        },
        Action::OpenCommit => {
            state.commit = Some(CommitEditor { message: String::new(), finish: None });
            Effect::Done
        },
        Action::CommitInput(_) | Action::CommitBackspace => {
            let key = match action {
                Action::CommitInput(c) => Some(*c),
                _ => None,
            };
            state.commit = match state.commit.take() {
                Some(editor) => Some(CommitEditor { message: typed(editor.message, key), finish: editor.finish }),
                None => None,
            };
            Effect::Done
        },
        Action::StashSave => {
            state.stash_message = Some(String::new());
            Effect::Done
        },
        Action::StashMessageInput(_) | Action::StashMessageBackspace => {
            let key = match action {
                Action::StashMessageInput(c) => Some(*c),
                _ => None,
            };
            state.stash_message = type_into(state.stash_message.take(), key);
            Effect::Done
        },
        Action::BranchNameInput(_) | Action::BranchNameBackspace => {
            let key = match action {
                Action::BranchNameInput(c) => Some(*c),
                _ => None,
            };
            state.branch_create = match state.branch_create.take() {
                Some(create) => Some(BranchCreate { name: typed(create.name, key), start: create.start }),
                None => None,
            };
            Effect::Done
        },
        Action::SaveFocus => {
            state.focus_name = Some(String::new());
            Effect::Done
        },
        Action::FocusNameInput(_) | Action::FocusNameBackspace => {
            let key = match action {
                Action::FocusNameInput(c) => Some(*c),
                _ => None,
            };
            state.focus_name = type_into(state.focus_name.take(), key);
            Effect::Done
        },
        _ => Effect::Handle,
    }
}

/// What a page or wheel scroll moves: a diff that has the reader's eye, or
/// else the graph.
#[derive(Debug, Clone, Copy, PartialEq, Eq, Structural)]
pub enum ScrollTarget {
    StashDiff,
    CommitDiff,
    WorkingDiff,
    Graph,
}

/// The stash diff when the stash view is fullscreen or its hunks have the
/// focus (`stash_hunks`); else the commit diff when the commit panel is
/// fullscreen; else the working diff when that view is fullscreen or its
/// hunks have the focus; else the graph.
pub open spec fn scroll_target_spec(l: Layers, stash_hunks: bool) -> ScrollTarget {
    let stash = match l.stash {
        Some((_, fullscreen)) => fullscreen || stash_hunks,
        None => false,
    };
    let working = match l.working {
        Some((hunks, fullscreen)) => hunks || fullscreen,
        None => false,
    };
    if stash {
        ScrollTarget::StashDiff
    } else if l.panel == Some(true) {
        ScrollTarget::CommitDiff
    } else if working {
        ScrollTarget::WorkingDiff
    } else {
        ScrollTarget::Graph
    }
}

/// What a page or wheel scroll moves.
pub fn scroll_target(l: &Layers, stash_hunks: bool) -> (r: ScrollTarget)
    ensures
        r == scroll_target_spec(*l, stash_hunks),
{
    let stash = match l.stash {
        Some((_, fullscreen)) => fullscreen || stash_hunks,
        None => false,
    };
    let working = match l.working {
        Some((hunks, fullscreen)) => hunks || fullscreen,
        None => false,
    };
    let panel_fullscreen = match l.panel {
        Some(fullscreen) => fullscreen,
        None => false,
    };
    if stash {
        ScrollTarget::StashDiff
    } else if panel_fullscreen {
        ScrollTarget::CommitDiff
    } else if working {
        ScrollTarget::WorkingDiff
    } else {
        ScrollTarget::Graph
    }
}

/// What moving the cursor up or down moves.
#[derive(Debug, Clone, Copy, PartialEq, Eq, Structural)]
pub enum MoveTarget {
    CommitDiffScroll,
    CommitDiffFiles,
    Palette,
    ConflictBlocks,
    FocusPanel,
    SubmodulePanel,
    Stash,
    Join,
    Branch,
    WorkingFullscreen,
    WorkingDiffScroll,
    /// Down from the working-tree row onto the first commit.
    LeaveWip,
    /// Nothing: up from the working-tree row.
    Stay,
    /// Up from the first commit onto the working-tree row.
    EnterWip,
    Commits,
}

/// Where a cursor move goes: the full-screen commit diff, then the
/// front-most panel, then the working view, and otherwise the commit list,
/// where the working-tree row sits above the first commit.
pub open spec fn move_target_spec(
    l: Layers,
    diff_focused: bool,
    down: bool,
    on_wip: bool,
    first_with_wip: bool,
) -> MoveTarget {
    if matches!(l.panel, Some(true)) {
        if diff_focused {
            MoveTarget::CommitDiffScroll
        } else {
            MoveTarget::CommitDiffFiles
        }
    } else if l.palette {
        MoveTarget::Palette
    } else if l.conflict {
        MoveTarget::ConflictBlocks
    } else if l.focus_panel {
        MoveTarget::FocusPanel
    } else if l.submodule_panel {
        MoveTarget::SubmodulePanel
    } else if l.stash is Some {
        MoveTarget::Stash
    } else if l.join {
        MoveTarget::Join
    } else if l.branch {
        MoveTarget::Branch
    } else if (match l.working {
        Some((_, fullscreen)) => fullscreen,
        None => false,
    }) {
        MoveTarget::WorkingFullscreen
    } else if (match l.working {
        Some((on_hunks, _)) => on_hunks,
        None => false,
    }) {
        MoveTarget::WorkingDiffScroll
    } else if on_wip {
        if down {
            MoveTarget::LeaveWip
        } else {
            MoveTarget::Stay
        }
    } else if !down && first_with_wip {
        MoveTarget::EnterWip
    } else {
        MoveTarget::Commits
    }
}

/// Routes a cursor move. `diff_focused` says whether the commit panel's
/// diff has the focus; `first_with_wip` whether the first commit is
/// selected and there are uncommitted changes above it.
pub fn move_target(l: &Layers, diff_focused: bool, down: bool, on_wip: bool, first_with_wip: bool) -> (r: MoveTarget)
    ensures
        r == move_target_spec(*l, diff_focused, down, on_wip, first_with_wip),
{
    if matches!(l.panel, Some(true)) {
        if diff_focused {
            MoveTarget::CommitDiffScroll
        } else {
            MoveTarget::CommitDiffFiles
        }
    } else if l.palette {
        MoveTarget::Palette
    } else if l.conflict {
        MoveTarget::ConflictBlocks
    } else if l.focus_panel {
        MoveTarget::FocusPanel
    } else if l.submodule_panel {
        MoveTarget::SubmodulePanel
    } else if l.stash.is_some() {
        MoveTarget::Stash
    } else if l.join {
        MoveTarget::Join
    } else if l.branch {
        MoveTarget::Branch
    } else if matches!(l.working, Some((_, true))) {
        MoveTarget::WorkingFullscreen
    } else if matches!(l.working, Some((true, _))) {
        MoveTarget::WorkingDiffScroll
    } else if on_wip {
        if down {
            MoveTarget::LeaveWip
        } else {
            MoveTarget::Stay
        }
    } else if !down && first_with_wip {
        MoveTarget::EnterWip
    } else {
        MoveTarget::Commits
    }
}

/// What Enter opens or expands.
#[derive(Debug, Clone, Copy, PartialEq, Eq, Structural)]
pub enum EnterTarget {
    /// The stash panel goes full screen, or back.
    StashFullscreen,
    /// The working view goes full screen, or back.
    WorkingFullscreen,
    /// The working view opens on the uncommitted changes.
    OpenWorking,
    /// The commit panel's diff goes full screen.
    ExpandPanel,
    /// The commit panel opens on the selected commit.
    OpenPanel,
    /// Nothing: the working-tree row is selected but nothing changed.
    Nothing,
}

/// Enter acts on the stash panel, else the working view, else the
/// working-tree row when it is selected, else it expands the open commit
/// panel or opens one.
pub open spec fn enter_spec(l: Layers, on_wip: bool, has_wip: bool) -> EnterTarget {
    if l.stash is Some {
        EnterTarget::StashFullscreen
    } else if l.working is Some {
        EnterTarget::WorkingFullscreen
    } else if on_wip {
        if has_wip {
            EnterTarget::OpenWorking
        } else {
            EnterTarget::Nothing
        }
    } else if l.panel == Some(false) {
        EnterTarget::ExpandPanel
    } else {
        EnterTarget::OpenPanel
    }
}

pub fn enter_target(l: &Layers, on_wip: bool, has_wip: bool) -> (r: EnterTarget)
    ensures
        r == enter_spec(*l, on_wip, has_wip),
{
    if l.stash.is_some() {
        EnterTarget::StashFullscreen
    } else if l.working.is_some() {
        EnterTarget::WorkingFullscreen
    } else if on_wip {
        if has_wip {
            EnterTarget::OpenWorking
        } else {
            EnterTarget::Nothing
        }
    } else if matches!(l.panel, Some(false)) {
        EnterTarget::ExpandPanel
    } else {
        EnterTarget::OpenPanel
    }
}

/// What Tab moves the focus to.
#[derive(Debug, Clone, Copy, PartialEq, Eq, Structural)]
pub enum FocusStep {
    /// The stash panel's focus moves on to its next part.
    RotateStash,
    /// The working view's hunks take the focus.
    WorkingHunks,
    /// The working view's file list takes the focus back.
    WorkingFiles,
    /// The full-screen commit diff takes the focus.
    PanelDiff,
    /// The full-screen commit panel's file list takes the focus back.
    PanelFiles,
    /// Nothing to focus.
    Nothing,
}

/// Tab rotates the stash panel; in the working view it goes from the files
/// to the hunks when the diff has any, and back; in the full-screen commit
/// panel it goes from the files to the diff when there is one, and back.
pub open spec fn focus_spec(l: Layers, working_has_hunks: bool, panel_has_diff: bool, panel_diff_focused: bool) -> FocusStep {
    if l.stash is Some {
        FocusStep::RotateStash
    } else if l.working is Some {
        if (match l.working {
            Some((on_hunks, _)) => on_hunks,
            None => false,
        }) {
            FocusStep::WorkingFiles
        } else if working_has_hunks {
            FocusStep::WorkingHunks
        } else {
            FocusStep::Nothing
        }
    } else if l.panel == Some(true) {
        if panel_diff_focused {
            FocusStep::PanelFiles
        } else if panel_has_diff {
            FocusStep::PanelDiff
        } else {
            FocusStep::Nothing
        }
    } else {
        FocusStep::Nothing
    }
}

pub fn focus_step(l: &Layers, working_has_hunks: bool, panel_has_diff: bool, panel_diff_focused: bool) -> (r: FocusStep)
    ensures
        r == focus_spec(*l, working_has_hunks, panel_has_diff, panel_diff_focused),
{
    match l.working {
        Some((on_hunks, _)) if l.stash.is_none() => {
            if on_hunks {
                FocusStep::WorkingFiles
            } else if working_has_hunks {
                FocusStep::WorkingHunks
            } else {
                FocusStep::Nothing
            }
        },
        _ => {
            if l.stash.is_some() {
                FocusStep::RotateStash
            } else if matches!(l.panel, Some(true)) {
                if panel_diff_focused {
                    FocusStep::PanelFiles
                } else if panel_has_diff {
                    FocusStep::PanelDiff
                } else {
                    FocusStep::Nothing
                }
            } else {
                FocusStep::Nothing
            }
        },
    }
}

/// Whatever is open, Escape acts on a layer exactly when one is open.
pub proof fn law_escape_acts_when_something_is_open(l: Layers)
    ensures
        (dismissal_spec(l) is None) <==> (!l.password && !l.focus_name && l.stash_filter is None
            && l.branch_filter is None && !l.alert && !l.palette && !l.stash_message && !l.commit
            && !l.branch_create && !l.confirm && !l.help_visible && !l.focus_panel
            && !l.submodule_panel && l.stash is None && !l.join && !l.branch && l.working is None
            && l.panel is None),
{
}

// ---------------------------------------------------------------------------
// The join menu's choices
// ---------------------------------------------------------------------------

pub type OptionView = (JoinStrategy, Seq<char>, Seq<char>, bool);

pub open spec fn option_views(os: Seq<JoinOption>) -> Seq<OptionView> {
    os.map_values(|o: JoinOption| (o.strategy, o.label@, o.note@, o.enabled))
}

pub open spec fn merge_note_spec(p: MergePrediction) -> Seq<char> {
    match p {
        MergePrediction::UpToDate => "up to date"@,
        MergePrediction::FastForward => "fast-forward"@,
        MergePrediction::Clean => "clean"@,
        MergePrediction::Conflicts { files } => decimal(files@.len()) + " "@ + "conflicts"@,
    }
}

pub open spec fn fast_forward_note_spec(p: MergePrediction) -> Seq<char> {
    match p {
        MergePrediction::FastForward => "fast-forward"@,
        MergePrediction::UpToDate => "up to date"@,
        _ => "not possible (diverged)"@,
    }
}

pub open spec fn cherry_pick_note_spec(p: MergePrediction) -> Seq<char> {
    match p {
        MergePrediction::Clean => "clean"@,
        MergePrediction::FastForward => "clean"@,
        MergePrediction::UpToDate => "already applied"@,
        MergePrediction::Conflicts { files } => decimal(files@.len()) + " "@ + "conflicts"@,
    }
}

pub open spec fn rebase_note_spec(p: MergePrediction, ahead: nat, attached: bool) -> Seq<char> {
    if !attached {
        "detached HEAD"@
    } else if p is UpToDate {
        "up to date"@
    } else {
        "replays "@ + decimal(ahead) + " commit"@ + (if ahead == 1 {
            Seq::<char>::empty()
        } else {
            "s"@
        })
    }
}

/// A cherry-pick can run when it applies, cleanly or with conflicts.
pub open spec fn cherry_enabled(p: MergePrediction) -> bool {
    p is Clean || p is Conflicts
}

/// The ways to join a source into HEAD, with their notes and whether they
/// can run: for a branch fast-forward, merge commit, cherry-pick of its tip
/// and rebase onto it; for a lone commit a cherry-pick. Also the files a
/// merge (or, for a commit, the cherry-pick) would leave conflicted.
pub open spec fn join_choices_spec(
    is_branch: bool,
    merge: MergePrediction,
    cherry: MergePrediction,
    ahead: nat,
    attached: bool,
) -> (Seq<OptionView>, Seq<Seq<char>>) {
    if is_branch {
        (
            seq![
                (JoinStrategy::FastForward, "Fast-forward"@, fast_forward_note_spec(merge), merge is FastForward),
                (JoinStrategy::MergeCommit, "Merge commit"@, merge_note_spec(merge), !(merge is UpToDate)),
                (JoinStrategy::CherryPick, "Cherry-pick tip"@, cherry_pick_note_spec(cherry), cherry_enabled(cherry)),
                (JoinStrategy::Rebase, "Rebase onto"@, rebase_note_spec(merge, ahead, attached), attached && !(merge is UpToDate)),
            ],
            match merge {
                MergePrediction::Conflicts { files } => strs(files@),
                _ => Seq::<Seq<char>>::empty(),
            },
        )
    } else {
        (
            seq![(JoinStrategy::CherryPick, "Cherry-pick"@, cherry_pick_note_spec(cherry), cherry_enabled(cherry))],
            match cherry {
                MergePrediction::Conflicts { files } => strs(files@),
                _ => Seq::<Seq<char>>::empty(),
            },
        )
    }
}

fn option(strategy: JoinStrategy, label: &str, note: String, enabled: bool) -> (r: JoinOption)
    ensures
        (r.strategy, r.label@, r.note@, r.enabled) == (strategy, label@, note@, enabled),
{
    JoinOption { strategy, label: label.to_owned(), note, enabled }
}

pub fn join_choices(
    is_branch: bool,
    merge: &MergePrediction,
    cherry: &MergePrediction,
    ahead: usize,
    attached: bool,
) -> (r: (Vec<JoinOption>, Vec<String>))
    ensures
        (option_views(r.0@), strs(r.1@)) == join_choices_spec(is_branch, *merge, *cherry, ahead as nat, attached),
{
    let cherry_ok = match cherry {
        MergePrediction::Clean | MergePrediction::Conflicts { .. } => true,
        _ => false,
    };
    let mut options: Vec<JoinOption> = Vec::new();
    if is_branch {
        let ff = match merge {
            MergePrediction::FastForward => true,
            _ => false,
        };
        let up_to_date = match merge {
            MergePrediction::UpToDate => true,
            _ => false,
        };
        options.push(option(JoinStrategy::FastForward, "Fast-forward", fast_forward_note(merge), ff));
        options.push(option(JoinStrategy::MergeCommit, "Merge commit", merge_note(merge), !up_to_date));
        options.push(option(JoinStrategy::CherryPick, "Cherry-pick tip", cherry_pick_note(cherry), cherry_ok));
        options.push(option(JoinStrategy::Rebase, "Rebase onto", rebase_note(merge, ahead, attached), attached && !up_to_date));
        let files = match merge {
            MergePrediction::Conflicts { files } => crate::join::clone_strings(files),
            _ => Vec::new(),
        };
        assert(option_views(options@) =~= join_choices_spec(is_branch, *merge, *cherry, ahead as nat, attached).0);
        proof {
            if !(merge is Conflicts) {
                assert(strs(files@) =~= Seq::<Seq<char>>::empty());
            }
        }
        (options, files)
    } else {
        options.push(option(JoinStrategy::CherryPick, "Cherry-pick", cherry_pick_note(cherry), cherry_ok));
        let files = match cherry {
            MergePrediction::Conflicts { files } => crate::join::clone_strings(files),
            _ => Vec::new(),
        };
        assert(option_views(options@) =~= join_choices_spec(is_branch, *merge, *cherry, ahead as nat, attached).0);
        proof {
            if !(cherry is Conflicts) {
                assert(strs(files@) =~= Seq::<Seq<char>>::empty());
            }
        }
        (options, files)
    }
}

/// The join menu's title: the branch joined into HEAD, or the commit picked onto it.
pub fn join_title(source_name: Option<&str>, source_oid: &str) -> (r: String)
    ensures
        r@ == match source_name {
            Some(name) => "Join "@ + name@ + " into HEAD"@,
            None => "Cherry-pick "@ + (if source_oid@.len() <= 7 {
                source_oid@
            } else {
                source_oid@.take(7)
            }) + " onto HEAD"@,
        },
{
    let mut out = String::new();
    match source_name {
        Some(name) => {
            push_str(&mut out, "Join ");
            push_str(&mut out, name);
            push_str(&mut out, " into HEAD");
        },
        None => {
            push_str(&mut out, "Cherry-pick ");
            let short = short_oid(source_oid);
            push_str(&mut out, short.as_str());
            push_str(&mut out, " onto HEAD");
        },
    }
    out
}

// ---------------------------------------------------------------------------
// Staging and joining steps
// ---------------------------------------------------------------------------

/// What toggling the stage acts on: a whole file or one hunk as a patch,
/// and whether it is staged now.
#[derive(Debug, Clone, PartialEq, Eq)]
pub enum StageTarget {
    File { path: String, staged: bool },
    Hunk { patch: String, staged: bool },
}

/// The run that toggles a target: staged things are taken out of the
/// index, the others put in.
pub open spec fn stage_args(t: StageTarget) -> (Seq<Seq<char>>, Option<Seq<char>>) {
    match t {
        StageTarget::File { path, staged } => if staged {
            (seq!["restore"@, "--staged"@, "--"@, path@], None)
        } else {
            (seq!["add"@, "--"@, path@], None)
        },
        StageTarget::Hunk { patch, staged } => if staged {
            (seq!["apply"@, "--cached"@, "--reverse"@, "--whitespace=nowarn"@], Some(patch@))
        } else {
            (seq!["apply"@, "--cached"@, "--whitespace=nowarn"@], Some(patch@))
        },
    }
}

/// What a toggle records for undo.
pub open spec fn stage_record(t: StageTarget) -> UndoableAction {
    match t {
        StageTarget::File { path, staged } => if staged {
            UndoableAction::Unstaged(path)
        } else {
            UndoableAction::Staged(path)
        },
        StageTarget::Hunk { patch, staged } => if staged {
            UndoableAction::UnstagedHunk { patch }
        } else {
            UndoableAction::StagedHunk { patch }
        },
    }
}

/// The same target seen from the other side of the index.
pub open spec fn flipped(t: StageTarget) -> StageTarget {
    match t {
        StageTarget::File { path, staged } => StageTarget::File { path, staged: !staged },
        StageTarget::Hunk { patch, staged } => StageTarget::Hunk { patch, staged: !staged },
    }
}

/// The command that toggles the stage of a target, and what to record so
/// that it can be undone.
pub fn stage_step(cli: &GitCli, target: &StageTarget) -> (r: (GitCommand, UndoableAction))
    ensures
        runs(cli@, r.0, stage_args(*target).0, stage_args(*target).1),
        r.1 == stage_record(*target),
{
    match target {
        StageTarget::File { path, staged } => if *staged {
            (cli.unstage_file(path.as_str()), UndoableAction::Unstaged(path.clone()))
        } else {
            (cli.stage_file(path.as_str()), UndoableAction::Staged(path.clone()))
        },
        StageTarget::Hunk { patch, staged } => if *staged {
            (cli.unstage_hunk(patch.as_str()), UndoableAction::UnstagedHunk { patch: patch.clone() })
        } else {
            (cli.stage_hunk(patch.as_str()), UndoableAction::StagedHunk { patch: patch.clone() })
        },
    }
}

/// Undoing a stage toggle runs the toggle of the same file or hunk from
/// the other side: what was put into the index is taken out, and the other
/// way round.
pub proof fn law_undo_toggles_back(t: StageTarget)
    ensures
        run_args(inverse(stage_record(t))) == Some(seq![stage_args(flipped(t))]),
{
}

/// Staging everything when anything is left unstaged or untracked, else
/// unstaging everything: the run's arguments.
pub open spec fn stage_all_args(has_unstaged: bool) -> Seq<Seq<char>> {
    if has_unstaged {
        seq!["add"@, "-A"@]
    } else {
        seq!["restore"@, "--staged"@, "."@]
    }
}

/// The command for "stage all", and what it records for undo.
pub fn stage_all_step(cli: &GitCli, has_unstaged: bool) -> (r: (GitCommand, UndoableAction))
    ensures
        runs(cli@, r.0, stage_all_args(has_unstaged), None),
        r.1 == (if has_unstaged {
            UndoableAction::StagedAll
        } else {
            UndoableAction::UnstagedAll
        }),
{
    if has_unstaged {
        (cli.stage_all(), UndoableAction::StagedAll)
    } else {
        (cli.unstage_all(), UndoableAction::UnstagedAll)
    }
}

/// Undoing "stage all" runs "stage all" the other way.
pub proof fn law_undo_of_stage_all_goes_back(has_unstaged: bool)
    ensures
        run_args(
            inverse(
                if has_unstaged {
                    UndoableAction::StagedAll
                } else {
                    UndoableAction::UnstagedAll
                },
            ),
        ) == Some(seq![(stage_all_args(!has_unstaged), None::<Seq<char>>)]),
{
}

/// The run that joins a source into HEAD, for every strategy but a rebase:
/// a fast-forward or a merge commit of the source's name, or a cherry-pick
/// of its commit.
pub open spec fn join_args(strategy: JoinStrategy, source_ref: Seq<char>, source_oid: Seq<char>) -> Option<
    Seq<Seq<char>>,
> {
    match strategy {
        JoinStrategy::FastForward => Some(seq!["merge"@, "--ff-only"@, source_ref]),
        JoinStrategy::MergeCommit => Some(seq!["merge"@, "--no-ff"@, "--no-edit"@, source_ref]),
        JoinStrategy::CherryPick => Some(seq!["cherry-pick"@, source_oid]),
        JoinStrategy::Rebase => None,
    }
}

/// What a join reports once it is done.
pub open spec fn join_label(strategy: JoinStrategy) -> Seq<char> {
    match strategy {
        JoinStrategy::FastForward => "Fast-forwarded"@,
        JoinStrategy::MergeCommit => "Merged"@,
        JoinStrategy::CherryPick => "Cherry-picked"@,
        JoinStrategy::Rebase => "Rebased"@,
    }
}

/// The command that joins a source into HEAD with `strategy`, and what the
/// client reports when it succeeds; no command for a rebase, which runs on
/// its own.
pub fn join_step(cli: &GitCli, strategy: JoinStrategy, source_ref: &str, source_oid: &str) -> (r: Option<
    (GitCommand, &'static str),
>)
    ensures
        match (r, join_args(strategy, source_ref@, source_oid@)) {
            (Some((cmd, label)), Some(args)) => runs(cli@, cmd, args, None) && label@ == join_label(strategy),
            (None, None) => true,
            _ => false,
        },
{
    proof {
        reveal_strlit("Fast-forwarded");
        reveal_strlit("Merged");
        reveal_strlit("Cherry-picked");
    }
    match strategy {
        JoinStrategy::FastForward => Some((cli.merge_ff(source_ref), "Fast-forwarded")),
        JoinStrategy::MergeCommit => Some((cli.merge_no_ff(source_ref), "Merged")),
        JoinStrategy::CherryPick => Some((cli.cherry_pick(source_oid), "Cherry-picked")),
        JoinStrategy::Rebase => None,
    }
}

/// What a successful join records for undo (resetting to where HEAD was),
/// and the event it celebrates.
pub fn join_record(strategy: JoinStrategy, previous: String) -> (r: (UndoableAction, Event))
    ensures
        r == (if strategy == JoinStrategy::CherryPick {
            (UndoableAction::CherryPicked { previous }, Event::CherryPick)
        } else if strategy == JoinStrategy::Rebase {
            (UndoableAction::Rebased { previous }, Event::Rebase)
        } else {
            (UndoableAction::Merged { previous }, Event::Merge)
        }),
{
    match strategy {
        JoinStrategy::CherryPick => (UndoableAction::CherryPicked { previous }, Event::CherryPick),
        JoinStrategy::Rebase => (UndoableAction::Rebased { previous }, Event::Rebase),
        _ => (UndoableAction::Merged { previous }, Event::Merge),
    }
}

/// How a failed remote operation is answered.
#[derive(Debug, Clone, Copy, PartialEq, Eq, Structural)]
pub enum RemoteFailure {
    /// The credential prompt was cancelled: nothing to report as an error.
    Cancelled,
    /// A push the remote rejected for having moved on: offer a force push.
    OfferForcePush,
    /// Anything else: report git's message.
    Failed,
}

pub fn remote_failure(push: bool, cancelled: bool, error: &str) -> (r: RemoteFailure)
    ensures
        r == (if cancelled {
            RemoteFailure::Cancelled
        } else if push && crate::remote::non_fast_forward(error@) {
            RemoteFailure::OfferForcePush
        } else {
            RemoteFailure::Failed
        }),
{
    if cancelled {
        RemoteFailure::Cancelled
    } else if push && crate::remote::is_non_fast_forward(error) {
        RemoteFailure::OfferForcePush
    } else {
        RemoteFailure::Failed
    }
}

} // verus!
