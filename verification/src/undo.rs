//! Undo: the operation that reverses each undoable action.
use vstd::prelude::*;

use crate::mutate::{CliView, GitCli, GitCommand, runs, stash_ref};
use crate::text::push_str;

verus! {

#[derive(Debug, Clone, PartialEq, Eq)]
pub enum UndoableAction {
    Staged(String),
    Unstaged(String),
    StagedHunk { patch: String },
    UnstagedHunk { patch: String },
    StagedAll,
    UnstagedAll,
    Discarded { path: String, snapshot: String },
    Committed,
    CheckedOut { previous: String },
    CreatedBranch { name: String, previous: String },
    DeletedBranch { name: String, oid: String },
    Merged { previous: String },
    CherryPicked { previous: String },
    Rebased { previous: String },
    Stashed,
}

#[derive(Debug, Clone, PartialEq, Eq)]
pub enum InversePlan {
    Stage(String),
    Unstage(String),
    StageHunk(String),
    UnstageHunk(String),
    StageAll,
    UnstageAll,
    RestoreFile { path: String, snapshot: String },
    ReflogSoftReset,
    Checkout(String),
    DropBranch { name: String, back_to: String },
    RestoreBranch { name: String, oid: String },
    ResetKeep(String),
    StashPop,
}

/// The plan that reverses an action: staging and unstaging swap, a discard
/// restores its snapshot, a commit is soft-reset away, a checkout goes back,
/// a created branch is dropped (returning to where HEAD was), a deleted one
/// is recreated at its commit, history rewrites reset to where HEAD was,
/// and a stash is popped.
pub open spec fn inverse(action: UndoableAction) -> InversePlan {
    match action {
        UndoableAction::Staged(path) => InversePlan::Unstage(path),
        UndoableAction::Unstaged(path) => InversePlan::Stage(path),
        UndoableAction::StagedHunk { patch } => InversePlan::UnstageHunk(patch),
        UndoableAction::UnstagedHunk { patch } => InversePlan::StageHunk(patch),
        UndoableAction::StagedAll => InversePlan::UnstageAll,
        UndoableAction::UnstagedAll => InversePlan::StageAll,
        UndoableAction::Discarded { path, snapshot } => InversePlan::RestoreFile { path, snapshot },
        UndoableAction::Committed => InversePlan::ReflogSoftReset,
        UndoableAction::CheckedOut { previous } => InversePlan::Checkout(previous),
        UndoableAction::CreatedBranch { name, previous } => InversePlan::DropBranch {
            name,
            back_to: previous,
        },
        UndoableAction::DeletedBranch { name, oid } => InversePlan::RestoreBranch { name, oid },
        UndoableAction::Merged { previous } => InversePlan::ResetKeep(previous),
        UndoableAction::CherryPicked { previous } => InversePlan::ResetKeep(previous),
        UndoableAction::Rebased { previous } => InversePlan::ResetKeep(previous),
        UndoableAction::Stashed => InversePlan::StashPop,
    }
}

pub fn invert(action: &UndoableAction) -> (r: InversePlan)
    ensures
        r == inverse(*action),
{
    match action {
        UndoableAction::Staged(path) => InversePlan::Unstage(path.clone()),
        UndoableAction::Unstaged(path) => InversePlan::Stage(path.clone()),
        UndoableAction::StagedHunk { patch } => InversePlan::UnstageHunk(patch.clone()),
        UndoableAction::UnstagedHunk { patch } => InversePlan::StageHunk(patch.clone()),
        UndoableAction::StagedAll => InversePlan::UnstageAll,
        UndoableAction::UnstagedAll => InversePlan::StageAll,
        UndoableAction::Discarded { path, snapshot } => InversePlan::RestoreFile {
            path: path.clone(),
            snapshot: snapshot.clone(),
        },
        UndoableAction::Committed => InversePlan::ReflogSoftReset,
        UndoableAction::CheckedOut { previous } => InversePlan::Checkout(previous.clone()),
        UndoableAction::CreatedBranch { name, previous } => InversePlan::DropBranch {
            name: name.clone(),
            back_to: previous.clone(),
        },
        UndoableAction::DeletedBranch { name, oid } => InversePlan::RestoreBranch {
            name: name.clone(),
            oid: oid.clone(),
        },
        UndoableAction::Merged { previous } => InversePlan::ResetKeep(previous.clone()),
        UndoableAction::CherryPicked { previous } => InversePlan::ResetKeep(previous.clone()),
        UndoableAction::Rebased { previous } => InversePlan::ResetKeep(previous.clone()),
        UndoableAction::Stashed => InversePlan::StashPop,
    }
}

/// What undoing takes: git runs, in order, each needing the one before to
/// succeed; or writing a file back from a snapshot blob.
pub enum UndoWork {
    Run(Vec<GitCommand>),
    RestoreBlob { path: String, snapshot: String },
}

/// The runs an undo makes, as argument lists and standard input.
pub open spec fn run_args(plan: InversePlan) -> Option<Seq<(Seq<Seq<char>>, Option<Seq<char>>)>> {
    match plan {
        InversePlan::Stage(path) => Some(seq![(seq!["add"@, "--"@, path@], None)]),
        InversePlan::Unstage(path) => Some(seq![(seq!["restore"@, "--staged"@, "--"@, path@], None)]),
        InversePlan::StageHunk(patch) => Some(seq![(seq!["apply"@, "--cached"@, "--whitespace=nowarn"@], Some(patch@))]),
        InversePlan::UnstageHunk(patch) => Some(
            seq![(seq!["apply"@, "--cached"@, "--reverse"@, "--whitespace=nowarn"@], Some(patch@))],
        ),
        InversePlan::StageAll => Some(seq![(seq!["add"@, "-A"@], None)]),
        InversePlan::UnstageAll => Some(seq![(seq!["restore"@, "--staged"@, "."@], None)]),
        InversePlan::RestoreFile { .. } => None,
        InversePlan::ReflogSoftReset => Some(seq![(seq!["reset"@, "--soft"@, "HEAD@{1}"@], None)]),
        InversePlan::Checkout(target) => Some(seq![(seq!["checkout"@, target@], None)]),
        InversePlan::DropBranch { name, back_to } => Some(
            seq![(seq!["checkout"@, back_to@], None), (seq!["branch"@, "-d"@, name@], None)],
        ),
        InversePlan::RestoreBranch { name, oid } => Some(seq![(seq!["branch"@, name@, oid@], None)]),
        InversePlan::ResetKeep(oid) => Some(seq![(seq!["reset"@, "--keep"@, oid@], None)]),
        InversePlan::StashPop => Some(seq![(seq!["stash"@, "pop"@, stash_ref(0)], None)]),
    }
}

/// What the client reports once an undo succeeded.
pub open spec fn undo_message(plan: InversePlan) -> Seq<char> {
    match plan {
        InversePlan::Stage(path) => "Undid unstage of "@ + path@,
        InversePlan::Unstage(path) => "Undid stage of "@ + path@,
        InversePlan::StageHunk(_) => "Undid unstage of hunk"@,
        InversePlan::UnstageHunk(_) => "Undid stage of hunk"@,
        InversePlan::StageAll => "Undid unstage all"@,
        InversePlan::UnstageAll => "Undid stage all"@,
        InversePlan::RestoreFile { path, .. } => "Undid discard of "@ + path@,
        InversePlan::ReflogSoftReset => "Undid commit"@,
        InversePlan::Checkout(target) => "Undid checkout — back on "@ + target@,
        InversePlan::DropBranch { name, .. } => "Undid create of "@ + name@,
        InversePlan::RestoreBranch { name, .. } => "Undid delete of "@ + name@,
        InversePlan::ResetKeep(_) => "Undid integration"@,
        InversePlan::StashPop => "Undid stash"@,
    }
}

fn message(prefix: &str, name: &str) -> (r: String)
    ensures
        r@ == prefix@ + name@,
{
    let mut out = String::new();
    push_str(&mut out, prefix);
    push_str(&mut out, name);
    assert(out@ =~= prefix@ + name@);
    out
}

/// The work that carries out an undo plan, and what to report once it is done.
pub fn undo_work(cli: &GitCli, plan: &InversePlan) -> (r: (UndoWork, String))
    ensures
        r.1@ == undo_message(*plan),
        match (r.0, run_args(*plan)) {
            (UndoWork::Run(cmds), Some(expected)) => cmds@.len() == expected.len() && forall|i: int|
                0 <= i < expected.len() ==> runs(cli@, #[trigger] cmds@[i], expected[i].0, expected[i].1),
            (UndoWork::RestoreBlob { path, snapshot }, None) => match *plan {
                InversePlan::RestoreFile { path: p, snapshot: s } => path@ == p@ && snapshot@ == s@,
                _ => false,
            },
            _ => false,
        },
{
    match plan {
        InversePlan::Stage(path) => {
            (UndoWork::Run(vec![cli.stage_file(path.as_str())]), message("Undid unstage of ", path.as_str()))
        },
        InversePlan::Unstage(path) => {
            (UndoWork::Run(vec![cli.unstage_file(path.as_str())]), message("Undid stage of ", path.as_str()))
        },
        InversePlan::StageHunk(patch) => {
            (UndoWork::Run(vec![cli.stage_hunk(patch.as_str())]), "Undid unstage of hunk".to_owned())
        },
        InversePlan::UnstageHunk(patch) => {
            (UndoWork::Run(vec![cli.unstage_hunk(patch.as_str())]), "Undid stage of hunk".to_owned())
        },
        InversePlan::StageAll => (UndoWork::Run(vec![cli.stage_all()]), "Undid unstage all".to_owned()),
        InversePlan::UnstageAll => (UndoWork::Run(vec![cli.unstage_all()]), "Undid stage all".to_owned()),
        InversePlan::RestoreFile { path, snapshot } => (
            UndoWork::RestoreBlob { path: path.clone(), snapshot: snapshot.clone() },
            message("Undid discard of ", path.as_str()),
        ),
        InversePlan::ReflogSoftReset => (UndoWork::Run(vec![cli.reset_soft_previous()]), "Undid commit".to_owned()),
        InversePlan::Checkout(target) => (
            UndoWork::Run(vec![cli.checkout(target.as_str())]),
            message("Undid checkout — back on ", target.as_str()),
        ),
        InversePlan::DropBranch { name, back_to } => (
            UndoWork::Run(vec![cli.checkout(back_to.as_str()), cli.delete_branch(name.as_str())]),
            message("Undid create of ", name.as_str()),
        ),
        InversePlan::RestoreBranch { name, oid } => (
            UndoWork::Run(vec![cli.create_branch_at(name.as_str(), oid.as_str())]),
            message("Undid delete of ", name.as_str()),
        ),
        InversePlan::ResetKeep(oid) => (UndoWork::Run(vec![cli.reset_keep(oid.as_str())]), "Undid integration".to_owned()),
        InversePlan::StashPop => (UndoWork::Run(vec![cli.stash_pop(0)]), "Undid stash".to_owned()),
    }
}

/// Undoing a staging change runs the opposite staging command on the same
/// path: what staging adds, the undo takes back out, and the other way round.
pub proof fn law_undo_reverses_staging(path: String)
    ensures
        run_args(inverse(UndoableAction::Staged(path))) == Some(
            seq![(seq!["restore"@, "--staged"@, "--"@, path@], None::<Seq<char>>)],
        ),
        run_args(inverse(UndoableAction::Unstaged(path))) == Some(
            seq![(seq!["add"@, "--"@, path@], None::<Seq<char>>)],
        ),
{
}


/// Undoing a merge, a cherry-pick or a rebase resets, keeping local
/// changes, to the commit HEAD was on before it: one run of
/// `git reset --keep` with that commit.
pub proof fn law_undo_of_history_rewrites_resets_to_before(previous: String)
    ensures
        run_args(inverse(UndoableAction::Merged { previous })) == Some(
            seq![(seq!["reset"@, "--keep"@, previous@], None::<Seq<char>>)],
        ),
        run_args(inverse(UndoableAction::CherryPicked { previous })) == Some(
            seq![(seq!["reset"@, "--keep"@, previous@], None::<Seq<char>>)],
        ),
        run_args(inverse(UndoableAction::Rebased { previous })) == Some(
            seq![(seq!["reset"@, "--keep"@, previous@], None::<Seq<char>>)],
        ),
{
}

} // verus!
