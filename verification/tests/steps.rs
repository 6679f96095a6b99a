use ravix::app::{
    RemoteFailure, StageTarget, join_record, join_step, remote_failure, stage_all_step, stage_step,
};
use ravix::celebrate::Event;
use ravix::join::JoinStrategy;
use ravix::mutate::{GitCli, GitCommand};
use ravix::undo::{InversePlan, UndoWork, UndoableAction, invert, undo_work};

fn args(command: &GitCommand) -> Vec<&str> {
    command.args.iter().map(String::as_str).collect()
}

#[test]
fn toggling_an_unstaged_file_stages_it_and_records_the_stage() {
    let git = GitCli::new("/repo");
    let target = StageTarget::File {
        path: "a.rs".to_string(),
        staged: false,
    };
    let (command, action) = stage_step(&git, &target);
    assert_eq!(args(&command), ["add", "--", "a.rs"]);
    assert_eq!(action, UndoableAction::Staged("a.rs".to_string()));
}

#[test]
fn toggling_a_staged_hunk_reverses_its_patch_in_the_index() {
    let git = GitCli::new("/repo");
    let target = StageTarget::Hunk {
        patch: "@@ -1 +1 @@\n-a\n+b\n".to_string(),
        staged: true,
    };
    let (command, action) = stage_step(&git, &target);
    assert_eq!(
        args(&command),
        ["apply", "--cached", "--reverse", "--whitespace=nowarn"]
    );
    assert_eq!(command.stdin.as_deref(), Some("@@ -1 +1 @@\n-a\n+b\n"));
    assert_eq!(
        action,
        UndoableAction::UnstagedHunk {
            patch: "@@ -1 +1 @@\n-a\n+b\n".to_string()
        }
    );
}

#[test]
fn undoing_a_toggle_runs_the_toggle_from_the_other_side() {
    let git = GitCli::new("/repo");
    let staged = StageTarget::File {
        path: "b.rs".to_string(),
        staged: true,
    };
    let unstaged = StageTarget::File {
        path: "b.rs".to_string(),
        staged: false,
    };
    let (_, action) = stage_step(&git, &unstaged);
    let (work, _) = undo_work(&git, &invert(&action));
    let (opposite, _) = stage_step(&git, &staged);
    match work {
        UndoWork::Run(commands) => {
            assert_eq!(commands.len(), 1);
            assert_eq!(args(&commands[0]), args(&opposite));
        }
        UndoWork::RestoreBlob { .. } => panic!("a toggle is undone by running git"),
    }
}

#[test]
fn stage_all_stages_while_anything_is_unstaged_and_unstages_otherwise() {
    let git = GitCli::new("/repo");
    let (command, action) = stage_all_step(&git, true);
    assert_eq!(args(&command), ["add", "-A"]);
    assert_eq!(action, UndoableAction::StagedAll);
    let (command, action) = stage_all_step(&git, false);
    assert_eq!(args(&command), ["restore", "--staged", "."]);
    assert_eq!(action, UndoableAction::UnstagedAll);
    assert_eq!(invert(&UndoableAction::StagedAll), InversePlan::UnstageAll);
}

#[test]
fn each_join_strategy_runs_its_command() {
    let git = GitCli::new("/repo");
    let (command, label) = join_step(&git, JoinStrategy::FastForward, "topic", "abc123").unwrap();
    assert_eq!(args(&command), ["merge", "--ff-only", "topic"]);
    assert_eq!(label, "Fast-forwarded");
    let (command, label) = join_step(&git, JoinStrategy::MergeCommit, "topic", "abc123").unwrap();
    assert_eq!(args(&command), ["merge", "--no-ff", "--no-edit", "topic"]);
    assert_eq!(label, "Merged");
    let (command, label) = join_step(&git, JoinStrategy::CherryPick, "topic", "abc123").unwrap();
    assert_eq!(args(&command), ["cherry-pick", "abc123"]);
    assert_eq!(label, "Cherry-picked");
    assert!(join_step(&git, JoinStrategy::Rebase, "topic", "abc123").is_none());
}

#[test]
fn a_join_records_a_reset_to_where_head_was() {
    assert_eq!(
        join_record(JoinStrategy::CherryPick, "h".to_string()),
        (
            UndoableAction::CherryPicked {
                previous: "h".to_string()
            },
            Event::CherryPick
        )
    );
    assert_eq!(
        join_record(JoinStrategy::FastForward, "h".to_string()),
        (
            UndoableAction::Merged {
                previous: "h".to_string()
            },
            Event::Merge
        )
    );
    assert_eq!(
        join_record(JoinStrategy::Rebase, "h".to_string()),
        (
            UndoableAction::Rebased {
                previous: "h".to_string()
            },
            Event::Rebase
        )
    );
}

#[test]
fn a_rejected_push_offers_a_force_push() {
    let rejected = " ! [rejected]        main -> main (non-fast-forward)";
    assert_eq!(remote_failure(true, false, rejected), RemoteFailure::OfferForcePush);
    assert_eq!(remote_failure(false, false, rejected), RemoteFailure::Failed);
    assert_eq!(remote_failure(true, true, rejected), RemoteFailure::Cancelled);
    assert_eq!(remote_failure(true, false, "fatal: no route"), RemoteFailure::Failed);
}
