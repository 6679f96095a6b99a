use ravix::app::{
    ConfirmPlan, confirm_plan,
    ConfirmKind, after_delete,
    BranchCreate, BranchStart, COMMAND_COUNT, DiscardMode, Palette, PasswordPrompt, cherry_pick_note,
    command, discard_mode, fast_forward_note, join_summary, merge_note, rebase_note, shift_scroll,
    short_oid, split_remote_ref,
};
use ravix::askpass::PromptKind;
use ravix::git::{StageState, WorkingFile};
use ravix::join::MergePrediction;

#[test]
fn scrolling_stops_at_the_top() {
    assert_eq!(shift_scroll(5, -3), 2);
    assert_eq!(shift_scroll(2, -3), 0);
    assert_eq!(shift_scroll(2, 3), 5);
}

#[test]
fn a_branch_from_a_stash_knows_it() {
    assert!(BranchCreate::new(BranchStart::Stash(2)).is_from_stash());
    assert!(!BranchCreate::new(BranchStart::Commit("abc".to_string())).is_from_stash());
}

#[test]
fn a_password_is_masked_and_a_username_shown() {
    let mut prompt = PasswordPrompt::new(PromptKind::Password, "https://h".to_string());
    prompt.push_input('a');
    prompt.push_input('é');
    assert!(prompt.masked());
    assert_eq!(prompt.label(), "Password");
    assert_eq!(prompt.host(), "https://h");
    assert_eq!(prompt.shown(), "••");
    prompt.pop_input();
    assert_eq!(prompt.input(), "a");

    let mut user = PasswordPrompt::new(PromptKind::Username, String::new());
    user.push_input('b');
    assert!(!user.masked());
    assert_eq!(user.label(), "Username");
    assert_eq!(user.shown(), "b");
}

#[test]
fn the_palette_opens_on_every_command_and_filters() {
    let mut palette = Palette::opening();
    assert_eq!(palette.matches.len(), COMMAND_COUNT);
    assert_eq!(palette.rows()[0], ("Fetch", "f"));
    palette.query = "stash".to_string();
    palette.refilter();
    let rows = palette.rows();
    assert_eq!(rows, vec![("Stash changes", "s"), ("Stash list", "S")]);
    palette.move_selection(5);
    assert_eq!(palette.selected, 1);
    palette.move_selection(-9);
    assert_eq!(palette.selected, 0);
    assert_eq!(command(13), ("Quit", "q"));
}

#[test]
fn discarding_depends_on_where_the_change_is() {
    let file = |status: char, state: StageState| WorkingFile {
        path: "a".to_string(),
        status,
        state,
    };
    assert_eq!(discard_mode(&file('?', StageState::Untracked)), DiscardMode::Untracked);
    assert_eq!(discard_mode(&file('M', StageState::Staged)), DiscardMode::Head);
    assert_eq!(discard_mode(&file('U', StageState::Unstaged)), DiscardMode::Head);
    assert_eq!(discard_mode(&file('M', StageState::Unstaged)), DiscardMode::Worktree);
}

#[test]
fn short_texts_read_as_intended() {
    assert_eq!(short_oid("0123456789abcdef"), "0123456");
    assert_eq!(short_oid("abc"), "abc");
    assert_eq!(
        split_remote_ref("origin/feature/x"),
        Some(("origin".to_string(), "feature/x".to_string()))
    );
    assert_eq!(split_remote_ref("main"), None);
    let conflicts = MergePrediction::Conflicts {
        files: vec!["a".to_string(), "b".to_string()],
    };
    assert_eq!(merge_note(&conflicts), "2 conflicts");
    assert_eq!(merge_note(&MergePrediction::FastForward), "fast-forward");
    assert_eq!(fast_forward_note(&MergePrediction::Clean), "not possible (diverged)");
    assert_eq!(rebase_note(&MergePrediction::Clean, 1, true), "replays 1 commit");
    assert_eq!(rebase_note(&MergePrediction::Clean, 3, true), "replays 3 commits");
    assert_eq!(rebase_note(&MergePrediction::Clean, 3, false), "detached HEAD");
    assert_eq!(rebase_note(&MergePrediction::UpToDate, 3, true), "up to date");
    assert_eq!(cherry_pick_note(&MergePrediction::UpToDate), "already applied");
    assert_eq!(cherry_pick_note(&conflicts), "2 conflicts");
    assert_eq!(
        join_summary(&MergePrediction::FastForward, true, 4),
        "+4 commits · fast-forward · linear"
    );
    assert_eq!(
        join_summary(&MergePrediction::Clean, true, 10),
        "+10 commits · merge commit · 2 parents · clean"
    );
    assert_eq!(join_summary(&MergePrediction::Clean, false, 1), "cherry-pick · clean");
    assert_eq!(
        join_summary(&conflicts, true, 1),
        "2 conflicting file(s) · resolve in 3.3"
    );
}

fn delete_kind(forced: bool, upstream: Option<&str>) -> ConfirmKind {
    let name = "feat".to_string();
    let oid = Some("abc123".to_string());
    let upstream = upstream.map(|u| u.to_string());
    if forced {
        ConfirmKind::ForceDeleteBranch { name, oid, upstream }
    } else {
        ConfirmKind::DeleteBranch { name, oid, upstream }
    }
}

#[test]
fn a_refused_branch_delete_asks_to_force_it() {
    let confirm = after_delete(&delete_kind(false, Some("origin/feat")), false).expect("a force prompt");
    assert_eq!(confirm.message, "'feat' is not fully merged. Force delete? (y/n)");
    match confirm.kind {
        ConfirmKind::ForceDeleteBranch { name, oid, upstream } => {
            assert_eq!(name, "feat");
            assert_eq!(oid.as_deref(), Some("abc123"));
            assert_eq!(upstream.as_deref(), Some("origin/feat"));
        }
        _ => panic!("expected a forced delete"),
    }
    assert!(after_delete(&delete_kind(true, Some("origin/feat")), false).is_none());
}

#[test]
fn a_deleted_branch_offers_to_delete_its_upstream() {
    for forced in [false, true] {
        let confirm = after_delete(&delete_kind(forced, Some("origin/feat/x")), true).expect("a remote prompt");
        assert_eq!(confirm.message, "Delete remote origin/feat/x too? (y/n)");
        match confirm.kind {
            ConfirmKind::DeleteRemoteBranch { remote, remote_branch } => {
                assert_eq!(remote, "origin");
                assert_eq!(remote_branch, "feat/x");
            }
            _ => panic!("expected a remote delete"),
        }
        assert!(after_delete(&delete_kind(forced, None), true).is_none());
        assert!(after_delete(&delete_kind(forced, Some("noslash")), true).is_none());
    }
    assert!(after_delete(&ConfirmKind::ForcePush, true).is_none());
    assert!(after_delete(&ConfirmKind::ForcePush, false).is_none());
}

fn planned_args(plan: ConfirmPlan) -> (bool, Vec<String>, Option<String>) {
    match plan {
        ConfirmPlan::Run(command) => (false, command.args, command.stdin),
        ConfirmPlan::Remote(command) => (true, command.args, command.stdin),
        _ => panic!("expected a git command"),
    }
}

#[test]
fn each_confirmation_plans_its_git_command() {
    let git = ravix::mutate::GitCli::new("/repo");
    let strings = |xs: &[&str]| xs.iter().map(|x| x.to_string()).collect::<Vec<String>>();
    let head = ConfirmKind::Discard { path: "a.rs".to_string(), mode: DiscardMode::Head };
    assert_eq!(
        planned_args(confirm_plan(&git, &head)),
        (false, strings(&["restore", "--source=HEAD", "--staged", "--worktree", "--", "a.rs"]), None)
    );
    let worktree = ConfirmKind::Discard { path: "a.rs".to_string(), mode: DiscardMode::Worktree };
    assert_eq!(
        planned_args(confirm_plan(&git, &worktree)),
        (false, strings(&["restore", "--recurse-submodules", "--", "a.rs"]), None)
    );
    let untracked = ConfirmKind::Discard { path: "a.rs".to_string(), mode: DiscardMode::Untracked };
    assert!(matches!(confirm_plan(&git, &untracked), ConfirmPlan::RemoveFile));
    let hunk = ConfirmKind::DiscardHunk { path: "a.rs".to_string(), patch: "P".to_string() };
    assert_eq!(
        planned_args(confirm_plan(&git, &hunk)),
        (false, strings(&["apply", "--reverse", "--whitespace=nowarn"]), Some("P".to_string()))
    );
    assert_eq!(
        planned_args(confirm_plan(&git, &delete_kind(false, None))),
        (false, strings(&["branch", "-d", "feat"]), None)
    );
    assert_eq!(
        planned_args(confirm_plan(&git, &delete_kind(true, None))),
        (false, strings(&["branch", "-D", "feat"]), None)
    );
    let remote = ConfirmKind::DeleteRemoteBranch { remote: "origin".to_string(), remote_branch: "feat".to_string() };
    assert_eq!(
        planned_args(confirm_plan(&git, &remote)),
        (true, strings(&["push", "origin", "--delete", "feat"]), None)
    );
    assert_eq!(
        planned_args(confirm_plan(&git, &ConfirmKind::ForcePush)),
        (true, strings(&["push", "--force-with-lease"]), None)
    );
    assert_eq!(
        planned_args(confirm_plan(&git, &ConfirmKind::DropStash { index: 2 })),
        (false, strings(&["stash", "drop", "stash@{2}"]), None)
    );
    assert!(matches!(confirm_plan(&git, &ConfirmKind::AbortStashConflict), ConfirmPlan::RestoreConflict));
    let focus = ConfirmKind::DeleteFocus { name: "f".to_string() };
    assert!(matches!(confirm_plan(&git, &focus), ConfirmPlan::ForgetFocus));
}
