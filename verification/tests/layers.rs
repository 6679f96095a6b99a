use ravix::app::{
    Dismissal, EnterTarget, FocusStep, InputContext, Layers, MoveTarget, dismissal, enter_target,
    focus_step, input_context, join_choices, join_title, move_target,
};
use ravix::join::{JoinStrategy, MergePrediction};
use ravix::mutate::GitCli;
use ravix::undo::{InversePlan, UndoWork, undo_work};

fn nothing() -> Layers {
    Layers {
        password: false,
        alert: false,
        palette: false,
        stash_message: false,
        commit: false,
        branch_create: false,
        confirm: false,
        conflict: false,
        stash_filter: None,
        stash: None,
        join: false,
        focus_name: false,
        branch_filter: None,
        focus_panel: false,
        submodule_panel: false,
        branch: false,
        working: None,
        panel: None,
        help_visible: false,
    }
}

#[test]
fn the_front_layer_takes_the_keys() {
    assert_eq!(input_context(&nothing()), InputContext::Graph);
    let mut layers = nothing();
    layers.panel = Some(true);
    assert_eq!(input_context(&layers), InputContext::CommitDiff);
    layers.branch = true;
    assert_eq!(input_context(&layers), InputContext::Branch);
    layers.branch_filter = Some(false);
    assert_eq!(input_context(&layers), InputContext::Branch);
    layers.branch_filter = Some(true);
    assert_eq!(input_context(&layers), InputContext::BranchFilter);
    layers.password = true;
    assert_eq!(input_context(&layers), InputContext::Password);
}

#[test]
fn escape_steps_back_one_level_at_a_time() {
    assert_eq!(dismissal(&nothing()), None);
    let mut layers = nothing();
    layers.working = Some((true, true));
    assert_eq!(dismissal(&layers), Some(Dismissal::WorkingToFiles));
    layers.working = Some((false, true));
    assert_eq!(dismissal(&layers), Some(Dismissal::WorkingFullscreen));
    layers.working = Some((false, false));
    assert_eq!(dismissal(&layers), Some(Dismissal::Working));
    layers.help_visible = true;
    assert_eq!(dismissal(&layers), Some(Dismissal::Help));
    layers.stash_filter = Some(false);
    assert_eq!(dismissal(&layers), Some(Dismissal::StashFilter));
}

#[test]
fn cursor_moves_go_to_the_front_panel_or_the_commits() {
    let layers = nothing();
    assert_eq!(move_target(&layers, false, true, false, false), MoveTarget::Commits);
    assert_eq!(move_target(&layers, false, true, true, false), MoveTarget::LeaveWip);
    assert_eq!(move_target(&layers, false, false, true, false), MoveTarget::Stay);
    assert_eq!(move_target(&layers, false, false, false, true), MoveTarget::EnterWip);
    let mut layers = nothing();
    layers.working = Some((true, false));
    assert_eq!(move_target(&layers, false, true, false, false), MoveTarget::WorkingDiffScroll);
    layers.panel = Some(true);
    assert_eq!(move_target(&layers, true, true, false, false), MoveTarget::CommitDiffScroll);
}

#[test]
fn a_branch_offers_four_ways_to_join() {
    let conflicts = MergePrediction::Conflicts {
        files: vec!["a.rs".to_string()],
    };
    let (options, files) = join_choices(true, &conflicts, &MergePrediction::Clean, 2, true);
    let summary: Vec<(JoinStrategy, &str, &str, bool)> = options
        .iter()
        .map(|o| (o.strategy, o.label.as_str(), o.note.as_str(), o.enabled))
        .collect();
    assert_eq!(
        summary,
        vec![
            (JoinStrategy::FastForward, "Fast-forward", "not possible (diverged)", false),
            (JoinStrategy::MergeCommit, "Merge commit", "1 conflicts", true),
            (JoinStrategy::CherryPick, "Cherry-pick tip", "clean", true),
            (JoinStrategy::Rebase, "Rebase onto", "replays 2 commits", true),
        ]
    );
    assert_eq!(files, vec!["a.rs".to_string()]);

    let (options, files) =
        join_choices(false, &MergePrediction::Clean, &MergePrediction::UpToDate, 0, false);
    assert_eq!(options.len(), 1);
    assert_eq!(options[0].label, "Cherry-pick");
    assert_eq!(options[0].note, "already applied");
    assert!(!options[0].enabled);
    assert!(files.is_empty());
}

#[test]
fn the_join_title_names_the_source() {
    assert_eq!(join_title(Some("topic"), "abc"), "Join topic into HEAD");
    assert_eq!(join_title(None, "0123456789"), "Cherry-pick 0123456 onto HEAD");
}

#[test]
fn undoing_runs_the_reverse_commands() {
    let cli = GitCli::new("/repo");
    let (work, message) = undo_work(
        &cli,
        &InversePlan::DropBranch {
            name: "topic".to_string(),
            back_to: "main".to_string(),
        },
    );
    assert_eq!(message, "Undid create of topic");
    match work {
        UndoWork::Run(commands) => {
            let args: Vec<Vec<&str>> = commands
                .iter()
                .map(|c| c.args.iter().map(String::as_str).collect())
                .collect();
            assert_eq!(args, vec![vec!["checkout", "main"], vec!["branch", "-d", "topic"]]);
        }
        UndoWork::RestoreBlob { .. } => panic!("expected git runs"),
    }
    let (work, message) = undo_work(
        &cli,
        &InversePlan::RestoreFile {
            path: "a.txt".to_string(),
            snapshot: "f00".to_string(),
        },
    );
    assert_eq!(message, "Undid discard of a.txt");
    assert!(matches!(work, UndoWork::RestoreBlob { .. }));
}

#[test]
fn enter_opens_the_panel_then_expands_it() {
    let mut layers = nothing();
    assert_eq!(enter_target(&layers, false, true), EnterTarget::OpenPanel);
    layers.panel = Some(false);
    assert_eq!(enter_target(&layers, false, true), EnterTarget::ExpandPanel);
    layers.panel = Some(true);
    assert_eq!(enter_target(&layers, false, true), EnterTarget::OpenPanel);
}

#[test]
fn enter_on_the_working_tree_row_opens_the_working_view_when_there_are_changes() {
    let mut layers = nothing();
    assert_eq!(enter_target(&layers, true, true), EnterTarget::OpenWorking);
    assert_eq!(enter_target(&layers, true, false), EnterTarget::Nothing);
    layers.working = Some((false, false));
    assert_eq!(enter_target(&layers, true, true), EnterTarget::WorkingFullscreen);
    layers.stash = Some((true, false));
    assert_eq!(enter_target(&layers, true, true), EnterTarget::StashFullscreen);
}

#[test]
fn tab_focuses_the_diff_and_back_where_there_is_one() {
    let mut layers = nothing();
    layers.panel = Some(true);
    assert_eq!(focus_step(&layers, false, true, false), FocusStep::PanelDiff);
    assert_eq!(focus_step(&layers, false, true, true), FocusStep::PanelFiles);
    assert_eq!(focus_step(&layers, false, false, false), FocusStep::Nothing);
    layers.panel = Some(false);
    assert_eq!(focus_step(&layers, false, true, false), FocusStep::Nothing);
}

#[test]
fn tab_in_the_working_view_needs_hunks_to_focus() {
    let mut layers = nothing();
    layers.working = Some((false, true));
    assert_eq!(focus_step(&layers, true, false, false), FocusStep::WorkingHunks);
    assert_eq!(focus_step(&layers, false, false, false), FocusStep::Nothing);
    layers.working = Some((true, true));
    assert_eq!(focus_step(&layers, false, false, false), FocusStep::WorkingFiles);
    layers.stash = Some((true, false));
    assert_eq!(focus_step(&layers, false, false, false), FocusStep::RotateStash);
}
