use ravix::watcher::{ChangeKind, ModifyClass, Signal, absorb, holds_git_dir, is_git_dir, opens_directories, quiet_period, should_reload, signals_change, PathPlace, is_relevant, is_watched};

#[test]
fn read_driven_events_are_ignored() {
    assert!(!signals_change(&ChangeKind::Access));
    assert!(!signals_change(&ChangeKind::Modify(ModifyClass::Metadata)));
}

#[test]
fn nested_git_directories_stay_relevant() {
    assert!(holds_git_dir("sub/.git/index"));
    assert!(holds_git_dir(".git/refs/heads/main"));
    assert!(!holds_git_dir("src/.gitignore"));
    assert!(!holds_git_dir("node_modules/pkg/index.js"));
}

#[test]
fn real_changes_still_signal() {
    assert!(signals_change(&ChangeKind::Create));
    assert!(signals_change(&ChangeKind::Remove));
    assert!(signals_change(&ChangeKind::Modify(ModifyClass::Data)));
    assert!(signals_change(&ChangeKind::Modify(ModifyClass::Name)));
    assert!(signals_change(&ChangeKind::Any));
}

#[test]
fn only_creations_and_renames_open_directories() {
    assert!(opens_directories(&ChangeKind::Create));
    assert!(opens_directories(&ChangeKind::Modify(ModifyClass::Name)));
    assert!(!opens_directories(&ChangeKind::Modify(ModifyClass::Data)));
    assert!(!opens_directories(&ChangeKind::Remove));
}

#[test]
fn a_git_dir_is_named_by_its_last_component() {
    assert!(is_git_dir("/home/dev/app/.git"));
    assert!(is_git_dir("vendor/lib/.git/"));
    assert!(is_git_dir(".git/."));
    assert!(!is_git_dir("vendor/.git/objects"));
    assert!(!is_git_dir(".gitmodules"));
    assert!(!is_git_dir(".git/.."));
}

#[test]
fn an_event_reloads_when_it_changes_something_relevant() {
    assert!(should_reload(&ChangeKind::Create, &[]));
    assert!(should_reload(&ChangeKind::Create, &[false, true]));
    assert!(!should_reload(&ChangeKind::Create, &[false, false]));
    assert!(!should_reload(&ChangeKind::Access, &[true]));
}

#[test]
fn a_burst_never_waits_past_its_limit() {
    assert_eq!(quiet_period(50, 200, 0), 50);
    assert_eq!(quiet_period(50, 200, 180), 20);
    assert_eq!(quiet_period(50, 200, 200), 0);
    assert_eq!(quiet_period(50, 200, 500), 0);
}

#[test]
fn a_discovered_directory_is_watched_without_a_reload() {
    assert_eq!(absorb(Signal::Changed), (true, None));
    assert_eq!(
        absorb(Signal::Discovered("src/new".to_string())),
        (false, Some("src/new".to_string()))
    );
}

#[test]
fn changes_in_the_git_directory_and_outside_the_tree_always_matter() {
    assert!(is_relevant(&PathPlace::GitDir, true));
    assert!(is_relevant(&PathPlace::NoWorktree, true));
    assert!(is_relevant(&PathPlace::OutsideWorktree, true));
}

#[test]
fn ignored_paths_in_the_tree_do_not_matter_unless_they_run_through_a_git_dir() {
    let build = PathPlace::InWorktree("target/debug/app".to_string());
    assert!(!is_relevant(&build, true));
    assert!(is_relevant(&build, false));
    let nested = PathPlace::InWorktree("vendor/lib/.git/HEAD".to_string());
    assert!(is_relevant(&nested, true));
    assert!(is_relevant(&PathPlace::InWorktree(String::new()), true));
}

#[test]
fn only_unignored_directories_of_the_tree_are_watched_on_their_own() {
    let src = PathPlace::InWorktree("src".to_string());
    assert!(is_watched(&src, true, false, false));
    assert!(!is_watched(&src, true, false, true));
    assert!(!is_watched(&src, false, false, false));
    assert!(is_watched(&PathPlace::InWorktree("deps/.git".to_string()), true, true, true));
    assert!(!is_watched(&PathPlace::GitDir, true, true, false));
    assert!(!is_watched(&PathPlace::OutsideWorktree, true, false, false));
    assert!(is_watched(&PathPlace::OutsideWorktree, true, true, false));
    assert!(is_watched(&PathPlace::NoWorktree, true, false, false));
}
