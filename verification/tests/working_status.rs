use ravix::git::{
    StageState, StatusEntry, StatusFlags, WorkingFile, classify_status, diff_line, hunk_header, index_status,
    worktree_status,
};
use ravix::working::{Focus, WorkingView};

fn flags() -> StatusFlags {
    StatusFlags {
        index_new: false,
        index_modified: false,
        index_deleted: false,
        index_renamed: false,
        index_typechange: false,
        wt_new: false,
        wt_modified: false,
        wt_deleted: false,
        wt_renamed: false,
        wt_typechange: false,
    }
}

fn file(path: &str, status: char, state: StageState) -> WorkingFile {
    WorkingFile {
        path: path.to_string(),
        status,
        state,
    }
}

#[test]
fn status_codes_follow_their_precedence() {
    let mut f = flags();
    assert_eq!(index_status(f), None);
    assert_eq!(worktree_status(f), None);
    f.index_modified = true;
    f.index_new = true;
    assert_eq!(index_status(f), Some('A'));
    f.wt_deleted = true;
    f.wt_typechange = true;
    assert_eq!(worktree_status(f), Some('D'));
}

#[test]
fn paths_are_sorted_into_staged_unstaged_and_untracked() {
    let mut both = flags();
    both.index_modified = true;
    both.wt_modified = true;
    let mut new = flags();
    new.wt_new = true;
    let mut gone = flags();
    gone.wt_deleted = true;
    let entries = vec![
        StatusEntry { path: "both.rs".to_string(), flags: both },
        StatusEntry { path: "new.rs".to_string(), flags: new },
        StatusEntry { path: "gone.rs".to_string(), flags: gone },
        StatusEntry { path: "clean.rs".to_string(), flags: flags() },
    ];
    let status = classify_status(&entries);
    assert_eq!(status.staged, vec![file("both.rs", 'M', StageState::Staged)]);
    assert_eq!(
        status.unstaged,
        vec![file("both.rs", 'M', StageState::Unstaged), file("gone.rs", 'D', StageState::Unstaged)]
    );
    assert_eq!(status.untracked, vec![file("new.rs", '?', StageState::Untracked)]);
    assert_eq!(status.total(), 4);
    assert!(!status.is_empty());
    assert!(classify_status(&[]).is_empty());
}

#[test]
fn a_diff_line_keeps_its_marker_and_drops_its_line_feed() {
    assert_eq!(diff_line('+', "added\n"), "+added");
    assert_eq!(diff_line('>', "x"), "+x");
    assert_eq!(diff_line('<', "y\n"), "-y");
    assert_eq!(diff_line('-', "z\n\n"), "-z\n");
    assert_eq!(diff_line(' ', "ctx\n"), " ctx");
    assert_eq!(diff_line('=', "\\ No newline at end of file\n"), " \\ No newline at end of file");
}

#[test]
fn the_working_view_keeps_its_cursors_on_what_exists() {
    let mut view = WorkingView::opening();
    view.move_file(5, 3);
    assert_eq!(view.selected, 2);
    view.move_file(-9, 3);
    assert_eq!(view.selected, 0);
    view.move_file(2, 3);
    view.reconcile(1);
    assert_eq!(view.selected, 0);
    view.focus = Focus::Hunks;
    view.hunk = 4;
    view.reconcile(1);
    assert_eq!(view.focus, Focus::Files, "no hunks left to focus");
    assert_eq!(view.hunk, 0);
}

#[test]
fn a_hunk_header_loses_its_trailing_whitespace_only() {
    assert_eq!(hunk_header("@@ -1,2 +1,3 @@ fn main()\n"), "@@ -1,2 +1,3 @@ fn main()");
    assert_eq!(hunk_header("  @@ -0,0 +1 @@ \t\r\n"), "  @@ -0,0 +1 @@");
    assert_eq!(hunk_header(" \n"), "");
}
