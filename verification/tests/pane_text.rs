use ravix::app::{
    Action, BranchCreate, BranchStart, Confirm, ConfirmKind, Effect, Layers, ScrollTarget, UiState,
    scroll_target, update_step,
};
use ravix::branches::BranchEntry;
use ravix::conflict::{ConflictBrowser, ConflictFile, OpKind, Side};
use ravix::git::{FileStatus, LineStats};
use ravix::stash::{Focus, StashEntry, StashFile, StashMessage, StashView};
use ravix::ui::branch_text::{branch_rows, branch_title};
use ravix::ui::commit_row::{RowShade, commit_row_text, row_shade, visible_commits, wip_row_text};
use ravix::ui::conflict_view::{conflict_code_rows, conflict_file_rows, conflict_title};
use ravix::ui::diff_pane::{clamp_hscroll, diff_title, snap_scroll};
use ravix::ui::graph_view::display_width;
use ravix::ui::stash_text::{CardStats, stash_cards, stash_entries_title, stash_file_rows, stash_focus_row};
use ravix::ui::wrap::StyledSpan;
use ravix::visibility::Visibility;

const TWO_BLOCKS: &str = "\
<<<<<<< HEAD
a
=======
b
>>>>>>> topic
mid
<<<<<<< HEAD
c
=======
d
>>>>>>> topic
";

fn views(row: &[StyledSpan]) -> Vec<(String, u32)> {
    row.iter().map(|span| (span.content.clone(), span.style)).collect()
}

fn text(row: &[StyledSpan]) -> String {
    row.iter().map(|span| span.content.as_str()).collect()
}

fn s(text: &str, tag: u32) -> (String, u32) {
    (text.to_string(), tag)
}

#[test]
fn the_conflict_browser_lists_files_and_shows_both_sides_of_each_block() {
    let mut file = ConflictFile::new("f.txt".to_string(), TWO_BLOCKS);
    file.choices[0] = Some(Side::Ours);
    let mut browser = ConflictBrowser::new(OpKind::Rebase, vec![file], Some((2, 5)));
    browser.block = 1;
    let files = conflict_file_rows(&browser);
    assert_eq!(files.len(), 1);
    assert_eq!(views(&files[0]), vec![s("❯ ", 1), s("◆ ", 3), s("f.txt", 4), s("  (2 blocks)", 6)]);
    let code: Vec<Vec<(String, u32)>> = conflict_code_rows(&browser).iter().map(|row| views(row)).collect();
    let expected = vec![
        vec![s("rebase in progress · step 2/5", 7)],
        vec![],
        vec![s("  conflict 1/2  · took OURS", 8)],
        vec![s("  ── OURS ──", 9)],
        vec![s("  ", 11), s("a", 13)],
        vec![s("  ── THEIRS ──", 10)],
        vec![s("  ", 12), s("b", 14)],
        vec![],
        vec![s("  mid", 6)],
        vec![s("❯ conflict 2/2", 8)],
        vec![s("  ── OURS ──", 9)],
        vec![s("  ", 11), s("c", 13)],
        vec![s("  ── THEIRS ──", 10)],
        vec![s("  ", 12), s("d", 14)],
        vec![],
        vec![s("[o] ours · [t] theirs · [e] edit · [c] continue · [s] skip · [A]/[Esc] abort — 1 left", 6)],
    ];
    assert_eq!(code, expected);
    assert_eq!(conflict_title(&browser), " f.txt ");
}

#[test]
fn a_browser_without_files_says_all_is_resolved() {
    let browser = ConflictBrowser::new(OpKind::Merge, Vec::new(), None);
    let files = conflict_file_rows(&browser);
    assert_eq!(views(&files[0]), vec![s("all resolved — press [c] to continue", 2)]);
    let code = conflict_code_rows(&browser);
    assert_eq!(text(&code[0]), "merge in progress");
    assert_eq!(
        text(&code[code.len() - 1]),
        "[o] ours · [t] theirs · [e] edit · [c] continue · [A]/[Esc] abort — 0 left"
    );
    assert_eq!(conflict_title(&browser), " Conflict ");
}

#[test]
fn a_commit_row_fills_each_column() {
    let row = commit_row_text(&Vec::new(), 8, false, true, "*", 2, "hello", 8, "Ann", "3d", "abc1234");
    assert_eq!(
        views(&row),
        vec![
            s("        ", 0),
            s("", 0),
            s("", 7),
            s(" ┊ ", 1),
            s("❯ ", 2),
            s("* ", 3),
            s("  ", 0),
            s("hello   ", 4),
            s("  ", 0),
            s("Ann           ", 5),
            s("  ", 0),
            s("   3d", 5),
            s("  ", 0),
            s("abc1234 ", 6),
        ]
    );
    let wip = wip_row_text(8, 1, false);
    assert_eq!(views(&wip), vec![s("         ┊ ◌ uncommitted changes (1 file)", 8)]);
    assert_eq!(text(&wip_row_text(0, 3, true)), " ┊ ◌ uncommitted changes (3 files)");
}

#[test]
fn the_graph_shows_the_commits_in_view_and_shades_their_rows() {
    assert_eq!(visible_commits(5, 10, 12), (5, 12));
    assert_eq!(visible_commits(3, 4, 100), (3, 7));
    assert_eq!(visible_commits(20, 5, 10), (20, 20));
    assert_eq!(row_shade(3, false, false, false, false), RowShade::Zebra);
    assert_eq!(row_shade(2, false, false, false, false), RowShade::Plain);
    assert_eq!(row_shade(2, false, true, false, false), RowShade::Head);
    assert_eq!(row_shade(3, true, true, false, false), RowShade::Selected);
    assert_eq!(row_shade(3, true, true, true, false), RowShade::DragSource);
    assert_eq!(row_shade(3, true, true, true, true), RowShade::DropTarget);
}

fn stash(index: usize, branch: Option<&str>, message: StashMessage, time: i64) -> StashEntry {
    StashEntry {
        index,
        oid: format!("{index:040}"),
        branch: branch.map(str::to_string),
        time,
        message,
    }
}

#[test]
fn a_stash_card_shows_its_message_origin_age_and_counts() {
    let view = StashView::opening(vec![
        stash(0, Some("main"), StashMessage::Named("wip".to_string()), 0),
        stash(
            1,
            None,
            StashMessage::Auto { base_id: "abc".to_string(), base_summary: "s".to_string() },
            0,
        ),
    ]);
    let stats = vec![
        CardStats { files: 2, lines: LineStats { added: 3, removed: 1 } },
        CardStats { files: 1, lines: LineStats { added: 0, removed: 0 } },
    ];
    let cards = stash_cards(&view, &stats, 40, 120, 4);
    assert_eq!(cards.len(), 2);
    assert!(cards[0].selected && !cards[1].selected);
    assert_eq!(
        views(&cards[0].title),
        vec![s("❯ ", 1), s("▣ 0  ", 2), s("wip", 3), s(&" ".repeat(30), 0)]
    );
    assert_eq!(text(&cards[0].meta), "      ⎇ main · 2m · 2 files        +3 −1");
    assert_eq!(text(&cards[1].title), format!("  ▢ 1  no message{}", " ".repeat(23)));
    assert_eq!(cards[1].title[2].style, 4);
    assert!(text(&cards[1].meta).starts_with("      ⎇ abc · 2m · 1 file"));
    assert_eq!(stash_entries_title(2, None), " Stashes 2 · p pop · a apply · d drop ");
    assert_eq!(stash_entries_title(2, Some(("wi", true))), " Stashes 2 · /wi▏");
    assert_eq!(text(&stash_focus_row(Focus::Entries)), "stashes [p] pop  [a] apply  [b] branch  [d] drop");
}

#[test]
fn a_stash_lists_its_files_with_their_counts() {
    let mut view = StashView::opening(vec![stash(0, Some("main"), StashMessage::Named("w".to_string()), 0)]);
    let empty = stash_file_rows(&view, 30, true);
    assert_eq!(empty.len(), 2);
    assert_eq!(text(&empty[0].spans), "Files (0)");
    assert_eq!(text(&empty[1].spans), "  nothing in this entry");
    view.files = vec![StashFile {
        path: "a.rs".to_string(),
        status: FileStatus::Modified,
        stats: LineStats { added: 4, removed: 2 },
        untracked: false,
    }];
    view.focus = Focus::Files;
    let rows = stash_file_rows(&view, 20, false);
    assert_eq!(rows.len(), 1);
    assert!(rows[0].focused);
    assert_eq!(text(&rows[0].spans), "❯ M a.rs       +4 −2");
    assert_eq!(rows[0].spans[1].style, 22);
}

#[test]
fn a_branch_row_shows_head_hidden_and_tracking() {
    let entries = vec![
        BranchEntry { name: "main".to_string(), is_head: true, upstream: Some("origin/main".to_string()), ahead: 2, behind: 3 },
        BranchEntry { name: "topic".to_string(), is_head: false, upstream: None, ahead: 0, behind: 0 },
    ];
    let mut visibility = Visibility::default();
    visibility.toggle("topic");
    let rows = branch_rows(&entries, 1, &visibility);
    assert_eq!(views(&rows[0]), vec![s("  ", 1), s("● ", 2), s("  ", 1), s("main", 10), s("  ↑2 ↓3", 5)]);
    assert_eq!(views(&rows[1]), vec![s("❯ ", 1), s("  ", 2), s("◌ ", 4), s("topic", 13)]);
    visibility.pin("topic");
    let rows = branch_rows(&entries, 0, &visibility);
    assert_eq!(views(&rows[1]), vec![s("  ", 1), s("  ", 2), s("★ ", 3), s("topic", 10)]);
    assert_eq!(branch_title(Some(("ma", true))), " Branches   /ma▏");
    assert_eq!(branch_title(Some(("ma", false))), " Branches   /ma ");
    assert_eq!(branch_title(None), " Branches ");
}

#[test]
fn a_diff_pane_names_its_mode_and_keeps_its_scrolls_in_range() {
    assert_eq!(diff_title(Some("a.rs"), false), " a.rs   [v] side-by-side ");
    assert_eq!(diff_title(None, true), " Diff   side-by-side · [v] unified ");
    assert_eq!(clamp_hscroll(50, true, 40, 23), 30);
    assert_eq!(clamp_hscroll(5, true, 40, 23), 5);
    assert_eq!(clamp_hscroll(5, false, 40, 23), 0);
    assert_eq!(snap_scroll(0, Some(30), true, 10, 100), 30);
    assert_eq!(snap_scroll(25, Some(30), true, 10, 100), 25);
    assert_eq!(snap_scroll(0, Some(30), false, 10, 100), 0);
    assert_eq!(snap_scroll(95, None, false, 10, 100), 90);
}

fn layers() -> Layers {
    Layers {
        password: false,
        alert: false,
        palette: false,
        stash_message: false,
        commit: false,
        branch_create: false,
        confirm: false,
        conflict: false,
        stash_filter: None,
        stash: None,
        join: false,
        focus_name: false,
        branch_filter: None,
        focus_panel: false,
        submodule_panel: false,
        branch: false,
        working: None,
        panel: None,
        help_visible: false,
    }
}

#[test]
fn a_scroll_moves_the_diff_with_the_eye_before_the_graph() {
    let mut l = layers();
    assert_eq!(scroll_target(&l, false), ScrollTarget::Graph);
    l.working = Some((false, false));
    assert_eq!(scroll_target(&l, false), ScrollTarget::Graph);
    l.working = Some((true, false));
    assert_eq!(scroll_target(&l, false), ScrollTarget::WorkingDiff);
    l.panel = Some(false);
    assert_eq!(scroll_target(&l, false), ScrollTarget::WorkingDiff);
    l.panel = Some(true);
    assert_eq!(scroll_target(&l, false), ScrollTarget::CommitDiff);
    l.stash = Some((true, false));
    assert_eq!(scroll_target(&l, false), ScrollTarget::CommitDiff);
    assert_eq!(scroll_target(&l, true), ScrollTarget::StashDiff);
    l.stash = Some((true, true));
    assert_eq!(scroll_target(&l, false), ScrollTarget::StashDiff);
}

#[test]
fn printable_ascii_takes_one_column_per_character() {
    assert_eq!(display_width("hello, world"), 12);
    assert_eq!(display_width(""), 0);
}

fn ui() -> UiState {
    UiState {
        help_visible: false,
        should_quit: false,
        confirm: Some(Confirm { message: "sure?".to_string(), kind: ConfirmKind::ForcePush }),
        commit: None,
        stash_message: None,
        branch_create: None,
        focus_name: None,
    }
}

#[test]
fn typing_and_toggles_are_done_by_the_step_and_the_rest_is_handled() {
    let mut state = ui();
    assert_eq!(update_step(&mut state, &Action::ToggleHelp), Effect::Done);
    assert!(state.help_visible);
    assert_eq!(update_step(&mut state, &Action::OpenCommit), Effect::Done);
    update_step(&mut state, &Action::CommitInput('h'));
    update_step(&mut state, &Action::CommitInput('i'));
    update_step(&mut state, &Action::CommitInput('!'));
    update_step(&mut state, &Action::CommitBackspace);
    assert_eq!(state.commit.as_ref().map(|editor| editor.message.as_str()), Some("hi"));
    assert_eq!(update_step(&mut state, &Action::StashMessageInput('x')), Effect::Done);
    assert_eq!(state.stash_message, None);
    update_step(&mut state, &Action::StashSave);
    update_step(&mut state, &Action::StashMessageInput('é'));
    assert_eq!(state.stash_message.as_deref(), Some("é"));
    update_step(&mut state, &Action::StashMessageBackspace);
    update_step(&mut state, &Action::StashMessageBackspace);
    assert_eq!(state.stash_message.as_deref(), Some(""));
    state.branch_create = Some(BranchCreate::new(BranchStart::Stash(1)));
    update_step(&mut state, &Action::BranchNameInput('b'));
    assert_eq!(state.branch_create.as_ref().map(|create| create.name.as_str()), Some("b"));
    update_step(&mut state, &Action::SaveFocus);
    update_step(&mut state, &Action::FocusNameInput('f'));
    assert_eq!(state.focus_name.as_deref(), Some("f"));
    assert_eq!(update_step(&mut state, &Action::Fetch), Effect::Handle);
    assert!(state.confirm.is_some());
    assert_eq!(update_step(&mut state, &Action::ConfirmNo), Effect::Done);
    assert!(state.confirm.is_none());
    assert!(!state.should_quit);
    assert_eq!(update_step(&mut state, &Action::Quit), Effect::Done);
    assert!(state.should_quit);
}
