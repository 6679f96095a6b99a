use ravix::conflict::{ConflictBrowser, ConflictFile, OpKind, Side};
use ravix::slide::{SlidePanel, clamp_index};
use ravix::submodule::{Submodule, SyncState, dir_name};

const TWO_BLOCKS: &str = "\
<<<<<<< HEAD
a
=======
b
>>>>>>> topic
mid
<<<<<<< HEAD
c
=======
d
>>>>>>> topic
";

#[test]
fn a_file_resolves_once_every_block_has_a_side() {
    let mut file = ConflictFile::new("f.txt".to_string(), TWO_BLOCKS);
    assert_eq!(file.count(), 2);
    assert!(!file.is_resolved());
    assert_eq!(file.resolved_text(), None);
    file.choices[0] = Some(Side::Theirs);
    assert!(!file.is_resolved());
    file.choices[1] = Some(Side::Ours);
    assert!(file.is_resolved());
    assert_eq!(file.resolved_text().as_deref(), Some("b\nmid\nc\n"));
}

#[test]
fn the_browser_counts_open_blocks_and_moves_within_bounds() {
    let files = vec![
        ConflictFile::new("a.txt".to_string(), TWO_BLOCKS),
        ConflictFile::new("b.txt".to_string(), TWO_BLOCKS),
    ];
    let mut browser = ConflictBrowser::new(OpKind::Merge, files, None);
    assert_eq!(browser.remaining(), 4);
    assert_eq!(browser.focused_file().map(|f| f.path.as_str()), Some("a.txt"));
    browser.move_block(5);
    assert_eq!(browser.block, 1);
    browser.move_file(1);
    assert_eq!(browser.focused_file().map(|f| f.path.as_str()), Some("b.txt"));
    browser.move_file(3);
    assert_eq!(browser.file, 1);
    browser.files[1].choices[0] = Some(Side::Ours);
    assert_eq!(browser.remaining(), 3);
}

#[test]
fn cursors_are_held_within_their_entries() {
    assert_eq!(clamp_index(2, 5, 4), 3);
    assert_eq!(clamp_index(2, -5, 4), 0);
    assert_eq!(clamp_index(7, 1, 0), 0);
    let mut panel = SlidePanel::opening(vec!['a', 'b', 'c']);
    assert_eq!(panel.focused(), Some(&'a'));
    panel.move_selection(2);
    assert_eq!(panel.focused(), Some(&'c'));
    panel.refresh(vec!['x']);
    assert_eq!(panel.selected, 0);
    panel.refresh(Vec::new());
    assert_eq!(panel.focused(), None);
}

fn submodule(sync: SyncState, dirty: usize, untracked: usize) -> Submodule {
    Submodule {
        name: "lib".to_string(),
        path: "vendor/lib".to_string(),
        url: None,
        branch: None,
        checked_out: None,
        recorded: None,
        sync,
        dirty,
        untracked,
        last_commit: None,
    }
}

#[test]
fn a_submodule_knows_whether_it_is_set_up_and_clean() {
    assert!(!submodule(SyncState::Uninitialized, 0, 0).initialized());
    assert!(submodule(SyncState::Drifted, 0, 0).initialized());
    assert!(submodule(SyncState::Drifted, 0, 1).is_dirty());
    assert!(!submodule(SyncState::Synced, 0, 0).is_dirty());
}

#[test]
fn a_directory_is_named_by_its_last_component() {
    assert_eq!(dir_name("/home/dev/app/"), "app");
    assert_eq!(dir_name("vendor/./lib/."), "lib");
    assert_eq!(dir_name("/"), "");
    assert_eq!(dir_name("a/.."), "");
}
