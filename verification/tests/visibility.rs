use ravix::visibility::{Visibility, VisibilitySnapshot};

const ALL: [&str; 3] = ["main", "alpha", "beta"];

#[test]
fn solo_hides_every_other_branch() {
    let mut visibility = Visibility::default();
    visibility.solo("main", &ALL);
    assert!(visibility.is_visible("main", false));
    assert!(!visibility.is_visible("alpha", false));
    assert!(!visibility.is_visible("beta", false));
}

#[test]
fn solo_again_on_the_same_branch_restores_all() {
    let mut visibility = Visibility::default();
    visibility.solo("main", &ALL);
    visibility.solo("main", &ALL);
    assert!(visibility.is_visible("alpha", false));
    assert!(visibility.is_visible("beta", false));
}

#[test]
fn solo_on_another_branch_re_solos_instead_of_restoring() {
    let mut visibility = Visibility::default();
    visibility.solo("main", &ALL);
    visibility.solo("alpha", &ALL);
    assert!(visibility.is_visible("alpha", false));
    assert!(!visibility.is_visible("main", false));
}

#[test]
fn a_manual_toggle_after_solo_keeps_solo_re_armable() {
    let mut visibility = Visibility::default();
    visibility.solo("main", &ALL);
    visibility.toggle("alpha");
    visibility.solo("main", &ALL);
    assert!(!visibility.is_visible("alpha", false));
    visibility.solo("main", &ALL);
    assert!(visibility.is_visible("alpha", false));
}

#[test]
fn toggling_twice_shows_the_branch_again() {
    let mut visibility = Visibility::default();
    visibility.toggle("alpha");
    assert!(!visibility.is_visible("alpha", false));
    visibility.toggle("alpha");
    assert!(visibility.is_visible("alpha", false));
}

#[test]
fn pinned_and_head_branches_stay_visible() {
    let mut visibility = Visibility::default();
    visibility.pin("beta");
    visibility.solo("main", &ALL);
    assert!(visibility.is_pinned("beta"));
    assert!(visibility.is_visible("beta", false));
    assert!(!visibility.is_visible("alpha", false));
    assert!(visibility.is_visible("alpha", true));
}

#[test]
fn a_snapshot_is_sorted_and_restores_the_state() {
    let mut visibility = Visibility::default();
    visibility.toggle("zeta");
    visibility.toggle("alpha");
    visibility.pin("keep");
    let snapshot = visibility.snapshot();
    assert_eq!(
        snapshot,
        VisibilitySnapshot {
            hidden: vec!["alpha".to_string(), "zeta".to_string()],
            pinned: vec!["keep".to_string()],
        }
    );

    let mut other = Visibility::default();
    other.restore(snapshot);
    assert!(!other.is_visible("alpha", false));
    assert!(!other.is_visible("zeta", false));
    assert!(other.is_pinned("keep"));
    assert!(other.is_visible("main", false));
}

#[test]
fn a_restored_snapshot_snapshots_to_the_same_lists() {
    let mut visibility = Visibility::default();
    visibility.toggle("m");
    visibility.toggle("b");
    visibility.toggle("x");
    visibility.pin("q");
    visibility.pin("c");
    let snapshot = visibility.snapshot();
    let mut other = Visibility::default();
    other.toggle("unrelated");
    other.restore(snapshot.clone());
    assert_eq!(other.snapshot(), snapshot);
}
