use ravix::stash::{Focus, StashEntry, StashMessage, StashView, parse_stash_list};

fn named(index: usize, branch: Option<&str>, text: &str, time: i64, oid: &str) -> StashEntry {
    StashEntry {
        index,
        oid: oid.to_string(),
        branch: branch.map(str::to_string),
        time,
        message: StashMessage::Named(text.to_string()),
    }
}

#[test]
fn a_stash_list_parses_into_entries() {
    let text = "stash@{0}\u{0}1700000000\u{0}On main: fix the parser\u{0}abc123\n\
                stash@{1}\u{0} 1690000000 \u{0}WIP on topic: 9f8e7d6 Add a thing\u{0} def456 \n";
    let entries = parse_stash_list(text);
    assert_eq!(
        entries,
        vec![
            named(0, Some("main"), "fix the parser", 1_700_000_000, "abc123"),
            StashEntry {
                index: 1,
                oid: "def456".to_string(),
                branch: Some("topic".to_string()),
                time: 1_690_000_000,
                message: StashMessage::Auto {
                    base_id: "9f8e7d6".to_string(),
                    base_summary: "Add a thing".to_string(),
                },
            },
        ]
    );
    assert_eq!(entries[1].message.text(), "no message");
    assert_eq!(entries[1].message.base_id(), Some("9f8e7d6"));
    assert_eq!(entries[0].message.base_id(), None);
}

#[test]
fn a_detached_stash_has_no_branch() {
    let entries = parse_stash_list("stash@{3}\u{0}5\u{0}On (no branch): keep\u{0}aa");
    assert_eq!(entries, vec![named(3, None, "keep", 5, "aa")]);
}

#[test]
fn malformed_lines_are_skipped() {
    let text = "garbage\n\
                stash@{x}\u{0}5\u{0}On main: m\u{0}aa\n\
                stash@{0}\u{0}soon\u{0}On main: m\u{0}aa\n\
                stash@{0}\u{0}5\u{0}Merged main: m\u{0}aa\n\
                stash@{0}\u{0}5\u{0}On main:   \u{0}aa\n\
                stash@{0}\u{0}5\u{0}On main: m\n\
                stash@{2}\u{0}-7\u{0}On main: kept\u{0}bb\n";
    assert_eq!(parse_stash_list(text), vec![named(2, Some("main"), "kept", -7, "bb")]);
    assert!(parse_stash_list("").is_empty());
}

#[test]
fn the_stash_view_rotates_its_focus_through_what_it_has() {
    let mut view = StashView::opening(vec![named(0, Some("main"), "m", 1, "aa")]);
    assert_eq!(view.focused_entry().map(|entry| entry.index), Some(0));
    assert_eq!(view.focus, Focus::Entries);
    view.rotate_focus();
    assert_eq!(view.focus, Focus::Entries, "no files to focus yet");
}
