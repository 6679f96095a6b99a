use ravix::staging::{FileDiff, Hunk};
use ravix::stash::{StashEntry, StashMessage, StashView};
use ravix::ui::{
    card_window, file_word, fnv1a, max_content_width, relative_time, scroll_into_view, short_oid,
    stash_origin,
};

#[test]
fn fnv1a_matches_the_published_values() {
    assert_eq!(fnv1a(""), 0x811c_9dc5);
    assert_eq!(fnv1a("a"), 0xe40c_292c);
    assert_eq!(fnv1a("foobar"), 0xbf9c_f968);
}

#[test]
fn ages_read_in_the_largest_whole_unit() {
    assert_eq!(relative_time(100, 100), "0s");
    assert_eq!(relative_time(100, 200), "0s");
    assert_eq!(relative_time(59, 0), "59s");
    assert_eq!(relative_time(3_599, 0), "59m");
    assert_eq!(relative_time(7_200, 0), "2h");
    assert_eq!(relative_time(86_400 * 3, 0), "3d");
    assert_eq!(relative_time(604_800 * 2, 0), "2w");
    assert_eq!(relative_time(2_629_800 * 5, 0), "5mo");
    assert_eq!(relative_time(31_557_600 * 2, 0), "2y");
}

#[test]
fn a_selection_is_scrolled_into_view() {
    assert_eq!(scroll_into_view(5, 2, 10, 100), 2);
    assert_eq!(scroll_into_view(0, 15, 10, 100), 6);
    assert_eq!(scroll_into_view(3, 5, 10, 100), 3);
    assert_eq!(scroll_into_view(50, 99, 10, 30), 20);
}

#[test]
fn file_counts_read_naturally() {
    assert_eq!(file_word(1), "1 file");
    assert_eq!(file_word(0), "0 files");
    assert_eq!(file_word(12), "12 files");
}

#[test]
fn the_short_id_is_seven_bytes() {
    assert_eq!(short_oid("0123456789"), "0123456");
    assert_eq!(short_oid("01"), "01");
}

fn entry(index: usize, branch: Option<&str>, message: StashMessage) -> StashEntry {
    StashEntry {
        index,
        oid: "f00".to_string(),
        branch: branch.map(str::to_string),
        time: 0,
        message,
    }
}

#[test]
fn a_stash_comes_from_its_branch_or_its_base() {
    let named = StashMessage::Named("msg".to_string());
    let auto = StashMessage::Auto {
        base_id: "abc1234".to_string(),
        base_summary: "summary".to_string(),
    };
    assert_eq!(stash_origin(&entry(0, Some("main"), named.clone())), "main");
    assert_eq!(stash_origin(&entry(0, None, auto)), "abc1234");
    assert_eq!(stash_origin(&entry(0, None, named)), "detached");
}

#[test]
fn the_card_window_centres_on_the_selection() {
    let entries: Vec<StashEntry> = (0..10)
        .map(|i| entry(i, None, StashMessage::Named(String::new())))
        .collect();
    let mut view = StashView::opening(entries);
    view.panel.selected = 5;
    assert_eq!(card_window(&view, 6), 4..7);
    view.panel.selected = 9;
    assert_eq!(card_window(&view, 6), 7..10);
    assert_eq!(card_window(&view, 0), 9..10);
}

#[test]
fn the_widest_line_counts_its_margin() {
    let diff = FileDiff {
        old_path: "a".to_string(),
        new_path: "a".to_string(),
        hunks: vec![
            Hunk {
                header: "@@".to_string(),
                lines: vec!["+abc".to_string(), " a".to_string()],
            },
            Hunk {
                header: "@@".to_string(),
                lines: vec!["-abcdef".to_string()],
            },
        ],
    };
    assert_eq!(max_content_width(&diff), 8);
}

#[test]
fn the_selection_stays_on_screen_from_any_offset() {
    for offset in [0u16, 3, 40, 90, 500] {
        for selected in [0usize, 9, 10, 55, 99] {
            let top = scroll_into_view(offset, selected, 10, 100) as usize;
            assert!(top <= selected && selected < top + 10);
        }
    }
}
