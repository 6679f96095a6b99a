use ravix::git::{BadgeKind, RefBadge};
use ravix::graph::GraphRow;
use ravix::ui::graph_view::{
    DETACHED_ICON, GRAPH_MAX, LOCAL_ICON, MergedRef, RAIL_MAX, RAIL_MIN, REMOTE_ICON,
    badge_is_visible, clip, clip_pad, display_width, fitted_pill, graph_width, header,
    merged_refs, message_width, pill_text, rail_cell, rail_width,
};
use ravix::visibility::Visibility;

fn badge(label: &str, kind: BadgeKind) -> RefBadge {
    RefBadge {
        label: label.to_string(),
        kind,
    }
}

#[test]
fn a_local_branch_and_its_upstream_merge_into_one_ref() {
    let refs = merged_refs(&[
        badge("main", BadgeKind::CurrentBranch),
        badge("origin/main", BadgeKind::Upstream),
    ]);
    assert_eq!(refs.len(), 1);
    assert!(refs[0].local && refs[0].remote);
    assert_eq!(refs[0].label, "main");
}

#[test]
fn an_unmatched_upstream_stays_as_a_remote_only_ref() {
    let refs = merged_refs(&[
        badge("main", BadgeKind::LocalBranch),
        badge("origin/feature", BadgeKind::Upstream),
    ]);
    assert_eq!(refs.len(), 2);
    assert!(refs[0].local && !refs[0].remote);
    assert!(!refs[1].local && refs[1].remote);
    assert_eq!(refs[1].label, "origin/feature");
}

#[test]
fn the_current_branch_pill_is_checked_and_shows_both_icons() {
    let refs = merged_refs(&[
        badge("main", BadgeKind::CurrentBranch),
        badge("origin/main", BadgeKind::Upstream),
    ]);
    let text = pill_text(&refs[0]);
    assert!(text.contains('✓'));
    assert!(text.contains(LOCAL_ICON));
    assert!(text.contains(REMOTE_ICON));
}

#[test]
fn a_remote_only_ref_shows_just_the_cloud() {
    let refs = merged_refs(&[badge("origin/feature", BadgeKind::Upstream)]);
    let text = pill_text(&refs[0]);
    assert!(!text.contains(LOCAL_ICON));
    assert!(text.contains(REMOTE_ICON));
}

#[test]
fn hidden_branch_badges_are_filtered_along_with_their_upstreams() {
    let mut visibility = Visibility::default();
    visibility.toggle("stale");

    let hidden_local = badge("stale", BadgeKind::LocalBranch);
    let hidden_upstream = badge("origin/stale", BadgeKind::Upstream);
    let current = badge("main", BadgeKind::CurrentBranch);
    let current_upstream = badge("origin/main", BadgeKind::Upstream);

    assert!(!badge_is_visible(&hidden_local, &visibility, Some("main")));
    assert!(!badge_is_visible(
        &hidden_upstream,
        &visibility,
        Some("main")
    ));
    assert!(badge_is_visible(&current, &visibility, Some("main")));
    assert!(badge_is_visible(
        &current_upstream,
        &visibility,
        Some("main")
    ));
}

#[test]
fn a_detached_head_badge_becomes_the_first_pill_with_the_target_icon() {
    let refs = merged_refs(&[
        badge("HEAD", BadgeKind::Head),
        badge("release/32", BadgeKind::LocalBranch),
    ]);
    assert_eq!(refs.len(), 2);
    assert_eq!(refs[0].label, "HEAD");
    let text = pill_text(&refs[0]);
    assert!(text.contains('✓'), "the pill marks where you stand: {text}");
    assert!(
        text.contains(DETACHED_ICON),
        "the pill carries the target icon: {text}"
    );
    assert!(!text.contains(LOCAL_ICON) && !text.contains(REMOTE_ICON));
}

#[test]
fn a_long_branch_name_is_clipped_before_the_icons() {
    let refs = merged_refs(&[
        badge("bugfix/MB2C-5916-google-types", BadgeKind::LocalBranch),
        badge("origin/bugfix/MB2C-5916-google-types", BadgeKind::Upstream),
    ]);
    let pill = fitted_pill(&refs[0], 20);
    assert_eq!(display_width(&pill), 20);
    assert!(pill.contains('…'), "the name carries the ellipsis: {pill}");
    assert!(
        pill.ends_with(&format!("{LOCAL_ICON} {REMOTE_ICON} ")),
        "the icons survive the clipping: {pill}"
    );
}

#[test]
fn a_short_branch_name_keeps_its_natural_pill() {
    let refs = merged_refs(&[badge("main", BadgeKind::LocalBranch)]);
    let pill = fitted_pill(&refs[0], 20);
    assert_eq!(pill, format!(" main {LOCAL_ICON} "));
}

#[test]
fn clip_pad_respects_wide_characters() {
    let padded = clip_pad("日本語", 8);
    assert_eq!(display_width(&padded), 8);
    let clipped = clip_pad("日本語のメッセージ", 8);
    assert_eq!(display_width(&clipped), 8);
    assert!(clipped.contains('…'));
}

#[test]
fn each_upstream_pairs_with_at_most_one_local_branch() {
    let refs = merged_refs(&[
        badge("main", BadgeKind::LocalBranch),
        badge("other", BadgeKind::LocalBranch),
        badge("origin/main", BadgeKind::Upstream),
        badge("fork/main", BadgeKind::Upstream),
    ]);
    let labels: Vec<(&str, bool, bool)> = refs
        .iter()
        .map(|r| (r.label.as_str(), r.local, r.remote))
        .collect();
    assert_eq!(
        labels,
        [("main", true, true), ("other", true, false), ("fork/main", false, true)]
    );
}

#[test]
fn clip_leaves_a_fitting_text_alone_and_marks_a_cut() {
    assert_eq!(clip("main", 4), "main");
    assert_eq!(clip("feature", 4), "fea…");
    assert_eq!(clip("x", 0), "…");
}

#[test]
fn display_width_counts_wide_and_control_characters() {
    assert_eq!(display_width("abc"), 3);
    assert_eq!(display_width("日本"), 4);
    assert_eq!(display_width("a\u{7}b"), 2);
}

#[test]
fn the_header_lines_up_its_titles() {
    let text = header(8, 2, 9);
    assert_eq!(
        text,
" BRANCH          MESSAGE    AUTHOR            AGE  SHA     "
    );
}

fn local(label: &str) -> MergedRef {
    MergedRef {
        label: label.to_string(),
        kind: BadgeKind::LocalBranch,
        local: true,
        remote: false,
    }
}

#[test]
fn the_rail_is_as_wide_as_the_widest_first_pill() {
    let refs = vec![vec![local("main")], vec![], vec![local("feature-x")]];
    let widest = display_width(&pill_text(&local("feature-x")));
    assert_eq!(rail_width(&refs), widest);
}

#[test]
fn the_rail_widens_when_more_commits_reveal_a_wide_pill() {
    let page = vec![vec![local("main")]];
    let mut more = page.clone();
    more.push(vec![local("a-rather-long-feature")]);
    assert!(rail_width(&more) > rail_width(&page));
    assert_eq!(rail_width(&more), display_width(&pill_text(&local("a-rather-long-feature"))));
}

#[test]
fn the_rail_shrinks_when_the_widest_branch_is_hidden() {
    let shown = vec![vec![local("a-rather-long-feature")], vec![local("main")]];
    let hidden = vec![vec![], vec![local("main")]];
    assert!(rail_width(&hidden) < rail_width(&shown));
    assert_eq!(rail_width(&hidden), display_width(&pill_text(&local("main"))));
}

#[test]
fn the_rail_keeps_its_bounds() {
    assert_eq!(rail_width(&vec![vec![], vec![]]), RAIL_MIN);
    assert_eq!(rail_width(&vec![vec![local("x")]]), RAIL_MIN);
    let long = "b".repeat(80);
    assert_eq!(rail_width(&vec![vec![local(&long)]]), RAIL_MAX);
}

#[test]
fn more_refs_add_room_for_their_count() {
    let one = vec![vec![local("main")]];
    let two = vec![vec![local("main"), local("dev")]];
    assert_eq!(rail_width(&two), rail_width(&one) + 3);
}

#[test]
fn a_rail_cell_shows_the_first_pill_and_counts_the_rest() {
    let refs = vec![local("main"), local("dev"), local("topic")];
    let (pad, pill, extra) = rail_cell(&refs, 20);
    assert_eq!(extra, "+2");
    assert_eq!(pill, pill_text(&refs[0]));
    assert_eq!(pad + display_width(&pill) + display_width(&extra), 20);
}

#[test]
fn a_rail_cell_without_refs_is_blank() {
    let (pad, pill, extra) = rail_cell(&vec![], 12);
    assert_eq!((pad, pill.as_str(), extra.as_str()), (12, "", ""));
}

#[test]
fn a_narrow_rail_cell_clips_the_pill_label() {
    let refs = vec![local("a-rather-long-feature"), local("dev")];
    let (pad, pill, extra) = rail_cell(&refs, 12);
    assert_eq!(extra, "+1");
    assert!(pill.contains('…'));
    assert!(display_width(&pill) + display_width(&extra) + pad <= 12);
}

fn row(glyphs: &str) -> GraphRow<String> {
    GraphRow {
        node_column: 0,
        glyphs: glyphs.to_string(),
        node_key: String::new(),
        lane_keys: Vec::new(),
    }
}

#[test]
fn the_graph_column_fits_its_widest_row_within_bounds() {
    assert_eq!(graph_width(&[]), 2);
    assert_eq!(graph_width(&[row("●"), row("│ ● ╮")]), 5);
    assert_eq!(graph_width(&[row(&"│ ".repeat(20))]), GRAPH_MAX);
}

#[test]
fn the_message_column_takes_what_is_left_but_at_least_ten() {
    assert_eq!(message_width(200, 10, 4), 146);
    assert_eq!(message_width(20, 10, 4), 10);
}
