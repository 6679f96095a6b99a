use ravix::staging::{FileDiff, Hunk, SplitRow, build_patch, content_of, marker_of, split_rows};

fn lines(texts: &[&str]) -> Vec<String> {
    texts.iter().map(|text| text.to_string()).collect()
}

fn row(left: Option<&str>, right: Option<&str>) -> SplitRow {
    SplitRow {
        left: left.map(str::to_string),
        right: right.map(str::to_string),
    }
}

#[test]
fn a_line_splits_into_its_marker_and_content() {
    assert_eq!(marker_of("+added"), '+');
    assert_eq!(content_of("+added"), "added");
    assert_eq!(marker_of(""), ' ');
    assert_eq!(content_of(""), "");
    assert_eq!(content_of("-é"), "é");
}

#[test]
fn removals_pair_with_the_additions_that_follow_them() {
    let rows = split_rows(&lines(&[" keep", "-old one", "-old two", "+new one", " tail"]));
    assert_eq!(
        rows,
        vec![
            row(Some(" keep"), Some(" keep")),
            row(Some("-old one"), Some("+new one")),
            row(Some("-old two"), None),
            row(Some(" tail"), Some(" tail")),
        ]
    );
}

#[test]
fn an_addition_on_its_own_fills_only_the_right() {
    let rows = split_rows(&lines(&["+a", "+b", "-c", "+d", "+e"]));
    assert_eq!(
        rows,
        vec![
            row(None, Some("+a")),
            row(None, Some("+b")),
            row(Some("-c"), Some("+d")),
            row(None, Some("+e")),
        ]
    );
}

#[test]
fn each_column_keeps_its_side_in_order() {
    let hunk = lines(&[" a", "-b", "-c", "+d", " e", "+f", "-g", "\\ No newline at end of file"]);
    let rows = split_rows(&hunk);
    let left: Vec<String> = rows.iter().filter_map(|r| r.left.clone()).collect();
    let right: Vec<String> = rows.iter().filter_map(|r| r.right.clone()).collect();
    let old: Vec<String> = hunk.iter().filter(|l| marker_of(l) != '+').cloned().collect();
    let new: Vec<String> = hunk.iter().filter(|l| marker_of(l) != '-').cloned().collect();
    assert_eq!(left, old);
    assert_eq!(right, new);
}

#[test]
fn a_patch_holds_the_chosen_hunks_in_the_order_chosen() {
    let diff = FileDiff {
        old_path: "a.txt".to_string(),
        new_path: "a.txt".to_string(),
        hunks: vec![
            Hunk {
                header: "@@ -1 +1 @@".to_string(),
                lines: lines(&["-x", "+y"]),
            },
            Hunk {
                header: "@@ -5 +5 @@".to_string(),
                lines: lines(&[" z"]),
            },
        ],
    };
    assert_eq!(
        build_patch(&diff, &[1, 7, 0]),
        "diff --git a/a.txt b/a.txt\n--- a/a.txt\n+++ b/a.txt\n@@ -5 +5 @@\n z\n@@ -1 +1 @@\n-x\n+y\n"
    );
    assert_eq!(
        build_patch(&diff, &[]),
        "diff --git a/a.txt b/a.txt\n--- a/a.txt\n+++ b/a.txt\n"
    );
}

#[test]
fn split_rows_pair_removals_with_additions_and_never_leave_a_row_empty() {
    let lines: Vec<String> = ["-a", "-b", "+c", " d", "+e"].iter().map(|s| s.to_string()).collect();
    let rows = split_rows(&lines);
    let got: Vec<(Option<String>, Option<String>)> = rows.into_iter().map(|r| (r.left, r.right)).collect();
    let s = |x: &str| Some(x.to_string());
    assert_eq!(
        got,
        vec![(s("-a"), s("+c")), (s("-b"), None), (s(" d"), s(" d")), (None, s("+e"))]
    );
}
