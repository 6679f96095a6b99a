use ravix::ui::wrap::{PLAIN, StyledSpan, slice_spans, wrap_content_rows, wrap_diff_body};

const RED: u32 = 1;
const GREEN: u32 = 2;

fn raw(text: &str) -> StyledSpan {
    StyledSpan {
        content: text.to_string(),
        style: PLAIN,
    }
}

fn styled(text: &str, style: u32) -> StyledSpan {
    StyledSpan {
        content: text.to_string(),
        style,
    }
}

fn row_text(spans: &[StyledSpan]) -> String {
    spans.iter().map(|span| span.content.as_str()).collect()
}

fn text_of(rows: &[Vec<StyledSpan>]) -> Vec<String> {
    rows.iter().map(|row| row_text(row)).collect()
}

#[test]
fn short_content_is_a_single_row() {
    let spans = vec![raw("hello world")];
    let rows = wrap_content_rows(&spans, 40);
    assert_eq!(text_of(&rows), vec!["hello world".to_string()]);
}

#[test]
fn long_content_wraps_at_word_boundaries() {
    let spans = vec![raw("the quick brown fox jumps")];
    let rows = wrap_content_rows(&spans, 10);
    assert_eq!(
        text_of(&rows),
        vec![
            "the quick".to_string(),
            "brown fox".to_string(),
            "jumps".to_string(),
        ],
        "wrapping breaks on spaces and drops the breaking space"
    );
}

#[test]
fn a_word_longer_than_the_width_is_hard_broken() {
    let spans = vec![raw("supercalifragilistic")];
    let rows = wrap_content_rows(&spans, 8);
    assert_eq!(
        text_of(&rows),
        vec![
            "supercal".to_string(),
            "ifragili".to_string(),
            "stic".to_string(),
        ]
    );
}

#[test]
fn wrapping_preserves_all_visible_characters_without_the_break_spaces() {
    let spans = vec![raw("alpha beta gamma delta")];
    let rows = wrap_content_rows(&spans, 7);
    let joined: String = text_of(&rows).join(" ");
    assert_eq!(joined, "alpha beta gamma delta");
}

#[test]
fn span_styles_survive_wrapping() {
    let spans = vec![styled("aaaa ", RED), raw("bbbb cccc")];
    let rows = wrap_content_rows(&spans, 5);
    assert_eq!(rows[0][0].style, RED, "the first row keeps its color");
}

#[test]
fn wrapped_body_uses_the_marker_gutter_only_on_the_first_row() {
    let gutter = styled("+ ", GREEN);
    let content = vec![raw("one two three four five")];
    let lines = wrap_diff_body(gutter, content, 9);
    assert!(lines.len() > 1, "a long body wraps into several rows");
    assert_eq!(lines[0][0].content.as_str(), "+ ");
    for line in &lines[1..] {
        assert_eq!(
            line[0].content.as_str(),
            "  ",
            "continuation rows use a blank hanging-indent gutter"
        );
    }
}

#[test]
fn empty_content_still_yields_one_row() {
    let rows = wrap_content_rows(&[], 10);
    assert_eq!(rows.len(), 1);
    assert!(rows[0].is_empty());
}

#[test]
fn a_width_of_zero_wraps_one_character_per_row() {
    let rows = wrap_content_rows(&vec![raw("abc")], 0);
    assert_eq!(text_of(&rows), vec!["a", "b", "c"]);
}

#[test]
fn a_row_regroups_neighbouring_cells_of_one_style() {
    let spans = vec![styled("ab", RED), styled("cd", RED), raw("ef")];
    let rows = wrap_content_rows(&spans, 10);
    assert_eq!(rows.len(), 1);
    assert_eq!(rows[0], vec![styled("abcd", RED), raw("ef")]);
}

#[test]
fn a_style_change_inside_a_row_starts_a_new_span_after_a_break() {
    let spans = vec![styled("red ", RED), styled("green", GREEN)];
    let rows = wrap_content_rows(&spans, 4);
    assert_eq!(
        rows,
        vec![vec![styled("red", RED)], vec![styled("gree", GREEN)], vec![styled("n", GREEN)]]
    );
}

#[test]
fn a_trailing_space_is_dropped_at_the_last_break() {
    let rows = wrap_content_rows(&vec![raw("abcd ")], 4);
    assert_eq!(text_of(&rows), vec!["abcd"]);
}

#[test]
fn slicing_skips_the_offset_and_keeps_each_span_style() {
    let spans = vec![styled("abc", RED), raw("defg"), styled("hi", GREEN)];
    let (out, width) = slice_spans(spans, 2, 4);
    assert_eq!(out, vec![styled("c", RED), raw("def")]);
    assert_eq!(width, 4);
}

#[test]
fn slicing_past_the_end_leaves_nothing() {
    let (out, width) = slice_spans(vec![raw("abc")], 5, 10);
    assert!(out.is_empty());
    assert_eq!(width, 0);
}

#[test]
fn slicing_to_no_width_leaves_nothing() {
    let (out, width) = slice_spans(vec![raw("abc")], 0, 0);
    assert!(out.is_empty());
    assert_eq!(width, 0);
}

#[test]
fn a_narrow_window_shows_the_gutter_and_one_body_column() {
    let lines = wrap_diff_body(styled("- ", RED), vec![raw("xy")], 1);
    assert_eq!(lines.len(), 2);
    assert_eq!(lines[0], vec![styled("- ", RED), raw("x")]);
    assert_eq!(lines[1], vec![raw("  "), raw("y")]);
}
