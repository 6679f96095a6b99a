use ravix::enrich::{WordKind, WordSpan, emphasis_added, emphasis_removed, word_diff};
use ravix::ui::intraline_emphasis;

fn equal(text: &str) -> WordSpan {
    WordSpan {
        kind: WordKind::Equal,
        text: text.to_string(),
    }
}

fn removed(text: &str) -> WordSpan {
    WordSpan {
        kind: WordKind::Removed,
        text: text.to_string(),
    }
}

fn added(text: &str) -> WordSpan {
    WordSpan {
        kind: WordKind::Added,
        text: text.to_string(),
    }
}

#[test]
fn a_single_word_substitution_marks_only_that_word() {
    let spans = word_diff("let x = 1;", "let y = 1;");

    assert_eq!(
        spans,
        vec![equal("let "), removed("x"), added("y"), equal(" = 1;")]
    );
}

#[test]
fn identical_lines_are_all_equal() {
    let spans = word_diff("same line", "same line");

    assert_eq!(spans, vec![equal("same line")]);
}

#[test]
fn an_appended_phrase_is_marked_added() {
    let spans = word_diff("foo", "foo bar");

    assert_eq!(spans, vec![equal("foo"), added(" bar")]);
}

#[test]
fn emphasis_flags_each_character_of_its_side() {
    let spans = vec![equal("ab"), removed("c"), added("de")];
    assert_eq!(emphasis_removed(&spans), vec![false, false, true]);
    assert_eq!(emphasis_added(&spans), vec![false, false, true, true]);
}

#[test]
fn removed_and_added_runs_pair_up_line_by_line() {
    let lines: Vec<String> = [" ctx", "-let x = 1;", "-gone", "+let y = 1;", " tail", "+alone"]
        .iter()
        .map(|l| l.to_string())
        .collect();
    let emphasis = intraline_emphasis(&lines);
    assert_eq!(emphasis.len(), lines.len());
    assert!(emphasis[0].is_empty());
    assert_eq!(
        emphasis[1],
        vec![false, false, false, false, true, false, false, false, false, false]
    );
    assert!(emphasis[2].is_empty(), "a removed line without a partner");
    assert_eq!(
        emphasis[3],
        vec![false, false, false, false, true, false, false, false, false, false]
    );
    assert!(emphasis[4].is_empty());
    assert!(emphasis[5].is_empty(), "an added line after context has no partner");
}
