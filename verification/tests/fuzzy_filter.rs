use ravix::palette::{fuzzy_filter, score_lowered};

const COMMANDS: &[&str] = &["Fetch", "Push", "Pull", "Stash changes", "Stash list"];

#[test]
fn an_empty_query_returns_every_command_in_order() {
    assert_eq!(fuzzy_filter("", COMMANDS), vec![0, 1, 2, 3, 4]);
}

#[test]
fn a_subsequence_query_filters_to_matches() {
    assert_eq!(fuzzy_filter("sl", COMMANDS), vec![4]);
}

#[test]
fn a_query_that_is_not_a_subsequence_matches_nothing() {
    assert_eq!(fuzzy_filter("zzz", COMMANDS), Vec::<usize>::new());
}

#[test]
fn a_contiguous_word_start_match_ranks_ahead_of_a_scattered_one() {
    assert_eq!(fuzzy_filter("pu", &["Popular ui", "Pull"]), vec![1, 0]);
}

#[test]
fn matching_ignores_case() {
    assert_eq!(fuzzy_filter("FETCH", COMMANDS), vec![0]);
}

#[test]
fn equal_scores_keep_label_order_and_every_match_appears_once() {
    let labels = ["Stash a", "Fetch", "Stash b", "stash c"];
    let chosen = fuzzy_filter("st", &labels);
    assert_eq!(chosen, vec![0, 2, 3]);
}

#[test]
fn a_word_start_scores_eleven_and_an_adjacent_match_six() {
    assert_eq!(score_lowered("sl", "stash list"), Some(22));
    assert_eq!(score_lowered("ab", "ab"), Some(17));
    assert_eq!(score_lowered("b", "ab"), Some(1));
    assert_eq!(score_lowered("", "anything"), Some(0));
}

#[test]
fn a_query_out_of_order_gets_no_score() {
    assert_eq!(score_lowered("ba", "ab"), None);
    assert_eq!(score_lowered("abc", "ab"), None);
}
