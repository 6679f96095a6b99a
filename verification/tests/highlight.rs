use ravix::enrich::{Highlighter, extension};

fn spans(hl: &Highlighter, path: &str, line: &str) -> Vec<((u8, u8, u8), String)> {
    let syntax = hl.language(path).expect("rust syntax available");
    hl.highlight(syntax, line)
        .into_iter()
        .map(|span| (span.color, span.text))
        .collect()
}

#[test]
fn highlighting_a_line_is_deterministic_across_calls() {
    let hl = Highlighter::new().expect("syntect ships default themes");
    let first = spans(&hl, "x.rs", "let value = compute();");
    let second = spans(&hl, "x.rs", "let value = compute();");
    assert_eq!(
        first, second,
        "a re-highlighted line matches the first result (cache must not corrupt output)"
    );
    assert!(
        first.len() > 1,
        "the line is tokenized into multiple coloured spans"
    );
}

#[test]
fn the_coloured_runs_spell_the_line() {
    let hl = Highlighter::new().expect("syntect ships default themes");
    let line = "fn main() { let x = \"a\"; }";
    let text: String = spans(&hl, "src/main.rs", line)
        .into_iter()
        .map(|(_, text)| text)
        .collect();
    assert_eq!(text, line);
}

#[test]
fn a_path_without_an_extension_has_no_language() {
    let hl = Highlighter::new().expect("syntect ships default themes");
    assert!(hl.language("Makefile.").is_none());
    assert!(hl.language(".gitignore").is_none());
}

#[test]
fn the_extension_follows_the_last_dot_of_the_file_name() {
    assert_eq!(extension("src/main.rs").as_deref(), Some("rs"));
    assert_eq!(extension("archive.tar.gz").as_deref(), Some("gz"));
    assert_eq!(extension("Makefile"), None);
    assert_eq!(extension(".gitignore"), None);
    assert_eq!(extension("trailing.").as_deref(), Some(""));
    assert_eq!(extension("x.rs/").as_deref(), Some("rs"));
    assert_eq!(extension("x.rs/.").as_deref(), Some("rs"));
    assert_eq!(extension("a/..").as_deref(), None);
    assert_eq!(extension("./").as_deref(), None);
    assert_eq!(extension("dir.d/README"), None);
}

#[test]
fn the_bundled_theme_is_always_there() {
    assert!(Highlighter::new().is_some());
}

#[test]
fn an_extension_is_recognised_whatever_its_ascii_case() {
    let hl = Highlighter::new().expect("syntect ships default themes");
    assert!(hl.language("src/MAIN.RS").is_some());
    assert!(hl.language("notes.nosuchextension").is_none());
}

#[test]
fn a_keyword_and_a_name_get_different_colours() {
    let hl = Highlighter::new().expect("syntect ships default themes");
    let runs = spans(&hl, "lib.rs", "fn main() {}");
    let colours: Vec<(u8, u8, u8)> = runs.iter().map(|(colour, _)| *colour).collect();
    assert!(colours.iter().any(|c| *c != colours[0]), "more than one colour: {colours:?}");
    assert!(colours.iter().any(|c| *c != ravix::enrich::PLAIN_GREY));
}
