//! Word-level emphasis inside changed lines, and syntax colours.
use vstd::prelude::*;

use syntect::easy::HighlightLines;
use syntect::highlighting::{Theme, ThemeSet};
use syntect::parsing::{SyntaxReference, SyntaxSet};

use crate::text::chars_of;
use crate::submodule::{dir_name, dir_name_spec};

verus! {

#[derive(Debug, Clone, Copy, PartialEq, Eq, Structural)]
pub enum WordKind {
    Equal,
    Removed,
    Added,
}

/// A run of text that the two lines share, or that only one of them has.
#[derive(Debug, Clone, PartialEq, Eq)]
pub struct WordSpan {
    pub kind: WordKind,
    pub text: String,
}

pub open spec fn change_views(cs: Seq<(WordKind, String)>) -> Seq<(WordKind, Seq<char>)> {
    cs.map_values(|c: (WordKind, String)| (c.0, c.1@))
}

pub open spec fn span_views(ss: Seq<WordSpan>) -> Seq<(WordKind, Seq<char>)> {
    ss.map_values(|s: WordSpan| (s.kind, s.text@))
}

/// The word-level changes that `similar` finds between two lines, in order:
/// each piece of text with whether both lines have it or only one does.
pub uninterp spec fn word_changes(old: Seq<char>, new: Seq<char>) -> Seq<(WordKind, Seq<char>)>;

/// `similar::TextDiff::from_words(old, new).iter_all_changes()`, each change
/// as its tag and its text. Nothing is claimed of which changes `similar`
/// finds; they are named by `word_changes`.
#[verifier::external_body]
fn diff_words(old: &str, new: &str) -> (r: Vec<(WordKind, String)>)
    ensures
        change_views(r@) == word_changes(old@, new@),
{
    let diff = similar::TextDiff::from_words(old, new);
    let mut out = Vec::new();
    for change in diff.iter_all_changes() {
        let kind = match change.tag() {
            similar::ChangeTag::Equal => WordKind::Equal,
            similar::ChangeTag::Delete => WordKind::Removed,
            similar::ChangeTag::Insert => WordKind::Added,
        };
        out.push((kind, change.value().to_string()));
    }
    out
}

/// Changes with neighbours of the same kind run together into one span.
pub open spec fn coalesced(cs: Seq<(WordKind, Seq<char>)>) -> Seq<(WordKind, Seq<char>)>
    decreases cs.len(),
{
    if cs.len() == 0 {
        seq![]
    } else {
        let prev = coalesced(cs.drop_last());
        let c = cs.last();
        if prev.len() > 0 && prev.last().0 == c.0 {
            prev.update(prev.len() - 1, (c.0, prev.last().1 + c.1))
        } else {
            prev.push(c)
        }
    }
}

/// Runs changes of the same kind together.
pub fn coalesce(changes: Vec<(WordKind, String)>) -> (r: Vec<WordSpan>)
    ensures
        span_views(r@) == coalesced(change_views(changes@)),
{
    let ghost cs = change_views(changes@);
    let mut spans: Vec<WordSpan> = Vec::new();
    let mut k: usize = 0;
    assert(cs.take(0) =~= Seq::<(WordKind, Seq<char>)>::empty());
    while k < changes.len()
        invariant
            k <= changes@.len(),
            cs == change_views(changes@),
            span_views(spans@) == coalesced(cs.take(k as int)),
        decreases changes@.len() - k,
    {
        let kind = changes[k].0;
        let text = &changes[k].1;
        let ghost prev = span_views(spans@);
        proof {
            assert(cs.take(k + 1).drop_last() =~= cs.take(k as int));
            assert(cs.take(k + 1).last() == (kind, text@));
        }
        let n = spans.len();
        if n > 0 && spans[n - 1].kind == kind {
            let mut last = spans.pop().unwrap();
            assert(span_views(spans@) =~= prev.drop_last());
            crate::text::push_str(&mut last.text, text.as_str());
            spans.push(last);
            assert(span_views(spans@) =~= prev.update(prev.len() - 1, (kind, prev.last().1 + text@)));
        } else {
            spans.push(WordSpan { kind, text: text.clone() });
            assert(span_views(spans@) =~= prev.push((kind, text@)));
        }
        k = k + 1;
    }
    assert(cs.take(k as int) =~= cs);
    spans
}

/// The words of two versions of a line, marked as shared, removed or
/// added, with neighbouring words of the same mark run together.
pub fn word_diff(old: &str, new: &str) -> (r: Vec<WordSpan>)
    ensures
        span_views(r@) == coalesced(word_changes(old@, new@)),
{
    coalesce(diff_words(old, new))
}

/// One flag per character of one side of a line: the shared spans and the
/// spans marked `mark` appear, and their characters are flagged when marked.
pub open spec fn emphasis_spec(ss: Seq<(WordKind, Seq<char>)>, mark: WordKind) -> Seq<bool>
    decreases ss.len(),
{
    if ss.len() == 0 {
        seq![]
    } else {
        let s = ss.last();
        emphasis_spec(ss.drop_last(), mark) + if s.0 == WordKind::Equal || s.0 == mark {
            Seq::new(s.1.len(), |i: int| s.0 == mark)
        } else {
            Seq::<bool>::empty()
        }
    }
}

pub fn emphasis(spans: &[WordSpan], mark: WordKind) -> (r: Vec<bool>)
    ensures
        r@ == emphasis_spec(span_views(spans@), mark),
{
    let ghost ss = span_views(spans@);
    let mut flags: Vec<bool> = Vec::new();
    let mut k: usize = 0;
    assert(ss.take(0) =~= Seq::<(WordKind, Seq<char>)>::empty());
    while k < spans.len()
        invariant
            k <= spans@.len(),
            ss == span_views(spans@),
            flags@ == emphasis_spec(ss.take(k as int), mark),
        decreases spans@.len() - k,
    {
        let span = &spans[k];
        proof {
            assert(ss.take(k + 1).drop_last() =~= ss.take(k as int));
            assert(ss.take(k + 1).last() == (span.kind, span.text@));
        }
        let ghost before = flags@;
        if span.kind == WordKind::Equal || span.kind == mark {
            let emphasized = span.kind == mark;
            let count = chars_of(span.text.as_str()).len();
            let mut j: usize = 0;
            while j < count
                invariant
                    j <= count,
                    flags@ == before + Seq::new(j as nat, |i: int| emphasized),
                decreases count - j,
            {
                flags.push(emphasized);
                j = j + 1;
                assert(flags@ =~= before + Seq::new(j as nat, |i: int| emphasized));
            }
            assert(Seq::new(count as nat, |i: int| emphasized) =~= Seq::new(
                span.text@.len(),
                |i: int| span.kind == mark,
            ));
        } else {
            assert(flags@ =~= before + Seq::<bool>::empty());
        }
        k = k + 1;
    }
    assert(ss.take(k as int) =~= ss);
    flags
}

/// Which characters of the old line are emphasised: those removed.
pub fn emphasis_removed(spans: &[WordSpan]) -> (r: Vec<bool>)
    ensures
        r@ == emphasis_spec(span_views(spans@), WordKind::Removed),
{
    emphasis(spans, WordKind::Removed)
}

/// Which characters of the new line are emphasised: those added.
pub fn emphasis_added(spans: &[WordSpan]) -> (r: Vec<bool>)
    ensures
        r@ == emphasis_spec(span_views(spans@), WordKind::Added),
{
    emphasis(spans, WordKind::Added)
}

// ---------------------------------------------------------------------------
// Syntax colours
// ---------------------------------------------------------------------------

#[verifier::external_type_specification]
#[verifier::external_body]
pub struct ExSyntaxSet(SyntaxSet);

#[verifier::external_type_specification]
#[verifier::external_body]
pub struct ExSyntaxReference(SyntaxReference);

#[verifier::external_type_specification]
#[verifier::external_body]
pub struct ExTheme(Theme);

#[verifier::external_type_specification]
#[verifier::external_body]
pub struct ExThemeSet(ThemeSet);

/// A run of text in one colour.
#[derive(Debug)]
pub struct HlSpan {
    pub color: (u8, u8, u8),
    pub text: String,
}

/// The text of some runs, run after run.
pub open spec fn spelled(spans: Seq<HlSpan>) -> Seq<char>
    decreases spans.len(),
{
    if spans.len() == 0 {
        Seq::empty()
    } else {
        spelled(spans.drop_last()) + spans.last().text@
    }
}

/// The grey of text that could not be coloured.
pub const PLAIN_GREY: (u8, u8, u8) = (200, 200, 200);

/// The theme the client colours with.
pub const THEME_NAME: &'static str = "base16-ocean.dark";

/// `SyntaxSet::load_defaults_nonewlines`: syntect's bundled syntaxes.
#[verifier::external_body]
fn default_syntaxes() -> (r: SyntaxSet) {
    SyntaxSet::load_defaults_nonewlines()
}

/// The names of the themes a theme set holds (the keys of its `themes` map).
pub uninterp spec fn theme_names(themes: ThemeSet) -> Set<Seq<char>>;

/// The file extensions that the syntaxes of a syntax set claim.
pub uninterp spec fn syntax_extensions(syntaxes: SyntaxSet) -> Set<Seq<char>>;

/// A character with an ASCII capital letter made small.
pub open spec fn ascii_lower(c: char) -> char {
    if 'A' <= c && c <= 'Z' {
        ((c as u32) + 32) as char
    } else {
        c
    }
}

/// Two texts that differ at most in the case of ASCII letters
/// (`str::eq_ignore_ascii_case`).
pub open spec fn same_ignoring_ascii_case(a: Seq<char>, b: Seq<char>) -> bool {
    a.len() == b.len() && forall|i: int| 0 <= i < a.len() ==> ascii_lower(#[trigger] a[i]) == ascii_lower(b[i])
}

/// Whether some of the extensions matches `extension`, ignoring the case
/// of ASCII letters.
pub open spec fn matches_one_of(extensions: Set<Seq<char>>, extension: Seq<char>) -> bool {
    exists|e: Seq<char>| #[trigger] extensions.contains(e) && same_ignoring_ascii_case(e, extension)
}

/// Whether some syntax of a set claims an extension, as syntect matches it:
/// ignoring the case of ASCII letters.
pub open spec fn claims_extension(syntaxes: SyntaxSet, extension: Seq<char>) -> bool {
    matches_one_of(syntax_extensions(syntaxes), extension)
}

/// `ThemeSet::load_defaults`: syntect's bundled themes. syntect documents
/// the names they are stored under, among them `base16-ocean.dark`, which
/// is all that is stated here.
#[verifier::external_body]
fn default_themes() -> (r: ThemeSet)
    ensures
        theme_names(r).contains(THEME_NAME@),
{
    ThemeSet::load_defaults()
}

/// `BTreeMap::remove` on a theme set's themes: takes out the theme of that name.
#[verifier::external_body]
fn take_theme(themes: &mut ThemeSet, name: &str) -> (r: Option<Theme>)
    ensures
        r is Some <==> theme_names(*old(themes)).contains(name@),
        theme_names(*final(themes)) == theme_names(*old(themes)).remove(name@),
{
    themes.themes.remove(name)
}

/// The first theme of a theme set, if it has any (`values().next().cloned()`).
#[verifier::external_body]
fn any_theme(themes: &ThemeSet) -> (r: Option<Theme>)
    ensures
        r is Some <==> exists|n: Seq<char>| #[trigger] theme_names(*themes).contains(n),
{
    themes.themes.values().next().cloned()
}

/// The syntax `SyntaxSet::find_syntax_by_extension` finds in a set for an
/// extension, if any.
pub uninterp spec fn syntax_by_extension(syntaxes: SyntaxSet, extension: Seq<char>) -> Option<SyntaxReference>;

/// `SyntaxSet::find_syntax_by_extension`: the syntax for files with that
/// extension, the one `syntax_by_extension` names. Its source finds one
/// exactly when some syntax of the set claims the extension, ignoring the
/// case of ASCII letters.
#[verifier::external_body]
fn syntax_for_extension(syntaxes: &SyntaxSet, extension: String) -> (r: Option<&SyntaxReference>)
    ensures
        r is Some <==> matches_one_of(syntax_extensions(*syntaxes), extension@),
        match r {
            Some(found) => syntax_by_extension(*syntaxes, extension@) == Some(*found),
            None => syntax_by_extension(*syntaxes, extension@) is None,
        },
{
    syntaxes.find_syntax_by_extension(&extension)
}

/// What `HighlightLines::highlight_line` gives for a line when it starts
/// from a fresh state with this syntax and theme: each piece as its
/// foreground colour and its text, or nothing where syntect reports an
/// error.
pub uninterp spec fn highlighted(
    syntax: SyntaxReference,
    theme: Theme,
    syntaxes: SyntaxSet,
    line: Seq<char>,
) -> Option<Seq<((u8, u8, u8), Seq<char>)>>;

/// Runs seen as (colour, text) pairs.
pub open spec fn hl_views(spans: Seq<HlSpan>) -> Seq<((u8, u8, u8), Seq<char>)> {
    spans.map_values(|s: HlSpan| (s.color, s.text@))
}

/// `HighlightLines::highlight_line` from a fresh state, each piece as its
/// foreground colour and text; `None` where syntect reports an error.
/// The pieces are what `highlighted` names for these arguments, and, as
/// syntect documents, they concatenate to the line.
#[verifier::external_body]
fn highlight_pieces(syntax: &SyntaxReference, theme: &Theme, syntaxes: &SyntaxSet, line: &str) -> (r: Option<
    Vec<HlSpan>,
>)
    ensures
        match r {
            Some(spans) => highlighted(*syntax, *theme, *syntaxes, line@) == Some(hl_views(spans@))
                && spelled(spans@) == line@,
            None => highlighted(*syntax, *theme, *syntaxes, line@) is None,
        },
{
    let mut lines = HighlightLines::new(syntax, theme);
    match lines.highlight_line(line, syntaxes) {
        Ok(ranges) => Some(
            ranges.into_iter().map(
                |(style, text)| HlSpan { color: (style.foreground.r, style.foreground.g, style.foreground.b), text: text.to_string() },
            ).collect(),
        ),
        Err(_) => None,
    }
}

/// The extension of a file path (`Path::extension`): what follows the last
/// dot of its file name, when that dot is not the name's first character.
/// The file name is the last component, passing over empty and `.` parts;
/// a path that ends in `..` or has no component has none.
pub open spec fn extension_spec(path: Seq<char>) -> Option<Seq<char>> {
    let name = dir_name_spec(path);
    let dot = crate::text::find_last(name, '.');
    if 0 < dot {
        Some(name.skip(dot + 1))
    } else {
        None
    }
}

/// The extension of a file path.
pub fn extension(path: &str) -> (r: Option<String>)
    ensures
        match r {
            Some(e) => extension_spec(path@) == Some(e@),
            None => extension_spec(path@) is None,
        },
{
    let name = dir_name(path);
    let name_cs = chars_of(name.as_str());
    let m = name_cs.len();
    match crate::text::last_index_of(&name_cs, '.') {
        Some(dot) => {
            if 0 < dot {
                let e = crate::text::string_of(&name_cs, dot + 1, m);
                assert(name_cs@.subrange(dot + 1, m as int) =~= name@.skip(dot + 1));
                Some(e)
            } else {
                None
            }
        },
        None => None,
    }
}

/// Colours source code by the syntax and theme that syntect ships.
pub struct Highlighter {
    syntaxes: SyntaxSet,
    theme: Theme,
}

impl Highlighter {
    /// Whether the highlighter knows a syntax for files with this extension.
    pub closed spec fn recognises(&self, extension: Seq<char>) -> bool {
        claims_extension(self.syntaxes, extension)
    }

    /// The bundled syntaxes with the client's theme, or any bundled theme
    /// when that one is missing; nothing when there is no theme at all,
    /// which never happens since syntect ships the client's theme.
    pub fn new() -> (r: Option<Highlighter>)
        ensures
            r is Some,
    {
        let syntaxes = default_syntaxes();
        let mut themes = default_themes();
        let theme = match take_theme(&mut themes, THEME_NAME) {
            Some(theme) => Some(theme),
            None => any_theme(&themes),
        };
        match theme {
            Some(theme) => Some(Highlighter { syntaxes, theme }),
            None => None,
        }
    }

    /// The syntax this highlighter picks for files with an extension.
    pub closed spec fn syntax_for(&self, extension: Seq<char>) -> Option<SyntaxReference> {
        syntax_by_extension(self.syntaxes, extension)
    }

    /// The syntax of a file, found by its extension.
    pub fn language(&self, path: &str) -> (r: Option<&SyntaxReference>)
        ensures
            r is Some <==> match extension_spec(path@) {
                Some(e) => self.recognises(e),
                None => false,
            },
            match extension_spec(path@) {
                Some(e) => match r {
                    Some(found) => self.syntax_for(e) == Some(*found),
                    None => self.syntax_for(e) is None,
                },
                None => r is None,
            },
    {
        match extension(path) {
            Some(e) => syntax_for_extension(&self.syntaxes, e),
            None => None,
        }
    }

    /// What syntect makes of a line with this highlighter's theme and
    /// syntaxes: (colour, text) pieces, or nothing where it fails.
    pub closed spec fn colours(&self, syntax: SyntaxReference, line: Seq<char>) -> Option<
        Seq<((u8, u8, u8), Seq<char>)>,
    > {
        highlighted(syntax, self.theme, self.syntaxes, line)
    }

    /// A line in colours: the runs syntect gives it, each in its colour;
    /// the whole line as one grey run where syntect fails. Either way the
    /// runs spell the line.
    pub fn highlight(&self, syntax: &SyntaxReference, line: &str) -> (r: Vec<HlSpan>)
        ensures
            match self.colours(*syntax, line@) {
                Some(pieces) => hl_views(r@) == pieces,
                None => r@.len() == 1 && r@[0].color == PLAIN_GREY && r@[0].text@ == line@,
            },
            spelled(r@) == line@,
    {
        match highlight_pieces(syntax, &self.theme, &self.syntaxes, line) {
            Some(spans) => spans,
            None => {
                let text = line.to_owned();
                assert(text@ == line@);
                let r = vec![HlSpan { color: PLAIN_GREY, text }];
                assert(r@.drop_last() =~= Seq::<HlSpan>::empty());
                assert(r@.last().text@ == line@);
                assert(spelled(r@.drop_last()) == Seq::<char>::empty());
                assert(Seq::<char>::empty() + line@ =~= line@);
                r
            },
        }
    }
}

} // verus!
