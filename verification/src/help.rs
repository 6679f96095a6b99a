//! The key help page for each input context.
use vstd::prelude::*;

use crate::app::InputContext;

verus! {

/// A help page: its title and the keys it lists with what they do.
pub struct HelpPage {
    pub title: &'static str,
    pub bindings: Vec<(&'static str, &'static str)>,
}

pub open spec fn pair_views(v: Seq<(&'static str, &'static str)>) -> Seq<(Seq<char>, Seq<char>)> {
    v.map_values(|p: (&'static str, &'static str)| (p.0@, p.1@))
}

pub open spec fn graph_keys() -> Seq<(Seq<char>, Seq<char>)> {
    seq![
        ("j / k"@, "select next / previous commit"@),
        ("gg / G"@, "jump to first / last"@),
        ("Enter"@, "open commit detail panel"@),
        ("Space"@, "checkout commit (detached HEAD if no branch)"@),
        ("M"@, "join: merge / cherry-pick / rebase"@),
        ("f / p / P"@, "fetch / pull / push"@),
        ("s / S"@, "stash changes / stash list"@),
        ("b"@, "branches panel"@),
        ("F"@, "focus sets"@),
        ("> / <"@, "submodules: enter / exit"@),
        ("n"@, "new branch"@),
        ("u"@, "undo last action"@),
        ("Esc"@, "collapse the panel · back to the parent repo"@),
        ("Ctrl+P"@, "command palette"@),
    ]
}

pub open spec fn branch_keys() -> Seq<(Seq<char>, Seq<char>)> {
    seq![
        ("Enter"@, "checkout the focused branch"@),
        ("n"@, "new branch"@),
        ("d"@, "delete branch"@),
        ("M"@, "join into HEAD"@),
        ("Space"@, "hide / show in the graph"@),
        ("o"@, "solo (again to show all)"@),
        ("p"@, "pin (survives solo)"@),
        ("/"@, "fuzzy filter (↵ applies, keys act on matches)"@),
    ]
}

pub open spec fn working_keys() -> Seq<(Seq<char>, Seq<char>)> {
    seq![
        ("j / k"@, "select next / previous"@),
        ("Space"@, "stage / unstage file or hunk"@),
        ("a"@, "stage / unstage all"@),
        ("Tab"@, "focus files / hunks"@),
        ("v"@, "toggle side-by-side diff"@),
        ("c"@, "commit staged changes"@),
        ("d"@, "discard file or hunk"@),
        ("s"@, "stash changes"@),
        ("b"@, "branches panel"@),
        ("Enter"@, "toggle fullscreen"@),
    ]
}

pub open spec fn join_keys() -> Seq<(Seq<char>, Seq<char>)> {
    seq![
        ("j / k"@, "select a join strategy"@),
        ("Enter"@, "run the join"@),
        ("M / Esc"@, "cancel"@),
    ]
}

pub open spec fn conflict_keys() -> Seq<(Seq<char>, Seq<char>)> {
    seq![
        ("j / k"@, "select a conflict block"@),
        ("o / t"@, "take ours / theirs"@),
        ("e"@, "edit in $EDITOR"@),
        ("Tab"@, "next conflicted file"@),
        ("c"@, "continue (stash: finish and keep or drop the entry)"@),
        ("s"@, "skip (rebase)"@),
        ("A"@, "abort (stash: discard the applied files)"@),
    ]
}

pub open spec fn stash_keys() -> Seq<(Seq<char>, Seq<char>)> {
    seq![
        ("j / k"@, "move inside the focused zone"@),
        ("Tab"@, "focus entries, files, then the diff"@),
        ("Enter"@, "fullscreen"@),
        ("p"@, "pop"@),
        ("a"@, "apply"@),
        ("d"@, "drop"@),
        ("x"@, "restore only the focused file"@),
        ("b"@, "take the entry out to a new branch"@),
        ("v"@, "side-by-side diff"@),
        ("/"@, "filter the list"@),
        ("S / Esc"@, "close"@),
        (""@, "a conflicting pop or apply opens the resolver"@),
    ]
}

pub open spec fn focus_keys() -> Seq<(Seq<char>, Seq<char>)> {
    seq![
        ("j / k"@, "select a focus set"@),
        ("Enter"@, "activate the set"@),
        ("n"@, "save current visibility"@),
        ("d"@, "delete the set"@),
        ("F / Esc"@, "close"@),
    ]
}

pub open spec fn submodule_keys() -> Seq<(Seq<char>, Seq<char>)> {
    seq![
        ("j / k"@, "select a submodule"@),
        ("Enter"@, "enter the submodule"@),
        ("i"@, "initialize the submodule"@),
        ("u"@, "update the submodule to the recorded commit"@),
        ("> / Esc"@, "close (< or Esc in the graph exits it)"@),
    ]
}

pub open spec fn commit_diff_keys() -> Seq<(Seq<char>, Seq<char>)> {
    seq![
        ("j / k"@, "select next / previous file"@),
        ("v"@, "toggle side-by-side diff"@),
        ("Esc"@, "collapse to the graph"@),
    ]
}

pub open spec fn fallback_keys() -> Seq<(Seq<char>, Seq<char>)> {
    seq![
        ("type"@, "enter text"@),
        ("Enter"@, "confirm"@),
        ("Esc"@, "cancel"@),
    ]
}

fn graph_bindings() -> (r: Vec<(&'static str, &'static str)>)
    ensures
        pair_views(r@) == graph_keys(),
{
    let r = vec![
        ("j / k", "select next / previous commit"),
        ("gg / G", "jump to first / last"),
        ("Enter", "open commit detail panel"),
        ("Space", "checkout commit (detached HEAD if no branch)"),
        ("M", "join: merge / cherry-pick / rebase"),
        ("f / p / P", "fetch / pull / push"),
        ("s / S", "stash changes / stash list"),
        ("b", "branches panel"),
        ("F", "focus sets"),
        ("> / <", "submodules: enter / exit"),
        ("n", "new branch"),
        ("u", "undo last action"),
        ("Esc", "collapse the panel · back to the parent repo"),
        ("Ctrl+P", "command palette"),
    ];
    assert(pair_views(r@) =~= graph_keys());
    r
}

fn branch_bindings() -> (r: Vec<(&'static str, &'static str)>)
    ensures
        pair_views(r@) == branch_keys(),
{
    let r = vec![
        ("Enter", "checkout the focused branch"),
        ("n", "new branch"),
        ("d", "delete branch"),
        ("M", "join into HEAD"),
        ("Space", "hide / show in the graph"),
        ("o", "solo (again to show all)"),
        ("p", "pin (survives solo)"),
        ("/", "fuzzy filter (↵ applies, keys act on matches)"),
    ];
    assert(pair_views(r@) =~= branch_keys());
    r
}

fn working_bindings() -> (r: Vec<(&'static str, &'static str)>)
    ensures
        pair_views(r@) == working_keys(),
{
    let r = vec![
        ("j / k", "select next / previous"),
        ("Space", "stage / unstage file or hunk"),
        ("a", "stage / unstage all"),
        ("Tab", "focus files / hunks"),
        ("v", "toggle side-by-side diff"),
        ("c", "commit staged changes"),
        ("d", "discard file or hunk"),
        ("s", "stash changes"),
        ("b", "branches panel"),
        ("Enter", "toggle fullscreen"),
    ];
    assert(pair_views(r@) =~= working_keys());
    r
}

fn join_bindings() -> (r: Vec<(&'static str, &'static str)>)
    ensures
        pair_views(r@) == join_keys(),
{
    let r = vec![
        ("j / k", "select a join strategy"),
        ("Enter", "run the join"),
        ("M / Esc", "cancel"),
    ];
    assert(pair_views(r@) =~= join_keys());
    r
}

fn conflict_bindings() -> (r: Vec<(&'static str, &'static str)>)
    ensures
        pair_views(r@) == conflict_keys(),
{
    let r = vec![
        ("j / k", "select a conflict block"),
        ("o / t", "take ours / theirs"),
        ("e", "edit in $EDITOR"),
        ("Tab", "next conflicted file"),
        ("c", "continue (stash: finish and keep or drop the entry)"),
        ("s", "skip (rebase)"),
        ("A", "abort (stash: discard the applied files)"),
    ];
    assert(pair_views(r@) =~= conflict_keys());
    r
}

fn stash_bindings() -> (r: Vec<(&'static str, &'static str)>)
    ensures
        pair_views(r@) == stash_keys(),
{
    let r = vec![
        ("j / k", "move inside the focused zone"),
        ("Tab", "focus entries, files, then the diff"),
        ("Enter", "fullscreen"),
        ("p", "pop"),
        ("a", "apply"),
        ("d", "drop"),
        ("x", "restore only the focused file"),
        ("b", "take the entry out to a new branch"),
        ("v", "side-by-side diff"),
        ("/", "filter the list"),
        ("S / Esc", "close"),
        ("", "a conflicting pop or apply opens the resolver"),
    ];
    assert(pair_views(r@) =~= stash_keys());
    r
}

fn focus_bindings() -> (r: Vec<(&'static str, &'static str)>)
    ensures
        pair_views(r@) == focus_keys(),
{
    let r = vec![
        ("j / k", "select a focus set"),
        ("Enter", "activate the set"),
        ("n", "save current visibility"),
        ("d", "delete the set"),
        ("F / Esc", "close"),
    ];
    assert(pair_views(r@) =~= focus_keys());
    r
}

fn submodule_bindings() -> (r: Vec<(&'static str, &'static str)>)
    ensures
        pair_views(r@) == submodule_keys(),
{
    let r = vec![
        ("j / k", "select a submodule"),
        ("Enter", "enter the submodule"),
        ("i", "initialize the submodule"),
        ("u", "update the submodule to the recorded commit"),
        ("> / Esc", "close (< or Esc in the graph exits it)"),
    ];
    assert(pair_views(r@) =~= submodule_keys());
    r
}

fn commit_diff_bindings() -> (r: Vec<(&'static str, &'static str)>)
    ensures
        pair_views(r@) == commit_diff_keys(),
{
    let r = vec![
        ("j / k", "select next / previous file"),
        ("v", "toggle side-by-side diff"),
        ("Esc", "collapse to the graph"),
    ];
    assert(pair_views(r@) =~= commit_diff_keys());
    r
}

fn fallback_bindings() -> (r: Vec<(&'static str, &'static str)>)
    ensures
        pair_views(r@) == fallback_keys(),
{
    let r = vec![
        ("type", "enter text"),
        ("Enter", "confirm"),
        ("Esc", "cancel"),
    ];
    assert(pair_views(r@) =~= fallback_keys());
    r
}

/// The title and keys of the page for a context: each navigation context
/// has its own page, and the contexts that take typed input share one.
pub open spec fn page_spec(context: InputContext) -> (Seq<char>, Seq<(Seq<char>, Seq<char>)>) {
    match context {
        InputContext::Graph => ("Graph"@, graph_keys()),
        InputContext::Branch => ("Branches"@, branch_keys()),
        InputContext::Working => ("Working diff"@, working_keys()),
        InputContext::Join => ("Join"@, join_keys()),
        InputContext::Conflict => ("Conflicts"@, conflict_keys()),
        InputContext::Stash => ("Stashes"@, stash_keys()),
        InputContext::FocusSets => ("Focus sets"@, focus_keys()),
        InputContext::Submodules => ("Submodules"@, submodule_keys()),
        InputContext::CommitDiff => ("Commit diff"@, commit_diff_keys()),
        _ => ("Keys"@, fallback_keys()),
    }
}

/// The help page shown in `context`.
pub fn context_help(context: InputContext) -> (r: HelpPage)
    ensures
        (r.title@, pair_views(r.bindings@)) == page_spec(context),
{
    match context {
        InputContext::Graph => HelpPage { title: "Graph", bindings: graph_bindings() },
        InputContext::Branch => HelpPage { title: "Branches", bindings: branch_bindings() },
        InputContext::Working => HelpPage { title: "Working diff", bindings: working_bindings() },
        InputContext::Join => HelpPage { title: "Join", bindings: join_bindings() },
        InputContext::Conflict => HelpPage { title: "Conflicts", bindings: conflict_bindings() },
        InputContext::Stash => HelpPage { title: "Stashes", bindings: stash_bindings() },
        InputContext::FocusSets => HelpPage { title: "Focus sets", bindings: focus_bindings() },
        InputContext::Submodules => HelpPage { title: "Submodules", bindings: submodule_bindings() },
        InputContext::CommitDiff => HelpPage { title: "Commit diff", bindings: commit_diff_bindings() },
        _ => HelpPage { title: "Keys", bindings: fallback_bindings() },
    }
}

} // verus!
