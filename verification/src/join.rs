//! Predicting what joining a branch or commit into HEAD will do.
use vstd::prelude::*;

use crate::text::strs;

verus! {

#[derive(Debug, Clone, PartialEq, Eq)]
pub enum MergePrediction {
    UpToDate,
    FastForward,
    Clean,
    Conflicts { files: Vec<String> },
}

#[derive(Debug, Clone, Copy)]
pub struct Ancestry {
    pub source_in_head: bool,
    pub head_in_source: bool,
}

#[derive(Debug, Clone)]
pub struct MergeTreeResult {
    pub conflicted: bool,
    pub files: Vec<String>,
}

#[derive(Debug, Clone, Copy, PartialEq, Eq, Structural)]
pub enum JoinStrategy {
    FastForward,
    MergeCommit,
    CherryPick,
    Rebase,
}

pub struct JoinOption {
    pub strategy: JoinStrategy,
    pub label: String,
    pub note: String,
    pub enabled: bool,
}

/// A copy of a list of strings.
pub fn clone_strings(v: &Vec<String>) -> (r: Vec<String>)
    ensures
        r@ == v@,
{
    let mut r: Vec<String> = Vec::new();
    let mut i: usize = 0;
    while i < v.len()
        invariant
            i <= v@.len(),
            r@ == v@.take(i as int),
        decreases v@.len() - i,
    {
        r.push(v[i].clone());
        i = i + 1;
        assert(r@ =~= v@.take(i as int));
    }
    assert(v@.take(i as int) =~= v@);
    r
}

/// What joining a source into HEAD will do: nothing when HEAD already holds
/// the source, a fast-forward when the source holds HEAD, otherwise a merge
/// that is clean or conflicts in the files the trial merge named.
pub fn classify(ancestry: Ancestry, merge_tree: &MergeTreeResult) -> (r: MergePrediction)
    ensures
        ancestry.source_in_head ==> r is UpToDate,
        !ancestry.source_in_head && ancestry.head_in_source ==> r is FastForward,
        !ancestry.source_in_head && !ancestry.head_in_source && merge_tree.conflicted ==> (
        r matches MergePrediction::Conflicts { files } && files@ == merge_tree.files@),
        !ancestry.source_in_head && !ancestry.head_in_source && !merge_tree.conflicted ==> r is Clean,
{
    if ancestry.source_in_head {
        MergePrediction::UpToDate
    } else if ancestry.head_in_source {
        MergePrediction::FastForward
    } else if merge_tree.conflicted {
        MergePrediction::Conflicts { files: clone_strings(&merge_tree.files) }
    } else {
        MergePrediction::Clean
    }
}

} // verus!
