//! Dragging a branch from one graph row onto another.
use vstd::prelude::*;

use crate::text::clone_opt;

verus! {

#[derive(Debug, Clone, PartialEq, Eq)]
pub struct RowRef {
    pub oid: String,
    pub branch: Option<String>,
}

#[derive(Debug, Clone, PartialEq, Eq)]
pub struct DropIntent {
    pub source_branch: String,
    pub target_oid: String,
    pub target_branch: Option<String>,
}

/// Whether a press on row `down` and a release on row `up` drop a branch:
/// the rows differ, both exist, the first carries a branch, and they are
/// different commits.
pub open spec fn is_drop(rows: Seq<RowRef>, down: int, up: int) -> bool {
    &&& down != up
    &&& 0 <= down < rows.len()
    &&& 0 <= up < rows.len()
    &&& rows[down].branch is Some
    &&& rows[down].oid@ != rows[up].oid@
}

/// The drop a press on row `down` and a release on row `up` make, if any:
/// the pressed row's branch onto the released row's commit.
pub fn resolve_drop(rows: &[RowRef], down: usize, up: usize) -> (r: Option<DropIntent>)
    ensures
        r is Some <==> is_drop(rows@, down as int, up as int),
        r matches Some(intent) ==> {
            &&& Some(intent.source_branch) == rows@[down as int].branch
            &&& intent.target_oid == rows@[up as int].oid
            &&& intent.target_branch == rows@[up as int].branch
        },
{
    if down == up {
        return None;
    }
    if down >= rows.len() || up >= rows.len() {
        return None;
    }
    let source = &rows[down];
    let target = &rows[up];
    let source_branch = match &source.branch {
        Some(b) => b.clone(),
        None => return None,
    };
    if source.oid == target.oid {
        return None;
    }
    Some(
        DropIntent {
            source_branch,
            target_oid: target.oid.clone(),
            target_branch: clone_opt(&target.branch),
        },
    )
}

} // verus!
