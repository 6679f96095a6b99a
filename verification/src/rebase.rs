//! Rebase progress as git records it in its state directory.
use vstd::prelude::*;

use crate::text::{parse_usize, parse_trimmed_usize, trim};

verus! {

/// The progress that a pair of step files describes: both trimmed texts must
/// be unsigned numbers, the total positive and the current step within it.
pub open spec fn progress_of(current: Seq<char>, total: Seq<char>) -> Option<(usize, usize)> {
    match (parse_usize(trim(current)), parse_usize(trim(total))) {
        (Some(c), Some(t)) => if t == 0 || c > t {
            None
        } else {
            Some((c, t))
        },
        _ => None,
    }
}

/// Reads the current step and the step count of a rebase in progress.
pub fn parse_progress(current: &str, total: &str) -> (r: Option<(usize, usize)>)
    ensures
        r == progress_of(current@, total@),
{
    let current = parse_trimmed_usize(current)?;
    let total = parse_trimmed_usize(total)?;
    if total == 0 || current > total {
        return None;
    }
    Some((current, total))
}

} // verus!
