//! Pulling and pushing: what a pull should do, where a branch stands
//! against its upstream, and how a refused push reads.
use vstd::prelude::*;

use crate::join::MergePrediction;
use crate::text::{contains_seq, str_contains};

verus! {

#[derive(Debug, Clone, PartialEq, Eq)]
pub enum PullAction {
    UpToDate,
    FastForward,
    Choose,
}

/// A pull does nothing when HEAD holds the upstream, fast-forwards when it
/// can, and otherwise asks how to integrate.
pub fn pull_action(prediction: &MergePrediction) -> (r: PullAction)
    ensures
        r == match prediction {
            MergePrediction::UpToDate => PullAction::UpToDate,
            MergePrediction::FastForward => PullAction::FastForward,
            _ => PullAction::Choose,
        },
{
    match prediction {
        MergePrediction::UpToDate => PullAction::UpToDate,
        MergePrediction::FastForward => PullAction::FastForward,
        MergePrediction::Clean | MergePrediction::Conflicts { .. } => PullAction::Choose,
    }
}

#[derive(Debug, Clone, PartialEq, Eq)]
pub enum PushState {
    NoUpstream,
    UpToDate,
    Ahead(usize),
    Diverged { ahead: usize, behind: usize },
}

/// Whether git's error text says the push was refused as not a fast-forward.
pub open spec fn non_fast_forward(error: Seq<char>) -> bool {
    ||| contains_seq(error, "non-fast-forward"@)
    ||| contains_seq(error, "fetch first"@)
    ||| contains_seq(error, "Updates were rejected"@)
}

pub fn is_non_fast_forward(error: &str) -> (r: bool)
    ensures
        r == non_fast_forward(error@),
{
    str_contains(error, "non-fast-forward") || str_contains(error, "fetch first") || str_contains(
        error,
        "Updates were rejected",
    )
}

/// Where a branch stands against its upstream, from its (ahead, behind) counts.
pub open spec fn push_spec(tracking: Option<(usize, usize)>) -> PushState {
    match tracking {
        None => PushState::NoUpstream,
        Some((ahead, behind)) => if ahead == 0 {
            PushState::UpToDate
        } else if behind == 0 {
            PushState::Ahead(ahead)
        } else {
            PushState::Diverged { ahead, behind }
        },
    }
}

pub fn push_state(tracking: Option<(usize, usize)>) -> (r: PushState)
    ensures
        r == push_spec(tracking),
{
    match tracking {
        None => PushState::NoUpstream,
        Some((ahead, behind)) => if ahead == 0 {
            PushState::UpToDate
        } else if behind == 0 {
            PushState::Ahead(ahead)
        } else {
            PushState::Diverged { ahead, behind }
        },
    }
}


/// Where a branch stands is read off its counts: with nothing ahead it is
/// up to date, whatever it is behind; ahead and not behind, a push fast-
/// forwards by that many commits; ahead and behind, it has diverged, with
/// both counts kept. Without an upstream there is nothing to compare.
pub proof fn law_push_state_reads_the_counts(ahead: usize, behind: usize)
    ensures
        push_spec(None) == PushState::NoUpstream,
        ahead == 0 ==> push_spec(Some((ahead, behind))) == PushState::UpToDate,
        ahead > 0 && behind == 0 ==> push_spec(Some((ahead, behind))) == PushState::Ahead(ahead),
        ahead > 0 && behind > 0 ==> push_spec(Some((ahead, behind))) == (PushState::Diverged { ahead, behind }),
        push_spec(Some((ahead, behind))) matches PushState::Ahead(n) ==> n == ahead && behind == 0,
{
}

} // verus!
