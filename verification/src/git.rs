//! Repository synchronization decisions. The pull itself fetches over the
//! network; what it may do afterwards is decided here: fast-forward only,
//! never a merge or a rebase.
use vstd::prelude::*;

verus! {

/// What a pull does after fetching `main` from `origin`, given the merge
/// analysis against the fetched head.
#[derive(Clone, Copy, Debug, PartialEq, Eq, Structural)]
pub enum PullAction {
    /// The local branch is already at the fetched commit: succeed, no change.
    AlreadyUpToDate,
    /// The fetched commit is a descendant: move the branch reference and
    /// force-checkout the working tree.
    FastForward,
    /// Histories diverged: fail with a fast-forward-only error.
    Reject,
}

/// The fast-forward-only rule of `pull`: up to date wins, a possible
/// fast-forward is taken, anything else is refused.
pub fn merge_decision(up_to_date: bool, fast_forward: bool) -> (r: PullAction)
    ensures
        r == (if up_to_date {
            PullAction::AlreadyUpToDate
        } else if fast_forward {
            PullAction::FastForward
        } else {
            PullAction::Reject
        }),
{
    if up_to_date {
        PullAction::AlreadyUpToDate
    } else if fast_forward {
        PullAction::FastForward
    } else {
        PullAction::Reject
    }
}

} // verus!
