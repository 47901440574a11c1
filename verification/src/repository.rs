//! What a repository is in the middle of.

use vstd::prelude::*;

verus! {

/// The operation that a repository is in the middle of.
#[derive(Clone, Copy, Debug, PartialEq, Eq)]
pub enum RepositoryState {
    Clean,
    Merge,
    Revert,
    RevertSequence,
    CherryPick,
    CherryPickSequence,
    Bisect,
    Rebase,
    RebaseInteractive,
    RebaseMerge,
    ApplyMailbox,
    ApplyMailboxOrRebase,
}

/// Whether a repository in this state is in the middle of a rebase.
pub fn is_rebase_underway(state: RepositoryState) -> (res: bool)
    ensures
        res == (state is Rebase || state is RebaseInteractive || state is RebaseMerge),
{
    match state {
        RepositoryState::Rebase
        | RepositoryState::RebaseInteractive
        | RepositoryState::RebaseMerge => true,
        // Possibly some of these states should count as a rebase, too.
        RepositoryState::Clean
        | RepositoryState::Merge
        | RepositoryState::Revert
        | RepositoryState::RevertSequence
        | RepositoryState::CherryPick
        | RepositoryState::CherryPickSequence
        | RepositoryState::Bisect
        | RepositoryState::ApplyMailbox
        | RepositoryState::ApplyMailboxOrRebase => false,
    }
}

} // verus!
