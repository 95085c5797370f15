use vstd::prelude::*;

verus! {

/// What can go wrong while tracking nightlies.
#[derive(Debug)]
pub enum NightlyError {
    /// The registry could not be reached or answered badly.
    FetchError(String),
    /// The cache file could not be read or written.
    FileError(String),
    /// JSON could not be encoded or decoded.
    JSONError(String),
    /// A background task failed.
    JoinError(String),
    /// A commit time cannot be represented as a timestamp.
    DateParseError(String),
    /// Any other failure.
    GenericError(String),
    /// A git command or repository query failed.
    GitError(String),
    /// The identifier does not name exactly one commit of the local clone,
    /// which is most likely out of date.
    StaleCheckout(String),
    /// The commit exists but is not reachable from the tracked default branch.
    NotOnMainBranch(String),
    /// No nightly's build commit descends from the change.
    NoNightlyContaining(String),
    /// Fewer than two nightlies are left to compare.
    NotEnoughNightlies,
}

} // verus!
