//! Commits and their identifiers.

use vstd::prelude::*;

verus! {

/// Opaque, globally unique identifier of a commit.
#[derive(Clone, Copy, Debug, PartialEq, Eq, Hash, Structural)]
pub struct CommitId(pub u64);

/// A commit as the backend hands it over. The planner only ever reads it.
#[derive(Clone, Debug, PartialEq, Eq)]
pub struct Commit {
    pub id: CommitId,
    pub parents: Vec<CommitId>,
    pub description: String,
    pub is_empty: bool,
}

} // verus!
