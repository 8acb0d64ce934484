//! Classification of a requested bookmark move against what a remote is
//! known to hold.

use crate::ancestry::is_ancestor;
use crate::commit::CommitId;
use crate::graph::{CommitGraph, GraphModel};
use vstd::prelude::*;

verus! {

/// How a requested bookmark target relates to the target last seen on a remote.
#[derive(Clone, Copy, Debug, PartialEq, Eq, Structural)]
pub enum MoveKind {
    /// The remote has no such bookmark yet.
    New,
    /// The new target descends from the known one.
    FastForward,
    /// The new target does not descend from the known one.
    Backward,
    /// The bookmark is to be removed from the remote.
    Deleted,
    /// The remote is already there.
    NoOp,
}

/// The kind of the move from `known` to `new`.
pub open spec fn classify(
    g: GraphModel,
    known: Option<CommitId>,
    new: Option<CommitId>,
) -> MoveKind {
    match (known, new) {
        (None, Some(_)) => MoveKind::New,
        (None, None) => MoveKind::NoOp,
        (Some(_), None) => MoveKind::Deleted,
        (Some(k), Some(n)) => if k == n {
            MoveKind::NoOp
        } else if g.is_ancestor(k, n) {
            MoveKind::FastForward
        } else {
            MoveKind::Backward
        },
    }
}

/// Classifies the move of a bookmark whose target on the remote was last
/// seen as `known` to the requested target `new`; `None` stands for no bookmark.
pub fn classify_move(graph: &CommitGraph, known: Option<CommitId>, new: Option<CommitId>) -> (kind:
    MoveKind)
    requires
        graph.wf(),
    ensures
        kind == classify(graph@, known, new),
{
    match known {
        None => match new {
            Some(_) => MoveKind::New,
            None => MoveKind::NoOp,
        },
        Some(k) => match new {
            None => MoveKind::Deleted,
            Some(n) => {
                if k == n {
                    MoveKind::NoOp
                } else if is_ancestor(graph, k, n) {
                    MoveKind::FastForward
                } else {
                    MoveKind::Backward
                }
            },
        },
    }
}

} // verus!
