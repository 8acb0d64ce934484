//! The push set: the commits that a remote must be sent so that it holds the
//! new targets.

use crate::ancestry::{ancestor_marks, closure, lemma_reaches_outside_closure};
use crate::commit::CommitId;
use crate::graph::{CommitGraph, GraphModel};
use crate::walk::{discovery_order, lemma_discovery_order, walk};
use vstd::prelude::*;

verus! {

/// The ancestors of `targets` that the graph holds and that a remote with the
/// known heads `heads` lacks, in the order of discovery: the targets first,
/// in their order, then parents, breadth first.
pub open spec fn push_set(
    g: GraphModel,
    targets: Seq<CommitId>,
    heads: Seq<CommitId>,
) -> Seq<CommitId> {
    discovery_order(g, targets, closure(g, heads))
}

/// The push set holds each commit once, and holds exactly the ancestors of
/// the targets that are not ancestors of a known head.
pub proof fn lemma_push_set(g: GraphModel, targets: Seq<CommitId>, heads: Seq<CommitId>)
    requires
        g.wf(),
    ensures
        push_set(g, targets, heads).no_duplicates(),
        forall|c: CommitId| #[trigger]
            push_set(g, targets, heads).contains(c) <==> g.contains(c) && closure(
                g,
                targets,
            ).contains(c) && !closure(g, heads).contains(c),
{
    lemma_discovery_order(g, targets, closure(g, heads));
    assert forall|c: CommitId| #[trigger]
        push_set(g, targets, heads).contains(c) <==> g.contains(c) && closure(
            g,
            targets,
        ).contains(c) && !closure(g, heads).contains(c) by {
        lemma_reaches_outside_closure(g, targets, heads, c);
    }
}

/// The push set for a remote holds no commit of what the remote is known to
/// hold, whatever the targets are.
pub proof fn lemma_push_set_avoids_known(
    g: GraphModel,
    targets: Seq<CommitId>,
    heads: Seq<CommitId>,
)
    requires
        g.wf(),
    ensures
        forall|c: CommitId|
            closure(g, heads).contains(c) ==> !(#[trigger] push_set(g, targets, heads).contains(
                c,
            )),
{
    lemma_push_set(g, targets, heads);
}

/// No commit that can be reached from a head that the remote is known to
/// hold is in the push set for that remote.
pub proof fn lemma_known_commits_excluded(
    g: GraphModel,
    targets: Seq<CommitId>,
    heads: Seq<CommitId>,
    c: CommitId,
    h: CommitId,
)
    requires
        g.wf(),
        heads.contains(h),
        g.is_ancestor(c, h),
    ensures
        !push_set(g, targets, heads).contains(c),
{
    lemma_push_set(g, targets, heads);
    assert(closure(g, heads).contains(c));
}

/// Computes the push set for the new targets `targets` and a remote whose
/// known heads are `known_heads`.
///
/// One traversal serves all targets, so a commit that several of them reach
/// is taken once. The traversal does not go beyond a commit that the remote
/// holds.
pub fn resolve_push_set(
    graph: &CommitGraph,
    targets: &Vec<CommitId>,
    known_heads: &Vec<CommitId>,
) -> (r: Vec<CommitId>)
    requires
        graph.wf(),
    ensures
        r@ == push_set(graph@, targets@, known_heads@),
        r@.no_duplicates(),
        forall|c: CommitId| #[trigger]
            r@.contains(c) <==> graph@.contains(c) && closure(graph@, targets@).contains(c)
                && !closure(graph@, known_heads@).contains(c),
{
    let known = ancestor_marks(graph, known_heads);
    let found = walk(graph, targets, &known, Ghost(closure(graph@, known_heads@)));
    proof {
        lemma_push_set(graph@, targets@, known_heads@);
    }
    found.order
}

} // verus!
