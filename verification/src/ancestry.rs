//! Ancestry queries: which commits are ancestors of which.
//!
//! A commit counts among its own ancestors. The closure of a set of heads is
//! what a remote that holds those heads is believed to hold.

use crate::commit::CommitId;
use crate::graph::{CommitGraph, GraphModel};
use crate::walk::{
    discovery_order, is_clear_path, lemma_discovery_order, lemma_parent_contained, marks_match,
    no_marks, reaches, walk,
};
use vstd::prelude::*;

verus! {

/// The commits that are ancestors of one of `heads`.
pub open spec fn closure(g: GraphModel, heads: Seq<CommitId>) -> Set<CommitId> {
    Set::new(|c: CommitId| exists|h: CommitId| heads.contains(h) && #[trigger] g.is_ancestor(c, h))
}

/// Every commit is its own ancestor.
pub proof fn lemma_ancestor_refl(g: GraphModel, a: CommitId)
    ensures
        g.is_ancestor(a, a),
{
    let path = seq![a];
    assert(g.is_chain(path) && path.len() > 0 && path[0] == a && path.last() == a);
}

/// An ancestor of an ancestor is an ancestor.
pub proof fn lemma_ancestor_trans(g: GraphModel, a: CommitId, b: CommitId, c: CommitId)
    requires
        g.is_ancestor(a, b),
        g.is_ancestor(b, c),
    ensures
        g.is_ancestor(a, c),
{
    let lower = choose|path: Seq<CommitId>| #[trigger]
        g.is_chain(path) && path.len() > 0 && path[0] == b && path.last() == a;
    let upper = choose|path: Seq<CommitId>| #[trigger]
        g.is_chain(path) && path.len() > 0 && path[0] == c && path.last() == b;
    let path = upper + lower.drop_first();
    assert(g.is_chain(path)) by {
        assert forall|i: int| 0 < i < path.len() implies g.is_parent(
            #[trigger] path[i],
            path[i - 1],
        ) by {
            if i < upper.len() {
                assert(g.is_parent(upper[i], upper[i - 1]));
            } else {
                let j = i - upper.len() + 1;
                assert(path[i] == lower[j]);
                assert(g.is_parent(lower[j], lower[j - 1]));
                if i == upper.len() {
                    assert(path[i - 1] == upper.last());
                } else {
                    assert(path[i - 1] == lower[j - 1]);
                }
            }
        }
    }
    assert(path[0] == upper[0]);
    if lower.len() == 1 {
        assert(path =~= upper);
    } else {
        assert(path.last() == lower[lower.len() - 1]);
    }
    assert(g.is_chain(path) && path.len() > 0 && path[0] == c && path.last() == a);
}

/// What a remote is believed to hold is closed under ancestry: with a commit
/// it holds each of the commit's ancestors.
pub proof fn lemma_closure_is_closed(g: GraphModel, heads: Seq<CommitId>, a: CommitId, c: CommitId)
    requires
        closure(g, heads).contains(c),
        g.is_ancestor(a, c),
    ensures
        closure(g, heads).contains(a),
{
    let h = choose|h: CommitId| heads.contains(h) && #[trigger] g.is_ancestor(c, h);
    lemma_ancestor_trans(g, a, c, h);
}

/// The tail of a chain is a chain.
pub proof fn lemma_chain_tail(g: GraphModel, path: Seq<CommitId>, i: int)
    requires
        g.is_chain(path),
        0 <= i < path.len(),
    ensures
        g.is_chain(path.subrange(i, path.len() as int)),
        g.is_ancestor(path.last(), path[i]),
{
    let tail = path.subrange(i, path.len() as int);
    assert forall|j: int| 0 < j < tail.len() implies g.is_parent(
        #[trigger] tail[j],
        tail[j - 1],
    ) by {
        assert(g.is_parent(path[i + j], path[i + j - 1]));
    }
    assert(g.is_chain(tail) && tail.len() > 0 && tail[0] == path[i] && tail.last() == path.last());
}

/// In a well-formed graph a chain that ends in the graph lies in the graph.
pub proof fn lemma_chain_contained(g: GraphModel, path: Seq<CommitId>, i: int)
    requires
        g.wf(),
        g.is_chain(path),
        0 <= i < path.len(),
        g.contains(path.last()),
    ensures
        g.contains(path[i]),
{
    if i < path.len() - 1 {
        assert(g.is_parent(path[i + 1], path[i]));
        let ps = g.parents_of(path[i]);
        let k = choose|k: int| 0 <= k < ps.len() && ps[k] == path[i + 1];
        lemma_parent_contained(g, path[i], k);
    }
}

/// An ancestor of a commit of the graph, other than the commit itself, is a
/// commit of the graph.
pub proof fn lemma_proper_ancestor_contained(g: GraphModel, a: CommitId, b: CommitId)
    requires
        g.wf(),
        g.is_ancestor(a, b),
        a != b,
    ensures
        g.contains(a),
        g.contains(b),
{
    let path = choose|path: Seq<CommitId>| #[trigger]
        g.is_chain(path) && path.len() > 0 && path[0] == b && path.last() == a;
    let n = path.len() as int;
    assert(n >= 2);
    assert(g.is_parent(path[n - 1], path[n - 2]));
    let ps = g.parents_of(path[n - 2]);
    let k = choose|k: int| 0 <= k < ps.len() && ps[k] == path[n - 1];
    lemma_parent_contained(g, path[n - 2], k);
    lemma_chain_contained(g, path, 0);
}

/// With nothing to stop at, the traversal reaches the ancestors of its
/// starts that the graph holds.
pub proof fn lemma_reaches_unstopped(g: GraphModel, starts: Seq<CommitId>, c: CommitId)
    requires
        g.wf(),
    ensures
        reaches(g, starts, Set::empty(), c) <==> g.contains(c) && closure(g, starts).contains(c),
{
    let none = Set::<CommitId>::empty();
    if reaches(g, starts, none, c) {
        let path = choose|path: Seq<CommitId>| #[trigger]
            is_clear_path(g, starts, none, path) && path.last() == c;
        assert(g.contains(path[path.len() - 1]));
        assert(g.is_chain(path) && path.len() > 0 && path[0] == path[0] && path.last() == c);
        assert(g.is_ancestor(c, path[0]));
    }
    if g.contains(c) && closure(g, starts).contains(c) {
        let h = choose|h: CommitId| starts.contains(h) && #[trigger] g.is_ancestor(c, h);
        let path = choose|path: Seq<CommitId>| #[trigger]
            g.is_chain(path) && path.len() > 0 && path[0] == h && path.last() == c;
        assert forall|i: int| 0 <= i < path.len() implies g.contains(#[trigger] path[i])
            && !none.contains(path[i]) by {
            lemma_chain_contained(g, path, i);
        }
        assert(is_clear_path(g, starts, none, path) && path.last() == c);
    }
}

/// Stopping at the closure of `heads`, the traversal reaches the ancestors of
/// its starts that the graph holds and that closure does not.
pub proof fn lemma_reaches_outside_closure(
    g: GraphModel,
    starts: Seq<CommitId>,
    heads: Seq<CommitId>,
    c: CommitId,
)
    requires
        g.wf(),
    ensures
        reaches(g, starts, closure(g, heads), c) <==> g.contains(c) && closure(g, starts).contains(
            c,
        ) && !closure(g, heads).contains(c),
{
    let stop = closure(g, heads);
    if reaches(g, starts, stop, c) {
        let path = choose|path: Seq<CommitId>| #[trigger]
            is_clear_path(g, starts, stop, path) && path.last() == c;
        assert(g.contains(path[path.len() - 1]) && !stop.contains(path[path.len() - 1]));
        assert(g.is_chain(path) && path.len() > 0 && path[0] == path[0] && path.last() == c);
        assert(g.is_ancestor(c, path[0]));
    }
    if g.contains(c) && closure(g, starts).contains(c) && !stop.contains(c) {
        let t = choose|t: CommitId| starts.contains(t) && #[trigger] g.is_ancestor(c, t);
        let path = choose|path: Seq<CommitId>| #[trigger]
            g.is_chain(path) && path.len() > 0 && path[0] == t && path.last() == c;
        assert forall|i: int| 0 <= i < path.len() implies g.contains(#[trigger] path[i])
            && !stop.contains(path[i]) by {
            lemma_chain_contained(g, path, i);
            if stop.contains(path[i]) {
                let h = choose|h: CommitId|
                    heads.contains(h) && #[trigger] g.is_ancestor(path[i], h);
                lemma_chain_tail(g, path, i);
                lemma_ancestor_trans(g, c, path[i], h);
                assert(stop.contains(c));
            }
        }
        assert(is_clear_path(g, starts, stop, path) && path.last() == c);
    }
}

/// Marks the ancestors of `heads`.
pub fn ancestor_marks(graph: &CommitGraph, heads: &Vec<CommitId>) -> (marks: Vec<bool>)
    requires
        graph.wf(),
    ensures
        marks_match(graph@, marks@, closure(graph@, heads@)),
{
    let none = no_marks(graph.len());
    let found = walk(graph, heads, &none, Ghost(Set::empty()));
    proof {
        lemma_discovery_order(graph@, heads@, Set::empty());
        assert forall|i: int|
            #![trigger found.marks@[i]]
            #![trigger graph@.ids[i]]
            0 <= i < graph@.ids.len() implies (found.marks@[i] <==> closure(
            graph@,
            heads@,
        ).contains(graph@.ids[i])) by {
            lemma_reaches_unstopped(graph@, heads@, graph@.ids[i]);
            assert(found.order@.to_set().contains(graph@.ids[i]) <==> found.order@.contains(
                graph@.ids[i],
            ));
        }
    }
    found.marks
}

/// The ancestors of `heads` that the graph holds, each once, in the order in
/// which a breadth-first walk from `heads` finds them.
pub fn ancestors(graph: &CommitGraph, heads: &Vec<CommitId>) -> (order: Vec<CommitId>)
    requires
        graph.wf(),
    ensures
        order@ == discovery_order(graph@, heads@, Set::empty()),
        order@.no_duplicates(),
        forall|c: CommitId| #[trigger]
            order@.contains(c) <==> graph@.contains(c) && closure(graph@, heads@).contains(c),
{
    let none = no_marks(graph.len());
    let found = walk(graph, heads, &none, Ghost(Set::empty()));
    proof {
        lemma_discovery_order(graph@, heads@, Set::empty());
        assert forall|c: CommitId| #[trigger]
            found.order@.contains(c) <==> graph@.contains(c) && closure(graph@, heads@).contains(
                c,
            ) by {
            lemma_reaches_unstopped(graph@, heads@, c);
        }
    }
    found.order
}

/// Whether `a` is `b` or an ancestor of `b`.
pub fn is_ancestor(graph: &CommitGraph, a: CommitId, b: CommitId) -> (r: bool)
    requires
        graph.wf(),
    ensures
        r == graph@.is_ancestor(a, b),
{
    if a == b {
        proof {
            lemma_ancestor_refl(graph@, a);
        }
        return true;
    }
    match graph.position(a) {
        None => {
            proof {
                if graph@.is_ancestor(a, b) {
                    lemma_proper_ancestor_contained(graph@, a, b);
                }
            }
            false
        },
        Some(pos) => {
            let mut heads: Vec<CommitId> = Vec::new();
            heads.push(b);
            let marks = ancestor_marks(graph, &heads);
            proof {
                assert(heads@[0] == b);
                assert(marks@[pos as int] <==> closure(graph@, heads@).contains(
                    graph@.ids[pos as int],
                ));
                if closure(graph@, heads@).contains(a) {
                    let h = choose|h: CommitId|
                        heads@.contains(h) && #[trigger] graph@.is_ancestor(a, h);
                    assert(h == b);
                }
            }
            marks[pos]
        },
    }
}

} // verus!
