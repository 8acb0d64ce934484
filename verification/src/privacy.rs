//! The privacy gate: private commits are not pushed unless the caller allows
//! it, and a refusal names the private roots only.

use crate::ancestry::closure;
use crate::commit::CommitId;
use crate::graph::{CommitGraph, GraphModel};
use crate::resolver::{lemma_push_set, push_set};
use crate::walk::lemma_parent_contained;
use std::collections::HashSet;
use vstd::prelude::*;

verus! {

broadcast use vstd::std_specs::hash::group_hash_axioms;

/// The commits of the push set that the predicate calls private, in the
/// order of the push set.
pub open spec fn private_in_push_set(push: Seq<CommitId>, private: Set<CommitId>) -> Seq<
    CommitId,
> {
    push.filter(|c: CommitId| private.contains(c))
}

/// None of the parents of `c` is among `pips`.
pub open spec fn no_private_parent(g: GraphModel, pips: Seq<CommitId>, c: CommitId) -> bool {
    forall|k: int|
        0 <= k < g.parents_of(c).len() ==> !pips.contains(#[trigger] g.parents_of(c)[k])
}

/// The private roots: the commits of `pips` without a parent in `pips`, in
/// the order of `pips`.
pub open spec fn private_roots(g: GraphModel, pips: Seq<CommitId>) -> Seq<CommitId> {
    pips.filter(|c: CommitId| no_private_parent(g, pips, c))
}

/// The privacy gate lets a push set through when it holds no private commit, or
/// when the caller allows private commits.
pub open spec fn gate_passes(
    push: Seq<CommitId>,
    private: Set<CommitId>,
    allow_private: bool,
) -> bool {
    private_in_push_set(push, private).len() == 0 || allow_private
}

/// `path` is a chain of commits of `pips` that leads from `c` to a private root.
pub open spec fn leads_to_root(
    g: GraphModel,
    pips: Seq<CommitId>,
    c: CommitId,
    path: Seq<CommitId>,
) -> bool {
    &&& path.len() > 0
    &&& path[0] == c
    &&& g.is_chain(path)
    &&& forall|i: int| 0 <= i < path.len() ==> pips.contains(#[trigger] path[i])
    &&& private_roots(g, pips).contains(path.last())
}

/// Where `c` stands in the order in which the graph was built.
pub open spec fn rank(g: GraphModel, c: CommitId) -> int {
    if g.contains(c) {
        g.ids.index_of(c) + 1
    } else {
        0
    }
}

/// A private root is private, is in the push set, and has no parent among
/// the private commits of the push set.
pub proof fn lemma_roots_minimal(g: GraphModel, pips: Seq<CommitId>, c: CommitId)
    requires
        private_roots(g, pips).contains(c),
    ensures
        pips.contains(c),
        forall|p: CommitId| g.is_parent(p, c) ==> !pips.contains(p),
{
    let keep = |c: CommitId| no_private_parent(g, pips, c);
    pips.lemma_filter_contains_rev(keep, c);
    let roots = pips.filter(keep);
    let i = choose|i: int| 0 <= i < roots.len() && roots[i] == c;
    pips.lemma_filter_pred(keep, i);
    assert(no_private_parent(g, pips, c));
    assert forall|p: CommitId| g.is_parent(p, c) implies !pips.contains(p) by {
        let ps = g.parents_of(c);
        let k = choose|k: int| 0 <= k < ps.len() && ps[k] == p;
        assert(!pips.contains(g.parents_of(c)[k]));
    }
}

/// From each private commit of the push set a chain of such commits leads
/// to a private root.
pub proof fn lemma_root_chain(g: GraphModel, pips: Seq<CommitId>, c: CommitId)
    requires
        g.wf(),
        pips.contains(c),
    ensures
        exists|path: Seq<CommitId>| #[trigger] leads_to_root(g, pips, c, path),
    decreases rank(g, c),
{
    let keep = |c: CommitId| no_private_parent(g, pips, c);
    if no_private_parent(g, pips, c) {
        let i = choose|i: int| 0 <= i < pips.len() && pips[i] == c;
        pips.lemma_filter_contains(keep, i);
        let path = seq![c];
        assert(leads_to_root(g, pips, c, path));
    } else {
        let k = choose|k: int|
            0 <= k < g.parents_of(c).len() && pips.contains(#[trigger] g.parents_of(c)[k]);
        let p = g.parents_of(c)[k];
        lemma_parent_contained(g, c, k);
        assert(rank(g, p) < rank(g, c)) by {
            let i = g.ids.index_of(c);
            assert(g.ids[i] == c);
            assert(g.parents[g.ids[i]][k] == p);
            assert(g.added_before(p, i));
            let j = choose|j: int| 0 <= j < i && g.ids[j] == p;
            assert(g.ids.index_of(p) == j);
        }
        lemma_root_chain(g, pips, p);
        let rest = choose|path: Seq<CommitId>| #[trigger] leads_to_root(g, pips, p, path);
        let path = seq![c] + rest;
        assert(g.is_chain(path)) by {
            assert forall|i: int| 0 < i < path.len() implies g.is_parent(
                #[trigger] path[i],
                path[i - 1],
            ) by {
                if i == 1 {
                    assert(path[1] == rest[0]);
                } else {
                    assert(path[i] == rest[i - 1]);
                    assert(path[i - 1] == rest[i - 2]);
                    assert(g.is_parent(rest[i - 1], rest[i - 2]));
                }
            }
        }
        assert forall|i: int| 0 <= i < path.len() implies pips.contains(#[trigger] path[i]) by {
            if i > 0 {
                assert(path[i] == rest[i - 1]);
            }
        }
        assert(path.last() == rest.last());
        assert(leads_to_root(g, pips, c, path));
    }
}

/// A private commit that the remote is known to hold is not among the
/// private commits of the push set, whatever reaches it.
pub proof fn lemma_known_private_excluded(
    g: GraphModel,
    targets: Seq<CommitId>,
    heads: Seq<CommitId>,
    private: Set<CommitId>,
    c: CommitId,
)
    requires
        g.wf(),
        closure(g, heads).contains(c),
    ensures
        !private_in_push_set(push_set(g, targets, heads), private).contains(c),
{
    let push = push_set(g, targets, heads);
    let keep = |c: CommitId| private.contains(c);
    lemma_push_set(g, targets, heads);
    if push.filter(keep).contains(c) {
        push.lemma_filter_contains_rev(keep, c);
    }
}

/// The ids of `ids` as a hash set.
fn id_set(ids: &Vec<CommitId>) -> (set: HashSet<u64>)
    ensures
        forall|c: CommitId| set@.contains(c.0) <==> ids@.contains(c),
{
    let mut set: HashSet<u64> = HashSet::new();
    let mut i: usize = 0;
    while i < ids.len()
        invariant
            i <= ids@.len(),
            forall|c: CommitId| set@.contains(c.0) <==> ids@.take(i as int).contains(c),
        decreases ids@.len() - i,
    {
        let ghost before = set@;
        set.insert(ids[i].0);
        proof {
            let next = ids@.take(i + 1);
            let prev = ids@.take(i as int);
            assert forall|c: CommitId| set@.contains(c.0) <==> next.contains(c) by {
                if prev.contains(c) {
                    let j = choose|j: int| 0 <= j < prev.len() && prev[j] == c;
                    assert(next[j] == c);
                }
                if next.contains(c) {
                    let j = choose|j: int| 0 <= j < next.len() && next[j] == c;
                    if j < i {
                        assert(prev[j] == c);
                    }
                }
                if c.0 == ids@[i as int].0 {
                    assert(c == ids@[i as int]);
                    assert(next[i as int] == c);
                }
            }
        }
        i += 1;
    }
    proof {
        assert(ids@.take(ids@.len() as int) =~= ids@);
    }
    set
}

/// Picks from `push_set` the commits that `private` names, keeping their order.
pub fn filter_private(push_set: &Vec<CommitId>, private: &Vec<CommitId>) -> (pips: Vec<CommitId>)
    ensures
        pips@ == private_in_push_set(push_set@, private@.to_set()),
{
    let lookup = id_set(private);
    let mut pips: Vec<CommitId> = Vec::new();
    let mut i: usize = 0;
    proof {
        reveal(Seq::filter);
    }
    while i < push_set.len()
        invariant
            i <= push_set@.len(),
            forall|c: CommitId| lookup@.contains(c.0) <==> private@.contains(c),
            pips@ == private_in_push_set(push_set@.take(i as int), private@.to_set()),
        decreases push_set@.len() - i,
    {
        let c = push_set[i];
        proof {
            reveal(Seq::filter);
            assert(push_set@.take(i + 1).drop_last() =~= push_set@.take(i as int));
            assert(push_set@.take(i + 1).last() == c);
        }
        if lookup.contains(&c.0) {
            pips.push(c);
        }
        i += 1;
    }
    proof {
        assert(push_set@.take(push_set@.len() as int) =~= push_set@);
    }
    pips
}

/// Whether one of `parents` is in the set `lookup`.
fn any_in(parents: &Vec<CommitId>, lookup: &HashSet<u64>) -> (r: bool)
    ensures
        r == exists|k: int| 0 <= k < parents@.len() && lookup@.contains((#[trigger] parents@[k]).0),
{
    let mut k: usize = 0;
    while k < parents.len()
        invariant
            k <= parents@.len(),
            forall|j: int| 0 <= j < k ==> !lookup@.contains((#[trigger] parents@[j]).0),
        decreases parents@.len() - k,
    {
        if lookup.contains(&parents[k].0) {
            return true;
        }
        k += 1;
    }
    false
}

/// Picks from `pips`, the private commits of a push set, those without a
/// parent among them, keeping their order.
///
/// It passes over `pips` once and looks each parent up in a set made of `pips`.
pub fn find_private_roots(graph: &CommitGraph, pips: &Vec<CommitId>) -> (roots: Vec<CommitId>)
    requires
        graph.wf(),
    ensures
        roots@ == private_roots(graph@, pips@),
{
    let lookup = id_set(pips);
    let mut roots: Vec<CommitId> = Vec::new();
    let mut i: usize = 0;
    let ghost keep = |c: CommitId| no_private_parent(graph@, pips@, c);
    proof {
        reveal(Seq::filter);
    }
    while i < pips.len()
        invariant
            graph.wf(),
            i <= pips@.len(),
            keep == |c: CommitId| no_private_parent(graph@, pips@, c),
            forall|c: CommitId| lookup@.contains(c.0) <==> pips@.contains(c),
            roots@ == pips@.take(i as int).filter(keep),
        decreases pips@.len() - i,
    {
        let c = pips[i];
        proof {
            reveal(Seq::filter);
            assert(pips@.take(i + 1).drop_last() =~= pips@.take(i as int));
            assert(pips@.take(i + 1).last() == c);
        }
        let has_private_parent = match graph.position(c) {
            Some(pos) => any_in(graph.parents_at(pos), &lookup),
            None => {
                assert(graph@.parents_of(c).len() == 0);
                false
            },
        };
        proof {
            let ps = graph@.parents_of(c);
            if has_private_parent {
                let k = choose|k: int| 0 <= k < ps.len() && lookup@.contains((#[trigger] ps[k]).0);
                assert(pips@.contains(graph@.parents_of(c)[k]));
            } else {
                assert forall|k: int| 0 <= k < ps.len() implies !pips@.contains(
                    #[trigger] graph@.parents_of(c)[k],
                ) by {
                    assert(!lookup@.contains(ps[k].0));
                }
            }
            assert(has_private_parent == !keep(c));
        }
        if !has_private_parent {
            roots.push(c);
        }
        i += 1;
    }
    proof {
        assert(pips@.take(pips@.len() as int) =~= pips@);
    }
    roots
}

/// The decision of the privacy gate.
#[derive(Clone, Debug, PartialEq, Eq)]
pub enum Gate {
    /// The push may go ahead.
    Passed,
    /// The push is refused; these are the private roots.
    Rejected { private_roots: Vec<CommitId> },
}

/// Runs the privacy gate over `push_set`, the union of what a remote is to be sent.
///
/// `private` is what the private-commits predicate matched in the whole
/// graph. With `allow_private` it passes whatever the push set holds.
pub fn check_gate(
    graph: &CommitGraph,
    push_set: &Vec<CommitId>,
    private: &Vec<CommitId>,
    allow_private: bool,
) -> (gate: Gate)
    requires
        graph.wf(),
    ensures
        match gate {
            Gate::Passed => gate_passes(push_set@, private@.to_set(), allow_private),
            Gate::Rejected { private_roots: roots } => !gate_passes(
                push_set@,
                private@.to_set(),
                allow_private,
            ) && roots@ == private_roots(
                graph@,
                private_in_push_set(push_set@, private@.to_set()),
            ),
        },
{
    if allow_private {
        return Gate::Passed;
    }
    let pips = filter_private(push_set, private);
    if pips.len() == 0 {
        return Gate::Passed;
    }
    let roots = find_private_roots(graph, &pips);
    Gate::Rejected { private_roots: roots }
}

} // verus!
