//! Traversal of the commit graph along parent edges.
//!
//! The traversal keeps an explicit work list, which is the not yet expanded
//! tail of what it has discovered, and never expands a commit of the stop set.
//! [`discovery_order`] says in which order it finds the commits;
//! [`lemma_discovery_order`] says which commits those are.

use crate::commit::CommitId;
use crate::graph::{CommitGraph, GraphModel};
use vstd::prelude::*;
use vstd::seq_lib::seq_to_set_is_finite;
use vstd::set_lib::lemma_len_subset;

verus! {

/// The traversal may take `c` in: the graph holds it, it is not stopped at and
/// it has not been seen.
pub open spec fn eligible(
    g: GraphModel,
    stop: Set<CommitId>,
    seen: Seq<CommitId>,
    c: CommitId,
) -> bool {
    g.contains(c) && !stop.contains(c) && !seen.contains(c)
}

/// `seen`, followed by the eligible commits of `cands` in their order, each once.
pub open spec fn absorb(
    g: GraphModel,
    stop: Set<CommitId>,
    seen: Seq<CommitId>,
    cands: Seq<CommitId>,
) -> Seq<CommitId>
    decreases cands.len(),
{
    if cands.len() == 0 {
        seen
    } else {
        let sofar = absorb(g, stop, seen, cands.drop_last());
        if eligible(g, stop, sofar, cands.last()) {
            sofar.push(cands.last())
        } else {
            sofar
        }
    }
}

/// What the traversal has discovered when it has expanded every commit from
/// position `head` on: expanding a commit appends its eligible parents.
pub open spec fn expand(
    g: GraphModel,
    stop: Set<CommitId>,
    seen: Seq<CommitId>,
    head: int,
) -> Seq<CommitId>
    decreases g.ids.len() - head,
{
    if 0 <= head < seen.len() && head < g.ids.len() {
        expand(g, stop, absorb(g, stop, seen, g.parents_of(seen[head])), head + 1)
    } else {
        seen
    }
}

/// The commits found from `starts` without entering `stop`, breadth first:
/// the starts in their order, then the parents of each commit found, in the
/// order in which the commit lists them.
pub open spec fn discovery_order(
    g: GraphModel,
    starts: Seq<CommitId>,
    stop: Set<CommitId>,
) -> Seq<CommitId> {
    expand(g, stop, absorb(g, stop, Seq::empty(), starts), 0)
}

/// `path` leads from one of `starts` along parent edges, through commits of
/// the graph only and through none of `stop`.
pub open spec fn is_clear_path(
    g: GraphModel,
    starts: Seq<CommitId>,
    stop: Set<CommitId>,
    path: Seq<CommitId>,
) -> bool {
    &&& path.len() > 0
    &&& starts.contains(path[0])
    &&& g.is_chain(path)
    &&& forall|i: int|
        0 <= i < path.len() ==> g.contains(#[trigger] path[i]) && !stop.contains(path[i])
}

/// Some clear path leads from `starts` to `c`.
pub open spec fn reaches(
    g: GraphModel,
    starts: Seq<CommitId>,
    stop: Set<CommitId>,
    c: CommitId,
) -> bool {
    exists|path: Seq<CommitId>| #[trigger]
        is_clear_path(g, starts, stop, path) && path.last() == c
}

/// Nothing occurs twice in `seen`, and a clear path leads to each of its commits.
pub open spec fn sound(
    g: GraphModel,
    starts: Seq<CommitId>,
    stop: Set<CommitId>,
    seen: Seq<CommitId>,
) -> bool {
    &&& seen.no_duplicates()
    &&& forall|j: int|
        0 <= j < seen.len() ==> g.contains(#[trigger] seen[j]) && !stop.contains(seen[j])
            && reaches(g, starts, stop, seen[j])
}

/// `seen` holds every parent outside `stop` of its first `head` commits.
pub open spec fn closed_below(
    g: GraphModel,
    stop: Set<CommitId>,
    seen: Seq<CommitId>,
    head: int,
) -> bool {
    forall|j: int, k: int|
        0 <= j < head && 0 <= k < g.parents_of(seen[j]).len() && !stop.contains(
            g.parents_of(seen[j])[k],
        ) ==> seen.contains(#[trigger] g.parents_of(seen[j])[k])
}

/// `seen` holds every one of `starts` that the graph holds outside `stop`.
pub open spec fn holds_starts(
    g: GraphModel,
    starts: Seq<CommitId>,
    stop: Set<CommitId>,
    seen: Seq<CommitId>,
) -> bool {
    forall|k: int|
        0 <= k < starts.len() && g.contains(#[trigger] starts[k]) && !stop.contains(starts[k])
            ==> seen.contains(starts[k])
}

/// In a well-formed graph the parents of a commit are commits of the graph.
pub proof fn lemma_parent_contained(g: GraphModel, c: CommitId, k: int)
    requires
        g.wf(),
        0 <= k < g.parents_of(c).len(),
    ensures
        g.contains(c),
        g.contains(g.parents_of(c)[k]),
        g.is_parent(g.parents_of(c)[k], c),
{
    assert(g.parents.contains_key(c));
    assert(g.ids.contains(c));
    let i = choose|i: int| 0 <= i < g.ids.len() && g.ids[i] == c;
    let p = g.parents[g.ids[i]][k];
    assert(g.added_before(p, i));
}

/// A sequence of distinct commits of a graph is no longer than the graph.
pub proof fn lemma_bounded(g: GraphModel, seen: Seq<CommitId>)
    requires
        g.wf(),
        seen.no_duplicates(),
        forall|j: int| 0 <= j < seen.len() ==> g.contains(#[trigger] seen[j]),
    ensures
        seen.len() <= g.ids.len(),
{
    seen.unique_seq_to_set();
    g.ids.unique_seq_to_set();
    seq_to_set_is_finite(g.ids);
    assert(seen.to_set().subset_of(g.ids.to_set())) by {
        assert forall|c: CommitId| seen.to_set().contains(c) implies g.ids.to_set().contains(
            c,
        ) by {
            let j = choose|j: int| 0 <= j < seen.len() && seen[j] == c;
            assert(g.contains(seen[j]));
        }
    }
    lemma_len_subset(seen.to_set(), g.ids.to_set());
}

/// A clear path to a commit goes on to each parent of it outside `stop`.
pub proof fn lemma_reach_step(
    g: GraphModel,
    starts: Seq<CommitId>,
    stop: Set<CommitId>,
    c: CommitId,
    k: int,
)
    requires
        g.wf(),
        reaches(g, starts, stop, c),
        0 <= k < g.parents_of(c).len(),
        !stop.contains(g.parents_of(c)[k]),
    ensures
        reaches(g, starts, stop, g.parents_of(c)[k]),
{
    let p = g.parents_of(c)[k];
    lemma_parent_contained(g, c, k);
    let path = choose|path: Seq<CommitId>| #[trigger]
        is_clear_path(g, starts, stop, path) && path.last() == c;
    let longer = path.push(p);
    assert(longer[0] == path[0]);
    assert(g.is_chain(longer)) by {
        assert forall|i: int| 0 < i < longer.len() implies g.is_parent(
            #[trigger] longer[i],
            longer[i - 1],
        ) by {
            if i < path.len() {
                assert(g.is_parent(path[i], path[i - 1]));
            }
        }
    }
    assert forall|i: int| 0 <= i < longer.len() implies g.contains(#[trigger] longer[i])
        && !stop.contains(longer[i]) by {
        if i < path.len() {
            assert(g.contains(path[i]) && !stop.contains(path[i]));
        }
    }
    assert(is_clear_path(g, starts, stop, longer) && longer.last() == p);
}

/// What `absorb` keeps and what it adds.
pub proof fn lemma_absorb(
    g: GraphModel,
    stop: Set<CommitId>,
    starts: Seq<CommitId>,
    seen: Seq<CommitId>,
    cands: Seq<CommitId>,
)
    requires
        g.wf(),
        sound(g, starts, stop, seen),
        forall|k: int|
            0 <= k < cands.len() && g.contains(#[trigger] cands[k]) && !stop.contains(cands[k])
                ==> reaches(g, starts, stop, cands[k]),
    ensures
        sound(g, starts, stop, absorb(g, stop, seen, cands)),
        seen.is_prefix_of(absorb(g, stop, seen, cands)),
        forall|k: int|
            0 <= k < cands.len() && g.contains(#[trigger] cands[k]) && !stop.contains(cands[k])
                ==> absorb(g, stop, seen, cands).contains(cands[k]),
    decreases cands.len(),
{
    let r = absorb(g, stop, seen, cands);
    if cands.len() > 0 {
        let init = cands.drop_last();
        let c = cands.last();
        let sofar = absorb(g, stop, seen, init);
        assert forall|k: int|
            0 <= k < init.len() && g.contains(#[trigger] init[k]) && !stop.contains(
                init[k],
            ) implies reaches(g, starts, stop, init[k]) by {
            assert(init[k] == cands[k]);
        }
        lemma_absorb(g, stop, starts, seen, init);
        assert(sofar.is_prefix_of(r));
        assert forall|j: int| 0 <= j < r.len() implies g.contains(#[trigger] r[j])
            && !stop.contains(r[j]) && reaches(g, starts, stop, r[j]) by {
            if j < sofar.len() {
                assert(r[j] == sofar[j]);
            } else {
                assert(r[j] == cands[cands.len() - 1]);
            }
        }
        assert forall|k: int|
            0 <= k < cands.len() && g.contains(#[trigger] cands[k]) && !stop.contains(
                cands[k],
            ) implies r.contains(cands[k]) by {
            if k < init.len() {
                assert(init[k] == cands[k]);
                assert(sofar.contains(init[k]));
                let j = choose|j: int| 0 <= j < sofar.len() && sofar[j] == cands[k];
                assert(r[j] == cands[k]);
            } else {
                if sofar.contains(c) {
                    let j = choose|j: int| 0 <= j < sofar.len() && sofar[j] == c;
                    assert(r[j] == c);
                } else {
                    assert(r[sofar.len() as int] == c);
                }
            }
        }
    }
}

/// What `expand` keeps and what it reaches: its result is closed under
/// parents outside `stop`.
pub proof fn lemma_expand(
    g: GraphModel,
    stop: Set<CommitId>,
    starts: Seq<CommitId>,
    seen: Seq<CommitId>,
    head: int,
)
    requires
        g.wf(),
        sound(g, starts, stop, seen),
        0 <= head <= seen.len(),
        closed_below(g, stop, seen, head),
    ensures
        sound(g, starts, stop, expand(g, stop, seen, head)),
        seen.is_prefix_of(expand(g, stop, seen, head)),
        closed_below(
            g,
            stop,
            expand(g, stop, seen, head),
            expand(g, stop, seen, head).len() as int,
        ),
    decreases g.ids.len() - head,
{
    lemma_bounded(g, seen);
    if head < seen.len() {
        let c = seen[head];
        let cands = g.parents_of(c);
        assert forall|k: int|
            0 <= k < cands.len() && g.contains(#[trigger] cands[k]) && !stop.contains(
                cands[k],
            ) implies reaches(g, starts, stop, cands[k]) by {
            lemma_reach_step(g, starts, stop, c, k);
        }
        lemma_absorb(g, stop, starts, seen, cands);
        let next = absorb(g, stop, seen, cands);
        assert(closed_below(g, stop, next, head + 1)) by {
            assert forall|j: int, k: int|
                0 <= j < head + 1 && 0 <= k < g.parents_of(next[j]).len() && !stop.contains(
                    g.parents_of(next[j])[k],
                ) implies next.contains(#[trigger] g.parents_of(next[j])[k]) by {
                assert(next[j] == seen[j]);
                let p = g.parents_of(seen[j])[k];
                if j < head {
                    assert(seen.contains(p));
                    let i = choose|i: int| 0 <= i < seen.len() && seen[i] == p;
                    assert(next[i] == p);
                } else {
                    lemma_parent_contained(g, c, k);
                    assert(cands[k] == p);
                }
            }
        }
        lemma_expand(g, stop, starts, next, head + 1);
    }
}

/// A set that holds the eligible starts and is closed under parents outside
/// `stop` holds every commit of every clear path.
pub proof fn lemma_closed_holds_path(
    g: GraphModel,
    starts: Seq<CommitId>,
    stop: Set<CommitId>,
    seen: Seq<CommitId>,
    path: Seq<CommitId>,
    i: int,
)
    requires
        g.wf(),
        holds_starts(g, starts, stop, seen),
        closed_below(g, stop, seen, seen.len() as int),
        is_clear_path(g, starts, stop, path),
        0 <= i < path.len(),
    ensures
        seen.contains(path[i]),
    decreases i,
{
    if i == 0 {
        let k = choose|k: int| 0 <= k < starts.len() && starts[k] == path[0];
        assert(g.contains(path[0]) && !stop.contains(path[0]));
        assert(seen.contains(starts[k]));
    } else {
        lemma_closed_holds_path(g, starts, stop, seen, path, i - 1);
        let j = choose|j: int| 0 <= j < seen.len() && seen[j] == path[i - 1];
        assert(g.is_parent(path[i], path[i - 1]));
        let ps = g.parents_of(seen[j]);
        let k = choose|k: int| 0 <= k < ps.len() && ps[k] == path[i];
        assert(g.contains(path[i]) && !stop.contains(path[i]));
        assert(seen.contains(g.parents_of(seen[j])[k]));
    }
}

/// The traversal finds each commit once, and finds exactly the commits to
/// which a clear path leads from the starts.
pub proof fn lemma_discovery_order(g: GraphModel, starts: Seq<CommitId>, stop: Set<CommitId>)
    requires
        g.wf(),
    ensures
        discovery_order(g, starts, stop).no_duplicates(),
        discovery_order(g, starts, stop).len() <= g.ids.len(),
        forall|c: CommitId| #[trigger]
            discovery_order(g, starts, stop).contains(c) <==> reaches(g, starts, stop, c),
{
    let empty = Seq::<CommitId>::empty();
    let first = absorb(g, stop, empty, starts);
    let order = discovery_order(g, starts, stop);
    assert forall|k: int|
        0 <= k < starts.len() && g.contains(#[trigger] starts[k]) && !stop.contains(
            starts[k],
        ) implies reaches(g, starts, stop, starts[k]) by {
        let path = seq![starts[k]];
        assert(is_clear_path(g, starts, stop, path) && path.last() == starts[k]);
    }
    lemma_absorb(g, stop, starts, empty, starts);
    lemma_expand(g, stop, starts, first, 0);
    lemma_bounded(g, order);
    assert(holds_starts(g, starts, stop, order)) by {
        assert forall|k: int|
            0 <= k < starts.len() && g.contains(#[trigger] starts[k]) && !stop.contains(
                starts[k],
            ) implies order.contains(starts[k]) by {
            assert(first.contains(starts[k]));
            let j = choose|j: int| 0 <= j < first.len() && first[j] == starts[k];
            assert(order[j] == starts[k]);
        }
    }
    assert forall|c: CommitId| #[trigger] order.contains(c) <==> reaches(g, starts, stop, c) by {
        if reaches(g, starts, stop, c) {
            let path = choose|path: Seq<CommitId>| #[trigger]
                is_clear_path(g, starts, stop, path) && path.last() == c;
            lemma_closed_holds_path(g, starts, stop, order, path, path.len() - 1);
        }
        if order.contains(c) {
            let j = choose|j: int| 0 <= j < order.len() && order[j] == c;
            assert(reaches(g, starts, stop, order[j]));
        }
    }
}

/// The commit at position `j` of `seen` is a parent of a commit before it.
pub open spec fn follows_child(g: GraphModel, seen: Seq<CommitId>, j: int) -> bool {
    exists|i: int| 0 <= i < j && g.is_parent(seen[j], #[trigger] seen[i])
}

/// Each commit of `seen` is one of `starts` or follows a commit of which it
/// is a parent.
pub open spec fn parents_follow(g: GraphModel, starts: Seq<CommitId>, seen: Seq<CommitId>) -> bool {
    forall|j: int|
        0 <= j < seen.len() ==> starts.contains(#[trigger] seen[j]) || follows_child(g, seen, j)
}

/// `absorb` appends to `seen`, and appends commits of `cands` only.
pub proof fn lemma_absorb_extends(
    g: GraphModel,
    stop: Set<CommitId>,
    seen: Seq<CommitId>,
    cands: Seq<CommitId>,
)
    ensures
        seen.is_prefix_of(absorb(g, stop, seen, cands)),
        forall|j: int|
            seen.len() <= j < absorb(g, stop, seen, cands).len() ==> cands.contains(
                #[trigger] absorb(g, stop, seen, cands)[j],
            ),
    decreases cands.len(),
{
    let r = absorb(g, stop, seen, cands);
    if cands.len() > 0 {
        let init = cands.drop_last();
        let sofar = absorb(g, stop, seen, init);
        lemma_absorb_extends(g, stop, seen, init);
        assert(sofar.is_prefix_of(r));
        assert forall|j: int| seen.len() <= j < r.len() implies cands.contains(
            #[trigger] r[j],
        ) by {
            if j < sofar.len() {
                assert(r[j] == sofar[j]);
                assert(init.contains(sofar[j]));
                let k = choose|k: int| 0 <= k < init.len() && init[k] == sofar[j];
                assert(cands[k] == r[j]);
            } else {
                assert(r[j] == cands[cands.len() - 1]);
            }
        }
    }
}

/// Expanding keeps each commit behind a commit of which it is a parent.
pub proof fn lemma_expand_parents_follow(
    g: GraphModel,
    stop: Set<CommitId>,
    starts: Seq<CommitId>,
    seen: Seq<CommitId>,
    head: int,
)
    requires
        parents_follow(g, starts, seen),
    ensures
        parents_follow(g, starts, expand(g, stop, seen, head)),
    decreases g.ids.len() - head,
{
    if 0 <= head < seen.len() && head < g.ids.len() {
        let cands = g.parents_of(seen[head]);
        let next = absorb(g, stop, seen, cands);
        lemma_absorb_extends(g, stop, seen, cands);
        assert forall|j: int| 0 <= j < next.len() implies starts.contains(#[trigger] next[j])
            || follows_child(g, next, j) by {
            if j < seen.len() {
                assert(next[j] == seen[j]);
                if !starts.contains(seen[j]) {
                    let i = choose|i: int| 0 <= i < j && g.is_parent(seen[j], #[trigger] seen[i]);
                    assert(next[i] == seen[i]);
                }
            } else {
                assert(cands.contains(next[j]));
                assert(next[head] == seen[head]);
                assert(g.is_parent(next[j], next[head]));
            }
        }
        lemma_expand_parents_follow(g, stop, starts, next, head + 1);
    }
}

/// The order of discovery: each commit found is one of the starts or comes
/// after a commit found of which it is a parent.
pub proof fn lemma_parents_follow(g: GraphModel, starts: Seq<CommitId>, stop: Set<CommitId>)
    ensures
        parents_follow(g, starts, discovery_order(g, starts, stop)),
{
    let first = absorb(g, stop, Seq::empty(), starts);
    lemma_absorb_extends(g, stop, Seq::empty(), starts);
    lemma_expand_parents_follow(g, stop, starts, first, 0);
}

/// `marks` says of each position of the graph whether `set` holds its commit.
pub open spec fn marks_match(g: GraphModel, marks: Seq<bool>, set: Set<CommitId>) -> bool {
    &&& marks.len() == g.ids.len()
    &&& forall|i: int|
        #![trigger marks[i]]
        #![trigger g.ids[i]]
        0 <= i < g.ids.len() ==> (marks[i] <==> set.contains(g.ids[i]))
}

/// What a traversal found.
pub(crate) struct Found {
    /// The commits, in the order of discovery.
    pub order: Vec<CommitId>,
    /// For each position of the graph, whether its commit was found.
    pub marks: Vec<bool>,
}

/// A vector of `n` marks, none of them set.
pub fn no_marks(n: usize) -> (marks: Vec<bool>)
    ensures
        marks@.len() == n,
        forall|i: int| 0 <= i < n ==> !marks@[i],
{
    let mut marks: Vec<bool> = Vec::new();
    let mut i: usize = 0;
    while i < n
        invariant
            i <= n,
            marks@.len() == i,
            forall|j: int| 0 <= j < i ==> !marks@[j],
        decreases n - i,
    {
        marks.push(false);
        i += 1;
    }
    marks
}

/// Appends to `order` the eligible commits of `cands`, and marks them.
fn absorb_into(
    graph: &CommitGraph,
    stop_marks: &Vec<bool>,
    cands: &Vec<CommitId>,
    marks: &mut Vec<bool>,
    order: &mut Vec<CommitId>,
    Ghost(stop): Ghost<Set<CommitId>>,
)
    requires
        graph.wf(),
        marks_match(graph@, stop_marks@, stop),
        marks_match(graph@, old(marks)@, old(order)@.to_set()),
    ensures
        final(order)@ == absorb(graph@, stop, old(order)@, cands@),
        marks_match(graph@, final(marks)@, final(order)@.to_set()),
{
    let mut k: usize = 0;
    while k < cands.len()
        invariant
            graph.wf(),
            marks_match(graph@, stop_marks@, stop),
            marks_match(graph@, marks@, order@.to_set()),
            k <= cands@.len(),
            order@ == absorb(graph@, stop, old(order)@, cands@.take(k as int)),
        decreases cands@.len() - k,
    {
        let c = cands[k];
        let ghost before = order@;
        proof {
            assert(cands@.take(k + 1).drop_last() =~= cands@.take(k as int));
            assert(cands@.take(k + 1).last() == c);
        }
        match graph.position(c) {
            Some(pos) => {
                if !stop_marks[pos] && !marks[pos] {
                    marks.set(pos, true);
                    order.push(c);
                    proof {
                        assert(!before.to_set().contains(c));
                        assert forall|i: int|
                            #![trigger marks@[i]]
                            #![trigger graph@.ids[i]]
                            0 <= i < graph@.ids.len() implies (marks@[i] <==> order@.to_set().contains(
                            graph@.ids[i],
                        )) by {
                            let x = graph@.ids[i];
                            if i == pos {
                                assert(order@[before.len() as int] == x);
                            } else {
                                assert(x != c);
                                if before.contains(x) {
                                    let j = choose|j: int| 0 <= j < before.len() && before[j] == x;
                                    assert(order@[j] == x);
                                }
                                if order@.contains(x) {
                                    let j = choose|j: int| 0 <= j < order@.len() && order@[j] == x;
                                    assert(before[j] == x);
                                }
                            }
                        }
                    }
                } else {
                    assert(stop.contains(c) || before.to_set().contains(c));
                }
            },
            None => {},
        }
        k += 1;
    }
    assert(cands@.take(cands@.len() as int) =~= cands@);
}

/// Walks the graph from `starts` along parent edges, stopping at the commits
/// that `stop_marks` marks.
pub(crate) fn walk(
    graph: &CommitGraph,
    starts: &Vec<CommitId>,
    stop_marks: &Vec<bool>,
    Ghost(stop): Ghost<Set<CommitId>>,
) -> (found: Found)
    requires
        graph.wf(),
        marks_match(graph@, stop_marks@, stop),
    ensures
        found.order@ == discovery_order(graph@, starts@, stop),
        marks_match(graph@, found.marks@, found.order@.to_set()),
{
    let mut marks = no_marks(graph.len());
    let mut order: Vec<CommitId> = Vec::new();
    proof {
        assert forall|k: int|
            0 <= k < starts@.len() && graph@.contains(#[trigger] starts@[k]) && !stop.contains(
                starts@[k],
            ) implies reaches(graph@, starts@, stop, starts@[k]) by {
            let path = seq![starts@[k]];
            assert(is_clear_path(graph@, starts@, stop, path) && path.last() == starts@[k]);
        }
        lemma_absorb(graph@, stop, starts@, order@, starts@);
    }
    absorb_into(graph, stop_marks, starts, &mut marks, &mut order, Ghost(stop));
    let mut head: usize = 0;
    while head < order.len()
        invariant
            graph.wf(),
            marks_match(graph@, stop_marks@, stop),
            marks_match(graph@, marks@, order@.to_set()),
            sound(graph@, starts@, stop, order@),
            head <= order@.len(),
            expand(graph@, stop, order@, head as int) == discovery_order(graph@, starts@, stop),
        decreases graph@.ids.len() - head,
    {
        let c = order[head];
        proof {
            lemma_bounded(graph@, order@);
            assert(graph@.contains(order@[head as int]));
        }
        match graph.position(c) {
            Some(pos) => {
                let parents = graph.parents_at(pos);
                proof {
                    assert forall|k: int|
                        0 <= k < parents@.len() && graph@.contains(#[trigger] parents@[k])
                            && !stop.contains(parents@[k]) implies reaches(
                        graph@,
                        starts@,
                        stop,
                        parents@[k],
                    ) by {
                        lemma_reach_step(graph@, starts@, stop, c, k);
                    }
                    lemma_absorb(graph@, stop, starts@, order@, parents@);
                }
                absorb_into(graph, stop_marks, parents, &mut marks, &mut order, Ghost(stop));
            },
            None => {},
        }
        head += 1;
    }
    proof {
        lemma_bounded(graph@, order@);
    }
    Found { order, marks }
}

} // verus!
