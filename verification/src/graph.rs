//! The commit graph: an append-only arena of commits with an index by id.
//!
//! Contracts speak of the graph through its model, [`GraphModel`]: the ids in
//! the order in which they were added, and the parents of each.

use crate::commit::{Commit, CommitId};
use std::collections::HashMap;
use vstd::prelude::*;

verus! {

broadcast use vstd::std_specs::hash::group_hash_axioms;

/// Mathematical model of a commit graph.
pub struct GraphModel {
    /// The commits' ids, in the order in which they were added.
    pub ids: Seq<CommitId>,
    /// The ordered parents of each commit.
    pub parents: Map<CommitId, Seq<CommitId>>,
    /// The description of each commit.
    pub descriptions: Map<CommitId, Seq<char>>,
    /// Of each commit, whether it changes nothing.
    pub empties: Map<CommitId, bool>,
}

impl GraphModel {
    /// `id` names a commit of this graph.
    pub open spec fn contains(self, id: CommitId) -> bool {
        self.ids.contains(id)
    }

    /// The ordered parents of `id`; empty where the graph does not hold `id`.
    pub open spec fn parents_of(self, id: CommitId) -> Seq<CommitId> {
        if self.parents.contains_key(id) {
            self.parents[id]
        } else {
            Seq::empty()
        }
    }

    /// `parent` is one of the parents of `child`.
    pub open spec fn is_parent(self, parent: CommitId, child: CommitId) -> bool {
        self.parents_of(child).contains(parent)
    }

    /// Each commit of `path` after the first is a parent of the one before it.
    pub open spec fn is_chain(self, path: Seq<CommitId>) -> bool {
        forall|i: int| 0 < i < path.len() ==> self.is_parent(#[trigger] path[i], path[i - 1])
    }

    /// `a` is `b` itself or can be reached from `b` along parent edges.
    pub open spec fn is_ancestor(self, a: CommitId, b: CommitId) -> bool {
        exists|path: Seq<CommitId>| #[trigger]
            self.is_chain(path) && path.len() > 0 && path[0] == b && path.last() == a
    }

    /// Every commit is recorded once, has its parents recorded, and was added
    /// after each of them: the graph is finite and free of cycles.
    pub open spec fn wf(self) -> bool {
        &&& self.ids.no_duplicates()
        &&& forall|c: CommitId|
            #![trigger self.parents.contains_key(c)]
            #![trigger self.ids.contains(c)]
            self.parents.contains_key(c) <==> self.ids.contains(c)
        &&& self.descriptions.dom() == self.parents.dom()
        &&& self.empties.dom() == self.parents.dom()
        &&& forall|i: int, k: int|
            #![trigger self.parents[self.ids[i]][k]]
            0 <= i < self.ids.len() && 0 <= k < self.parents[self.ids[i]].len()
                ==> self.added_before(self.parents[self.ids[i]][k], i)
    }

    /// `id` is among the first `i` commits that were added.
    pub open spec fn added_before(self, id: CommitId, i: int) -> bool {
        exists|j: int| 0 <= j < i && #[trigger] self.ids[j] == id
    }
}

/// Why a commit could not be added to a graph.
#[derive(Clone, Copy, Debug, PartialEq, Eq, Structural)]
pub enum GraphError {
    /// The graph already holds a commit with this id.
    DuplicateCommit,
    /// One of the parents is not in the graph.
    UnknownParent,
}

/// A snapshot of the local commit graph.
pub struct CommitGraph {
    commits: Vec<Commit>,
    index: HashMap<u64, usize>,
}

impl View for CommitGraph {
    type V = GraphModel;

    closed spec fn view(&self) -> GraphModel {
        GraphModel {
            ids: Seq::new(self.commits@.len(), |i: int| self.commits@[i].id),
            parents: Map::new(
                |c: CommitId| self.index@.contains_key(c.0),
                |c: CommitId| self.commits@[self.index@[c.0] as int].parents@,
            ),
            descriptions: Map::new(
                |c: CommitId| self.index@.contains_key(c.0),
                |c: CommitId| self.commits@[self.index@[c.0] as int].description@,
            ),
            empties: Map::new(
                |c: CommitId| self.index@.contains_key(c.0),
                |c: CommitId| self.commits@[self.index@[c.0] as int].is_empty,
            ),
        }
    }
}

impl CommitGraph {
    /// The index and the arena agree.
    pub closed spec fn index_agrees(&self) -> bool {
        &&& forall|i: int|
            0 <= i < self.commits@.len() ==> self.index@.contains_key(
                (#[trigger] self.commits@[i]).id.0,
            ) && self.index@[self.commits@[i].id.0] == i
        &&& forall|k: u64| #[trigger]
            self.index@.contains_key(k) ==> self.index@[k] < self.commits@.len()
                && self.commits@[self.index@[k] as int].id.0 == k
    }

    /// Validity of a graph: its model is well formed and its index is sound.
    pub open spec fn wf(&self) -> bool {
        self@.wf() && self.index_agrees()
    }

    /// An empty graph.
    pub fn new() -> (g: CommitGraph)
        ensures
            g.wf(),
            g@.ids == Seq::<CommitId>::empty(),
            g@.parents == Map::<CommitId, Seq<CommitId>>::empty(),
            g@.descriptions == Map::<CommitId, Seq<char>>::empty(),
            g@.empties == Map::<CommitId, bool>::empty(),
    {
        let g = CommitGraph { commits: Vec::new(), index: HashMap::new() };
        assert(g@.ids =~= Seq::<CommitId>::empty());
        assert(g@.parents =~= Map::<CommitId, Seq<CommitId>>::empty());
        assert(g@.descriptions =~= Map::<CommitId, Seq<char>>::empty());
        assert(g@.empties =~= Map::<CommitId, bool>::empty());
        assert(g@.descriptions.dom() =~= g@.parents.dom());
        assert(g@.empties.dom() =~= g@.parents.dom());
        g
    }

    /// Number of commits.
    pub fn len(&self) -> (n: usize)
        ensures
            n == self@.ids.len(),
    {
        self.commits.len()
    }

    /// Position of `id` in the order of addition, if the graph holds it.
    pub fn position(&self, id: CommitId) -> (r: Option<usize>)
        requires
            self.wf(),
        ensures
            match r {
                Some(i) => i < self@.ids.len() && self@.ids[i as int] == id,
                None => !self@.contains(id),
            },
    {
        match self.index.get(&id.0) {
            Some(p) => Some(*p),
            None => {
                assert(!self@.ids.contains(id)) by {
                    if self@.ids.contains(id) {
                        let i = choose|i: int| 0 <= i < self@.ids.len() && self@.ids[i] == id;
                        assert(self.commits@[i].id == id);
                    }
                }
                None
            },
        }
    }

    /// Whether the graph holds `id`.
    pub fn contains(&self, id: CommitId) -> (r: bool)
        requires
            self.wf(),
        ensures
            r == self@.contains(id),
    {
        self.position(id).is_some()
    }

    /// The id of the commit at position `i`.
    pub fn id_at(&self, i: usize) -> (id: CommitId)
        requires
            i < self@.ids.len(),
        ensures
            id == self@.ids[i as int],
    {
        self.commits[i].id
    }

    /// The parents of the commit at position `i`.
    pub fn parents_at(&self, i: usize) -> (r: &Vec<CommitId>)
        requires
            self.wf(),
            i < self@.ids.len(),
        ensures
            r@ == self@.parents_of(self@.ids[i as int]),
    {
        &self.commits[i].parents
    }

    /// The ordered parents of the commit named `id`, if the graph holds it.
    pub fn parents(&self, id: CommitId) -> (r: Option<&Vec<CommitId>>)
        requires
            self.wf(),
        ensures
            r.is_some() == self@.contains(id),
            r matches Some(parents) ==> parents@ == self@.parents_of(id),
    {
        match self.position(id) {
            Some(i) => Some(&self.commits[i].parents),
            None => None,
        }
    }

    /// The commit named `id`, as it was added, if the graph holds it.
    pub fn get(&self, id: CommitId) -> (r: Option<&Commit>)
        requires
            self.wf(),
        ensures
            r.is_some() == self@.contains(id),
            r matches Some(c) ==> {
                &&& c.id == id
                &&& c.parents@ == self@.parents_of(id)
                &&& c.description@ == self@.descriptions[id]
                &&& c.is_empty == self@.empties[id]
            },
    {
        match self.position(id) {
            Some(i) => Some(&self.commits[i]),
            None => None,
        }
    }

    /// Adds `commit`, whose parents must already be there.
    pub fn add_commit(&mut self, commit: Commit) -> (r: Result<(), GraphError>)
        requires
            old(self).wf(),
        ensures
            final(self).wf(),
            match r {
                Ok(_) => {
                    &&& !old(self)@.contains(commit.id)
                    &&& forall|k: int|
                        0 <= k < commit.parents@.len() ==> old(self)@.contains(
                            #[trigger] commit.parents@[k],
                        )
                    &&& final(self)@.ids == old(self)@.ids.push(commit.id)
                    &&& final(self)@.parents == old(self)@.parents.insert(
                        commit.id,
                        commit.parents@,
                    )
                    &&& final(self)@.descriptions == old(self)@.descriptions.insert(
                        commit.id,
                        commit.description@,
                    )
                    &&& final(self)@.empties == old(self)@.empties.insert(
                        commit.id,
                        commit.is_empty,
                    )
                },
                Err(GraphError::DuplicateCommit) => {
                    &&& old(self)@.contains(commit.id)
                    &&& final(self)@ == old(self)@
                },
                Err(GraphError::UnknownParent) => {
                    &&& !old(self)@.contains(commit.id)
                    &&& exists|k: int|
                        0 <= k < commit.parents@.len() && !old(self)@.contains(
                            #[trigger] commit.parents@[k],
                        )
                    &&& final(self)@ == old(self)@
                },
            },
    {
        let id = commit.id;
        if self.position(id).is_some() {
            return Err(GraphError::DuplicateCommit);
        }
        let mut k: usize = 0;
        while k < commit.parents.len()
            invariant
                self.wf(),
                *self == *old(self),
                k <= commit.parents@.len(),
                !self@.contains(commit.id),
                forall|j: int| 0 <= j < k ==> self@.contains(#[trigger] commit.parents@[j]),
            decreases commit.parents@.len() - k,
        {
            if self.position(commit.parents[k]).is_none() {
                assert(!self@.contains(commit.parents@[k as int]));
                return Err(GraphError::UnknownParent);
            }
            k += 1;
        }
        let pos = self.commits.len();
        self.index.insert(id.0, pos);
        self.commits.push(commit);
        proof {
            let before = old(self)@;
            let after = self@;
            assert(before.wf());
            assert(after.ids =~= before.ids.push(id));
            assert(after.parents =~= before.parents.insert(id, commit.parents@)) by {
                assert forall|c: CommitId| after.parents.contains_key(c) implies #[trigger]
                    after.parents[c] == before.parents.insert(id, commit.parents@)[c] by {
                    if c != id {
                        assert(c.0 != id.0);
                    }
                }
                assert forall|c: CommitId|
                    before.parents.insert(id, commit.parents@).contains_key(c)
                        == after.parents.contains_key(c) by {
                    if c != id {
                        assert(c.0 != id.0);
                    }
                }
            }
            assert(after.ids.no_duplicates()) by {
                assert forall|i: int, j: int|
                    0 <= i < after.ids.len() && 0 <= j < after.ids.len() && i != j
                    implies after.ids[i] != after.ids[j] by {
                    if i < before.ids.len() {
                        assert(before.contains(before.ids[i]));
                    }
                    if j < before.ids.len() {
                        assert(before.contains(before.ids[j]));
                    }
                }
            }
            assert(after.descriptions =~= before.descriptions.insert(id, commit.description@)) by {
                assert forall|c: CommitId| after.descriptions.contains_key(c) implies #[trigger]
                    after.descriptions[c] == before.descriptions.insert(
                    id,
                    commit.description@,
                )[c] by {
                    if c != id {
                        assert(c.0 != id.0);
                    }
                }
                assert forall|c: CommitId|
                    before.descriptions.insert(id, commit.description@).contains_key(c)
                        == after.descriptions.contains_key(c) by {
                    if c != id {
                        assert(c.0 != id.0);
                    }
                }
            }
            assert(after.empties =~= before.empties.insert(id, commit.is_empty)) by {
                assert forall|c: CommitId| after.empties.contains_key(c) implies #[trigger]
                    after.empties[c] == before.empties.insert(id, commit.is_empty)[c] by {
                    if c != id {
                        assert(c.0 != id.0);
                    }
                }
                assert forall|c: CommitId|
                    before.empties.insert(id, commit.is_empty).contains_key(c)
                        == after.empties.contains_key(c) by {
                    if c != id {
                        assert(c.0 != id.0);
                    }
                }
            }
            assert(after.descriptions.dom() =~= after.parents.dom());
            assert(after.empties.dom() =~= after.parents.dom());
            assert(after.wf()) by {
                assert forall|c: CommitId|
                    after.parents.contains_key(c) <==> after.ids.contains(c) by {
                    if after.ids.contains(c) {
                        let i = choose|i: int| 0 <= i < after.ids.len() && after.ids[i] == c;
                        if i < before.ids.len() {
                            assert(before.ids[i] == c);
                        }
                    }
                    if after.parents.contains_key(c) {
                        if c == id {
                            assert(after.ids[pos as int] == c);
                        } else {
                            assert(before.parents.contains_key(c));
                            let i = choose|i: int| 0 <= i < before.ids.len() && before.ids[i] == c;
                            assert(after.ids[i] == c);
                        }
                    }
                }
                assert forall|i: int, k: int|
                    #![trigger after.parents[after.ids[i]][k]]
                    0 <= i < after.ids.len() && 0 <= k < after.parents[after.ids[i]].len()
                    implies after.added_before(after.parents[after.ids[i]][k], i) by {
                    if i < before.ids.len() {
                        assert(before.ids[i] == after.ids[i]);
                        assert(before.ids.contains(before.ids[i]));
                        assert(after.ids[i] != id);
                        assert(after.parents[after.ids[i]] == before.parents[before.ids[i]]);
                        let p = before.parents[before.ids[i]][k];
                        assert(before.added_before(p, i));
                        let j = choose|j: int| 0 <= j < i && before.ids[j] == p;
                        assert(after.ids[j] == before.ids[j]);
                    } else {
                        let p = commit.parents@[k];
                        assert(before.contains(p));
                        let j = choose|j: int| 0 <= j < before.ids.len() && before.ids[j] == p;
                        assert(after.ids[j] == p);
                    }
                }
            }
        }
        Ok(())
    }
}

} // verus!
