//! What this process knows of each remote: the target of each tracked
//! bookmark as last seen there, and commits that the remote is known to hold.

use crate::ancestry::{ancestors, closure};
use crate::commit::CommitId;
use crate::graph::CommitGraph;
use vstd::prelude::*;

verus! {

/// A bookmark as last seen on a remote.
#[derive(Clone, Debug, PartialEq, Eq)]
pub struct RemoteBookmarkState {
    pub name: String,
    /// The target last seen; `None` where the bookmark was never seen there.
    pub known_target: Option<CommitId>,
}

/// The tracking state of one remote.
#[derive(Clone, Debug, PartialEq, Eq)]
pub struct RemoteState {
    pub name: String,
    pub bookmarks: Vec<RemoteBookmarkState>,
    /// Commits that earlier fetches and pushes have shown to be on the remote.
    pub known_heads: Vec<CommitId>,
}

/// The tracking state of all remotes, keyed by remote name.
#[derive(Clone, Debug, PartialEq, Eq)]
pub struct RemoteTrackingStore {
    pub remotes: Vec<RemoteState>,
}

/// The target recorded for the first bookmark named `name`.
pub open spec fn known_target_in(
    bookmarks: Seq<RemoteBookmarkState>,
    name: Seq<char>,
) -> Option<CommitId>
    decreases bookmarks.len(),
{
    if bookmarks.len() == 0 {
        None
    } else if bookmarks[0].name@ == name {
        bookmarks[0].known_target
    } else {
        known_target_in(bookmarks.drop_first(), name)
    }
}

/// The targets recorded for `bookmarks`, in their order.
pub open spec fn tracked_targets(bookmarks: Seq<RemoteBookmarkState>) -> Seq<CommitId>
    decreases bookmarks.len(),
{
    if bookmarks.len() == 0 {
        Seq::empty()
    } else {
        let before = tracked_targets(bookmarks.drop_last());
        match bookmarks.last().known_target {
            Some(t) => before.push(t),
            None => before,
        }
    }
}

/// The first state recorded under the remote name `name`.
pub open spec fn find_remote(remotes: Seq<RemoteState>, name: Seq<char>) -> Option<RemoteState>
    decreases remotes.len(),
{
    if remotes.len() == 0 {
        None
    } else if remotes[0].name@ == name {
        Some(remotes[0])
    } else {
        find_remote(remotes.drop_first(), name)
    }
}

/// Whether a state is recorded under the remote name `name`.
pub open spec fn is_named(name: Seq<char>) -> spec_fn(RemoteState) -> bool {
    |state: RemoteState| state.name@ == name
}

/// The states recorded under the remote name `name`, in their order.
pub open spec fn entries_named(remotes: Seq<RemoteState>, name: Seq<char>) -> Seq<RemoteState> {
    remotes.filter(is_named(name))
}

/// What the store says of a remote is read from the states recorded under
/// that remote's name and from nothing else.
pub proof fn lemma_find_remote_reads_own_entries(remotes: Seq<RemoteState>, name: Seq<char>)
    ensures
        find_remote(remotes, name) == find_remote(entries_named(remotes, name), name),
    decreases remotes.len(),
{
    let own = is_named(name);
    if remotes.len() > 0 {
        let rest = remotes.drop_first();
        assert(remotes =~= seq![remotes[0]] + rest);
        rest.lemma_filter_prepend(remotes[0], own);
        lemma_find_remote_reads_own_entries(rest, name);
        if remotes[0].name@ == name {
            let kept = seq![remotes[0]] + rest.filter(own);
            assert(kept[0] == remotes[0]);
        } else {
            assert(Seq::<RemoteState>::empty() + rest.filter(own) =~= rest.filter(own));
        }
    } else {
        remotes.lemma_filter_len(own);
    }
}

impl RemoteState {
    /// The heads from which the remote's known commits derive: the recorded
    /// heads, then the targets of its tracked bookmarks.
    pub open spec fn heads(&self) -> Seq<CommitId> {
        self.known_heads@ + tracked_targets(self.bookmarks@)
    }

    /// The target last seen for `bookmark` on this remote.
    pub fn known_target(&self, bookmark: &str) -> (r: Option<CommitId>)
        ensures
            r == known_target_in(self.bookmarks@, bookmark@),
    {
        let wanted = bookmark.to_owned();
        let mut i: usize = 0;
        assert(self.bookmarks@.skip(0) =~= self.bookmarks@);
        while i < self.bookmarks.len()
            invariant
                i <= self.bookmarks@.len(),
                wanted@ == bookmark@,
                known_target_in(self.bookmarks@, bookmark@) == known_target_in(
                    self.bookmarks@.skip(i as int),
                    bookmark@,
                ),
            decreases self.bookmarks@.len() - i,
        {
            proof {
                assert(self.bookmarks@.skip(i as int).drop_first() =~= self.bookmarks@.skip(
                    i + 1,
                ));
            }
            if self.bookmarks[i].name == wanted {
                return self.bookmarks[i].known_target;
            }
            i += 1;
        }
        None
    }

    /// The known heads of this remote, as [`RemoteState::heads`] orders them.
    pub fn known_head_list(&self) -> (r: Vec<CommitId>)
        ensures
            r@ == self.heads(),
    {
        let mut r: Vec<CommitId> = Vec::new();
        let mut i: usize = 0;
        while i < self.known_heads.len()
            invariant
                i <= self.known_heads@.len(),
                r@ == self.known_heads@.take(i as int),
            decreases self.known_heads@.len() - i,
        {
            r.push(self.known_heads[i]);
            proof {
                assert(self.known_heads@.take(i + 1) =~= self.known_heads@.take(i as int).push(
                    self.known_heads@[i as int],
                ));
            }
            i += 1;
        }
        proof {
            assert(self.known_heads@.take(self.known_heads@.len() as int) =~= self.known_heads@);
        }
        let mut j: usize = 0;
        while j < self.bookmarks.len()
            invariant
                j <= self.bookmarks@.len(),
                r@ == self.known_heads@ + tracked_targets(self.bookmarks@.take(j as int)),
            decreases self.bookmarks@.len() - j,
        {
            proof {
                assert(self.bookmarks@.take(j + 1).drop_last() =~= self.bookmarks@.take(j as int));
            }
            match self.bookmarks[j].known_target {
                Some(t) => {
                    r.push(t);
                },
                None => {},
            }
            j += 1;
        }
        proof {
            assert(self.bookmarks@.take(self.bookmarks@.len() as int) =~= self.bookmarks@);
        }
        r
    }
}

impl RemoteTrackingStore {
    /// The target of `bookmark` as last seen on `remote`; `None` where the
    /// store records no such remote or no such bookmark.
    pub open spec fn target_on(&self, remote: Seq<char>, bookmark: Seq<char>) -> Option<
        CommitId,
    > {
        match find_remote(self.remotes@, remote) {
            Some(state) => known_target_in(state.bookmarks@, bookmark),
            None => None,
        }
    }

    /// The known heads of `remote`; none where the store records no such remote.
    pub open spec fn heads_of(&self, remote: Seq<char>) -> Seq<CommitId> {
        match find_remote(self.remotes@, remote) {
            Some(state) => state.heads(),
            None => Seq::empty(),
        }
    }

    /// A store that knows of no remote.
    pub fn new() -> (store: RemoteTrackingStore)
        ensures
            store.remotes@.len() == 0,
    {
        RemoteTrackingStore { remotes: Vec::new() }
    }

    /// The state recorded for `remote`.
    pub fn remote(&self, remote: &str) -> (r: Option<&RemoteState>)
        ensures
            match r {
                Some(state) => find_remote(self.remotes@, remote@) == Some(*state),
                None => find_remote(self.remotes@, remote@).is_none(),
            },
    {
        let wanted = remote.to_owned();
        let mut i: usize = 0;
        assert(self.remotes@.skip(0) =~= self.remotes@);
        while i < self.remotes.len()
            invariant
                i <= self.remotes@.len(),
                wanted@ == remote@,
                find_remote(self.remotes@, remote@) == find_remote(
                    self.remotes@.skip(i as int),
                    remote@,
                ),
            decreases self.remotes@.len() - i,
        {
            proof {
                assert(self.remotes@.skip(i as int).drop_first() =~= self.remotes@.skip(i + 1));
            }
            if self.remotes[i].name == wanted {
                return Some(&self.remotes[i]);
            }
            i += 1;
        }
        None
    }

    /// The target of `bookmark` as last seen on `remote`.
    pub fn known_target(&self, remote: &str, bookmark: &str) -> (r: Option<CommitId>)
        ensures
            r == self.target_on(remote@, bookmark@),
    {
        match self.remote(remote) {
            Some(state) => state.known_target(bookmark),
            None => None,
        }
    }

    /// The known heads of `remote`.
    pub fn known_heads(&self, remote: &str) -> (r: Vec<CommitId>)
        ensures
            r@ == self.heads_of(remote@),
    {
        match self.remote(remote) {
            Some(state) => state.known_head_list(),
            None => Vec::new(),
        }
    }

    /// The commits of the graph that `remote` is believed to hold: the
    /// ancestors of its known heads, computed on demand.
    pub fn known_commits_closure(&self, graph: &CommitGraph, remote: &str) -> (r: Vec<CommitId>)
        requires
            graph.wf(),
        ensures
            r@.no_duplicates(),
            forall|c: CommitId| #[trigger]
                r@.contains(c) <==> graph@.contains(c) && closure(
                    graph@,
                    self.heads_of(remote@),
                ).contains(c),
    {
        let heads = self.known_heads(remote);
        ancestors(graph, &heads)
    }
}

} // verus!
