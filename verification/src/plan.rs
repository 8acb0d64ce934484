//! Assembly of the push plan for one remote, or of the reason why there is none.

use crate::ancestry::{ancestor_marks, closure, lemma_proper_ancestor_contained};
use crate::classify::{classify, classify_move, MoveKind};
use crate::commit::CommitId;
use crate::graph::{CommitGraph, GraphModel};
use crate::privacy::{check_gate, gate_passes, private_in_push_set, private_roots, Gate};
use crate::resolver::{push_set, resolve_push_set};
use crate::tracking::{
    entries_named, find_remote, known_target_in, lemma_find_remote_reads_own_entries,
    RemoteBookmarkState, RemoteTrackingStore,
};
use vstd::prelude::*;

verus! {

/// What the caller permits.
#[derive(Clone, Copy, Debug, PartialEq, Eq, Structural)]
pub struct PushOptions {
    /// Bookmarks that the remote does not have yet may be created there.
    pub allow_new: bool,
    /// Private commits may be pushed.
    pub allow_private: bool,
    /// A bookmark may move to a commit that does not descend from its known target.
    pub force: bool,
}

/// A request to move a bookmark on a remote; `None` asks for its deletion.
#[derive(Clone, Debug, PartialEq, Eq)]
pub struct BookmarkMove {
    pub name: String,
    pub new_target: Option<CommitId>,
}

/// A predicate of the configuration together with what the evaluator made
/// of it over the whole graph.
#[derive(Clone, Debug, PartialEq, Eq)]
pub struct EvaluatedPredicate {
    /// The predicate as configured.
    pub text: String,
    /// The commits that it matches; `None` where it could not be evaluated.
    pub matched: Option<Vec<CommitId>>,
}

/// The policy predicates, evaluated once for the whole push.
#[derive(Clone, Debug, PartialEq, Eq)]
pub struct Policy {
    pub private_commits: EvaluatedPredicate,
    pub immutable_heads: EvaluatedPredicate,
}

/// The update of one bookmark on a remote.
#[derive(Clone, Debug, PartialEq, Eq)]
pub struct BookmarkUpdate {
    pub name: String,
    pub old: Option<CommitId>,
    pub new: Option<CommitId>,
}

/// What the transport has to do for one remote.
#[derive(Clone, Debug, PartialEq, Eq)]
pub struct PushPlan {
    pub remote: String,
    pub bookmark_updates: Vec<BookmarkUpdate>,
    pub commits_to_send: Vec<CommitId>,
}

/// A push refused because it would publish private commits.
#[derive(Clone, Debug, PartialEq, Eq)]
pub struct RejectedPush {
    pub remote: String,
    /// The bookmarks whose new target has a private root among its ancestors.
    pub bookmarks: Vec<String>,
    pub private_roots: Vec<CommitId>,
    /// The private-commits predicate as configured.
    pub predicate: String,
}

/// Why there is no plan.
#[derive(Clone, Debug, PartialEq, Eq)]
pub enum PushError {
    /// The push set holds private commits and the caller did not allow them.
    RejectedPush(RejectedPush),
    /// The new target does not descend from the known one and the caller did
    /// not force the move.
    DivergentMove { bookmark: String },
    /// The remote has no such bookmark and the caller did not allow new ones.
    NewBookmarkRefused { bookmark: String },
    /// The new target is not a commit of the graph.
    UnknownCommit { bookmark: String },
    /// A policy predicate could not be evaluated.
    UnknownPredicate { predicate: String },
}

/// Model of a [`BookmarkUpdate`].
pub struct UpdateModel {
    pub name: Seq<char>,
    pub old: Option<CommitId>,
    pub new: Option<CommitId>,
}

/// Model of a [`PushPlan`].
pub struct PlanModel {
    pub remote: Seq<char>,
    pub bookmark_updates: Seq<UpdateModel>,
    pub commits_to_send: Seq<CommitId>,
}

/// Model of a [`RejectedPush`].
pub struct RejectionModel {
    pub remote: Seq<char>,
    pub bookmarks: Seq<Seq<char>>,
    pub private_roots: Seq<CommitId>,
    pub predicate: Seq<char>,
}

/// Model of a [`PushError`].
pub enum ErrorModel {
    RejectedPush(RejectionModel),
    DivergentMove { bookmark: Seq<char> },
    NewBookmarkRefused { bookmark: Seq<char> },
    UnknownCommit { bookmark: Seq<char> },
    UnknownPredicate { predicate: Seq<char> },
}

impl View for BookmarkUpdate {
    type V = UpdateModel;

    open spec fn view(&self) -> UpdateModel {
        UpdateModel { name: self.name@, old: self.old, new: self.new }
    }
}

/// The models of `updates`.
pub open spec fn update_views(updates: Seq<BookmarkUpdate>) -> Seq<UpdateModel> {
    updates.map_values(|u: BookmarkUpdate| u@)
}

/// The texts of `names`.
pub open spec fn text_views(names: Seq<String>) -> Seq<Seq<char>> {
    names.map_values(|s: String| s@)
}

impl View for PushPlan {
    type V = PlanModel;

    open spec fn view(&self) -> PlanModel {
        PlanModel {
            remote: self.remote@,
            bookmark_updates: update_views(self.bookmark_updates@),
            commits_to_send: self.commits_to_send@,
        }
    }
}

impl View for RejectedPush {
    type V = RejectionModel;

    open spec fn view(&self) -> RejectionModel {
        RejectionModel {
            remote: self.remote@,
            bookmarks: text_views(self.bookmarks@),
            private_roots: self.private_roots@,
            predicate: self.predicate@,
        }
    }
}

impl View for PushError {
    type V = ErrorModel;

    open spec fn view(&self) -> ErrorModel {
        match self {
            PushError::RejectedPush(rejected) => ErrorModel::RejectedPush(rejected@),
            PushError::DivergentMove { bookmark } => ErrorModel::DivergentMove {
                bookmark: bookmark@,
            },
            PushError::NewBookmarkRefused { bookmark } => ErrorModel::NewBookmarkRefused {
                bookmark: bookmark@,
            },
            PushError::UnknownCommit { bookmark } => ErrorModel::UnknownCommit {
                bookmark: bookmark@,
            },
            PushError::UnknownPredicate { predicate } => ErrorModel::UnknownPredicate {
                predicate: predicate@,
            },
        }
    }
}

/// The model of what `plan_push` returned.
pub open spec fn outcome_view(r: Result<PushPlan, PushError>) -> Result<PlanModel, ErrorModel> {
    match r {
        Ok(plan) => Ok(plan@),
        Err(e) => Err(e@),
    }
}

/// Why the move `m` cannot be planned, if it cannot.
pub open spec fn move_refusal(
    g: GraphModel,
    bookmarks: Seq<RemoteBookmarkState>,
    options: PushOptions,
    m: BookmarkMove,
) -> Option<ErrorModel> {
    if m.new_target is Some && !g.contains(m.new_target->0) {
        Some(ErrorModel::UnknownCommit { bookmark: m.name@ })
    } else {
        match classify(g, known_target_in(bookmarks, m.name@), m.new_target) {
            MoveKind::New => if options.allow_new {
                None
            } else {
                Some(ErrorModel::NewBookmarkRefused { bookmark: m.name@ })
            },
            MoveKind::Backward => if options.force {
                None
            } else {
                Some(ErrorModel::DivergentMove { bookmark: m.name@ })
            },
            _ => None,
        }
    }
}

/// The refusal of the first of `moves` that cannot be planned.
pub open spec fn first_refusal(
    g: GraphModel,
    bookmarks: Seq<RemoteBookmarkState>,
    options: PushOptions,
    moves: Seq<BookmarkMove>,
) -> Option<ErrorModel>
    decreases moves.len(),
{
    if moves.len() == 0 {
        None
    } else {
        match move_refusal(g, bookmarks, options, moves[0]) {
            Some(e) => Some(e),
            None => first_refusal(g, bookmarks, options, moves.drop_first()),
        }
    }
}

/// The updates that `moves` amount to, in their order: one for each move
/// that changes something on the remote.
pub open spec fn updates_for(
    g: GraphModel,
    bookmarks: Seq<RemoteBookmarkState>,
    moves: Seq<BookmarkMove>,
) -> Seq<UpdateModel>
    decreases moves.len(),
{
    if moves.len() == 0 {
        Seq::empty()
    } else {
        let before = updates_for(g, bookmarks, moves.drop_last());
        let m = moves.last();
        let known = known_target_in(bookmarks, m.name@);
        if classify(g, known, m.new_target) == MoveKind::NoOp {
            before
        } else {
            before.push(UpdateModel { name: m.name@, old: known, new: m.new_target })
        }
    }
}

/// The new targets of `updates`, in their order.
pub open spec fn new_targets(updates: Seq<UpdateModel>) -> Seq<CommitId>
    decreases updates.len(),
{
    if updates.len() == 0 {
        Seq::empty()
    } else {
        let before = new_targets(updates.drop_last());
        match updates.last().new {
            Some(t) => before.push(t),
            None => before,
        }
    }
}

/// One of `roots` is an ancestor of `t`.
pub open spec fn reaches_root(g: GraphModel, roots: Seq<CommitId>, t: CommitId) -> bool {
    exists|j: int| 0 <= j < roots.len() && g.is_ancestor(#[trigger] roots[j], t)
}

/// The names of the updates whose new target has one of `roots` among its
/// ancestors, in the order of the updates.
pub open spec fn involved(
    g: GraphModel,
    updates: Seq<UpdateModel>,
    roots: Seq<CommitId>,
) -> Seq<Seq<char>>
    decreases updates.len(),
{
    if updates.len() == 0 {
        Seq::empty()
    } else {
        let before = involved(g, updates.drop_last(), roots);
        let u = updates.last();
        if u.new is Some && reaches_root(g, roots, u.new->0) {
            before.push(u.name)
        } else {
            before
        }
    }
}

/// The plan for a remote with the tracked bookmarks `bookmarks` and the
/// known heads `heads`, or the reason why there is none.
///
/// A predicate that could not be evaluated comes first, then the first move
/// that cannot be planned, then the privacy gate over the whole push set.
pub open spec fn plan_for(
    g: GraphModel,
    bookmarks: Seq<RemoteBookmarkState>,
    heads: Seq<CommitId>,
    policy: Policy,
    moves: Seq<BookmarkMove>,
    remote: Seq<char>,
    options: PushOptions,
) -> Result<PlanModel, ErrorModel> {
    if policy.private_commits.matched is None {
        Err(ErrorModel::UnknownPredicate { predicate: policy.private_commits.text@ })
    } else if policy.immutable_heads.matched is None {
        Err(ErrorModel::UnknownPredicate { predicate: policy.immutable_heads.text@ })
    } else {
        match first_refusal(g, bookmarks, options, moves) {
            Some(e) => Err(e),
            None => {
                let updates = updates_for(g, bookmarks, moves);
                let push = push_set(g, new_targets(updates), heads);
                let private = policy.private_commits.matched->0@.to_set();
                if gate_passes(push, private, options.allow_private) {
                    Ok(PlanModel { remote, bookmark_updates: updates, commits_to_send: push })
                } else {
                    let roots = private_roots(g, private_in_push_set(push, private));
                    Err(
                        ErrorModel::RejectedPush(
                            RejectionModel {
                                remote,
                                bookmarks: involved(g, updates, roots),
                                private_roots: roots,
                                predicate: policy.private_commits.text@,
                            },
                        ),
                    )
                }
            },
        }
    }
}

/// The tracked bookmarks of `remote`; none where the store has no such remote.
pub open spec fn bookmarks_of(store: RemoteTrackingStore, remote: Seq<char>) -> Seq<
    RemoteBookmarkState,
> {
    match find_remote(store.remotes@, remote) {
        Some(state) => state.bookmarks@,
        None => Seq::empty(),
    }
}

/// The plan for `remote`, or the reason why there is none. It depends on the
/// store through the state of `remote` only.
pub open spec fn plan(
    g: GraphModel,
    store: RemoteTrackingStore,
    policy: Policy,
    moves: Seq<BookmarkMove>,
    remote: Seq<char>,
    options: PushOptions,
) -> Result<PlanModel, ErrorModel> {
    plan_for(
        g,
        bookmarks_of(store, remote),
        store.heads_of(remote),
        policy,
        moves,
        remote,
        options,
    )
}

/// Whether one of `roots` is an ancestor of `t`.
fn any_root_reaches(graph: &CommitGraph, roots: &Vec<CommitId>, t: CommitId) -> (r: bool)
    requires
        graph.wf(),
    ensures
        r == reaches_root(graph@, roots@, t),
{
    let mut heads: Vec<CommitId> = Vec::new();
    heads.push(t);
    let marks = ancestor_marks(graph, &heads);
    let mut j: usize = 0;
    while j < roots.len()
        invariant
            graph.wf(),
            j <= roots@.len(),
            heads@ == seq![t],
            crate::walk::marks_match(graph@, marks@, closure(graph@, heads@)),
            forall|i: int| 0 <= i < j ==> !graph@.is_ancestor(#[trigger] roots@[i], t),
        decreases roots@.len() - j,
    {
        let root = roots[j];
        let hit = match graph.position(root) {
            Some(pos) => marks[pos],
            None => root == t,
        };
        proof {
            if graph@.contains(root) {
                if closure(graph@, heads@).contains(root) {
                    let h = choose|h: CommitId|
                        heads@.contains(h) && #[trigger] graph@.is_ancestor(root, h);
                    assert(h == t);
                }
                if graph@.is_ancestor(root, t) {
                    assert(heads@[0] == t);
                    assert(closure(graph@, heads@).contains(root));
                }
            } else {
                if root == t {
                    crate::ancestry::lemma_ancestor_refl(graph@, t);
                } else if graph@.is_ancestor(root, t) {
                    lemma_proper_ancestor_contained(graph@, root, t);
                }
            }
            assert(hit == graph@.is_ancestor(root, t));
        }
        if hit {
            return true;
        }
        j += 1;
    }
    false
}

/// The names of the updates whose new target has one of `roots` among its ancestors.
fn involved_bookmarks(graph: &CommitGraph, updates: &Vec<BookmarkUpdate>, roots: &Vec<CommitId>) -> (r:
    Vec<String>)
    requires
        graph.wf(),
    ensures
        text_views(r@) == involved(graph@, update_views(updates@), roots@),
{
    let mut names: Vec<String> = Vec::new();
    let mut i: usize = 0;
    assert(text_views(names@) =~= Seq::<Seq<char>>::empty());
    assert(update_views(updates@.take(0)) =~= Seq::<UpdateModel>::empty());
    while i < updates.len()
        invariant
            graph.wf(),
            i <= updates@.len(),
            text_views(names@) == involved(
                graph@,
                update_views(updates@.take(i as int)),
                roots@,
            ),
        decreases updates@.len() - i,
    {
        let ghost before = names@;
        proof {
            let now = update_views(updates@.take(i + 1));
            assert(now.drop_last() =~= update_views(updates@.take(i as int)));
            assert(now.last() == updates@[i as int]@);
        }
        let hit = match updates[i].new {
            Some(t) => any_root_reaches(graph, roots, t),
            None => false,
        };
        if hit {
            names.push(updates[i].name.clone());
            assert(text_views(names@) =~= text_views(before).push(updates@[i as int].name@));
        }
        i += 1;
    }
    proof {
        assert(updates@.take(updates@.len() as int) =~= updates@);
    }
    names
}

/// Plans the push of `requested_moves` to `remote`.
///
/// The plan lists an update for each move that changes something on the
/// remote and the commits that the remote lacks for them. A move to the
/// target that the remote is known to have is left out. There is no plan
/// where a policy predicate could not be evaluated, where a move is not
/// permitted by `options`, or where the commits to send hold a private
/// commit that `options` does not allow; the privacy gate looks at everything that
/// would be sent to the remote at once.
///
/// Nothing but the arguments decides the result, and nothing is changed.
pub fn plan_push(
    graph: &CommitGraph,
    store: &RemoteTrackingStore,
    policy: &Policy,
    requested_moves: &Vec<BookmarkMove>,
    remote: &str,
    options: PushOptions,
) -> (r: Result<PushPlan, PushError>)
    requires
        graph.wf(),
    ensures
        outcome_view(r) == plan(graph@, *store, *policy, requested_moves@, remote@, options),
{
    let private = match &policy.private_commits.matched {
        Some(private) => private,
        None => {
            return Err(
                PushError::UnknownPredicate { predicate: policy.private_commits.text.clone() },
            );
        },
    };
    if policy.immutable_heads.matched.is_none() {
        return Err(PushError::UnknownPredicate { predicate: policy.immutable_heads.text.clone() });
    }
    let state = store.remote(remote);
    let ghost bookmarks = bookmarks_of(*store, remote@);
    let mut updates: Vec<BookmarkUpdate> = Vec::new();
    let mut targets: Vec<CommitId> = Vec::new();
    let mut i: usize = 0;
    proof {
        assert(requested_moves@.skip(0) =~= requested_moves@);
        assert(update_views(updates@) =~= Seq::<UpdateModel>::empty());
    }
    while i < requested_moves.len()
        invariant
            graph.wf(),
            i <= requested_moves@.len(),
            bookmarks == bookmarks_of(*store, remote@),
            match state {
                Some(s) => find_remote(store.remotes@, remote@) == Some(*s),
                None => find_remote(store.remotes@, remote@).is_none(),
            },
            first_refusal(graph@, bookmarks, options, requested_moves@) == first_refusal(
                graph@,
                bookmarks,
                options,
                requested_moves@.skip(i as int),
            ),
            update_views(updates@) == updates_for(
                graph@,
                bookmarks,
                requested_moves@.take(i as int),
            ),
            targets@ == new_targets(update_views(updates@)),
            policy.private_commits.matched is Some,
            policy.immutable_heads.matched is Some,
        decreases requested_moves@.len() - i,
    {
        let m = &requested_moves[i];
        let ghost updates_before = updates@;
        proof {
            assert(requested_moves@.skip(i as int).drop_first() =~= requested_moves@.skip(i + 1));
            assert(requested_moves@.take(i + 1).drop_last() =~= requested_moves@.take(i as int));
            assert(requested_moves@.take(i + 1).last() == *m);
            assert(requested_moves@.skip(i as int)[0] == *m);
        }
        let known = match state {
            Some(s) => s.known_target(m.name.as_str()),
            None => None,
        };
        assert(known == known_target_in(bookmarks, m.name@));
        let missing = match m.new_target {
            Some(t) => !graph.contains(t),
            None => false,
        };
        if missing {
            return Err(PushError::UnknownCommit { bookmark: m.name.clone() });
        }
        let kind = classify_move(graph, known, m.new_target);
        match kind {
            MoveKind::New => {
                if !options.allow_new {
                    return Err(PushError::NewBookmarkRefused { bookmark: m.name.clone() });
                }
            },
            MoveKind::Backward => {
                if !options.force {
                    return Err(PushError::DivergentMove { bookmark: m.name.clone() });
                }
            },
            _ => {},
        }
        assert(move_refusal(graph@, bookmarks, options, *m).is_none());
        match kind {
            MoveKind::NoOp => {},
            _ => {
                updates.push(BookmarkUpdate { name: m.name.clone(), old: known, new: m.new_target });
                proof {
                    let u = UpdateModel { name: m.name@, old: known, new: m.new_target };
                    assert(update_views(updates@) =~= update_views(updates_before).push(u));
                    assert(update_views(updates@).drop_last() =~= update_views(updates_before));
                }
                match m.new_target {
                    Some(t) => {
                        targets.push(t);
                    },
                    None => {},
                }
            },
        }
        i += 1;
    }
    proof {
        assert(requested_moves@.take(requested_moves@.len() as int) =~= requested_moves@);
    }
    let heads = match state {
        Some(s) => s.known_head_list(),
        None => Vec::new(),
    };
    assert(heads@ == store.heads_of(remote@));
    let push = resolve_push_set(graph, &targets, &heads);
    match check_gate(graph, &push, private, options.allow_private) {
        Gate::Passed => Ok(
            PushPlan { remote: remote.to_owned(), bookmark_updates: updates, commits_to_send: push },
        ),
        Gate::Rejected { private_roots: roots } => {
            let bookmarks = involved_bookmarks(graph, &updates, &roots);
            Err(
                PushError::RejectedPush(
                    RejectedPush {
                        remote: remote.to_owned(),
                        bookmarks,
                        private_roots: roots,
                        predicate: policy.private_commits.text.clone(),
                    },
                ),
            )
        },
    }
}

/// The moves requested for one remote.
#[derive(Clone, Debug, PartialEq, Eq)]
pub struct PushRequest {
    pub remote: String,
    pub moves: Vec<BookmarkMove>,
}

/// Plans each of `requests` by itself: what is planned for one remote, or
/// refused for it, has no effect on what is planned for another.
pub fn plan_pushes(
    graph: &CommitGraph,
    store: &RemoteTrackingStore,
    policy: &Policy,
    requests: &Vec<PushRequest>,
    options: PushOptions,
) -> (r: Vec<Result<PushPlan, PushError>>)
    requires
        graph.wf(),
    ensures
        r@.len() == requests@.len(),
        forall|i: int|
            0 <= i < requests@.len() ==> outcome_view(#[trigger] r@[i]) == plan(
                graph@,
                *store,
                *policy,
                requests@[i].moves@,
                requests@[i].remote@,
                options,
            ),
{
    let mut outcomes: Vec<Result<PushPlan, PushError>> = Vec::new();
    let mut i: usize = 0;
    while i < requests.len()
        invariant
            graph.wf(),
            i <= requests@.len(),
            outcomes@.len() == i,
            forall|j: int|
                0 <= j < i ==> outcome_view(#[trigger] outcomes@[j]) == plan(
                    graph@,
                    *store,
                    *policy,
                    requests@[j].moves@,
                    requests@[j].remote@,
                    options,
                ),
        decreases requests@.len() - i,
    {
        let request = &requests[i];
        let outcome = plan_push(
            graph,
            store,
            policy,
            &request.moves,
            request.remote.as_str(),
            options,
        );
        outcomes.push(outcome);
        i += 1;
    }
    outcomes
}

/// `options` with private commits allowed or not.
pub open spec fn with_allow_private(options: PushOptions, allow_private: bool) -> PushOptions {
    PushOptions { allow_new: options.allow_new, allow_private, force: options.force }
}

/// Whether a move can be planned does not depend on whether private commits
/// are allowed.
pub proof fn lemma_refusal_ignores_allow_private(
    g: GraphModel,
    bookmarks: Seq<RemoteBookmarkState>,
    options: PushOptions,
    moves: Seq<BookmarkMove>,
    allow_private: bool,
)
    ensures
        first_refusal(g, bookmarks, with_allow_private(options, allow_private), moves)
            == first_refusal(g, bookmarks, options, moves),
    decreases moves.len(),
{
    if moves.len() > 0 {
        lemma_refusal_ignores_allow_private(
            g,
            bookmarks,
            options,
            moves.drop_first(),
            allow_private,
        );
    }
}

/// A move is never refused on account of private commits.
pub proof fn lemma_refusal_is_no_rejection(
    g: GraphModel,
    bookmarks: Seq<RemoteBookmarkState>,
    options: PushOptions,
    moves: Seq<BookmarkMove>,
)
    ensures
        !(first_refusal(g, bookmarks, options, moves) matches Some(ErrorModel::RejectedPush(_))),
    decreases moves.len(),
{
    if moves.len() > 0 {
        lemma_refusal_is_no_rejection(g, bookmarks, options, moves.drop_first());
    }
}

/// What is planned for a remote depends on the store through what is
/// recorded under that remote's name only: two stores that agree on it give
/// the same plan or the same refusal, whatever they record for other
/// remotes, and whether they record other remotes at all.
pub proof fn lemma_remote_independence(
    g: GraphModel,
    store_a: RemoteTrackingStore,
    store_b: RemoteTrackingStore,
    policy: Policy,
    moves: Seq<BookmarkMove>,
    remote: Seq<char>,
    options: PushOptions,
)
    requires
        entries_named(store_a.remotes@, remote) == entries_named(store_b.remotes@, remote),
    ensures
        plan(g, store_a, policy, moves, remote, options) == plan(
            g,
            store_b,
            policy,
            moves,
            remote,
            options,
        ),
{
    lemma_find_remote_reads_own_entries(store_a.remotes@, remote);
    lemma_find_remote_reads_own_entries(store_b.remotes@, remote);
}

/// Planning again with the same arguments gives the same plan or the same
/// refusal: whatever `plan_push` returns twice for them has one view.
pub proof fn lemma_replanning_changes_nothing(
    g: GraphModel,
    store: RemoteTrackingStore,
    policy: Policy,
    moves: Seq<BookmarkMove>,
    remote: Seq<char>,
    options: PushOptions,
    first: Result<PushPlan, PushError>,
    second: Result<PushPlan, PushError>,
)
    requires
        outcome_view(first) == plan(g, store, policy, moves, remote, options),
        outcome_view(second) == plan(g, store, policy, moves, remote, options),
    ensures
        outcome_view(first) == outcome_view(second),
{
}

/// With private commits allowed the plan does not depend on what the
/// private-commits predicate matched: it is the plan that there would be if
/// the predicate matched nothing.
pub proof fn lemma_allowed_private_commits_change_nothing(
    g: GraphModel,
    store: RemoteTrackingStore,
    policy_a: Policy,
    policy_b: Policy,
    moves: Seq<BookmarkMove>,
    remote: Seq<char>,
    options: PushOptions,
)
    requires
        options.allow_private,
        policy_a.private_commits.matched is Some,
        policy_a.immutable_heads.matched is Some,
        policy_b.private_commits.matched is Some,
        policy_b.immutable_heads.matched is Some,
    ensures
        plan(g, store, policy_a, moves, remote, options) == plan(
            g,
            store,
            policy_b,
            moves,
            remote,
            options,
        ),
        !(plan(g, store, policy_a, moves, remote, options) matches Err(
            ErrorModel::RejectedPush(_),
        )),
{
    lemma_refusal_is_no_rejection(g, bookmarks_of(store, remote), options, moves);
}

/// A private commit that the remote is known to hold neither blocks a push
/// nor is sent again: where the moves are permitted and the push set holds
/// no private commit, there is a plan, and it does not send that commit.
pub proof fn lemma_known_private_commit_is_no_obstacle(
    g: GraphModel,
    store: RemoteTrackingStore,
    policy: Policy,
    moves: Seq<BookmarkMove>,
    remote: Seq<char>,
    options: PushOptions,
    p: CommitId,
)
    requires
        g.wf(),
        policy.private_commits.matched is Some,
        policy.immutable_heads.matched is Some,
        first_refusal(g, bookmarks_of(store, remote), options, moves) is None,
        closure(g, store.heads_of(remote)).contains(p),
        forall|c: CommitId|
            #[trigger] push_set(
                g,
                new_targets(updates_for(g, bookmarks_of(store, remote), moves)),
                store.heads_of(remote),
            ).contains(c) ==> !policy.private_commits.matched->0@.contains(c),
    ensures
        plan(g, store, policy, moves, remote, options) matches Ok(planned)
            && !planned.commits_to_send.contains(p),
{
    let updates = updates_for(g, bookmarks_of(store, remote), moves);
    let push = push_set(g, new_targets(updates), store.heads_of(remote));
    let private = policy.private_commits.matched->0@.to_set();
    let keep = |c: CommitId| private.contains(c);
    let pips = private_in_push_set(push, private);
    if pips.len() > 0 {
        push.lemma_filter_pred(keep, 0);
        push.lemma_filter_contains_rev(keep, pips[0]);
        assert(push.contains(pips[0]));
    }
    crate::resolver::lemma_push_set_avoids_known(g, new_targets(updates), store.heads_of(remote));
}

/// With private commits allowed no push is rejected for them. What was
/// rejected without the permission is planned with it, with the same
/// updates and the whole push set; every other outcome is the same.
pub proof fn lemma_override_bypass(
    g: GraphModel,
    store: RemoteTrackingStore,
    policy: Policy,
    moves: Seq<BookmarkMove>,
    remote: Seq<char>,
    options: PushOptions,
)
    ensures
        ({
            let strict = plan(g, store, policy, moves, remote, with_allow_private(options, false));
            let lenient = plan(g, store, policy, moves, remote, with_allow_private(options, true));
            let updates = updates_for(g, bookmarks_of(store, remote), moves);
            match strict {
                Err(ErrorModel::RejectedPush(_)) => lenient == Ok::<PlanModel, ErrorModel>(
                    PlanModel {
                        remote,
                        bookmark_updates: updates,
                        commits_to_send: push_set(
                            g,
                            new_targets(updates),
                            store.heads_of(remote),
                        ),
                    },
                ),
                _ => lenient == strict,
            }
        }),
{
    let bookmarks = bookmarks_of(store, remote);
    lemma_refusal_ignores_allow_private(g, bookmarks, options, moves, false);
    lemma_refusal_ignores_allow_private(g, bookmarks, options, moves, true);
    lemma_refusal_is_no_rejection(g, bookmarks, options, moves);
}

/// A plan sends no commit that can be reached from a known head of its remote.
pub proof fn lemma_plan_sends_nothing_known(
    g: GraphModel,
    store: RemoteTrackingStore,
    policy: Policy,
    moves: Seq<BookmarkMove>,
    remote: Seq<char>,
    options: PushOptions,
    c: CommitId,
    h: CommitId,
)
    requires
        g.wf(),
        store.heads_of(remote).contains(h),
        g.is_ancestor(c, h),
    ensures
        plan(g, store, policy, moves, remote, options) matches Ok(p)
            ==> !p.commits_to_send.contains(c),
{
    let updates = updates_for(g, bookmarks_of(store, remote), moves);
    crate::resolver::lemma_known_commits_excluded(
        g,
        new_targets(updates),
        store.heads_of(remote),
        c,
        h,
    );
}

/// There is a plan only where the privacy gate passed for everything that the plan
/// sends. A rejection names at least one private root, and each root it
/// names is a private commit of the push set.
pub proof fn lemma_plan_respects_gate(
    g: GraphModel,
    store: RemoteTrackingStore,
    policy: Policy,
    moves: Seq<BookmarkMove>,
    remote: Seq<char>,
    options: PushOptions,
)
    requires
        g.wf(),
    ensures
        match plan(g, store, policy, moves, remote, options) {
            Ok(p) => policy.private_commits.matched is Some && gate_passes(
                p.commits_to_send,
                policy.private_commits.matched->0@.to_set(),
                options.allow_private,
            ),
            Err(ErrorModel::RejectedPush(rejected)) => {
                &&& !options.allow_private
                &&& rejected.private_roots.len() > 0
                &&& forall|i: int|
                    0 <= i < rejected.private_roots.len() ==> {
                        &&& policy.private_commits.matched->0@.contains(
                            #[trigger] rejected.private_roots[i],
                        )
                        &&& push_set(
                            g,
                            new_targets(updates_for(g, bookmarks_of(store, remote), moves)),
                            store.heads_of(remote),
                        ).contains(rejected.private_roots[i])
                    }
            },
            Err(_) => true,
        },
{
    let outcome = plan(g, store, policy, moves, remote, options);
    lemma_refusal_is_no_rejection(g, bookmarks_of(store, remote), options, moves);
    if let Err(ErrorModel::RejectedPush(rejected)) = outcome {
        let updates = updates_for(g, bookmarks_of(store, remote), moves);
        let push = push_set(g, new_targets(updates), store.heads_of(remote));
        let private = policy.private_commits.matched->0@.to_set();
        let keep = |c: CommitId| private.contains(c);
        let pips = private_in_push_set(push, private);
        let roots = private_roots(g, pips);
        assert(rejected.private_roots == roots);
        assert(pips.len() > 0);
        crate::privacy::lemma_root_chain(g, pips, pips[0]);
        let path = choose|path: Seq<CommitId>| #[trigger]
            crate::privacy::leads_to_root(g, pips, pips[0], path);
        assert(roots.contains(path.last()));
        assert forall|i: int| 0 <= i < roots.len() implies private.contains(#[trigger] roots[i])
            && push.contains(roots[i]) by {
            crate::privacy::lemma_roots_minimal(g, pips, roots[i]);
            let j = choose|j: int| 0 <= j < pips.len() && pips[j] == roots[i];
            push.lemma_filter_pred(keep, j);
            push.lemma_filter_contains_rev(keep, roots[i]);
        }
    }
}

} // verus!
