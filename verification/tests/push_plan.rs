use push_planner::commit::{Commit, CommitId};
use push_planner::graph::CommitGraph;
use push_planner::plan::{
    plan_push, plan_pushes, BookmarkMove, BookmarkUpdate, EvaluatedPredicate, Policy, PushError,
    PushOptions, PushPlan, PushRequest, RejectedPush,
};
use push_planner::tracking::{RemoteBookmarkState, RemoteState, RemoteTrackingStore};

const ROOT: CommitId = CommitId(100);
const A: CommitId = CommitId(101);
const B: CommitId = CommitId(102);
const C: CommitId = CommitId(103);

const PRIVATE: &str = "description(glob:'private*')";

fn add(graph: &mut CommitGraph, id: CommitId, parents: &[CommitId], description: &str) {
    let commit = Commit {
        id,
        parents: parents.to_vec(),
        description: description.to_string(),
        is_empty: true,
    };
    assert_eq!(graph.add_commit(commit), Ok(()));
}

/// root -> A (public) -> B (private) -> C (public)
fn line() -> CommitGraph {
    let mut graph = CommitGraph::new();
    add(&mut graph, ROOT, &[], "");
    add(&mut graph, A, &[ROOT], "public 1");
    add(&mut graph, B, &[A], "private 1");
    add(&mut graph, C, &[B], "public 3");
    graph
}

fn policy(private: &[CommitId]) -> Policy {
    Policy {
        private_commits: EvaluatedPredicate {
            text: PRIVATE.to_string(),
            matched: Some(private.to_vec()),
        },
        immutable_heads: EvaluatedPredicate {
            text: "trunk()".to_string(),
            matched: Some(vec![]),
        },
    }
}

fn remote(name: &str, bookmarks: &[(&str, CommitId)], known_heads: &[CommitId]) -> RemoteState {
    RemoteState {
        name: name.to_string(),
        bookmarks: bookmarks
            .iter()
            .map(|(name, target)| RemoteBookmarkState {
                name: name.to_string(),
                known_target: Some(*target),
            })
            .collect(),
        known_heads: known_heads.to_vec(),
    }
}

fn move_to(name: &str, target: CommitId) -> BookmarkMove {
    BookmarkMove { name: name.to_string(), new_target: Some(target) }
}

fn update(name: &str, old: Option<CommitId>, new: Option<CommitId>) -> BookmarkUpdate {
    BookmarkUpdate { name: name.to_string(), old, new }
}

fn options() -> PushOptions {
    PushOptions { allow_new: false, allow_private: false, force: false }
}

fn rejected(remote: &str, bookmarks: &[&str], roots: &[CommitId]) -> PushError {
    PushError::RejectedPush(RejectedPush {
        remote: remote.to_string(),
        bookmarks: bookmarks.iter().map(|b| b.to_string()).collect(),
        private_roots: roots.to_vec(),
        predicate: PRIVATE.to_string(),
    })
}

#[test]
fn private_commit_in_line_rejects_the_push() {
    let graph = line();
    let store = RemoteTrackingStore { remotes: vec![remote("origin", &[("main", A)], &[])] };
    let moves = vec![move_to("main", C)];
    let outcome = plan_push(&graph, &store, &policy(&[B]), &moves, "origin", options());
    assert_eq!(outcome, Err(rejected("origin", &["main"], &[B])));
}

#[test]
fn allow_private_plans_the_whole_push_set() {
    let graph = line();
    let store = RemoteTrackingStore { remotes: vec![remote("origin", &[("main", A)], &[])] };
    let moves = vec![move_to("main", C)];
    let lenient = PushOptions { allow_private: true, ..options() };
    let outcome = plan_push(&graph, &store, &policy(&[B]), &moves, "origin", lenient);
    assert_eq!(
        outcome,
        Ok(PushPlan {
            remote: "origin".to_string(),
            bookmark_updates: vec![update("main", Some(A), Some(C))],
            commits_to_send: vec![C, B],
        })
    );
}

#[test]
fn allow_private_changes_nothing_where_nothing_is_private() {
    let graph = line();
    let store = RemoteTrackingStore { remotes: vec![remote("origin", &[("main", A)], &[])] };
    let moves = vec![move_to("main", C)];
    let strict = plan_push(&graph, &store, &policy(&[]), &moves, "origin", options());
    let lenient = PushOptions { allow_private: true, ..options() };
    let lenient = plan_push(&graph, &store, &policy(&[]), &moves, "origin", lenient);
    assert!(strict.is_ok());
    assert_eq!(strict, lenient);
}

#[test]
fn private_commit_already_on_the_remote_does_not_block() {
    let graph = line();
    let store = RemoteTrackingStore { remotes: vec![remote("r", &[("other", B)], &[])] };
    let moves = vec![move_to("feature", C)];
    let allow_new = PushOptions { allow_new: true, ..options() };
    let outcome = plan_push(&graph, &store, &policy(&[B]), &moves, "r", allow_new);
    assert_eq!(
        outcome,
        Ok(PushPlan {
            remote: "r".to_string(),
            bookmark_updates: vec![update("feature", None, Some(C))],
            commits_to_send: vec![C],
        })
    );
}

#[test]
fn private_commit_among_known_heads_does_not_block() {
    let graph = line();
    let store = RemoteTrackingStore { remotes: vec![remote("r", &[("main", A)], &[B])] };
    let moves = vec![move_to("main", C)];
    let outcome = plan_push(&graph, &store, &policy(&[B]), &moves, "r", options());
    assert_eq!(
        outcome,
        Ok(PushPlan {
            remote: "r".to_string(),
            bookmark_updates: vec![update("main", Some(A), Some(C))],
            commits_to_send: vec![C],
        })
    );
}

#[test]
fn remotes_are_judged_separately() {
    // main reaches X = C; the private commit Y = B is known on r1 only.
    let graph = line();
    let store = RemoteTrackingStore {
        remotes: vec![remote("r1", &[("main", B)], &[]), remote("r2", &[("main", A)], &[])],
    };
    let moves = vec![move_to("main", C)];
    let on_r1 = plan_push(&graph, &store, &policy(&[B]), &moves, "r1", options());
    let on_r2 = plan_push(&graph, &store, &policy(&[B]), &moves, "r2", options());
    assert_eq!(
        on_r1,
        Ok(PushPlan {
            remote: "r1".to_string(),
            bookmark_updates: vec![update("main", Some(B), Some(C))],
            commits_to_send: vec![C],
        })
    );
    assert_eq!(on_r2, Err(rejected("r2", &["main"], &[B])));
}

#[test]
fn a_rejection_for_one_remote_leaves_the_other_plan_alone() {
    let graph = line();
    let store = RemoteTrackingStore {
        remotes: vec![remote("r1", &[("main", B)], &[]), remote("r2", &[("main", A)], &[])],
    };
    let requests = vec![
        PushRequest { remote: "r2".to_string(), moves: vec![move_to("main", C)] },
        PushRequest { remote: "r1".to_string(), moves: vec![move_to("main", C)] },
    ];
    let outcomes = plan_pushes(&graph, &store, &policy(&[B]), &requests, options());
    assert_eq!(outcomes.len(), 2);
    assert_eq!(outcomes[0], Err(rejected("r2", &["main"], &[B])));
    let alone = plan_push(&graph, &store, &policy(&[B]), &requests[1].moves, "r1", options());
    assert!(alone.is_ok());
    assert_eq!(outcomes[1], alone);
}

#[test]
fn the_plan_for_a_remote_ignores_the_state_of_others() {
    let graph = line();
    let both = RemoteTrackingStore {
        remotes: vec![remote("r1", &[("main", B)], &[]), remote("r2", &[("main", A)], &[])],
    };
    let only_r2 = RemoteTrackingStore { remotes: vec![remote("r2", &[("main", A)], &[])] };
    let moves = vec![move_to("main", C)];
    assert_eq!(
        plan_push(&graph, &both, &policy(&[B]), &moves, "r2", options()),
        plan_push(&graph, &only_r2, &policy(&[B]), &moves, "r2", options()),
    );
}

#[test]
fn planning_twice_gives_the_same_result() {
    let graph = line();
    let store = RemoteTrackingStore { remotes: vec![remote("origin", &[("main", A)], &[])] };
    let moves = vec![move_to("main", C)];
    let first = plan_push(&graph, &store, &policy(&[B]), &moves, "origin", options());
    let second = plan_push(&graph, &store, &policy(&[B]), &moves, "origin", options());
    assert_eq!(first, second);
    let lenient = PushOptions { allow_private: true, ..options() };
    let first = plan_push(&graph, &store, &policy(&[B]), &moves, "origin", lenient);
    let second = plan_push(&graph, &store, &policy(&[B]), &moves, "origin", lenient);
    assert!(first.is_ok());
    assert_eq!(first, second);
}

#[test]
fn only_the_roots_of_a_private_subtree_are_named() {
    // root -> A -> S1 -> S2 -> S3 -> T, with S1 to S3 private, and a second
    // private commit Q on a side branch that T merges.
    let (s1, s2, s3, q, t) =
        (CommitId(1), CommitId(2), CommitId(3), CommitId(4), CommitId(5));
    let mut graph = CommitGraph::new();
    add(&mut graph, ROOT, &[], "");
    add(&mut graph, A, &[ROOT], "public 1");
    add(&mut graph, s1, &[A], "private 1");
    add(&mut graph, s2, &[s1], "private 2");
    add(&mut graph, s3, &[s2], "private 3");
    add(&mut graph, q, &[A], "private side");
    add(&mut graph, t, &[s3, q], "public merge");
    let store = RemoteTrackingStore { remotes: vec![remote("origin", &[("main", A)], &[])] };
    let moves = vec![move_to("main", t)];
    let private = [s1, s2, s3, q];
    let outcome = plan_push(&graph, &store, &policy(&private), &moves, "origin", options());
    // The push set in discovery order is t, s3, q, s2, s1.
    assert_eq!(outcome, Err(rejected("origin", &["main"], &[q, s1])));
    let lenient = PushOptions { allow_private: true, ..options() };
    let plan = plan_push(&graph, &store, &policy(&private), &moves, "origin", lenient).unwrap();
    assert_eq!(plan.commits_to_send, vec![t, s3, q, s2, s1]);
}

#[test]
fn two_bookmarks_share_one_traversal() {
    // A diamond: root -> A -> {L, R} -> M.
    let (l, r, m) = (CommitId(1), CommitId(2), CommitId(3));
    let mut graph = CommitGraph::new();
    add(&mut graph, ROOT, &[], "");
    add(&mut graph, A, &[ROOT], "");
    add(&mut graph, l, &[A], "");
    add(&mut graph, r, &[A], "");
    add(&mut graph, m, &[l, r], "");
    let store = RemoteTrackingStore::new();
    let moves = vec![move_to("left", l), move_to("merge", m)];
    let allow_new = PushOptions { allow_new: true, ..options() };
    let plan = plan_push(&graph, &store, &policy(&[]), &moves, "origin", allow_new).unwrap();
    assert_eq!(plan.commits_to_send, vec![l, m, A, r, ROOT]);
    assert_eq!(
        plan.bookmark_updates,
        vec![update("left", None, Some(l)), update("merge", None, Some(m))]
    );
}

#[test]
fn only_the_bookmarks_that_reach_a_root_are_named() {
    let (side,) = (CommitId(1),);
    let mut graph = line();
    add(&mut graph, side, &[A], "public side");
    let store = RemoteTrackingStore { remotes: vec![remote("origin", &[("main", A)], &[])] };
    let moves = vec![move_to("side", side), move_to("main", C)];
    let allow_new = PushOptions { allow_new: true, ..options() };
    let outcome = plan_push(&graph, &store, &policy(&[B]), &moves, "origin", allow_new);
    assert_eq!(outcome, Err(rejected("origin", &["main"], &[B])));
}

#[test]
fn a_new_bookmark_needs_permission() {
    let graph = line();
    let store = RemoteTrackingStore { remotes: vec![remote("origin", &[("main", A)], &[])] };
    let moves = vec![move_to("feature", C)];
    let outcome = plan_push(&graph, &store, &policy(&[]), &moves, "origin", options());
    assert_eq!(outcome, Err(PushError::NewBookmarkRefused { bookmark: "feature".to_string() }));
}

#[test]
fn a_backward_move_needs_force() {
    let graph = line();
    let store = RemoteTrackingStore { remotes: vec![remote("origin", &[("main", C)], &[])] };
    let moves = vec![move_to("main", A)];
    let outcome = plan_push(&graph, &store, &policy(&[]), &moves, "origin", options());
    assert_eq!(outcome, Err(PushError::DivergentMove { bookmark: "main".to_string() }));
    let force = PushOptions { force: true, ..options() };
    let outcome = plan_push(&graph, &store, &policy(&[]), &moves, "origin", force);
    assert_eq!(
        outcome,
        Ok(PushPlan {
            remote: "origin".to_string(),
            bookmark_updates: vec![update("main", Some(C), Some(A))],
            commits_to_send: vec![],
        })
    );
}

#[test]
fn a_sideways_move_is_divergent() {
    let side = CommitId(1);
    let mut graph = line();
    add(&mut graph, side, &[A], "side");
    let store = RemoteTrackingStore { remotes: vec![remote("origin", &[("main", B)], &[])] };
    let moves = vec![move_to("main", side)];
    let outcome = plan_push(&graph, &store, &policy(&[]), &moves, "origin", options());
    assert_eq!(outcome, Err(PushError::DivergentMove { bookmark: "main".to_string() }));
    let force = PushOptions { force: true, ..options() };
    let plan = plan_push(&graph, &store, &policy(&[]), &moves, "origin", force).unwrap();
    assert_eq!(plan.commits_to_send, vec![side]);
}

#[test]
fn the_first_move_that_cannot_be_planned_is_reported() {
    let graph = line();
    let store = RemoteTrackingStore { remotes: vec![remote("origin", &[("main", C)], &[])] };
    let moves = vec![move_to("main", A), move_to("feature", B)];
    let outcome = plan_push(&graph, &store, &policy(&[]), &moves, "origin", options());
    assert_eq!(outcome, Err(PushError::DivergentMove { bookmark: "main".to_string() }));
    let moves = vec![move_to("feature", B), move_to("main", A)];
    let outcome = plan_push(&graph, &store, &policy(&[]), &moves, "origin", options());
    assert_eq!(outcome, Err(PushError::NewBookmarkRefused { bookmark: "feature".to_string() }));
}

#[test]
fn a_deletion_sends_nothing() {
    let graph = line();
    let store = RemoteTrackingStore { remotes: vec![remote("origin", &[("main", A)], &[])] };
    let moves = vec![BookmarkMove { name: "main".to_string(), new_target: None }];
    let outcome = plan_push(&graph, &store, &policy(&[B]), &moves, "origin", options());
    assert_eq!(
        outcome,
        Ok(PushPlan {
            remote: "origin".to_string(),
            bookmark_updates: vec![update("main", Some(A), None)],
            commits_to_send: vec![],
        })
    );
}

#[test]
fn a_move_to_the_known_target_is_left_out() {
    let graph = line();
    let store = RemoteTrackingStore { remotes: vec![remote("origin", &[("main", C)], &[])] };
    let moves = vec![
        move_to("main", C),
        BookmarkMove { name: "gone".to_string(), new_target: None },
    ];
    let outcome = plan_push(&graph, &store, &policy(&[B]), &moves, "origin", options());
    assert_eq!(
        outcome,
        Ok(PushPlan {
            remote: "origin".to_string(),
            bookmark_updates: vec![],
            commits_to_send: vec![],
        })
    );
}

#[test]
fn a_target_outside_the_graph_is_refused() {
    let graph = line();
    let store = RemoteTrackingStore::new();
    let moves = vec![move_to("main", CommitId(999))];
    let allow_all = PushOptions { allow_new: true, allow_private: true, force: true };
    let outcome = plan_push(&graph, &store, &policy(&[]), &moves, "origin", allow_all);
    assert_eq!(outcome, Err(PushError::UnknownCommit { bookmark: "main".to_string() }));
}

#[test]
fn a_predicate_that_cannot_be_evaluated_stops_every_remote() {
    let graph = line();
    let store = RemoteTrackingStore { remotes: vec![remote("r1", &[("main", C)], &[])] };
    let mut broken = policy(&[]);
    broken.private_commits.matched = None;
    let requests = vec![
        PushRequest { remote: "r1".to_string(), moves: vec![move_to("main", C)] },
        PushRequest { remote: "r2".to_string(), moves: vec![] },
    ];
    let allow_all = PushOptions { allow_new: true, allow_private: true, force: true };
    let outcomes = plan_pushes(&graph, &store, &broken, &requests, allow_all);
    let error = PushError::UnknownPredicate { predicate: PRIVATE.to_string() };
    assert_eq!(outcomes, vec![Err(error.clone()), Err(error)]);

    let mut broken = policy(&[]);
    broken.immutable_heads.matched = None;
    let outcome = plan_push(&graph, &store, &broken, &requests[0].moves, "r1", allow_all);
    assert_eq!(outcome, Err(PushError::UnknownPredicate { predicate: "trunk()".to_string() }));
}
