use push_planner::ancestry::{ancestors, is_ancestor};
use push_planner::classify::{classify_move, MoveKind};
use push_planner::commit::{Commit, CommitId};
use push_planner::graph::{CommitGraph, GraphError};
use push_planner::privacy::{check_gate, filter_private, find_private_roots, Gate};
use push_planner::resolver::resolve_push_set;
use push_planner::tracking::{RemoteBookmarkState, RemoteState, RemoteTrackingStore};

fn commit(id: u64, parents: &[u64]) -> Commit {
    Commit {
        id: CommitId(id),
        parents: parents.iter().map(|p| CommitId(*p)).collect(),
        description: format!("commit {}", id),
        is_empty: false,
    }
}

fn ids(raw: &[u64]) -> Vec<CommitId> {
    raw.iter().map(|id| CommitId(*id)).collect()
}

/// 1 -> 2 -> {3, 4} -> 5 (merge of 3 and 4) -> 6, and 7 on top of 4.
fn graph() -> CommitGraph {
    let mut graph = CommitGraph::new();
    for (id, parents) in
        [(1, vec![]), (2, vec![1]), (3, vec![2]), (4, vec![2]), (5, vec![3, 4]), (6, vec![5]), (7, vec![4])]
    {
        assert_eq!(graph.add_commit(commit(id, &parents)), Ok(()));
    }
    graph
}

#[test]
fn a_graph_takes_each_commit_once_and_after_its_parents() {
    let mut graph = CommitGraph::new();
    assert_eq!(graph.len(), 0);
    assert_eq!(graph.add_commit(commit(1, &[])), Ok(()));
    assert_eq!(graph.add_commit(commit(1, &[])), Err(GraphError::DuplicateCommit));
    assert_eq!(graph.add_commit(commit(1, &[9])), Err(GraphError::DuplicateCommit));
    assert_eq!(graph.add_commit(commit(2, &[1, 9])), Err(GraphError::UnknownParent));
    assert_eq!(graph.add_commit(commit(2, &[2])), Err(GraphError::UnknownParent));
    assert_eq!(graph.len(), 1);
    assert_eq!(graph.add_commit(commit(2, &[1])), Ok(()));
    assert_eq!(graph.len(), 2);
    assert!(graph.contains(CommitId(2)));
    assert!(!graph.contains(CommitId(9)));
    assert_eq!(graph.position(CommitId(2)), Some(1));
    assert_eq!(graph.position(CommitId(9)), None);
    assert_eq!(graph.id_at(0), CommitId(1));
    assert_eq!(graph.parents_at(1), &ids(&[1]));
    assert_eq!(graph.get(CommitId(2)), Some(&commit(2, &[1])));
    assert_eq!(graph.get(CommitId(9)), None);
    assert_eq!(graph.parents(CommitId(2)), Some(&ids(&[1])));
    assert_eq!(graph.parents(CommitId(1)), Some(&ids(&[])));
    assert_eq!(graph.parents(CommitId(9)), None);
}

#[test]
fn ancestry_follows_parent_edges() {
    let graph = graph();
    assert!(is_ancestor(&graph, CommitId(1), CommitId(6)));
    assert!(is_ancestor(&graph, CommitId(4), CommitId(6)));
    assert!(is_ancestor(&graph, CommitId(6), CommitId(6)));
    assert!(!is_ancestor(&graph, CommitId(6), CommitId(5)));
    assert!(!is_ancestor(&graph, CommitId(3), CommitId(4)));
    assert!(!is_ancestor(&graph, CommitId(7), CommitId(6)));
    assert!(is_ancestor(&graph, CommitId(99), CommitId(99)));
    assert!(!is_ancestor(&graph, CommitId(99), CommitId(6)));
    assert!(!is_ancestor(&graph, CommitId(1), CommitId(99)));
}

#[test]
fn ancestors_come_in_discovery_order() {
    let graph = graph();
    assert_eq!(ancestors(&graph, &ids(&[6])), ids(&[6, 5, 3, 4, 2, 1]));
    assert_eq!(ancestors(&graph, &ids(&[7, 3])), ids(&[7, 3, 4, 2, 1]));
    assert_eq!(ancestors(&graph, &ids(&[3, 3, 99])), ids(&[3, 2, 1]));
    assert_eq!(ancestors(&graph, &ids(&[])), ids(&[]));
}

#[test]
fn the_push_set_is_what_the_remote_lacks() {
    let graph = graph();
    assert_eq!(resolve_push_set(&graph, &ids(&[6]), &ids(&[3])), ids(&[6, 5, 4]));
    assert_eq!(resolve_push_set(&graph, &ids(&[6]), &ids(&[4, 3])), ids(&[6, 5]));
    assert_eq!(resolve_push_set(&graph, &ids(&[6]), &ids(&[])), ids(&[6, 5, 3, 4, 2, 1]));
    assert_eq!(resolve_push_set(&graph, &ids(&[6]), &ids(&[6])), ids(&[]));
    assert_eq!(resolve_push_set(&graph, &ids(&[6]), &ids(&[7])), ids(&[6, 5, 3]));
    assert_eq!(resolve_push_set(&graph, &ids(&[5]), &ids(&[6])), ids(&[]));
    assert_eq!(resolve_push_set(&graph, &ids(&[7, 6]), &ids(&[2])), ids(&[7, 6, 4, 5, 3]));
    assert_eq!(resolve_push_set(&graph, &ids(&[99, 3]), &ids(&[98, 2])), ids(&[3]));
}

#[test]
fn moves_are_classified_against_the_known_target() {
    let graph = graph();
    let (two, six, seven) = (CommitId(2), CommitId(6), CommitId(7));
    assert_eq!(classify_move(&graph, None, Some(six)), MoveKind::New);
    assert_eq!(classify_move(&graph, None, None), MoveKind::NoOp);
    assert_eq!(classify_move(&graph, Some(six), Some(six)), MoveKind::NoOp);
    assert_eq!(classify_move(&graph, Some(two), Some(six)), MoveKind::FastForward);
    assert_eq!(classify_move(&graph, Some(six), Some(two)), MoveKind::Backward);
    assert_eq!(classify_move(&graph, Some(six), Some(seven)), MoveKind::Backward);
    assert_eq!(classify_move(&graph, Some(six), None), MoveKind::Deleted);
    assert_eq!(classify_move(&graph, Some(CommitId(99)), Some(six)), MoveKind::Backward);
}

#[test]
fn private_commits_are_taken_in_push_order() {
    let push = ids(&[6, 5, 3, 4]);
    assert_eq!(filter_private(&push, &ids(&[4, 5, 1])), ids(&[5, 4]));
    assert_eq!(filter_private(&push, &ids(&[1, 2])), ids(&[]));
    assert_eq!(filter_private(&push, &ids(&[])), ids(&[]));
}

#[test]
fn a_root_has_no_private_parent() {
    let graph = graph();
    assert_eq!(find_private_roots(&graph, &ids(&[6, 5, 4])), ids(&[4]));
    assert_eq!(find_private_roots(&graph, &ids(&[6, 3, 4])), ids(&[6, 3, 4]));
    assert_eq!(find_private_roots(&graph, &ids(&[5, 3])), ids(&[3]));
    assert_eq!(find_private_roots(&graph, &ids(&[99])), ids(&[99]));
    assert_eq!(find_private_roots(&graph, &ids(&[])), ids(&[]));
}

#[test]
fn the_gate_passes_or_names_the_roots() {
    let graph = graph();
    let push = ids(&[6, 5, 3, 4]);
    assert_eq!(check_gate(&graph, &push, &ids(&[1, 2]), false), Gate::Passed);
    assert_eq!(check_gate(&graph, &push, &ids(&[5, 6]), true), Gate::Passed);
    assert_eq!(
        check_gate(&graph, &push, &ids(&[5, 6]), false),
        Gate::Rejected { private_roots: ids(&[5]) }
    );
    assert_eq!(
        check_gate(&graph, &push, &ids(&[3, 6, 2]), false),
        Gate::Rejected { private_roots: ids(&[6, 3]) }
    );
}

#[test]
fn the_store_answers_for_the_remote_asked() {
    let store = RemoteTrackingStore {
        remotes: vec![
            RemoteState {
                name: "origin".to_string(),
                bookmarks: vec![
                    RemoteBookmarkState { name: "main".to_string(), known_target: Some(CommitId(5)) },
                    RemoteBookmarkState { name: "old".to_string(), known_target: None },
                    RemoteBookmarkState { name: "main".to_string(), known_target: Some(CommitId(1)) },
                ],
                known_heads: ids(&[7]),
            },
            RemoteState { name: "other".to_string(), bookmarks: vec![], known_heads: ids(&[3]) },
        ],
    };
    assert_eq!(store.known_target("origin", "main"), Some(CommitId(5)));
    assert_eq!(store.known_target("origin", "old"), None);
    assert_eq!(store.known_target("origin", "none"), None);
    assert_eq!(store.known_target("other", "main"), None);
    assert_eq!(store.known_target("nowhere", "main"), None);
    assert_eq!(store.known_heads("origin"), ids(&[7, 5, 1]));
    assert_eq!(store.known_heads("other"), ids(&[3]));
    assert_eq!(store.known_heads("nowhere"), ids(&[]));
    assert_eq!(store.remote("other").map(|r| r.name.as_str()), Some("other"));
    assert!(store.remote("nowhere").is_none());
    let graph = graph();
    assert_eq!(store.known_commits_closure(&graph, "origin"), ids(&[7, 5, 1, 4, 3, 2]));
    assert_eq!(store.known_commits_closure(&graph, "other"), ids(&[3, 2, 1]));
    assert_eq!(store.known_commits_closure(&graph, "nowhere"), ids(&[]));
}
