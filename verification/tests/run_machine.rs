use toolflow::run::{
    topological_order, WorkflowEdge, WorkflowNodeStatus, WorkflowNodeStatusValue, WorkflowRun,
};
use toolflow::workflow::WorkflowState;

fn edge(source: usize, target: usize, slot: usize) -> WorkflowEdge {
    WorkflowEdge {
        source_node: source,
        target_node: target,
        target_slot: slot,
    }
}

#[test]
fn fresh_run_marks_output_nodes() {
    // A -> B -> C: only C has no outgoing edge.
    let run = WorkflowRun::new_run(7, 3, vec![edge(0, 1, 0), edge(1, 2, 0)]);
    assert!(!run.is_output_node(0));
    assert!(!run.is_output_node(1));
    assert!(run.is_output_node(2));
    assert!(!run.is_output_node(99));
    assert_eq!(run.get_next_nodes_to_run(), vec![0]);
}

#[test]
fn waves_grow_the_done_set() {
    let mut run = WorkflowRun::new_run(1, 2, vec![edge(0, 1, 0)]);
    assert_eq!(run.get_next_nodes_to_run(), vec![0]);
    run.record_result(0, true, None);
    run.set_done_with_uuid(0, "artifact-a");
    assert_eq!(run.nodes_done(), 1);
    assert_eq!(run.get_next_nodes_to_run(), vec![1]);
    run.record_result(1, true, None);
    assert_eq!(run.nodes_done(), 2);
    assert!(run.get_next_nodes_to_run().is_empty());
    assert!(run.has_completed_succesfully());
    assert!(!run.has_failed());
    assert!(run.has_ended());
}

#[test]
fn failed_node_fails_the_run() {
    let mut run = WorkflowRun::new_run(1, 2, vec![edge(0, 1, 0)]);
    run.record_result(0, false, Some("network down".to_string()));
    assert!(run.has_failed());
    assert!(run.has_ended());
    // The dependent node never becomes ready.
    assert!(run.get_next_nodes_to_run().is_empty());
}

#[test]
fn resume_with_intermediate_failure() {
    // A -> B -> C where B completed earlier but A did not: B must be reset,
    // its artifact deleted, and the next wave runs A.
    let mut run = WorkflowRun::new_run(1, 3, vec![edge(0, 1, 0), edge(1, 2, 0)]);
    run.mark_done_from_files(&vec![("uuid-b".to_string(), 1usize)])
        .unwrap();
    let removed = run.reset_dependents();
    assert_eq!(removed, vec!["uuid-b".to_string()]);
    for i in 0..3 {
        assert!(run.get_node_status(i).is_waiting());
        assert_eq!(run.get_node_status(i).uuid(), "");
    }
    assert_eq!(run.get_next_nodes_to_run(), vec![0]);
}

#[test]
fn resume_keeps_consistent_artifacts() {
    // A -> B with both artifacts present: nothing is reset.
    let mut run = WorkflowRun::new_run(1, 2, vec![edge(0, 1, 0)]);
    run.mark_done_from_files(&vec![
        ("uuid-a".to_string(), 0usize),
        ("uuid-b".to_string(), 1usize),
    ])
    .unwrap();
    let removed = run.reset_dependents();
    assert!(removed.is_empty());
    assert!(run.get_node_status(0).is_done());
    assert!(run.get_node_status(1).is_done());
    assert!(run.get_next_nodes_to_run().is_empty());
}

#[test]
fn loading_a_run_twice_gives_the_same_statuses() {
    // Reconcile once, delete the removed artifacts, reconcile the survivors:
    // the status vector is unchanged.
    let edges = vec![edge(0, 1, 0), edge(1, 2, 0)];
    let rows = vec![
        ("uuid-b".to_string(), 1usize),
        ("uuid-c".to_string(), 2usize),
    ];
    let mut first = WorkflowRun::new_run(1, 3, edges.clone());
    first.mark_done_from_files(&rows).unwrap();
    let removed = first.reset_dependents();
    assert_eq!(removed.len(), 2);
    let surviving: Vec<(String, usize)> = rows
        .iter()
        .filter(|(u, _)| !removed.contains(u))
        .cloned()
        .collect();
    let mut second = WorkflowRun::new_run(1, 3, edges);
    second.mark_done_from_files(&surviving).unwrap();
    let also_removed = second.reset_dependents();
    assert!(also_removed.is_empty());
    for i in 0..3 {
        let a = first.get_node_status(i);
        let b = second.get_node_status(i);
        assert_eq!(a.is_done(), b.is_done());
        assert_eq!(a.is_waiting(), b.is_waiting());
        assert_eq!(a.uuid(), b.uuid());
    }
}

#[test]
fn unknown_node_in_file_rows_is_an_error() {
    let mut run = WorkflowRun::new_run(1, 2, vec![edge(0, 1, 0)]);
    assert!(run
        .mark_done_from_files(&vec![("uuid-x".to_string(), 9usize)])
        .is_err());
}

#[test]
fn topological_order_witnesses_acyclicity() {
    let edges = vec![edge(0, 2, 0), edge(1, 2, 1), edge(2, 3, 0)];
    let order = topological_order(4, &edges).unwrap();
    assert_eq!(order.len(), 4);
    let pos = |id: usize| order.iter().position(|x| *x == id).unwrap();
    assert!(pos(0) < pos(2));
    assert!(pos(1) < pos(2));
    assert!(pos(2) < pos(3));
    // A cycle has no topological order.
    let cyclic = vec![edge(0, 1, 0), edge(1, 0, 0)];
    assert!(topological_order(2, &cyclic).is_none());
}

#[test]
fn status_words_match_the_database() {
    assert_eq!(WorkflowNodeStatusValue::WAITING.as_str(), "WAIT");
    assert_eq!(WorkflowNodeStatusValue::RUNNING.as_str(), "RUN");
    assert_eq!(WorkflowNodeStatusValue::DONE.as_str(), "DONE");
    assert_eq!(WorkflowNodeStatusValue::FAILED.as_str(), "FAIL");
    assert_eq!(WorkflowNodeStatusValue::CANCEL.as_str(), "CANCEL");
    assert!(matches!(
        WorkflowState::from_str("DRAFT"),
        Some(WorkflowState::DRAFT)
    ));
    assert!(matches!(
        WorkflowState::from_str("PUBLISHED"),
        Some(WorkflowState::PUBLISHED)
    ));
    assert!(WorkflowState::from_str("OTHER").is_none());
}

#[test]
fn node_status_transitions() {
    let mut s = WorkflowNodeStatus::new(3);
    assert!(s.is_waiting());
    s.set_status(WorkflowNodeStatusValue::FAILED, Some("boom".to_string()));
    assert!(s.is_failed());
    s.done_with_uuid("abc");
    assert!(s.is_done());
    assert_eq!(s.uuid(), "abc");
}
