// Tests for the library's documented behaviour: node idempotence, the edge
// precondition and its atomicity, the cortex's fixed size, stage sequencing
// counts, fail-fast error propagation, and shape preservation across a
// pipeline of no-op stages.

use std::cell::Cell;

use reality_engine::{
    Chart, CognitiveStack, DefaultQuaternionEmbedding, FoundationModel, HpcOperator, Manifold,
    ManifoldNode, MemoryCortex, Quaternion, QuaternionEmbedding, Scheduler, UorError, UorResult,
};

struct CountingModel {
    calls: usize,
    fail: bool,
}

impl FoundationModel for CountingModel {
    fn process_manifold(&mut self, input: &Manifold) -> UorResult<Manifold> {
        self.calls += 1;
        if self.fail {
            Err(UorError::Other("deliberate stage failure".to_string()))
        } else {
            Ok(input.clone())
        }
    }
}

struct CountingScheduler {
    calls: usize,
    fail: bool,
}

impl Scheduler for CountingScheduler {
    fn schedule(&mut self, _manifold: &Manifold) -> UorResult<()> {
        self.calls += 1;
        if self.fail {
            Err(UorError::ConcurrencyError("deliberate dispatch failure".to_string()))
        } else {
            Ok(())
        }
    }
}

struct CountingOperator {
    calls: Cell<usize>,
}

impl HpcOperator for CountingOperator {
    fn apply(&self, manifold: &Manifold) -> UorResult<Manifold> {
        self.calls.set(self.calls.get() + 1);
        Ok(manifold.clone())
    }
}

struct RecordingEmbedding {
    calls: Cell<usize>,
    nodes_seen: Cell<usize>,
    edges_seen: Cell<usize>,
}

impl QuaternionEmbedding for RecordingEmbedding {
    fn embed_manifold(
        &self,
        manifold: &Manifold,
        _cortex: &mut MemoryCortex,
    ) -> UorResult<Vec<Quaternion>> {
        self.calls.set(self.calls.get() + 1);
        self.nodes_seen.set(manifold.node_count());
        self.edges_seen.set(manifold.edge_count());
        Ok(Vec::new())
    }
}

fn counting_stack(
    fails: Vec<bool>,
    scheduler_fails: bool,
) -> CognitiveStack<CountingModel, RecordingEmbedding, CountingOperator, CountingScheduler> {
    let models = fails.into_iter().map(|fail| CountingModel { calls: 0, fail }).collect();
    CognitiveStack::new_with_parts(
        models,
        RecordingEmbedding {
            calls: Cell::new(0),
            nodes_seen: Cell::new(0),
            edges_seen: Cell::new(0),
        },
        CountingOperator { calls: Cell::new(0) },
        CountingScheduler { calls: 0, fail: scheduler_fails },
    )
}

#[test]
fn test_node_idempotence_overwrites() {
    let mut m = Manifold::new();
    m.add_node(ManifoldNode { id: "A".to_string(), data: "first".to_string() });
    assert_eq!(m.node_count(), 1);
    m.add_node(ManifoldNode { id: "A".to_string(), data: "second".to_string() });
    // Same id again: the count stays, the payload is replaced
    assert_eq!(m.node_count(), 1);
    assert_eq!(m.node_data("A"), Some("second".to_string()));
    m.add_node(ManifoldNode { id: "B".to_string(), data: "other".to_string() });
    assert_eq!(m.node_count(), 2);
    assert_eq!(m.node_data("C"), None);
}

#[test]
fn test_edge_precondition_both_endpoints() {
    let mut m = Manifold::new();
    assert!(m.add_edge("A", "B").is_err());
    m.add_node(ManifoldNode { id: "A".to_string(), data: "a".to_string() });
    // Destination missing
    assert!(m.add_edge("A", "B").is_err());
    // Source missing
    assert!(m.add_edge("B", "A").is_err());
    m.add_node(ManifoldNode { id: "B".to_string(), data: "b".to_string() });
    assert!(m.add_edge("A", "B").is_ok());
}

#[test]
fn test_edge_failure_changes_nothing() {
    let mut m = Manifold::new();
    m.add_node(ManifoldNode { id: "A".to_string(), data: "a".to_string() });
    m.add_node(ManifoldNode { id: "B".to_string(), data: "b".to_string() });
    m.add_edge("A", "B").unwrap();
    let err = m.add_edge("A", "C").unwrap_err();
    match err {
        UorError::General(msg) => {
            assert_eq!(msg, "Cannot add edge from A to C: Node(s) not found");
        },
        _ => panic!("expected a general reference error"),
    }
    // The failed insertion left the adjacency untouched
    assert_eq!(m.edge_count(), 1);
    assert_eq!(m.targets_of("A"), Some(vec!["B".to_string()]));
    assert_eq!(m.targets_of("C"), None);
}

#[test]
fn test_edge_duplicates_are_kept() {
    let mut m = Manifold::new();
    m.add_node(ManifoldNode { id: "A".to_string(), data: "a".to_string() });
    m.add_node(ManifoldNode { id: "B".to_string(), data: "b".to_string() });
    m.add_edge("A", "B").unwrap();
    m.add_edge("A", "B").unwrap();
    assert_eq!(m.edge_count(), 1);
    assert_eq!(m.targets_of("A"), Some(vec!["B".to_string(), "B".to_string()]));
}

#[test]
fn test_chart_empty_error_message() {
    let err = Chart::from_json("empty", "1.0", "").unwrap_err();
    match err {
        UorError::ChartError(msg) => {
            assert_eq!(msg, "Provided JSON for Chart is empty.");
        },
        _ => panic!("expected a chart error"),
    }
}

#[test]
fn test_cortex_fixed_size_every_construction() {
    for _ in 0..3 {
        let a = MemoryCortex::new_144();
        let b = MemoryCortex::default();
        assert_eq!(a.references.len(), 144);
        assert_eq!(b.references.len(), 144);
        assert!(a.references.iter().all(|r| r.data.is_none()));
        assert!(b.references.iter().all(|r| r.data.is_none()));
        assert!(a.references.iter().enumerate().all(|(i, r)| r.prime_index == i));
    }
}

#[test]
fn test_stage_sequencing_success_counts() {
    // Three domain-transform stages: the successful path makes N + 3 calls,
    // each stage exactly once.
    let mut stack = counting_stack(vec![false, false, false], false);
    let mut m = Manifold::new();
    m.add_node(ManifoldNode { id: "N1".to_string(), data: "d".to_string() });
    assert!(stack.process(m).is_ok());
    assert_eq!(stack.models.len(), 3);
    for model in &stack.models {
        assert_eq!(model.calls, 1);
    }
    assert_eq!(stack.scheduler.calls, 1);
    assert_eq!(stack.operator.calls.get(), 1);
    assert_eq!(stack.embedding.calls.get(), 1);
}

#[test]
fn test_fail_fast_stage_two() {
    // A three-stage stack whose second stage always fails: the second
    // stage's exact error comes back, the third stage and everything after
    // it record zero invocations.
    let mut stack = counting_stack(vec![false, true, false], false);
    let err = stack.process(Manifold::new()).unwrap_err();
    match err {
        UorError::Other(msg) => assert_eq!(msg, "deliberate stage failure"),
        _ => panic!("expected the failing stage's own error"),
    }
    assert_eq!(stack.models[0].calls, 1);
    assert_eq!(stack.models[1].calls, 1);
    assert_eq!(stack.models[2].calls, 0);
    assert_eq!(stack.scheduler.calls, 0);
    assert_eq!(stack.operator.calls.get(), 0);
    assert_eq!(stack.embedding.calls.get(), 0);
}

#[test]
fn test_fail_fast_scheduler() {
    // A failing scheduler stops the run after the transforms: the operator
    // and the embedding never run, and the dispatch error comes back.
    let mut stack = counting_stack(vec![false], true);
    let err = stack.process(Manifold::new()).unwrap_err();
    match err {
        UorError::ConcurrencyError(msg) => assert_eq!(msg, "deliberate dispatch failure"),
        _ => panic!("expected the scheduler's own error"),
    }
    assert_eq!(stack.models[0].calls, 1);
    assert_eq!(stack.scheduler.calls, 1);
    assert_eq!(stack.operator.calls.get(), 0);
    assert_eq!(stack.embedding.calls.get(), 0);
}

#[test]
fn test_round_trip_noop_stages() {
    // Identity-behaved transform and operator, a no-op scheduler: a graph
    // with 2 nodes and 1 edge keeps that shape all the way to the embedding.
    let mut stack = counting_stack(vec![false], false);
    let mut m = Manifold::new();
    m.add_node(ManifoldNode { id: "N1".to_string(), data: "d1".to_string() });
    m.add_node(ManifoldNode { id: "N2".to_string(), data: "d2".to_string() });
    m.add_edge("N1", "N2").unwrap();
    let kept = m.clone();
    assert!(stack.process(m).is_ok());
    assert_eq!(stack.embedding.nodes_seen.get(), 2);
    assert_eq!(stack.embedding.edges_seen.get(), 1);
    // The caller's retained copy is untouched as well
    assert_eq!(kept.node_count(), 2);
    assert_eq!(kept.edge_count(), 1);
    assert_eq!(kept.targets_of("N1"), Some(vec!["N2".to_string()]));
}

#[test]
fn test_embedding_leaves_cortex_empty() {
    let embedding = DefaultQuaternionEmbedding::default();
    let mut cortex = MemoryCortex::new_144();
    let manifold = Manifold::new();
    embedding.embed_manifold(&manifold, &mut cortex).unwrap();
    assert_eq!(cortex.references.len(), 144);
    assert!(cortex.references.iter().all(|r| r.data.is_none()));
}
