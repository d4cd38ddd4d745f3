use sentinel::cycle::Cycle;
use sentinel::cycle::CycleDetector;
use sentinel::cycle::ExecutionNode;

#[test]
fn test_execution_node_creation() {
    let node = ExecutionNode::new("test_state", 42);
    assert_eq!(node.state_id(), "test_state");
    assert_eq!(node.step(), 42);
}

#[test]
fn test_cycle_creation() {
    let nodes = vec![
        ExecutionNode::new("a", 1),
        ExecutionNode::new("b", 2),
        ExecutionNode::new("a", 3),
    ];
    let cycle = Cycle::new(nodes, 3);
    assert_eq!(cycle.detected_at_step(), 3);
    assert_eq!(cycle.length(), 2);
}

#[test]
fn test_no_cycle_detected() {
    let mut detector = CycleDetector::new();
    detector.record_step(ExecutionNode::new("a", 1));
    detector.record_step(ExecutionNode::new("b", 2));
    detector.record_step(ExecutionNode::new("c", 3));

    assert!(detector.detect_cycle().is_none());
}

#[test]
fn test_simple_cycle_floyd() {
    let mut detector = CycleDetector::new();
    detector.record_step(ExecutionNode::new("a", 1));
    detector.record_step(ExecutionNode::new("b", 2));
    detector.record_step(ExecutionNode::new("a", 3));

    let cycle = detector.detect_cycle_floyd();
    assert!(cycle.is_some());
    let cycle = cycle.unwrap();
    assert_eq!(cycle.detected_at_step(), 3);
}

#[test]
fn test_complex_cycle_tarjan() {
    let mut detector = CycleDetector::new();
    detector.record_step(ExecutionNode::new("a", 1));
    detector.record_step(ExecutionNode::new("b", 2));
    detector.record_step(ExecutionNode::new("c", 3));
    detector.record_step(ExecutionNode::new("a", 4));

    let cycle = detector.detect_cycle_tarjan();
    assert!(cycle.is_some());
}

#[test]
fn test_detector_clear() {
    let mut detector = CycleDetector::new();
    detector.record_step(ExecutionNode::new("a", 1));
    detector.record_step(ExecutionNode::new("a", 2));

    assert!(detector.detect_cycle().is_some());

    detector.clear();
    assert!(detector.path().is_empty());
    assert!(detector.detect_cycle().is_none());
}

#[test]
fn test_cycle_detection_halts_execution() {
    let mut detector = CycleDetector::new();

    detector.record_step(ExecutionNode::new("state_a", 1));
    detector.record_step(ExecutionNode::new("state_b", 2));
    detector.record_step(ExecutionNode::new("state_c", 3));
    detector.record_step(ExecutionNode::new("state_a", 4));

    let cycle = detector.detect_cycle();
    assert!(cycle.is_some());
}

#[test]
fn test_cycle_detection_no_false_positives() {
    let mut detector = CycleDetector::new();

    for i in 0..100 {
        detector.record_step(ExecutionNode::new(&format!("unique_{}", i), i as u64));
    }

    let cycle = detector.detect_cycle();
    assert!(cycle.is_none());
}

// the reported span covers the first and last occurrence of the
// revisited state
#[test]
fn test_cycle_span_covers_occurrences() {
    let mut detector = CycleDetector::new();
    detector.record_step(ExecutionNode::new("a", 1));
    detector.record_step(ExecutionNode::new("b", 2));
    detector.record_step(ExecutionNode::new("c", 3));
    detector.record_step(ExecutionNode::new("a", 4));

    let cycle = detector.detect_cycle_floyd().unwrap();
    assert_eq!(cycle.detected_at_step(), 4);
    assert_eq!(cycle.nodes().len(), 4);
    assert_eq!(cycle.length(), 3);
}

#[test]
fn test_tarjan_pure_repeat_is_none() {
    let mut detector = CycleDetector::new();
    detector.record_step(ExecutionNode::new("a", 1));
    detector.record_step(ExecutionNode::new("a", 2));

    assert!(detector.detect_cycle_floyd().is_some());
    assert!(detector.detect_cycle_tarjan().is_none());
}

#[test]
fn test_tarjan_self_loop_run_is_none() {
    let mut detector = CycleDetector::new();
    detector.record_step(ExecutionNode::new("a", 1));
    detector.record_step(ExecutionNode::new("a", 2));
    detector.record_step(ExecutionNode::new("a", 3));

    assert!(detector.detect_cycle_tarjan().is_none());
}

#[test]
fn test_tarjan_mixed_return_is_some() {
    let mut detector = CycleDetector::new();
    detector.record_step(ExecutionNode::new("a", 1));
    detector.record_step(ExecutionNode::new("b", 2));
    detector.record_step(ExecutionNode::new("a", 3));
    detector.record_step(ExecutionNode::new("b", 4));

    let cycle = detector.detect_cycle_tarjan();
    assert!(cycle.is_some());
    assert!(cycle.unwrap().nodes().len() >= 2);
}
