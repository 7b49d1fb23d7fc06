use taskkit::domain::dag::{DagError, ExecutionDag};
use taskkit::domain::workflows::{Workflow, WorkflowStep};

fn step(name: &str, deps: &[&str]) -> WorkflowStep {
    let mut s = WorkflowStep::new(name.to_string());
    for d in deps {
        s = s.with_dependency(d.to_string());
    }
    s
}

fn three_step_chain() -> Workflow {
    Workflow::new("chain".to_string())
        .with_step(step("a", &[]))
        .with_step(step("b", &["a"]))
        .with_step(step("c", &["b"]))
}

fn diamond() -> Workflow {
    Workflow::new("diamond".to_string())
        .with_step(step("a", &[]))
        .with_step(step("b", &["a"]))
        .with_step(step("c", &["a"]))
        .with_step(step("d", &["b", "c"]))
}

#[test]
fn test_simple_chain_layers() {
    let mut wf = three_step_chain();
    wf.build_dag().unwrap();
    let dag = ExecutionDag::from_workflow(&wf).unwrap();
    assert_eq!(dag.layer_count(), 3);
    assert_eq!(dag.layer(0).unwrap(), &["a".to_string()]);
    assert_eq!(dag.layer(1).unwrap(), &["b".to_string()]);
    assert_eq!(dag.layer(2).unwrap(), &["c".to_string()]);
}

#[test]
fn test_diamond_parallel_layers() {
    let mut wf = diamond();
    wf.build_dag().unwrap();
    let dag = ExecutionDag::from_workflow(&wf).unwrap();
    assert_eq!(dag.layer_count(), 3);
    assert_eq!(dag.layer(0).unwrap(), &["a".to_string()]);
    let middle = dag.layer(1).unwrap();
    assert!(middle.contains(&"b".to_string()));
    assert!(middle.contains(&"c".to_string()));
    assert_eq!(middle.len(), 2);
    assert_eq!(dag.layer(2).unwrap(), &["d".to_string()]);
}

#[test]
fn test_empty_workflow_is_error() {
    let wf = Workflow::new("empty".to_string());
    let err = ExecutionDag::from_workflow(&wf).unwrap_err();
    assert_eq!(err, DagError::Empty);
}

#[test]
fn test_duplicate_id_detected() {
    let wf = Workflow::new("dup".to_string()).with_step(step("a", &[])).with_step(step("a", &[]));
    let err = ExecutionDag::from_workflow(&wf).unwrap_err();
    assert!(matches!(err, DagError::DuplicateId(_)));
}

#[test]
fn test_self_loop_detected() {
    let wf = Workflow::new("self".to_string()).with_step(step("a", &["a"]));
    let err = ExecutionDag::from_workflow(&wf).unwrap_err();
    assert!(matches!(err, DagError::SelfLoop(_)));
}

#[test]
fn test_missing_dependency_detected() {
    let wf = Workflow::new("missing".to_string()).with_step(step("a", &["z"]));
    let err = ExecutionDag::from_workflow(&wf).unwrap_err();
    match err {
        DagError::MissingDependency { step, missing } => {
            assert_eq!(step, "a");
            assert_eq!(missing, "z");
        }
        other => panic!("unexpected: {:?}", other),
    }
}

#[test]
fn test_cycle_path_reported() {
    let wf = Workflow::new("cycle".to_string())
        .with_step(step("a", &["c"]))
        .with_step(step("b", &["a"]))
        .with_step(step("c", &["b"]));
    let err = ExecutionDag::from_workflow(&wf).unwrap_err();
    match err {
        DagError::Cycle(path) => {
            assert!(!path.is_empty());
            assert_eq!(path[0], path[path.len() - 1]);
        }
        other => panic!("unexpected: {:?}", other),
    }
}

#[test]
fn test_topological_order_chain() {
    let mut wf = three_step_chain();
    wf.build_dag().unwrap();
    let dag = ExecutionDag::from_workflow(&wf).unwrap();
    assert_eq!(dag.topological_order(), &["a".to_string(), "b".to_string(), "c".to_string()]);
}

#[test]
fn test_layer_index_of() {
    let mut wf = diamond();
    wf.build_dag().unwrap();
    let dag = ExecutionDag::from_workflow(&wf).unwrap();
    assert_eq!(dag.layer_index_of("a"), Some(0));
    assert_eq!(dag.layer_index_of("d"), Some(2));
    assert_eq!(dag.layer_index_of("z"), None);
}

#[test]
fn test_must_precede() {
    let mut wf = diamond();
    wf.build_dag().unwrap();
    let dag = ExecutionDag::from_workflow(&wf).unwrap();
    assert!(dag.must_precede("a", "d"));
    assert!(dag.must_precede("a", "b"));
    assert!(dag.must_precede("b", "d"));
    assert!(!dag.must_precede("b", "c"));
    assert!(!dag.must_precede("a", "a"));
}

#[test]
fn test_ready_after_initial() {
    let mut wf = diamond();
    wf.build_dag().unwrap();
    let dag = ExecutionDag::from_workflow(&wf).unwrap();
    let ready = dag.ready_after(&[]);
    assert_eq!(ready, vec!["a".to_string()]);
}

#[test]
fn test_ready_after_partial() {
    let mut wf = diamond();
    wf.build_dag().unwrap();
    let dag = ExecutionDag::from_workflow(&wf).unwrap();
    let ready = dag.ready_after(&["a".to_string()]);
    assert!(ready.contains(&"b".to_string()));
    assert!(ready.contains(&"c".to_string()));
    assert!(!ready.contains(&"d".to_string()));
}

#[test]
fn test_ready_after_complete() {
    let mut wf = three_step_chain();
    wf.build_dag().unwrap();
    let dag = ExecutionDag::from_workflow(&wf).unwrap();
    let ready = dag.ready_after(&["a".to_string(), "b".to_string(), "c".to_string()]);
    assert!(ready.is_empty());
}

#[test]
fn test_step_lookup() {
    let mut wf = three_step_chain();
    wf.build_dag().unwrap();
    let dag = ExecutionDag::from_workflow(&wf).unwrap();
    assert!(dag.step("a").is_some());
    assert!(dag.step("missing").is_none());
}

#[test]
fn test_len_and_is_empty() {
    let mut wf = three_step_chain();
    wf.build_dag().unwrap();
    let dag = ExecutionDag::from_workflow(&wf).unwrap();
    assert_eq!(dag.len(), 3);
    assert!(!dag.is_empty());
}

#[test]
fn test_layer_out_of_bounds() {
    let mut wf = three_step_chain();
    wf.build_dag().unwrap();
    let dag = ExecutionDag::from_workflow(&wf).unwrap();
    assert!(dag.layer(99).is_none());
}

// ---------------------------------------------------------------------------
// Laws on concrete graphs
// ---------------------------------------------------------------------------

#[test]
fn every_dependency_lies_in_an_earlier_layer() {
    let wf = diamond();
    let dag = ExecutionDag::from_workflow(&wf).unwrap();
    for s in &wf.steps {
        let own = dag.layer_index_of(&s.id).unwrap();
        for d in &s.depends_on {
            assert!(dag.layer_index_of(d).unwrap() < own);
        }
    }
}

#[test]
fn layers_partition_the_steps() {
    let dag = ExecutionDag::from_workflow(&diamond()).unwrap();
    let mut all: Vec<String> = dag.layers().iter().flat_map(|l| l.iter().cloned()).collect();
    all.sort();
    assert_eq!(all, vec!["a", "b", "c", "d"]);
}

#[test]
fn topological_order_puts_dependencies_first() {
    let wf = Workflow::new("w".to_string())
        .with_step(step("z", &["m"]))
        .with_step(step("m", &[]))
        .with_step(step("a", &["m"]))
        .with_step(step("q", &["z", "a"]));
    let dag = ExecutionDag::from_workflow(&wf).unwrap();
    let order = dag.topological_order();
    assert_eq!(order, &["m".to_string(), "a".to_string(), "z".to_string(), "q".to_string()]);
    let pos = |x: &str| order.iter().position(|o| o == x).unwrap();
    for s in &wf.steps {
        for d in &s.depends_on {
            assert!(pos(d) < pos(&s.id));
        }
    }
}

#[test]
fn must_precede_is_a_strict_order() {
    let dag = ExecutionDag::from_workflow(&diamond()).unwrap();
    let ids = ["a", "b", "c", "d"];
    for x in ids {
        assert!(!dag.must_precede(x, x));
        for y in ids {
            assert!(!(dag.must_precede(x, y) && dag.must_precede(y, x)));
        }
    }
    assert!(!dag.must_precede("a", "zz"));
}

#[test]
fn ready_after_nothing_is_the_first_layer_sorted() {
    let wf = Workflow::new("w".to_string()).with_step(step("y", &[])).with_step(step("x", &[])).with_step(step("w", &["x"]));
    let dag = ExecutionDag::from_workflow(&wf).unwrap();
    assert_eq!(dag.ready_after(&[]), vec!["x".to_string(), "y".to_string()]);
    assert_eq!(dag.layer(0).unwrap(), &["y".to_string(), "x".to_string()]);
}

#[test]
fn first_failure_wins() {
    let wf = Workflow::new("w".to_string()).with_step(step("a", &["missing"])).with_step(step("a", &[]));
    assert_eq!(ExecutionDag::from_workflow(&wf).unwrap_err(), DagError::DuplicateId("a".into()));
}

#[test]
fn cycle_path_closes_and_leaves_out_steps_merely_waiting_on_it() {
    let wf = Workflow::new("cyc".to_string())
        .with_step(step("a", &["b"]))
        .with_step(step("c", &["a"]))
        .with_step(step("b", &["a"]));
    match ExecutionDag::from_workflow(&wf).unwrap_err() {
        DagError::Cycle(path) => {
            assert_eq!(path, vec!["a".to_string(), "b".to_string(), "a".to_string()]);
        }
        other => panic!("unexpected: {:?}", other),
    }
}

#[test]
fn cycle_path_follows_dependency_direction() {
    let wf = Workflow::new("cycle".to_string())
        .with_step(step("a", &["c"]))
        .with_step(step("b", &["a"]))
        .with_step(step("c", &["b"]));
    match ExecutionDag::from_workflow(&wf).unwrap_err() {
        DagError::Cycle(path) => {
            let expected: Vec<String> = ["a", "b", "c", "a"].iter().map(|s| s.to_string()).collect();
            assert_eq!(path, expected);
        }
        other => panic!("unexpected: {:?}", other),
    }
}
