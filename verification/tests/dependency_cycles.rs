use taskkit::domain::tasks::{checked_topological_sort_tasks, topological_sort_tasks, Task};

#[test]
fn test_valid_dag_sorted_correctly() {
    let build_lib = Task::new("build-lib".to_string());
    let build_bin = Task::new("build-bin".to_string()).with_dependency(build_lib.id.clone());
    let test = Task::new("test".to_string())
        .with_dependency(build_lib.id.clone())
        .with_dependency(build_bin.id.clone());
    let deploy = Task::new("deploy".to_string()).with_dependency(test.id.clone());

    let sorted = topological_sort_tasks(&[deploy, test, build_bin, build_lib]);
    assert_eq!(sorted.len(), 4);

    let pos_lib = sorted.iter().position(|t| t.name == "build-lib").unwrap();
    let pos_bin = sorted.iter().position(|t| t.name == "build-bin").unwrap();
    let pos_test = sorted.iter().position(|t| t.name == "test").unwrap();
    let pos_deploy = sorted.iter().position(|t| t.name == "deploy").unwrap();

    assert!(pos_lib < pos_bin, "build-lib before build-bin");
    assert!(pos_lib < pos_test, "build-lib before test");
    assert!(pos_bin < pos_test, "build-bin before test");
    assert!(pos_test < pos_deploy, "test before deploy");
}

#[test]
fn test_disconnected_subgraphs() {
    let a1 = Task::new("chain1-a".to_string());
    let a2 = Task::new("chain1-b".to_string()).with_dependency(a1.id.clone());
    let b1 = Task::new("chain2-a".to_string());
    let b2 = Task::new("chain2-b".to_string()).with_dependency(b1.id.clone());

    let sorted = topological_sort_tasks(&[a2, b2, a1, b1]);
    assert_eq!(sorted.len(), 4);

    let pos_a1 = sorted.iter().position(|t| t.name == "chain1-a").unwrap();
    let pos_a2 = sorted.iter().position(|t| t.name == "chain1-b").unwrap();
    let pos_b1 = sorted.iter().position(|t| t.name == "chain2-a").unwrap();
    let pos_b2 = sorted.iter().position(|t| t.name == "chain2-b").unwrap();

    assert!(pos_a1 < pos_a2, "chain1 internal order");
    assert!(pos_b1 < pos_b2, "chain2 internal order");
}

#[test]
fn test_single_task_no_deps() {
    let t = Task::new("standalone".to_string());
    let sorted = topological_sort_tasks(&[t]);
    assert_eq!(sorted.len(), 1);
}

#[test]
fn test_diamond_dag() {
    let root = Task::new("root".to_string());
    let left = Task::new("left".to_string()).with_dependency(root.id.clone());
    let right = Task::new("right".to_string()).with_dependency(root.id.clone());
    let leaf = Task::new("leaf".to_string())
        .with_dependency(left.id.clone())
        .with_dependency(right.id.clone());

    let sorted = topological_sort_tasks(&[leaf, right, left, root]);
    assert_eq!(sorted.len(), 4);

    let pos_root = sorted.iter().position(|t| t.name == "root").unwrap();
    let pos_leaf = sorted.iter().position(|t| t.name == "leaf").unwrap();
    assert!(pos_root < pos_leaf, "root before leaf");
}

#[test]
fn direct_cycle_has_no_order() {
    let mut a = Task::new("a".to_string());
    let b = Task::new("b".to_string()).with_dependency(a.id.clone());
    a.depends_on.push(b.id.clone());
    assert!(checked_topological_sort_tasks(&[a, b]).is_none());
}

#[test]
fn indirect_cycle_has_no_order() {
    let mut a = Task::new("a".to_string());
    let b = Task::new("b".to_string()).with_dependency(a.id.clone());
    let c = Task::new("c".to_string()).with_dependency(b.id.clone());
    a.depends_on.push(c.id.clone());
    assert!(checked_topological_sort_tasks(&[a, b, c]).is_none());
}

#[test]
fn self_cycle_has_no_order() {
    let mut a = Task::new("self-cycle".to_string());
    a.depends_on.push(a.id.clone());
    assert!(checked_topological_sort_tasks(&[a]).is_none());
}

#[test]
fn order_is_first_ready_in_list_order() {
    let root = Task::new("root".to_string());
    let child = Task::new("child".to_string()).with_dependency(root.id.clone());
    let other = Task::new("other".to_string());
    let sorted = checked_topological_sort_tasks(&[child, other, root]).unwrap();
    let names: Vec<&str> = sorted.iter().map(|t| t.name.as_str()).collect();
    assert_eq!(names, vec!["other", "root", "child"]);
}

#[test]
fn dependencies_outside_the_list_are_ignored() {
    let outside = Task::new("outside".to_string());
    let inside = Task::new("inside".to_string()).with_dependency(outside.id.clone());
    let sorted = topological_sort_tasks(&[inside]);
    assert_eq!(sorted.len(), 1);
    assert_eq!(sorted[0].name, "inside");
}

#[test]
fn dag_correctness_chain() {
    let t1 = Task::new("root".to_string()).with_command("echo root".to_string());
    let t2 = Task::new("child".to_string()).with_dependency(t1.id.clone()).with_command("echo child".to_string());
    let t3 = Task::new("child2".to_string()).with_dependency(t2.id.clone()).with_command("echo child2".to_string());
    let sorted = topological_sort_tasks(&[t3.clone(), t1.clone(), t2.clone()]);
    let ids: Vec<_> = sorted.iter().map(|t| t.id.clone()).collect();
    assert_eq!(ids, vec![t1.id, t2.id, t3.id]);
}
