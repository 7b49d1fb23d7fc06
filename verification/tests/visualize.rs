use taskkit::application::visualize::{generate_dot, generate_mermaid, GraphFormat};
use taskkit::domain::recipe::RecipeTask;
use taskkit::domain::recipes::StringMap;

fn make_task(name: &str, deps: Vec<&str>) -> RecipeTask {
    RecipeTask {
        name: name.to_string(),
        description: None,
        command: String::new(),
        depends_on: deps.into_iter().map(String::from).collect(),
        vars: StringMap::new(),
        timeout: None,
        condition: None,
    }
}

#[test]
fn test_dot_empty_tasks() {
    let dot = generate_dot(&[]);
    assert_eq!(dot, "digraph G {\n    rankdir=LR;\n    node [shape=box, style=rounded];\n\n}\n");
}

#[test]
fn test_dot_single_task_no_deps() {
    let tasks = vec![make_task("hello", vec![])];
    let dot = generate_dot(&tasks);
    assert!(dot.contains("\"hello\";"));
    assert!(!dot.contains("->"));
}

#[test]
fn test_dot_simple_dag() {
    let tasks = vec![make_task("lint", vec![]), make_task("build", vec!["lint"]), make_task("test", vec!["build"])];
    let dot = generate_dot(&tasks);
    assert!(dot.contains("\"lint\" -> \"build\""));
    assert!(dot.contains("\"build\" -> \"test\""));
}

#[test]
fn test_dot_complex_dependencies() {
    let tasks = vec![
        make_task("init", vec![]),
        make_task("lint", vec!["init"]),
        make_task("build", vec!["lint"]),
        make_task("test", vec!["build"]),
        make_task("deploy", vec!["build", "test"]),
    ];
    let dot = generate_dot(&tasks);
    assert!(dot.contains("\"init\" -> \"lint\""));
    assert!(dot.contains("\"lint\" -> \"build\""));
    assert!(dot.contains("\"build\" -> \"test\""));
    assert!(dot.contains("\"build\" -> \"deploy\""));
    assert!(dot.contains("\"test\" -> \"deploy\""));
}

#[test]
fn test_dot_fan_out() {
    let tasks = vec![
        make_task("parse", vec![]),
        make_task("validate", vec!["parse"]),
        make_task("transform", vec!["parse"]),
        make_task("output", vec!["validate", "transform"]),
    ];
    let dot = generate_dot(&tasks);
    assert!(dot.contains("\"parse\" -> \"validate\""));
    assert!(dot.contains("\"parse\" -> \"transform\""));
    assert!(dot.contains("\"validate\" -> \"output\""));
    assert!(dot.contains("\"transform\" -> \"output\""));
}

#[test]
fn test_dot_no_edges_for_isolated_tasks() {
    let tasks = vec![make_task("a", vec![]), make_task("b", vec![]), make_task("c", vec![])];
    let dot = generate_dot(&tasks);
    for task in &tasks {
        assert!(dot.contains(&format!("\"{name}\";", name = task.name)));
    }
    assert_eq!(dot.matches("->").count(), 0);
}

#[test]
fn test_mermaid_empty_tasks() {
    let mermaid = generate_mermaid(&[]);
    assert_eq!(mermaid, "flowchart LR\n");
}

#[test]
fn test_mermaid_single_task_no_deps() {
    let tasks = vec![make_task("hello", vec![])];
    let mermaid = generate_mermaid(&tasks);
    assert!(mermaid.contains("hello[\"hello\"]"));
}

#[test]
fn test_mermaid_simple_dag() {
    let tasks = vec![make_task("lint", vec![]), make_task("build", vec!["lint"])];
    let mermaid = generate_mermaid(&tasks);
    assert!(mermaid.contains("lint --> build"));
}

#[test]
fn test_mermaid_complex_dependencies() {
    let tasks = vec![
        make_task("init", vec![]),
        make_task("build", vec!["init"]),
        make_task("test", vec!["build"]),
        make_task("deploy", vec!["build", "test"]),
    ];
    let mermaid = generate_mermaid(&tasks);
    assert!(mermaid.contains("init --> build"));
    assert!(mermaid.contains("build --> test"));
    assert!(mermaid.contains("build --> deploy"));
    assert!(mermaid.contains("test --> deploy"));
}

#[test]
fn test_mermaid_sanitizes_names() {
    let tasks = vec![make_task("my task (1)", vec![])];
    let mermaid = generate_mermaid(&tasks);
    let id = "my_task__1_";
    assert!(mermaid.contains(&format!("{id}[")));
}

#[test]
fn test_graph_format_from_str() {
    assert_eq!("dot".parse::<GraphFormat>().unwrap(), GraphFormat::Dot);
    assert_eq!("DOT".parse::<GraphFormat>().unwrap(), GraphFormat::Dot);
    assert_eq!("mermaid".parse::<GraphFormat>().unwrap(), GraphFormat::Mermaid);
    assert_eq!("MERMAID".parse::<GraphFormat>().unwrap(), GraphFormat::Mermaid);
}

#[test]
fn test_graph_format_invalid() {
    let err = "pdf".parse::<GraphFormat>().unwrap_err();
    assert!(err.contains("pdf"));
    assert!(err.contains("dot"));
    assert!(err.contains("mermaid"));
}

// ---------------------------------------------------------------------------
// Further cases
// ---------------------------------------------------------------------------

#[test]
fn dot_output_is_exact_for_a_chain() {
    let tasks = vec![make_task("a", vec![]), make_task("b", vec!["a"])];
    assert_eq!(
        generate_dot(&tasks),
        "digraph G {\n    rankdir=LR;\n    node [shape=box, style=rounded];\n\n    \"a\";\n    \"b\";\n\n    \"a\" -> \"b\";\n}\n"
    );
}

#[test]
fn dot_escapes_quotes_and_backslashes() {
    let tasks = vec![make_task("say \"hi\"\\", vec![])];
    assert!(generate_dot(&tasks).contains("    \"say \\\"hi\\\"\\\\\";\n"));
}

#[test]
fn mermaid_output_is_exact() {
    let tasks = vec![make_task("a", vec![]), make_task("b c", vec!["a"]), make_task("", vec![])];
    assert_eq!(generate_mermaid(&tasks), "flowchart LR\n    a[\"a\"]\n    a --> b_c\n    node[\"\"]\n");
}

#[test]
fn mermaid_label_with_quote_uses_single_quotes() {
    let tasks = vec![make_task("x\"y", vec![])];
    assert!(generate_mermaid(&tasks).contains("x_y['x\"y']"));
}
