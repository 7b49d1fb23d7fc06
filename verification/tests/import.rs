use taskkit::application::import::{ImportError, ImportResolver, ImportResult, ImportStack};
use taskkit::domain::tasks::Task;

#[test]
fn test_parse_import_directives_single() {
    let content = r#"@import "./base.json"
        {
            "tasks": [],
            "workflows": []
        }"#;
    let directives = ImportResolver::parse_import_directives(content, "/tmp/recipe.json", "/tmp").expect("should parse");
    assert_eq!(directives.len(), 1);
    assert_eq!(directives[0].raw_path, "./base.json");
}

#[test]
fn test_parse_import_directives_multiple() {
    let content = r#"@import "./base.json"
        @import "../common/ci.json"

        {
            "tasks": [],
            "workflows": []
        }"#;
    let directives = ImportResolver::parse_import_directives(content, "/tmp/recipe.json", "/tmp").expect("should parse");
    assert_eq!(directives.len(), 2);
    assert_eq!(directives[0].raw_path, "./base.json");
    assert_eq!(directives[1].raw_path, "../common/ci.json");
}

#[test]
fn test_parse_import_directives_no_imports() {
    let content = r#"{
            "tasks": [],
            "workflows": []
        }"#;
    let directives = ImportResolver::parse_import_directives(content, "/tmp/recipe.json", "/tmp").expect("should parse");
    assert!(directives.is_empty());
}

#[test]
fn test_strip_import_lines() {
    let content = r#"@import "./base.json"
        @import "./more.json"

        { "tasks": [], "workflows": [] }"#;
    let stripped = ImportResolver::strip_import_lines(content);
    assert!(!stripped.contains("@import"));
    assert!(stripped.contains("tasks"));
}

#[test]
fn test_strip_import_lines_preserves_rest() {
    let content = r#"@import "./base.json"

        {
            "tasks": [
                { "name": "build" }
            ]
        }"#;
    let stripped = ImportResolver::strip_import_lines(content);
    assert!(!stripped.contains("@import"));
    assert!(stripped.contains("build"));
}

#[test]
fn missing_quotes_are_rejected() {
    let content = "@import ./base.json\n{}";
    match ImportResolver::parse_import_directives(content, "/tmp/recipe.json", "/tmp").unwrap_err() {
        ImportError::InvalidImport { path, line, message } => {
            assert_eq!(path, "/tmp/recipe.json");
            assert_eq!(line, 1);
            assert_eq!(message, "expected quoted path after @import");
        }
        other => panic!("unexpected: {:?}", other),
    }
}

// ---------------------------------------------------------------------------
// Further cases
// ---------------------------------------------------------------------------

#[test]
fn unclosed_quote_reports_its_line() {
    let content = "{}\n  @import \"./x.json\n";
    match ImportResolver::parse_import_directives(content, "f.json", "/d").unwrap_err() {
        ImportError::InvalidImport { line, message, .. } => {
            assert_eq!(line, 2);
            assert_eq!(message, "unclosed quote in @import path");
        }
        other => panic!("unexpected: {:?}", other),
    }
}

#[test]
fn directive_paths_are_joined_onto_the_directory() {
    let ds = ImportResolver::parse_import_directives("@import \"sub/a.json\" # note\r\n", "/d/f.json", "/d").unwrap();
    assert_eq!(ds.len(), 1);
    assert_eq!(ds[0].raw_path, "sub/a.json");
    assert_eq!(ds[0].resolved_path, "/d/sub/a.json");
    let abs = ImportResolver::parse_import_directives("@import \"/abs.json\"", "/d/f.json", "/d").unwrap();
    assert_eq!(abs[0].resolved_path, "/abs.json");
}

#[test]
fn stripping_keeps_other_lines_exactly() {
    assert_eq!(ImportResolver::strip_import_lines("a\r\n @import \"x\"\nb\n"), "a\nb");
    assert_eq!(ImportResolver::strip_import_lines(""), "");
}

#[test]
fn import_stack_refuses_a_file_being_resolved() {
    let mut stack = ImportStack::new();
    assert!(stack.enter("/r/a.json").is_ok());
    assert!(stack.enter("/r/b.json").is_ok());
    match stack.enter("/r/a.json") {
        Err(ImportError::CircularImport { path }) => assert_eq!(path, "/r/a.json"),
        other => panic!("unexpected: {:?}", other),
    }
    assert_eq!(stack.paths, vec!["/r/a.json".to_string(), "/r/b.json".to_string()]);
    stack.leave();
    assert_eq!(stack.paths, vec!["/r/a.json".to_string()]);
    assert!(stack.enter("/r/b.json").is_ok());
}

#[test]
fn import_result_appends_in_order() {
    let mut r = ImportResult::new(vec![Task::new("own".to_string())], Vec::new());
    r.append(ImportResult::new(vec![Task::new("imported-1".to_string()), Task::new("imported-2".to_string())], Vec::new()));
    let names: Vec<&str> = r.tasks.iter().map(|t| t.name.as_str()).collect();
    assert_eq!(names, vec!["own", "imported-1", "imported-2"]);
    assert!(r.workflows.is_empty());
}
