use taskkit::domain::recipe::{ParseError, RecipeFile, RecipeFormat, TaskStepDef, TaskenfileParser};
use taskkit::domain::recipes::StringMap;

fn vars(pairs: &[(&str, &str)]) -> StringMap {
    let mut m = StringMap::new();
    for (k, v) in pairs {
        m.insert(k, v);
    }
    m
}

fn step(name: &str, command: &str, deps: &[&str]) -> TaskStepDef {
    TaskStepDef {
        name: name.to_string(),
        description: None,
        command: command.to_string(),
        depends_on: deps.iter().map(|d| d.to_string()).collect(),
        vars: StringMap::new(),
        timeout: None,
    }
}

fn recipe(tasks: Vec<TaskStepDef>, recipe_vars: StringMap) -> RecipeFile {
    RecipeFile { name: "r".to_string(), description: None, author: None, vars: recipe_vars, tasks }
}

#[test]
fn test_interpolation_no_vars_needed() {
    let cmd = TaskenfileParser::interpolate("echo hello", &StringMap::new(), "test").unwrap();
    assert_eq!(cmd, "echo hello");
}

#[test]
fn test_interpolation_no_placeholders_preserves_whitespace() {
    let cmd = TaskenfileParser::interpolate("  echo  hello  ", &StringMap::new(), "test").unwrap();
    assert_eq!(cmd, "  echo  hello  ");
}

#[test]
fn test_interpolation_multiple_vars() {
    let v = vars(&[("a", "1"), ("b", "2"), ("c", "3")]);
    let cmd = TaskenfileParser::interpolate("{{ a }}-{{ b }}-{{ c }}", &v, "test").unwrap();
    assert_eq!(cmd, "1-2-3");
}

#[test]
fn test_interpolation_vars_with_extra_whitespace() {
    let v = vars(&[("name", "world")]);
    let cmd = TaskenfileParser::interpolate("echo hello {{  name  }}", &v, "test").unwrap();
    assert_eq!(cmd, "echo hello world");
}

#[test]
fn recipe_without_tasks_is_rejected() {
    let err = TaskenfileParser::from_recipe_file(recipe(vec![], StringMap::new())).unwrap_err();
    assert!(matches!(err, ParseError::NoTasks));
}

#[test]
fn undefined_variable_is_rejected() {
    let err = TaskenfileParser::from_recipe_file(recipe(vec![step("x", "echo {{ nope }}", &[])], StringMap::new()))
        .unwrap_err();
    match err {
        ParseError::UndefinedVariable { name, task } => {
            assert_eq!(name, "nope");
            assert_eq!(task, "x");
        }
        other => panic!("unexpected: {:?}", other),
    }
}

#[test]
fn blank_task_name_is_rejected() {
    let err = TaskenfileParser::from_recipe_file(recipe(vec![step("  ", "echo", &[])], StringMap::new())).unwrap_err();
    assert!(matches!(err, ParseError::InvalidTaskName(_)));
}

#[test]
fn unknown_dependency_is_rejected() {
    let err = TaskenfileParser::from_recipe_file(recipe(vec![step("a", "echo", &["ghost"])], StringMap::new()))
        .unwrap_err();
    match err {
        ParseError::UnknownDependency { dep, task } => {
            assert_eq!(dep, "ghost");
            assert_eq!(task, "a");
        }
        other => panic!("unexpected: {:?}", other),
    }
}

#[test]
fn unclosed_brace_is_rejected() {
    let err = TaskenfileParser::from_recipe_file(recipe(vec![step("x", "echo {{ unclosed", &[])], StringMap::new()))
        .unwrap_err();
    assert!(matches!(err, ParseError::Validation(_)));
}

#[test]
fn unsupported_extension_is_rejected() {
    let err = TaskenfileParser::format_for_extension(Some("json"), "recipe.json").unwrap_err();
    assert!(matches!(err, ParseError::UnsupportedExtension(_)));
}

#[test]
fn dependencies_are_listed_once_in_order() {
    let r = TaskenfileParser::from_recipe_file(recipe(
        vec![
            step("init", "init", &[]),
            step("build", "build", &["init"]),
            step("test", "test", &["build"]),
            step("deploy", "deploy", &["build", "test"]),
        ],
        StringMap::new(),
    ))
    .unwrap();
    assert_eq!(r.dependencies, vec!["build".to_string(), "init".to_string(), "test".to_string()]);
}

#[test]
fn recipe_without_dependencies_lists_none() {
    let r = TaskenfileParser::from_recipe_file(recipe(vec![step("only", "echo", &[])], StringMap::new())).unwrap();
    assert!(r.dependencies.is_empty());
}

#[test]
fn task_vars_override_recipe_vars() {
    let mut s = step("build", "cargo build --target {{ target }} -p {{ project }}", &[]);
    s.vars.insert("target", "aarch64");
    let r = TaskenfileParser::from_recipe_file(recipe(vec![s], vars(&[("project", "tasken"), ("target", "x86_64")])))
        .unwrap();
    assert_eq!(r.tasks[0].command, "cargo build --target aarch64 -p tasken");
    assert_eq!(r.tasks[0].vars.get("target"), Some(&"aarch64".to_string()));
    assert_eq!(r.vars.get("target"), Some(&"x86_64".to_string()));
}

#[test]
fn timeout_becomes_duration() {
    let mut s = step("slow", "sleep 1", &[]);
    s.timeout = Some(120);
    let r = TaskenfileParser::from_recipe_file(recipe(vec![s], StringMap::new())).unwrap();
    assert_eq!(r.tasks[0].timeout, Some(std::time::Duration::from_secs(120)));
}

// ---------------------------------------------------------------------------
// Further cases
// ---------------------------------------------------------------------------

#[test]
fn empty_placeholder_is_rejected_with_message() {
    match TaskenfileParser::interpolate("echo {{ }}", &StringMap::new(), "t").unwrap_err() {
        ParseError::Validation(m) => assert_eq!(m, "Empty variable reference in task `t`"),
        other => panic!("unexpected: {:?}", other),
    }
}

#[test]
fn unclosed_message_names_the_task() {
    match TaskenfileParser::interpolate("echo {{ x", &StringMap::new(), "t").unwrap_err() {
        ParseError::Validation(m) => assert_eq!(m, "Unclosed `{{` in task `t`"),
        other => panic!("unexpected: {:?}", other),
    }
}

#[test]
fn name_check_precedes_dependency_check() {
    let err = TaskenfileParser::from_recipe_file(recipe(
        vec![step("ok", "echo", &["missing"]), step("", "echo", &[])],
        StringMap::new(),
    ))
    .unwrap_err();
    assert!(matches!(err, ParseError::UnknownDependency { .. }));
}

#[test]
fn extension_selects_format() {
    assert_eq!(TaskenfileParser::format_for_extension(Some("toml"), "a.toml").unwrap(), RecipeFormat::Toml);
    assert_eq!(TaskenfileParser::format_for_extension(Some("yml"), "a.yml").unwrap(), RecipeFormat::Yaml);
    assert_eq!(TaskenfileParser::format_for_extension(Some("yaml"), "a.yaml").unwrap(), RecipeFormat::Yaml);
    match TaskenfileParser::format_for_extension(None, "Taskenfile").unwrap_err() {
        ParseError::UnsupportedExtension(x) => assert_eq!(x, "Taskenfile"),
        other => panic!("unexpected: {:?}", other),
    }
}

#[test]
fn parse_error_messages() {
    assert_eq!(ParseError::NoTasks.to_string(), "Recipe must define at least one task");
    assert_eq!(
        ParseError::UnknownDependency { dep: "d".into(), task: "t".into() }.to_string(),
        "Unknown dependency `d` in task `t`"
    );
    assert_eq!(
        ParseError::UnsupportedExtension("json".into()).to_string(),
        "Unsupported file extension: `json` (expected .toml, .yaml, or .yml)"
    );
    assert_eq!(ParseError::Validation("v".into()).to_string(), "Validation error: v");
}
