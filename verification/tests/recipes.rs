use taskkit::domain::recipes::{
    interpolate, interpolate_strict, HostInfo, InterpolationError, Settings, StringMap, VarDefinition, VarType, Vars,
};

fn host() -> HostInfo {
    HostInfo { os: "linux".to_string(), arch: "x86_64".to_string(), pid: 4242, user: "tester".to_string() }
}

fn overrides(pairs: &[(&str, &str)]) -> Vec<(String, String)> {
    pairs.iter().map(|(k, v)| (k.to_string(), v.to_string())).collect()
}

#[test]
fn test_var_type_default_is_string() {
    assert_eq!(VarType::default(), VarType::String);
}

#[test]
fn test_var_type_as_str() {
    assert_eq!(VarType::String.as_str(), "string");
    assert_eq!(VarType::Number.as_str(), "number");
    assert_eq!(VarType::Bool.as_str(), "boolean");
    assert_eq!(VarType::Path.as_str(), "path");
    assert_eq!(VarType::Choice(vec!["a".into()]).as_str(), "choice");
}

#[test]
fn test_vars_empty() {
    let vars = Vars::empty(&host());
    assert!(vars.contains_key("os"));
    assert!(vars.contains_key("arch"));
    assert!(vars.contains_key("timestamp"));
    assert!(vars.contains_key("pid"));
    assert!(vars.contains_key("user"));
    assert!(vars.definitions.is_empty());
}

#[test]
fn test_vars_new_with_defaults() {
    let defs = vec![
        VarDefinition {
            name: "greeting".into(),
            var_type: VarType::String,
            default: Some("hello".into()),
            description: "The greeting message".into(),
            required: false,
        },
        VarDefinition {
            name: "count".into(),
            var_type: VarType::Number,
            default: Some("42".into()),
            description: "Loop count".into(),
            required: false,
        },
    ];
    let vars = Vars::new(defs, Vec::new(), &host());
    assert_eq!(vars.get("greeting"), Some("hello"));
    assert_eq!(vars.get("count"), Some("42"));
}

#[test]
fn test_vars_overrides() {
    let defs = vec![VarDefinition {
        name: "greeting".into(),
        var_type: VarType::String,
        default: Some("hello".into()),
        description: "".into(),
        required: false,
    }];
    let vars = Vars::new(defs, overrides(&[("greeting", "hi")]), &host());
    assert_eq!(vars.get("greeting"), Some("hi"));
}

#[test]
fn test_vars_set_and_get() {
    let mut vars = Vars::empty(&host());
    vars.set("foo", "bar");
    assert_eq!(vars.get("foo"), Some("bar"));
    assert!(!vars.is_empty());
}

#[test]
fn test_vars_len() {
    let mut vars = Vars::empty(&host());
    let pre_count = vars.len();
    vars.set("extra", "value");
    assert_eq!(vars.len(), pre_count + 1);
}

#[test]
fn test_settings_default() {
    let s = Settings::default();
    assert!(s.shell.is_none());
    assert!(s.work_dir.is_none());
    assert!(s.env.is_empty());
    assert!(s.max_concurrency.is_none());
}

#[test]
fn test_settings_builder_methods() {
    let s = Settings::new().with_shell("/bin/bash").with_work_dir("/tmp").with_env("FOO", "bar").with_max_concurrency(4);
    assert_eq!(s.shell, Some("/bin/bash".into()));
    assert_eq!(s.work_dir, Some("/tmp".into()));
    assert_eq!(s.env.get("FOO"), Some(&"bar".into()));
    assert_eq!(s.max_concurrency, Some(4));
}

#[test]
fn test_interpolate_basic() {
    let vars = Vars::new(vec![], overrides(&[("name", "world")]), &host());
    let result = interpolate("hello {{ name }}!", &vars, false);
    assert_eq!(result, "hello world!");
}

#[test]
fn test_interpolate_multiple_vars() {
    let vars = Vars::new(vec![], overrides(&[("first", "John"), ("last", "Doe")]), &host());
    let result = interpolate("{{ first }} {{ last }}", &vars, false);
    assert_eq!(result, "John Doe");
}

#[test]
fn test_interpolate_predefined_timestamp() {
    let vars = Vars::empty(&host());
    let result = interpolate("ts={{ timestamp }}", &vars, false);
    assert!(result.starts_with("ts="));
    assert!(result.len() > 10);
}

#[test]
fn test_interpolate_missing_var_silent() {
    let vars = Vars::empty(&host());
    let result = interpolate("hello {{ missing }}!", &vars, false);
    assert_eq!(result, "hello {{ missing }}!");
}

#[test]
fn test_interpolate_missing_var_strict() {
    let vars = Vars::empty(&host());
    let result = interpolate("hello {{ missing }}!", &vars, true);
    assert_eq!(result, "hello {{ undefined: missing }}!");
}

#[test]
fn test_interpolate_empty_placeholder() {
    let vars = Vars::empty(&host());
    let result = interpolate("hello {{ }}!", &vars, false);
    assert_eq!(result, "hello {{ }}!");
}

#[test]
fn test_interpolate_no_placeholders() {
    let vars = Vars::empty(&host());
    let result = interpolate("hello world", &vars, false);
    assert_eq!(result, "hello world");
}

#[test]
fn test_interpolate_missing_closing_braces() {
    let vars = Vars::empty(&host());
    let result = interpolate("hello {{ name", &vars, false);
    assert_eq!(result, "hello {{ name");
}

#[test]
fn test_interpolate_adjacent_vars() {
    let vars = Vars::new(vec![], overrides(&[("a", "x"), ("b", "y")]), &host());
    let result = interpolate("{{a}}{{b}}", &vars, false);
    assert_eq!(result, "xy");
}

#[test]
fn test_interpolate_with_whitespace() {
    let vars = Vars::new(vec![], overrides(&[("name", "world")]), &host());
    let result = interpolate("hello {{name}}!", &vars, false);
    assert_eq!(result, "hello world!");
}

#[test]
fn test_interpolate_command_with_vars() {
    let vars = Vars::new(vec![], overrides(&[("file", "data.txt"), ("dest", "/tmp")]), &host());
    let cmd = "cp {{ file }} {{ dest }}/";
    let result = interpolate(cmd, &vars, false);
    assert_eq!(result, "cp data.txt /tmp/");
}

#[test]
fn test_interpolate_strict_ok() {
    let vars = Vars::new(vec![], overrides(&[("name", "world")]), &host());
    let result = interpolate_strict("hello {{ name }}!", &vars);
    assert_eq!(result, Ok("hello world!".into()));
}

#[test]
fn test_interpolate_strict_undefined() {
    let vars = Vars::empty(&host());
    let result = interpolate_strict("hello {{ missing }}!", &vars);
    assert_eq!(result, Err(InterpolationError::UndefinedVariable { name: "missing".into() }));
}

// ---------------------------------------------------------------------------
// Further cases
// ---------------------------------------------------------------------------

#[test]
fn predefined_values_come_from_the_host() {
    let vars = Vars::empty(&host());
    assert_eq!(vars.get("os"), Some("linux"));
    assert_eq!(vars.get("arch"), Some("x86_64"));
    assert_eq!(vars.get("pid"), Some("4242"));
    assert_eq!(vars.get("user"), Some("tester"));
    assert!(vars.get("timestamp").unwrap().ends_with('Z'));
    assert_eq!(vars.len(), 5);
}

#[test]
fn defaults_do_not_replace_predefined_values() {
    let defs = vec![VarDefinition {
        name: "os".into(),
        var_type: VarType::String,
        default: Some("plan9".into()),
        description: "".into(),
        required: false,
    }];
    let vars = Vars::new(defs, Vec::new(), &host());
    assert_eq!(vars.get("os"), Some("linux"));
}

#[test]
fn later_override_wins() {
    let vars = Vars::new(vec![], overrides(&[("k", "1"), ("k", "2")]), &host());
    assert_eq!(vars.get("k"), Some("2"));
}

#[test]
fn set_then_get_and_other_keys_unchanged() {
    let mut vars = Vars::new(vec![], overrides(&[("a", "1"), ("b", "2")]), &host());
    vars.set("a", "9");
    assert_eq!(vars.get("a"), Some("9"));
    assert_eq!(vars.get("b"), Some("2"));
    let before = vars.len();
    vars.set("a", "10");
    assert_eq!(vars.len(), before);
}

#[test]
fn interpolation_trims_unicode_white_space() {
    let vars = Vars::new(vec![], overrides(&[("name", "world")]), &host());
    assert_eq!(interpolate("{{\u{3000}name\t}}", &vars, false), "world");
}

#[test]
fn interpolation_leaves_unclosed_tail_after_a_placeholder() {
    let vars = Vars::new(vec![], overrides(&[("a", "x")]), &host());
    assert_eq!(interpolate("{{a}} and {{ b", &vars, true), "x and {{ b");
}

#[test]
fn strict_agrees_with_lenient_when_all_defined() {
    let vars = Vars::new(vec![], overrides(&[("a", "x"), ("b", "y")]), &host());
    let t = "{{a}}-{{ }}-{{ b }}";
    assert_eq!(interpolate_strict(t, &vars), Ok(interpolate(t, &vars, false)));
    assert_eq!(interpolate(t, &vars, true), interpolate(t, &vars, false));
}

#[test]
fn strict_reports_first_undefined_name() {
    let vars = Vars::empty(&host());
    assert_eq!(
        interpolate_strict("{{ one }} {{ two }}", &vars),
        Err(InterpolationError::UndefinedVariable { name: "one".into() })
    );
}

#[test]
fn interpolation_error_message() {
    let e = InterpolationError::UndefinedVariable { name: "x".into() };
    assert_eq!(e.to_string(), "Undefined variable `x` referenced in template");
}

#[test]
fn string_map_insert_get_len() {
    let mut m = StringMap::new();
    assert!(m.is_empty());
    m.insert("a", "1");
    m.insert("b", "2");
    m.insert("a", "3");
    assert_eq!(m.len(), 2);
    assert_eq!(m.get("a"), Some(&"3".to_string()));
    assert!(m.contains_key("b"));
    assert!(!m.contains_key("c"));
    let copy = m.duplicate();
    assert_eq!(copy.entries(), m.entries());
}

#[test]
fn test_predefined_vars_timestamp_format() {
    let pv = taskkit::predefined_vars(&host());
    let ts = pv.get("timestamp").unwrap();
    assert!(ts.len() >= 24, "timestamp '{}' should be ISO-8601 format", ts);
    assert!(ts.ends_with('Z'), "timestamp '{}' should end with Z", ts);
}

#[test]
fn test_predefined_vars_pid_is_numeric() {
    let pv = taskkit::predefined_vars(&host());
    let pid = pv.get("pid").unwrap();
    assert!(pid.parse::<u32>().is_ok(), "pid '{}' should be a numeric string", pid);
}

#[test]
fn vars_contains_key_counts_definitions_without_values() {
    let defs = vec![VarDefinition {
        name: "req".to_string(),
        var_type: VarType::String,
        default: None,
        description: String::new(),
        required: true,
    }];
    let v = Vars::new(defs, Vec::new(), &host());
    assert!(v.contains_key("req"));
    assert!(v.get("req").is_none());
    assert!(v.contains_key("os"));
    assert!(!v.contains_key("nope"));
}

#[test]
fn vars_set_grows_by_one_only_for_new_names() {
    let mut v = Vars::new(Vec::new(), Vec::new(), &host());
    let before = v.len();
    v.set("fresh", "1");
    assert_eq!(v.len(), before + 1);
    v.set("fresh", "2");
    assert_eq!(v.len(), before + 1);
    assert_eq!(v.get("fresh"), Some("2"));
    assert!(!v.is_empty());
}
