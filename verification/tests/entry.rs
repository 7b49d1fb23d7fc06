use taskkit::adapters::primary::cli::{Cli, CliAdapter};
use taskkit::application::forwarded::{compose_command, ForwardedArgs};
use taskkit::domain::tasks::{Priority, TaskState};

#[test]
fn test_lib_version_is_non_empty() {
    assert!(!taskkit::VERSION.is_empty(), "VERSION must not be empty");
    assert!(taskkit::VERSION.contains('.'), "VERSION should be semver-like, got: {}", taskkit::VERSION);
}

#[test]
fn test_lib_default_task_uses_default_priority_and_state() {
    let task = taskkit::Task::new("defaults".to_string());
    assert_eq!(task.priority, Priority::Normal);
    assert_eq!(task.state, TaskState::Pending);
    assert!(task.retry_policy.is_none());
    assert!(task.timeout.is_none());
}

#[test]
fn test_cli_parse_priority_lowercase_and_uppercase() {
    assert_eq!(Cli::parse_priority("low"), Priority::Low);
    assert_eq!(Cli::parse_priority("LOW"), Priority::Low);
    assert_eq!(Cli::parse_priority("normal"), Priority::Normal);
    assert_eq!(Cli::parse_priority("Normal"), Priority::Normal);
    assert_eq!(Cli::parse_priority("high"), Priority::High);
    assert_eq!(Cli::parse_priority("HIGH"), Priority::High);
    assert_eq!(Cli::parse_priority("critical"), Priority::Critical);
    assert_eq!(Cli::parse_priority("CRITICAL"), Priority::Critical);
    assert_eq!(Cli::parse_priority("urgent"), Priority::Normal);
    assert_eq!(Cli::parse_priority(""), Priority::Normal);
    assert_eq!(Cli::parse_priority("rocket"), Priority::Normal);
}

#[test]
fn test_cli_parse_state_every_variant() {
    assert_eq!(Cli::parse_state("pending"), Some(TaskState::Pending));
    assert_eq!(Cli::parse_state("scheduled"), Some(TaskState::Scheduled));
    assert_eq!(Cli::parse_state("running"), Some(TaskState::Running));
    assert_eq!(Cli::parse_state("completed"), Some(TaskState::Completed));
    assert_eq!(Cli::parse_state("failed"), Some(TaskState::Failed));
    assert_eq!(Cli::parse_state("cancelled"), Some(TaskState::Cancelled));
    assert_eq!(Cli::parse_state("retrying"), Some(TaskState::Retrying));
    assert_eq!(Cli::parse_state("PENDING"), Some(TaskState::Pending));
    assert_eq!(Cli::parse_state("Completed"), Some(TaskState::Completed));
    assert_eq!(Cli::parse_state("unknown"), None);
    assert_eq!(Cli::parse_state(""), None);
    assert_eq!(Cli::parse_state("done"), None);
}

#[test]
fn test_cli_adapter_struct_is_constructible() {
    let _: CliAdapter = CliAdapter;
}

#[test]
fn test_cli_run_args_quoting_logic_via_compose() {
    let forwarded = ForwardedArgs::from_slice(&["--release", "--target=x86_64"]);
    let composed = compose_command("cargo build", &forwarded);
    assert_eq!(composed, "cargo build --release --target=x86_64");
}

#[test]
fn test_cli_create_raw_no_base_uses_just_quoted() {
    let forwarded = ForwardedArgs::from_slice(&["echo", "hi"]);
    let composed = forwarded.shell_quote();
    assert_eq!(composed, "echo hi");
    let wrapped = compose_command("", &forwarded);
    assert_eq!(wrapped, "echo hi");
}

#[test]
fn test_cli_create_raw_with_base_and_special_chars() {
    let forwarded = ForwardedArgs::from_slice(&["hello world", "$USER"]);
    let composed = compose_command("echo", &forwarded);
    assert!(composed.starts_with("echo 'hello world' '"));
    assert!(composed.contains("$USER"));
}

#[test]
fn test_cli_run_args_handles_empty_forwarded() {
    let forwarded = ForwardedArgs::new();
    let composed = compose_command("ls -la", &forwarded);
    assert_eq!(composed, "ls -la");
}

#[test]
fn test_cli_run_args_preserves_hyphen_prefixed_values() {
    let forwarded = ForwardedArgs::from_slice(&["--release", "--target=x86_64", "--features", "tokio,serde"]);
    let composed = compose_command("cargo build", &forwarded);
    assert!(composed.starts_with("cargo build "));
    assert!(composed.contains("--release"));
    assert!(composed.contains("--target=x86_64"));
    assert!(composed.contains("'tokio,serde'"));
}

#[test]
fn test_cli_run_args_with_empty_base_and_args_uses_only_quoted() {
    let forwarded = ForwardedArgs::from_slice(&["echo", "hi"]);
    assert_eq!(compose_command("", &forwarded), "echo hi");
    assert_eq!(compose_command("", &ForwardedArgs::new()), "");
}

#[test]
fn test_cli_create_raw_quotes_args_even_without_base() {
    let forwarded = ForwardedArgs::from_slice(&["echo", "hello world", "$PATH"]);
    let composed = forwarded.shell_quote();
    assert_eq!(composed, "echo 'hello world' '$PATH'");
}

#[test]
fn test_cli_forwarded_args_display_impl() {
    let f = ForwardedArgs::from_slice(&["plain", "with space"]);
    let s = f.to_string();
    assert_eq!(s, "plain 'with space'");
}

#[test]
fn test_cli_forwarded_args_to_json() {
    let f = ForwardedArgs::from_slice(&["--flag", "value"]);
    let json = f.to_json();
    assert_eq!(
        json,
        serde_json::Value::Array(vec![
            serde_json::Value::String("--flag".to_string()),
            serde_json::Value::String("value".to_string()),
        ])
    );
    let empty = ForwardedArgs::new().to_json();
    assert_eq!(empty, serde_json::Value::Array(vec![]));
}

#[test]
fn parse_state_ignores_ascii_case_for_every_state() {
    let all = [
        ("pending", TaskState::Pending),
        ("scheduled", TaskState::Scheduled),
        ("running", TaskState::Running),
        ("completed", TaskState::Completed),
        ("failed", TaskState::Failed),
        ("cancelled", TaskState::Cancelled),
        ("retrying", TaskState::Retrying),
    ];
    for (name, st) in all.iter() {
        assert_eq!(Cli::parse_state(name), Some(*st));
        assert_eq!(Cli::parse_state(&name.to_uppercase()), Some(*st));
    }
    assert_eq!(Cli::parse_state("done"), None);
    assert_eq!(Cli::parse_state(""), None);
}
