use taskkit::domain::plugins::first_accepting;
use std::time::Duration;

use taskkit::domain::plugins::{shell_words_split, NoopPlugin, PluginContext, PluginRegistry, PluginResult, RunnerPlugin};

struct Prefixed {
    name: &'static str,
    prefix: &'static str,
}

impl RunnerPlugin for Prefixed {
    fn name(&self) -> &str {
        self.name
    }
    fn can_handle(&self, command: &str) -> bool {
        command.starts_with(self.prefix)
    }
    fn execute(&self, _ctx: PluginContext<'_>) -> PluginResult {
        PluginResult::ok()
    }
}

#[test]
fn test_registry_empty() {
    let reg = PluginRegistry::new();
    assert!(reg.is_empty());
    assert_eq!(reg.len(), 0);
}

#[test]
fn test_registry_find_unknown() {
    let reg = PluginRegistry::new();
    assert!(reg.find("anything").is_none());
}

#[test]
fn test_plugin_result_ok() {
    let r = PluginResult::ok();
    assert!(r.success);
    assert_eq!(r.exit_code, 0);
    assert_eq!(r.stdout, "");
}

#[test]
fn test_plugin_result_error() {
    let r = PluginResult::error("something went wrong");
    assert!(!r.success);
    assert_eq!(r.exit_code, 1);
    assert!(r.stderr.contains("went wrong"));
}

#[test]
fn test_plugin_context_new() {
    let ctx = PluginContext::new("echo hello world");
    assert_eq!(ctx.command, "echo hello world");
    assert_eq!(ctx.working_dir, ".");
    assert!(!ctx.dry_run);
    assert!(ctx.env_vars.is_empty());
}

#[test]
fn test_plugin_context_with_dry_run() {
    let ctx = PluginContext::new("anything").with_dry_run();
    assert!(ctx.dry_run);
}

#[test]
fn test_plugin_context_with_env() {
    let ctx = PluginContext::new("test").with_env("PATH", "/usr/bin").with_env("HOME", "/root");
    assert_eq!(ctx.env_vars.len(), 2);
}

#[test]
fn test_plugin_context_shell_words_split() {
    let args = shell_words_split("echo hello world");
    assert_eq!(args, vec!["echo", "hello", "world"]);
}

#[test]
fn test_plugin_context_shell_words_split_empty() {
    let args = shell_words_split("");
    assert!(args.is_empty());
}

#[test]
fn test_registry_custom_plugin_takes_precedence() {
    let mut reg = PluginRegistry::new();
    reg.register(Box::new(Prefixed { name: "custom", prefix: "custom:" }));
    reg.register(Box::new(Prefixed { name: "shell", prefix: "" }));
    assert_eq!(reg.find("custom:deploy").unwrap().name(), "custom");
    assert_eq!(reg.find("echo hi").unwrap().name(), "shell");
}

#[test]
fn test_registry_respects_order() {
    let mut reg = PluginRegistry::new();
    reg.register(Box::new(Prefixed { name: "first", prefix: "" }));
    reg.register(Box::new(Prefixed { name: "second", prefix: "" }));
    assert_eq!(reg.find("anything").unwrap().name(), "first");
    assert_eq!(reg.names(), vec!["first", "second"]);
    assert_eq!(reg.len(), 2);
}

#[test]
fn context_args_split_at_any_white_space() {
    let ctx = PluginContext::new("  deploy\t--env   prod ");
    assert_eq!(ctx.args, vec!["deploy", "--env", "prod"]);
    let ctx = ctx.with_working_dir("/srv");
    assert_eq!(ctx.working_dir, "/srv");
}

#[test]
fn no_plugin_handles_unclaimed_command() {
    let mut reg = PluginRegistry::new();
    reg.register(Box::new(Prefixed { name: "docker", prefix: "docker " }));
    assert!(reg.find("echo hi").is_none());
}

#[test]
fn test_noop_plugin_always_succeeds() {
    let plugin = NoopPlugin;
    let ctx = PluginContext::new("any-command --flag");
    let result = plugin.execute(ctx);
    assert!(result.success);
    assert_eq!(result.exit_code, 0);
}

#[test]
fn test_noop_plugin_duration_zero() {
    let plugin = NoopPlugin;
    let ctx = PluginContext::new("anything");
    let result = plugin.execute(ctx);
    assert_eq!(result.duration, Duration::ZERO);
}

#[test]
fn test_noop_plugin_stderr_contains_command() {
    let plugin = NoopPlugin;
    let ctx = PluginContext::new("deploy --env prod");
    let result = plugin.execute(ctx);
    assert!(result.stderr.contains("deploy --env prod"));
}

#[test]
fn noop_plugin_is_named_noop_and_claims_everything() {
    let plugin = NoopPlugin;
    assert_eq!(plugin.name(), "noop");
    assert!(plugin.can_handle(""));
    assert!(plugin.can_handle("rm -rf /tmp/x"));
    let result = plugin.execute(PluginContext::new("make"));
    assert_eq!(result.stderr, "[dry-run] would execute: make");
    assert_eq!(result.stdout, "");
}

#[test]
fn test_registry_find_noop_when_registered_first() {
    let mut reg = PluginRegistry::new();
    reg.register(Box::new(NoopPlugin));
    let plugin = reg.find("anything").unwrap();
    assert_eq!(plugin.name(), "noop");
    assert_eq!(reg.names(), vec!["noop"]);
}

#[test]
fn test_plugin_result_to_json_success() {
    let r = PluginResult {
        success: true,
        stdout: "hello".into(),
        stderr: String::new(),
        exit_code: 0,
        duration: Duration::from_millis(50),
    };
    let json = r.to_json();
    assert_eq!(json["status"], "ok");
    assert_eq!(json["code"], 0);
    assert_eq!(json["stdout"], "hello");
}

#[test]
fn test_plugin_result_to_json_failure() {
    let r = PluginResult {
        success: false,
        stdout: String::new(),
        stderr: "error msg".into(),
        exit_code: 1,
        duration: Duration::from_millis(10),
    };
    let json = r.to_json();
    assert_eq!(json["status"], "error");
    assert_eq!(json["stderr"], "error msg");
}

#[test]
fn plugin_result_to_json_reports_whole_milliseconds() {
    let r = PluginResult {
        success: true,
        stdout: String::new(),
        stderr: String::new(),
        exit_code: 7,
        duration: Duration::from_micros(2_999),
    };
    let json = r.to_json();
    assert_eq!(json["duration_ms"], 2);
    assert_eq!(json["code"], 7);
    assert_eq!(json["stderr"], "");
}

#[test]
fn first_accepting_picks_the_first_yes() {
    assert_eq!(first_accepting(&vec![false, true, true]), Some(1));
    assert_eq!(first_accepting(&vec![true]), Some(0));
    assert_eq!(first_accepting(&vec![false, false]), None);
    assert_eq!(first_accepting(&Vec::new()), None);
}
