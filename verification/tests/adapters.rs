use taskkit::adapters::plugins::{Plugin, PluginConfig, PluginRegistry};
use taskkit::adapters::primary::cli::Cli;
use taskkit::adapters::primary::ColorChoice;
use taskkit::adapters::secondary::file::FileStorage;
use taskkit::domain::tasks::{Priority, TaskState};

#[test]
fn test_parse_priority() {
    assert_eq!(Cli::parse_priority("low"), Priority::Low);
    assert_eq!(Cli::parse_priority("high"), Priority::High);
    assert_eq!(Cli::parse_priority("normal"), Priority::Normal);
    assert_eq!(Cli::parse_priority("unknown"), Priority::Normal);
}

#[test]
fn test_parse_state() {
    assert_eq!(Cli::parse_state("pending"), Some(TaskState::Pending));
    assert_eq!(Cli::parse_state("running"), Some(TaskState::Running));
    assert_eq!(Cli::parse_state("unknown"), None);
}

#[test]
fn color_choice_test_display() {
    assert_eq!(ColorChoice::Auto.to_string(), "auto");
    assert_eq!(ColorChoice::Always.to_string(), "always");
    assert_eq!(ColorChoice::Never.to_string(), "never");
}

#[test]
fn test_from_str() {
    assert_eq!("auto".parse::<ColorChoice>().unwrap(), ColorChoice::Auto);
    assert_eq!("always".parse::<ColorChoice>().unwrap(), ColorChoice::Always);
    assert_eq!("never".parse::<ColorChoice>().unwrap(), ColorChoice::Never);
    assert_eq!("yes".parse::<ColorChoice>().unwrap(), ColorChoice::Always);
    assert_eq!("no".parse::<ColorChoice>().unwrap(), ColorChoice::Never);
    assert!("bogus".parse::<ColorChoice>().is_err());
}

#[test]
fn test_want_color_always() {
    assert!(ColorChoice::Always.want_color());
}

#[test]
fn test_want_color_never() {
    assert!(!ColorChoice::Never.want_color());
}

#[test]
fn test_ansi_reset_in_always() {
    let cc = ColorChoice::Always;
    assert_eq!(cc.ansi("\x1b[31m"), "\x1b[31m");
    assert_eq!(cc.reset(), "\x1b[0m");
}

#[test]
fn test_ansi_reset_in_never() {
    let cc = ColorChoice::Never;
    assert_eq!(cc.ansi("\x1b[31m"), "");
    assert_eq!(cc.reset(), "");
}

#[test]
fn test_from_env_respects_no_color() {
    assert_eq!(ColorChoice::from_env_values(Some("1".into()), None, None), ColorChoice::Never);
}

#[test]
fn test_from_env_respects_clicolor_force() {
    assert_eq!(ColorChoice::from_env_values(None, Some("1".into()), None), ColorChoice::Always);
}

#[test]
fn test_from_env_respects_clicolor_off() {
    assert_eq!(ColorChoice::from_env_values(None, None, Some("0".into())), ColorChoice::Never);
}

#[test]
fn test_from_env_default_auto() {
    assert_eq!(ColorChoice::from_env_values(None, None, None), ColorChoice::Auto);
}

#[test]
fn test_from_env_no_color_takes_priority() {
    assert_eq!(ColorChoice::from_env_values(Some("1".into()), Some("1".into()), None), ColorChoice::Never);
}

#[test]
fn empty_no_color_is_ignored() {
    assert_eq!(ColorChoice::from_env_values(Some(String::new()), None, Some("0".into())), ColorChoice::Never);
    assert_eq!(ColorChoice::from_env_values(Some(String::new()), Some("2".into()), None), ColorChoice::Auto);
}

#[test]
fn every_state_name_parses_case_insensitively() {
    assert_eq!(Cli::parse_state("SCHEDULED"), Some(TaskState::Scheduled));
    assert_eq!(Cli::parse_state("Completed"), Some(TaskState::Completed));
    assert_eq!(Cli::parse_state("failed"), Some(TaskState::Failed));
    assert_eq!(Cli::parse_state("cancelled"), Some(TaskState::Cancelled));
    assert_eq!(Cli::parse_state("retrying"), Some(TaskState::Retrying));
    assert_eq!(Cli::parse_priority("CRITICAL"), Priority::Critical);
}

#[test]
fn file_storage_keeps_its_path() {
    let s = FileStorage::new("/tmp/store.json");
    assert_eq!(s.path(), "/tmp/store.json");
}

#[test]
fn plugin_config_builders() {

    let c = PluginConfig::new("lint", "1.2.0");
    assert_eq!(c.name, "lint");
    assert_eq!(c.version, "1.2.0");
    assert!(c.enabled);
    assert!(c.config.is_null());
    let c = c.with_config(serde_json::Value::Bool(true)).disabled();
    assert!(!c.enabled);
    assert_eq!(c.config, serde_json::Value::Bool(true));
    assert_eq!(c.name, "lint");
}

struct TestPlugin;

impl Plugin for TestPlugin {
    fn name(&self) -> &str {
        "test-plugin"
    }

    fn version(&self) -> &str {
        "0.1.0"
    }
}

struct Versioned(&'static str);

impl Plugin for Versioned {
    fn name(&self) -> &str {
        "versioned"
    }

    fn version(&self) -> &str {
        self.0
    }
}

#[test]
fn test_plugin_registry() {
    let mut registry = PluginRegistry::new();
    registry.register(TestPlugin);

    assert!(registry.get("test-plugin").is_some());
    assert_eq!(registry.names(), vec!["test-plugin"]);
}

#[test]
fn plugin_registry_replaces_a_plugin_of_the_same_name() {
    let mut registry = PluginRegistry::default();
    assert!(registry.names().is_empty());
    registry.register(Versioned("1"));
    registry.register(TestPlugin);
    registry.register(Versioned("2"));
    assert_eq!(registry.names(), vec!["versioned", "test-plugin"]);
    assert_eq!(registry.get("versioned").map(|p| p.version()), Some("2"));
    assert!(registry.get("missing").is_none());
    assert_eq!(TestPlugin.init(), Ok(()));
    assert_eq!(TestPlugin.shutdown(), Ok(()));
}

#[test]
fn plugin_registry_register_named_replaces_in_place() {
    let mut registry = PluginRegistry::new();
    registry.register_named("a", Box::new(Versioned("1")));
    registry.register_named("b", Box::new(TestPlugin));
    registry.register_named("a", Box::new(Versioned("3")));
    assert_eq!(registry.names(), vec!["a", "b"]);
    assert_eq!(registry.get("a").map(|p| p.version()), Some("3"));
    assert_eq!(registry.get("b").map(|p| p.name()), Some("test-plugin"));
}

#[test]
fn auto_colour_follows_the_terminal() {
    let auto = ColorChoice::Auto;
    assert_eq!(auto.ansi_given(true, "\x1b[31m"), "\x1b[31m");
    assert_eq!(auto.ansi_given(false, "\x1b[31m"), "");
    assert_eq!(auto.reset_given(true), "\x1b[0m");
    assert_eq!(auto.reset_given(false), "");
    assert!(auto.want_color_given(true));
    assert!(!auto.want_color_given(false));
    assert_eq!(ColorChoice::Always.reset_given(false), "\x1b[0m");
    assert_eq!(ColorChoice::Never.ansi_given(true, "\x1b[31m"), "");
}
