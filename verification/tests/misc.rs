use std::time::Duration;

use taskkit::application::commands::{CancelTask, CreateTask, RetryTask};
use taskkit::application::queries::{state_summary, GetTask, GetTaskHistory, ListTasks};
use taskkit::config::TaskenConfig;
use taskkit::domain::events::TaskEvent;
use taskkit::domain::errors::TaskError;
use taskkit::domain::groups::{find_group_by_name, Group, GroupId};
use taskkit::domain::scheduler::ScheduleId;
use taskkit::domain::tasks::{Priority, Task, TaskId, TaskState};
use taskkit::wasm_sqlite_spike::{Row, WasmSqliteDriver, WasmSqliteError};

struct StubDriver;

impl WasmSqliteDriver for StubDriver {
    fn open(_path: &str) -> Result<Self, WasmSqliteError> {
        Err(WasmSqliteError::NotCompiledIn)
    }
    fn execute(&self, _sql: &str) -> Result<usize, WasmSqliteError> {
        Err(WasmSqliteError::NotCompiledIn)
    }
    fn query(&self, _sql: &str) -> Result<Vec<Row>, WasmSqliteError> {
        Err(WasmSqliteError::NotCompiledIn)
    }
}

#[test]
fn spike_open_returns_not_compiled_in() {
    let r = StubDriver::open(":memory:");
    assert!(matches!(r, Err(WasmSqliteError::NotCompiledIn)));
}

#[test]
fn spike_query_returns_not_compiled_in() {
    let d = StubDriver;
    let r = d.query("SELECT 1");
    assert!(matches!(r, Err(WasmSqliteError::NotCompiledIn)));
}

#[test]
fn wasm_error_messages() {
    assert_eq!(WasmSqliteError::NotCompiledIn.to_string(), "WASM SQLite backend not compiled in (W3a spike only)");
    assert_eq!(WasmSqliteError::SqlError("bad".into()).to_string(), "WASM SQLite SQL error: bad");
}

#[test]
fn test_group_id_new() {
    let id1 = GroupId::new();
    let id2 = GroupId::new();
    assert_ne!(id1, id2);
}

#[test]
fn test_group_id_from_string() {
    let id = GroupId::from_string("my-group-id");
    assert_eq!(id.0, "my-group-id");
}

#[test]
fn test_schedule_id_default_is_unique() {
    assert_ne!(ScheduleId::default(), ScheduleId::default());
}

#[test]
fn test_default_config_is_valid() {
    let cfg = TaskenConfig::default();
    assert!(!cfg.store_file.is_empty());
    assert!(!cfg.cache_file.is_empty());
    assert_eq!(cfg.cache_ttl_seconds, 300);
    assert_eq!(cfg.default_list_limit, 100);
    assert!(cfg.store_path().ends_with("store.json"));
}

#[test]
fn test_cache_path_without_override() {
    let cfg = TaskenConfig::default();
    assert!(cfg.cache_dir.is_none());
    assert_eq!(cfg.resolved_cache_dir(), cfg.data_dir);
    let expected = std::path::Path::new(&cfg.data_dir).join("cache.json").to_string_lossy().into_owned();
    assert_eq!(cfg.cache_path(), expected);
}

#[test]
fn test_cache_path_with_override() {
    let custom = "/tmp/tasken-cache".to_string();
    let cfg = TaskenConfig { cache_dir: Some(custom.clone()), ..Default::default() };
    assert_eq!(cfg.resolved_cache_dir(), custom);
    assert_eq!(cfg.cache_path(), "/tmp/tasken-cache/cache.json");
}

#[test]
fn test_store_path() {
    let cfg = TaskenConfig::default();
    let expected = std::path::Path::new(&cfg.data_dir).join("store.json").to_string_lossy().into_owned();
    assert_eq!(cfg.store_path(), expected);
}

#[test]
fn test_cache_ttl_duration() {
    let mut cfg = TaskenConfig::default();
    cfg.cache_ttl_seconds = 60;
    assert_eq!(cfg.cache_ttl(), Duration::from_secs(60));
}

#[test]
fn data_dir_ends_in_taskkit() {
    assert!(TaskenConfig::default().data_dir.ends_with("taskkit"));
}

#[test]
fn commands_and_queries_carry_their_fields() {
    let c = CreateTask::new("build").with_description("d").with_priority(Priority::High).with_timeout(5).with_tag("x");
    assert_eq!(c.name, "build");
    assert_eq!(c.description.as_deref(), Some("d"));
    assert_eq!(c.priority, Some(Priority::High));
    assert_eq!(c.timeout_seconds, Some(5));
    assert_eq!(c.tags, vec!["x"]);
    let id = TaskId::from_string("t".to_string());
    let cancel = CancelTask::new(id.clone()).with_reason("r");
    assert_eq!(cancel.reason.as_deref(), Some("r"));
    assert_eq!(RetryTask::new(id.clone()).task_id, id);
    assert_eq!(GetTask::new(id.clone()).task_id, id);
    assert_eq!(GetTaskHistory::new(id.clone()).task_id, id);
    let q = ListTasks::new().with_state(TaskState::Failed).with_tag("ci").with_limit(3);
    assert_eq!(q.state_filter, Some(TaskState::Failed));
    assert_eq!(q.tag_filter.as_deref(), Some("ci"));
    assert_eq!(q.limit, Some(3));
    assert_eq!(ListTasks::default().limit, Some(100));
}

fn tagged(name: &str, tags: &[&str], state: TaskState) -> Task {
    let mut t = Task::new(name.to_string());
    for g in tags {
        t = t.with_tag(g.to_string());
    }
    t.state = state;
    t
}

#[test]
fn list_query_filters_then_limits() {
    let tasks = vec![
        tagged("a", &["ci"], TaskState::Pending),
        tagged("b", &["ci"], TaskState::Failed),
        tagged("c", &[], TaskState::Pending),
        tagged("d", &["ci", "x"], TaskState::Pending),
        tagged("e", &["ci"], TaskState::Pending),
    ];
    let q = ListTasks::new().with_state(TaskState::Pending).with_tag("ci").with_limit(2);
    let names: Vec<String> = q.select(tasks).into_iter().map(|t| t.name).collect();
    assert_eq!(names, vec!["a", "d"]);
}

#[test]
fn list_query_without_filters_keeps_order() {
    let tasks = vec![tagged("a", &[], TaskState::Pending), tagged("b", &[], TaskState::Completed)];
    let q = ListTasks { state_filter: None, tag_filter: None, limit: None };
    let names: Vec<String> = q.select(tasks).into_iter().map(|t| t.name).collect();
    assert_eq!(names, vec!["a", "b"]);
}

#[test]
fn test_group_creation() {
    let group = taskkit::domain::groups::Group::new("build-group");
    assert_eq!(group.name, "build-group");
    assert!(group.description.is_none());
    assert!(group.task_ids.is_empty());
    assert!(group.is_empty());
}

#[test]
fn test_group_with_description() {
    let group = taskkit::domain::groups::Group::new("test-group").with_description("All test tasks");
    assert_eq!(group.description.as_deref(), Some("All test tasks"));
}

#[test]
fn test_group_with_tasks() {
    let t1 = TaskId::new();
    let t2 = TaskId::new();
    let group = taskkit::domain::groups::Group::new("my-group").with_task(t1.clone()).with_task(t2.clone());
    assert_eq!(group.task_ids.len(), 2);
    assert!(!group.is_empty());
}

#[test]
fn envelope_of_a_state_change_names_both_states() {
    let event = TaskEvent::StateChanged {
        task_id: TaskId("t1".to_string()),
        from: TaskState::Pending,
        to: TaskState::Running,
        timestamp: "2024-01-01T00:00:00Z".to_string(),
    };
    let env = event.envelope();
    assert_eq!(env.kind, "state_changed");
    assert_eq!(env.task_id, "t1");
    assert_eq!(env.from_state.as_deref(), Some("pending"));
    assert_eq!(env.to_state.as_deref(), Some("running"));
    assert_eq!(env.error, None);
    assert_eq!(env.duration_ms, None);
    assert_eq!(env.timestamp, "2024-01-01T00:00:00Z");
}

#[test]
fn envelope_of_a_retry_carries_the_attempt_as_duration() {
    let event = TaskEvent::Retried {
        task_id: TaskId("t2".to_string()),
        attempt: 3,
        timestamp: "ts".to_string(),
    };
    let env = event.envelope();
    assert_eq!(env.kind, "retried");
    assert_eq!(env.duration_ms, Some(3));
    assert_eq!(env.from_state, None);
}

#[test]
fn envelope_of_a_cancellation_carries_the_reason_as_error() {
    let with_reason = TaskEvent::Cancelled {
        task_id: TaskId("t3".to_string()),
        reason: Some("user".to_string()),
        timestamp: "ts".to_string(),
    };
    assert_eq!(with_reason.envelope().error.as_deref(), Some("user"));
    let without = TaskEvent::Cancelled {
        task_id: TaskId("t3".to_string()),
        reason: None,
        timestamp: "ts".to_string(),
    };
    assert_eq!(without.envelope().kind, "cancelled");
    assert_eq!(without.envelope().error, None);
}

#[test]
fn envelope_of_a_failure_and_a_completion() {
    let failed = TaskEvent::ExecutionFailed {
        task_id: TaskId("t4".to_string()),
        error: "boom".to_string(),
        timestamp: "ts".to_string(),
    };
    let env = failed.envelope();
    assert_eq!(env.kind, "execution_failed");
    assert_eq!(env.error.as_deref(), Some("boom"));
    let done = TaskEvent::ExecutionCompleted {
        task_id: TaskId("t4".to_string()),
        duration_ms: 42,
        timestamp: "ts".to_string(),
    };
    assert_eq!(done.envelope().kind, "execution_completed");
    assert_eq!(done.envelope().duration_ms, Some(42));
}

#[test]
fn create_task_request_becomes_a_pending_task() {
    let task = CreateTask::new("build")
        .with_description("compile it")
        .with_priority(Priority::High)
        .with_timeout(30)
        .with_tag("ci")
        .with_tag("fast")
        .into_task();
    assert_eq!(task.name, "build");
    assert_eq!(task.description.as_deref(), Some("compile it"));
    assert_eq!(task.priority, Priority::High);
    assert_eq!(task.timeout, Some(Duration::from_secs(30)));
    assert_eq!(task.tags, vec!["ci".to_string(), "fast".to_string()]);
    assert_eq!(task.state, TaskState::Pending);
    assert_eq!(task.retry_count, 0);
    assert_eq!(task.id.0.len(), 36);
}

#[test]
fn create_task_request_defaults_to_normal_priority() {
    let task = CreateTask::new("plain").into_task();
    assert_eq!(task.priority, Priority::Normal);
    assert!(task.timeout.is_none());
    assert!(task.description.is_none());
    assert!(task.data.is_null());
}

#[test]
fn state_summary_counts_each_state_and_the_total() {

    let mut a = Task::new("a".to_string());
    a.transition_to(TaskState::Running).unwrap();
    let mut b = Task::new("b".to_string());
    b.transition_to(TaskState::Running).unwrap();
    b.transition_to(TaskState::Completed).unwrap();
    let c = Task::new("c".to_string());
    let mut d = Task::new("d".to_string());
    d.transition_to(TaskState::Scheduled).unwrap();
    let tasks = vec![a, b, c, d];
    let summary = state_summary(&tasks);
    assert_eq!(
        summary,
        vec![("pending", 1), ("running", 1), ("completed", 1), ("failed", 0), ("cancelled", 0), ("total", 4)]
    );
}

#[test]
fn create_task_request_carries_command_and_dependencies() {
    let dep = TaskId::new();
    let task = CreateTask::new("deploy").with_command("echo deploy").with_dependency(dep.clone()).into_task();
    assert_eq!(task.depends_on, vec![dep]);
    assert_eq!(task.data["command"], "echo deploy");
}

#[test]
fn group_lookup_by_name_takes_the_first_match() {
    let a = Group::new("build").with_description("first");
    let b = Group::new("deploy");
    let c = Group::new("build").with_description("second");
    let found = find_group_by_name(vec![a, b, c], "build").unwrap();
    assert_eq!(found.name, "build");
    assert_eq!(found.description.as_deref(), Some("first"));
    let missing = find_group_by_name(vec![Group::new("deploy")], "build");
    assert!(matches!(missing, Err(TaskError::NotFound(ref n)) if n == "build"));
    assert!(matches!(find_group_by_name(Vec::new(), "x"), Err(TaskError::NotFound(_))));
}
