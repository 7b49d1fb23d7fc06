use std::time::Duration;

use taskkit::domain::dag::DagError;
use taskkit::domain::errors::{PortError, TaskError};
use taskkit::domain::tasks::TaskState;

#[test]
fn test_port_error_display() {
    let err = PortError::Storage("disk full".to_string());
    assert_eq!(err.to_string(), "Storage error: disk full");
}

#[test]
fn test_task_error_display() {
    let err = TaskError::NotFound("task-1".to_string());
    assert_eq!(err.to_string(), "Task not found: task-1");
}

#[test]
fn test_task_error_error_code() {
    assert_eq!(TaskError::NotFound("x".to_string()).error_code(), "task_not_found");
    assert_eq!(
        TaskError::InvalidStateTransition { from: TaskState::Pending, to: TaskState::Running }.error_code(),
        "invalid_state_transition"
    );
    assert_eq!(TaskError::ExecutionFailed("fail".to_string()).error_code(), "execution_failed");
    assert_eq!(TaskError::Timeout(Duration::from_secs(1)).error_code(), "task_timeout");
    assert_eq!(TaskError::Cancelled.error_code(), "task_cancelled");
    assert_eq!(TaskError::RetryLimitExceeded(3).error_code(), "retry_limit_exceeded");
    assert_eq!(TaskError::InvalidOperation("bad".to_string()).error_code(), "invalid_operation");
    assert_eq!(TaskError::StorageError("io".to_string()).error_code(), "storage_error");
    assert_eq!(TaskError::ValidationError("bad".to_string()).error_code(), "validation_error");
    assert_eq!(TaskError::SerializationError("json".to_string()).error_code(), "serialization_error");
    let port = PortError::Queue("full".to_string());
    assert_eq!(TaskError::Port(port).error_code(), "port_error");
}

#[test]
fn test_task_error_variant_name() {
    assert_eq!(TaskError::NotFound("x".to_string()).variant_name(), "NotFound");
    assert_eq!(TaskError::Cancelled.variant_name(), "Cancelled");
}

#[test]
fn test_task_error_to_json_value() {
    let err = TaskError::RetryLimitExceeded(5);
    let v = err.to_json_value();
    assert_eq!(v["error_code"], "retry_limit_exceeded");
    assert_eq!(v["message"], "Retry limit exceeded (5 attempts)");
    assert_eq!(v["type"], "RetryLimitExceeded");
}

#[test]
fn test_port_error_from() {
    let port = PortError::Queue("full".to_string());
    let task_err = TaskError::from(port);
    assert!(matches!(task_err, TaskError::Port(_)));
}

#[test]
fn test_dag_error_display() {
    let e = DagError::Cycle(vec!["a".into(), "b".into(), "a".into()]);
    let s = e.to_string();
    assert!(s.contains("cycle"));
    assert!(s.contains("a -> b -> a"));
}

#[test]
fn test_dag_error_into_task_error() {
    let e: TaskError = DagError::Empty.into();
    let s = e.to_string();
    assert!(s.contains("no steps"));
}

// ---------------------------------------------------------------------------
// Further cases
// ---------------------------------------------------------------------------

#[test]
fn every_message_is_exact() {
    assert_eq!(
        TaskError::InvalidStateTransition { from: TaskState::Completed, to: TaskState::Running }.to_string(),
        "Invalid state transition from Completed to Running"
    );
    assert_eq!(TaskError::RetryLimitExceeded(12).to_string(), "Retry limit exceeded (12 attempts)");
    assert_eq!(TaskError::Timeout(Duration::from_secs(1)).to_string(), "Task timed out after 1s");
    assert_eq!(
        TaskError::Port(PortError::Io("eof".into())).to_string(),
        "Port error: IO error: eof"
    );
}

#[test]
fn dag_error_messages() {
    assert_eq!(
        DagError::MissingDependency { step: "a".into(), missing: "z".into() }.to_string(),
        "step 'a' depends on unknown step 'z'"
    );
    assert_eq!(DagError::DuplicateId("a".into()).to_string(), "duplicate step id: 'a'");
    assert_eq!(DagError::SelfLoop("a".into()).to_string(), "step 'a' depends on itself");
    assert_eq!(DagError::Cycle(vec![]).to_string(), "workflow contains cycle: ");
    let t: TaskError = DagError::SelfLoop("s".into()).into();
    assert_eq!(t.to_string(), "Invalid operation: step 's' depends on itself");
}

#[test]
fn codes_differ_between_variants() {
    let codes = [
        TaskError::NotFound("x".into()).error_code(),
        TaskError::Cancelled.error_code(),
        TaskError::Port(PortError::NotFound("x".into())).error_code(),
    ];
    assert_ne!(codes[0], codes[1]);
    assert_ne!(codes[1], codes[2]);
}
