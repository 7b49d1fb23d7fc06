//! Domain errors and their messages, codes and names.

use vstd::prelude::*;

use crate::domain::tasks::TaskState;
use crate::external::{json_fields, json_map_insert, json_map_new, json_object, json_object_value, json_text, json_text_value};
use crate::text::{decimal, push_decimal, push_str};

verus! {

/// Port-related errors for storage, queue, and notification adapters.
#[derive(Debug, Clone)]
pub enum PortError {
    Storage(String),
    Queue(String),
    Serialization(String),
    Io(String),
    NotFound(String),
}

/// Task-related errors.
#[derive(Debug, Clone)]
pub enum TaskError {
    NotFound(String),
    InvalidStateTransition { from: TaskState, to: TaskState },
    ExecutionFailed(String),
    Timeout(std::time::Duration),
    Cancelled,
    RetryLimitExceeded(u32),
    InvalidOperation(String),
    StorageError(String),
    ValidationError(String),
    SerializationError(String),
    Port(PortError),
}

/// The message of a port error.
pub open spec fn port_error_message(e: PortError) -> Seq<char> {
    match e {
        PortError::Storage(s) => "Storage error: "@ + s@,
        PortError::Queue(s) => "Queue error: "@ + s@,
        PortError::Serialization(s) => "Serialization error: "@ + s@,
        PortError::Io(s) => "IO error: "@ + s@,
        PortError::NotFound(s) => "Not found: "@ + s@,
    }
}

/// The debug name of a task state.
pub open spec fn state_name(s: TaskState) -> Seq<char> {
    match s {
        TaskState::Pending => "Pending"@,
        TaskState::Scheduled => "Scheduled"@,
        TaskState::Running => "Running"@,
        TaskState::Completed => "Completed"@,
        TaskState::Failed => "Failed"@,
        TaskState::Cancelled => "Cancelled"@,
        TaskState::Retrying => "Retrying"@,
    }
}

/// The message of a task error (a timeout's duration as `Duration`'s
/// `Debug` renders it).
pub open spec fn task_error_message(e: TaskError) -> Seq<char> {
    match e {
        TaskError::NotFound(s) => "Task not found: "@ + s@,
        TaskError::InvalidStateTransition { from, to } =>
            "Invalid state transition from "@ + state_name(from) + " to "@ + state_name(to),
        TaskError::ExecutionFailed(s) => "Task execution failed: "@ + s@,
        TaskError::Timeout(d) => "Task timed out after "@ + duration_debug_text(d),
        TaskError::Cancelled => "Task cancelled"@,
        TaskError::RetryLimitExceeded(n) => "Retry limit exceeded ("@ + decimal(n as nat) + " attempts)"@,
        TaskError::InvalidOperation(s) => "Invalid operation: "@ + s@,
        TaskError::StorageError(s) => "Storage error: "@ + s@,
        TaskError::ValidationError(s) => "Validation error: "@ + s@,
        TaskError::SerializationError(s) => "Serialization error: "@ + s@,
        TaskError::Port(p) => "Port error: "@ + port_error_message(p),
    }
}

/// The machine-readable code of a task error.
pub open spec fn error_code_of(e: TaskError) -> Seq<char> {
    match e {
        TaskError::NotFound(_) => "task_not_found"@,
        TaskError::InvalidStateTransition { .. } => "invalid_state_transition"@,
        TaskError::ExecutionFailed(_) => "execution_failed"@,
        TaskError::Timeout(_) => "task_timeout"@,
        TaskError::Cancelled => "task_cancelled"@,
        TaskError::RetryLimitExceeded(_) => "retry_limit_exceeded"@,
        TaskError::InvalidOperation(_) => "invalid_operation"@,
        TaskError::StorageError(_) => "storage_error"@,
        TaskError::ValidationError(_) => "validation_error"@,
        TaskError::SerializationError(_) => "serialization_error"@,
        TaskError::Port(_) => "port_error"@,
    }
}

/// The variant name of a task error.
pub open spec fn variant_name_of(e: TaskError) -> Seq<char> {
    match e {
        TaskError::NotFound(_) => "NotFound"@,
        TaskError::InvalidStateTransition { .. } => "InvalidStateTransition"@,
        TaskError::ExecutionFailed(_) => "ExecutionFailed"@,
        TaskError::Timeout(_) => "Timeout"@,
        TaskError::Cancelled => "Cancelled"@,
        TaskError::RetryLimitExceeded(_) => "RetryLimitExceeded"@,
        TaskError::InvalidOperation(_) => "InvalidOperation"@,
        TaskError::StorageError(_) => "StorageError"@,
        TaskError::ValidationError(_) => "ValidationError"@,
        TaskError::SerializationError(_) => "SerializationError"@,
        TaskError::Port(_) => "Port"@,
    }
}

/// A duration as `Duration`'s `Debug` renders it (e.g. `1s`, `1.5ms`).
pub uninterp spec fn duration_debug_text(d: std::time::Duration) -> Seq<char>;

/// Renders a duration as `Duration`'s `Debug` does.
///
/// Calls `format!("{:?}", d)`; the text depends on the duration alone and
/// is named `duration_debug_text`.
#[verifier::external_body]
pub(crate) fn duration_debug(d: &std::time::Duration) -> (r: String)
    ensures
        r@ == duration_debug_text(*d),
{
    format!("{:?}", d)
}

fn with_prefix(prefix: &str, s: &String) -> (r: String)
    ensures
        r@ == prefix@ + s@,
{
    let mut r = String::from_str(prefix);
    push_str(&mut r, s.as_str());
    r
}

fn state_debug(s: TaskState) -> (r: &'static str)
    ensures
        r@ == state_name(s),
{
    match s {
        TaskState::Pending => "Pending",
        TaskState::Scheduled => "Scheduled",
        TaskState::Running => "Running",
        TaskState::Completed => "Completed",
        TaskState::Failed => "Failed",
        TaskState::Cancelled => "Cancelled",
        TaskState::Retrying => "Retrying",
    }
}

impl PortError {
    /// The human-readable message (what `Display` renders).
    pub fn to_string(&self) -> (r: String)
        ensures
            r@ == port_error_message(*self),
    {
        match self {
            PortError::Storage(s) => with_prefix("Storage error: ", s),
            PortError::Queue(s) => with_prefix("Queue error: ", s),
            PortError::Serialization(s) => with_prefix("Serialization error: ", s),
            PortError::Io(s) => with_prefix("IO error: ", s),
            PortError::NotFound(s) => with_prefix("Not found: ", s),
        }
    }
}

impl TaskError {
    /// The human-readable message (what `Display` renders).
    pub fn to_string(&self) -> (r: String)
        ensures
            r@ == task_error_message(*self),
    {
        match self {
            TaskError::NotFound(s) => with_prefix("Task not found: ", s),
            TaskError::InvalidStateTransition { from, to } => {
                let mut r = String::from_str("Invalid state transition from ");
                push_str(&mut r, state_debug(*from));
                push_str(&mut r, " to ");
                push_str(&mut r, state_debug(*to));
                r
            },
            TaskError::ExecutionFailed(s) => with_prefix("Task execution failed: ", s),
            TaskError::Timeout(d) => {
                let text = duration_debug(d);
                with_prefix("Task timed out after ", &text)
            },
            TaskError::Cancelled => String::from_str("Task cancelled"),
            TaskError::RetryLimitExceeded(n) => {
                let mut r = String::from_str("Retry limit exceeded (");
                push_decimal(&mut r, *n as u64);
                push_str(&mut r, " attempts)");
                r
            },
            TaskError::InvalidOperation(s) => with_prefix("Invalid operation: ", s),
            TaskError::StorageError(s) => with_prefix("Storage error: ", s),
            TaskError::ValidationError(s) => with_prefix("Validation error: ", s),
            TaskError::SerializationError(s) => with_prefix("Serialization error: ", s),
            TaskError::Port(p) => {
                let inner = p.to_string();
                with_prefix("Port error: ", &inner)
            },
        }
    }

    /// A unique machine-readable code for the variant.
    pub fn error_code(&self) -> (r: &'static str)
        ensures
            r@ == error_code_of(*self),
    {
        match self {
            TaskError::NotFound(_) => "task_not_found",
            TaskError::InvalidStateTransition { .. } => "invalid_state_transition",
            TaskError::ExecutionFailed(_) => "execution_failed",
            TaskError::Timeout(_) => "task_timeout",
            TaskError::Cancelled => "task_cancelled",
            TaskError::RetryLimitExceeded(_) => "retry_limit_exceeded",
            TaskError::InvalidOperation(_) => "invalid_operation",
            TaskError::StorageError(_) => "storage_error",
            TaskError::ValidationError(_) => "validation_error",
            TaskError::SerializationError(_) => "serialization_error",
            TaskError::Port(_) => "port_error",
        }
    }

    /// The Rust variant name.
    pub fn variant_name(&self) -> (r: &'static str)
        ensures
            r@ == variant_name_of(*self),
    {
        match self {
            TaskError::NotFound(_) => "NotFound",
            TaskError::InvalidStateTransition { .. } => "InvalidStateTransition",
            TaskError::ExecutionFailed(_) => "ExecutionFailed",
            TaskError::Timeout(_) => "Timeout",
            TaskError::Cancelled => "Cancelled",
            TaskError::RetryLimitExceeded(_) => "RetryLimitExceeded",
            TaskError::InvalidOperation(_) => "InvalidOperation",
            TaskError::StorageError(_) => "StorageError",
            TaskError::ValidationError(_) => "ValidationError",
            TaskError::SerializationError(_) => "SerializationError",
            TaskError::Port(_) => "Port",
        }
    }
}

/// The JSON object `{"error_code": code, "message": message, "type": kind}`.
pub open spec fn error_object(code: Seq<char>, message: Seq<char>, kind: Seq<char>) -> serde_json::Value {
    json_object(map!["error_code"@ => json_text(code), "message"@ => json_text(message), "type"@ => json_text(kind)])
}

/// Builds the JSON object `{"error_code": code, "message": message,
/// "type": kind}`.
fn error_json(code: &str, message: &str, kind: &str) -> (r: serde_json::Value)
    ensures
        r == error_object(code@, message@, kind@),
{
    let mut m = json_map_new();
    let v = json_text_value(code);
    json_map_insert(&mut m, "error_code", v);
    let v = json_text_value(message);
    json_map_insert(&mut m, "message", v);
    let v = json_text_value(kind);
    json_map_insert(&mut m, "type", v);
    proof {
        assert(json_fields(m) =~= map![
            "error_code"@ => json_text(code@),
            "message"@ => json_text(message@),
            "type"@ => json_text(kind@),
        ]);
    }
    json_object_value(m)
}

impl TaskError {
    /// The error as a JSON object with its code, message and variant name.
    pub fn to_json_value(&self) -> (r: serde_json::Value)
        ensures
            r == error_object(error_code_of(*self), task_error_message(*self), variant_name_of(*self)),
    {
        let message = self.to_string();
        error_json(self.error_code(), message.as_str(), self.variant_name())
    }
}

impl From<PortError> for TaskError {
    fn from(e: PortError) -> (r: TaskError)
        ensures
            r == TaskError::Port(e),
    {
        TaskError::Port(e)
    }
}

impl vstd::std_specs::convert::FromSpecImpl<PortError> for TaskError {
    open spec fn obeys_from_spec() -> bool {
        true
    }

    open spec fn from_spec(e: PortError) -> TaskError {
        TaskError::Port(e)
    }
}

/// The code of a task error identifies its variant: two errors with the same
/// code have the same variant name.
pub proof fn lemma_error_codes_distinguish_variants(a: TaskError, b: TaskError)
    requires
        error_code_of(a) == error_code_of(b),
    ensures
        variant_name_of(a) == variant_name_of(b),
{
    reveal_strlit("task_not_found");
    reveal_strlit("invalid_state_transition");
    reveal_strlit("execution_failed");
    reveal_strlit("task_timeout");
    reveal_strlit("task_cancelled");
    reveal_strlit("retry_limit_exceeded");
    reveal_strlit("invalid_operation");
    reveal_strlit("storage_error");
    reveal_strlit("validation_error");
    reveal_strlit("serialization_error");
    reveal_strlit("port_error");
    let ca = error_code_of(a);
    let cb = error_code_of(b);
    assert(ca.len() == cb.len());
    assert(ca[0] == cb[0]);
    assert(ca[5] == cb[5]);
    match a {
        TaskError::NotFound(_) => { assert(b is NotFound); },
        TaskError::InvalidStateTransition { .. } => { assert(b is InvalidStateTransition); },
        TaskError::ExecutionFailed(_) => { assert(b is ExecutionFailed); },
        TaskError::Timeout(_) => { assert(b is Timeout); },
        TaskError::Cancelled => { assert(b is Cancelled); },
        TaskError::RetryLimitExceeded(_) => { assert(b is RetryLimitExceeded); },
        TaskError::InvalidOperation(_) => { assert(b is InvalidOperation); },
        TaskError::StorageError(_) => { assert(b is StorageError); },
        TaskError::ValidationError(_) => { assert(b is ValidationError); },
        TaskError::SerializationError(_) => { assert(b is SerializationError); },
        TaskError::Port(_) => { assert(b is Port); },
    }
}


/// The variant name of a task error identifies its variant: two errors with
/// the same variant name have the same code.
proof fn lemma_variant_names_distinguish_variants(a: TaskError, b: TaskError)
    requires
        variant_name_of(a) == variant_name_of(b),
    ensures
        error_code_of(a) == error_code_of(b),
{
    reveal_strlit("NotFound");
    reveal_strlit("InvalidStateTransition");
    reveal_strlit("ExecutionFailed");
    reveal_strlit("Timeout");
    reveal_strlit("Cancelled");
    reveal_strlit("RetryLimitExceeded");
    reveal_strlit("InvalidOperation");
    reveal_strlit("StorageError");
    reveal_strlit("ValidationError");
    reveal_strlit("SerializationError");
    reveal_strlit("Port");
    let na = variant_name_of(a);
    let nb = variant_name_of(b);
    assert(na.len() == nb.len());
    assert(na[0] == nb[0]);
    match a {
        TaskError::NotFound(_) => { assert(b is NotFound); },
        TaskError::InvalidStateTransition { .. } => { assert(b is InvalidStateTransition); },
        TaskError::ExecutionFailed(_) => { assert(b is ExecutionFailed); },
        TaskError::Timeout(_) => { assert(b is Timeout); },
        TaskError::Cancelled => { assert(b is Cancelled); },
        TaskError::RetryLimitExceeded(_) => { assert(b is RetryLimitExceeded); },
        TaskError::InvalidOperation(_) => { assert(b is InvalidOperation); },
        TaskError::StorageError(_) => { assert(b is StorageError); },
        TaskError::ValidationError(_) => { assert(b is ValidationError); },
        TaskError::SerializationError(_) => { assert(b is SerializationError); },
        TaskError::Port(_) => { assert(b is Port); },
    }
}

/// Codes and variant names are one to one: two task errors share a code
/// exactly when they share a variant name, whatever their payloads.
pub proof fn lemma_error_code_one_to_one(a: TaskError, b: TaskError)
    ensures
        (error_code_of(a) == error_code_of(b)) <==> (variant_name_of(a) == variant_name_of(b)),
{
    if error_code_of(a) == error_code_of(b) {
        lemma_error_codes_distinguish_variants(a, b);
    }
    if variant_name_of(a) == variant_name_of(b) {
        lemma_variant_names_distinguish_variants(a, b);
    }
}

} // verus!
