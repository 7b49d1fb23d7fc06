//! Domain events emitted by tasks.

use vstd::prelude::*;

use crate::domain::tasks::{TaskId, TaskState};

verus! {

/// A task-related event.
#[derive(Debug, Clone)]
pub enum TaskEvent {
    /// Task state changed.
    StateChanged {
        task_id: TaskId,
        from: TaskState,
        to: TaskState,
        timestamp: String,
    },
    /// Task execution started.
    ExecutionStarted { task_id: TaskId, timestamp: String },
    /// Task execution completed.
    ExecutionCompleted {
        task_id: TaskId,
        duration_ms: u64,
        timestamp: String,
    },
    /// Task execution failed.
    ExecutionFailed {
        task_id: TaskId,
        error: String,
        timestamp: String,
    },
    /// Task was scheduled.
    Scheduled {
        task_id: TaskId,
        scheduled_for: String,
        timestamp: String,
    },
    /// Task was retried.
    Retried { task_id: TaskId, attempt: u32, timestamp: String },
    /// Task was cancelled.
    Cancelled {
        task_id: TaskId,
        reason: Option<String>,
        timestamp: String,
    },
}

/// Event kind for filtering.
#[derive(Debug, Clone, Copy, PartialEq, Eq, Structural)]
pub enum TaskEventKind {
    Created,
    StateChanged,
    ExecutionStarted,
    ExecutionCompleted,
    ExecutionFailed,
    Scheduled,
    Retried,
    Cancelled,
}

/// The kind of an event.
pub open spec fn event_kind(e: TaskEvent) -> TaskEventKind {
    match e {
        TaskEvent::StateChanged { .. } => TaskEventKind::StateChanged,
        TaskEvent::ExecutionStarted { .. } => TaskEventKind::ExecutionStarted,
        TaskEvent::ExecutionCompleted { .. } => TaskEventKind::ExecutionCompleted,
        TaskEvent::ExecutionFailed { .. } => TaskEventKind::ExecutionFailed,
        TaskEvent::Scheduled { .. } => TaskEventKind::Scheduled,
        TaskEvent::Retried { .. } => TaskEventKind::Retried,
        TaskEvent::Cancelled { .. } => TaskEventKind::Cancelled,
    }
}

/// The task an event is about.
pub open spec fn event_task(e: TaskEvent) -> TaskId {
    match e {
        TaskEvent::StateChanged { task_id, .. } => task_id,
        TaskEvent::ExecutionStarted { task_id, .. } => task_id,
        TaskEvent::ExecutionCompleted { task_id, .. } => task_id,
        TaskEvent::ExecutionFailed { task_id, .. } => task_id,
        TaskEvent::Scheduled { task_id, .. } => task_id,
        TaskEvent::Retried { task_id, .. } => task_id,
        TaskEvent::Cancelled { task_id, .. } => task_id,
    }
}

impl TaskEvent {
    /// The event kind.
    pub fn kind(&self) -> (r: TaskEventKind)
        ensures
            r == event_kind(*self),
    {
        match self {
            TaskEvent::StateChanged { .. } => TaskEventKind::StateChanged,
            TaskEvent::ExecutionStarted { .. } => TaskEventKind::ExecutionStarted,
            TaskEvent::ExecutionCompleted { .. } => TaskEventKind::ExecutionCompleted,
            TaskEvent::ExecutionFailed { .. } => TaskEventKind::ExecutionFailed,
            TaskEvent::Scheduled { .. } => TaskEventKind::Scheduled,
            TaskEvent::Retried { .. } => TaskEventKind::Retried,
            TaskEvent::Cancelled { .. } => TaskEventKind::Cancelled,
        }
    }

    /// The task this event is about.
    pub fn task_id(&self) -> (r: &TaskId)
        ensures
            *r == event_task(*self),
    {
        match self {
            TaskEvent::StateChanged { task_id, .. } => task_id,
            TaskEvent::ExecutionStarted { task_id, .. } => task_id,
            TaskEvent::ExecutionCompleted { task_id, .. } => task_id,
            TaskEvent::ExecutionFailed { task_id, .. } => task_id,
            TaskEvent::Scheduled { task_id, .. } => task_id,
            TaskEvent::Retried { task_id, .. } => task_id,
            TaskEvent::Cancelled { task_id, .. } => task_id,
        }
    }
}

/// The lower-case name of a task state, as it appears in event records.
pub open spec fn state_name(s: TaskState) -> Seq<char> {
    match s {
        TaskState::Pending => "pending"@,
        TaskState::Scheduled => "scheduled"@,
        TaskState::Running => "running"@,
        TaskState::Completed => "completed"@,
        TaskState::Failed => "failed"@,
        TaskState::Cancelled => "cancelled"@,
        TaskState::Retrying => "retrying"@,
    }
}

/// The lower-case name of a task state.
pub fn state_name_of(s: TaskState) -> (r: String)
    ensures
        r@ == state_name(s),
{
    match s {
        TaskState::Pending => String::from_str("pending"),
        TaskState::Scheduled => String::from_str("scheduled"),
        TaskState::Running => String::from_str("running"),
        TaskState::Completed => String::from_str("completed"),
        TaskState::Failed => String::from_str("failed"),
        TaskState::Cancelled => String::from_str("cancelled"),
        TaskState::Retrying => String::from_str("retrying"),
    }
}

/// The flat record of an event: the shape in which events are written out.
/// Fields that are `None` are left out of the written record.
#[derive(Debug, Clone)]
pub struct EventEnvelope {
    /// The event kind in snake case, e.g. `state_changed`.
    pub kind: String,
    /// The task the event is about.
    pub task_id: String,
    /// The state left, for state changes.
    pub from_state: Option<String>,
    /// The state entered, for state changes.
    pub to_state: Option<String>,
    /// The failure message, or the cancellation reason.
    pub error: Option<String>,
    /// The run time in milliseconds, or the attempt number of a retry.
    pub duration_ms: Option<u64>,
    /// When the event happened.
    pub timestamp: String,
}

/// The snake-case name of an event's kind.
pub open spec fn envelope_kind(e: TaskEvent) -> Seq<char> {
    match e {
        TaskEvent::StateChanged { .. } => "state_changed"@,
        TaskEvent::ExecutionStarted { .. } => "execution_started"@,
        TaskEvent::ExecutionCompleted { .. } => "execution_completed"@,
        TaskEvent::ExecutionFailed { .. } => "execution_failed"@,
        TaskEvent::Scheduled { .. } => "scheduled"@,
        TaskEvent::Retried { .. } => "retried"@,
        TaskEvent::Cancelled { .. } => "cancelled"@,
    }
}

/// Whether `r` is the flat record of event `e`: the kind name, the task
/// identifier and the timestamp always; the two state names for a state
/// change; the message of a failure or the reason of a cancellation as
/// `error`; the run time of a completion, or the attempt number of a retry,
/// as `duration_ms`; nothing else.
pub open spec fn is_envelope_of(r: EventEnvelope, e: TaskEvent) -> bool {
    &&& r.kind@ == envelope_kind(e)
    &&& r.task_id@ == event_task(e).0@
    &&& match e {
        TaskEvent::StateChanged { from, to, timestamp, .. } => {
            &&& r.from_state matches Some(f) && f@ == state_name(from)
            &&& r.to_state matches Some(t) && t@ == state_name(to)
            &&& r.error is None
            &&& r.duration_ms is None
            &&& r.timestamp@ == timestamp@
        },
        TaskEvent::ExecutionStarted { timestamp, .. } => {
            &&& r.from_state is None && r.to_state is None
            &&& r.error is None && r.duration_ms is None
            &&& r.timestamp@ == timestamp@
        },
        TaskEvent::ExecutionCompleted { duration_ms, timestamp, .. } => {
            &&& r.from_state is None && r.to_state is None
            &&& r.error is None
            &&& r.duration_ms == Some(duration_ms)
            &&& r.timestamp@ == timestamp@
        },
        TaskEvent::ExecutionFailed { error, timestamp, .. } => {
            &&& r.from_state is None && r.to_state is None
            &&& r.error matches Some(m) && m@ == error@
            &&& r.duration_ms is None
            &&& r.timestamp@ == timestamp@
        },
        TaskEvent::Scheduled { timestamp, .. } => {
            &&& r.from_state is None && r.to_state is None
            &&& r.error is None && r.duration_ms is None
            &&& r.timestamp@ == timestamp@
        },
        TaskEvent::Retried { attempt, timestamp, .. } => {
            &&& r.from_state is None && r.to_state is None
            &&& r.error is None
            &&& r.duration_ms == Some(attempt as u64)
            &&& r.timestamp@ == timestamp@
        },
        TaskEvent::Cancelled { reason, timestamp, .. } => {
            &&& r.from_state is None && r.to_state is None
            &&& match reason {
                Some(x) => r.error matches Some(m) && m@ == x@,
                None => r.error is None,
            }
            &&& r.duration_ms is None
            &&& r.timestamp@ == timestamp@
        },
    }
}

fn copy_opt(s: &Option<String>) -> (r: Option<String>)
    ensures
        match *s {
            Some(x) => r matches Some(y) && y@ == x@,
            None => r is None,
        },
{
    match s {
        Some(x) => Some(x.clone()),
        None => None,
    }
}

impl TaskEvent {
    /// The flat record of this event.
    pub fn envelope(&self) -> (r: EventEnvelope)
        ensures
            is_envelope_of(r, *self),
    {
        match self {
            TaskEvent::StateChanged { task_id, from, to, timestamp } => EventEnvelope {
                kind: String::from_str("state_changed"),
                task_id: task_id.0.clone(),
                from_state: Some(state_name_of(*from)),
                to_state: Some(state_name_of(*to)),
                error: None,
                duration_ms: None,
                timestamp: timestamp.clone(),
            },
            TaskEvent::ExecutionStarted { task_id, timestamp } => EventEnvelope {
                kind: String::from_str("execution_started"),
                task_id: task_id.0.clone(),
                from_state: None,
                to_state: None,
                error: None,
                duration_ms: None,
                timestamp: timestamp.clone(),
            },
            TaskEvent::ExecutionCompleted { task_id, duration_ms, timestamp } => EventEnvelope {
                kind: String::from_str("execution_completed"),
                task_id: task_id.0.clone(),
                from_state: None,
                to_state: None,
                error: None,
                duration_ms: Some(*duration_ms),
                timestamp: timestamp.clone(),
            },
            TaskEvent::ExecutionFailed { task_id, error, timestamp } => EventEnvelope {
                kind: String::from_str("execution_failed"),
                task_id: task_id.0.clone(),
                from_state: None,
                to_state: None,
                error: Some(error.clone()),
                duration_ms: None,
                timestamp: timestamp.clone(),
            },
            TaskEvent::Scheduled { task_id, timestamp, .. } => EventEnvelope {
                kind: String::from_str("scheduled"),
                task_id: task_id.0.clone(),
                from_state: None,
                to_state: None,
                error: None,
                duration_ms: None,
                timestamp: timestamp.clone(),
            },
            TaskEvent::Retried { task_id, attempt, timestamp } => EventEnvelope {
                kind: String::from_str("retried"),
                task_id: task_id.0.clone(),
                from_state: None,
                to_state: None,
                error: None,
                duration_ms: Some(*attempt as u64),
                timestamp: timestamp.clone(),
            },
            TaskEvent::Cancelled { task_id, reason, timestamp } => EventEnvelope {
                kind: String::from_str("cancelled"),
                task_id: task_id.0.clone(),
                from_state: None,
                to_state: None,
                error: copy_opt(reason),
                duration_ms: None,
                timestamp: timestamp.clone(),
            },
        }
    }
}

} // verus!
