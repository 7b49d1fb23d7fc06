//! Task entity, its identifiers, priorities and the state machine.

use vstd::prelude::*;

use crate::domain::errors::TaskError;
use crate::domain::events::TaskEvent;
use crate::external::{
    duration_from_secs, duration_nanos, duration_new, json_fields, json_get_text, json_map_insert, json_map_new, json_null,
    json_object, json_object_value, json_str_field, json_text, json_text_value, max_duration_nanos, nanos_of,
    new_uuid_string, now_utc, secs_duration,
};

pub use crate::domain::task_order::{checked_topological_sort_tasks, topological_sort_tasks};

verus! {

/// Unique task identifier.
#[derive(Debug, Clone, PartialEq, Eq, Hash)]
pub struct TaskId(pub String);

impl TaskId {
    /// A fresh random identifier.
    pub fn new() -> (r: Self)
        ensures
            r.0@.len() == 36,
    {
        TaskId(new_uuid_string())
    }

    /// An identifier with the given text.
    pub fn from_string(id: String) -> (r: Self)
        ensures
            r.0@ == id@,
    {
        TaskId(id)
    }

    /// A copy of this identifier.
    pub fn duplicate(&self) -> (r: Self)
        ensures
            r.0@ == self.0@,
    {
        TaskId(self.0.clone())
    }
}

/// Task priority levels, in increasing order of urgency.
#[derive(Debug, Clone, Copy, PartialEq, Eq, PartialOrd, Ord, Hash, Default, Structural)]
pub enum Priority {
    Low,
    #[default]
    Normal,
    High,
    Critical,
}

/// The numeric weight of each priority level.
pub open spec fn priority_weight(p: Priority) -> u8 {
    match p {
        Priority::Low => 0,
        Priority::Normal => 5,
        Priority::High => 8,
        Priority::Critical => 10,
    }
}

impl Priority {
    /// The numeric weight of the level (0, 5, 8 or 10).
    pub fn weight(&self) -> (r: u8)
        ensures
            r == priority_weight(*self),
    {
        match self {
            Priority::Low => 0,
            Priority::Normal => 5,
            Priority::High => 8,
            Priority::Critical => 10,
        }
    }
}

/// The states of a task.
#[derive(Debug, Clone, Copy, PartialEq, Eq, Hash, Default, Structural)]
pub enum TaskState {
    #[default]
    Pending,
    Scheduled,
    Running,
    Completed,
    Failed,
    Cancelled,
    Retrying,
}

/// The transitions of the task state machine.
///
/// Pending may be scheduled, started or cancelled; Scheduled may be started or
/// cancelled; Running may complete, fail, retry or be cancelled; Retrying may
/// run again or be cancelled. Completed, Failed and Cancelled are terminal.
pub open spec fn transition_allowed(from: TaskState, to: TaskState) -> bool {
    match (from, to) {
        (TaskState::Pending, TaskState::Scheduled) => true,
        (TaskState::Pending, TaskState::Running) => true,
        (TaskState::Pending, TaskState::Cancelled) => true,
        (TaskState::Scheduled, TaskState::Running) => true,
        (TaskState::Scheduled, TaskState::Cancelled) => true,
        (TaskState::Running, TaskState::Completed) => true,
        (TaskState::Running, TaskState::Failed) => true,
        (TaskState::Running, TaskState::Retrying) => true,
        (TaskState::Running, TaskState::Cancelled) => true,
        (TaskState::Retrying, TaskState::Running) => true,
        (TaskState::Retrying, TaskState::Cancelled) => true,
        _ => false,
    }
}

/// A state from which no transition leads anywhere.
pub open spec fn is_terminal(s: TaskState) -> bool {
    s == TaskState::Completed || s == TaskState::Failed || s == TaskState::Cancelled
}

/// Retry policy for failed tasks.
///
/// `jitter_bits` holds the IEEE-754 bit pattern of the jitter factor; the
/// library carries it and never computes with it.
#[derive(Debug, Clone, Copy)]
pub struct RetryPolicy {
    /// Maximum number of retries.
    pub max_attempts: u32,
    /// Delay between retries (exponential backoff).
    pub base_delay: std::time::Duration,
    /// Maximum delay cap.
    pub max_delay: std::time::Duration,
    /// Bit pattern of the jitter factor (0.0 to 1.0).
    pub jitter_bits: u64,
}

impl Default for RetryPolicy {
    /// The default policy: 3 attempts, 1 s base delay, 60 s cap, jitter 0.1.
    fn default() -> (r: Self)
        ensures
            r.max_attempts == 3,
            r.base_delay == secs_duration(1),
            r.max_delay == secs_duration(60),
            r.jitter_bits == 0x3FB9_9999_9999_999Au64,
    {
        RetryPolicy::default_policy()
    }
}

impl RetryPolicy {
    /// The default policy: 3 attempts, 1 s base delay, 60 s cap, jitter 0.1.
    pub fn default_policy() -> (r: Self)
        ensures
            r.max_attempts == 3,
            r.base_delay == secs_duration(1),
            r.max_delay == secs_duration(60),
            r.jitter_bits == 0x3FB9_9999_9999_999Au64,
    {
        RetryPolicy {
            max_attempts: 3,
            base_delay: duration_from_secs(1),
            max_delay: duration_from_secs(60),
            jitter_bits: 0x3FB9_9999_9999_999Au64,
        }
    }
}

/// Two tasks agree in every field, their lists by contents.
pub open spec fn same_task(a: Task, b: Task) -> bool {
    &&& a.id == b.id
    &&& a.name == b.name
    &&& a.description == b.description
    &&& a.state == b.state
    &&& a.priority == b.priority
    &&& a.timeout == b.timeout
    &&& a.retry_policy == b.retry_policy
    &&& a.created_at == b.created_at
    &&& a.updated_at == b.updated_at
    &&& a.started_at == b.started_at
    &&& a.completed_at == b.completed_at
    &&& a.error == b.error
    &&& a.retry_count == b.retry_count
    &&& a.data == b.data
    &&& a.tags@ == b.tags@
    &&& a.depends_on@ == b.depends_on@
}

fn copy_text(s: &Option<String>) -> (r: Option<String>)
    ensures
        r == *s,
{
    match s {
        Some(x) => Some(x.clone()),
        None => None,
    }
}

/// Task definition.
#[derive(Debug, Clone)]
pub struct Task {
    /// Unique identifier.
    pub id: TaskId,
    /// Human-readable name.
    pub name: String,
    /// Task description.
    pub description: Option<String>,
    /// Current state.
    pub state: TaskState,
    /// Priority level.
    pub priority: Priority,
    /// Timeout duration.
    pub timeout: Option<std::time::Duration>,
    /// Retry policy.
    pub retry_policy: Option<RetryPolicy>,
    /// Created timestamp (RFC 3339, UTC).
    pub created_at: String,
    /// Updated timestamp.
    pub updated_at: String,
    /// Started timestamp.
    pub started_at: Option<String>,
    /// Completed timestamp.
    pub completed_at: Option<String>,
    /// Error message if failed.
    pub error: Option<String>,
    /// Retry count.
    pub retry_count: u32,
    /// Task payload/data.
    pub data: serde_json::Value,
    /// Tags for categorization.
    pub tags: Vec<String>,
    /// Identifiers of the tasks that must run first.
    pub depends_on: Vec<TaskId>,
}

/// The payload that carries a shell command: `{"command": command}`.
pub open spec fn command_object(command: Seq<char>) -> serde_json::Value {
    json_object(map!["command"@ => json_text(command)])
}

/// The text of a payload's `command` field: present when the payload is an
/// object whose `command` entry is a string.
pub open spec fn command_of(v: serde_json::Value) -> Option<Seq<char>> {
    json_str_field(v, "command"@)
}

/// Builds the payload `{"command": command}`; its `command` field reads
/// back as the command.
pub fn command_payload(command: &str) -> (r: serde_json::Value)
    ensures
        r == command_object(command@),
        command_of(r) == Some(command@),
{
    let mut m = json_map_new();
    let v = json_text_value(command);
    json_map_insert(&mut m, "command", v);
    proof {
        assert(json_fields(m) =~= map!["command"@ => json_text(command@)]);
    }
    json_object_value(m)
}

/// Reads the `command` field of a payload as text.
pub fn command_text(v: &serde_json::Value) -> (r: Option<String>)
    ensures
        match r {
            Some(s) => command_of(*v) == Some(s@),
            None => command_of(*v) is None,
        },
{
    json_get_text(v, "command")
}

/// Two to the power `n`.
pub open spec fn doubling(n: nat) -> nat
    decreases n,
{
    if n == 0 {
        1
    } else {
        2 * doubling((n - 1) as nat)
    }
}

proof fn lemma_doubling_mono(a: nat, b: nat)
    requires
        a <= b,
    ensures
        1 <= doubling(a) <= doubling(b),
    decreases b,
{
    if b > a {
        lemma_doubling_mono(a, (b - 1) as nat);
    } else if a > 0 {
        lemma_doubling_mono((a - 1) as nat, (a - 1) as nat);
    }
}

proof fn lemma_doubling_31()
    ensures
        doubling(31) == 2147483648,
{
    reveal_with_fuel(doubling, 32);
}

/// `2^n` for `n < 32`.
fn doubling_u32(n: u32) -> (r: u32)
    requires
        n < 32,
    ensures
        r == doubling(n as nat),
{
    let mut r: u32 = 1;
    let mut i: u32 = 0;
    while i < n
        invariant
            i <= n < 32,
            r == doubling(i as nat),
        decreases n - i,
    {
        proof {
            lemma_doubling_mono((i + 1) as nat, 31);
            lemma_doubling_31();
        }
        r = r * 2;
        i = i + 1;
    }
    r
}

/// The backoff before a task's next attempt, in nanoseconds: with a retry
/// policy, its base delay doubled once per retry so far and capped at its
/// maximum delay; without one, one second.
pub open spec fn retry_delay_nanos(t: Task) -> int {
    match t.retry_policy {
        None => 1_000_000_000,
        Some(p) => {
            let grown = nanos_of(p.base_delay) * doubling(t.retry_count as nat);
            if grown <= nanos_of(p.max_delay) {
                grown
            } else {
                nanos_of(p.max_delay) as int
            }
        },
    }
}

/// Whether the backoff can be computed: with a policy, the doubling factor
/// `2^retry_count` fits in a `u32` and the doubled base delay is a
/// `Duration`.
pub open spec fn retry_delay_defined(t: Task) -> bool {
    match t.retry_policy {
        None => true,
        Some(p) => t.retry_count < 32 && nanos_of(p.base_delay) * doubling(t.retry_count as nat) <= max_duration_nanos(),
    }
}

impl Task {
    /// A new pending task with a fresh identifier and no payload.
    pub fn new(name: String) -> (r: Self)
        ensures
            r.name@ == name@,
            r.state == TaskState::Pending,
            r.priority == Priority::Normal,
            r.description is None,
            r.timeout is None,
            r.retry_policy is None,
            r.started_at is None,
            r.completed_at is None,
            r.error is None,
            r.retry_count == 0,
            r.tags@.len() == 0,
            r.depends_on@.len() == 0,
            r.id.0@.len() == 36,
    {
        let now = now_utc();
        let now2 = now.clone();
        Task {
            id: TaskId::new(),
            name,
            description: None,
            state: TaskState::Pending,
            priority: Priority::Normal,
            timeout: None,
            retry_policy: None,
            created_at: now,
            updated_at: now2,
            started_at: None,
            completed_at: None,
            error: None,
            retry_count: 0,
            data: json_null(),
            tags: Vec::new(),
            depends_on: Vec::new(),
        }
    }

    /// Adds a description.
    pub fn with_description(self, desc: String) -> (r: Self)
        ensures
            r.description == Some(desc),
            r.name == self.name,
            r.state == self.state,
            r.tags == self.tags,
            r.retry_count == self.retry_count,
    {
        let mut t = self;
        t.description = Some(desc);
        t
    }

    /// Sets the priority.
    pub fn with_priority(self, priority: Priority) -> (r: Self)
        ensures
            r.priority == priority,
            r.name == self.name,
            r.state == self.state,
            r.tags == self.tags,
    {
        let mut t = self;
        t.priority = priority;
        t
    }

    /// Sets the timeout.
    pub fn with_timeout(self, timeout: std::time::Duration) -> (r: Self)
        ensures
            r.timeout == Some(timeout),
            r.name == self.name,
            r.state == self.state,
    {
        let mut t = self;
        t.timeout = Some(timeout);
        t
    }

    /// Sets the retry policy.
    pub fn with_retry_policy(self, policy: RetryPolicy) -> (r: Self)
        ensures
            r.retry_policy == Some(policy),
            r.name == self.name,
            r.state == self.state,
            r.retry_count == self.retry_count,
    {
        let mut t = self;
        t.retry_policy = Some(policy);
        t
    }

    /// Adds a tag.
    pub fn with_tag(self, tag: String) -> (r: Self)
        ensures
            r.tags@ == self.tags@.push(tag),
            r.name == self.name,
            r.state == self.state,
    {
        let mut t = self;
        t.tags.push(tag);
        t
    }

    /// Sets the payload data.
    pub fn with_data(self, data: serde_json::Value) -> (r: Self)
        ensures
            r.data == data,
            r.name == self.name,
            r.state == self.state,
            r.tags == self.tags,
    {
        let mut t = self;
        t.data = data;
        t
    }

    /// Adds a dependency on the task with identifier `dep`.
    pub fn with_dependency(self, dep: TaskId) -> (r: Self)
        ensures
            r.depends_on@ == self.depends_on@.push(dep),
            r.id == self.id,
            r.name == self.name,
            r.state == self.state,
            r.tags == self.tags,
            r.data == self.data,
    {
        let mut t = self;
        t.depends_on.push(dep);
        t
    }

    /// A field-for-field copy.
    pub fn duplicate(&self) -> (r: Self)
        ensures
            same_task(r, *self),
    {
        let mut deps: Vec<TaskId> = Vec::new();
        let mut i: usize = 0;
        while i < self.depends_on.len()
            invariant
                i <= self.depends_on@.len(),
                deps@ == self.depends_on@.subrange(0, i as int),
            decreases self.depends_on.len() - i,
        {
            deps.push(TaskId(self.depends_on[i].0.clone()));
            proof {
                assert(deps@ =~= self.depends_on@.subrange(0, i + 1));
            }
            i = i + 1;
        }
        proof {
            assert(deps@ =~= self.depends_on@);
        }
        Task {
            id: TaskId(self.id.0.clone()),
            name: self.name.clone(),
            description: copy_text(&self.description),
            state: self.state,
            priority: self.priority,
            timeout: self.timeout,
            retry_policy: self.retry_policy,
            created_at: self.created_at.clone(),
            updated_at: self.updated_at.clone(),
            started_at: copy_text(&self.started_at),
            completed_at: copy_text(&self.completed_at),
            error: copy_text(&self.error),
            retry_count: self.retry_count,
            data: self.data.clone(),
            tags: crate::text::clone_strings(&self.tags),
            depends_on: deps,
        }
    }

    /// Sets a shell command as the task payload (`{"command": command}`).
    pub fn with_command(self, command: String) -> (r: Self)
        ensures
            r.data == command_object(command@),
            r.name == self.name,
            r.state == self.state,
            r.tags == self.tags,
    {
        let mut t = self;
        t.data = command_payload(command.as_str());
        t
    }

    /// Whether the state machine allows moving from the current state to `new_state`.
    pub fn can_transition_to(&self, new_state: &TaskState) -> (r: bool)
        ensures
            r == transition_allowed(self.state, *new_state),
    {
        match (self.state, *new_state) {
            (TaskState::Pending, TaskState::Scheduled) => true,
            (TaskState::Pending, TaskState::Running) => true,
            (TaskState::Pending, TaskState::Cancelled) => true,
            (TaskState::Scheduled, TaskState::Running) => true,
            (TaskState::Scheduled, TaskState::Cancelled) => true,
            (TaskState::Running, TaskState::Completed) => true,
            (TaskState::Running, TaskState::Failed) => true,
            (TaskState::Running, TaskState::Retrying) => true,
            (TaskState::Running, TaskState::Cancelled) => true,
            (TaskState::Retrying, TaskState::Running) => true,
            (TaskState::Retrying, TaskState::Cancelled) => true,
            _ => false,
        }
    }

    /// Moves to `new_state` when the state machine allows it.
    ///
    /// On success the state is `new_state`, the start time is recorded on
    /// entering Running and the completion time on entering a terminal state,
    /// and a `StateChanged` event is returned. Otherwise the task is unchanged
    /// and `InvalidStateTransition` names both states.
    pub fn transition_to(&mut self, new_state: TaskState) -> (r: Result<TaskEvent, TaskError>)
        ensures
            transition_allowed(old(self).state, new_state) <==> r is Ok,
            match r {
                Ok(ev) => {
                    &&& final(self).state == new_state
                    &&& ev matches TaskEvent::StateChanged { task_id, from, to, .. }
                        && task_id.0@ == old(self).id.0@ && from == old(self).state && to == new_state
                    &&& (new_state == TaskState::Running ==> final(self).started_at is Some)
                    &&& (is_terminal(new_state) ==> final(self).completed_at is Some)
                    &&& (new_state != TaskState::Running ==> final(self).started_at == old(self).started_at)
                    &&& (!is_terminal(new_state) ==> final(self).completed_at == old(self).completed_at)
                    &&& *final(self) == (Task {
                        state: new_state,
                        updated_at: final(self).updated_at,
                        started_at: final(self).started_at,
                        completed_at: final(self).completed_at,
                        ..*old(self)
                    })
                },
                Err(e) => {
                    &&& *final(self) == *old(self)
                    &&& e == TaskError::InvalidStateTransition { from: old(self).state, to: new_state }
                },
            },
    {
        let old_state = self.state;
        if !self.can_transition_to(&new_state) {
            return Err(TaskError::InvalidStateTransition { from: old_state, to: new_state });
        }
        self.state = new_state;
        self.updated_at = now_utc();
        match new_state {
            TaskState::Running => {
                self.started_at = Some(now_utc());
            },
            TaskState::Completed | TaskState::Failed | TaskState::Cancelled => {
                self.completed_at = Some(now_utc());
            },
            _ => {},
        }
        Ok(TaskEvent::StateChanged {
            task_id: self.id.duplicate(),
            from: old_state,
            to: new_state,
            timestamp: now_utc(),
        })
    }

    /// Whether another retry is allowed: a policy is set and the retry count
    /// is below its maximum number of attempts.
    pub fn can_retry(&self) -> (r: bool)
        ensures
            r == (match self.retry_policy {
                Some(p) => self.retry_count < p.max_attempts,
                None => false,
            }),
    {
        match &self.retry_policy {
            Some(policy) => self.retry_count < policy.max_attempts,
            None => false,
        }
    }

    /// The delay before the next attempt: the policy's base delay doubled
    /// once per retry so far, capped at its maximum delay; one second
    /// without a policy.
    pub fn retry_delay(&self) -> (r: std::time::Duration)
        requires
            retry_delay_defined(*self),
        ensures
            nanos_of(r) == retry_delay_nanos(*self),
    {
        match &self.retry_policy {
            None => duration_from_secs(1),
            Some(policy) => {
                let base = duration_nanos(&policy.base_delay);
                let factor = doubling_u32(self.retry_count);
                proof {
                    lemma_doubling_mono(self.retry_count as nat, 31);
                    lemma_doubling_31();
                    assert(base * factor <= max_duration_nanos() * 2147483648) by (nonlinear_arith)
                        requires
                            base <= max_duration_nanos(),
                            factor <= 2147483648,
                            0 <= base,
                            0 <= factor,
                    ;
                }
                let grown: u128 = base * (factor as u128);
                let cap = duration_nanos(&policy.max_delay);
                let n: u128 = if grown <= cap { grown } else { cap };
                proof {
                    assert(n / 1_000_000_000 <= 18_446_744_073_709_551_615) by (nonlinear_arith)
                        requires
                            n <= max_duration_nanos(),
                    ;
                    assert(n == (n / 1_000_000_000) * 1_000_000_000 + n % 1_000_000_000) by (nonlinear_arith);
                }
                duration_new((n / 1_000_000_000) as u64, (n % 1_000_000_000) as u32)
            },
        }
    }

    /// The delay before the next attempt, or `None` where computing it
    /// would overflow (`retry_count` of 32 or more, or a doubled base delay
    /// beyond the longest `Duration`).
    pub fn checked_retry_delay(&self) -> (r: Option<std::time::Duration>)
        ensures
            r is Some <==> retry_delay_defined(*self),
            r matches Some(d) ==> nanos_of(d) == retry_delay_nanos(*self),
    {
        match &self.retry_policy {
            None => Some(self.retry_delay()),
            Some(policy) => {
                if self.retry_count >= 32 {
                    return None;
                }
                let base = duration_nanos(&policy.base_delay);
                let factor = doubling_u32(self.retry_count);
                proof {
                    lemma_doubling_mono(self.retry_count as nat, 31);
                    lemma_doubling_31();
                    assert(base * factor <= max_duration_nanos() * 2147483648) by (nonlinear_arith)
                        requires
                            base <= max_duration_nanos(),
                            factor <= 2147483648,
                            0 <= base,
                            0 <= factor,
                    ;
                }
                let grown: u128 = base * (factor as u128);
                if grown > 18_446_744_073_709_551_615_999_999_999u128 {
                    return None;
                }
                Some(self.retry_delay())
            },
        }
    }
}

impl Task {
    /// Puts a failed task back in line for another attempt: a task that is
    /// not `Failed` is refused with `InvalidStateTransition` (to `Pending`),
    /// one whose policy allows no more attempts with `RetryLimitExceeded`;
    /// otherwise the retry count goes up by one, the task is `Pending` again,
    /// its error is cleared and its update time is the current time; every
    /// other field is kept.
    pub fn begin_retry(&mut self) -> (r: Result<(), TaskError>)
        ensures
            old(self).state != TaskState::Failed ==> r == Err::<(), TaskError>(
                TaskError::InvalidStateTransition { from: old(self).state, to: TaskState::Pending })
                && *final(self) == *old(self),
            old(self).state == TaskState::Failed && !(match old(self).retry_policy {
                Some(p) => old(self).retry_count < p.max_attempts,
                None => false,
            }) ==> r == Err::<(), TaskError>(TaskError::RetryLimitExceeded(old(self).retry_count))
                && *final(self) == *old(self),
            r is Ok ==> *final(self) == (Task {
                retry_count: (old(self).retry_count + 1) as u32,
                state: TaskState::Pending,
                error: None,
                updated_at: final(self).updated_at,
                ..*old(self)
            }),
            (old(self).state == TaskState::Failed && match old(self).retry_policy {
                Some(p) => old(self).retry_count < p.max_attempts,
                None => false,
            }) ==> r is Ok,
    {
        if self.state != TaskState::Failed {
            return Err(TaskError::InvalidStateTransition { from: self.state, to: TaskState::Pending });
        }
        if !self.can_retry() {
            return Err(TaskError::RetryLimitExceeded(self.retry_count));
        }
        self.retry_count = self.retry_count + 1;
        self.state = TaskState::Pending;
        self.error = None;
        self.updated_at = now_utc();
        Ok(())
    }
}

/// Task result type.
#[derive(Debug, Clone)]
pub struct TaskResult {
    pub task_id: TaskId,
    pub success: bool,
    pub output: Option<serde_json::Value>,
    pub error: Option<String>,
    pub duration: std::time::Duration,
    pub timestamp: String,
}

/// Two results agree in every field, text by contents.
pub open spec fn same_result(a: TaskResult, b: TaskResult) -> bool {
    &&& a.task_id.0@ == b.task_id.0@
    &&& a.success == b.success
    &&& a.output == b.output
    &&& match (a.error, b.error) {
        (Some(x), Some(y)) => x@ == y@,
        (None, None) => true,
        _ => false,
    }
    &&& a.duration == b.duration
    &&& a.timestamp@ == b.timestamp@
}

impl TaskResult {
    /// A copy of this result.
    pub fn duplicate(&self) -> (r: Self)
        ensures
            same_result(r, *self),
    {
        let output = match &self.output {
            Some(v) => Some(v.clone()),
            None => None,
        };
        let error = match &self.error {
            Some(e) => Some(e.clone()),
            None => None,
        };
        TaskResult {
            task_id: self.task_id.duplicate(),
            success: self.success,
            output,
            error,
            duration: self.duration.clone(),
            timestamp: self.timestamp.clone(),
        }
    }
}

impl Task {
    /// A successful result of the task.
    pub fn success_result(&self, output: serde_json::Value, duration: std::time::Duration) -> (r: TaskResult)
        ensures
            r.task_id.0@ == self.id.0@,
            r.success,
            r.output == Some(output),
            r.error is None,
            r.duration == duration,
    {
        TaskResult {
            task_id: self.id.duplicate(),
            success: true,
            output: Some(output),
            error: None,
            duration,
            timestamp: now_utc(),
        }
    }

    /// A failed result of the task carrying `error`.
    pub fn failure_result(&self, error: String, duration: std::time::Duration) -> (r: TaskResult)
        ensures
            r.task_id.0@ == self.id.0@,
            !r.success,
            r.output is None,
            r.error == Some(error),
            r.duration == duration,
    {
        TaskResult {
            task_id: self.id.duplicate(),
            success: false,
            output: None,
            error: Some(error),
            duration,
            timestamp: now_utc(),
        }
    }
}

/// Terminal states admit no transition at all.
pub proof fn lemma_terminal_states_are_final(from: TaskState, to: TaskState)
    requires
        is_terminal(from),
    ensures
        !transition_allowed(from, to),
{
}

/// With a retry policy, the backoff before the next attempt never exceeds the
/// policy's maximum delay, and it never shrinks as retries accumulate.
pub proof fn lemma_retry_delay_capped_and_non_decreasing(a: Task, b: Task)
    requires
        a.retry_policy is Some,
        b.retry_policy == a.retry_policy,
        a.retry_count <= b.retry_count,
    ensures
        retry_delay_nanos(a) <= nanos_of(a.retry_policy.unwrap().max_delay),
        retry_delay_nanos(a) <= retry_delay_nanos(b),
{
    let p = a.retry_policy.unwrap();
    let base: int = nanos_of(p.base_delay) as int;
    let da: int = doubling(a.retry_count as nat) as int;
    let db: int = doubling(b.retry_count as nat) as int;
    lemma_doubling_mono(a.retry_count as nat, b.retry_count as nat);
    assert(base * da <= base * db) by (nonlinear_arith)
        requires
            0 <= base,
            da <= db,
    ;
}

/// No transition ever leads back to Pending.
pub proof fn lemma_pending_is_never_reentered(from: TaskState)
    ensures
        !transition_allowed(from, TaskState::Pending),
{
}


/// Every state that is not terminal can be started and can be cancelled:
/// a pending, scheduled or retrying task may move to Running, and any task
/// that has not finished may be cancelled.
pub proof fn lemma_unfinished_tasks_can_start_and_be_cancelled(s: TaskState)
    requires
        !is_terminal(s),
    ensures
        s != TaskState::Running ==> transition_allowed(s, TaskState::Running),
        transition_allowed(s, TaskState::Cancelled),
{
}

/// A task moves to Running exactly from Pending, Scheduled or Retrying.
pub proof fn lemma_who_may_start(s: TaskState)
    ensures
        transition_allowed(s, TaskState::Running) <==> (s == TaskState::Pending
            || s == TaskState::Scheduled || s == TaskState::Retrying),
{
}

/// Only a pending task may be scheduled.
pub proof fn lemma_only_pending_is_scheduled(s: TaskState)
    ensures
        transition_allowed(s, TaskState::Scheduled) <==> s == TaskState::Pending,
{
}

/// Only a running task may complete, fail or go into retry, and a running
/// task may do each of these.
pub proof fn lemma_only_running_tasks_finish_or_retry(s: TaskState, to: TaskState)
    requires
        to == TaskState::Completed || to == TaskState::Failed || to == TaskState::Retrying,
    ensures
        transition_allowed(s, to) <==> s == TaskState::Running,
{
}

/// A task may be cancelled exactly when it has not finished.
pub proof fn lemma_cancellable_iff_unfinished(s: TaskState)
    ensures
        transition_allowed(s, TaskState::Cancelled) <==> !is_terminal(s),
{
}

/// No state moves to itself.
pub proof fn lemma_no_self_transition(s: TaskState)
    ensures
        !transition_allowed(s, s),
{
}


/// The backoff schedule: without a policy a retry waits one second; with
/// one, the first retry waits the base delay (capped at the maximum), and
/// each further retry waits twice as long as the one before until the
/// maximum is reached, after which it waits the maximum.
pub proof fn lemma_retry_delay_doubles_up_to_the_cap(a: Task, b: Task)
    requires
        b.retry_policy == a.retry_policy,
        b.retry_count == a.retry_count + 1,
    ensures
        a.retry_policy is None ==> retry_delay_nanos(a) == 1_000_000_000,
        a.retry_policy is Some && a.retry_count == 0 ==> retry_delay_nanos(a) == (if nanos_of(
            a.retry_policy->0.base_delay,
        ) <= nanos_of(a.retry_policy->0.max_delay) {
            nanos_of(a.retry_policy->0.base_delay) as int
        } else {
            nanos_of(a.retry_policy->0.max_delay) as int
        }),
        a.retry_policy is Some ==> retry_delay_nanos(b) == (if 2 * retry_delay_nanos(a)
            <= nanos_of(a.retry_policy->0.max_delay) {
            2 * retry_delay_nanos(a)
        } else {
            nanos_of(a.retry_policy->0.max_delay) as int
        }),
{
    if a.retry_policy is Some {
        let p = a.retry_policy.unwrap();
        let base: int = nanos_of(p.base_delay) as int;
        let max: int = nanos_of(p.max_delay) as int;
        let da: int = doubling(a.retry_count as nat) as int;
        assert(doubling(b.retry_count as nat) == 2 * doubling(a.retry_count as nat));
        lemma_doubling_mono(a.retry_count as nat, a.retry_count as nat);
        assert(base * (2 * da) == 2 * (base * da)) by (nonlinear_arith);
        assert(base * da <= base * (2 * da)) by (nonlinear_arith)
            requires
                0 <= base,
                1 <= da,
        ;
        if a.retry_count == 0 {
            assert(doubling(0) == 1);
            assert(base * 1 == base);
        }
    }
}

} // verus!
