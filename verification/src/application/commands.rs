//! Task commands: the requests to create, cancel and retry tasks. Carrying
//! them out goes through the task service, outside the library.

use vstd::prelude::*;

use crate::domain::tasks::{command_object, command_payload, Priority, RetryPolicy, Task, TaskId, TaskState};
use crate::external::{duration_from_secs, json_null, secs_duration};
use crate::text::views;

verus! {

/// A request to create a task.
pub struct CreateTask {
    pub name: String,
    pub description: Option<String>,
    pub priority: Option<Priority>,
    pub timeout_seconds: Option<u64>,
    pub retry_policy: Option<RetryPolicy>,
    pub tags: Vec<String>,
    pub data: serde_json::Value,
    pub depends_on: Vec<TaskId>,
}

impl CreateTask {
    /// A request for a task named `name`, with nothing else set and a
    /// `null` payload.
    pub fn new(name: &str) -> (r: Self)
        ensures
            r.name@ == name@,
            r.description is None,
            r.priority is None,
            r.timeout_seconds is None,
            r.retry_policy is None,
            r.tags@.len() == 0,
            r.depends_on@.len() == 0,
    {
        CreateTask {
            name: String::from_str(name),
            description: None,
            priority: None,
            timeout_seconds: None,
            retry_policy: None,
            tags: Vec::new(),
            data: json_null(),
            depends_on: Vec::new(),
        }
    }

    /// Sets the description.
    pub fn with_description(self, desc: &str) -> (r: Self)
        ensures
            r.description matches Some(d) && d@ == desc@,
            r.name == self.name,
            r.priority == self.priority,
            r.timeout_seconds == self.timeout_seconds,
            r.tags == self.tags,
    {
        let mut s = self;
        s.description = Some(String::from_str(desc));
        s
    }

    /// Sets the priority.
    pub fn with_priority(self, priority: Priority) -> (r: Self)
        ensures
            r.priority == Some(priority),
            r.name == self.name,
            r.description == self.description,
            r.timeout_seconds == self.timeout_seconds,
            r.tags == self.tags,
    {
        let mut s = self;
        s.priority = Some(priority);
        s
    }

    /// Sets the timeout in seconds.
    pub fn with_timeout(self, seconds: u64) -> (r: Self)
        ensures
            r.timeout_seconds == Some(seconds),
            r.name == self.name,
            r.description == self.description,
            r.priority == self.priority,
            r.tags == self.tags,
    {
        let mut s = self;
        s.timeout_seconds = Some(seconds);
        s
    }

    /// Sets the retry policy.
    pub fn with_retry_policy(self, policy: RetryPolicy) -> (r: Self)
        ensures
            r.retry_policy == Some(policy),
            r.name == self.name,
            r.description == self.description,
            r.priority == self.priority,
            r.timeout_seconds == self.timeout_seconds,
            r.tags == self.tags,
    {
        let mut s = self;
        s.retry_policy = Some(policy);
        s
    }

    /// Adds a tag after the existing ones.
    pub fn with_tag(self, tag: &str) -> (r: Self)
        ensures
            views(r.tags@) == views(self.tags@).push(tag@),
            r.name == self.name,
            r.description == self.description,
            r.priority == self.priority,
            r.timeout_seconds == self.timeout_seconds,
    {
        let mut s = self;
        let ghost before = s.tags@;
        s.tags.push(String::from_str(tag));
        proof {
            assert(views(s.tags@) =~= views(before).push(tag@));
        }
        s
    }

    /// Sets the payload.
    pub fn with_data(self, data: serde_json::Value) -> (r: Self)
        ensures
            r.data == data,
            r.name == self.name,
            r.description == self.description,
            r.priority == self.priority,
            r.timeout_seconds == self.timeout_seconds,
            r.tags == self.tags,
    {
        let mut s = self;
        s.data = data;
        s
    }

    /// Sets a shell command as the payload (`{"command": command}`).
    pub fn with_command(self, command: &str) -> (r: Self)
        ensures
            r.data == command_object(command@),
            r.name == self.name,
            r.description == self.description,
            r.priority == self.priority,
            r.timeout_seconds == self.timeout_seconds,
            r.tags == self.tags,
            r.depends_on == self.depends_on,
    {
        let mut s = self;
        s.data = command_payload(command);
        s
    }

    /// Adds a dependency on the task with identifier `dep`.
    pub fn with_dependency(self, dep: TaskId) -> (r: Self)
        ensures
            r.depends_on@ == self.depends_on@.push(dep),
            r.name == self.name,
            r.description == self.description,
            r.priority == self.priority,
            r.timeout_seconds == self.timeout_seconds,
            r.tags == self.tags,
            r.data == self.data,
    {
        let mut s = self;
        s.depends_on.push(dep);
        s
    }

    /// The task this request creates: a new pending task (fresh
    /// identifier, no retries yet) with the request's name, description,
    /// priority (`Normal` when unset), timeout in seconds, retry policy,
    /// tags in order, payload and dependencies in order.
    pub fn into_task(self) -> (r: Task)
        ensures
            r.name@ == self.name@,
            r.description == self.description,
            r.priority == (match self.priority {
                Some(p) => p,
                None => Priority::Normal,
            }),
            r.timeout == (match self.timeout_seconds {
                Some(s) => Some(secs_duration(s)),
                None => None,
            }),
            r.retry_policy == self.retry_policy,
            r.tags == self.tags,
            r.data == self.data,
            r.depends_on == self.depends_on,
            r.state == TaskState::Pending,
            r.retry_count == 0,
            r.error is None,
            r.started_at is None,
            r.completed_at is None,
            r.id.0@.len() == 36,
    {
        let CreateTask { name, description, priority, timeout_seconds, retry_policy, tags, data, depends_on } = self;
        let mut task = Task::new(name);
        task.description = description;
        match priority {
            Some(p) => {
                task.priority = p;
            },
            None => {},
        }
        match timeout_seconds {
            Some(secs) => {
                task.timeout = Some(duration_from_secs(secs));
            },
            None => {},
        }
        task.retry_policy = retry_policy;
        task.tags = tags;
        task.data = data;
        task.depends_on = depends_on;
        task
    }
}

/// A request to cancel a task.
pub struct CancelTask {
    pub task_id: TaskId,
    pub reason: Option<String>,
}

impl CancelTask {
    /// A request to cancel `task_id`, without a reason.
    pub fn new(task_id: TaskId) -> (r: Self)
        ensures
            r.task_id == task_id,
            r.reason is None,
    {
        CancelTask { task_id, reason: None }
    }

    /// Sets the reason.
    pub fn with_reason(self, reason: &str) -> (r: Self)
        ensures
            r.task_id == self.task_id,
            r.reason matches Some(x) && x@ == reason@,
    {
        let mut s = self;
        s.reason = Some(String::from_str(reason));
        s
    }
}

/// A request to retry a failed task.
pub struct RetryTask {
    pub task_id: TaskId,
}

impl RetryTask {
    /// A request to retry `task_id`.
    pub fn new(task_id: TaskId) -> (r: Self)
        ensures
            r.task_id == task_id,
    {
        RetryTask { task_id }
    }
}

} // verus!
