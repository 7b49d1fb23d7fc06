//! Running a task, decided step by step: whether a cached result stands
//! for the run, whether the task exists, what a dry run reports, and which
//! results are kept in the cache. Reading the cache and storage, running
//! the shell and printing happen around these decisions.

use vstd::prelude::*;

use crate::domain::errors::TaskError;
use crate::domain::tasks::{command_of, command_text, Task, TaskId, TaskResult};
use crate::external::{duration_from_secs, secs_duration};
use crate::text::{push_str, views};

verus! {

/// What a run of a task comes to.
#[derive(Debug)]
pub enum RunPlan {
    /// A cached result stands for the run.
    Cached(TaskResult),
    /// The task does not exist.
    Failed(TaskError),
    /// A dry run: report `lines` on standard error and give `result`; no
    /// command runs and nothing is stored or cached.
    DryRun { lines: Vec<String>, result: TaskResult },
    /// Run the task.
    Execute(Task),
}

/// The lines a dry run reports for task `id` with command `command`.
pub open spec fn dry_run_lines(id: Seq<char>, command: Seq<char>) -> Seq<Seq<char>> {
    seq!["[dry-run] would run task '"@ + id + "'"@, "[dry-run]   command: "@ + command]
}

/// The command text of a payload, empty when it has none.
pub open spec fn command_or_empty(v: serde_json::Value) -> Seq<char> {
    match command_of(v) {
        Some(c) => c,
        None => ""@,
    }
}

/// Decides a run of task `task_id`: unless it is a dry run, a cached
/// result (`cached`) stands for the run; otherwise a task that was not
/// found (`loaded` is `None`) is `NotFound`; a dry run reports the task and
/// its command and gives a successful result with no output, no error and
/// no duration, stamped `now`; anything else runs the task.
pub fn plan_run(task_id: &TaskId, dry_run: bool, cached: Option<TaskResult>, loaded: Option<Task>, now: String) -> (r: RunPlan)
    ensures
        !dry_run && cached is Some ==> r == RunPlan::Cached(cached->0),
        (dry_run || cached is None) && loaded is None ==> (r matches RunPlan::Failed(TaskError::NotFound(id))
            && id@ == task_id.0@),
        dry_run && loaded is Some ==> (r matches RunPlan::DryRun { lines, result } && {
            &&& views(lines@) == dry_run_lines(task_id.0@, command_or_empty(loaded->0.data))
            &&& result.task_id.0@ == task_id.0@
            &&& result.success
            &&& result.output is None
            &&& result.error is None
            &&& result.duration == secs_duration(0)
            &&& result.timestamp@ == now@
        }),
        !dry_run && cached is None && loaded is Some ==> r == RunPlan::Execute(loaded->0),
{
    if !dry_run {
        if let Some(c) = cached {
            return RunPlan::Cached(c);
        }
    }
    let task = match loaded {
        Some(t) => t,
        None => {
            return RunPlan::Failed(TaskError::NotFound(String::from_str(task_id.0.as_str())));
        },
    };
    if dry_run {
        let command = match command_text(&task.data) {
            Some(c) => c,
            None => String::new(),
        };
        let mut first = String::from_str("[dry-run] would run task '");
        push_str(&mut first, task_id.0.as_str());
        push_str(&mut first, "'");
        let mut second = String::from_str("[dry-run]   command: ");
        push_str(&mut second, command.as_str());
        let mut lines: Vec<String> = Vec::new();
        lines.push(first);
        lines.push(second);
        proof {
            reveal_strlit("");
            assert(command@ == command_or_empty(task.data));
            assert(first@ == "[dry-run] would run task '"@ + task_id.0@ + "'"@);
            assert(second@ == "[dry-run]   command: "@ + command_or_empty(task.data));
            assert(lines@[0] == first && lines@[1] == second);
            assert(views(lines@) =~= dry_run_lines(task_id.0@, command_or_empty(task.data)));
        }
        let result = TaskResult {
            task_id: TaskId(String::from_str(task_id.0.as_str())),
            success: true,
            output: None,
            error: None,
            duration: duration_from_secs(0),
            timestamp: now,
        };
        return RunPlan::DryRun { lines, result };
    }
    RunPlan::Execute(task)
}

/// Whether a run's result is kept in the cache: exactly when it succeeded.
pub fn should_cache(r: &TaskResult) -> (b: bool)
    ensures
        b == r.success,
{
    r.success
}

} // verus!
