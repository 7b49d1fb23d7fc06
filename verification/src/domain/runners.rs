//! The task runners. Running a task sleeps, spawns processes or awaits, so
//! the runners' work happens outside the library; here are the runners
//! themselves.

use vstd::prelude::*;

use crate::domain::errors::TaskError;
use crate::domain::tasks::{command_of, command_text, Task};

verus! {

/// Runs a task on the calling thread.
#[derive(Debug, Default)]
pub struct SyncRunner;

impl SyncRunner {
    /// A runner.
    pub fn new() -> (r: Self) {
        SyncRunner
    }
}

/// Runs a task asynchronously.
#[derive(Debug, Default)]
pub struct AsyncRunner;

impl AsyncRunner {
    /// A runner.
    pub fn new() -> (r: Self) {
        AsyncRunner
    }
}

/// Runs a task's shell command.
#[derive(Debug, Default)]
pub struct ShellRunner;

impl ShellRunner {
    /// A runner.
    pub fn new() -> (r: Self) {
        ShellRunner
    }

    /// The shell command of a task: the text of its payload's `command`
    /// field, or `InvalidOperation("No command in task.data['command']")`
    /// when there is none.
    pub fn extract_command(task: &Task) -> (r: Result<String, TaskError>)
        ensures
            match command_of(task.data) {
                Some(c) => r matches Ok(s) && s@ == c,
                None => r matches Err(TaskError::InvalidOperation(m)) && m@ == "No command in task.data['command']"@,
            },
    {
        match command_text(&task.data) {
            Some(c) => Ok(c),
            None => Err(TaskError::InvalidOperation(String::from_str("No command in task.data['command']"))),
        }
    }
}

} // verus!
