//! The command line's model: the parsed arguments, and the reading of
//! priority and state names. Parsing the process arguments and running the
//! commands happen outside the library.

use vstd::prelude::*;

use crate::adapters::primary::color_choice::ColorChoice;
use crate::domain::tasks::{Priority, TaskState};
use crate::domain::events::state_name;
use crate::external::{ascii_lower, is_ascii_text, lowercase, to_lowercase};

verus! {

/// The parsed command-line arguments.
#[derive(Debug)]
pub struct Cli {
    /// Print what would be done without executing.
    pub dry_run: bool,
    /// Suppress output.
    pub silent: bool,
    /// Maximum number of tasks that can run concurrently.
    pub max_concurrency: u64,
    /// Rate limit for dispatch, e.g. `10/s`.
    pub rate_limit: Option<String>,
    /// Colour output mode.
    pub color: ColorChoice,
    /// The subcommand, if any.
    pub command: Option<Command>,
}

/// The commands.
#[derive(Debug)]
pub enum Command {
    /// Show the task summary.
    Default,
    /// Create a task.
    Create {
        name: String,
        description: Option<String>,
        priority: String,
        timeout: Option<u64>,
        tag: Vec<String>,
        command: Option<String>,
    },
    /// List tasks.
    List { state: Option<String>, tag: Option<String>, limit: usize },
    /// Get a task by id.
    Get { id: String },
    /// Cancel a task.
    Cancel { id: String, reason: Option<String> },
    /// Run a task, forwarding arguments to its command.
    Run { id: String, args: Vec<String> },
    /// Run a task with raw forwarded arguments.
    RunArgs { id: String, args: Vec<String> },
    /// Create a task from a raw command line.
    CreateRaw {
        name: String,
        description: Option<String>,
        priority: String,
        timeout: Option<u64>,
        tag: Vec<String>,
        command: Option<String>,
        args: Vec<String>,
    },
    /// Workflow commands.
    Workflow { command: WorkflowCommand },
    /// Group commands.
    Group { command: GroupCommand },
    /// Watch a path and re-run the default action on change.
    Watch { path: String, debounce_ms: u64 },
    /// Render a recipe's dependency graph.
    Graph { recipe_file: String, format: String },
    /// Run a local health check.
    Health,
    /// Readiness probe (same as `Health`).
    Ready,
}

/// Workflow subcommands.
#[derive(Debug, Clone)]
pub enum WorkflowCommand {
    Create { name: String },
    List,
    Get { id: String },
    AddStep { workflow_id: String, name: String, task_id: String, depends_on: Vec<String> },
    Run { id: String },
}

/// Group subcommands.
#[derive(Debug, Clone)]
pub enum GroupCommand {
    Create { name: String, description: Option<String> },
    List,
    Show { name: String },
    Run { name: String },
}

/// The priority a name stands for, ignoring case: `low`, `high` and
/// `critical`, and `Normal` for anything else.
pub open spec fn priority_named(l: Seq<char>) -> Priority {
    if l == "low"@ {
        Priority::Low
    } else if l == "high"@ {
        Priority::High
    } else if l == "critical"@ {
        Priority::Critical
    } else {
        Priority::Normal
    }
}

/// The state a lower-case name stands for.
pub open spec fn state_named(l: Seq<char>) -> Option<TaskState> {
    if l == "pending"@ {
        Some(TaskState::Pending)
    } else if l == "scheduled"@ {
        Some(TaskState::Scheduled)
    } else if l == "running"@ {
        Some(TaskState::Running)
    } else if l == "completed"@ {
        Some(TaskState::Completed)
    } else if l == "failed"@ {
        Some(TaskState::Failed)
    } else if l == "cancelled"@ {
        Some(TaskState::Cancelled)
    } else if l == "retrying"@ {
        Some(TaskState::Retrying)
    } else {
        None
    }
}

/// Every state's name reads back as that state, and so does any spelling
/// of it in ASCII capitals or small letters: an ASCII text that lowers to a
/// state's name names that state.
pub proof fn lemma_state_names_ignore_case(st: TaskState, t: Seq<char>)
    requires
        is_ascii_text(t),
        ascii_lower(t) == state_name(st),
    ensures
        state_named(state_name(st)) == Some(st),
        state_named(ascii_lower(t)) == Some(st),
{
    reveal_strlit("pending");
    reveal_strlit("scheduled");
    reveal_strlit("running");
    reveal_strlit("completed");
    reveal_strlit("failed");
    reveal_strlit("cancelled");
    reveal_strlit("retrying");
    let names = seq!["pending"@, "scheduled"@, "running"@, "completed"@, "failed"@, "cancelled"@, "retrying"@];
    assert(names[0][0] == 'p' && names[1][0] == 's' && names[2][0] == 'r' && names[3][0] == 'c');
    assert(names[4][0] == 'f' && names[5][0] == 'c' && names[6][0] == 'r');
    assert(names[3][1] == 'o' && names[5][1] == 'a');
    assert(names[2][1] == 'u' && names[6][1] == 'e');
    assert forall|a: int, b: int| 0 <= a < b < 7 implies names[a] != names[b] by {
        if (a == 3 && b == 5) {
            assert(names[3][1] != names[5][1]);
        } else if (a == 2 && b == 6) {
            assert(names[2][1] != names[6][1]);
        } else {
            assert(names[a][0] != names[b][0]);
        }
    }
    assert(names[0] == "pending"@ && names[1] == "scheduled"@ && names[2] == "running"@ && names[3] == "completed"@);
    assert(names[4] == "failed"@ && names[5] == "cancelled"@ && names[6] == "retrying"@);
}

impl Cli {
    /// The priority named by `s`, ignoring case; `Normal` when unknown.
    pub fn parse_priority(s: &str) -> (r: Priority)
        ensures
            r == priority_named(lowercase(s@)),
            is_ascii_text(s@) ==> r == priority_named(ascii_lower(s@)),
    {
        let l = to_lowercase(s);
        if l == String::from_str("low") {
            Priority::Low
        } else if l == String::from_str("high") {
            Priority::High
        } else if l == String::from_str("critical") {
            Priority::Critical
        } else {
            Priority::Normal
        }
    }

    /// The task state named by `s`, ignoring case.
    pub fn parse_state(s: &str) -> (r: Option<TaskState>)
        ensures
            r == state_named(lowercase(s@)),
            is_ascii_text(s@) ==> r == state_named(ascii_lower(s@)),
    {
        let l = to_lowercase(s);
        if l == String::from_str("pending") {
            Some(TaskState::Pending)
        } else if l == String::from_str("scheduled") {
            Some(TaskState::Scheduled)
        } else if l == String::from_str("running") {
            Some(TaskState::Running)
        } else if l == String::from_str("completed") {
            Some(TaskState::Completed)
        } else if l == String::from_str("failed") {
            Some(TaskState::Failed)
        } else if l == String::from_str("cancelled") {
            Some(TaskState::Cancelled)
        } else if l == String::from_str("retrying") {
            Some(TaskState::Retrying)
        } else {
            None
        }
    }
}

/// The command-line adapter; running commands happens outside the library.
pub struct CliAdapter;

} // verus!
