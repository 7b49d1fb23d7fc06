//! Task execution framework: tasks and their state machine, workflows with
//! dependency DAGs, recipes with variable interpolation, cron expressions,
//! command-line argument forwarding and dependency-graph rendering.

use vstd::prelude::*;

pub mod adapters;
pub mod application;
pub mod config;
pub mod cron_parser;
pub mod cron_parser_spike;
pub mod domain;
pub mod external;
pub mod infrastructure;
pub mod text;
pub mod wasm_sqlite_spike;

pub use config::TaskenConfig;
pub use domain::errors::TaskError;
pub use domain::groups::{Group, GroupId};
pub use domain::recipes::{interpolate, interpolate_strict, predefined_vars, Settings, VarDefinition, VarType, Vars};
pub use domain::runners::{AsyncRunner, SyncRunner};
pub use domain::scheduler::Schedule;
pub use domain::tasks::{Priority, RetryPolicy, Task, TaskId, TaskResult, TaskState};
pub use domain::workflows::Workflow;

verus! {

/// The library's version.
pub const VERSION: &'static str = "0.1.0";

} // verus!
