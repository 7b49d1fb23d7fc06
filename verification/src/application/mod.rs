//! Application layer: argument forwarding, graph rendering, recipe imports
//! and the command and query objects.

pub mod commands;
pub mod forwarded;
pub mod import;
pub mod queries;
pub mod runs;
pub mod visualize;
pub mod watcher;
