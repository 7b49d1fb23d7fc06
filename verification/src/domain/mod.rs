//! Domain layer: entities, value objects and the rules that govern them.

pub mod dag;
pub mod errors;
pub mod events;
pub mod groups;
pub mod plan;
pub mod plugins;
pub mod rate_limiter;
pub mod recipe;
pub mod recipes;
pub mod runners;
pub mod scheduler;
pub mod task_order;
pub mod tasks;
pub mod workflows;
