//! Adapters between the outside world and the library.

pub mod plugins;
pub mod primary;
pub mod secondary;
