//! Primary adapters: the command line and its colour handling.

pub mod cli;
pub mod color_choice;

pub use color_choice::ColorChoice;
