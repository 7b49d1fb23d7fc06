//! Secondary adapters: storage.

pub mod file;
