//! Infrastructure: the result cache's bookkeeping.

pub mod cache;
