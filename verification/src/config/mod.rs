//! Application configuration and the paths derived from it. Reading the
//! environment happens outside the library.

use vstd::prelude::*;

use crate::external::{duration_from_secs, join_path, joined_path, platform_data_dir, secs_duration};

verus! {

/// Consolidated application configuration.
#[derive(Debug, Clone)]
pub struct TaskenConfig {
    /// Base directory for persistent task data.
    pub data_dir: String,
    /// File name (relative to `data_dir`) of the store.
    pub store_file: String,
    /// Optional override for the cache directory.
    pub cache_dir: Option<String>,
    /// File name (relative to the cache directory) of the result cache.
    pub cache_file: String,
    /// Default time-to-live, in seconds, of cached results.
    pub cache_ttl_seconds: u64,
    /// Default maximum number of tasks returned by list queries.
    pub default_list_limit: usize,
}

impl Default for TaskenConfig {
    /// `taskkit` under the platform data directory (or under `.` where
    /// there is none), `store.json`, no cache override, `cache.json`, 300 s
    /// and 100.
    fn default() -> (r: Self)
        ensures
            exists|base: Seq<char>| r.data_dir@ == #[trigger] joined_path(base, "taskkit"@),
            r.store_file@ == "store.json"@,
            r.cache_dir is None,
            r.cache_file@ == "cache.json"@,
            r.cache_ttl_seconds == 300,
            r.default_list_limit == 100,
    {
        let base = match platform_data_dir() {
            Some(d) => d,
            None => String::from_str("."),
        };
        let data_dir = join_path(base.as_str(), "taskkit");
        TaskenConfig {
            data_dir,
            store_file: String::from_str("store.json"),
            cache_dir: None,
            cache_file: String::from_str("cache.json"),
            cache_ttl_seconds: 300,
            default_list_limit: 100,
        }
    }
}

impl TaskenConfig {
    /// The directory that holds the cache: the override, or the data
    /// directory.
    pub open spec fn cache_dir_of(self) -> Seq<char> {
        match self.cache_dir {
            Some(d) => d@,
            None => self.data_dir@,
        }
    }

    /// The store file's path: the store file joined onto the data
    /// directory.
    pub fn store_path(&self) -> (r: String)
        ensures
            r@ == joined_path(self.data_dir@, self.store_file@),
    {
        join_path(self.data_dir.as_str(), self.store_file.as_str())
    }

    /// The directory that holds the cache.
    pub fn resolved_cache_dir(&self) -> (r: String)
        ensures
            r@ == self.cache_dir_of(),
    {
        match &self.cache_dir {
            Some(d) => d.clone(),
            None => self.data_dir.clone(),
        }
    }

    /// The cache file's path: the cache file joined onto the cache
    /// directory.
    pub fn cache_path(&self) -> (r: String)
        ensures
            r@ == joined_path(self.cache_dir_of(), self.cache_file@),
    {
        let dir = self.resolved_cache_dir();
        join_path(dir.as_str(), self.cache_file.as_str())
    }

    /// The default time-to-live of cached results.
    pub fn cache_ttl(&self) -> (r: std::time::Duration)
        ensures
            r == secs_duration(self.cache_ttl_seconds),
    {
        duration_from_secs(self.cache_ttl_seconds)
    }
}

} // verus!
