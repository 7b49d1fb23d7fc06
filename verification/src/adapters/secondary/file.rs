//! File-based storage: where the store lives. Reading and writing it
//! happen outside the library.

use vstd::prelude::*;

verus! {

/// Storage kept as a JSON document in one file.
#[derive(Debug, Clone)]
pub struct FileStorage {
    path: String,
}

impl FileStorage {
    /// Storage in the file at `path`.
    pub fn new(path: &str) -> (r: Self)
        ensures
            r.path_view() == path@,
    {
        FileStorage { path: String::from_str(path) }
    }

    /// The file's path.
    pub closed spec fn path_view(self) -> Seq<char> {
        self.path@
    }

    /// The file's path.
    pub fn path(&self) -> (r: &str)
        ensures
            r@ == self.path_view(),
    {
        self.path.as_str()
    }
}

} // verus!
