//! A directory of the local file system holding backup files.

use vstd::prelude::*;

verus! {

/// A directory in the local file system that holds backup files.
#[derive(Debug)]
pub struct LocalBackend {
    base_path: String,
}

impl LocalBackend {
    /// A backend for the given directory.
    pub fn new(path: &str) -> (r: Self)
        ensures
            r.base_path()@ == path@,
    {
        LocalBackend { base_path: path.to_owned() }
    }

    /// The directory.
    pub closed spec fn base_path(&self) -> String {
        self.base_path
    }

    /// The directory of the backup files.
    pub fn path(&self) -> (r: &str)
        ensures
            r@ == self.base_path()@,
    {
        self.base_path.as_str()
    }
}

} // verus!
