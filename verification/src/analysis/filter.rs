//! Which files of a snapshot are left out of the primary symbol facts.
use vstd::prelude::*;

use crate::paths::{is_test_path, is_test_path_spec};

verus! {

/// The file filter of a production snapshot.
#[derive(Debug, Clone, Copy, PartialEq, Eq, Structural)]
pub struct FileFilter {
    pub exclude_tests: bool,
}

impl Default for FileFilter {
    /// Test files are skipped by default.
    fn default() -> (r: FileFilter)
        ensures
            r.exclude_tests,
    {
        FileFilter { exclude_tests: true }
    }
}

impl FileFilter {
    /// Whether a path is skipped.
    pub fn should_skip(&self, path: &str) -> (r: bool)
        ensures
            r == (self.exclude_tests && is_test_path_spec(path@)),
    {
        self.exclude_tests && is_test_path(path)
    }
}

} // verus!
