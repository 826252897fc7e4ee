//! Filesystem actions a scan decides on; an outer driver performs them.

use vstd::prelude::*;

verus! {

/// One filesystem action to perform.
#[derive(Debug)]
pub enum FsAction {
    /// Copy a file.
    Copy { source: String, dest: String },
    /// Delete a directory, optionally tolerating a missing one, optionally
    /// recursively.
    DeleteDir { path: String, not_exists_ok: bool, recursive: bool },
    /// Create a directory, optionally tolerating an existing one.
    CreateDir { path: String, exists_ok: bool },
    /// Create a file if it does not exist, overwrite it if it does.
    WriteFile { path: String, content: String },
}

} // verus!
