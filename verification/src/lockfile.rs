//! The lockfile: the persisted canonical snapshot of the repositories that
//! should exist. Reading and writing the file itself happens outside the
//! library; the library fixes the location and the canonical order.

use vstd::prelude::*;

verus! {

/// Handle on the lockfile: the path of the file that holds the snapshot.
pub struct Lockfile {
    pub path: String,
}

impl Lockfile {
    /// A handle on the lockfile stored at `path`.
    pub fn new(path: String) -> (r: Lockfile)
        ensures
            r.path@ == path@,
    {
        Lockfile { path }
    }
}

/// The file name of the lockfile inside the workspace.
pub fn lockfile_name() -> (r: &'static str)
    ensures
        r@ == "workspace-lock.toml"@,
{
    "workspace-lock.toml"
}

} // verus!
