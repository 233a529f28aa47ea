//! The early lockfile document model: workspace declarations keyed by
//! provider, and the versioned lockfile document with its entries. The
//! serialization of the document happens outside the library.

use vstd::prelude::*;

verus! {

/// A Gitlab source names either a user or a group.
pub enum GitlabIdentity {
    User { user: String },
    Group { group: String },
}

/// A Github source names either a user or an organisation.
pub enum GithubIdentity {
    User { user: String },
    Organization { org: String },
}

/// One declared workspace source, tagged by provider.
pub enum Workspace {
    Github { identity: GithubIdentity },
    Gitlab { url: String, identity: GitlabIdentity },
}

/// The Gitlab instance a workspace declaration points at when it names
/// none itself.
pub fn default_gitlab_url() -> (r: String)
    ensures
        r@ == "https://gitlab.com/"@,
{
    String::from_str("https://gitlab.com/")
}

/// The document header: the lockfile format version.
pub struct LockfileMetadata {
    pub version: i32,
}

/// One repository of the lockfile document.
pub struct LockFileEntry {
    pub path: String,
    pub clone_url: String,
    pub branch: String,
}

/// The lockfile document: a versioned header and the entries.
pub struct LockFile {
    pub metadata: LockfileMetadata,
    pub entries: Vec<LockFileEntry>,
}

/// Assembles the lockfile document around the given entries, at the
/// current format version.
pub fn write_lockfile(entries: Vec<LockFileEntry>) -> (r: LockFile)
    ensures
        r.metadata.version == 1,
        r.entries == entries,
{
    LockFile { metadata: LockfileMetadata { version: 1 }, entries }
}

} // verus!
