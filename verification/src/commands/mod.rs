//! Repository operations.
//!
//! Reading and writing the file system is left to the caller: an operation
//! takes what it needs to know of the file system as plain values (whether
//! a path exists, what a file holds) and answers with its result and the
//! [`FsAction`]s to carry out, in order, stopping at the first that fails.
use vstd::prelude::*;

pub mod config;
pub mod constants;
pub mod fs_model;
pub mod fs_ops;
pub mod functions;
pub mod init;
pub mod log_ops;
pub mod ref_ops;

use config::Config;

verus! {

/// The paths of a repository and the state it is working in.
#[derive(Debug)]
pub struct Repository {
    /// The repository directory, `.rgit` under the working directory.
    pub gitdir: String,
    /// The directory of snapshots.
    pub objects: String,
    /// The file naming the current branch.
    pub head_file: String,
    /// The log of every commit.
    pub log_head: String,
    /// The directory of logs.
    pub logs: String,
    /// The directory of branches.
    pub branches: String,
    /// The directory of tags.
    pub tags: String,
    /// The file of the branch in use.
    pub current_branch: String,
    /// The user's identity.
    pub config: Config,
}

/// Which parts of a repository's layout exist.
#[derive(Debug, Clone, Copy)]
pub struct LayoutStatus {
    pub gitdir: bool,
    pub objects: bool,
    pub head_file: bool,
    pub log_head: bool,
    pub branches: bool,
}

/// A change to the file system.
#[derive(Debug)]
pub enum FsAction {
    /// Create a directory; it is an error if it exists.
    CreateDir(String),
    /// Create a directory unless the path exists.
    CreateDirIfMissing(String),
    /// Create a directory and its missing parents unless the path exists.
    CreateDirAllIfMissing(String),
    /// Create a directory and its missing parents.
    CreateDirAll(String),
    /// Create or truncate a file and write the text into it.
    WriteFile(String, String),
    /// Create a file if needed and add the text at its end.
    AppendFile(String, String),
    /// Copy a directory tree into another directory, creating both.
    CopyDir(String, String),
}

/// The model of a file-system change.
pub enum FsStep {
    CreateDir(Seq<char>),
    CreateDirIfMissing(Seq<char>),
    CreateDirAllIfMissing(Seq<char>),
    CreateDirAll(Seq<char>),
    WriteFile(Seq<char>, Seq<char>),
    AppendFile(Seq<char>, Seq<char>),
    CopyDir(Seq<char>, Seq<char>),
}

impl View for FsAction {
    type V = FsStep;

    open spec fn view(&self) -> FsStep {
        match self {
            FsAction::CreateDir(p) => FsStep::CreateDir(p@),
            FsAction::CreateDirIfMissing(p) => FsStep::CreateDirIfMissing(p@),
            FsAction::CreateDirAllIfMissing(p) => FsStep::CreateDirAllIfMissing(p@),
            FsAction::CreateDirAll(p) => FsStep::CreateDirAll(p@),
            FsAction::WriteFile(p, t) => FsStep::WriteFile(p@, t@),
            FsAction::AppendFile(p, t) => FsStep::AppendFile(p@, t@),
            FsAction::CopyDir(a, b) => FsStep::CopyDir(a@, b@),
        }
    }
}

/// The models of a sequence of file-system changes.
pub open spec fn steps_of(v: Seq<FsAction>) -> Seq<FsStep> {
    v.map_values(|a: FsAction| a@)
}

/// Whether `res` is the error that the named part of the layout is missing.
pub open spec fn is_not_initialized<T>(res: Result<T, crate::errors::RgitError>, name: Seq<char>) -> bool {
    res matches Err(crate::errors::RgitError::NotInitialized(s)) && s@ == name
}

} // verus!
