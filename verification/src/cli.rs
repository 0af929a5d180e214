//! The commands a user can give.
use vstd::prelude::*;

verus! {

/// A command of the command-line program.
#[derive(Debug)]
pub enum Commands {
    /// Create the repository.
    Init,
    /// Show the commit log.
    Log,
    /// Stage files.
    Add { files: Vec<String> },
    /// Commit the working directory with a message.
    Commit { message: String },
    /// Create a branch.
    Branch { name: String },
    /// Switch to a branch or tag.
    Checkout { name: String },
    /// Create a tag.
    Tag { name: String },
    /// Read or set a configuration value.
    Config { key: String, value: Option<String> },
}

} // verus!
