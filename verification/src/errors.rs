//! The errors of the library.
use vstd::prelude::*;

use crate::bindings::io_error_text;
use crate::text::{push_str, string_of};

verus! {

/// Everything that can go wrong in a repository operation.
#[derive(Debug)]
pub enum RgitError {
    /// An I/O error from the file system.
    Io(std::io::Error),
    /// A part of the repository layout is missing; the name says which.
    NotInitialized(String),
    /// The log file to read is missing.
    MessageFileNotFound,
    /// A branch of that name exists already.
    BranchAlreadyExists(String),
    /// No branch of that name exists.
    BranchNotFound(String),
    /// The commit a branch should point to does not exist.
    CommitNotFound,
    /// The name is both a branch and a tag.
    AmbiguousReference(String),
    /// The name is neither a branch nor a tag.
    RefNotFound(String),
    /// No tag of that name exists.
    TagNotFound(String),
    /// The configuration file could not be read.
    ConfigError,
}

/// The text of every error but an I/O error.
pub open spec fn message_text(e: RgitError) -> Seq<char> {
    match e {
        RgitError::Io(_) => "IO Error: "@,
        RgitError::NotInitialized(s) => "Fatal: Not a rgit repository("@ + s@ + " not found)\n"@,
        RgitError::MessageFileNotFound => "Fatal: Message file not found\n"@,
        RgitError::BranchAlreadyExists(s) => "Fatal: "@ + s@ + " branch already exists\n"@,
        RgitError::BranchNotFound(s) => "Fatal: branch "@ + s@ + " doesn't exists\n"@,
        RgitError::CommitNotFound => "Fatal: branch commit doesn't exists\n"@,
        RgitError::AmbiguousReference(s) => "Fatal: "@ + s@ + " is both a branch and a tag\n"@,
        RgitError::RefNotFound(s) => "Fatal: reference "@ + s@ + " not found\n"@,
        RgitError::TagNotFound(s) => "Fatal: tag "@ + s@ + " doesn't exists\n"@,
        RgitError::ConfigError => "Fatal: could not read the configuration\n"@,
    }
}

impl RgitError {
    /// The text shown for the error, one line with its line break. For an
    /// I/O error it is `IO Error: `, the system's description and a line
    /// break.
    pub fn message(&self) -> (res: String)
        ensures
            self is Io ==> res@.len() >= 11 && res@.take(10) == message_text(*self)
                && res@.last() == '\n',
            !(self is Io) ==> res@ == message_text(*self),
    {
        let mut out: Vec<char> = Vec::new();
        match self {
            RgitError::Io(e) => {
                push_str(&mut out, "IO Error: ");
                let detail = io_error_text(e);
                push_str(&mut out, detail.as_str());
                out.push('\n');
                proof {
                    reveal_strlit("IO Error: ");
                }
                assert(out@.take(10) =~= "IO Error: "@);
            },
            RgitError::NotInitialized(s) => {
                push_str(&mut out, "Fatal: Not a rgit repository(");
                push_str(&mut out, s.as_str());
                push_str(&mut out, " not found)\n");
            },
            RgitError::MessageFileNotFound => {
                push_str(&mut out, "Fatal: Message file not found\n");
            },
            RgitError::BranchAlreadyExists(s) => {
                push_str(&mut out, "Fatal: ");
                push_str(&mut out, s.as_str());
                push_str(&mut out, " branch already exists\n");
            },
            RgitError::BranchNotFound(s) => {
                push_str(&mut out, "Fatal: branch ");
                push_str(&mut out, s.as_str());
                push_str(&mut out, " doesn't exists\n");
            },
            RgitError::CommitNotFound => {
                push_str(&mut out, "Fatal: branch commit doesn't exists\n");
            },
            RgitError::AmbiguousReference(s) => {
                push_str(&mut out, "Fatal: ");
                push_str(&mut out, s.as_str());
                push_str(&mut out, " is both a branch and a tag\n");
            },
            RgitError::RefNotFound(s) => {
                push_str(&mut out, "Fatal: reference ");
                push_str(&mut out, s.as_str());
                push_str(&mut out, " not found\n");
            },
            RgitError::TagNotFound(s) => {
                push_str(&mut out, "Fatal: tag ");
                push_str(&mut out, s.as_str());
                push_str(&mut out, " doesn't exists\n");
            },
            RgitError::ConfigError => {
                push_str(&mut out, "Fatal: could not read the configuration\n");
            },
        }
        string_of(&out)
    }
}

impl From<std::io::Error> for RgitError {
    fn from(err: std::io::Error) -> (res: Self) {
        RgitError::Io(err)
    }
}

impl vstd::std_specs::convert::FromSpecImpl<std::io::Error> for RgitError {
    open spec fn obeys_from_spec() -> bool {
        true
    }

    open spec fn from_spec(err: std::io::Error) -> RgitError {
        RgitError::Io(err)
    }
}

} // verus!
