//! Recording a commit.
use vstd::prelude::*;

use crate::commands::{FsAction, FsStep, Repository, steps_of};
use crate::paths::{join, join_path, strip_base, strip_base_path};
use crate::text::{decimal, decimal_chars, push_chars, push_str, string_of};

verus! {

/// Helpers for recording commits.
pub struct Utils;

/// The log line of a commit in the plain format: child, parent, timestamp,
/// message and the word `commit`, separated by tabs, ended by a line break.
pub open spec fn plain_commit_line(
    child: Seq<char>,
    parent: Seq<char>,
    timestamp: u64,
    message: Seq<char>,
) -> Seq<char> {
    child + seq!['\t'] + parent + seq!['\t'] + decimal(timestamp as nat) + seq!['\t'] + message
        + seq!['\t', 'c', 'o', 'm', 'm', 'i', 't', '\n']
}

/// The branch's path relative to the repository directory, or
/// `refs/heads/` when the current branch does not lie under it.
pub open spec fn branch_below_gitdir(current_branch: Seq<char>, gitdir: Seq<char>) -> Seq<char> {
    match strip_base(current_branch, gitdir) {
        Some(b) => b,
        None => "refs/heads/"@,
    }
}

/// The changes that record a commit: its line is added to the main log and
/// to the branch's log, and the branch file is made to hold the child.
pub open spec fn write_commit_steps(
    child: Seq<char>,
    parent: Seq<char>,
    timestamp: u64,
    message: Seq<char>,
    log_head: Seq<char>,
    logs: Seq<char>,
    gitdir: Seq<char>,
    current_branch: Seq<char>,
) -> Seq<FsStep> {
    let line = plain_commit_line(child, parent, timestamp, message);
    seq![
        FsStep::AppendFile(log_head, line),
        FsStep::AppendFile(join(logs, branch_below_gitdir(current_branch, gitdir)), line),
        FsStep::WriteFile(current_branch, child),
    ]
}

impl Utils {
    /// The changes that record a commit of `child` on top of `parent`.
    pub fn write_commit(
        child: String,
        parent: String,
        timestamp: u64,
        message: String,
        repo: &Repository,
    ) -> (res: Vec<FsAction>)
        ensures
            steps_of(res@) == write_commit_steps(
                child@,
                parent@,
                timestamp,
                message@,
                repo.log_head@,
                repo.logs@,
                repo.gitdir@,
                repo.current_branch@,
            ),
    {
        let branch = match strip_base_path(repo.current_branch.as_str(), repo.gitdir.as_str()) {
            Some(b) => b,
            None => "refs/heads/".to_owned(),
        };
        let mut line: Vec<char> = Vec::new();
        push_str(&mut line, child.as_str());
        line.push('\t');
        push_str(&mut line, parent.as_str());
        line.push('\t');
        let ts = decimal_chars(timestamp);
        push_chars(&mut line, &ts);
        line.push('\t');
        push_str(&mut line, message.as_str());
        line.push('\t');
        line.push('c');
        line.push('o');
        line.push('m');
        line.push('m');
        line.push('i');
        line.push('t');
        line.push('\n');
        assert(line@ =~= plain_commit_line(child@, parent@, timestamp, message@));
        let content = string_of(&line);
        let content2 = string_of(&line);
        let branch_log = join_path(repo.logs.as_str(), branch.as_str());
        let mut res: Vec<FsAction> = Vec::new();
        res.push(FsAction::AppendFile(repo.log_head.clone(), content));
        res.push(FsAction::AppendFile(branch_log, content2));
        res.push(FsAction::WriteFile(repo.current_branch.clone(), child));
        assert(steps_of(res@) =~= write_commit_steps(
            child@,
            parent@,
            timestamp,
            message@,
            repo.log_head@,
            repo.logs@,
            repo.gitdir@,
            repo.current_branch@,
        ));
        res
    }
}

} // verus!
