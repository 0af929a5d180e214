//! Creating and checking a repository's layout.
use vstd::prelude::*;

use crate::commands::constants::DEFAULT_BRANCH;
use crate::commands::{is_not_initialized, steps_of, FsAction, FsStep, LayoutStatus, Repository};
use crate::errors::RgitError;
use crate::paths::{join, join_path};

verus! {

/// Repository initialization logic.
pub struct InitOps;

/// The changes that lay a repository out: its directory, the objects,
/// branch and tag directories, the head naming the default branch, the log
/// directories and an empty main log. Existing directories are kept.
pub open spec fn init_repo_steps(repo: Repository) -> Seq<FsStep> {
    seq![
        FsStep::CreateDirIfMissing(repo.gitdir@),
        FsStep::CreateDirIfMissing(repo.objects@),
        FsStep::CreateDirAllIfMissing(repo.branches@),
        FsStep::CreateDirAllIfMissing(repo.tags@),
        FsStep::WriteFile(repo.head_file@, join(repo.branches@, DEFAULT_BRANCH@)),
        FsStep::CreateDirAllIfMissing(repo.logs@),
        FsStep::CreateDirAllIfMissing(join(repo.logs@, "refs/heads"@)),
        FsStep::WriteFile(repo.log_head@, Seq::<char>::empty()),
    ]
}

/// The outcome of checking a layout: the first missing part, in the order
/// `.rgit`, `objects`, `HEAD`, `logs/HEAD`, `refs/heads`.
pub open spec fn structure_outcome(status: LayoutStatus, res: Result<(), RgitError>) -> bool {
    if !status.gitdir {
        is_not_initialized(res, ".rgit"@)
    } else if !status.objects {
        is_not_initialized(res, "objects"@)
    } else if !status.head_file {
        is_not_initialized(res, "HEAD"@)
    } else if !status.log_head {
        is_not_initialized(res, "logs/HEAD"@)
    } else if !status.branches {
        is_not_initialized(res, "refs/heads"@)
    } else {
        res is Ok
    }
}

impl InitOps {
    /// The changes that lay the repository out, in two parts: those up to
    /// writing the head, which names the default branch, and the rest. The
    /// repository is left as it is; once the first part is carried out,
    /// `select_default_branch` makes the default branch current, before the
    /// rest is carried out.
    pub fn init_repo(repo: &Repository) -> (res: (Vec<FsAction>, Vec<FsAction>))
        ensures
            steps_of(res.0@) == init_repo_steps(*repo).take(5),
            steps_of(res.1@) == init_repo_steps(*repo).skip(5),
    {
        let mut first: Vec<FsAction> = Vec::new();
        first.push(FsAction::CreateDirIfMissing(repo.gitdir.clone()));
        first.push(FsAction::CreateDirIfMissing(repo.objects.clone()));
        first.push(FsAction::CreateDirAllIfMissing(repo.branches.clone()));
        first.push(FsAction::CreateDirAllIfMissing(repo.tags.clone()));
        let default_branch_path = join_path(repo.branches.as_str(), DEFAULT_BRANCH);
        first.push(FsAction::WriteFile(repo.head_file.clone(), default_branch_path));
        let mut rest: Vec<FsAction> = Vec::new();
        rest.push(FsAction::CreateDirAllIfMissing(repo.logs.clone()));
        let logs_refs_heads = join_path(repo.logs.as_str(), "refs/heads");
        rest.push(FsAction::CreateDirAllIfMissing(logs_refs_heads));
        rest.push(FsAction::WriteFile(repo.log_head.clone(), String::new()));
        assert(steps_of(first@) =~= init_repo_steps(*repo).take(5));
        assert(steps_of(rest@) =~= init_repo_steps(*repo).skip(5));
        (first, rest)
    }

    /// Makes the default branch, under the branch directory, current; the
    /// other fields stay.
    pub fn select_default_branch(repo: &mut Repository)
        ensures
            final(repo).current_branch@ == join(old(repo).branches@, DEFAULT_BRANCH@),
            final(repo).gitdir == old(repo).gitdir,
            final(repo).objects == old(repo).objects,
            final(repo).head_file == old(repo).head_file,
            final(repo).log_head == old(repo).log_head,
            final(repo).logs == old(repo).logs,
            final(repo).branches == old(repo).branches,
            final(repo).tags == old(repo).tags,
            final(repo).config == old(repo).config,
    {
        repo.current_branch = join_path(repo.branches.as_str(), DEFAULT_BRANCH);
    }

    /// Checks that every part of the layout exists; the error names the
    /// first that is missing.
    pub fn validate_repo_structure(status: &LayoutStatus) -> (res: Result<(), RgitError>)
        ensures
            structure_outcome(*status, res),
    {
        if !status.gitdir {
            return Err(RgitError::NotInitialized(".rgit".to_owned()));
        }
        if !status.objects {
            return Err(RgitError::NotInitialized("objects".to_owned()));
        }
        if !status.head_file {
            return Err(RgitError::NotInitialized("HEAD".to_owned()));
        }
        if !status.log_head {
            return Err(RgitError::NotInitialized("logs/HEAD".to_owned()));
        }
        if !status.branches {
            return Err(RgitError::NotInitialized("refs/heads".to_owned()));
        }
        Ok(())
    }

    /// Whether a repository exists: its directory, objects and head do.
    pub fn repo_exists(status: &LayoutStatus) -> (res: bool)
        ensures
            res == (status.gitdir && status.objects && status.head_file),
    {
        status.gitdir && status.objects && status.head_file
    }
}

/// Laying a repository out creates every part that the full check looks
/// for: its directory, the objects and branch directories, the head and
/// the main log.
pub proof fn law_init_repo_makes_checked_layout(repo: Repository)
    ensures
        init_repo_steps(repo)[0] == FsStep::CreateDirIfMissing(repo.gitdir@),
        init_repo_steps(repo)[1] == FsStep::CreateDirIfMissing(repo.objects@),
        init_repo_steps(repo)[2] == FsStep::CreateDirAllIfMissing(repo.branches@),
        init_repo_steps(repo)[4] matches FsStep::WriteFile(p, _) && p == repo.head_file@,
        init_repo_steps(repo)[7] == FsStep::WriteFile(repo.log_head@, Seq::<char>::empty()),
{
}

/// A layout that passes the full check also counts as an existing
/// repository, and one that is not an existing repository fails the check.
pub proof fn law_valid_layout_exists(status: LayoutStatus, res: Result<(), RgitError>)
    requires
        structure_outcome(status, res),
    ensures
        res is Ok ==> (status.gitdir && status.objects && status.head_file),
        !(status.gitdir && status.objects && status.head_file) ==> res is Err,
{
}

} // verus!
