//! Branches, tags and the head.
//!
//! A file that may be read is passed as an `Option<Result<String, _>>`:
//! `None` when the path does not exist, otherwise what reading it gave.
use vstd::prelude::*;

use crate::commands::{is_not_initialized, steps_of, FsAction, FsStep, LayoutStatus, Repository};
use crate::errors::RgitError;
use crate::paths::{file_name, file_name_of, join, join_path, parent, parent_path};
use crate::text::{
    is_white_space, trim_end, trim_start,
    chars_of, push_str, repeat_char, repeat_chars, skip_chars, starts_with,
    string_of, trim, trim_chars,
};

verus! {

/// Reference and branch operations.
pub struct RefOps;

/// What a name given to checkout stands for.
#[derive(Debug)]
pub enum CheckoutTarget {
    Branch(String),
    Tag(String),
}

/// Whether `s` begins with `p`.
pub open spec fn has_prefix(s: Seq<char>, p: Seq<char>) -> bool {
    p.len() <= s.len() && s.take(p.len() as int) == p
}

/// The hash of a branch that has no commit yet: forty zeros.
pub open spec fn null_hash() -> Seq<char> {
    repeat_char('0', 40)
}

/// The current commit, given what the branch file holds (`None` when it
/// does not exist): the null hash for a missing or empty file, else the
/// file's text.
pub open spec fn current_hash(content: Option<Seq<char>>) -> Seq<char> {
    match content {
        None => null_hash(),
        Some(c) => if c.len() == 0 {
            null_hash()
        } else {
            c
        },
    }
}

/// The log file of a branch.
pub open spec fn branch_log_path(logs: Seq<char>, name: Seq<char>) -> Seq<char> {
    join(logs, "refs/heads/"@ + name)
}

/// The changes that create a branch pointing at `commit`: its directory
/// and file, then its (empty) log with the log's directory.
pub open spec fn create_branch_steps(repo: Repository, name: Seq<char>, commit: Seq<char>) -> Seq<
    FsStep,
> {
    let log = branch_log_path(repo.logs@, name);
    let start = seq![
        FsStep::CreateDirAllIfMissing(repo.branches@),
        FsStep::WriteFile(join(repo.branches@, name), commit),
    ];
    let with_dir = match parent(log) {
        Some(d) => start.push(FsStep::CreateDirAllIfMissing(d)),
        None => start,
    };
    with_dir.push(FsStep::WriteFile(log, Seq::<char>::empty()))
}

/// Whether `res` is the given error of the first kind with the given name.
pub open spec fn is_named_error<T>(res: Result<T, RgitError>, kind: nat, name: Seq<char>) -> bool {
    match res {
        Err(RgitError::BranchAlreadyExists(s)) => kind == 0 && s@ == name,
        Err(RgitError::BranchNotFound(s)) => kind == 1 && s@ == name,
        Err(RgitError::TagNotFound(s)) => kind == 2 && s@ == name,
        Err(RgitError::AmbiguousReference(s)) => kind == 3 && s@ == name,
        Err(RgitError::RefNotFound(s)) => kind == 4 && s@ == name,
        _ => false,
    }
}

/// The error kind of a branch that exists already.
pub open spec fn already_exists() -> nat {
    0
}

/// The error kind of a missing branch.
pub open spec fn branch_missing() -> nat {
    1
}

/// The error kind of a missing tag.
pub open spec fn tag_missing() -> nat {
    2
}

/// The error kind of a name that is a branch and a tag.
pub open spec fn ambiguous() -> nat {
    3
}

/// The error kind of a name that is neither.
pub open spec fn ref_missing() -> nat {
    4
}

/// The commit a branch file names: the file's text without surrounding
/// white space; a missing file is a missing branch, named by the path's
/// last component (empty when it has none).
pub open spec fn branch_commit_outcome(
    branch_path: Seq<char>,
    content: Option<Result<String, std::io::Error>>,
    res: Result<String, RgitError>,
) -> bool {
    match content {
        None => is_named_error(
            res,
            branch_missing(),
            match file_name(branch_path) {
                Some(n) => n,
                None => Seq::<char>::empty(),
            },
        ),
        Some(Err(e)) => res == Err::<String, RgitError>(RgitError::Io(e)),
        Some(Ok(c)) => res matches Ok(h) && h@ == trim(c@),
    }
}

impl RefOps {
    /// What a name given to checkout stands for: a name under `refs/heads/`
    /// or `refs/tags/` is the branch or tag below it; otherwise the name is
    /// a branch or a tag according to which of the two exists, and an error
    /// when both or neither do.
    pub fn resolve_checkout_target(
        repo: &Repository,
        name: &str,
        branch_exists: bool,
        tag_exists: bool,
    ) -> (res: Result<CheckoutTarget, RgitError>)
        ensures
            has_prefix(name@, "refs/heads/"@) ==> (res matches Ok(CheckoutTarget::Branch(b))
                && b@ == name@.skip(11)),
            !has_prefix(name@, "refs/heads/"@) && has_prefix(name@, "refs/tags/"@) ==> (res matches Ok(
                CheckoutTarget::Tag(t),
            ) && t@ == name@.skip(10)),
            !has_prefix(name@, "refs/heads/"@) && !has_prefix(name@, "refs/tags/"@) ==> {
                &&& branch_exists && tag_exists ==> is_named_error(res, ambiguous(), name@)
                &&& branch_exists && !tag_exists ==> (res matches Ok(CheckoutTarget::Branch(b))
                    && b@ == name@)
                &&& !branch_exists && tag_exists ==> (res matches Ok(CheckoutTarget::Tag(t)) && t@
                    == name@)
                &&& !branch_exists && !tag_exists ==> is_named_error(res, ref_missing(), name@)
            },
    {
        proof {
            reveal_strlit("refs/heads/");
            reveal_strlit("refs/tags/");
        }
        let cs = chars_of(name);
        let heads = chars_of("refs/heads/");
        if starts_with(&cs, &heads) {
            let rest = skip_chars(&cs, heads.len());
            return Ok(CheckoutTarget::Branch(string_of(&rest)));
        }
        let tags = chars_of("refs/tags/");
        if starts_with(&cs, &tags) {
            let rest = skip_chars(&cs, tags.len());
            return Ok(CheckoutTarget::Tag(string_of(&rest)));
        }
        match (branch_exists, tag_exists) {
            (true, true) => Err(RgitError::AmbiguousReference(name.to_owned())),
            (true, false) => Ok(CheckoutTarget::Branch(name.to_owned())),
            (false, true) => Ok(CheckoutTarget::Tag(name.to_owned())),
            (false, false) => Err(RgitError::RefNotFound(name.to_owned())),
        }
    }

    /// The commit the current branch points at, given what its file holds:
    /// a missing file is first created holding the null hash, and a missing
    /// or empty file gives the null hash. Returns the hash and the change
    /// that creates the file, if one is needed.
    pub fn get_current_commit_hash(
        repo: &Repository,
        content: Option<Result<String, std::io::Error>>,
    ) -> (res: Result<(String, Option<FsAction>), RgitError>)
        ensures
            match content {
                None => res matches Ok((h, Some(a))) && h@ == current_hash(None) && a@
                    == FsStep::WriteFile(repo.current_branch@, null_hash()),
                Some(Err(e)) => res == Err::<(String, Option<FsAction>), RgitError>(
                    RgitError::Io(e),
                ),
                Some(Ok(c)) => res matches Ok((h, None)) && h@ == current_hash(Some(c@)),
            },
    {
        match content {
            None => {
                let zeros = repeat_chars('0', 40);
                let hash = string_of(&zeros);
                let write = FsAction::WriteFile(repo.current_branch.clone(), string_of(&zeros));
                Ok((hash, Some(write)))
            },
            Some(Err(e)) => Err(RgitError::Io(e)),
            Some(Ok(current_hash)) => {
                if current_hash.as_str().is_empty() {
                    let zeros = repeat_chars('0', 40);
                    Ok((string_of(&zeros), None))
                } else {
                    Ok((current_hash, None))
                }
            },
        }
    }

    /// Makes the branch named by the head file current.
    pub fn read_current_branch(repo: &mut Repository, head: Result<String, std::io::Error>) -> (res:
        Result<(), RgitError>)
        ensures
            match head {
                Ok(c) => res is Ok && final(repo).current_branch@ == c@,
                Err(e) => res == Err::<(), RgitError>(RgitError::Io(e)) && *final(repo) == *old(
                    repo,
                ),
            },
            final(repo).gitdir == old(repo).gitdir,
            final(repo).head_file == old(repo).head_file,
            final(repo).branches == old(repo).branches,
            final(repo).tags == old(repo).tags,
            final(repo).logs == old(repo).logs,
            final(repo).log_head == old(repo).log_head,
            final(repo).objects == old(repo).objects,
            final(repo).config == old(repo).config,
    {
        match head {
            Ok(current_branch) => {
                repo.current_branch = current_branch;
                Ok(())
            },
            Err(e) => Err(RgitError::Io(e)),
        }
    }

    /// The change that makes the head name `branch_path`.
    pub fn write_head_reference(repo: &Repository, branch_path: &str) -> (res: FsAction)
        ensures
            res@ == FsStep::WriteFile(repo.head_file@, branch_path@),
    {
        FsAction::WriteFile(repo.head_file.clone(), branch_path.to_owned())
    }

    /// The changes that create the tag `tag_name` naming `commit`: the tag
    /// directory if it is missing, then the tag's file holding the commit.
    pub fn create_tag_ref(repo: &Repository, tag_name: &str, commit: &str) -> (res: Vec<FsAction>)
        ensures
            steps_of(res@) == seq![
                FsStep::CreateDirAllIfMissing(repo.tags@),
                FsStep::WriteFile(join(repo.tags@, tag_name@), commit@),
            ],
    {
        let mut acts: Vec<FsAction> = Vec::new();
        acts.push(FsAction::CreateDirAllIfMissing(repo.tags.clone()));
        acts.push(FsAction::WriteFile(join_path(repo.tags.as_str(), tag_name), commit.to_owned()));
        assert(steps_of(acts@) =~= seq![
            FsStep::CreateDirAllIfMissing(repo.tags@),
            FsStep::WriteFile(join(repo.tags@, tag_name@), commit@),
        ]);
        acts
    }

    /// The changes that create the branch `branch_name` pointing at
    /// `commit`; an error when the branch exists already.
    pub fn create_branch_ref(
        repo: &Repository,
        branch_name: &str,
        commit: &str,
        branch_exists: bool,
    ) -> (res: Result<Vec<FsAction>, RgitError>)
        ensures
            branch_exists ==> is_named_error(res, already_exists(), branch_name@),
            !branch_exists ==> (res matches Ok(acts) && steps_of(acts@) == create_branch_steps(
                *repo,
                branch_name@,
                commit@,
            )),
    {
        if branch_exists {
            return Err(RgitError::BranchAlreadyExists(branch_name.to_owned()));
        }
        let branch_path = join_path(repo.branches.as_str(), branch_name);
        let mut rel = chars_of("refs/heads/");
        push_str(&mut rel, branch_name);
        let rel_text = string_of(&rel);
        let log_path = join_path(repo.logs.as_str(), rel_text.as_str());
        let mut acts: Vec<FsAction> = Vec::new();
        acts.push(FsAction::CreateDirAllIfMissing(repo.branches.clone()));
        acts.push(FsAction::WriteFile(branch_path, commit.to_owned()));
        let ghost start = steps_of(acts@);
        match parent_path(log_path.as_str()) {
            Some(dir) => {
                acts.push(FsAction::CreateDirAllIfMissing(dir));
                assert(steps_of(acts@) =~= start.push(acts@.last()@));
            },
            None => {},
        }
        let ghost mid = steps_of(acts@);
        acts.push(FsAction::WriteFile(log_path, String::new()));
        assert(steps_of(acts@) =~= mid.push(acts@.last()@));
        assert(steps_of(acts@) =~= create_branch_steps(*repo, branch_name@, commit@));
        Ok(acts)
    }

    /// The commit a branch (or tag) file names, given what it holds.
    pub fn get_branch_commit(
        branch_path: &str,
        content: Option<Result<String, std::io::Error>>,
    ) -> (res: Result<String, RgitError>)
        ensures
            branch_commit_outcome(branch_path@, content, res),
    {
        match content {
            None => {
                let name = match file_name_of(branch_path) {
                    Some(n) => n,
                    None => String::new(),
                };
                Err(RgitError::BranchNotFound(name))
            },
            Some(Err(e)) => Err(RgitError::Io(e)),
            Some(Ok(text)) => {
                let cs = chars_of(text.as_str());
                let t = trim_chars(&cs);
                Ok(string_of(&t))
            },
        }
    }

    /// The change that makes the existing branch `branch_name` point at
    /// `commit`; an error when the branch does not exist.
    pub fn update_branch_ref(
        repo: &Repository,
        branch_name: &str,
        commit: &str,
        branch_exists: bool,
    ) -> (res: Result<FsAction, RgitError>)
        ensures
            !branch_exists ==> is_named_error(res, branch_missing(), branch_name@),
            branch_exists ==> (res matches Ok(a) && a@ == FsStep::WriteFile(
                join(repo.branches@, branch_name@),
                commit@,
            )),
    {
        let branch_path = join_path(repo.branches.as_str(), branch_name);
        if !branch_exists {
            return Err(RgitError::BranchNotFound(branch_name.to_owned()));
        }
        Ok(FsAction::WriteFile(branch_path, commit.to_owned()))
    }

    /// Switches to the tag `tag_name`, given what its file holds: gives the
    /// commit it names and the change that empties the head (a tag is no
    /// branch to follow).
    pub fn switch_tag(
        repo: &Repository,
        tag_name: &str,
        tag_content: Option<Result<String, std::io::Error>>,
    ) -> (res: Result<(String, FsAction), RgitError>)
        ensures
            match tag_content {
                None => is_named_error(res, tag_missing(), tag_name@),
                Some(Err(e)) => res == Err::<(String, FsAction), RgitError>(RgitError::Io(e)),
                Some(Ok(c)) => res matches Ok((h, a)) && h@ == trim(c@) && a@ == FsStep::WriteFile(
                    repo.head_file@,
                    Seq::<char>::empty(),
                ),
            },
    {
        let tag_path = join_path(repo.tags.as_str(), tag_name);
        if tag_content.is_none() {
            return Err(RgitError::TagNotFound(tag_name.to_owned()));
        }
        let commit = Self::get_branch_commit(tag_path.as_str(), tag_content)?;
        let empty = String::new();
        let head = Self::write_head_reference(repo, empty.as_str());
        Ok((commit, head))
    }

    /// Switches to the branch `branch_name`, given what its file holds:
    /// gives the commit it names and the change that makes the head name
    /// the branch's file.
    pub fn switch_branch(
        repo: &Repository,
        branch_name: &str,
        branch_content: Option<Result<String, std::io::Error>>,
    ) -> (res: Result<(String, FsAction), RgitError>)
        ensures
            match branch_content {
                None => is_named_error(res, branch_missing(), branch_name@),
                Some(Err(e)) => res == Err::<(String, FsAction), RgitError>(RgitError::Io(e)),
                Some(Ok(c)) => res matches Ok((h, a)) && h@ == trim(c@) && a@ == FsStep::WriteFile(
                    repo.head_file@,
                    join(repo.branches@, branch_name@),
                ),
            },
    {
        let branch_path = join_path(repo.branches.as_str(), branch_name);
        if branch_content.is_none() {
            return Err(RgitError::BranchNotFound(branch_name.to_owned()));
        }
        let commit = Self::get_branch_commit(branch_path.as_str(), branch_content)?;
        let head = Self::write_head_reference(repo, branch_path.as_str());
        Ok((commit, head))
    }

    /// Checks that the branch directory exists.
    pub fn validate_ref_structure(status: &LayoutStatus) -> (res: Result<(), RgitError>)
        ensures
            status.branches ==> res is Ok,
            !status.branches ==> is_not_initialized(res, "refs/heads"@),
    {
        if !status.branches {
            return Err(RgitError::NotInitialized("refs/heads".to_owned()));
        }
        Ok(())
    }
}

/// The current commit is never empty: a missing or empty branch file stands
/// for the null hash of forty zeros.
pub proof fn law_current_hash_nonempty(content: Option<Seq<char>>)
    ensures
        current_hash(content).len() > 0,
        content matches Some(c) ==> (c.len() > 0 ==> current_hash(content) == c),
{
}

/// A branch created pointing at `commit` is switched to at that commit: the
/// file that creating it writes is the one that switching to it reads, and
/// what switching reads back from that file is the commit itself when the
/// commit has no white space at its ends.
pub proof fn law_branch_round_trip(repo: Repository, name: Seq<char>, commit: Seq<char>)
    requires
        commit.len() > 0 ==> !is_white_space(commit[0]) && !is_white_space(commit.last()),
    ensures
        create_branch_steps(repo, name, commit)[1] == FsStep::WriteFile(
            join(repo.branches@, name),
            commit,
        ),
        trim(commit) == commit,
{
    assert(trim_start(commit) == commit);
    assert(trim_end(commit) == commit);
}

} // verus!
