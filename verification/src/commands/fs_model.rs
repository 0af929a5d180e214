//! What carrying out the changes does to a file system.
//!
//! The model follows directories and files by the text of their paths.
//! Each change is taken as it is when it succeeds; a directory created with
//! its missing parents is followed for the directory itself, and a copied
//! tree for its target directory.
use vstd::prelude::*;

use crate::commands::constants::DEFAULT_BRANCH;
use crate::commands::functions::{
    find_outcome, has_layout, init_steps, initial_branch, law_init_makes_what_find_checks,
    law_layout_under_gitdir,
};
use crate::commands::init::{init_repo_steps, structure_outcome};
use crate::commands::log_ops::{
    entries_of, law_plain_log_read_back, plain_field, plain_log_text, PlainCommit,
};
use crate::support::utils::{branch_below_gitdir, plain_commit_line, write_commit_steps};
use crate::text::lines_of;
use crate::commands::{FsStep, LayoutStatus, Repository};
use crate::errors::RgitError;
use crate::paths::join;

verus! {

/// A file system: the directories that exist and the text of each file.
pub struct FsModel {
    pub dirs: Set<Seq<char>>,
    pub files: Map<Seq<char>, Seq<char>>,
}

impl FsModel {
    /// Whether something, a directory or a file, is at `p`.
    pub open spec fn has_path(self, p: Seq<char>) -> bool {
        self.dirs.contains(p) || self.files.dom().contains(p)
    }

    /// The text of the file at `p`; empty when there is none.
    pub open spec fn text_of(self, p: Seq<char>) -> Seq<char> {
        if self.files.dom().contains(p) {
            self.files[p]
        } else {
            Seq::<char>::empty()
        }
    }

    /// A directory at `p` unless something is there already.
    pub open spec fn with_dir(self, p: Seq<char>) -> FsModel {
        if self.has_path(p) {
            self
        } else {
            FsModel { dirs: self.dirs.insert(p), files: self.files }
        }
    }

    /// The file at `p` holding `t`.
    pub open spec fn with_file(self, p: Seq<char>, t: Seq<char>) -> FsModel {
        FsModel { dirs: self.dirs, files: self.files.insert(p, t) }
    }
}

/// What a change that succeeds does to `fs`.
pub open spec fn step_effect(fs: FsModel, step: FsStep) -> FsModel {
    match step {
        FsStep::CreateDir(p) => FsModel { dirs: fs.dirs.insert(p), files: fs.files },
        FsStep::CreateDirIfMissing(p) => fs.with_dir(p),
        FsStep::CreateDirAllIfMissing(p) => fs.with_dir(p),
        FsStep::CreateDirAll(p) => fs.with_dir(p),
        FsStep::WriteFile(p, t) => fs.with_file(p, t),
        FsStep::AppendFile(p, t) => fs.with_file(p, fs.text_of(p) + t),
        FsStep::CopyDir(_, to) => fs.with_dir(to),
    }
}

/// `fs` after the changes `steps`, carried out in order, all succeed.
pub open spec fn run(fs: FsModel, steps: Seq<FsStep>) -> FsModel
    decreases steps.len(),
{
    if steps.len() == 0 {
        fs
    } else {
        run(step_effect(fs, steps[0]), steps.drop_first())
    }
}

/// Which parts of `repo`'s layout exist in `fs`.
pub open spec fn layout_status(fs: FsModel, repo: Repository) -> LayoutStatus {
    LayoutStatus {
        gitdir: fs.has_path(repo.gitdir@),
        objects: fs.has_path(repo.objects@),
        head_file: fs.has_path(repo.head_file@),
        log_head: fs.has_path(repo.log_head@),
        branches: fs.has_path(repo.branches@),
    }
}

/// The path a change creates or writes.
pub open spec fn step_target(step: FsStep) -> Seq<char> {
    match step {
        FsStep::CreateDir(p) => p,
        FsStep::CreateDirIfMissing(p) => p,
        FsStep::CreateDirAllIfMissing(p) => p,
        FsStep::CreateDirAll(p) => p,
        FsStep::WriteFile(p, _) => p,
        FsStep::AppendFile(p, _) => p,
        FsStep::CopyDir(_, to) => to,
    }
}

/// What exists stays: no change removes anything.
pub proof fn lemma_run_keeps(fs: FsModel, steps: Seq<FsStep>, p: Seq<char>)
    requires
        fs.has_path(p),
    ensures
        run(fs, steps).has_path(p),
    decreases steps.len(),
{
    if steps.len() > 0 {
        lemma_run_keeps(step_effect(fs, steps[0]), steps.drop_first(), p);
    }
}

/// After the changes, something is at the path of each of them.
pub proof fn lemma_run_makes(fs: FsModel, steps: Seq<FsStep>, i: int)
    requires
        0 <= i < steps.len(),
    ensures
        run(fs, steps).has_path(step_target(steps[i])),
    decreases steps.len(),
{
    let next = step_effect(fs, steps[0]);
    if i == 0 {
        lemma_run_keeps(next, steps.drop_first(), step_target(steps[0]));
    } else {
        lemma_run_makes(next, steps.drop_first(), i - 1);
    }
}

/// Laying a repository out, whatever was there before, gives a layout that
/// passes the full check and counts as an existing repository.
pub proof fn law_init_repo_passes_check(fs: FsModel, repo: Repository, res: Result<(), RgitError>)
    requires
        structure_outcome(layout_status(run(fs, init_repo_steps(repo)), repo), res),
    ensures
        res is Ok,
        layout_status(run(fs, init_repo_steps(repo)), repo).gitdir,
        layout_status(run(fs, init_repo_steps(repo)), repo).objects,
        layout_status(run(fs, init_repo_steps(repo)), repo).head_file,
        run(fs, init_repo_steps(repo)).has_path(repo.tags@),
        run(fs, init_repo_steps(repo)).has_path(repo.logs@),
        run(fs, init_repo_steps(repo)).has_path(join(repo.logs@, "refs/heads"@)),
{
    let s = init_repo_steps(repo);
    lemma_run_makes(fs, s, 3);
    lemma_run_makes(fs, s, 5);
    lemma_run_makes(fs, s, 6);
    lemma_run_makes(fs, s, 0);
    lemma_run_makes(fs, s, 1);
    lemma_run_makes(fs, s, 2);
    lemma_run_makes(fs, s, 4);
    lemma_run_makes(fs, s, 7);
}

/// The file system after laying `repo` out, change by change.
pub open spec fn init_repo_effect(fs: FsModel, repo: Repository) -> FsModel {
    fs.with_dir(repo.gitdir@).with_dir(repo.objects@).with_dir(repo.branches@).with_dir(
        repo.tags@,
    ).with_file(repo.head_file@, join(repo.branches@, DEFAULT_BRANCH@)).with_dir(
        repo.logs@,
    ).with_dir(join(repo.logs@, "refs/heads"@)).with_file(repo.log_head@, Seq::<char>::empty())
}

proof fn lemma_init_repo_effect(fs: FsModel, repo: Repository)
    ensures
        run(fs, init_repo_steps(repo)) == init_repo_effect(fs, repo),
{
    reveal_with_fuel(run, 9);
}

/// After laying a repository out, its head names the default branch under
/// the branch directory and its main log is empty, when the head file and
/// the main log are different files.
pub proof fn law_init_repo_contents(fs: FsModel, repo: Repository)
    requires
        repo.head_file@ != repo.log_head@,
    ensures
        run(fs, init_repo_steps(repo)).files[repo.head_file@] == join(
            repo.branches@,
            DEFAULT_BRANCH@,
        ),
        run(fs, init_repo_steps(repo)).files[repo.log_head@] == Seq::<char>::empty(),
{
    lemma_init_repo_effect(fs, repo);
}

/// Laying a repository out a second time changes nothing.
pub proof fn law_init_repo_again_changes_nothing(fs: FsModel, repo: Repository)
    ensures
        run(run(fs, init_repo_steps(repo)), init_repo_steps(repo)) == run(
            fs,
            init_repo_steps(repo),
        ),
{
    lemma_init_repo_effect(fs, repo);
    let r = init_repo_effect(fs, repo);
    lemma_init_repo_effect(r, repo);
    let logs_heads = join(repo.logs@, "refs/heads"@);
    let hb = join(repo.branches@, DEFAULT_BRANCH@);
    assert(r.has_path(repo.gitdir@));
    assert(r.has_path(repo.objects@));
    assert(r.has_path(repo.branches@));
    assert(r.has_path(repo.tags@));
    assert(r.has_path(repo.logs@));
    assert(r.has_path(logs_heads));
    let b4 = r.with_dir(repo.gitdir@).with_dir(repo.objects@).with_dir(repo.branches@).with_dir(
        repo.tags@,
    );
    assert(b4 == r);
    let b5 = b4.with_file(repo.head_file@, hb);
    let b7 = b5.with_dir(repo.logs@).with_dir(logs_heads);
    assert(b7 == b5);
    let b8 = b7.with_file(repo.log_head@, Seq::<char>::empty());
    assert(b8.files =~= r.files);
    assert(b8.dirs =~= r.dirs);
}

/// Whether `p` lies below the directory `dir`.
pub open spec fn lies_under(p: Seq<char>, dir: Seq<char>) -> bool {
    p.len() > dir.len() && p.take(dir.len() as int) == dir && p[dir.len() as int] == '/'
}

/// Whether nothing in `fs` is at the directory `dir` or below it.
pub open spec fn nothing_at_or_under(fs: FsModel, dir: Seq<char>) -> bool {
    forall|p: Seq<char>| #[trigger] fs.has_path(p) ==> p != dir && !lies_under(p, dir)
}

/// Creating a repository laid out by `Repository::new` where nothing is yet
/// at or below its directory makes its branch and log directories and what
/// opening it checks: the head names the default branch as soon as it is
/// written (which is when it is read back to become current) and the main
/// log is empty. Opening it then fails only where reading the head file
/// fails.
pub proof fn law_find_after_init(
    fs: FsModel,
    repo: Repository,
    base: Seq<char>,
    head: Result<String, std::io::Error>,
    res: Result<(), RgitError>,
)
    requires
        has_layout(repo, base),
        nothing_at_or_under(fs, repo.gitdir@),
        find_outcome(layout_status(run(fs, init_steps(repo)), repo), head, res),
    ensures
        res is Ok <==> head is Ok,
        run(fs, init_steps(repo).take(5)).files[repo.head_file@] == initial_branch(repo.gitdir@),
        run(fs, init_steps(repo)).files[repo.head_file@] == initial_branch(repo.gitdir@),
        run(fs, init_steps(repo)).files[repo.log_head@] == Seq::<char>::empty(),
        run(fs, init_steps(repo)).has_path(join(join(repo.gitdir@, "refs/"@), "heads/"@)),
        run(fs, init_steps(repo)).has_path(join(join(repo.gitdir@, "logs/"@), "refs/heads"@)),
{
    let s = init_steps(repo);
    let g = repo.gitdir@;
    law_init_makes_what_find_checks(repo, base);
    law_layout_under_gitdir(repo, base);
    lemma_run_makes(fs, s, 0);
    lemma_run_makes(fs, s, 1);
    lemma_run_makes(fs, s, 3);
    lemma_run_makes(fs, s, 4);
    lemma_run_makes(fs, s, 6);
    lemma_run_makes(fs, s, 7);
    reveal_with_fuel(run, 9);
    reveal_strlit("/HEAD");
    reveal_strlit("/logs/HEAD");
    assert(repo.head_file@.len() != repo.log_head@.len());
    assert(repo.head_file@.take(g.len() as int) =~= g);
    assert(repo.log_head@.take(g.len() as int) =~= g);
    assert(repo.head_file@[g.len() as int] == '/');
    assert(repo.log_head@[g.len() as int] == '/');
    assert(lies_under(repo.head_file@, g));
    assert(lies_under(repo.log_head@, g));
    assert(!fs.files.dom().contains(repo.head_file@)) by {
        if fs.files.dom().contains(repo.head_file@) {
            assert(fs.has_path(repo.head_file@));
        }
    }
    assert(!fs.files.dom().contains(repo.log_head@)) by {
        if fs.files.dom().contains(repo.log_head@) {
            assert(fs.has_path(repo.log_head@));
        }
    }
    let heads = join(join(g, "refs/"@), "heads/"@);
    assert(Seq::<char>::empty() + join(heads, DEFAULT_BRANCH@) =~= join(heads, DEFAULT_BRANCH@));
    assert(Seq::<char>::empty() + Seq::<char>::empty() =~= Seq::<char>::empty());
}

/// The head that `RefOps::write_head_reference` writes is what reading the
/// head file gives back, which `RefOps::read_current_branch` then makes
/// current.
pub proof fn law_head_reference_read_back(fs: FsModel, head_file: Seq<char>, branch_path: Seq<char>)
    ensures
        run(fs, seq![FsStep::WriteFile(head_file, branch_path)]).files[head_file] == branch_path,
{
    reveal_with_fuel(run, 2);
}

/// A commit recorded by `Utils::write_commit` on an empty main log reads
/// back from that log (`LogOps::read_log_entries`) as one entry holding the
/// child, the timestamp and the message, when its fields hold no tab and no
/// line break and the main log is neither the branch's log nor its file.
pub proof fn law_write_commit_read_back(
    fs: FsModel,
    child: Seq<char>,
    parent: Seq<char>,
    timestamp: u64,
    message: Seq<char>,
    log_head: Seq<char>,
    logs: Seq<char>,
    gitdir: Seq<char>,
    current_branch: Seq<char>,
)
    requires
        fs.text_of(log_head) == Seq::<char>::empty(),
        plain_field(child),
        plain_field(parent),
        plain_field(message),
        log_head != join(logs, branch_below_gitdir(current_branch, gitdir)),
        log_head != current_branch,
    ensures
        entries_of(
            lines_of(
                run(
                    fs,
                    write_commit_steps(
                        child,
                        parent,
                        timestamp,
                        message,
                        log_head,
                        logs,
                        gitdir,
                        current_branch,
                    ),
                ).text_of(log_head),
            ),
        ) == seq![(child, timestamp, message)],
{
    let line = plain_commit_line(child, parent, timestamp, message);
    reveal_with_fuel(run, 4);
    assert(Seq::<char>::empty() + line =~= line);
    let c = PlainCommit { child, parent, timestamp, message };
    let commits = seq![c];
    assert(commits.drop_last() =~= Seq::<PlainCommit>::empty());
    assert(commits.last() == c);
    assert(plain_log_text(Seq::<PlainCommit>::empty()) =~= Seq::<char>::empty());
    assert(plain_log_text(commits) =~= Seq::<char>::empty() + line);
    assert(plain_log_text(commits) =~= line);
    law_plain_log_read_back(commits);
    assert(commits.map_values(|c: PlainCommit| (c.child, c.timestamp, c.message)) =~= seq![
        (child, timestamp, message),
    ]);
}

/// Whether every directory the changes `steps` create one at a time
/// (`CreateDir`, which fails on an existing path) is new when its change
/// comes: nothing is there, neither from before nor from an earlier change.
pub open spec fn creates_only_new_dirs(fs: FsModel, steps: Seq<FsStep>) -> bool
    decreases steps.len(),
{
    steps.len() == 0 || ((steps[0] matches FsStep::CreateDir(p) ==> !fs.has_path(p))
        && creates_only_new_dirs(step_effect(fs, steps[0]), steps.drop_first()))
}

/// One change taken off the front of the changes from `k` on.
proof fn lemma_suffix_step(f: FsModel, s: Seq<FsStep>, k: int)
    requires
        0 <= k < s.len(),
    ensures
        run(f, s.skip(k)) == run(step_effect(f, s[k]), s.skip(k + 1)),
        creates_only_new_dirs(f, s.skip(k)) == ((s[k] matches FsStep::CreateDir(p) ==> !f.has_path(
            p,
        )) && creates_only_new_dirs(step_effect(f, s[k]), s.skip(k + 1))),
{
    assert(s.skip(k).drop_first() =~= s.skip(k + 1));
    assert(s.skip(k)[0] == s[k]);
}

/// A directory stays a directory: no change removes one.
proof fn lemma_run_keeps_dir(f: FsModel, steps: Seq<FsStep>, p: Seq<char>)
    requires
        f.dirs.contains(p),
    ensures
        run(f, steps).dirs.contains(p),
    decreases steps.len(),
{
    if steps.len() > 0 {
        lemma_run_keeps_dir(step_effect(f, steps[0]), steps.drop_first(), p);
    }
}

/// Creating a repository laid out by `Repository::new` where nothing is yet
/// at or below its directory never creates a directory twice, so each of
/// its changes can succeed; afterwards the directories `.rgit/logs/` and
/// `.rgit/logs/refs/heads` exist and so does the main log
/// `.rgit/logs/HEAD`.
#[verifier::rlimit(40)]
pub proof fn law_init_creates_each_directory_once(fs: FsModel, repo: Repository, base: Seq<char>)
    requires
        has_layout(repo, base),
        nothing_at_or_under(fs, repo.gitdir@),
    ensures
        creates_only_new_dirs(fs, init_steps(repo)),
        run(fs, init_steps(repo)).dirs.contains(repo.gitdir@ + seq!['/', 'l', 'o', 'g', 's', '/']),
        run(fs, init_steps(repo)).has_path(
            repo.gitdir@ + seq!['/', 'l', 'o', 'g', 's', '/', 'r', 'e', 'f', 's', '/', 'h', 'e', 'a', 'd', 's'],
        ),
        run(fs, init_steps(repo)).files.dom().contains(
            repo.gitdir@ + seq!['/', 'l', 'o', 'g', 's', '/', 'H', 'E', 'A', 'D'],
        ),
{
    let g = repo.gitdir@;
    law_layout_under_gitdir(repo, base);
    reveal_strlit("refs/");
    reveal_strlit("heads/");
    reveal_strlit("logs/");
    reveal_strlit("refs/heads");
    reveal_strlit("HEAD");
    reveal_strlit("/objects");
    reveal_strlit("/HEAD");
    let refs = g + seq!['/', 'r', 'e', 'f', 's', '/'];
    let heads = refs + seq!['h', 'e', 'a', 'd', 's', '/'];
    let logs = g + seq!['/', 'l', 'o', 'g', 's', '/'];
    let logs_heads = logs + seq!['r', 'e', 'f', 's', '/', 'h', 'e', 'a', 'd', 's'];
    let main_log = logs + seq!['H', 'E', 'A', 'D'];
    assert(join(g, "refs/"@) =~= refs);
    assert(join(refs, "heads/"@) =~= heads);
    assert(join(g, "logs/"@) =~= logs);
    assert(join(logs, "refs/heads"@) =~= logs_heads);
    assert(join(logs, "HEAD"@) =~= main_log);
    let objects = repo.objects@;
    let head = repo.head_file@;
    // Every path the changes create lies below the repository directory or
    // is it, so none is there before.
    assert(!fs.has_path(g));
    assert(!fs.has_path(objects)) by {
        assert(objects.take(g.len() as int) =~= g && objects[g.len() as int] == '/');
        assert(lies_under(objects, g));
    }
    assert(!fs.has_path(refs)) by {
        assert(refs.take(g.len() as int) =~= g && refs[g.len() as int] == '/');
        assert(lies_under(refs, g));
    }
    assert(!fs.has_path(heads)) by {
        assert(heads.take(g.len() as int) =~= g && heads[g.len() as int] == '/');
        assert(lies_under(heads, g));
    }
    assert(!fs.has_path(logs)) by {
        assert(logs.take(g.len() as int) =~= g && logs[g.len() as int] == '/');
        assert(lies_under(logs, g));
    }
    assert(!fs.has_path(head)) by {
        assert(head.take(g.len() as int) =~= g && head[g.len() as int] == '/');
        assert(lies_under(head, g));
    }
    // The created paths differ from one another.
    assert(objects.len() == g.len() + 8);
    assert(head.len() == g.len() + 5);
    assert(refs != logs) by {
        assert(refs[g.len() + 1int] == 'r' && logs[g.len() + 1int] == 'l');
    }
    let s = init_steps(repo);
    assert(s[0] == FsStep::CreateDir(g));
    assert(s[1] == FsStep::CreateDir(objects));
    assert(s[2] == FsStep::CreateDir(refs));
    assert(s[3] == FsStep::CreateDir(heads));
    assert(s[4] matches FsStep::AppendFile(p, _) && p == head);
    assert(s[5] == FsStep::CreateDir(logs));
    assert(s[6] == FsStep::CreateDirAll(logs_heads));
    assert(s[7] == FsStep::AppendFile(main_log, Seq::<char>::empty()));
    let f1 = step_effect(fs, s[0]);
    let f2 = step_effect(f1, s[1]);
    let f3 = step_effect(f2, s[2]);
    let f4 = step_effect(f3, s[3]);
    let f5 = step_effect(f4, s[4]);
    let f6 = step_effect(f5, s[5]);
    let f7 = step_effect(f6, s[6]);
    let f8 = step_effect(f7, s[7]);
    assert(f1.dirs == fs.dirs.insert(g) && f1.files == fs.files);
    assert(f2.dirs == f1.dirs.insert(objects) && f2.files == fs.files);
    assert(f3.dirs == f2.dirs.insert(refs) && f3.files == fs.files);
    assert(f4.dirs == f3.dirs.insert(heads) && f4.files == fs.files);
    assert(f5.dirs == f4.dirs && f5.files.dom() == fs.files.dom().insert(head));
    assert(!f1.has_path(objects));
    assert(!f2.has_path(refs));
    assert(!f3.has_path(heads));
    assert(!f5.has_path(logs));
    assert(f6.dirs.contains(logs));
    assert(s.skip(8) =~= Seq::<FsStep>::empty());
    assert(creates_only_new_dirs(f8, s.skip(8)));
    lemma_suffix_step(f7, s, 7);
    lemma_suffix_step(f6, s, 6);
    lemma_suffix_step(f5, s, 5);
    lemma_suffix_step(f4, s, 4);
    lemma_suffix_step(f3, s, 3);
    lemma_suffix_step(f2, s, 2);
    lemma_suffix_step(f1, s, 1);
    lemma_suffix_step(fs, s, 0);
    assert(s.skip(0) =~= s);
    assert(run(fs, s) == run(f6, s.skip(6)));
    lemma_run_keeps_dir(f6, s.skip(6), logs);
    lemma_run_makes(fs, s, 6);
    assert(run(fs, s) == f8);
    assert(f8.files.dom().contains(main_log));
    assert(logs_heads =~= g + seq!['/', 'l', 'o', 'g', 's', '/', 'r', 'e', 'f', 's', '/', 'h', 'e', 'a', 'd', 's']);
    assert(main_log =~= g + seq!['/', 'l', 'o', 'g', 's', '/', 'H', 'E', 'A', 'D']);
    assert(step_target(s[6]) == logs_heads);
}

} // verus!
