//! Opening, creating and committing to a repository.
use vstd::prelude::*;

use crate::commands::config::Config;
use crate::commands::constants::DEFAULT_BRANCH;
use crate::commands::{
    is_not_initialized, steps_of, FsAction, FsStep, LayoutStatus, Repository,
};
use crate::bindings::{chrono_in_range, day_near, local_date};
use crate::dates::date_text;
use crate::errors::RgitError;
use crate::paths::{is_absolute, join, join_path};
use crate::support::utils::{plain_commit_line, write_commit_steps, Utils};
use crate::text::{
    chars_of, decimal, decimal_chars, lines_chars, lines_of, parse_i64,
    parse_i64_chars, push_chars, push_str, seqs_of, split_chars, split_on, string_of,
};

verus! {

/// The repository directory under a working directory.
pub open spec fn repo_dir(base: Seq<char>) -> Seq<char> {
    join(base, ".rgit"@)
}

/// Whether `repo` has the layout of a repository under `base`, as
/// `Repository::new` sets it up.
pub open spec fn has_layout(repo: Repository, base: Seq<char>) -> bool {
    let g = repo_dir(base);
    &&& repo.gitdir@ == g
    &&& repo.objects@ == join(g, "objects"@)
    &&& repo.head_file@ == join(g, "HEAD"@)
    &&& repo.log_head@ == join(g, "logs/HEAD"@)
    &&& repo.logs@ == join(g, "logs/"@)
    &&& repo.branches@ == join(g, "refs/heads/"@)
    &&& repo.tags@ == join(g, "refs/tags/"@)
}

/// The outcome of opening a repository: the first missing part of the
/// layout, in the order `.rgit`, `objects`, `HEAD`, `logs/HEAD`; else the
/// outcome of reading the head file.
pub open spec fn find_outcome(
    status: LayoutStatus,
    head: Result<String, std::io::Error>,
    res: Result<(), RgitError>,
) -> bool {
    if !status.gitdir {
        is_not_initialized(res, ".rgit"@)
    } else if !status.objects {
        is_not_initialized(res, "objects"@)
    } else if !status.head_file {
        is_not_initialized(res, "HEAD"@)
    } else if !status.log_head {
        is_not_initialized(res, "logs/HEAD"@)
    } else {
        match head {
            Ok(_) => res is Ok,
            Err(e) => res == Err::<(), RgitError>(RgitError::Io(e)),
        }
    }
}

/// The branch file that a new repository's head names.
pub open spec fn initial_branch(gitdir: Seq<char>) -> Seq<char> {
    join(join(join(gitdir, "refs/"@), "heads/"@), DEFAULT_BRANCH@)
}

/// The changes that create a repository's layout.
pub open spec fn init_steps(repo: Repository) -> Seq<FsStep> {
    let refs = join(repo.gitdir@, "refs/"@);
    let heads = join(refs, "heads/"@);
    let logs = join(repo.gitdir@, "logs/"@);
    seq![
        FsStep::CreateDir(repo.gitdir@),
        FsStep::CreateDir(repo.objects@),
        FsStep::CreateDir(refs),
        FsStep::CreateDir(heads),
        FsStep::AppendFile(repo.head_file@, join(heads, DEFAULT_BRANCH@)),
        FsStep::CreateDir(logs),
        FsStep::CreateDirAll(join(logs, "refs/heads"@)),
        FsStep::AppendFile(join(logs, "HEAD"@), Seq::<char>::empty()),
    ]
}

/// The name of the `n`th snapshot.
pub open spec fn snapshot_name(n: nat) -> Seq<char> {
    "snap-"@ + decimal(n)
}

/// The changes that commit the working directory as snapshot `count + 1`:
/// it is copied into the snapshot directory, then the commit is recorded
/// with the previous snapshot as its parent.
pub open spec fn commit_steps(
    repo: Repository,
    count: nat,
    timestamp: u64,
    message: Seq<char>,
) -> Seq<FsStep> {
    let n = count + 1;
    seq![FsStep::CopyDir("workdir"@, join(repo.objects@, snapshot_name(n)))] + write_commit_steps(
        snapshot_name(n),
        snapshot_name(count),
        timestamp,
        message,
        repo.log_head@,
        repo.logs@,
        repo.gitdir@,
        repo.current_branch@,
    )
}

/// The fields of a log line that the log display shows: the timestamp
/// field, the snapshot and the message (the first three tab-separated
/// fields).
pub open spec fn shown_fields(line: Seq<char>) -> (Seq<char>, Seq<char>, Seq<char>) {
    let parts = split_on(line, '\t');
    (parts[0], parts[1], parts[2])
}

/// Whether the log display shows a line: it is not empty and has at least
/// three tab-separated fields.
pub open spec fn is_shown(line: Seq<char>) -> bool {
    line.len() > 0 && split_on(line, '\t').len() >= 3
}

/// The lines the log display shows, newest (last) first, as their fields.
pub open spec fn shown_records(lines: Seq<Seq<char>>) -> Seq<(Seq<char>, Seq<char>, Seq<char>)>
    decreases lines.len(),
{
    if lines.len() == 0 {
        Seq::empty()
    } else {
        let l = lines.last();
        let rest = shown_records(lines.drop_last());
        if is_shown(l) {
            seq![shown_fields(l)] + rest
        } else {
            rest
        }
    }
}

/// The moment a shown line's timestamp field names: the field read as an
/// `i64`, 0 when it is not one.
pub open spec fn shown_seconds(field: Seq<char>) -> i64 {
    match parse_i64(field) {
        Some(v) => v,
        None => 0,
    }
}

/// The display of one commit: its snapshot, the date `date` and its
/// message, on three lines.
pub open spec fn log_block(snapshot: Seq<char>, date: Seq<char>, message: Seq<char>) -> Seq<char> {
    "Snapshot:\t"@ + snapshot + "\nDate:\t"@ + date + "\nMessage:\t"@ + message
}

/// Whether `block` displays the record `r`, with the local date of the
/// moment its timestamp field names (the date of a day within a day of the
/// moment's UTC date, as the machine's time zone places it).
pub open spec fn shows(block: Seq<char>, r: (Seq<char>, Seq<char>, Seq<char>)) -> bool {
    exists|day: int|
        day_near(shown_seconds(r.0) as int, day) && block == #[trigger] log_block(
            r.1,
            date_text(day),
            r.2,
        )
}

/// Whether every shown line of `content` names a moment chrono can
/// represent.
pub open spec fn log_dates_in_range(content: Seq<char>) -> bool {
    let recs = shown_records(lines_of(content));
    forall|i: int| 0 <= i < recs.len() ==> chrono_in_range(shown_seconds(#[trigger] recs[i].0))
}

/// The text `snap-` followed by the decimal number `n`.
fn snapshot_text(n: u64) -> (res: String)
    ensures
        res@ == snapshot_name(n as nat),
{
    let mut out = chars_of("snap-");
    let digits = decimal_chars(n);
    push_chars(&mut out, &digits);
    string_of(&out)
}

impl Repository {
    /// The repository of the working directory `path`: its directory is
    /// `path/.rgit`, with the objects, head file, logs, branches and tags
    /// below it; no branch is current and the identity is empty.
    pub fn new(path: String) -> (res: Self)
        ensures
            has_layout(res, path@),
            res.current_branch@ == Seq::<char>::empty(),
            res.config@ == (Seq::<char>::empty(), Seq::<char>::empty()),
    {
        let root = join_path(path.as_str(), ".rgit");
        let objects = join_path(root.as_str(), "objects");
        let head_file = join_path(root.as_str(), "HEAD");
        let log_head = join_path(root.as_str(), "logs/HEAD");
        let logs = join_path(root.as_str(), "logs/");
        let branches = join_path(root.as_str(), "refs/heads/");
        let tags = join_path(root.as_str(), "refs/tags/");
        Self {
            gitdir: root,
            objects,
            head_file,
            log_head,
            logs,
            branches,
            tags,
            current_branch: String::new(),
            config: Config::new(),
        }
    }

    fn get_preexisting_repo(
        &mut self,
        status: &LayoutStatus,
        head: Result<String, std::io::Error>,
    ) -> (res: Result<(), RgitError>)
        ensures
            find_outcome(*status, head, res),
            res is Ok ==> head is Ok && final(self).current_branch@ == head->Ok_0@,
            res is Ok ==> final(self).gitdir == old(self).gitdir && final(self).objects
                == old(self).objects && final(self).head_file == old(self).head_file
                && final(self).log_head == old(self).log_head && final(self).logs == old(
                self,
            ).logs && final(self).branches == old(self).branches && final(self).tags == old(
                self,
            ).tags,
            res is Ok ==> final(self).config == old(self).config,
            res is Err ==> *final(self) == *old(self),
    {
        if !status.gitdir {
            return Err(RgitError::NotInitialized(".rgit".to_owned()));
        }
        if !status.objects {
            return Err(RgitError::NotInitialized("objects".to_owned()));
        }
        if !status.head_file {
            return Err(RgitError::NotInitialized("HEAD".to_owned()));
        }
        if !status.log_head {
            return Err(RgitError::NotInitialized("logs/HEAD".to_owned()));
        }
        match head {
            Ok(current_branch) => {
                self.current_branch = current_branch;
                Ok(())
            },
            Err(e) => Err(RgitError::Io(e)),
        }
    }

    /// Opens the repository: fails with the first missing part of the
    /// layout, or with the error of reading the head file; otherwise the
    /// branch the head file names becomes current.
    ///
    /// `status` says which parts exist; `head` is what reading the head
    /// file gave.
    pub fn find(
        &mut self,
        status: &LayoutStatus,
        head: Result<String, std::io::Error>,
    ) -> (res: Result<(), RgitError>)
        ensures
            find_outcome(*status, head, res),
            res is Ok ==> head is Ok && final(self).current_branch@ == head->Ok_0@,
            res is Ok ==> final(self).gitdir == old(self).gitdir && final(self).objects
                == old(self).objects && final(self).head_file == old(self).head_file
                && final(self).log_head == old(self).log_head && final(self).logs == old(
                self,
            ).logs && final(self).branches == old(self).branches && final(self).tags == old(
                self,
            ).tags,
            res is Ok ==> final(self).config == old(self).config,
            res is Err ==> *final(self) == *old(self),
    {
        self.get_preexisting_repo(status, head)?;
        Ok(())
    }

    /// Creates the repository unless it can be opened. Gives `None` when
    /// it could be opened (it exists already), and the branch its head
    /// names is then current. Otherwise the changes that create its layout,
    /// in two parts: those up to writing the head, which names the default
    /// branch, and the rest. The repository itself is left as it is: once
    /// the first part is carried out, the head file is read and what it
    /// holds made current (`RefOps::read_current_branch`), before the rest
    /// is carried out.
    pub fn init(
        &mut self,
        status: &LayoutStatus,
        head: Result<String, std::io::Error>,
    ) -> (res: Option<(Vec<FsAction>, Vec<FsAction>)>)
        ensures
            ({
                let found = status.gitdir && status.objects && status.head_file && status.log_head
                    && head is Ok;
                &&& found ==> res is None && final(self).current_branch@ == head->Ok_0@
                &&& !found ==> (res matches Some((first, rest)) && steps_of(first@) == init_steps(
                    *old(self),
                ).take(5) && steps_of(rest@) == init_steps(*old(self)).skip(5) && *final(self)
                    == *old(self))
            }),
            final(self).gitdir == old(self).gitdir,
            final(self).objects == old(self).objects,
            final(self).head_file == old(self).head_file,
            final(self).log_head == old(self).log_head,
            final(self).logs == old(self).logs,
            final(self).branches == old(self).branches,
            final(self).tags == old(self).tags,
            final(self).config == old(self).config,
    {
        match self.find(status, head) {
            Ok(()) => None,
            Err(_) => {
                let refs_dir = join_path(self.gitdir.as_str(), "refs/");
                let refs_heads = join_path(refs_dir.as_str(), "heads/");
                let head_path = join_path(refs_heads.as_str(), DEFAULT_BRANCH);
                let logs_dir = join_path(self.gitdir.as_str(), "logs/");
                let logs_refs_head = join_path(logs_dir.as_str(), "refs/heads");
                let logs_head = join_path(logs_dir.as_str(), "HEAD");
                let mut first: Vec<FsAction> = Vec::new();
                first.push(FsAction::CreateDir(self.gitdir.clone()));
                first.push(FsAction::CreateDir(self.objects.clone()));
                first.push(FsAction::CreateDir(refs_dir));
                first.push(FsAction::CreateDir(refs_heads));
                first.push(FsAction::AppendFile(self.head_file.clone(), head_path));
                let mut rest: Vec<FsAction> = Vec::new();
                rest.push(FsAction::CreateDir(logs_dir));
                rest.push(FsAction::CreateDirAll(logs_refs_head));
                rest.push(FsAction::AppendFile(logs_head, String::new()));
                assert(steps_of(first@) =~= init_steps(*old(self)).take(5));
                assert(steps_of(rest@) =~= init_steps(*old(self)).skip(5));
                Some((first, rest))
            },
        }
    }

    /// The display of the log kept in the head file, given what it holds
    /// (`None` when it does not exist): one block per line that is not empty
    /// and has at least three tab-separated fields, newest first, showing
    /// the second field as the snapshot, the first as the date (read as
    /// seconds since the Unix epoch, 0 when it is no number) and the third
    /// as the message.
    pub fn log(&self, head: Option<Result<String, std::io::Error>>) -> (res: Result<
        Vec<String>,
        RgitError,
    >)
        requires
            head matches Some(Ok(c)) ==> log_dates_in_range(c@),
        ensures
            head is None ==> res matches Err(RgitError::MessageFileNotFound),
            head matches Some(Err(e)) ==> res == Err::<Vec<String>, RgitError>(RgitError::Io(e)),
            head matches Some(Ok(c)) ==> (res matches Ok(blocks) && {
                let recs = shown_records(lines_of(c@));
                &&& blocks@.len() == recs.len()
                &&& forall|i: int| 0 <= i < recs.len() ==> shows(#[trigger] blocks@[i]@, recs[i])
            }),
    {
        let lines_text = match head {
            None => {
                return Err(RgitError::MessageFileNotFound);
            },
            Some(Err(e)) => {
                return Err(RgitError::Io(e));
            },
            Some(Ok(t)) => t,
        };
        let cs = chars_of(lines_text.as_str());
        let lines = lines_chars(&cs);
        let ghost ls = lines_of(cs@);
        let ghost all = shown_records(ls);
        let mut blocks: Vec<String> = Vec::new();
        let ghost mut done: Seq<(Seq<char>, Seq<char>, Seq<char>)> = Seq::empty();
        let mut j: usize = lines.len();
        assert(ls.take(j as int) =~= ls);
        while j > 0
            invariant
                j <= lines.len(),
                seqs_of(lines@) == ls,
                all == shown_records(ls),
                forall|i: int| 0 <= i < all.len() ==> chrono_in_range(shown_seconds(#[trigger] all[i].0)),
                all == done + shown_records(ls.take(j as int)),
                blocks@.len() == done.len(),
                forall|i: int| 0 <= i < done.len() ==> shows(#[trigger] blocks@[i]@, done[i]),
            decreases j,
        {
            let line = &lines[j - 1];
            assert(line@ == ls[j - 1]);
            let ghost t = ls.take(j as int);
            assert(t.drop_last() =~= ls.take(j - 1));
            assert(t.last() == ls[j - 1]);
            if line.len() > 0 {
                let parts = split_chars(line, '\t');
                assert(seqs_of(parts@).len() == parts@.len());
                if parts.len() >= 3 {
                    let ghost r = shown_fields(line@);
                    assert(parts@[1]@ == r.1);
                    assert(parts@[2]@ == r.2);
                    assert(all[done.len() as int] == r) by {
                        assert(shown_records(t) =~= seq![r] + shown_records(ls.take(j - 1)));
                        assert((done + shown_records(t))[done.len() as int] == r);
                    }
                    assert(parts@[0]@ == r.0);
                    let secs = match parse_i64_chars(&parts[0]) {
                        Some(v) => v,
                        None => 0,
                    };
                    assert(chrono_in_range(shown_seconds(all[done.len() as int].0)));
                    let date = match local_date(secs) {
                        Some(d) => d,
                        None => {
                            assert(false);
                            String::new()
                        },
                    };
                    let snapshot = string_of(&parts[1]);
                    let message = string_of(&parts[2]);
                    let block = Self::show_commit(snapshot.as_str(), date.as_str(), message.as_str());
                    assert(block@ == log_block(r.1, date@, r.2));
                    assert(secs == shown_seconds(r.0));
                    let ghost day = choose|day: int|
                        day_near(secs as int, day) && date@ == #[trigger] date_text(day);
                    assert(block@ == log_block(r.1, date_text(day), r.2));
                    let ghost before = blocks@;
                    proof {
                        assert(shows(block@, r));
                        assert(all =~= done.push(r) + shown_records(ls.take(j - 1)));
                        done = done.push(r);
                    }
                    blocks.push(block);
                    assert forall|i: int| 0 <= i < done.len() implies shows(
                        #[trigger] blocks@[i]@,
                        done[i],
                    ) by {
                        if i < done.len() - 1 {
                            assert(blocks@[i] == before[i]);
                        }
                    }
                } else {
                    assert(!is_shown(line@));
                    assert(shown_records(t) == shown_records(ls.take(j - 1)));
                }
            } else {
                assert(!is_shown(line@));
                assert(shown_records(t) == shown_records(ls.take(j - 1)));
            }
            j = j - 1;
        }
        assert(ls.take(0) =~= Seq::<Seq<char>>::empty());
        assert(done =~= all);
        Ok(blocks)
    }

    /// The display of one commit: its snapshot, the date text `date` and its
    /// message, on three lines.
    pub fn show_commit(snapshot: &str, date: &str, message: &str) -> (res: String)
        ensures
            res@ == log_block(snapshot@, date@, message@),
    {
        let mut out: Vec<char> = Vec::new();
        push_str(&mut out, "Snapshot:\t");
        push_str(&mut out, snapshot);
        push_str(&mut out, "\nDate:\t");
        push_str(&mut out, date);
        push_str(&mut out, "\nMessage:\t");
        push_str(&mut out, message);
        assert(out@ =~= log_block(snapshot@, date@, message@));
        string_of(&out)
    }

    /// The changes that commit the working directory `workdir` as the next
    /// snapshot, given how many entries the snapshot directory holds, the
    /// time of the commit and its message.
    pub fn commit(&self, snapshot_count: usize, timestamp: u64, message: String) -> (res: Vec<
        FsAction,
    >)
        requires
            snapshot_count < usize::MAX,
        ensures
            steps_of(res@) == commit_steps(*self, snapshot_count as nat, timestamp, message@),
    {
        let n = snapshot_count + 1;
        let child = snapshot_text(n as u64);
        let parent = snapshot_text(snapshot_count as u64);
        let snapshot_dir = join_path(self.objects.as_str(), child.as_str());
        let mut res: Vec<FsAction> = Vec::new();
        res.push(FsAction::CopyDir("workdir".to_owned(), snapshot_dir));
        let ghost first = res@;
        let mut rest = Utils::write_commit(child, parent, timestamp, message, self);
        let ghost rest0 = rest@;
        res.append(&mut rest);
        assert(res@ == first + rest0);
        assert(steps_of(res@) =~= steps_of(first) + steps_of(rest0));
        assert(steps_of(res@) =~= commit_steps(*self, snapshot_count as nat, timestamp, message@));
        res
    }
}

/// Creating a repository laid out by `Repository::new` makes each part that
/// opening it checks: the repository directory, the objects directory, the
/// head file and the main log.
pub proof fn law_init_makes_what_find_checks(repo: Repository, base: Seq<char>)
    requires
        has_layout(repo, base),
    ensures
        init_steps(repo)[0] == FsStep::CreateDir(repo.gitdir@),
        init_steps(repo)[1] == FsStep::CreateDir(repo.objects@),
        init_steps(repo)[4] matches FsStep::AppendFile(p, _) && p == repo.head_file@,
        init_steps(repo)[7] == FsStep::AppendFile(repo.log_head@, Seq::<char>::empty()),
{
    law_layout_under_gitdir(repo, base);
    reveal_strlit("logs/");
    reveal_strlit("HEAD");
    reveal_strlit("/logs/HEAD");
    let logs = join(repo.gitdir@, "logs/"@);
    assert(logs =~= repo.gitdir@ + "/logs/"@);
    assert(logs.last() == '/');
    assert(join(logs, "HEAD"@) =~= repo.log_head@);
}

/// The log display shows later lines first: the display of a log with
/// lines added at its end begins with the added lines, newest first,
/// followed by the display of the log before.
pub proof fn law_log_newest_first(earlier: Seq<Seq<char>>, later: Seq<Seq<char>>)
    ensures
        shown_records(earlier + later) == shown_records(later) + shown_records(earlier),
    decreases later.len(),
{
    if later.len() == 0 {
        assert(earlier + later =~= earlier);
        assert(shown_records(later) =~= Seq::<(Seq<char>, Seq<char>, Seq<char>)>::empty());
        assert(shown_records(later) + shown_records(earlier) =~= shown_records(earlier));
    } else {
        law_log_newest_first(earlier, later.drop_last());
        assert((earlier + later).drop_last() =~= earlier + later.drop_last());
        assert((earlier + later).last() == later.last());
        let l = later.last();
        if is_shown(l) {
            assert(seq![shown_fields(l)] + (shown_records(later.drop_last()) + shown_records(
                earlier,
            )) =~= (seq![shown_fields(l)] + shown_records(later.drop_last())) + shown_records(
                earlier,
            ));
        }
    }
}

/// Every path of a repository's layout is its directory, a separator and a
/// relative name: the layout lies under the repository directory, which is
/// never empty and never ends with a separator.
pub proof fn law_layout_under_gitdir(repo: Repository, base: Seq<char>)
    requires
        has_layout(repo, base),
    ensures
        repo.gitdir@.len() > 0,
        repo.gitdir@.last() != '/',
        repo.objects@ == repo.gitdir@ + "/objects"@,
        repo.head_file@ == repo.gitdir@ + "/HEAD"@,
        repo.log_head@ == repo.gitdir@ + "/logs/HEAD"@,
        repo.logs@ == repo.gitdir@ + "/logs/"@,
        repo.branches@ == repo.gitdir@ + "/refs/heads/"@,
        repo.tags@ == repo.gitdir@ + "/refs/tags/"@,
{
    reveal_strlit(".rgit");
    reveal_strlit("objects");
    reveal_strlit("HEAD");
    reveal_strlit("logs/HEAD");
    reveal_strlit("logs/");
    reveal_strlit("refs/heads/");
    reveal_strlit("refs/tags/");
    reveal_strlit("/objects");
    reveal_strlit("/HEAD");
    reveal_strlit("/logs/HEAD");
    reveal_strlit("/logs/");
    reveal_strlit("/refs/heads/");
    reveal_strlit("/refs/tags/");
    let g = repo.gitdir@;
    assert(!is_absolute(".rgit"@));
    assert(g.last() == 't');
    assert(repo.objects@ =~= g + "/objects"@);
    assert(repo.head_file@ =~= g + "/HEAD"@);
    assert(repo.log_head@ =~= g + "/logs/HEAD"@);
    assert(repo.logs@ =~= g + "/logs/"@);
    assert(repo.branches@ =~= g + "/refs/heads/"@);
    assert(repo.tags@ =~= g + "/refs/tags/"@);
}

/// How many of `lines` are not empty and have at least three tab-separated
/// fields.
pub open spec fn lines_with_three_fields(lines: Seq<Seq<char>>) -> nat
    decreases lines.len(),
{
    if lines.len() == 0 {
        0
    } else {
        lines_with_three_fields(lines.drop_last()) + if lines.last().len() > 0 && split_on(
            lines.last(),
            '\t',
        ).len() >= 3 {
            1nat
        } else {
            0nat
        }
    }
}

/// The log display has one block for each line that is not empty and has
/// at least three tab-separated fields, however many fields beyond three it
/// has.
pub proof fn law_log_block_count(lines: Seq<Seq<char>>)
    ensures
        shown_records(lines).len() == lines_with_three_fields(lines),
    decreases lines.len(),
{
    if lines.len() > 0 {
        law_log_block_count(lines.drop_last());
    }
}

/// A log of one line that is not empty and has three or more tab-separated
/// fields shows one block: its first field as the time, its second as the
/// snapshot and its third as the message.
pub proof fn law_log_shows_line(line: Seq<char>)
    requires
        line.len() > 0,
        split_on(line, '\t').len() >= 3,
    ensures
        shown_records(seq![line]) == seq![
            (split_on(line, '\t')[0], split_on(line, '\t')[1], split_on(line, '\t')[2]),
        ],
{
    let one = seq![line];
    assert(one.drop_last() =~= Seq::<Seq<char>>::empty());
    assert(one.last() == line);
    assert(shown_records(Seq::<Seq<char>>::empty()) =~= Seq::<(Seq<char>, Seq<char>, Seq<char>)>::empty());
    assert(shown_records(one) =~= seq![
        (split_on(line, '\t')[0], split_on(line, '\t')[1], split_on(line, '\t')[2]),
    ]);
}

/// Committing with `count` snapshots taken so far makes snapshot
/// `snap-(count+1)` from the working directory, adds the line
/// `snap-(count+1) TAB snap-count TAB time TAB message TAB commit LF` to the
/// main log and points the branch at `snap-(count+1)`: the parent's number
/// is always one less than the child's.
pub proof fn law_commit_line(repo: Repository, count: nat, timestamp: u64, message: Seq<char>)
    ensures
        ({
            let snap = seq!['s', 'n', 'a', 'p', '-'];
            let child = snap + decimal(count + 1);
            let parent = snap + decimal(count);
            let line = child + seq!['\t'] + parent + seq!['\t'] + decimal(timestamp as nat) + seq![
                '\t',
            ] + message + seq!['\t'] + seq!['c', 'o', 'm', 'm', 'i', 't'] + seq!['\n'];
            &&& commit_steps(repo, count, timestamp, message).len() == 4
            &&& commit_steps(repo, count, timestamp, message)[0] == FsStep::CopyDir(
                seq!['w', 'o', 'r', 'k', 'd', 'i', 'r'],
                join(repo.objects@, child),
            )
            &&& commit_steps(repo, count, timestamp, message)[1] == FsStep::AppendFile(
                repo.log_head@,
                line,
            )
            &&& commit_steps(repo, count, timestamp, message)[3] == FsStep::WriteFile(
                repo.current_branch@,
                child,
            )
        }),
{
    reveal_strlit("snap-");
    reveal_strlit("workdir");
    let snap = seq!['s', 'n', 'a', 'p', '-'];
    assert("snap-"@ =~= snap);
    assert("workdir"@ =~= seq!['w', 'o', 'r', 'k', 'd', 'i', 'r']);
    let child = snap + decimal(count + 1);
    let parent = snap + decimal(count);
    assert(plain_commit_line(child, parent, timestamp, message) =~= child + seq!['\t'] + parent
        + seq!['\t'] + decimal(timestamp as nat) + seq!['\t'] + message + seq!['\t'] + seq![
        'c',
        'o',
        'm',
        'm',
        'i',
        't',
    ] + seq!['\n']);
}

} // verus!
