//! The commit log: one tab-separated line per commit.
use vstd::prelude::*;

use crate::bindings::{
    chrono_in_range, day_near, local_date, sha1_digest, sha1_of_text,
};
use crate::commands::{steps_of, FsAction, FsStep, Repository};
use crate::dates::date_text;
use crate::paths::{join, join_path, parent, parent_path, strip_base_path};
use crate::support::utils::{branch_below_gitdir, plain_commit_line};
use crate::text::{
    hex_lower, hex_lower_chars, is_lower_hex, lemma_hex_lower_digits, lemma_hex_lower_len,
    all_digits, chars_of, decimal, digits_value, decimal_chars, is_digit, lemma_split_concat,
    lemma_split_free, lemma_split_nonempty, lines_chars, lines_of, parse_u64, parse_u64_chars,
    push_chars, push_str, seqs_of, split_chars, split_on, string_of, strip_cr, unsigned_digits,
};

verus! {

/// Commit-log operations.
pub struct LogOps;

/// One commit as read back from a log.
#[derive(Debug, Clone)]
pub struct LogEntry {
    /// The name of the snapshot (the line's first field).
    pub snapshot: String,
    /// The timestamp (the line's third field read as a number, 0 if it is none).
    pub timestamp: u64,
    /// The message (the line's fourth field).
    pub message: String,
}

impl View for LogEntry {
    /// Snapshot, timestamp, message.
    type V = (Seq<char>, u64, Seq<char>);

    open spec fn view(&self) -> (Seq<char>, u64, Seq<char>) {
        (self.snapshot@, self.timestamp, self.message@)
    }
}

/// The views of a sequence of log entries.
pub open spec fn entries_view(v: Seq<LogEntry>) -> Seq<(Seq<char>, u64, Seq<char>)> {
    v.map_values(|e: LogEntry| e@)
}

/// The log line of a commit: child, parent, `author<email>`, timestamp,
/// message and the word `commit`, separated by tabs and ended by a line
/// break.
pub open spec fn commit_entry(
    child: Seq<char>,
    parent: Seq<char>,
    author: Seq<char>,
    email: Seq<char>,
    timestamp: u64,
    message: Seq<char>,
) -> Seq<char> {
    child + seq!['\t'] + parent + seq!['\t'] + author + seq!['<'] + email + seq!['>', '\t']
        + decimal(timestamp as nat) + seq!['\t'] + message + seq![
        '\t',
        'c',
        'o',
        'm',
        'm',
        'i',
        't',
        '\n',
    ]
}

/// The entry a log line holds: none for an empty line or one with fewer
/// than four tab-separated fields; otherwise the first field, the third
/// read as a number (0 when it is not one) and the fourth.
pub open spec fn parse_line(line: Seq<char>) -> Option<(Seq<char>, u64, Seq<char>)> {
    if line.len() == 0 {
        None
    } else {
        let parts = split_on(line, '\t');
        if parts.len() >= 4 {
            Some(
                (
                    parts[0],
                    match parse_u64(parts[2]) {
                        Some(v) => v,
                        None => 0,
                    },
                    parts[3],
                ),
            )
        } else {
            None
        }
    }
}

/// The entries of a sequence of lines: each line's entry, in order, with
/// the lines that hold none left out.
pub open spec fn entries_of(lines: Seq<Seq<char>>) -> Seq<(Seq<char>, u64, Seq<char>)>
    decreases lines.len(),
{
    if lines.len() == 0 {
        Seq::empty()
    } else {
        let r = entries_of(lines.drop_last());
        match parse_line(lines.last()) {
            Some(e) => r.push(e),
            None => r,
        }
    }
}

/// The fields of a commit as `format_commit_entry` takes them.
pub struct CommitFields {
    pub child: Seq<char>,
    pub parent: Seq<char>,
    pub author: Seq<char>,
    pub email: Seq<char>,
    pub timestamp: u64,
    pub message: Seq<char>,
}

/// The log holding the given commits, one line each, in order.
pub open spec fn log_text(commits: Seq<CommitFields>) -> Seq<char>
    decreases commits.len(),
{
    if commits.len() == 0 {
        Seq::empty()
    } else {
        let c = commits.last();
        log_text(commits.drop_last()) + commit_entry(
            c.child,
            c.parent,
            c.author,
            c.email,
            c.timestamp,
            c.message,
        )
    }
}

/// Whether a field can stand in a log line: it holds no tab and no line
/// break.
pub open spec fn plain_field(f: Seq<char>) -> bool {
    !f.contains('\t') && !f.contains('\n')
}

/// The text whose digest names a commit: parent, `author<email>`,
/// timestamp, message and the word `commit`, separated by tabs and ended
/// by a line break.
pub open spec fn hash_input(
    parent: Seq<char>,
    author: Seq<char>,
    email: Seq<char>,
    timestamp: u64,
    message: Seq<char>,
) -> Seq<char> {
    parent + seq!['\t'] + author + seq!['<'] + email + seq!['>', '\t'] + decimal(timestamp as nat)
        + seq!['\t'] + message + seq!['\t', 'c', 'o', 'm', 'm', 'i', 't', '\n']
}

/// The changes that record a commit in the logs: its line is added to the
/// main log, the directory of the branch's log is created if missing, and
/// the line is added to the branch's log. The line holds the parent in its
/// first field and the child in its second.
pub open spec fn commit_log_steps(
    repo: Repository,
    parent_name: Seq<char>,
    child: Seq<char>,
    timestamp: u64,
    message: Seq<char>,
) -> Seq<FsStep> {
    let line = commit_entry(parent_name, child, repo.config@.0, repo.config@.1, timestamp, message);
    let branch_log = join(repo.logs@, branch_below_gitdir(repo.current_branch@, repo.gitdir@));
    let first = seq![FsStep::AppendFile(repo.log_head@, line)];
    let with_dir = match parent(branch_log) {
        Some(d) => first.push(FsStep::CreateDirAllIfMissing(d)),
        None => first,
    };
    with_dir.push(FsStep::AppendFile(branch_log, line))
}

/// The entry that reading back a formatted commit gives.
pub open spec fn read_back(c: CommitFields) -> (Seq<char>, u64, Seq<char>) {
    (c.child, 0, decimal(c.timestamp as nat))
}

impl LogOps {
    /// The log line of a commit.
    pub fn format_commit_entry(
        child: &str,
        parent: &str,
        author: &str,
        author_emai: &str,
        timestamp: u64,
        message: &str,
    ) -> (res: String)
        ensures
            res@ == commit_entry(child@, parent@, author@, author_emai@, timestamp, message@),
    {
        let mut out: Vec<char> = Vec::new();
        push_str(&mut out, child);
        out.push('\t');
        push_str(&mut out, parent);
        out.push('\t');
        push_str(&mut out, author);
        out.push('<');
        push_str(&mut out, author_emai);
        out.push('>');
        out.push('\t');
        let ts = decimal_chars(timestamp);
        push_chars(&mut out, &ts);
        out.push('\t');
        push_str(&mut out, message);
        out.push('\t');
        out.push('c');
        out.push('o');
        out.push('m');
        out.push('m');
        out.push('i');
        out.push('t');
        out.push('\n');
        assert(out@ =~= commit_entry(child@, parent@, author@, author_emai@, timestamp, message@));
        string_of(&out)
    }

    /// Records a commit on top of `parent`: its name is the lower-case
    /// hexadecimal SHA-1 digest of the commit's text (see `hash_input`), and
    /// the changes add its line to the logs. Returns the name and the
    /// changes.
    pub fn write_commit_log(
        parent: String,
        timestamp: u64,
        message: String,
        repo: &Repository,
    ) -> (res: (String, Vec<FsAction>))
        ensures
            res.0@ == hex_lower(
                sha1_of_text(
                    hash_input(parent@, repo.config@.0, repo.config@.1, timestamp, message@),
                ),
            ),
            res.0@.len() == 40,
            steps_of(res.1@) == commit_log_steps(*repo, parent@, res.0@, timestamp, message@),
    {
        let mut text: Vec<char> = Vec::new();
        let author = match repo.config.get_user_name() {
            Ok(a) => a,
            Err(_) => "",
        };
        let email = match repo.config.get_user_email() {
            Ok(e) => e,
            Err(_) => "",
        };
        push_str(&mut text, parent.as_str());
        text.push('\t');
        push_str(&mut text, author);
        text.push('<');
        push_str(&mut text, email);
        text.push('>');
        text.push('\t');
        let ts = decimal_chars(timestamp);
        push_chars(&mut text, &ts);
        text.push('\t');
        push_str(&mut text, message.as_str());
        text.push('\t');
        text.push('c');
        text.push('o');
        text.push('m');
        text.push('m');
        text.push('i');
        text.push('t');
        text.push('\n');
        assert(text@ =~= hash_input(parent@, repo.config@.0, repo.config@.1, timestamp, message@));
        let hashed = string_of(&text);
        let digest = sha1_digest(hashed.as_str());
        Self::record_commit(parent, timestamp, message, repo, &digest)
    }

    /// Records a commit on top of `parent` whose digest is `digest`: its
    /// name is the digest in lower-case hexadecimal, and the changes add its
    /// line to the logs. Returns the name and the changes.
    pub fn record_commit(
        parent: String,
        timestamp: u64,
        message: String,
        repo: &Repository,
        digest: &Vec<u8>,
    ) -> (res: (String, Vec<FsAction>))
        ensures
            res.0@ == hex_lower(digest@),
            res.0@.len() == 2 * digest@.len(),
            steps_of(res.1@) == commit_log_steps(*repo, parent@, res.0@, timestamp, message@),
    {
        let author = match repo.config.get_user_name() {
            Ok(a) => a,
            Err(_) => "",
        };
        let author_email = match repo.config.get_user_email() {
            Ok(e) => e,
            Err(_) => "",
        };
        let hex = hex_lower_chars(digest);
        proof {
            lemma_hex_lower_len(digest@);
        }
        let child = string_of(&hex);
        let content = Self::format_commit_entry(
            parent.as_str(),
            child.as_str(),
            author,
            author_email,
            timestamp,
            message.as_str(),
        );
        let branch = match strip_base_path(repo.current_branch.as_str(), repo.gitdir.as_str()) {
            Some(b) => b,
            None => "refs/heads/".to_owned(),
        };
        let branch_log_path = join_path(repo.logs.as_str(), branch.as_str());
        let mut acts: Vec<FsAction> = Vec::new();
        acts.push(FsAction::AppendFile(repo.log_head.clone(), content.clone()));
        let ghost first = steps_of(acts@);
        match parent_path(branch_log_path.as_str()) {
            Some(dir) => {
                acts.push(FsAction::CreateDirAllIfMissing(dir));
                assert(steps_of(acts@) =~= first.push(acts@.last()@));
            },
            None => {},
        }
        let ghost mid = steps_of(acts@);
        acts.push(FsAction::AppendFile(branch_log_path, content));
        assert(steps_of(acts@) =~= mid.push(acts@.last()@));
        assert(steps_of(acts@) =~= commit_log_steps(*repo, parent@, child@, timestamp, message@));
        (child, acts)
    }

    /// The local date of the moment `timestamp` seconds after the Unix epoch
    /// (the timestamp read as an `i64`), such as `Jan  1 1970`: the date text
    /// of a day within a day of the moment's UTC date, as the machine's time
    /// zone places it.
    pub fn format_timestamp(timestamp: u64) -> (res: String)
        requires
            chrono_in_range(timestamp as i64),
        ensures
            exists|day: int|
                day_near((timestamp as i64) as int, day) && res@ == #[trigger] date_text(day),
    {
        match local_date(timestamp as i64) {
            Some(d) => d,
            None => {
                assert(false);
                String::new()
            },
        }
    }

    /// The change that adds `action` to the main log.
    pub fn write_action_log(action: &str, repo: &Repository) -> (res: FsAction)
        ensures
            res@ == FsStep::AppendFile(repo.log_head@, action@),
    {
        FsAction::AppendFile(repo.log_head.clone(), action.to_owned())
    }

    /// The entry a log line holds, if any.
    pub fn parse_log_line(line: &str) -> (res: Option<LogEntry>)
        ensures
            match res {
                Some(e) => parse_line(line@) == Some(e@),
                None => parse_line(line@) is None,
            },
    {
        let cs = chars_of(line);
        Self::parse_line_chars(&cs)
    }

    /// The entry a log line, given as characters, holds, if any.
    fn parse_line_chars(cs: &Vec<char>) -> (res: Option<LogEntry>)
        ensures
            match res {
                Some(e) => parse_line(cs@) == Some(e@),
                None => parse_line(cs@) is None,
            },
    {
        if cs.len() == 0 {
            return None;
        }
        let parts = split_chars(cs, '\t');
        assert(seqs_of(parts@).len() == parts@.len());
        if parts.len() >= 4 {
            assert(parts@[0]@ == seqs_of(parts@)[0]);
            assert(parts@[2]@ == seqs_of(parts@)[2]);
            assert(parts@[3]@ == seqs_of(parts@)[3]);
            let timestamp = match parse_u64_chars(&parts[2]) {
                Some(v) => v,
                None => 0,
            };
            Some(
                LogEntry {
                    snapshot: string_of(&parts[0]),
                    timestamp,
                    message: string_of(&parts[3]),
                },
            )
        } else {
            None
        }
    }

    /// The entries of a log, one per line that holds one, in order.
    pub fn read_log_entries(content: &str) -> (res: Vec<LogEntry>)
        ensures
            entries_view(res@) == entries_of(lines_of(content@)),
    {
        let cs = chars_of(content);
        let lines = lines_chars(&cs);
        let ghost ls = lines_of(cs@);
        let mut res: Vec<LogEntry> = Vec::new();
        let mut i: usize = 0;
        while i < lines.len()
            invariant
                i <= lines.len(),
                seqs_of(lines@) == ls,
                entries_view(res@) == entries_of(ls.take(i as int)),
            decreases lines.len() - i,
        {
            assert(lines@[i as int]@ == ls[i as int]);
            assert(ls.take(i + 1).drop_last() =~= ls.take(i as int));
            assert(ls.take(i + 1).last() == ls[i as int]);
            let ghost prev = entries_view(res@);
            match Self::parse_line_chars(&lines[i]) {
                Some(e) => {
                    res.push(e);
                    assert(entries_view(res@) =~= prev.push(res@.last()@));
                },
                None => {},
            }
            i = i + 1;
        }
        assert(ls.take(lines@.len() as int) =~= ls);
        res
    }
}

// ---------------------------------------------------------------------------
// The log read back
// ---------------------------------------------------------------------------

/// Decimal text is made of digits.
proof fn lemma_decimal_digits(n: nat)
    ensures
        all_digits(decimal(n)),
        decimal(n).len() > 0,
    decreases n,
{
    if n >= 10 {
        lemma_decimal_digits(n / 10);
        let d = decimal(n / 10);
        assert forall|i: int| 0 <= i < d.push(crate::text::digit_char(n % 10)).len() implies is_digit(
            #[trigger] d.push(crate::text::digit_char(n % 10))[i],
        ) by {
            if i < d.len() {
                assert(d.push(crate::text::digit_char(n % 10))[i] == d[i]);
            }
        }
    }
}

/// A sequence that holds no tab and no line break when each part does not.
proof fn lemma_no_char_concat(a: Seq<char>, b: Seq<char>, c: char)
    requires
        !a.contains(c),
        !b.contains(c),
    ensures
        !(a + b).contains(c),
{
    if (a + b).contains(c) {
        let k = choose|k: int| 0 <= k < (a + b).len() && (a + b)[k] == c;
        if k < a.len() {
            assert(a[k] == c);
        } else {
            assert(b[k - a.len()] == c);
        }
    }
}

/// Digits are neither tabs nor line breaks.
proof fn lemma_digits_plain(d: Seq<char>)
    requires
        all_digits(d),
    ensures
        plain_field(d),
{
    if d.contains('\t') {
        let k = choose|k: int| 0 <= k < d.len() && d[k] == '\t';
        assert(is_digit(d[k]));
    }
    if d.contains('\n') {
        let k = choose|k: int| 0 <= k < d.len() && d[k] == '\n';
        assert(is_digit(d[k]));
    }
}

/// A field holding `<` is no number.
proof fn lemma_angle_not_number(a: Seq<char>, e: Seq<char>)
    ensures
        parse_u64(a + seq!['<'] + e + seq!['>']) is None,
{
    let s = a + seq!['<'] + e + seq!['>'];
    let d = unsigned_digits(s);
    if d.len() > 0 && all_digits(d) {
        if s.len() > 0 && s[0] == '+' {
            assert(d[a.len() - 1] == s[a.len() as int]);
            assert(is_digit(d[a.len() - 1]));
        } else {
            assert(d[a.len() as int] == '<');
            assert(is_digit(d[a.len() as int]));
        }
    }
}

/// The line of a commit, without its line break, splits into its six
/// fields.
proof fn lemma_entry_fields(c: CommitFields)
    requires
        plain_field(c.child),
        plain_field(c.parent),
        plain_field(c.author),
        plain_field(c.email),
        plain_field(c.message),
    ensures
        ({
            let ae = c.author + seq!['<'] + c.email + seq!['>'];
            let line = c.child + seq!['\t'] + c.parent + seq!['\t'] + ae + seq!['\t'] + decimal(
                c.timestamp as nat,
            ) + seq!['\t'] + c.message + seq!['\t'] + seq!['c', 'o', 'm', 'm', 'i', 't'];
            split_on(line, '\t') == seq![
                c.child,
                c.parent,
                ae,
                decimal(c.timestamp as nat),
                c.message,
                seq!['c', 'o', 'm', 'm', 'i', 't'],
            ]
        }),
{
    let ae = c.author + seq!['<'] + c.email + seq!['>'];
    let dec = decimal(c.timestamp as nat);
    let word = seq!['c', 'o', 'm', 'm', 'i', 't'];
    lemma_decimal_digits(c.timestamp as nat);
    lemma_digits_plain(dec);
    assert(!seq!['<'].contains('\t')) by {
        if seq!['<'].contains('\t') {
            assert(seq!['<'][0] == '<');
        }
    }
    assert(!seq!['>'].contains('\t')) by {
        if seq!['>'].contains('\t') {
            assert(seq!['>'][0] == '>');
        }
    }
    lemma_no_char_concat(c.author, seq!['<'], '\t');
    lemma_no_char_concat(c.author + seq!['<'], c.email, '\t');
    lemma_no_char_concat(c.author + seq!['<'] + c.email, seq!['>'], '\t');
    assert(!word.contains('\t')) by {
        if word.contains('\t') {
            let k = choose|k: int| 0 <= k < word.len() && word[k] == '\t';
            assert(word[k] != '\t');
        }
    }
    lemma_split_free(c.child, '\t');
    lemma_split_free(c.parent, '\t');
    lemma_split_free(ae, '\t');
    lemma_split_free(dec, '\t');
    lemma_split_free(c.message, '\t');
    lemma_split_free(word, '\t');
    let s5 = c.message + seq!['\t'] + word;
    lemma_split_concat(c.message, word, '\t');
    let s4 = dec + seq!['\t'] + s5;
    lemma_split_concat(dec, s5, '\t');
    let s3 = ae + seq!['\t'] + s4;
    lemma_split_concat(ae, s4, '\t');
    let s2 = c.parent + seq!['\t'] + s3;
    lemma_split_concat(c.parent, s3, '\t');
    let s1 = c.child + seq!['\t'] + s2;
    lemma_split_concat(c.child, s2, '\t');
    let line = c.child + seq!['\t'] + c.parent + seq!['\t'] + ae + seq!['\t'] + dec + seq!['\t']
        + c.message + seq!['\t'] + word;
    assert(line =~= s1);
    assert(split_on(s1, '\t') =~= seq![c.child, c.parent, ae, dec, c.message, word]);
}

/// The lines of `a + b`, where `a` ends with a line break, are those of `a`
/// followed by those of `b`.
proof fn lemma_lines_concat(a: Seq<char>, b: Seq<char>)
    requires
        a.len() > 0,
        a.last() == '\n',
    ensures
        lines_of(a + b) == lines_of(a) + lines_of(b),
{
    let a0 = a.drop_last();
    assert(a =~= a0 + seq!['\n'] + Seq::<char>::empty());
    assert(a + b =~= a0 + seq!['\n'] + b);
    lemma_split_concat(a0, b, '\n');
    lemma_split_concat(a0, Seq::<char>::empty(), '\n');
    lemma_split_nonempty(a0, '\n');
    lemma_split_nonempty(b, '\n');
    let pa = split_on(a0, '\n');
    let pb = split_on(b, '\n');
    assert(split_on(Seq::<char>::empty(), '\n') =~= seq![Seq::<char>::empty()]);
    let p = pa + pb;
    assert(p.drop_last() =~= pa + pb.drop_last());
    assert(p.last() == pb.last());
    assert(p.drop_last().map_values(|l: Seq<char>| strip_cr(l)) =~= pa.map_values(
        |l: Seq<char>| strip_cr(l),
    ) + pb.drop_last().map_values(|l: Seq<char>| strip_cr(l)));
    let q = pa + seq![Seq::<char>::empty()];
    assert(q.drop_last() =~= pa);
    assert(q.last() == Seq::<char>::empty());
}

/// The entries of two runs of lines are those of the first followed by
/// those of the second.
proof fn lemma_entries_concat(l1: Seq<Seq<char>>, l2: Seq<Seq<char>>)
    ensures
        entries_of(l1 + l2) == entries_of(l1) + entries_of(l2),
    decreases l2.len(),
{
    if l2.len() == 0 {
        assert(l1 + l2 =~= l1);
        assert(entries_of(l1) + entries_of(l2) =~= entries_of(l1));
    } else {
        lemma_entries_concat(l1, l2.drop_last());
        assert((l1 + l2).drop_last() =~= l1 + l2.drop_last());
        assert((l1 + l2).last() == l2.last());
        match parse_line(l2.last()) {
            Some(e) => {
                assert((entries_of(l1) + entries_of(l2.drop_last())).push(e) =~= entries_of(l1)
                    + entries_of(l2.drop_last()).push(e));
            },
            None => {},
        }
    }
}

/// One formatted commit reads back as one entry.
proof fn lemma_entry_read_back(c: CommitFields)
    requires
        plain_field(c.child),
        plain_field(c.parent),
        plain_field(c.author),
        plain_field(c.email),
        plain_field(c.message),
    ensures
        entries_of(
            lines_of(commit_entry(c.child, c.parent, c.author, c.email, c.timestamp, c.message)),
        ) == seq![read_back(c)],
{
    let ae = c.author + seq!['<'] + c.email + seq!['>'];
    let dec = decimal(c.timestamp as nat);
    let word = seq!['c', 'o', 'm', 'm', 'i', 't'];
    let line = c.child + seq!['\t'] + c.parent + seq!['\t'] + ae + seq!['\t'] + dec + seq!['\t']
        + c.message + seq!['\t'] + word;
    let text = commit_entry(c.child, c.parent, c.author, c.email, c.timestamp, c.message);
    assert(text =~= line + seq!['\n'] + Seq::<char>::empty());
    lemma_entry_fields(c);
    // The line holds no line break.
    lemma_decimal_digits(c.timestamp as nat);
    lemma_digits_plain(dec);
    let tab = seq!['\t'];
    lemma_single_free('\t', '\n');
    lemma_single_free('<', '\n');
    lemma_single_free('>', '\n');
    assert(!word.contains('\n')) by {
        if word.contains('\n') {
            let k = choose|k: int| 0 <= k < word.len() && word[k] == '\n';
            assert(word[k] != '\n');
        }
    }
    lemma_no_char_concat(c.author, seq!['<'], '\n');
    lemma_no_char_concat(c.author + seq!['<'], c.email, '\n');
    lemma_no_char_concat(c.author + seq!['<'] + c.email, seq!['>'], '\n');
    lemma_no_char_concat(c.child, tab, '\n');
    lemma_no_char_concat(c.child + tab, c.parent, '\n');
    lemma_no_char_concat(c.child + tab + c.parent, tab, '\n');
    lemma_no_char_concat(c.child + tab + c.parent + tab, ae, '\n');
    lemma_no_char_concat(c.child + tab + c.parent + tab + ae, tab, '\n');
    lemma_no_char_concat(c.child + tab + c.parent + tab + ae + tab, dec, '\n');
    lemma_no_char_concat(c.child + tab + c.parent + tab + ae + tab + dec, tab, '\n');
    lemma_no_char_concat(c.child + tab + c.parent + tab + ae + tab + dec + tab, c.message, '\n');
    lemma_no_char_concat(c.child + tab + c.parent + tab + ae + tab + dec + tab + c.message, tab, '\n');
    lemma_no_char_concat(
        c.child + tab + c.parent + tab + ae + tab + dec + tab + c.message + tab,
        word,
        '\n',
    );
    lemma_split_free(line, '\n');
    lemma_split_concat(line, Seq::<char>::empty(), '\n');
    assert(split_on(Seq::<char>::empty(), '\n') =~= seq![Seq::<char>::empty()]);
    let p = split_on(text, '\n');
    assert(p =~= seq![line, Seq::<char>::empty()]);
    assert(line.last() == 't');
    assert(strip_cr(line) == line);
    assert(p.drop_last().map_values(|l: Seq<char>| strip_cr(l)) =~= seq![line]);
    assert(lines_of(text) =~= seq![line]);
    lemma_angle_not_number(c.author, c.email);
    assert(seq![line].drop_last() =~= Seq::<Seq<char>>::empty());
    assert(parse_line(line) == Some(read_back(c)));
    assert(seq![line].last() == line);
    assert(entries_of(Seq::<Seq<char>>::empty()) =~= Seq::<(Seq<char>, u64, Seq<char>)>::empty());
    assert(entries_of(seq![line]) =~= seq![read_back(c)]);
}

/// Reading back a log written as formatted commits, whose fields hold no
/// tab and no line break, gives one entry per commit, in order: its
/// snapshot is the commit's first field (the `child` argument of
/// `format_commit_entry`), its message the decimal timestamp, and its
/// timestamp 0, since the third field is the `author<email>` field.
pub proof fn law_log_read_back(commits: Seq<CommitFields>)
    requires
        forall|i: int|
            0 <= i < commits.len() ==> {
                let c = #[trigger] commits[i];
                &&& plain_field(c.child)
                &&& plain_field(c.parent)
                &&& plain_field(c.author)
                &&& plain_field(c.email)
                &&& plain_field(c.message)
            },
    ensures
        entries_of(lines_of(log_text(commits))) == commits.map_values(
            |c: CommitFields| read_back(c),
        ),
    decreases commits.len(),
{
    if commits.len() == 0 {
        assert(log_text(commits) =~= Seq::<char>::empty());
        lemma_split_nonempty(Seq::<char>::empty(), '\n');
        assert(split_on(Seq::<char>::empty(), '\n') =~= seq![Seq::<char>::empty()]);
        assert(lines_of(Seq::<char>::empty()) =~= Seq::<Seq<char>>::empty());
        assert(commits.map_values(|c: CommitFields| read_back(c)) =~= Seq::<
            (Seq<char>, u64, Seq<char>),
        >::empty());
    } else {
        let init = commits.drop_last();
        let c = commits.last();
        assert forall|i: int| 0 <= i < init.len() implies {
            let d = #[trigger] init[i];
            &&& plain_field(d.child)
            &&& plain_field(d.parent)
            &&& plain_field(d.author)
            &&& plain_field(d.email)
            &&& plain_field(d.message)
        } by {
            assert(init[i] == commits[i]);
        }
        law_log_read_back(init);
        assert(commits[commits.len() - 1] == c);
        lemma_entry_read_back(c);
        let front = log_text(init);
        let back = commit_entry(c.child, c.parent, c.author, c.email, c.timestamp, c.message);
        if front.len() == 0 {
            assert(front + back =~= back);
            lemma_split_nonempty(Seq::<char>::empty(), '\n');
            assert(split_on(Seq::<char>::empty(), '\n') =~= seq![Seq::<char>::empty()]);
            assert(lines_of(front) =~= Seq::<Seq<char>>::empty());
            assert(entries_of(lines_of(front)) =~= Seq::<(Seq<char>, u64, Seq<char>)>::empty());
        } else {
            lemma_log_text_ends_in_newline(init);
            lemma_lines_concat(front, back);
            lemma_entries_concat(lines_of(front), lines_of(back));
        }
        assert(commits.map_values(|c: CommitFields| read_back(c)) =~= init.map_values(
            |c: CommitFields| read_back(c),
        ).push(read_back(c)));
    }
}

/// A non-empty log ends with a line break.
proof fn lemma_log_text_ends_in_newline(commits: Seq<CommitFields>)
    ensures
        log_text(commits).len() > 0 ==> log_text(commits).last() == '\n',
{
    if commits.len() > 0 {
        let c = commits.last();
        let back = commit_entry(c.child, c.parent, c.author, c.email, c.timestamp, c.message);
        assert((log_text(commits.drop_last()) + back).last() == back.last());
    }
}

/// The name of a commit is forty lower-case hexadecimal digits: a SHA-1
/// digest has twenty bytes and each byte gives two digits.
pub proof fn law_commit_name_is_hex(digest: Seq<u8>)
    requires
        digest.len() == 20,
    ensures
        hex_lower(digest).len() == 40,
        forall|i: int| 0 <= i < 40 ==> is_lower_hex(#[trigger] hex_lower(digest)[i]),
{
    lemma_hex_lower_len(digest);
    lemma_hex_lower_digits(digest);
}

/// A one-character sequence holds no other character.
proof fn lemma_single_free(a: char, c: char)
    requires
        a != c,
    ensures
        !seq![a].contains(c),
{
    if seq![a].contains(c) {
        let k = choose|k: int| 0 <= k < seq![a].len() && seq![a][k] == c;
        assert(seq![a][k] == a);
    }
}

/// The decimal text of a number reads back as that number.
proof fn lemma_decimal_value(n: nat)
    ensures
        digits_value(decimal(n)) == n,
    decreases n,
{
    let d = decimal(n);
    let c = crate::text::digit_char(n % 10);
    assert(crate::text::digit_value(c) == n % 10);
    lemma_decimal_digits(n);
    assert(digits_value(d) == digits_value(d.drop_last()) * 10 + crate::text::digit_value(d.last()));
    if n >= 10 {
        lemma_decimal_value(n / 10);
        assert(d.drop_last() =~= decimal(n / 10));
        assert(d.last() == c);
        assert((n / 10) * 10 + n % 10 == n);
    } else {
        assert(d.drop_last() =~= Seq::<char>::empty());
        assert(d.last() == c);
    }
}

/// `u64::from_str` reads the decimal text of a `u64` back.
proof fn lemma_decimal_parses(t: u64)
    ensures
        parse_u64(decimal(t as nat)) == Some(t),
{
    let d = decimal(t as nat);
    lemma_decimal_digits(t as nat);
    lemma_decimal_value(t as nat);
    assert(is_digit(d[0]));
    assert(unsigned_digits(d) == d);
}

/// The fields of a commit in the plain log format.
pub struct PlainCommit {
    pub child: Seq<char>,
    pub parent: Seq<char>,
    pub timestamp: u64,
    pub message: Seq<char>,
}

/// The plain-format log holding the given commits, one line each, in
/// order.
pub open spec fn plain_log_text(commits: Seq<PlainCommit>) -> Seq<char>
    decreases commits.len(),
{
    if commits.len() == 0 {
        Seq::empty()
    } else {
        let c = commits.last();
        plain_log_text(commits.drop_last()) + plain_commit_line(
            c.child,
            c.parent,
            c.timestamp,
            c.message,
        )
    }
}

/// One plain-format commit line reads back as its child, timestamp and
/// message.
proof fn lemma_plain_entry_read_back(c: PlainCommit)
    requires
        plain_field(c.child),
        plain_field(c.parent),
        plain_field(c.message),
    ensures
        entries_of(lines_of(plain_commit_line(c.child, c.parent, c.timestamp, c.message))) == seq![
            (c.child, c.timestamp, c.message),
        ],
{
    let dec = decimal(c.timestamp as nat);
    let word = seq!['c', 'o', 'm', 'm', 'i', 't'];
    let tab = seq!['\t'];
    let line = c.child + tab + c.parent + tab + dec + tab + c.message + tab + word;
    let text = plain_commit_line(c.child, c.parent, c.timestamp, c.message);
    assert(text =~= line + seq!['\n'] + Seq::<char>::empty());
    lemma_decimal_digits(c.timestamp as nat);
    lemma_digits_plain(dec);
    // The fields split apart at the tabs.
    assert(!word.contains('\t') && !word.contains('\n')) by {
        if word.contains('\t') || word.contains('\n') {
            let k = choose|k: int|
                0 <= k < word.len() && (word[k] == '\t' || word[k] == '\n');
            assert(word[k] != '\t' && word[k] != '\n');
        }
    }
    lemma_split_free(c.child, '\t');
    lemma_split_free(c.parent, '\t');
    lemma_split_free(dec, '\t');
    lemma_split_free(c.message, '\t');
    lemma_split_free(word, '\t');
    let s4 = c.message + tab + word;
    lemma_split_concat(c.message, word, '\t');
    let s3 = dec + tab + s4;
    lemma_split_concat(dec, s4, '\t');
    let s2 = c.parent + tab + s3;
    lemma_split_concat(c.parent, s3, '\t');
    let s1 = c.child + tab + s2;
    lemma_split_concat(c.child, s2, '\t');
    assert(line =~= s1);
    assert(split_on(line, '\t') =~= seq![c.child, c.parent, dec, c.message, word]);
    // The line holds no line break.
    lemma_single_free('\t', '\n');
    lemma_no_char_concat(c.child, tab, '\n');
    lemma_no_char_concat(c.child + tab, c.parent, '\n');
    lemma_no_char_concat(c.child + tab + c.parent, tab, '\n');
    lemma_no_char_concat(c.child + tab + c.parent + tab, dec, '\n');
    lemma_no_char_concat(c.child + tab + c.parent + tab + dec, tab, '\n');
    lemma_no_char_concat(c.child + tab + c.parent + tab + dec + tab, c.message, '\n');
    lemma_no_char_concat(c.child + tab + c.parent + tab + dec + tab + c.message, tab, '\n');
    lemma_no_char_concat(c.child + tab + c.parent + tab + dec + tab + c.message + tab, word, '\n');
    lemma_split_free(line, '\n');
    lemma_split_concat(line, Seq::<char>::empty(), '\n');
    assert(split_on(Seq::<char>::empty(), '\n') =~= seq![Seq::<char>::empty()]);
    let p = split_on(text, '\n');
    assert(p =~= seq![line, Seq::<char>::empty()]);
    assert(line.last() == 't');
    assert(strip_cr(line) == line);
    assert(p.drop_last().map_values(|l: Seq<char>| strip_cr(l)) =~= seq![line]);
    assert(lines_of(text) =~= seq![line]);
    lemma_decimal_parses(c.timestamp);
    assert(parse_line(line) == Some((c.child, c.timestamp, c.message)));
    assert(seq![line].drop_last() =~= Seq::<Seq<char>>::empty());
    assert(seq![line].last() == line);
    assert(entries_of(Seq::<Seq<char>>::empty()) =~= Seq::<(Seq<char>, u64, Seq<char>)>::empty());
    assert(entries_of(seq![line]) =~= seq![(c.child, c.timestamp, c.message)]);
}

/// A non-empty plain-format log ends with a line break.
proof fn lemma_plain_log_ends_in_newline(commits: Seq<PlainCommit>)
    ensures
        plain_log_text(commits).len() > 0 ==> plain_log_text(commits).last() == '\n',
{
    if commits.len() > 0 {
        let c = commits.last();
        let back = plain_commit_line(c.child, c.parent, c.timestamp, c.message);
        assert((plain_log_text(commits.drop_last()) + back).last() == back.last());
    }
}

/// A log made of the lines that `Utils::write_commit` records, whose
/// fields hold no tab and no line break, reads back as one entry per
/// commit, in order, holding the commit's child, timestamp and message.
pub proof fn law_plain_log_read_back(commits: Seq<PlainCommit>)
    requires
        forall|i: int|
            0 <= i < commits.len() ==> {
                let c = #[trigger] commits[i];
                &&& plain_field(c.child)
                &&& plain_field(c.parent)
                &&& plain_field(c.message)
            },
    ensures
        entries_of(lines_of(plain_log_text(commits))) == commits.map_values(
            |c: PlainCommit| (c.child, c.timestamp, c.message),
        ),
    decreases commits.len(),
{
    if commits.len() == 0 {
        assert(plain_log_text(commits) =~= Seq::<char>::empty());
        lemma_split_nonempty(Seq::<char>::empty(), '\n');
        assert(split_on(Seq::<char>::empty(), '\n') =~= seq![Seq::<char>::empty()]);
        assert(lines_of(Seq::<char>::empty()) =~= Seq::<Seq<char>>::empty());
        assert(commits.map_values(|c: PlainCommit| (c.child, c.timestamp, c.message)) =~= Seq::<
            (Seq<char>, u64, Seq<char>),
        >::empty());
    } else {
        let init = commits.drop_last();
        let c = commits.last();
        assert forall|i: int| 0 <= i < init.len() implies {
            let d = #[trigger] init[i];
            &&& plain_field(d.child)
            &&& plain_field(d.parent)
            &&& plain_field(d.message)
        } by {
            assert(init[i] == commits[i]);
        }
        law_plain_log_read_back(init);
        assert(commits[commits.len() - 1] == c);
        lemma_plain_entry_read_back(c);
        let front = plain_log_text(init);
        let back = plain_commit_line(c.child, c.parent, c.timestamp, c.message);
        if front.len() == 0 {
            assert(front + back =~= back);
            lemma_split_nonempty(Seq::<char>::empty(), '\n');
            assert(split_on(Seq::<char>::empty(), '\n') =~= seq![Seq::<char>::empty()]);
            assert(lines_of(front) =~= Seq::<Seq<char>>::empty());
            assert(entries_of(lines_of(front)) =~= Seq::<(Seq<char>, u64, Seq<char>)>::empty());
        } else {
            lemma_plain_log_ends_in_newline(init);
            lemma_lines_concat(front, back);
            lemma_entries_concat(lines_of(front), lines_of(back));
        }
        assert(commits.map_values(|c: PlainCommit| (c.child, c.timestamp, c.message)) =~= init.map_values(
            |c: PlainCommit| (c.child, c.timestamp, c.message),
        ).push((c.child, c.timestamp, c.message)));
    }
}

/// The text whose digest names a commit is, character by character, the
/// parent, a tab, the author, `<`, the e-mail address, `>`, a tab, the
/// timestamp's full decimal digits, a tab, the message, a tab, the word
/// `commit` and a line break.
pub proof fn law_hash_input_text(
    parent: Seq<char>,
    author: Seq<char>,
    email: Seq<char>,
    timestamp: u64,
    message: Seq<char>,
)
    ensures
        hash_input(parent, author, email, timestamp, message) == parent + seq!['\t'] + author
            + seq!['<'] + email + seq!['>'] + seq!['\t'] + decimal(timestamp as nat) + seq!['\t']
            + message + seq!['\t'] + seq!['c', 'o', 'm', 'm', 'i', 't'] + seq!['\n'],
        parse_u64(decimal(timestamp as nat)) == Some(timestamp),
{
    assert(hash_input(parent, author, email, timestamp, message) =~= parent + seq!['\t'] + author
        + seq!['<'] + email + seq!['>'] + seq!['\t'] + decimal(timestamp as nat) + seq!['\t']
        + message + seq!['\t'] + seq!['c', 'o', 'm', 'm', 'i', 't'] + seq!['\n']);
    lemma_decimal_parses(timestamp);
}

/// Two commits that differ only in their timestamps hash different texts.
pub proof fn law_hash_input_tells_timestamps_apart(
    parent: Seq<char>,
    author: Seq<char>,
    email: Seq<char>,
    t1: u64,
    t2: u64,
    message: Seq<char>,
)
    requires
        t1 != t2,
    ensures
        hash_input(parent, author, email, t1, message) != hash_input(
            parent,
            author,
            email,
            t2,
            message,
        ),
{
    law_hash_input_text(parent, author, email, t1, message);
    law_hash_input_text(parent, author, email, t2, message);
    let h1 = hash_input(parent, author, email, t1, message);
    let h2 = hash_input(parent, author, email, t2, message);
    let d1 = decimal(t1 as nat);
    let d2 = decimal(t2 as nat);
    let pre = parent + seq!['\t'] + author + seq!['<'] + email + seq!['>'] + seq!['\t'];
    let post = seq!['\t'] + message + seq!['\t'] + seq!['c', 'o', 'm', 'm', 'i', 't'] + seq!['\n'];
    if h1 == h2 {
        assert(h1 =~= pre + d1 + post);
        assert(h2 =~= pre + d2 + post);
        assert(d1.len() == d2.len());
        assert(h1.subrange(pre.len() as int, (pre.len() + d1.len()) as int) =~= d1);
        assert(h2.subrange(pre.len() as int, (pre.len() + d2.len()) as int) =~= d2);
        assert(d1 == d2);
    }
}

} // verus!
