use rgit_lib::commands::init::InitOps;
use rgit_lib::commands::ref_ops::RefOps;
use rgit_lib::commands::log_ops::LogOps;
use rgit_lib::commands::{FsAction, LayoutStatus, Repository};
use rgit_lib::support::utils::Utils;
use std::collections::{HashMap, HashSet};

#[derive(Clone, PartialEq, Debug, Default)]
struct Fs {
    dirs: HashSet<String>,
    files: HashMap<String, String>,
}

impl Fs {
    fn has(&self, p: &str) -> bool {
        self.dirs.contains(p) || self.files.contains_key(p)
    }

    fn apply(&mut self, act: &FsAction) {
        match act {
            FsAction::CreateDir(p) => {
                self.dirs.insert(p.clone());
            }
            FsAction::CreateDirIfMissing(p) | FsAction::CreateDirAllIfMissing(p) | FsAction::CreateDirAll(p) => {
                if !self.has(p) {
                    self.dirs.insert(p.clone());
                }
            }
            FsAction::WriteFile(p, t) => {
                self.files.insert(p.clone(), t.clone());
            }
            FsAction::AppendFile(p, t) => {
                let before = self.files.get(p).cloned().unwrap_or_default();
                self.files.insert(p.clone(), before + t);
            }
            FsAction::CopyDir(_, to) => {
                if !self.has(to) {
                    self.dirs.insert(to.clone());
                }
            }
        }
    }

    fn status(&self, repo: &Repository) -> LayoutStatus {
        LayoutStatus {
            gitdir: self.has(&repo.gitdir),
            objects: self.has(&repo.objects),
            head_file: self.has(&repo.head_file),
            log_head: self.has(&repo.log_head),
            branches: self.has(&repo.branches),
        }
    }
}

#[test]
fn init_repo_layout_passes_the_check_and_again_changes_nothing() {
    let mut repo = Repository::new("/w".to_string());
    let mut fs = Fs::default();
    let (first, rest) = InitOps::init_repo(&repo);
    for a in &first {
        fs.apply(a);
    }
    InitOps::select_default_branch(&mut repo);
    assert_eq!(repo.current_branch, "/w/.rgit/refs/heads/master");
    for a in &rest {
        fs.apply(a);
    }
    let status = fs.status(&repo);
    assert!(InitOps::validate_repo_structure(&status).is_ok());
    assert!(InitOps::repo_exists(&status));
    assert_eq!(fs.files[&repo.head_file], "/w/.rgit/refs/heads/master");
    assert_eq!(fs.files[&repo.log_head], "");
    let once = fs.clone();
    let (first, rest) = InitOps::init_repo(&repo);
    for a in first.iter().chain(rest.iter()) {
        fs.apply(a);
    }
    assert_eq!(fs, once);
}

#[test]
fn find_succeeds_after_init() {
    let mut repo = Repository::new("/w".to_string());
    let mut fs = Fs::default();
    let missing = Err(std::io::Error::new(std::io::ErrorKind::NotFound, "HEAD"));
    let (first, rest) = repo.init(&fs.status(&repo), missing).unwrap();
    assert_eq!(repo.current_branch, "");
    for a in &first {
        fs.apply(a);
    }
    let head = fs.files[&repo.head_file].clone();
    assert_eq!(head, "/w/.rgit/refs/heads/master");
    RefOps::read_current_branch(&mut repo, Ok(head.clone())).unwrap();
    assert_eq!(repo.current_branch, head);
    for a in &rest {
        fs.apply(a);
    }
    assert_eq!(fs.files[&repo.log_head], "");
    let mut again = Repository::new("/w".to_string());
    assert!(again.find(&fs.status(&again), Ok(head.clone())).is_ok());
    assert_eq!(again.current_branch, head);
    assert!(repo.init(&fs.status(&repo), Ok(head)).is_none());
}

#[test]
fn written_head_reads_back() {
    let repo = Repository::new("/w".to_string());
    let mut fs = Fs::default();
    fs.apply(&RefOps::write_head_reference(&repo, "/w/.rgit/refs/heads/dev"));
    let mut again = Repository::new("/w".to_string());
    RefOps::read_current_branch(&mut again, Ok(fs.files[&repo.head_file].clone())).unwrap();
    assert_eq!(again.current_branch, "/w/.rgit/refs/heads/dev");
}

#[test]
fn recorded_commit_reads_back_from_the_main_log() {
    let mut repo = Repository::new("/w".to_string());
    repo.current_branch = "/w/.rgit/refs/heads/master".to_string();
    let mut fs = Fs::default();
    for a in Utils::write_commit("snap-1".to_string(), "snap-0".to_string(), 42, "first".to_string(), &repo) {
        fs.apply(&a);
    }
    let entries = LogOps::read_log_entries(&fs.files[&repo.log_head]);
    assert_eq!(entries.len(), 1);
    assert_eq!(entries[0].snapshot, "snap-1");
    assert_eq!(entries[0].timestamp, 42);
    assert_eq!(entries[0].message, "first");
}

#[test]
fn tag_changes_write_the_commit() {
    let repo = Repository::new("/w".to_string());
    let mut fs = Fs::default();
    for a in RefOps::create_tag_ref(&repo, "v1", "snap-3") {
        fs.apply(&a);
    }
    assert!(fs.has(&repo.tags));
    assert_eq!(fs.files["/w/.rgit/refs/tags/v1"], "snap-3");
}
