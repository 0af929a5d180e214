use rgit_lib::commands::config::Config;
use rgit_lib::commands::ref_ops::RefOps;
use rgit_lib::commands::{FsAction, LayoutStatus, Repository};
use rgit_lib::errors::RgitError;
use std::io;
use std::path::PathBuf;

fn setup_test_repo() -> Repository {
    let gitdir = "/tmp/work/.rgit".to_string();
    Repository {
        gitdir: gitdir.clone(),
        objects: format!("{}/objects", gitdir),
        head_file: format!("{}/HEAD", gitdir),
        log_head: format!("{}/logs/HEAD", gitdir),
        logs: format!("{}/logs/", gitdir),
        branches: format!("{}/refs/heads/", gitdir),
        tags: format!("{}/refs/tags/", gitdir),
        current_branch: format!("{}/refs/heads/master", gitdir),
        config: Config::new(),
    }
}

fn all_present() -> LayoutStatus {
    LayoutStatus { gitdir: true, objects: true, head_file: true, log_head: true, branches: true }
}

fn none_present() -> LayoutStatus {
    LayoutStatus { gitdir: false, objects: false, head_file: false, log_head: false, branches: false }
}

#[test]
fn test_repository_new() {
    let repo = Repository::new(".".to_string());
    assert_eq!(PathBuf::from(&repo.gitdir), PathBuf::from("./.rgit"));
    assert_eq!(PathBuf::from(&repo.objects), PathBuf::from("./.rgit/objects"));
    assert_eq!(PathBuf::from(&repo.head_file), PathBuf::from("./.rgit/HEAD"));
    assert_eq!(PathBuf::from(&repo.log_head), PathBuf::from("./.rgit/logs/HEAD"));
}

#[test]
fn test_repository_find_valid() {
    let mut repo = setup_test_repo();
    let head = Ok("/tmp/work/.rgit/refs/heads/master".to_string());

    let result = repo.find(&all_present(), head);
    assert!(result.is_ok());
    assert_eq!(repo.current_branch, "/tmp/work/.rgit/refs/heads/master");
}

#[test]
fn test_repository_find_invalid() {
    let mut repo = Repository::new("/tmp/empty".to_string());
    let head = Err(io::Error::new(io::ErrorKind::NotFound, "missing"));

    let result = repo.find(&none_present(), head);
    assert!(result.is_err());
    assert!(matches!(result, Err(RgitError::NotInitialized(ref s)) if s == ".rgit"));
}

#[test]
fn test_repository_commit() {
    let repo = setup_test_repo();
    // The snapshot directory holds `snap-0`.
    let acts = repo.commit(0, 1_700_000_000, "Initial commit".to_string());
    match &acts[0] {
        FsAction::CopyDir(src, dest) => {
            assert_eq!(src, "workdir");
            assert!(PathBuf::from(dest) == PathBuf::from(&repo.objects).join("snap-1"));
        }
        other => panic!("unexpected {:?}", other),
    }
    match &acts[1] {
        FsAction::AppendFile(path, line) => {
            assert_eq!(path, &repo.log_head);
            assert_eq!(line, "snap-1\tsnap-0\t1700000000\tInitial commit\tcommit\n");
        }
        other => panic!("unexpected {:?}", other),
    }
    match &acts[2] {
        FsAction::AppendFile(path, _) => {
            assert_eq!(path, "/tmp/work/.rgit/logs/refs/heads/master");
        }
        other => panic!("unexpected {:?}", other),
    }
    match &acts[3] {
        FsAction::WriteFile(path, text) => {
            assert_eq!(path, &repo.current_branch);
            assert_eq!(text, "snap-1");
        }
        other => panic!("unexpected {:?}", other),
    }
    assert_eq!(acts.len(), 4);
}

#[test]
fn test_repository_branch_already_exists() {
    let repo = setup_test_repo();

    let first = RefOps::create_branch_ref(&repo, "feature", "snap-0", false);
    assert!(first.is_ok());
    // The branch file now exists.
    let result = RefOps::create_branch_ref(&repo, "feature", "snap-0", true);

    // Should fail because feature branch already exists
    assert!(result.is_err());
    assert!(matches!(result, Err(RgitError::BranchAlreadyExists(_))));
}

#[test]
fn test_repository_checkout() {
    let repo = setup_test_repo();

    // Create a branch pointing to snap-0
    let acts = RefOps::create_branch_ref(&repo, "feature", "snap-0", false).unwrap();

    // Branch should be created successfully
    let writes_branch = acts.iter().any(|a| match a {
        FsAction::WriteFile(path, text) => {
            PathBuf::from(path) == PathBuf::from(&repo.branches).join("feature") && text == "snap-0"
        }
        _ => false,
    });
    assert!(writes_branch);
}

#[test]
fn test_repository_checkout_nonexistent_branch() {
    let repo = setup_test_repo();

    let result = RefOps::switch_branch(&repo, "nonexistent", None);
    assert!(result.is_err());
    assert!(matches!(result, Err(RgitError::BranchNotFound(_))));
}

#[test]
fn test_repository_log_empty() {
    let repo = setup_test_repo();

    // Log reads the head file, which names the current branch after setup
    let result = repo.log(Some(Ok(repo.current_branch.clone())));
    assert!(result.is_ok());
    assert!(result.unwrap().is_empty());
}

#[test]
fn test_repository_log_no_log_file() {
    let repo = setup_test_repo();

    // Log file doesn't exist
    let result = repo.log(None);
    assert!(result.is_err());
    assert!(matches!(result, Err(RgitError::MessageFileNotFound)));
}

#[test]
fn test_repository_fields_are_populated() {
    let repo = Repository::new("/tmp/some/root".to_string());

    assert!(!repo.gitdir.is_empty());
    assert!(!repo.objects.is_empty());
    assert!(!repo.head_file.is_empty());
    assert!(!repo.log_head.is_empty());
    assert!(!repo.logs.is_empty());
    assert!(!repo.branches.is_empty());
}

#[test]
fn test_repository_init_already_exists() {
    let mut repo = setup_test_repo();

    // Initializing again should detect existing repository
    let result = repo.init(&all_present(), Ok("/tmp/work/.rgit/refs/heads/master".to_string()));
    assert!(result.is_none());
}

#[test]
fn init_creates_layout_when_missing() {
    let mut repo = Repository::new(".".to_string());
    let head = Err(io::Error::new(io::ErrorKind::NotFound, "missing"));
    let (first, rest) = repo.init(&none_present(), head).unwrap();
    assert_eq!(first.len(), 5);
    assert_eq!(repo.current_branch, "");
    let acts: Vec<FsAction> = first.into_iter().chain(rest).collect();
    assert_eq!(acts.len(), 8);
    assert!(matches!(&acts[0], FsAction::CreateDir(p) if p == "./.rgit"));
    assert!(matches!(&acts[2], FsAction::CreateDir(p) if p == "./.rgit/refs/"));
    assert!(matches!(&acts[3], FsAction::CreateDir(p) if p == "./.rgit/refs/heads/"));
    assert!(
        matches!(&acts[4], FsAction::AppendFile(p, t) if p == "./.rgit/HEAD" && t == "./.rgit/refs/heads/master")
    );
    assert!(matches!(&acts[6], FsAction::CreateDirAll(p) if p == "./.rgit/logs/refs/heads"));
    assert!(matches!(&acts[7], FsAction::AppendFile(p, t) if p == "./.rgit/logs/HEAD" && t.is_empty()));
    RefOps::read_current_branch(&mut repo, Ok("./.rgit/refs/heads/master".to_string())).unwrap();
    assert_eq!(repo.current_branch, "./.rgit/refs/heads/master");
}

#[test]
fn find_reports_first_missing_part() {
    let mut repo = setup_test_repo();
    let mut status = all_present();
    status.head_file = false;
    status.log_head = false;
    let result = repo.find(&status, Ok("x".to_string()));
    assert!(matches!(result, Err(RgitError::NotInitialized(ref s)) if s == "HEAD"));
    assert_eq!(repo.current_branch, "/tmp/work/.rgit/refs/heads/master");

    let read_error = Err(io::Error::new(io::ErrorKind::PermissionDenied, "denied"));
    let result = repo.find(&all_present(), read_error);
    assert!(matches!(result, Err(RgitError::Io(_))));
}

#[test]
fn log_shows_newest_first() {
    let repo = setup_test_repo();
    let text = "1000000000\tsnap-1\tfirst\nshort\n\n1000000000\tsnap-2\tsecond\textra\n".to_string();
    let blocks = repo.log(Some(Ok(text))).unwrap();
    assert_eq!(blocks.len(), 2);
    assert!(blocks[0].starts_with("Snapshot:\tsnap-2\nDate:\t"));
    assert!(blocks[0].ends_with("\nMessage:\tsecond"));
    assert!(blocks[1].starts_with("Snapshot:\tsnap-1\nDate:\t"));
    assert!(blocks[1].ends_with("\nMessage:\tfirst"));
    assert!(blocks[1].contains("2001"));
}

#[test]
fn log_read_error_is_io() {
    let repo = setup_test_repo();
    let result = repo.log(Some(Err(io::Error::new(io::ErrorKind::Other, "bad"))));
    assert!(matches!(result, Err(RgitError::Io(_))));
}
