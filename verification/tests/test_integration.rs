/// Integration tests for the repository layout
use rgit_lib::commands::Repository;
use std::path::PathBuf;

fn p(s: &str) -> PathBuf {
    PathBuf::from(s)
}

#[test]
fn test_commands_enum_init_variant() {
    // Verify that Commands enum can be created
    let _command = rgit_lib::cli::Commands::Init;
    let repo = Repository::new(".".to_string());
    assert!(!p(&repo.gitdir).as_os_str().is_empty());
}

#[test]
fn test_repository_struct_creation() {
    let repo = Repository::new("./test".to_string());
    assert_eq!(p(&repo.gitdir), PathBuf::from("./test/.rgit"));
    assert_eq!(p(&repo.objects), PathBuf::from("./test/.rgit/objects"));
}

#[test]
fn test_repository_paths_are_consistent() {
    let repo = Repository::new("./myproject".to_string());

    // All paths should start with gitdir
    assert!(p(&repo.objects).starts_with(&repo.gitdir));
    assert!(p(&repo.head_file).starts_with(&repo.gitdir));
    assert!(p(&repo.logs).starts_with(&repo.gitdir));
    assert!(p(&repo.branches).starts_with(&repo.gitdir));
}

#[test]
fn test_repository_multiple_instances() {
    let repo1 = Repository::new(".".to_string());
    let repo2 = Repository::new(".".to_string());

    assert_eq!(p(&repo1.gitdir), p(&repo2.gitdir));
    assert_eq!(p(&repo1.objects), p(&repo2.objects));
    assert_eq!(p(&repo1.head_file), p(&repo2.head_file));
}

#[test]
fn test_repository_different_base_paths() {
    let repo1 = Repository::new(".".to_string());
    let repo2 = Repository::new("./project1".to_string());
    let repo3 = Repository::new("/home/user/project2".to_string());

    assert_ne!(p(&repo1.gitdir), p(&repo2.gitdir));
    assert_ne!(p(&repo2.gitdir), p(&repo3.gitdir));
    assert_ne!(p(&repo1.gitdir), p(&repo3.gitdir));
}

#[test]
fn test_repository_branches_structure() {
    let repo = Repository::new(".".to_string());

    // Branches path should contain refs/heads
    assert!(p(&repo.branches).to_string_lossy().contains("refs"));
    assert!(p(&repo.branches).to_string_lossy().contains("heads"));
}

#[test]
fn test_repository_logs_structure() {
    let repo = Repository::new(".".to_string());

    // Logs path should exist
    assert!(!p(&repo.logs).as_os_str().is_empty());
    assert!(!p(&repo.log_head).as_os_str().is_empty());
}

#[test]
fn test_repository_nested_path() {
    let nested_path = "./a/b/c/d".to_string();
    let repo = Repository::new(nested_path.clone());

    // Should handle nested paths correctly
    assert!(p(&repo.gitdir).to_string_lossy().contains("a"));
    assert!(p(&repo.gitdir).to_string_lossy().contains("b"));
    assert!(p(&repo.gitdir).to_string_lossy().contains("c"));
    assert!(p(&repo.gitdir).to_string_lossy().contains("d"));
}

#[test]
fn test_repository_absolute_path() {
    let abs_path = "/tmp/myrepo".to_string();
    let repo = Repository::new(abs_path);

    assert!(p(&repo.gitdir).is_absolute());
    assert!(p(&repo.objects).is_absolute());
    assert!(p(&repo.head_file).is_absolute());
}

#[test]
fn test_repository_fields_not_empty() {
    let repo = Repository::new(".".to_string());

    assert!(!p(&repo.gitdir).as_os_str().is_empty());
    assert!(!p(&repo.objects).as_os_str().is_empty());
    assert!(!p(&repo.head_file).as_os_str().is_empty());
    assert!(!p(&repo.log_head).as_os_str().is_empty());
    assert!(!p(&repo.logs).as_os_str().is_empty());
    assert!(!p(&repo.branches).as_os_str().is_empty());
}

#[test]
fn layout_matches_path_join() {
    for base in [".", "./", "", "/", "a/b", "/tmp/x/", "rel"] {
        let repo = Repository::new(base.to_string());
        let g = PathBuf::from(base).join(".rgit");
        assert_eq!(repo.gitdir, g.to_string_lossy());
        assert_eq!(repo.objects, g.join("objects").to_string_lossy());
        assert_eq!(repo.head_file, g.join("HEAD").to_string_lossy());
        assert_eq!(repo.log_head, g.join("logs/HEAD").to_string_lossy());
        assert_eq!(repo.logs, g.join("logs/").to_string_lossy());
        assert_eq!(repo.branches, g.join("refs/heads/").to_string_lossy());
        assert_eq!(repo.tags, g.join("refs/tags/").to_string_lossy());
        assert_eq!(repo.current_branch, "");
    }
}
