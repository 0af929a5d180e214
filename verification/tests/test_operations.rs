use rgit_lib::bindings::date_in_range;
use rgit_lib::commands::config::Config;
use rgit_lib::commands::fs_ops::FsOps;
use rgit_lib::commands::init::InitOps;
use rgit_lib::commands::log_ops::LogOps;
use rgit_lib::commands::ref_ops::{CheckoutTarget, RefOps};
use rgit_lib::commands::{FsAction, LayoutStatus, Repository};
use rgit_lib::errors::RgitError;
use rgit_lib::support::utils::Utils;
use std::io;

fn repo_at(root: &str) -> Repository {
    Repository::new(root.to_string())
}

#[test]
fn format_then_read_back_entries() {
    let a = LogOps::format_commit_entry("c1", "p1", "ann", "ann@x", 42, "first");
    let b = LogOps::format_commit_entry("c2", "c1", "bob", "bob@x", 7, "second");
    assert_eq!(a, "c1\tp1\tann<ann@x>\t42\tfirst\tcommit\n");
    let entries = LogOps::read_log_entries(&format!("{}{}", a, b));
    assert_eq!(entries.len(), 2);
    assert_eq!(entries[0].snapshot, "c1");
    assert_eq!(entries[0].timestamp, 0);
    assert_eq!(entries[0].message, "42");
    assert_eq!(entries[1].snapshot, "c2");
    assert_eq!(entries[1].message, "7");
}

#[test]
fn parse_log_line_cases() {
    assert!(LogOps::parse_log_line("").is_none());
    assert!(LogOps::parse_log_line("a\tb\tc").is_none());
    let e = LogOps::parse_log_line("s\tx\t+123\tm\tmore").unwrap();
    assert_eq!((e.snapshot.as_str(), e.timestamp, e.message.as_str()), ("s", 123, "m"));
    let e = LogOps::parse_log_line("s\tx\t18446744073709551616\tm").unwrap();
    assert_eq!(e.timestamp, 0);
    let e = LogOps::parse_log_line("s\tx\t18446744073709551615\tm").unwrap();
    assert_eq!(e.timestamp, u64::MAX);
    let e = LogOps::parse_log_line("\t\t\t").unwrap();
    assert_eq!((e.snapshot.as_str(), e.timestamp, e.message.as_str()), ("", 0, ""));
}

#[test]
fn read_log_entries_handles_line_endings() {
    let entries = LogOps::read_log_entries("a\tb\t5\tm\r\n\nz\tb\t6\tn\r");
    assert_eq!(entries.len(), 2);
    assert_eq!(entries[0].message, "m");
    assert_eq!(entries[0].timestamp, 5);
    assert_eq!(entries[1].message, "n\r");
    assert!(LogOps::read_log_entries("").is_empty());
}

#[test]
fn write_commit_log_names_commit_by_sha1() {
    let mut repo = repo_at("/r");
    repo.config.user_name("alice".to_string()).unwrap();
    repo.config.user_email("a@x".to_string()).unwrap();
    repo.current_branch = "/r/.rgit/refs/heads/master".to_string();
    let (child, acts) = LogOps::write_commit_log("p0".to_string(), 5, "msg".to_string(), &repo);
    assert_eq!(child, "baeb55217b8db50f3baa27ef0289b9af1c1cd622");
    let line = format!("p0\t{}\talice<a@x>\t5\tmsg\tcommit\n", child);
    assert_eq!(acts.len(), 3);
    assert!(matches!(&acts[0], FsAction::AppendFile(p, t) if p == "/r/.rgit/logs/HEAD" && *t == line));
    assert!(matches!(&acts[1], FsAction::CreateDirAllIfMissing(p) if p == "/r/.rgit/logs/refs/heads"));
    assert!(matches!(&acts[2], FsAction::AppendFile(p, t) if p == "/r/.rgit/logs/refs/heads/master" && *t == line));
}

#[test]
fn record_commit_uses_hex_of_digest() {
    let repo = repo_at("/r");
    let (child, _) = LogOps::record_commit("p".to_string(), 1, "m".to_string(), &repo, &vec![0x0a, 0xff, 0x00]);
    assert_eq!(child, "0aff00");
}

#[test]
fn branch_log_falls_back_outside_gitdir() {
    let mut repo = repo_at("/r");
    repo.current_branch = "/elsewhere/master".to_string();
    let (_, acts) = LogOps::record_commit("p".to_string(), 1, "m".to_string(), &repo, &vec![1]);
    assert!(matches!(&acts[1], FsAction::CreateDirAllIfMissing(p) if p == "/r/.rgit/logs/refs"));
    assert!(matches!(&acts[2], FsAction::AppendFile(p, _) if p == "/r/.rgit/logs/refs/heads/"));
}

#[test]
fn write_action_log_appends_to_main_log() {
    let repo = repo_at("/r");
    let a = LogOps::write_action_log("checkout x\n", &repo);
    assert!(matches!(a, FsAction::AppendFile(ref p, ref t) if p == "/r/.rgit/logs/HEAD" && t == "checkout x\n"));
}

#[test]
fn format_timestamp_gives_a_local_date() {
    let d = LogOps::format_timestamp(1_000_000_000);
    assert!(d.starts_with("Sep"));
    assert!(d.ends_with("2001"));
    assert_eq!(d.len(), 11);
}

#[test]
fn write_commit_plain_line() {
    let repo = repo_at("/r");
    let mut repo2 = repo_at("/r");
    repo2.current_branch = "/r/.rgit/refs/heads/dev".to_string();
    let acts = Utils::write_commit("c".to_string(), "p".to_string(), 9, "hi".to_string(), &repo2);
    assert!(matches!(&acts[0], FsAction::AppendFile(p, t) if p == &repo.log_head && t == "c\tp\t9\thi\tcommit\n"));
    assert!(matches!(&acts[1], FsAction::AppendFile(p, _) if p == "/r/.rgit/logs/refs/heads/dev"));
    assert!(matches!(&acts[2], FsAction::WriteFile(p, t) if p == "/r/.rgit/refs/heads/dev" && t == "c"));
}

#[test]
fn resolve_checkout_target_cases() {
    let repo = repo_at(".");
    assert!(matches!(RefOps::resolve_checkout_target(&repo, "refs/heads/dev", false, false), Ok(CheckoutTarget::Branch(ref b)) if b == "dev"));
    assert!(matches!(RefOps::resolve_checkout_target(&repo, "refs/tags/v1", true, true), Ok(CheckoutTarget::Tag(ref t)) if t == "v1"));
    assert!(matches!(RefOps::resolve_checkout_target(&repo, "x", true, true), Err(RgitError::AmbiguousReference(ref n)) if n == "x"));
    assert!(matches!(RefOps::resolve_checkout_target(&repo, "x", true, false), Ok(CheckoutTarget::Branch(ref n)) if n == "x"));
    assert!(matches!(RefOps::resolve_checkout_target(&repo, "x", false, true), Ok(CheckoutTarget::Tag(ref n)) if n == "x"));
    assert!(matches!(RefOps::resolve_checkout_target(&repo, "x", false, false), Err(RgitError::RefNotFound(ref n)) if n == "x"));
}

#[test]
fn current_commit_hash_cases() {
    let mut repo = repo_at(".");
    repo.current_branch = "./.rgit/refs/heads/master".to_string();
    let zeros = "0".repeat(40);
    let (h, a) = RefOps::get_current_commit_hash(&repo, None).unwrap();
    assert_eq!(h, zeros);
    assert!(matches!(a, Some(FsAction::WriteFile(ref p, ref t)) if p == &repo.current_branch && *t == zeros));
    let (h, a) = RefOps::get_current_commit_hash(&repo, Some(Ok(String::new()))).unwrap();
    assert_eq!(h, zeros);
    assert!(a.is_none());
    let (h, _) = RefOps::get_current_commit_hash(&repo, Some(Ok("abc\n".to_string()))).unwrap();
    assert_eq!(h, "abc\n");
    let e = RefOps::get_current_commit_hash(&repo, Some(Err(io::Error::new(io::ErrorKind::Other, "x"))));
    assert!(matches!(e, Err(RgitError::Io(_))));
}

#[test]
fn branch_commit_is_trimmed() {
    assert_eq!(RefOps::get_branch_commit("/a/b/dev", Some(Ok("  snap-3 \n".to_string()))).unwrap(), "snap-3");
    assert_eq!(RefOps::get_branch_commit("/a/b/dev", Some(Ok("\u{3000}x\u{a0}".to_string()))).unwrap(), "x");
    assert!(matches!(RefOps::get_branch_commit("/a/b/dev/", None), Err(RgitError::BranchNotFound(ref n)) if n == "dev"));
    assert!(matches!(RefOps::get_branch_commit("/", None), Err(RgitError::BranchNotFound(ref n)) if n.is_empty()));
    assert!(matches!(RefOps::get_branch_commit("a/..", None), Err(RgitError::BranchNotFound(ref n)) if n.is_empty()));
    assert!(matches!(RefOps::get_branch_commit("x/.", None), Err(RgitError::BranchNotFound(ref n)) if n == "x"));
    assert!(matches!(RefOps::get_branch_commit("/a//dev//", None), Err(RgitError::BranchNotFound(ref n)) if n == "dev"));
}

#[test]
fn switch_branch_and_tag() {
    let repo = repo_at("/r");
    let (c, a) = RefOps::switch_branch(&repo, "dev", Some(Ok("snap-2\n".to_string()))).unwrap();
    assert_eq!(c, "snap-2");
    assert!(matches!(a, FsAction::WriteFile(ref p, ref t) if p == "/r/.rgit/HEAD" && t == "/r/.rgit/refs/heads/dev"));
    let (c, a) = RefOps::switch_tag(&repo, "v1", Some(Ok("snap-1".to_string()))).unwrap();
    assert_eq!(c, "snap-1");
    assert!(matches!(a, FsAction::WriteFile(ref p, ref t) if p == "/r/.rgit/HEAD" && t.is_empty()));
    assert!(matches!(RefOps::switch_tag(&repo, "v2", None), Err(RgitError::TagNotFound(ref n)) if n == "v2"));
}

#[test]
fn create_and_update_branch_refs() {
    let repo = repo_at("/r");
    let acts = RefOps::create_branch_ref(&repo, "dev", "snap-1", false).unwrap();
    assert_eq!(acts.len(), 4);
    assert!(matches!(&acts[0], FsAction::CreateDirAllIfMissing(p) if p == "/r/.rgit/refs/heads/"));
    assert!(matches!(&acts[1], FsAction::WriteFile(p, t) if p == "/r/.rgit/refs/heads/dev" && t == "snap-1"));
    assert!(matches!(&acts[2], FsAction::CreateDirAllIfMissing(p) if p == "/r/.rgit/logs/refs/heads"));
    assert!(matches!(&acts[3], FsAction::WriteFile(p, t) if p == "/r/.rgit/logs/refs/heads/dev" && t.is_empty()));
    let a = RefOps::update_branch_ref(&repo, "dev", "snap-2", true).unwrap();
    assert!(matches!(a, FsAction::WriteFile(ref p, ref t) if p == "/r/.rgit/refs/heads/dev" && t == "snap-2"));
    assert!(matches!(RefOps::update_branch_ref(&repo, "nope", "x", false), Err(RgitError::BranchNotFound(ref n)) if n == "nope"));
}

#[test]
fn head_reference_and_current_branch() {
    let mut repo = repo_at("/r");
    let a = RefOps::write_head_reference(&repo, "/r/.rgit/refs/heads/dev");
    assert!(matches!(a, FsAction::WriteFile(ref p, ref t) if p == "/r/.rgit/HEAD" && t == "/r/.rgit/refs/heads/dev"));
    RefOps::read_current_branch(&mut repo, Ok("/r/.rgit/refs/heads/dev".to_string())).unwrap();
    assert_eq!(repo.current_branch, "/r/.rgit/refs/heads/dev");
    let e = RefOps::read_current_branch(&mut repo, Err(io::Error::new(io::ErrorKind::Other, "x")));
    assert!(matches!(e, Err(RgitError::Io(_))));
    assert_eq!(repo.current_branch, "/r/.rgit/refs/heads/dev");
}

#[test]
fn validate_structures() {
    let ok = LayoutStatus { gitdir: true, objects: true, head_file: true, log_head: true, branches: true };
    assert!(InitOps::validate_repo_structure(&ok).is_ok());
    assert!(RefOps::validate_ref_structure(&ok).is_ok());
    assert!(InitOps::repo_exists(&ok));
    let mut s = ok;
    s.branches = false;
    assert!(matches!(InitOps::validate_repo_structure(&s), Err(RgitError::NotInitialized(ref n)) if n == "refs/heads"));
    assert!(matches!(RefOps::validate_ref_structure(&s), Err(RgitError::NotInitialized(ref n)) if n == "refs/heads"));
    assert!(InitOps::repo_exists(&s));
    s.objects = false;
    assert!(matches!(InitOps::validate_repo_structure(&s), Err(RgitError::NotInitialized(ref n)) if n == "objects"));
    assert!(!InitOps::repo_exists(&s));
}

#[test]
fn init_repo_lays_out() {
    let mut repo = repo_at("/r");
    let before = repo.current_branch.clone();
    let (first, rest) = InitOps::init_repo(&repo);
    assert_eq!(first.len(), 5);
    assert_eq!(repo.current_branch, before);
    let acts: Vec<FsAction> = first.into_iter().chain(rest).collect();
    assert_eq!(acts.len(), 8);
    assert!(matches!(&acts[4], FsAction::WriteFile(p, t) if p == "/r/.rgit/HEAD" && t == "/r/.rgit/refs/heads/master"));
    assert!(matches!(&acts[6], FsAction::CreateDirAllIfMissing(p) if p == "/r/.rgit/logs/refs/heads"));
    assert!(matches!(&acts[7], FsAction::WriteFile(p, t) if p == "/r/.rgit/logs/HEAD" && t.is_empty()));
    InitOps::select_default_branch(&mut repo);
    assert_eq!(repo.current_branch, "/r/.rgit/refs/heads/master");
}

#[test]
fn normalize_path_strips_one_prefix() {
    assert_eq!(FsOps::normalize_path("./a/b"), "a/b");
    assert_eq!(FsOps::normalize_path("././a"), "./a");
    assert_eq!(FsOps::normalize_path("a/./b"), "a/./b");
    assert_eq!(FsOps::normalize_path("."), ".");
}

#[test]
fn config_setters_and_getters() {
    let mut c = Config::new();
    c.user_name("ann".to_string()).unwrap().user_email("ann@x".to_string()).unwrap();
    assert_eq!(c.get_user_name().unwrap(), "ann");
    assert_eq!(c.get_user_email().unwrap(), "ann@x");
}

#[test]
fn config_load_cases() {
    let c = Config::load(None).unwrap();
    assert_eq!(c.get_user_name().unwrap(), "");
    let c = Config::load(Some(Ok("[User]\nname = ann\nemail = ann@x\n".to_string()))).unwrap();
    assert_eq!(c.get_user_name().unwrap(), "ann");
    assert_eq!(c.get_user_email().unwrap(), "ann@x");
    let c = Config::load(Some(Ok("\u{feff}[User]\nname=bo\n".to_string()))).unwrap();
    assert_eq!(c.get_user_name().unwrap(), "bo");
    assert_eq!(c.get_user_email().unwrap(), "");
    let c = Config::load(Some(Ok("[Other]\nname=x\n".to_string()))).unwrap();
    assert_eq!(c.get_user_name().unwrap(), "");
    assert!(matches!(Config::load(Some(Ok("[User\nname=x".to_string()))), Err(RgitError::ConfigError)));
    assert!(matches!(Config::load(Some(Err(io::Error::new(io::ErrorKind::Other, "x")))), Err(RgitError::ConfigError)));
}

#[test]
fn config_document_round_trip() {
    let mut c = Config::new();
    c.user_name("ann".to_string()).unwrap();
    c.user_email("ann@x".to_string()).unwrap();
    let doc = c.set();
    assert_eq!(doc.get_from(Some("User"), "name"), Some("ann"));
    assert_eq!(doc.get_from(Some("User"), "email"), Some("ann@x"));
    let mut text = Vec::new();
    doc.write_to(&mut text).unwrap();
    let back = Config::load(Some(Ok(String::from_utf8(text).unwrap()))).unwrap();
    assert_eq!(back.get_user_name().unwrap(), "ann");
    assert_eq!(back.get_user_email().unwrap(), "ann@x");
}

#[test]
fn chrono_range_bounds_match() {
    for secs in [-8334601228801i64, -8334601228800, 0, 8210266876799, 8210266876800, i64::MIN, i64::MAX] {
        assert_eq!(date_in_range(secs), chrono::DateTime::from_timestamp(secs, 0).is_some(), "secs {}", secs);
    }
    let last = LogOps::format_timestamp(8210266876799);
    assert!(last.ends_with("262142") || last.ends_with("262143"));
}

#[test]
fn show_commit_layout() {
    assert_eq!(
        Repository::show_commit("snap-1", "Jan  1 1970", "hello"),
        "Snapshot:\tsnap-1\nDate:\tJan  1 1970\nMessage:\thello"
    );
}

#[test]
fn config_from_document_reads_user_section() {
    let doc = ini::Ini::load_from_str("[User]\nname=zed\n[User]\nemail=z@x\n").unwrap();
    let c = Config::from_document(&doc);
    assert_eq!(c.get_user_name().unwrap(), "zed");
    // Only the first `User` section is read.
    assert_eq!(c.get_user_email().unwrap(), "");
}

#[test]
fn format_timestamp_is_a_nearby_utc_date() {
    for ts in [0u64, 86_399, 1_000_000_000, 1_700_000_000] {
        let shown = LogOps::format_timestamp(ts);
        let near: Vec<String> = [-86_399i64, 0, 86_399]
            .iter()
            .map(|off| chrono::DateTime::from_timestamp(ts as i64 + off, 0).unwrap().format("%b %e %Y").to_string())
            .collect();
        assert!(near.contains(&shown), "{} not in {:?}", shown, near);
    }
}

#[test]
fn config_settings_by_key() {
    let mut c = Config::new();
    assert_eq!(c.setting("user.name", Some("ann".to_string())).unwrap(), None);
    assert_eq!(c.setting("user.email", Some("ann@x".to_string())).unwrap(), None);
    assert_eq!(c.setting("user.name", None).unwrap(), Some("ann".to_string()));
    assert_eq!(c.setting("user.email", None).unwrap(), Some("ann@x".to_string()));
    assert!(matches!(c.setting("user.nam", Some("x".to_string())), Err(RgitError::ConfigError)));
    assert!(matches!(c.setting("core.editor", None), Err(RgitError::ConfigError)));
    assert_eq!(c.get_user_name().unwrap(), "ann");
    assert_eq!(c.get_user_email().unwrap(), "ann@x");
}
