use rgit_lib::commands::log_ops::LogOps;
use rgit_lib::commands::ref_ops::RefOps;
use rgit_lib::commands::{FsAction, Repository};
use rgit_lib::paths::{file_name_of, join_path, parent_path, strip_base_path};
use rgit_lib::support::utils::Utils;
use rgit_lib::text::{
    chars_of, decimal_chars, hex_lower_chars, lines_chars, parse_i64_chars, parse_u64_chars,
    split_chars, string_of, trim_chars,
};
use std::path::Path;

fn cs(s: &str) -> Vec<char> {
    s.chars().collect()
}

fn strs(v: Vec<Vec<char>>) -> Vec<String> {
    v.into_iter().map(|c| c.into_iter().collect()).collect()
}

#[test]
fn split_matches_str_split() {
    for s in ["", "a", "\t", "a\tb", "a\t\tb\t", "\t\t"] {
        let expected: Vec<String> = s.split('\t').map(|x| x.to_string()).collect();
        assert_eq!(strs(split_chars(&cs(s), '\t')), expected);
    }
}

#[test]
fn lines_match_str_lines() {
    for s in ["", "a", "a\n", "a\r\nb", "\n", "\n\n", "a\r", "a\r\r\n", "x\ny\n\nz"] {
        let expected: Vec<String> = s.lines().map(|x| x.to_string()).collect();
        assert_eq!(strs(lines_chars(&cs(s))), expected, "input {:?}", s);
    }
}

#[test]
fn number_parsing_matches_from_str() {
    for s in ["", "+", "-", "0", "+7", "-7", "007", "12a", "18446744073709551615", "18446744073709551616",
              "9223372036854775807", "9223372036854775808", "-9223372036854775808", "-9223372036854775809", "+-1", " 1"] {
        assert_eq!(parse_u64_chars(&cs(s)), s.parse::<u64>().ok(), "u64 {:?}", s);
        assert_eq!(parse_i64_chars(&cs(s)), s.parse::<i64>().ok(), "i64 {:?}", s);
    }
}

#[test]
fn decimal_and_hex_match_format() {
    for n in [0u64, 7, 10, 99, 100, 1234567890, u64::MAX] {
        assert_eq!(string_of(&decimal_chars(n)), format!("{}", n));
    }
    let bytes = vec![0u8, 1, 0x0f, 0x10, 0xab, 0xff];
    assert_eq!(string_of(&hex_lower_chars(&bytes)), "00010f10abff");
}

#[test]
fn trim_matches_str_trim() {
    for s in ["", "  ", " a ", "\t\na b\r\n", "\u{2003}x\u{205f}", "\u{200b}x"] {
        assert_eq!(string_of(&trim_chars(&cs(s))), s.trim(), "input {:?}", s);
    }
}

#[test]
fn chars_round_trip() {
    let s = "héllo\twörld";
    assert_eq!(string_of(&chars_of(s)), s);
}

#[test]
fn paths_match_std_on_clean_paths() {
    for (b, r) in [("a", "b"), ("a/", "b"), ("", "b"), ("a", "/b"), ("/", "x/y/"), (".", ".rgit")] {
        assert_eq!(join_path(b, r), Path::new(b).join(r).to_string_lossy());
    }
    for p in ["a/b/c", "a/b/", "a", "/a", "/", "", "a//b", "./x"] {
        let expected = Path::new(p).parent().map(|q| q.to_string_lossy().to_string());
        assert_eq!(parent_path(p), expected, "parent of {:?}", p);
    }
    for p in ["a/b/c", "a/b/", "a", "/", "", "a/.."] {
        let expected = Path::new(p).file_name().map(|q| q.to_string_lossy().to_string());
        assert_eq!(file_name_of(p), expected, "file name of {:?}", p);
    }
    for (s, b) in [("/r/.rgit/refs/heads/x", "/r/.rgit"), ("/r/.rgit", "/r/.rgit"), ("/r/.rgitx", "/r/.rgit"),
                   ("/r/.rgit/refs/", "/r/.rgit/"), ("a/b", ""), ("x", "y")] {
        let expected = Path::new(s).strip_prefix(b).ok().map(|q| q.to_string_lossy().to_string());
        assert_eq!(strip_base_path(s, b), expected, "strip {:?} from {:?}", b, s);
    }
}

#[test]
fn paths_match_std_on_dot_and_repeated_separators() {
    let samples = [
        "x/.", "x/./", "a/./b", "a//b", "a//b//", "./", ".", "..", "../a", "a/..", "./a", "./a/",
        ".//a", "/.", "/./a", "//a", "//", "///a//b/./.", "foo.txt/.", ".a", "a/.b", "./.", "a/b/./..",
        "a/.../", "/a/b/c/", "", "/",
    ];
    for p in samples {
        let expected = Path::new(p).parent().map(|q| q.to_string_lossy().to_string());
        assert_eq!(parent_path(p), expected, "parent of {:?}", p);
        let expected = Path::new(p).file_name().map(|q| q.to_string_lossy().to_string());
        assert_eq!(file_name_of(p), expected, "file name of {:?}", p);
    }
    assert_eq!(file_name_of("x/."), Some("x".to_string()));
    assert_eq!(file_name_of("foo.txt/."), Some("foo.txt".to_string()));
    assert_eq!(parent_path("a/./b"), Some("a".to_string()));
    assert_eq!(parent_path("."), Some(String::new()));
    for s in samples {
        for b in samples {
            let expected = Path::new(s).strip_prefix(b).ok().map(|q| q.to_string_lossy().to_string());
            assert_eq!(strip_base_path(s, b), expected, "strip {:?} from {:?}", b, s);
        }
    }
    for (s, b) in [("/r/./.rgit//refs/heads/x/.", "/r/.rgit/."), ("./r/x", "r"), ("./r/x", "./r"),
                   ("r/./x//", "r//"), ("/r/x", "r"), ("a/../b", "a/.."), ("a/b", "a/b/c")] {
        let expected = Path::new(s).strip_prefix(b).ok().map(|q| q.to_string_lossy().to_string());
        assert_eq!(strip_base_path(s, b), expected, "strip {:?} from {:?}", b, s);
    }
}

#[test]
fn strip_undoes_join() {
    for (b, r) in [("/r/.rgit", "refs/heads/master"), ("/r/.rgit/", "x"), ("d", "")] {
        assert_eq!(strip_base_path(&join_path(b, r), b), Some(r.to_string()));
    }
    for (b, r, part) in [("/r/.rgit", "./x//y/.", "x//y"), (".", "a", "a"), ("a/./", ".", ""), ("/", "x", "x")] {
        assert_eq!(strip_base_path(&join_path(b, r), b), Some(part.to_string()));
    }
}

#[test]
fn joined_name_is_the_last_component() {
    for (d, n) in [("/r/.rgit/refs/heads/", "dev"), ("", "x"), ("/", "a."), ("a/.", "..."), (".", "b")] {
        assert_eq!(file_name_of(&join_path(d, n)), Some(n.to_string()));
    }
}

#[test]
fn plain_commit_lines_read_back() {
    let mut repo = Repository::new("/r".to_string());
    repo.current_branch = "/r/.rgit/refs/heads/master".to_string();
    let mut log = String::new();
    for (c, p, t, m) in [("snap-1", "snap-0", 100u64, "one"), ("snap-2", "snap-1", 200, "two")] {
        let acts = Utils::write_commit(c.to_string(), p.to_string(), t, m.to_string(), &repo);
        match &acts[0] {
            FsAction::AppendFile(_, line) => log.push_str(line),
            other => panic!("unexpected {:?}", other),
        }
    }
    let entries = LogOps::read_log_entries(&log);
    assert_eq!(entries.len(), 2);
    assert_eq!((entries[0].snapshot.as_str(), entries[0].timestamp, entries[0].message.as_str()), ("snap-1", 100, "one"));
    assert_eq!((entries[1].snapshot.as_str(), entries[1].timestamp, entries[1].message.as_str()), ("snap-2", 200, "two"));
}

#[test]
fn created_branch_switches_to_its_commit() {
    let repo = Repository::new("/r".to_string());
    let acts = RefOps::create_branch_ref(&repo, "dev", "snap-4", false).unwrap();
    let (path, written) = match &acts[1] {
        FsAction::WriteFile(p, t) => (p.clone(), t.clone()),
        other => panic!("unexpected {:?}", other),
    };
    assert_eq!(path, join_path(&repo.branches, "dev"));
    let (commit, _) = RefOps::switch_branch(&repo, "dev", Some(Ok(written))).unwrap();
    assert_eq!(commit, "snap-4");
}

#[test]
fn init_creates_the_paths_find_checks() {
    let mut repo = Repository::new("/w".to_string());
    let head = Err(std::io::Error::new(std::io::ErrorKind::NotFound, "x"));
    let status = rgit_lib::commands::LayoutStatus { gitdir: false, objects: false, head_file: false, log_head: false, branches: false };
    let gitdir = repo.gitdir.clone();
    let objects = repo.objects.clone();
    let head_file = repo.head_file.clone();
    let log_head = repo.log_head.clone();
    let (first, rest) = repo.init(&status, head).unwrap();
    let acts: Vec<FsAction> = first.into_iter().chain(rest).collect();
    assert!(matches!(&acts[0], FsAction::CreateDir(p) if *p == gitdir));
    assert!(matches!(&acts[1], FsAction::CreateDir(p) if *p == objects));
    assert!(matches!(&acts[4], FsAction::AppendFile(p, _) if *p == head_file));
    assert!(matches!(&acts[7], FsAction::AppendFile(p, t) if *p == log_head && t.is_empty()));
}

#[test]
fn commit_name_is_forty_hex_digits() {
    let repo = Repository::new("/r".to_string());
    let (child, _) = LogOps::write_commit_log("snap-0".to_string(), 0, "init".to_string(), &repo);
    assert_eq!(child, "eb0d907323642a5efde8e11df0f90b886b2950d8");
    assert!(child.chars().all(|c| c.is_ascii_digit() || ('a'..='f').contains(&c)));
}
