use codexignore::compile::split_lines;
use codexignore::path::{components_of, join_components};
use codexignore::CodexIgnore;
use codexignore::CompileError;
use std::path::Path;
use std::path::PathBuf;

const ROOT: &str = "/tmp/project";

fn matcher(text: &str) -> CodexIgnore {
    CodexIgnore::load(ROOT, Some(text)).unwrap().unwrap()
}

fn under_root(parts: &[&str]) -> String {
    let mut p = PathBuf::from(ROOT);
    for part in parts {
        p = p.join(part);
    }
    p.to_str().unwrap().to_string()
}

#[test]
fn returns_none_when_file_missing() {
    let ignore = CodexIgnore::load(ROOT, None).unwrap();
    assert!(ignore.is_none());
}

#[test]
fn matches_files_and_directories() {
    let root = Path::new(ROOT);
    let ignore = matcher("ignored_dir/\nsecret.txt\n");
    assert!(ignore.is_dir_ignored(root.join("ignored_dir").to_str().unwrap()));
    assert!(ignore.is_file_ignored(root.join("secret.txt").to_str().unwrap()));
    assert!(!ignore.is_file_ignored(root.join("visible.txt").to_str().unwrap()));
}

#[test]
fn relative_path_handles_absolute_and_relative_inputs() {
    let root = Path::new(ROOT);
    let ignore = matcher("secret.txt\n");

    let rel = ignore.relative_path("secret.txt").unwrap();
    assert_eq!(PathBuf::from(rel), PathBuf::from("secret.txt"));

    let abs = ignore
        .relative_path(root.join("nested").join("file.txt").to_str().unwrap())
        .unwrap();
    assert_eq!(PathBuf::from(abs), PathBuf::from("nested").join("file.txt"));
}

#[test]
fn basic_containment() {
    let ignore = matcher("secret.txt\n");
    assert!(ignore.is_file_ignored(&under_root(&["secret.txt"])));
    assert!(!ignore.is_file_ignored(&under_root(&["visible.txt"])));
    // An unanchored pattern matches at any depth, and relative paths work too.
    assert!(ignore.is_file_ignored(&under_root(&["a", "b", "secret.txt"])));
    assert!(ignore.is_file_ignored("a/secret.txt"));
}

#[test]
fn directory_only_rule() {
    let ignore = matcher("build/\n");
    assert!(ignore.is_dir_ignored(&under_root(&["build"])));
    assert!(ignore.is_file_ignored(&under_root(&["build", "out.o"])));
    assert!(ignore.is_dir_ignored(&under_root(&["build", "deep", "dir"])));
    assert!(!ignore.is_file_ignored(&under_root(&["build"])));
    assert!(!ignore.is_dir_ignored(&under_root(&["src"])));
}

#[test]
fn negation_after_broad_rule_rescues() {
    let ignore = matcher("*.log\n!important.log\n");
    assert!(!ignore.is_file_ignored(&under_root(&["important.log"])));
    assert!(ignore.is_file_ignored(&under_root(&["debug.log"])));
}

#[test]
fn negation_before_broad_rule_is_overridden() {
    let ignore = matcher("!important.log\n*.log\n");
    assert!(ignore.is_file_ignored(&under_root(&["important.log"])));
    assert!(ignore.is_file_ignored(&under_root(&["debug.log"])));
}

#[test]
fn later_rule_excludes_again() {
    let ignore = matcher("*.log\n!*.log\nkeep/*.log\n");
    assert!(!ignore.is_file_ignored(&under_root(&["a.log"])));
    assert!(ignore.is_file_ignored(&under_root(&["keep", "a.log"])));
}

#[test]
fn anchored_rule_matches_at_root_only() {
    let ignore = matcher("/target\ndocs/*.md\n");
    assert!(ignore.is_dir_ignored(&under_root(&["target"])));
    assert!(!ignore.is_dir_ignored(&under_root(&["sub", "target"])));
    assert!(ignore.is_file_ignored(&under_root(&["docs", "a.md"])));
    assert!(!ignore.is_file_ignored(&under_root(&["x", "docs", "a.md"])));
}

#[test]
fn glob_wildcards() {
    let ignore = matcher("a?c\n**/gen/**\n[xy].txt\n");
    assert!(ignore.is_file_ignored(&under_root(&["abc"])));
    assert!(!ignore.is_file_ignored(&under_root(&["abbc"])));
    assert!(ignore.is_file_ignored(&under_root(&["p", "gen", "q", "r.rs"])));
    assert!(ignore.is_file_ignored(&under_root(&["x.txt"])));
    assert!(!ignore.is_file_ignored(&under_root(&["z.txt"])));
}

#[test]
fn comments_blank_lines_and_trailing_space() {
    let ignore = matcher("# secret.txt\n\n   \nnotes.txt   \n");
    assert!(!ignore.is_file_ignored(&under_root(&["# secret.txt"])));
    assert!(!ignore.is_file_ignored(&under_root(&["secret.txt"])));
    assert!(ignore.is_file_ignored(&under_root(&["notes.txt"])));
}

#[test]
fn crlf_and_byte_order_mark() {
    let ignore = matcher("\u{feff}first.txt\r\nsecond.txt\r\n");
    assert!(ignore.is_file_ignored(&under_root(&["first.txt"])));
    assert!(ignore.is_file_ignored(&under_root(&["second.txt"])));
}

#[test]
fn path_outside_root_is_kept() {
    let ignore = matcher("*\n");
    assert!(!ignore.is_file_ignored("/elsewhere/file.txt"));
    assert!(!ignore.is_file_ignored("/tmp/projectx/file.txt"));
    assert_eq!(ignore.relative_path("/elsewhere/file.txt"), None);
    assert_eq!(ignore.relative_path("/tmp/projectx/file.txt"), None);
    assert!(ignore.is_file_ignored(&under_root(&["file.txt"])));
}

#[test]
fn root_itself() {
    let ignore = matcher("secret.txt\n*.log\n");
    assert!(!ignore.is_dir_ignored(ROOT));
    assert!(!ignore.is_file_ignored(ROOT));
    assert_eq!(ignore.relative_path(ROOT), Some(String::new()));
    assert_eq!(ignore.relative_path("/tmp/project/"), Some(String::new()));
}

#[test]
fn relative_path_round_trip() {
    let ignore = matcher("");
    let p = "/tmp/project/./a//b/c.txt";
    let rel = ignore.relative_path(p).unwrap();
    assert_eq!(rel, "a/b/c.txt");
    let again = under_root(&[&rel]);
    assert_eq!(ignore.relative_path(&again), Some(rel.clone()));
    assert_eq!(ignore.relative_path(&rel), Some(rel));
}

#[test]
fn repeated_queries_agree() {
    let ignore = matcher("*.log\n!keep.log\nbuild/\n");
    let paths = ["a.log", "keep.log", "build/x", "src/main.rs"];
    for p in paths {
        let first = ignore.is_file_ignored(p);
        for _ in 0..3 {
            assert_eq!(ignore.is_file_ignored(p), first);
        }
    }
    assert!(ignore.is_file_ignored("a.log"));
    assert!(!ignore.is_file_ignored("keep.log"));
    assert!(ignore.is_file_ignored("build/x"));
    assert!(!ignore.is_file_ignored("src/main.rs"));
}

#[test]
fn unterminated_class_is_invalid() {
    let r = CodexIgnore::new(ROOT, "ok.txt\n# [comment\n[abc\nother[\n");
    assert!(matches!(r, Err(CompileError::InvalidPattern(3))));
    let r = CodexIgnore::load(ROOT, Some("[abc"));
    assert!(matches!(r, Err(CompileError::InvalidPattern(1))));
}

#[test]
fn empty_file_ignores_nothing() {
    let ignore = matcher("");
    assert!(!ignore.is_file_ignored(&under_root(&["anything"])));
    assert!(!ignore.is_dir_ignored(&under_root(&["dir"])));
}

#[test]
fn root_accessor() {
    let ignore = matcher("x\n");
    assert_eq!(ignore.root(), ROOT);
}

#[test]
fn split_lines_follows_line_reader() {
    let lines = split_lines("\u{feff}\u{feff}a\r\nb\n\nc");
    assert_eq!(lines, vec!["a".to_string(), "b".to_string(), String::new(), "c".to_string()]);
    assert_eq!(split_lines("a\n"), vec!["a".to_string()]);
    assert!(split_lines("").is_empty());
    assert_eq!(split_lines("x\r"), vec!["x\r".to_string()]);
}

#[test]
fn components_and_joining() {
    let cs = components_of("/a//./b/../c/");
    assert_eq!(cs, vec!["a".to_string(), "b".to_string(), "..".to_string(), "c".to_string()]);
    assert_eq!(join_components(&cs), "a/b/../c");
    assert!(components_of("./").is_empty());
    assert_eq!(join_components(&Vec::new()), "");
}
