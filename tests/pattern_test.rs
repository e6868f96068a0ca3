use pfp::{decide_match, matches_patterns, matches_patterns_with_path};

#[test]
fn test_matches_patterns_exact() {
    let patterns = vec![".git".to_string(), "Cargo.toml".to_string()];

    assert!(matches_patterns(".git", &patterns));
    assert!(matches_patterns("Cargo.toml", &patterns));
    assert!(!matches_patterns("README.md", &patterns));
}

#[test]
fn test_matches_patterns_glob_star() {
    let patterns = vec!["*.rs".to_string()];

    assert!(matches_patterns("main.rs", &patterns));
    assert!(matches_patterns("lib.rs", &patterns));
    assert!(!matches_patterns("main.py", &patterns));
}

#[test]
fn test_matches_patterns_glob_prefix() {
    let patterns = vec!["tree-sitter-*".to_string()];

    assert!(matches_patterns("tree-sitter-rust", &patterns));
    assert!(matches_patterns("tree-sitter-python", &patterns));
    assert!(!matches_patterns("tree-rust", &patterns));
}

#[test]
fn test_matches_patterns_wildcard_all() {
    let patterns = vec!["*".to_string()];

    assert!(matches_patterns("anything", &patterns));
    assert!(matches_patterns(".hidden", &patterns));
    assert!(matches_patterns("file.txt", &patterns));
}

#[test]
fn test_matches_patterns_question_mark() {
    let patterns = vec!["file?.txt".to_string()];

    assert!(matches_patterns("file1.txt", &patterns));
    assert!(matches_patterns("fileA.txt", &patterns));
    assert!(!matches_patterns("file12.txt", &patterns));
}

#[test]
fn test_matches_patterns_empty() {
    let patterns: Vec<String> = vec![];

    assert!(!matches_patterns("anything", &patterns));
}

#[test]
fn test_matches_patterns_with_path_simple() {
    let patterns = vec!["packages".to_string()];

    assert!(matches_patterns_with_path("packages", Some("mason/packages"), &patterns));
    assert!(!matches_patterns_with_path("mason", Some("mason"), &patterns));
}

#[test]
fn test_matches_patterns_with_path_slash_pattern() {
    let patterns = vec!["mason/packages".to_string()];

    assert!(matches_patterns_with_path("packages", Some("mason/packages"), &patterns));
    assert!(!matches_patterns_with_path("packages", Some("other/packages"), &patterns));
    assert!(!matches_patterns_with_path("packages", None, &patterns));
}

#[test]
fn test_matches_patterns_with_path_glob_slash() {
    let patterns = vec!["mason/packages*".to_string()];

    assert!(matches_patterns_with_path("packages", Some("mason/packages"), &patterns));
    assert!(matches_patterns_with_path("packages-extra", Some("mason/packages-extra"), &patterns));
    assert!(!matches_patterns_with_path("packages", Some("other/packages"), &patterns));
}

#[test]
fn test_matches_patterns_with_path_deep_glob() {
    let patterns = vec!["nvim-data/mason/*".to_string()];

    assert!(matches_patterns_with_path("packages", Some("nvim-data/mason/packages"), &patterns));
    assert!(matches_patterns_with_path("bin", Some("nvim-data/mason/bin"), &patterns));
    assert!(!matches_patterns_with_path("packages", Some("other/mason/packages"), &patterns));
}

#[test]
fn glob_marker_matches_only_its_extension() {
    let patterns = vec!["*.rs".to_string()];
    assert!(matches_patterns("main.rs", &patterns));
    assert!(!matches_patterns("main.py", &patterns));
    let all = vec!["*".to_string()];
    assert!(matches_patterns(".bashrc", &all));
    assert!(matches_patterns("", &all));
}

#[test]
fn path_pattern_without_path_never_matches() {
    let patterns = vec!["a/b".to_string()];
    assert!(!matches_patterns("a/b", &patterns));
    assert!(matches_patterns_with_path("x", Some("a/b"), &patterns));
}

#[test]
fn malformed_glob_matches_nothing() {
    let patterns = vec!["a***".to_string(), "[*".to_string()];
    assert!(!matches_patterns("a***", &patterns));
    assert!(!matches_patterns("abc", &patterns));
    assert!(!matches_patterns("[*", &patterns));
}

#[test]
fn patterns_tried_in_order_until_one_matches() {
    let patterns = vec!["x".to_string(), "y?".to_string(), "*".to_string()];
    assert!(matches_patterns("anything", &patterns));
    let patterns = vec!["x".to_string(), "y?".to_string()];
    assert!(matches_patterns("yz", &patterns));
    assert!(!matches_patterns("y", &patterns));
}

#[test]
fn glob_verdict_decides_only_for_globs_with_a_target() {
    assert!(decide_match("*.rs", "main.rs", None, true));
    assert!(!decide_match("*.rs", "main.py", None, false));
    assert!(decide_match("*", "x", None, false));
    assert!(!decide_match("a/*", "b", None, true));
    assert!(decide_match("a/*", "b", Some("a/b"), true));
    assert!(decide_match(".git", ".git", None, false));
    assert!(!decide_match(".git", "git", None, true));
    assert!(!decide_match("mason/packages", "packages", Some("other/packages"), true));
}
