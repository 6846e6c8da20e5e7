use std::path::PathBuf;

use vsgrep::cli::SearchArgs;
use vsgrep::walk::{
    check_type_names, is_binary_prefix, keep_entry, walk, WalkConfig, WalkError, BINARY_PROBE_BYTES,
};

fn search(paths: Vec<PathBuf>, types: Vec<String>, globs: Vec<String>) -> SearchArgs {
    SearchArgs {
        query: Some("q".to_string()),
        paths,
        top_k: 10,
        threshold_bits: None,
        types,
        globs,
        score: false,
        context: 0,
        heading: false,
        ef: None,
        chunk_size: 20,
        chunk_overlap: 5,
        hybrid: false,
    }
}

fn cfg_with(types: Vec<String>, globs: Vec<String>) -> WalkConfig {
    WalkConfig {
        paths: vec![PathBuf::from(".")],
        types,
        globs,
        follow_symlinks: false,
        hidden: false,
    }
}

#[test]
fn from_search_args_defaults_to_dot() {
    let cfg = WalkConfig::from_search_args(&search(vec![], vec![], vec![]));
    assert_eq!(cfg.paths, vec![PathBuf::from(".")]);
    assert!(cfg.types.is_empty());
    assert!(cfg.globs.is_empty());
    assert!(!cfg.follow_symlinks);
    assert!(!cfg.hidden);
}

#[test]
fn from_search_args_carries_paths_types_globs() {
    let cfg = WalkConfig::from_search_args(&search(
        vec![PathBuf::from("src/"), PathBuf::from("lib/")],
        vec!["rust".to_string()],
        vec!["!*.md".to_string()],
    ));
    assert_eq!(cfg.paths, vec![PathBuf::from("src/"), PathBuf::from("lib/")]);
    assert_eq!(cfg.types, vec!["rust".to_string()]);
    assert_eq!(cfg.globs, vec!["!*.md".to_string()]);
}

#[test]
fn unknown_type_is_reported() {
    let cfg = cfg_with(vec!["this-type-does-not-exist".to_string()], vec![]);
    match walk(&cfg) {
        Err(WalkError::UnknownType(name)) => assert_eq!(name, "this-type-does-not-exist"),
        Err(other) => panic!("expected UnknownType, got {other:?}"),
        Ok(_) => panic!("expected UnknownType, got Ok"),
    }
}

#[test]
fn invalid_glob_is_reported() {
    let cfg = cfg_with(vec![], vec!["[".to_string()]);
    match walk(&cfg) {
        Err(WalkError::InvalidGlob { glob, .. }) => assert_eq!(glob, "["),
        Err(other) => panic!("expected InvalidGlob, got {other:?}"),
        Ok(_) => panic!("expected InvalidGlob, got Ok"),
    }
}

#[test]
fn known_types_and_valid_globs_are_accepted() {
    let cfg = cfg_with(
        vec!["rust".to_string(), "all".to_string()],
        vec!["!*.md".to_string(), "*.rs".to_string()],
    );
    assert!(walk(&cfg).is_ok());
    assert!(walk(&cfg_with(vec![], vec![])).is_ok());
}

#[test]
fn first_unknown_type_is_reported() {
    let cfg = cfg_with(
        vec!["rust".to_string(), "nope1".to_string(), "nope2".to_string()],
        vec!["[".to_string()],
    );
    match walk(&cfg) {
        Err(WalkError::UnknownType(name)) => assert_eq!(name, "nope1"),
        other => panic!("expected UnknownType, got {other:?}"),
    }
}

#[test]
fn first_refused_glob_is_reported() {
    let cfg = cfg_with(vec![], vec!["*.rs".to_string(), "a[".to_string(), "[".to_string()]);
    match walk(&cfg) {
        Err(WalkError::InvalidGlob { glob, .. }) => assert_eq!(glob, "a["),
        other => panic!("expected InvalidGlob, got {other:?}"),
    }
}

#[test]
fn type_names_are_checked_in_order() {
    let v = |s: &[&str]| s.iter().map(|x| x.to_string()).collect::<Vec<_>>();
    let known = v(&["rust", "py"]);
    assert_eq!(check_type_names(&v(&["py", "all", "rust"]), &known), Ok(()));
    assert_eq!(
        check_type_names(&v(&["py", "go", "c"]), &known),
        Err("go".to_string())
    );
    assert_eq!(check_type_names(&v(&[]), &known), Ok(()));
    assert_eq!(check_type_names(&v(&["all"]), &v(&[])), Ok(()));
}

#[test]
fn nul_byte_marks_binary() {
    assert!(!is_binary_prefix(b"hello, world\n"));
    assert!(is_binary_prefix(b"\x89PNG\r\n\x1a\n\x00\x00\x00rest"));
    assert!(!is_binary_prefix(b""));
    assert!(!is_binary_prefix(&vec![b'x'; 8192]));
    assert!(is_binary_prefix(b"\x00"));
}

/// The part of a file's contents that the binary probe looks at.
fn probe(content: &[u8]) -> &[u8] {
    &content[..content.len().min(BINARY_PROBE_BYTES)]
}

#[test]
fn binary_text_file_is_not_binary() {
    assert!(!is_binary_prefix(probe(b"hello, world\n")));
}

#[test]
fn binary_with_nul_byte_is_binary() {
    assert!(is_binary_prefix(probe(b"\x89PNG\r\n\x1a\n\x00\x00\x00rest")));
}

#[test]
fn empty_file_is_not_binary() {
    assert!(!is_binary_prefix(probe(b"")));
}

#[test]
fn large_file_without_nul_is_not_binary() {
    let content = vec![b'x'; 10 * 1024 * 1024];
    assert!(!is_binary_prefix(probe(&content)));
}

#[test]
fn nul_after_the_probe_is_not_seen() {
    let mut content = vec![b'x'; BINARY_PROBE_BYTES];
    content.push(0);
    assert!(!is_binary_prefix(probe(&content)));
    assert_eq!(BINARY_PROBE_BYTES, 8 * 1024);
}

#[test]
fn rust_type_alone_is_accepted() {
    assert!(walk(&cfg_with(vec!["rust".to_string()], vec![])).is_ok());
    assert!(walk(&cfg_with(vec!["all".to_string()], vec![])).is_ok());
}

#[test]
fn unknown_type_is_reported_before_a_refused_glob() {
    let cfg = cfg_with(vec!["nope".to_string()], vec!["[".to_string()]);
    match walk(&cfg) {
        Err(WalkError::UnknownType(name)) => assert_eq!(name, "nope"),
        other => panic!("expected UnknownType, got {other:?}"),
    }
}

#[test]
fn refused_glob_is_reported_after_known_types() {
    let cfg = cfg_with(vec!["rust".to_string()], vec!["[".to_string()]);
    match walk(&cfg) {
        Err(WalkError::InvalidGlob { glob, .. }) => assert_eq!(glob, "["),
        other => panic!("expected InvalidGlob, got {other:?}"),
    }
}

#[test]
fn comment_blank_and_padded_globs_are_accepted() {
    let globs = vec!["#note".to_string(), "".to_string(), "*.rs ".to_string(), "a\\ ".to_string()];
    assert!(walk(&cfg_with(vec![], globs)).is_ok());
}

#[test]
fn entries_kept_are_text_files() {
    assert!(keep_entry(true, Some(b"fn main() {}\n")));
    assert!(keep_entry(true, Some(b"")));
    assert!(!keep_entry(true, Some(b"ab\x00cd")));
    assert!(!keep_entry(true, None));
    assert!(!keep_entry(false, Some(b"text")));
    assert!(!keep_entry(false, None));
}
