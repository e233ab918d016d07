use hyperlit::glob::{build_glob_set, select_matching};

#[test]
fn test_glob_patterns_are_validated() {
    let err = build_glob_set(&["[invalid(".to_string()]).unwrap_err();
    assert!(err.to_string().starts_with("Invalid glob pattern '[invalid(': "));
}

#[test]
fn test_multiple_glob_patterns() {
    let set = build_glob_set(&["*.rs".to_string(), "*.toml".to_string()]).unwrap();
    let files = ["test.rs", "test.toml", "test.txt"];
    let results: Vec<_> = files.iter().filter(|f| set.is_match(f)).collect();
    assert_eq!(results.len(), 2);
}

#[test]
fn first_invalid_pattern_is_reported() {
    let err = build_glob_set(&["*.rs".to_string(), "a[".to_string(), "b[".to_string()]).unwrap_err();
    assert!(err.to_string().starts_with("Invalid glob pattern 'a[': "));
}

#[test]
fn walk_selection_keeps_matching_files_under_the_root() {
    let set = build_glob_set(&["*.rs".to_string()]).unwrap();
    let walked = vec![
        "/w/main.rs".to_string(),
        "/w/notes.txt".to_string(),
        "/elsewhere/lib.rs".to_string(),
        "/w/sub/mod.rs".to_string(),
    ];
    let files = select_matching(&set, "/w", "src", &walked);
    assert_eq!(files, vec!["src/main.rs".to_string(), "src/sub/mod.rs".to_string()]);
}
