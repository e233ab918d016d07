use globset::{GlobBuilder, GlobSetBuilder};
use hyperlit::error::HyperlitError;
use hyperlit::path::FilePath;
use hyperlit::scanner::{collect_scan, scan_files, Config, DirectoryConfig, WalkOutcome};

/// A walk over an in-memory file list: every file matching one of the patterns, whatever
/// the directory.
fn mock_walk(files: &[&str]) -> impl Fn(&FilePath, &[String]) -> WalkOutcome {
    let files: Vec<String> = files.iter().map(|f| f.to_string()).collect();
    move |_path: &FilePath, globs: &[String]| {
        let mut builder = GlobSetBuilder::new();
        for g in globs {
            let glob = GlobBuilder::new(g)
                .build()
                .map_err(|e| Box::new(HyperlitError::message(&format!("Invalid glob pattern '{}': {}", g, e))))?;
            builder.add(glob);
        }
        let set = builder.build().map_err(|e| Box::new(HyperlitError::message(&e.to_string())))?;
        Ok(files.iter().filter(|f| set.is_match(f.as_str())).map(|f| Ok(FilePath::from(f.as_str()))).collect())
    }
}

fn dir(paths: &[&str], globs: &[&str]) -> DirectoryConfig {
    DirectoryConfig {
        paths: paths.iter().map(|p| p.to_string()).collect(),
        globs: globs.iter().map(|g| g.to_string()).collect(),
    }
}

fn config(title: &str, directory: Vec<DirectoryConfig>) -> Config {
    Config {
        title: title.to_string(),
        source_link_template: "https://example.com/{path}".to_string(),
        directory,
    }
}

#[test]
fn test_scan_files_success() {
    let walk = mock_walk(&["src/main.rs", "src/lib.rs", "docs/readme.md"]);
    let config = config("Test Project", vec![dir(&["src"], &["*.rs"]), dir(&["docs"], &["*.md"])]);
    let result = scan_files(walk, &config).unwrap();

    assert_eq!(result.files.len(), 3);
    assert!(result.files.contains(&FilePath::from("src/main.rs")));
    assert!(result.files.contains(&FilePath::from("src/lib.rs")));
    assert!(result.files.contains(&FilePath::from("docs/readme.md")));
    assert_eq!(result.errors.len(), 0);
}

#[test]
fn test_scan_files_empty_config() {
    let walk = mock_walk(&[]);
    let config = config("Empty Project", vec![]);
    let result = scan_files(walk, &config).unwrap();

    assert_eq!(result.files.len(), 0);
    assert_eq!(result.errors.len(), 0);
}

#[test]
fn test_scan_files_nonexistent_directory() {
    let walk = mock_walk(&[]);
    let config = config("Test Project", vec![dir(&["nonexistent"], &["*.rs"])]);
    let result = scan_files(walk, &config).unwrap();

    assert_eq!(result.files.len(), 0);
    assert_eq!(result.errors.len(), 0);
}

#[test]
fn test_scan_files_multiple_paths_per_directory() {
    let walk = mock_walk(&["src/main.rs", "lib/lib.rs"]);
    let config = config("Multi-path Project", vec![dir(&["src", "lib"], &["*.rs"])]);
    let result = scan_files(walk, &config).unwrap();

    // The walk ignores the directory: both files come for each of the two paths.
    assert_eq!(result.files.len(), 4);
    assert!(result.files.iter().filter(|f| **f == FilePath::from("src/main.rs")).count() >= 1);
    assert!(result.files.iter().filter(|f| **f == FilePath::from("lib/lib.rs")).count() >= 1);
}

#[test]
fn test_scan_files_no_matches() {
    let walk = mock_walk(&["src/main.rs"]);
    let config = config("No Match Project", vec![dir(&["src"], &["*.py"])]);
    let result = scan_files(walk, &config).unwrap();

    assert_eq!(result.files.len(), 0);
    assert_eq!(result.errors.len(), 0);
}

#[test]
fn test_scan_files_mixed_success_failure() {
    let walk = mock_walk(&["src/main.rs"]);
    let config = config("Mixed Project", vec![dir(&["src"], &["*.rs"]), dir(&["nonexistent"], &["*.py"])]);
    let result = scan_files(walk, &config).unwrap();

    assert_eq!(result.files.len(), 1);
    assert!(result.files.contains(&FilePath::from("src/main.rs")));
    assert_eq!(result.errors.len(), 0);
}

#[test]
fn scan_collects_errors_by_directory() {
    let walks: Vec<(String, WalkOutcome)> = vec![
        ("a".to_string(), Err(Box::new(HyperlitError::message("no such directory")))),
        (
            "b".to_string(),
            Ok(vec![
                Ok(FilePath::from("b/x.rs")),
                Err(Box::new(HyperlitError::message("unreadable entry"))),
                Ok(FilePath::from("b/y.rs")),
            ]),
        ),
    ];
    let result = collect_scan(walks);
    assert_eq!(result.files, vec![FilePath::from("b/x.rs"), FilePath::from("b/y.rs")]);
    let dirs: Vec<&str> = result.errors.iter().map(|e| e.directory_path.as_str()).collect();
    assert_eq!(dirs, vec!["a", "b"]);
    assert_eq!(result.errors[0].error.to_string(), "no such directory");
}

#[test]
fn scan_with_invalid_glob_reports_error() {
    let walk = mock_walk(&["src/main.rs"]);
    let config = config("Bad", vec![dir(&["src"], &["[invalid"])]);
    let result = scan_files(walk, &config).unwrap();
    assert_eq!(result.files.len(), 0);
    assert_eq!(result.errors.len(), 1);
    assert_eq!(result.errors[0].directory_path, "src");
}
