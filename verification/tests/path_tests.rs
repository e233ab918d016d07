use hyperlit::path::FilePath;
use std::collections::{HashMap, HashSet};

#[test]
fn test_file_path_from_str() {
    let path = FilePath::from("src/main.rs");
    assert_eq!(path.as_str(), "src/main.rs");
}

#[test]
fn test_file_path_from_string() {
    let path = FilePath::from(String::from("tests/data.txt"));
    assert_eq!(path.as_str(), "tests/data.txt");
}

#[test]
fn test_file_path_equality() {
    let path1 = FilePath::from("test.txt");
    let path2 = FilePath::from("test.txt");
    assert_eq!(path1, path2);
}

#[test]
fn test_file_path_inequality() {
    let path1 = FilePath::from("test1.txt");
    let path2 = FilePath::from("test2.txt");
    assert_ne!(path1, path2);
}

#[test]
fn test_file_path_display() {
    let path = FilePath::from("src/main.rs");
    assert_eq!(path.to_string(), "src/main.rs".to_string());
}

#[test]
fn test_file_path_hash() {
    let mut set = HashSet::new();
    set.insert(FilePath::from("test1.txt"));
    set.insert(FilePath::from("test2.txt"));
    assert!(set.contains(&FilePath::from("test1.txt")));
    assert!(!set.contains(&FilePath::from("test3.txt")));
}

#[test]
fn test_filepath_from_str() {
    let path = FilePath::from("src/main.rs");
    assert_eq!(path.as_str(), "src/main.rs");
}

#[test]
fn test_filepath_from_string() {
    let s = String::from("tests/data.txt");
    let path = FilePath::from(s);
    assert_eq!(path.as_str(), "tests/data.txt");
}

#[test]
fn test_filepath_equality() {
    let p1 = FilePath::from("test.txt");
    let p2 = FilePath::from("test.txt");
    assert_eq!(p1, p2);
}

#[test]
fn test_filepath_inequality() {
    let p1 = FilePath::from("a.txt");
    let p2 = FilePath::from("b.txt");
    assert_ne!(p1, p2);
}

#[test]
fn test_filepath_clone() {
    let p1 = FilePath::from("test.txt");
    let p2 = p1.clone();
    assert_eq!(p1, p2);
}

#[test]
fn test_filepath_display() {
    let path = FilePath::from("src/main.rs");
    let display_str = path.to_string();
    assert_eq!(display_str, "src/main.rs");
}

#[test]
fn test_filepath_in_collection() {
    let mut set = HashSet::new();
    set.insert(FilePath::from("a.rs"));
    set.insert(FilePath::from("b.rs"));
    set.insert(FilePath::from("a.rs")); // duplicate

    assert_eq!(set.len(), 2);
}

#[test]
fn test_filepath_as_map_key() {
    let mut map = HashMap::new();
    map.insert(FilePath::from("a.rs"), "file_a");
    map.insert(FilePath::from("b.rs"), "file_b");

    assert_eq!(map.get(&FilePath::from("a.rs")), Some(&"file_a"));
}

#[test]
fn file_stem_and_extension() {
    let p = FilePath::from("docs/guide.intro.md");
    assert_eq!(p.file_stem(), Some("guide.intro".to_string()));
    assert_eq!(p.extension(), Some("md".to_string()));
    let q = FilePath::from("Makefile");
    assert_eq!(q.file_stem(), Some("Makefile".to_string()));
    assert_eq!(q.extension(), None);
    let hidden = FilePath::from("dir/.hidden");
    assert_eq!(hidden.file_stem(), Some(".hidden".to_string()));
    assert_eq!(hidden.extension(), None);
    assert!(p.same_as(&FilePath::from("docs/guide.intro.md")));
    assert!(!p.same_as(&q));
}
