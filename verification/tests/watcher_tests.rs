use hyperlit::document::{Document, DocumentSource, SourceType, StringSet};
use hyperlit::error::HyperlitError;
use hyperlit::path::FilePath;
use hyperlit::store::{DocumentStore, InMemoryStore};
use hyperlit::watcher::{documents_from_file, handle_file_change, remove_documents_for_file, Debouncer};
use std::time::Duration;

#[test]
fn test_debouncer() {
    let mut debouncer = Debouncer::new(Duration::from_millis(100));
    let file_path = FilePath::from("test.rs");

    // First event should be processed
    assert!(debouncer.should_process(&file_path));

    // Immediate second event should be debounced
    assert!(!debouncer.should_process(&file_path));
}

#[test]
fn debouncer_lets_events_through_after_the_window() {
    let mut debouncer = Debouncer::new(Duration::from_millis(100));
    let a = FilePath::from("a.rs");
    let b = FilePath::from("b.rs");
    let ms = 1_000_000u128;
    assert!(debouncer.should_process_at(&a, 0));
    assert!(!debouncer.should_process_at(&a, 50 * ms));
    // Other files are independent.
    assert!(debouncer.should_process_at(&b, 50 * ms));
    // After waiting, event should be processed
    assert!(debouncer.should_process_at(&a, 150 * ms));
    // The window counts from the last event acted on.
    assert!(!debouncer.should_process_at(&a, 200 * ms));
    assert!(debouncer.should_process_at(&a, 250 * ms));
}

fn doc(title: &str, file: &str, existing: &StringSet) -> Document {
    let source = DocumentSource::new(SourceType::MarkdownFile, FilePath::from(file), 1);
    Document::new(title.to_string(), "body".to_string(), source, None, existing)
}

#[test]
fn documents_of_a_file_are_found_in_order() {
    let existing = StringSet::new();
    let docs = vec![doc("A", "x.md", &existing), doc("B", "y.md", &existing), doc("C", "x.md", &existing)];
    let ids = documents_from_file(&docs, &FilePath::from("x.md"));
    let ids: Vec<&str> = ids.iter().map(|i| i.as_str()).collect();
    assert_eq!(ids, vec!["a", "c"]);
}

#[test]
fn removing_a_file_keeps_other_documents() {
    let existing = StringSet::new();
    let mut store = InMemoryStore::new();
    store.insert(doc("A", "x.md", &existing)).unwrap();
    store.insert(doc("B", "y.md", &existing)).unwrap();
    store.insert(doc("C", "x.md", &existing)).unwrap();
    let (removed, errors) = remove_documents_for_file(&FilePath::from("x.md"), &mut store);
    assert_eq!(removed, 2);
    assert!(errors.is_empty());
    assert_eq!(store.len().unwrap(), 1);
    assert_eq!(store.list().unwrap()[0].title(), "B");
}

#[test]
fn changed_file_is_extracted_again() {
    let existing = StringSet::new();
    let mut store = InMemoryStore::new();
    store.insert(doc("Old Title", "x.md", &existing)).unwrap();
    store.insert(doc("Other", "y.md", &existing)).unwrap();
    let report = handle_file_change(&FilePath::from("x.md"), Some(Ok("# New Title\n\nText".to_string())), &mut store);
    assert_eq!(report.removed, 1);
    assert_eq!(report.inserted, 1);
    assert!(report.store_errors.is_empty());
    assert!(report.extraction_errors.is_empty());
    let titles: Vec<String> = store.list().unwrap().iter().map(|d| d.title().to_string()).collect();
    assert_eq!(titles.len(), 2);
    assert!(titles.contains(&"New Title".to_string()));
    assert!(titles.contains(&"Other".to_string()));
}

#[test]
fn deleted_file_only_removes() {
    let existing = StringSet::new();
    let mut store = InMemoryStore::new();
    store.insert(doc("Gone", "x.md", &existing)).unwrap();
    let report = handle_file_change(&FilePath::from("x.md"), None, &mut store);
    assert_eq!(report.removed, 1);
    assert_eq!(report.inserted, 0);
    assert!(store.is_empty().unwrap());
}

#[test]
fn unreadable_file_reports_extraction_error() {
    let mut store = InMemoryStore::new();
    let report = handle_file_change(
        &FilePath::from("bad.md"),
        Some(Err(Box::new(HyperlitError::message("File is not valid UTF-8: bad.md")))),
        &mut store,
    );
    assert_eq!(report.removed, 0);
    assert_eq!(report.inserted, 0);
    assert_eq!(report.extraction_errors.len(), 1);
    assert_eq!(report.extraction_errors[0].file_path, FilePath::from("bad.md"));
}
