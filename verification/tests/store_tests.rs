use hyperlit::document::{Document, DocumentSource, SourceType, StringSet};
use hyperlit::path::FilePath;
use hyperlit::store::{DocumentStore, InMemoryStore};

fn create_test_document(title: &str, existing: &StringSet) -> Document {
    let source = DocumentSource::new(SourceType::CodeComment, FilePath::from("src/test.rs"), 10);
    Document::new(title.to_string(), format!("Content for {}", title), source, None, existing)
}

#[test]
fn test_store_new() {
    let store = InMemoryStore::new();
    assert!(store.is_empty().unwrap());
    assert_eq!(store.len().unwrap(), 0);
}

#[test]
fn test_store_insert_and_get() {
    let mut store = InMemoryStore::new();
    let existing = StringSet::new();
    let doc = create_test_document("Test Doc", &existing);
    let id = doc.id().clone();

    let stored_id = store.insert(doc).unwrap();
    assert_eq!(stored_id, id);

    let retrieved = store.get(&id).unwrap();
    assert!(retrieved.is_some());
    assert_eq!(retrieved.unwrap().title(), "Test Doc");
}

#[test]
fn test_store_contains() {
    let mut store = InMemoryStore::new();
    let existing = StringSet::new();
    let doc = create_test_document("Test Doc", &existing);
    let id = doc.id().clone();

    assert!(!store.contains(&id).unwrap());
    store.insert(doc).unwrap();
    assert!(store.contains(&id).unwrap());
}

#[test]
fn test_store_get_nonexistent() {
    let store = InMemoryStore::new();
    let existing = StringSet::new();
    let doc = create_test_document("Test Doc", &existing);
    let id = doc.id().clone();

    let retrieved = store.get(&id).unwrap();
    assert!(retrieved.is_none());
}

#[test]
fn test_store_list() {
    let mut store = InMemoryStore::new();
    let existing = StringSet::new();

    let doc1 = create_test_document("First Doc", &existing);
    let id1 = doc1.id().clone();
    store.insert(doc1).unwrap();

    let mut existing = existing;
    existing.insert(id1.as_str().to_string());
    let doc2 = create_test_document("Second Doc", &existing);
    store.insert(doc2).unwrap();

    let list = store.list().unwrap();
    assert_eq!(list.len(), 2);
}

#[test]
fn test_store_remove() {
    let mut store = InMemoryStore::new();
    let existing = StringSet::new();
    let doc = create_test_document("Test Doc", &existing);
    let id = doc.id().clone();

    store.insert(doc).unwrap();
    assert_eq!(store.len().unwrap(), 1);

    let removed = store.remove(&id).unwrap();
    assert!(removed.is_some());
    assert_eq!(removed.unwrap().title(), "Test Doc");
    assert_eq!(store.len().unwrap(), 0);
}

#[test]
fn test_store_remove_nonexistent() {
    let mut store = InMemoryStore::new();
    let existing = StringSet::new();
    let doc = create_test_document("Test Doc", &existing);
    let id = doc.id().clone();

    let removed = store.remove(&id).unwrap();
    assert!(removed.is_none());
}

#[test]
fn test_store_clear() {
    let mut store = InMemoryStore::new();
    let existing = StringSet::new();

    let doc1 = create_test_document("First Doc", &existing);
    let id1 = doc1.id().clone();
    store.insert(doc1).unwrap();

    let mut existing = existing;
    existing.insert(id1.as_str().to_string());
    let doc2 = create_test_document("Second Doc", &existing);
    store.insert(doc2).unwrap();

    assert_eq!(store.len().unwrap(), 2);
    store.clear().unwrap();
    assert!(store.is_empty().unwrap());
}

#[test]
fn test_store_update_existing() {
    let mut store = InMemoryStore::new();
    let existing = StringSet::new();
    let doc = create_test_document("Test Doc", &existing);
    let id = doc.id().clone();

    store.insert(doc).unwrap();

    let existing2 = StringSet::new();
    let doc2 = create_test_document("Test Doc Updated", &existing2);
    let id2 = doc2.id().clone();

    // Different IDs since the titles are different
    assert_ne!(id, id2);

    store.insert(doc2.clone()).unwrap();
    assert_eq!(store.len().unwrap(), 2);

    // Get the second document back
    let retrieved = store.get(&id2).unwrap();
    assert_eq!(retrieved.unwrap().title(), "Test Doc Updated");
}

#[test]
fn test_store_with_capacity() {
    let store = InMemoryStore::with_capacity(100);
    assert!(store.is_empty().unwrap());
    assert_eq!(store.len().unwrap(), 0);
}

#[test]
fn insert_replaces_document_with_same_id() {
    let mut store = InMemoryStore::new();
    let existing = StringSet::new();
    let doc = create_test_document("Same", &existing);
    let id = doc.id().clone();
    store.insert(doc).unwrap();
    let source = DocumentSource::new(SourceType::MarkdownFile, FilePath::from("b.md"), 1);
    let replacement = Document::new("Same".to_string(), "new content".to_string(), source, None, &existing);
    store.insert(replacement).unwrap();
    assert_eq!(store.len().unwrap(), 1);
    assert_eq!(store.get(&id).unwrap().unwrap().content(), "new content");
}

#[test]
fn remove_keeps_other_documents() {
    let mut store = InMemoryStore::new();
    let existing = StringSet::new();
    let a = create_test_document("A", &existing);
    let b = create_test_document("B", &existing);
    let ida = a.id().clone();
    let idb = b.id().clone();
    store.insert(a).unwrap();
    store.insert(b).unwrap();
    store.remove(&ida).unwrap();
    assert!(!store.contains(&ida).unwrap());
    assert_eq!(store.get(&idb).unwrap().unwrap().title(), "B");
}
