use hyperlit::document::{Document, DocumentSource, SourceType, StringSet};
use hyperlit::path::FilePath;
use hyperlit::scan_search::{ScanSearchService, SearchDocument, SearchHit, SearchRequest, SearchService};
use hyperlit::search::{MatchType, SimpleSearch};

fn create_test_doc(title: &str, content: &str) -> Document {
    let source = DocumentSource::new(SourceType::CodeComment, FilePath::from("test.rs"), 1);
    Document::new(title.to_string(), content.to_string(), source, None, &StringSet::new())
}

#[test]
fn test_empty_query_returns_no_results() {
    let search = SimpleSearch::new();
    let docs = vec![create_test_doc("Test", "Content")];
    let results = search.search(&docs, "");
    assert!(results.is_empty());
}

#[test]
fn test_title_match() {
    let search = SimpleSearch::new();
    let docs = vec![create_test_doc("Why Use Arc?", "Some content about Mutex")];
    let results = search.search(&docs, "arc");

    assert_eq!(results.len(), 1);
    assert_eq!(results[0].match_type, MatchType::Title);
    assert_eq!(results[0].score, 100);
}

#[test]
fn test_content_match() {
    let search = SimpleSearch::new();
    let docs = vec![create_test_doc("Some Title", "This is about Mutex and locks")];
    let results = search.search(&docs, "mutex");

    assert_eq!(results.len(), 1);
    assert_eq!(results[0].match_type, MatchType::Content);
    assert_eq!(results[0].score, 10);
}

#[test]
fn test_title_priority_over_content() {
    let search = SimpleSearch::new();
    let docs = vec![
        create_test_doc("Mutex Guide", "Content about threading"),
        create_test_doc("Threading", "Content about Mutex usage"),
    ];
    let results = search.search(&docs, "mutex");

    assert_eq!(results.len(), 2);
    // Title match should come first
    assert_eq!(results[0].match_type, MatchType::Title);
    assert_eq!(results[1].match_type, MatchType::Content);
}

#[test]
fn test_both_match() {
    let search = SimpleSearch::new();
    let docs = vec![create_test_doc("Arc Pattern", "This explains the Arc pattern")];
    let results = search.search(&docs, "arc");

    assert_eq!(results.len(), 1);
    assert_eq!(results[0].match_type, MatchType::Both);
    assert_eq!(results[0].score, 110);
}

#[test]
fn test_case_insensitive() {
    let search = SimpleSearch::new();
    let docs = vec![create_test_doc("UPPERCASE", "MiXeD CaSe CoNtEnT")];

    let results = search.search(&docs, "upper");
    assert_eq!(results.len(), 1);

    let results = search.search(&docs, "mixed");
    assert_eq!(results.len(), 1);
}

#[test]
fn test_no_matches() {
    let search = SimpleSearch::new();
    let docs = vec![create_test_doc("Rust Guide", "Content about ownership")];
    let results = search.search(&docs, "python");

    assert!(results.is_empty());
}

#[test]
fn search_results_sorted_by_score_and_stable() {
    let search = SimpleSearch::new();
    let docs = vec![
        create_test_doc("Alpha", "nothing here"),
        create_test_doc("Beta", "about alpha things"),
        create_test_doc("Alpha Beta", "alpha again"),
        create_test_doc("alpha two", "plain"),
    ];
    let results = search.search(&docs, "ALPHA");
    let titles: Vec<&str> = results.iter().map(|r| r.document.title()).collect();
    assert_eq!(titles, vec!["Alpha Beta", "Alpha", "alpha two", "Beta"]);
    let scores: Vec<usize> = results.iter().map(|r| r.score).collect();
    assert_eq!(scores, vec![110, 100, 100, 10]);
}

fn hits(ids: &[(&str, &str)]) -> Vec<SearchHit> {
    ids.iter()
        .map(|(id, title)| SearchHit { document_id: id.to_string(), document_title: title.to_string() })
        .collect()
}

#[test]
fn test_index() {
    let mut search_service = ScanSearchService::new().unwrap();
    search_service
        .index_files(vec![
            SearchDocument::new("one", "Title 1", "this is the first document"),
            SearchDocument::new("two", "Title 2", "this is the second document"),
        ])
        .unwrap();
    assert_eq!(search_service.search(SearchRequest::new("first")).unwrap().hits, hits(&[("one", "Title 1")]));
    assert_eq!(
        search_service.search(SearchRequest::new("DOCUMENT")).unwrap().hits,
        hits(&[("one", "Title 1"), ("two", "Title 2")])
    );
    assert_eq!(search_service.search(SearchRequest::new("three")).unwrap().hits, hits(&[]));
    assert_eq!(search_service.search(SearchRequest::new("title")).unwrap().hits, hits(&[]));
}

#[test]
fn scan_search_matches_mixed_case_text() {
    let mut service = ScanSearchService::new().unwrap();
    service.index_files(vec![SearchDocument::new("a", "A", "Hello WORLD")]).unwrap();
    service.index_files(vec![SearchDocument::new("b", "B", "world peace")]).unwrap();
    assert_eq!(service.search(SearchRequest::new("World")).unwrap().hits, hits(&[("a", "A"), ("b", "B")]));
    assert_eq!(service.search(SearchRequest::new("")).unwrap().hits, hits(&[("a", "A"), ("b", "B")]));
}
