//! Case-insensitive substring search over documents, title matches first.
use vstd::prelude::*;
use crate::document::{Document, DocumentView};
use crate::text::{contains_sub, lowercase_of, str_contains, to_lowercase};

verus! {

/// Type of search match.
#[derive(Debug, Clone, Copy, PartialEq, Eq, Structural)]
pub enum MatchType {
    /// Match found in the document title
    Title,
    /// Match found in the document content
    Content,
    /// Match found in both title and content
    Both,
}

/// A search result containing the document and match information.
#[derive(Debug)]
pub struct SearchResult {
    /// The matching document
    pub document: Document,
    /// The relevance score (higher = better match)
    pub score: usize,
    /// Where the match was found
    pub match_type: MatchType,
}

impl View for SearchResult {
    type V = (DocumentView, usize, MatchType);

    open spec fn view(&self) -> (DocumentView, usize, MatchType) {
        (self.document@, self.score, self.match_type)
    }
}

impl Clone for SearchResult {
    fn clone(&self) -> (r: Self)
        ensures
            r@ == self@,
    {
        SearchResult { document: self.document.clone(), score: self.score, match_type: self.match_type }
    }
}

/// Where the lower-cased query `ql` occurs in the document: in its title, its content,
/// both, or neither (`None`), each compared in lower case.
pub open spec fn match_type_of(d: DocumentView, ql: Seq<char>) -> Option<MatchType> {
    let t = contains_sub(lowercase_of(d.title), ql);
    let c = contains_sub(lowercase_of(d.content), ql);
    if t && c {
        Some(MatchType::Both)
    } else if t {
        Some(MatchType::Title)
    } else if c {
        Some(MatchType::Content)
    } else {
        None
    }
}

/// The score of a match: 110 for both, 100 for the title, 10 for the content.
pub open spec fn score_of(m: MatchType) -> usize {
    match m {
        MatchType::Both => 110,
        MatchType::Title => 100,
        MatchType::Content => 10,
    }
}

/// The results of kind `m` among `docs`, in the order of `docs`.
pub open spec fn results_of(docs: Seq<DocumentView>, ql: Seq<char>, m: MatchType) -> Seq<(DocumentView, usize, MatchType)>
    decreases docs.len(),
{
    if docs.len() == 0 {
        Seq::empty()
    } else {
        let r = results_of(docs.drop_last(), ql, m);
        if match_type_of(docs.last(), ql) == Some(m) {
            r.push((docs.last(), score_of(m), m))
        } else {
            r
        }
    }
}

/// The results of a search for `q` among `docs`: none for an empty query; otherwise
/// every matching document, ordered by score (highest first) and, within a score, in
/// the order of `docs`.
pub open spec fn search_results(docs: Seq<DocumentView>, q: Seq<char>) -> Seq<(DocumentView, usize, MatchType)> {
    if q.len() == 0 {
        Seq::empty()
    } else {
        let ql = lowercase_of(q);
        results_of(docs, ql, MatchType::Both) + results_of(docs, ql, MatchType::Title)
            + results_of(docs, ql, MatchType::Content)
    }
}

/// The views of a sequence of search results.
pub open spec fn result_views(rs: Seq<SearchResult>) -> Seq<(DocumentView, usize, MatchType)> {
    rs.map_values(|x: SearchResult| x@)
}

/// The views of a sequence of documents.
pub open spec fn doc_views(docs: Seq<Document>) -> Seq<DocumentView> {
    docs.map_values(|d: Document| d@)
}

/// Simple in-memory search engine for documents.
#[derive(Debug, Clone, Copy)]
pub struct SimpleSearch;

impl SimpleSearch {
    /// Create a new simple search instance.
    pub fn new() -> (s: Self) {
        SimpleSearch
    }

    /// Search documents for the given query: case-insensitive substring matching on
    /// titles and contents, results sorted by score (highest first).
    pub fn search(&self, documents: &[Document], query: &str) -> (r: Vec<SearchResult>)
        ensures
            result_views(r@) == search_results(doc_views(documents@), query@),
    {
        let mut out: Vec<SearchResult> = Vec::new();
        if query.is_empty() {
            assert(out@.map_values(|x: SearchResult| x@) =~= Seq::<(DocumentView, usize, MatchType)>::empty());
            return out;
        }
        let query_lower = to_lowercase(query);
        let ghost ql = query_lower@;
        let ghost docs = doc_views(documents@);
        let mut both: Vec<SearchResult> = Vec::new();
        let mut title: Vec<SearchResult> = Vec::new();
        let mut content: Vec<SearchResult> = Vec::new();
        let mut i: usize = 0;
        while i < documents.len()
            invariant
                i <= documents@.len(),
                ql == query_lower@,
                docs == doc_views(documents@),
                both@.map_values(|x: SearchResult| x@) == results_of(docs.take(i as int), ql, MatchType::Both),
                title@.map_values(|x: SearchResult| x@) == results_of(docs.take(i as int), ql, MatchType::Title),
                content@.map_values(|x: SearchResult| x@) == results_of(docs.take(i as int), ql, MatchType::Content),
            decreases documents.len() - i,
        {
            let doc = &documents[i];
            let title_lower = to_lowercase(doc.title());
            let content_lower = to_lowercase(doc.content());
            let title_match = str_contains(title_lower.as_str(), query_lower.as_str());
            let content_match = str_contains(content_lower.as_str(), query_lower.as_str());
            let ghost prev = docs.take(i as int);
            proof {
                assert(docs.take(i + 1).drop_last() =~= prev);
                assert(docs.take(i + 1).last() == documents@[i as int]@);
            }
            let ghost ob = both@.map_values(|x: SearchResult| x@);
            let ghost ot = title@.map_values(|x: SearchResult| x@);
            let ghost oc = content@.map_values(|x: SearchResult| x@);
            if title_match && content_match {
                both.push(SearchResult { document: doc.clone(), score: 110, match_type: MatchType::Both });
                assert(both@.map_values(|x: SearchResult| x@) =~= ob.push((documents@[i as int]@, 110usize, MatchType::Both)));
            } else if title_match {
                title.push(SearchResult { document: doc.clone(), score: 100, match_type: MatchType::Title });
                assert(title@.map_values(|x: SearchResult| x@) =~= ot.push((documents@[i as int]@, 100usize, MatchType::Title)));
            } else if content_match {
                content.push(SearchResult { document: doc.clone(), score: 10, match_type: MatchType::Content });
                assert(content@.map_values(|x: SearchResult| x@) =~= oc.push((documents@[i as int]@, 10usize, MatchType::Content)));
            }
            i = i + 1;
        }
        assert(docs.take(documents@.len() as int) =~= docs);
        let ghost vb = both@.map_values(|x: SearchResult| x@);
        let ghost vt = title@.map_values(|x: SearchResult| x@);
        let ghost vc = content@.map_values(|x: SearchResult| x@);
        out.append(&mut both);
        out.append(&mut title);
        out.append(&mut content);
        assert(out@.map_values(|x: SearchResult| x@) =~= vb + vt + vc);
        out
    }
}

/// Law: the results of a search are ordered by score, highest first.
pub proof fn lemma_results_sorted(docs: Seq<DocumentView>, q: Seq<char>)
    ensures
        forall|i: int, j: int|
            0 <= i < j < search_results(docs, q).len() ==> search_results(docs, q)[i].1 >= search_results(docs, q)[j].1,
{
    if q.len() > 0 {
        let ql = lowercase_of(q);
        lemma_results_of_kind(docs, ql, MatchType::Both);
        lemma_results_of_kind(docs, ql, MatchType::Title);
        lemma_results_of_kind(docs, ql, MatchType::Content);
    }
}

/// Law: every result matches the query where its match type says, and carries the
/// score of that match type.
pub proof fn lemma_results_match(docs: Seq<DocumentView>, q: Seq<char>, i: int)
    requires
        0 <= i < search_results(docs, q).len(),
    ensures
        q.len() > 0,
        match_type_of(search_results(docs, q)[i].0, lowercase_of(q)) == Some(search_results(docs, q)[i].2),
        search_results(docs, q)[i].1 == score_of(search_results(docs, q)[i].2),
{
    let ql = lowercase_of(q);
    lemma_results_of_kind(docs, ql, MatchType::Both);
    lemma_results_of_kind(docs, ql, MatchType::Title);
    lemma_results_of_kind(docs, ql, MatchType::Content);
}

/// Law: a non-empty query finds every document that contains it, in its title or
/// its content.
pub proof fn lemma_results_complete(docs: Seq<DocumentView>, q: Seq<char>, k: int)
    requires
        q.len() > 0,
        0 <= k < docs.len(),
        match_type_of(docs[k], lowercase_of(q)) is Some,
    ensures
        exists|i: int| 0 <= i < search_results(docs, q).len() && #[trigger] search_results(docs, q)[i].0 == docs[k],
{
    let ql = lowercase_of(q);
    let m = match_type_of(docs[k], ql).unwrap();
    lemma_results_of_contains(docs, ql, m, k);
    let rb = results_of(docs, ql, MatchType::Both);
    let rt = results_of(docs, ql, MatchType::Title);
    let rc = results_of(docs, ql, MatchType::Content);
    let r = search_results(docs, q);
    let j = choose|j: int| 0 <= j < results_of(docs, ql, m).len() && results_of(docs, ql, m)[j].0 == docs[k];
    if m == MatchType::Both {
        assert(r[j] == rb[j]);
    } else if m == MatchType::Title {
        assert(r[rb.len() + j] == rt[j]);
    } else {
        assert(r[rb.len() + rt.len() + j] == rc[j]);
    }
}

/// Each result of kind `m` is a matching document of that kind with its score.
proof fn lemma_results_of_kind(docs: Seq<DocumentView>, ql: Seq<char>, m: MatchType)
    ensures
        forall|i: int| 0 <= i < results_of(docs, ql, m).len() ==> {
            let x = #[trigger] results_of(docs, ql, m)[i];
            x.1 == score_of(m) && x.2 == m && match_type_of(x.0, ql) == Some(m)
        },
    decreases docs.len(),
{
    if docs.len() > 0 {
        lemma_results_of_kind(docs.drop_last(), ql, m);
    }
}

/// A document of kind `m` appears among the results of kind `m`.
proof fn lemma_results_of_contains(docs: Seq<DocumentView>, ql: Seq<char>, m: MatchType, k: int)
    requires
        0 <= k < docs.len(),
        match_type_of(docs[k], ql) == Some(m),
    ensures
        exists|j: int| 0 <= j < results_of(docs, ql, m).len() && #[trigger] results_of(docs, ql, m)[j].0 == docs[k],
    decreases docs.len(),
{
    let r = results_of(docs, ql, m);
    if k == docs.len() - 1 {
        assert(r[r.len() - 1].0 == docs[k]);
    } else {
        lemma_results_of_contains(docs.drop_last(), ql, m, k);
        let p = results_of(docs.drop_last(), ql, m);
        let j = choose|j: int| 0 <= j < p.len() && #[trigger] p[j].0 == docs.drop_last()[k];
        assert(r[j] == p[j]);
    }
}

} // verus!
