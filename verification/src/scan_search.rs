//! A search service that scans every indexed document for the query, ignoring case.
use vstd::prelude::*;
use crate::error::HyperlitResult;
use crate::text::{contains_sub, lowercase_of, str_contains, to_lowercase};

verus! {

/// A document handed to a search service for indexing.
#[derive(Debug, Clone)]
pub struct SearchDocument {
    pub id: String,
    pub title: String,
    pub text: String,
}

/// A document as plain values: identifier, title and text.
pub type SearchDocumentView = (Seq<char>, Seq<char>, Seq<char>);

impl View for SearchDocument {
    type V = SearchDocumentView;

    open spec fn view(&self) -> SearchDocumentView {
        (self.id@, self.title@, self.text@)
    }
}

impl SearchDocument {
    /// A document with the given identifier, title and text.
    pub fn new(id: &str, title: &str, text: &str) -> (d: Self)
        ensures
            d@ == (id@, title@, text@),
    {
        SearchDocument { id: id.to_owned(), title: title.to_owned(), text: text.to_owned() }
    }
}

/// A search query.
#[derive(Debug, Clone)]
pub struct SearchRequest {
    pub search_string: String,
}

impl SearchRequest {
    /// A request for the given search string.
    pub fn new(search_string: &str) -> (r: Self)
        ensures
            r.search_string@ == search_string@,
    {
        SearchRequest { search_string: search_string.to_owned() }
    }
}

/// One document that matched a search.
#[derive(Debug, Clone, PartialEq, Eq)]
pub struct SearchHit {
    pub document_id: String,
    pub document_title: String,
}

/// The documents that matched a search, in indexing order.
#[derive(Debug, Clone, PartialEq, Eq)]
pub struct SearchResponse {
    pub hits: Vec<SearchHit>,
}

/// A hit as plain values: the document's identifier and title.
pub open spec fn hit_view(h: SearchHit) -> (Seq<char>, Seq<char>) {
    (h.document_id@, h.document_title@)
}

/// A service that indexes documents and answers search requests.
pub trait SearchService {
    /// Add documents to the index.
    fn index_files(&mut self, documents: Vec<SearchDocument>) -> HyperlitResult<()>;

    /// The indexed documents that match the request.
    fn search(&self, search_request: SearchRequest) -> HyperlitResult<SearchResponse>;
}

/// The documents as they are kept in the index: the text lower-cased.
pub open spec fn indexed(docs: Seq<SearchDocumentView>) -> Seq<SearchDocumentView> {
    docs.map_values(|d: SearchDocumentView| (d.0, d.1, lowercase_of(d.2)))
}

/// The hits of the lower-cased query `q` in the index `docs`: every document whose
/// (lower-cased) text contains `q`, in indexing order.
pub open spec fn scan_hits(docs: Seq<SearchDocumentView>, q: Seq<char>) -> Seq<(Seq<char>, Seq<char>)>
    decreases docs.len(),
{
    if docs.len() == 0 {
        Seq::empty()
    } else {
        let r = scan_hits(docs.drop_last(), q);
        let d = docs.last();
        if contains_sub(d.2, q) {
            r.push((d.0, d.1))
        } else {
            r
        }
    }
}

/// The hits of an index made of two parts are those of the first, then those of the
/// second.
proof fn lemma_scan_hits_concat(a: Seq<SearchDocumentView>, b: Seq<SearchDocumentView>, q: Seq<char>)
    ensures
        scan_hits(a + b, q) == scan_hits(a, q) + scan_hits(b, q),
    decreases b.len(),
{
    if b.len() == 0 {
        assert(a + b =~= a);
        assert(scan_hits(a, q) + scan_hits(b, q) =~= scan_hits(a, q));
    } else {
        lemma_scan_hits_concat(a, b.drop_last(), q);
        assert((a + b).drop_last() =~= a + b.drop_last());
        assert((a + b).last() == b.last());
        assert(scan_hits(a, q) + scan_hits(b.drop_last(), q).push((b.last().0, b.last().1))
            =~= (scan_hits(a, q) + scan_hits(b.drop_last(), q)).push((b.last().0, b.last().1)));
    }
}

/// Law: once documents are indexed, a search for `q` finds each of them whose whole
/// text, lower-cased, contains the lower-cased query `q`, and finds nothing else:
/// every hit is such a document.
pub proof fn lemma_indexed_documents_found(base: Seq<SearchDocumentView>, added: Seq<SearchDocumentView>, q: Seq<char>)
    ensures
        forall|j: int| 0 <= j < added.len() && #[trigger] contains_sub(lowercase_of(added[j].2), q) ==>
            scan_hits(base + indexed(added), q).contains((added[j].0, added[j].1)),
        forall|h: (Seq<char>, Seq<char>)| #[trigger] scan_hits(indexed(added), q).contains(h) ==>
            exists|j: int| 0 <= j < added.len() && h == (added[j].0, added[j].1)
                && contains_sub(lowercase_of(added[j].2), q),
    decreases added.len(),
{
    lemma_scan_hits_concat(base, indexed(added), q);
    if added.len() > 0 {
        let p = added.drop_last();
        lemma_indexed_documents_found(base, p, q);
        let d = added.last();
        assert(indexed(added).drop_last() =~= indexed(p));
        assert(indexed(added).last() == (d.0, d.1, lowercase_of(d.2)));
        lemma_scan_hits_concat(base, indexed(p), q);
        let hp = scan_hits(indexed(p), q);
        let ha = scan_hits(indexed(added), q);
        assert forall|j: int| 0 <= j < added.len() && #[trigger] contains_sub(lowercase_of(added[j].2), q) implies
            scan_hits(base + indexed(added), q).contains((added[j].0, added[j].1)) by {
            let all = scan_hits(base + indexed(added), q);
            assert(all == scan_hits(base, q) + ha);
            if j < p.len() {
                assert(p[j] == added[j]);
                assert(contains_sub(lowercase_of(p[j].2), q));
                assert(scan_hits(base + indexed(p), q).contains((p[j].0, p[j].1)));
                let x = choose|x: int| 0 <= x < scan_hits(base + indexed(p), q).len()
                    && scan_hits(base + indexed(p), q)[x] == (p[j].0, p[j].1);
                assert(scan_hits(base + indexed(p), q) == scan_hits(base, q) + hp);
                if x < scan_hits(base, q).len() {
                    assert(all[x] == scan_hits(base, q)[x]);
                } else {
                    let y = x - scan_hits(base, q).len();
                    assert(hp[y] == (p[j].0, p[j].1));
                    assert(ha[y] == hp[y]);
                    assert(all[x] == ha[y]);
                }
            } else {
                assert(added[j] == d);
                assert(ha == hp.push((d.0, d.1)));
                assert(all[all.len() - 1] == (d.0, d.1));
            }
        }
        assert forall|h: (Seq<char>, Seq<char>)| #[trigger] ha.contains(h) implies
            exists|j: int| 0 <= j < added.len() && h == (added[j].0, added[j].1)
                && contains_sub(lowercase_of(added[j].2), q) by {
            let x = choose|x: int| 0 <= x < ha.len() && ha[x] == h;
            if contains_sub(lowercase_of(d.2), q) && x == ha.len() - 1 {
                assert(h == (added[added.len() - 1].0, added[added.len() - 1].1));
            } else {
                assert(hp.contains(h)) by {
                    assert(hp[x] == h);
                }
                let j = choose|j: int| 0 <= j < p.len() && h == (p[j].0, p[j].1)
                    && contains_sub(lowercase_of(p[j].2), q);
                assert(p[j] == added[j]);
            }
        }
    }
}

/// A search service that keeps the documents in a list and scans all of them.
#[derive(Debug)]
pub struct ScanSearchService {
    documents: Vec<SearchDocument>,
}

impl View for ScanSearchService {
    type V = Seq<SearchDocumentView>;

    /// The index: the documents in indexing order, as stored.
    closed spec fn view(&self) -> Seq<SearchDocumentView> {
        self.documents@.map_values(|d: SearchDocument| d@)
    }
}

impl ScanSearchService {
    /// An empty index; this never fails.
    pub fn new() -> (r: HyperlitResult<Self>)
        ensures
            r matches Ok(s) && s@ == Seq::<SearchDocumentView>::empty(),
    {
        let s = ScanSearchService { documents: Vec::new() };
        assert(s@ =~= Seq::<SearchDocumentView>::empty());
        Ok(s)
    }
}

impl SearchService for ScanSearchService {
    /// Adds the documents at the end of the index, their text lower-cased; this never fails.
    fn index_files(&mut self, documents: Vec<SearchDocument>) -> (r: HyperlitResult<()>)
        ensures
            r is Ok,
            final(self)@ == old(self)@ + indexed(documents@.map_values(|d: SearchDocument| d@)),
    {
        let ghost start = self@;
        let ghost added = documents@.map_values(|d: SearchDocument| d@);
        let mut i: usize = 0;
        while i < documents.len()
            invariant
                i <= documents.len(),
                added == documents@.map_values(|d: SearchDocument| d@),
                self@ == start + indexed(added.take(i as int)),
            decreases documents.len() - i,
        {
            let d = &documents[i];
            let lowered = SearchDocument {
                id: d.id.clone(),
                title: d.title.clone(),
                text: to_lowercase(d.text.as_str()),
            };
            assert(lowered@ == (added[i as int].0, added[i as int].1, lowercase_of(added[i as int].2)));
            let ghost before = self@;
            self.documents.push(lowered);
            assert(self@ =~= before.push(lowered@));
            assert(indexed(added.take(i + 1)) =~= indexed(added.take(i as int)).push(
                (added[i as int].0, added[i as int].1, lowercase_of(added[i as int].2)),
            ));
            assert(self@ =~= start + indexed(added.take(i + 1)));
            i = i + 1;
        }
        assert(added.take(documents.len() as int) =~= added);
        Ok(())
    }

    /// The documents whose indexed text contains the lower-cased search string, in
    /// indexing order; this never fails.
    fn search(&self, search_request: SearchRequest) -> (r: HyperlitResult<SearchResponse>)
        ensures
            r matches Ok(resp) && resp.hits@.map_values(|h: SearchHit| hit_view(h)) == scan_hits(
                self@,
                lowercase_of(search_request.search_string@),
            ),
    {
        let q = to_lowercase(search_request.search_string.as_str());
        let ghost docs = self@;
        let mut hits: Vec<SearchHit> = Vec::new();
        let mut i: usize = 0;
        while i < self.documents.len()
            invariant
                i <= self.documents.len(),
                docs == self@,
                q@ == lowercase_of(search_request.search_string@),
                hits@.map_values(|h: SearchHit| hit_view(h)) == scan_hits(docs.take(i as int), q@),
            decreases self.documents.len() - i,
        {
            let d = &self.documents[i];
            assert(docs.take(i + 1).drop_last() =~= docs.take(i as int));
            if str_contains(d.text.as_str(), q.as_str()) {
                let ghost before = hits@.map_values(|h: SearchHit| hit_view(h));
                hits.push(SearchHit { document_id: d.id.clone(), document_title: d.title.clone() });
                assert(hits@.map_values(|h: SearchHit| hit_view(h)) =~= before.push((d.id@, d.title@)));
            }
            i = i + 1;
        }
        assert(docs.take(self.documents.len() as int) =~= docs);
        Ok(SearchResponse { hits })
    }
}

} // verus!
