//! Storage of documents by their identifiers.
use vstd::prelude::*;
use crate::document::{Document, DocumentId, DocumentView};
use crate::error::HyperlitResult;

verus! {

/// The documents of `s` by their identifiers (later entries win, though a
/// well-formed store has no repeated identifier).
pub open spec fn docs_map(s: Seq<Document>) -> Map<Seq<char>, DocumentView>
    decreases s.len(),
{
    if s.len() == 0 {
        Map::empty()
    } else {
        docs_map(s.drop_last()).insert(s.last()@.id, s.last()@)
    }
}

/// The identifiers of the documents of `s`, in order.
pub open spec fn doc_ids(s: Seq<Document>) -> Seq<Seq<char>> {
    s.map_values(|d: Document| d@.id)
}

/// Whether `ds` lists the documents of `m`: each once, in some order.
pub open spec fn lists(m: Map<Seq<char>, DocumentView>, ds: Seq<Document>) -> bool {
    &&& ds.len() == m.len()
    &&& doc_ids(ds).no_duplicates()
    &&& doc_ids(ds).to_set() == m.dom()
    &&& forall|i: int| 0 <= i < ds.len() ==> m.contains_key(#[trigger] ds[i]@.id) && m[ds[i]@.id] == ds[i]@
}

proof fn lemma_docs_map_dom(s: Seq<Document>)
    ensures
        docs_map(s).dom() == doc_ids(s).to_set(),
        docs_map(s).dom().finite(),
    decreases s.len(),
{
    if s.len() > 0 {
        lemma_docs_map_dom(s.drop_last());
        assert(doc_ids(s) == doc_ids(s.drop_last()).push(s.last()@.id));
        doc_ids(s.drop_last()).lemma_push_to_set_commute(s.last()@.id);
    } else {
        assert(doc_ids(s).to_set() =~= Set::empty());
    }
}

proof fn lemma_docs_map_lookup(s: Seq<Document>, i: int)
    requires
        doc_ids(s).no_duplicates(),
        0 <= i < s.len(),
    ensures
        docs_map(s).contains_key(s[i]@.id),
        docs_map(s)[s[i]@.id] == s[i]@,
    decreases s.len(),
{
    if i < s.len() - 1 {
        let p = s.drop_last();
        assert(doc_ids(p) == doc_ids(s).drop_last());
        assert(doc_ids(s)[i] == s[i]@.id);
        assert(doc_ids(s)[s.len() - 1] == s.last()@.id);
        lemma_docs_map_lookup(p, i);
    }
}

proof fn lemma_docs_map_absent(s: Seq<Document>, k: Seq<char>)
    requires
        forall|i: int| 0 <= i < s.len() ==> s[i]@.id != k,
    ensures
        !docs_map(s).contains_key(k),
    decreases s.len(),
{
    if s.len() > 0 {
        lemma_docs_map_absent(s.drop_last(), k);
    }
}

/// Storage of documents by identifier, for backends to implement. A backend may
/// fail (an `Err`), and then leaves the stored documents as they were; when it
/// succeeds, it behaves as a map from identifiers to documents.
pub trait DocumentStore {
    /// The stored documents by identifier.
    spec fn spec_docs(&self) -> Map<Seq<char>, DocumentView>;

    /// Insert a document, replacing any document with the same ID; returns its ID.
    fn insert(&mut self, doc: Document) -> (r: HyperlitResult<DocumentId>)
        ensures
            r is Ok ==> final(self).spec_docs() == old(self).spec_docs().insert(doc@.id, doc@),
            r is Err ==> final(self).spec_docs() == old(self).spec_docs(),
            r matches Ok(id) ==> id@ == doc@.id;

    /// The document with the given ID, if stored.
    fn get(&self, id: &DocumentId) -> (r: HyperlitResult<Option<Document>>)
        ensures
            r matches Ok(found) ==> match found {
                Some(d) => self.spec_docs().contains_key(id@) && d@ == self.spec_docs()[id@],
                None => !self.spec_docs().contains_key(id@),
            };

    /// Whether a document with the given ID is stored.
    fn contains(&self, id: &DocumentId) -> (r: HyperlitResult<bool>)
        ensures
            r matches Ok(b) ==> b == self.spec_docs().contains_key(id@);

    /// All stored documents.
    fn list(&self) -> (r: HyperlitResult<Vec<Document>>)
        ensures
            r matches Ok(v) ==> lists(self.spec_docs(), v@);

    /// Remove and return the document with the given ID.
    fn remove(&mut self, id: &DocumentId) -> (r: HyperlitResult<Option<Document>>)
        ensures
            r is Ok ==> final(self).spec_docs() == old(self).spec_docs().remove(id@),
            r is Err ==> final(self).spec_docs() == old(self).spec_docs(),
            r matches Ok(found) ==> match found {
                Some(d) => old(self).spec_docs().contains_key(id@) && d@ == old(self).spec_docs()[id@],
                None => !old(self).spec_docs().contains_key(id@),
            };

    /// Remove all documents.
    fn clear(&mut self) -> (r: HyperlitResult<()>)
        ensures
            r is Ok ==> final(self).spec_docs() == Map::<Seq<char>, DocumentView>::empty(),
            r is Err ==> final(self).spec_docs() == old(self).spec_docs();

    /// The number of stored documents.
    fn len(&self) -> (r: HyperlitResult<usize>)
        ensures
            r matches Ok(n) ==> n == self.spec_docs().len();

    /// Whether no document is stored.
    fn is_empty(&self) -> (r: HyperlitResult<bool>)
        ensures
            r matches Ok(b) ==> b == (self.spec_docs().len() == 0);
}

/// An in-memory document store; no two stored documents share an ID.
#[derive(Debug)]
pub struct InMemoryStore {
    documents: Vec<Document>,
}

impl View for InMemoryStore {
    type V = Map<Seq<char>, DocumentView>;

    closed spec fn view(&self) -> Map<Seq<char>, DocumentView> {
        docs_map(self.documents@)
    }
}

impl InMemoryStore {
    /// No two stored documents share an ID.
    #[verifier::type_invariant]
    closed spec fn wf(&self) -> bool {
        doc_ids(self.documents@).no_duplicates()
    }

    /// The stored identifiers form a finite set.
    pub proof fn lemma_finite(&self)
        ensures
            self@.dom().finite(),
    {
        lemma_docs_map_dom(self.documents@);
    }

    /// Create a new, empty in-memory store.
    pub fn new() -> (s: Self)
        ensures
            s@ == Map::<Seq<char>, DocumentView>::empty(),
    {
        let s = InMemoryStore { documents: Vec::new() };
        assert(doc_ids(s.documents@) =~= Seq::<Seq<char>>::empty());
        s
    }

    /// Create a new, empty store with room for `capacity` documents.
    pub fn with_capacity(capacity: usize) -> (s: Self)
        ensures
            s@ == Map::<Seq<char>, DocumentView>::empty(),
    {
        let s = InMemoryStore { documents: Vec::with_capacity(capacity) };
        assert(doc_ids(s.documents@) =~= Seq::<Seq<char>>::empty());
        s
    }

    /// The position of the document with ID `id`, if any.
    fn find(&self, id: &DocumentId) -> (r: Option<usize>)
        ensures
            match r {
                Some(i) => i < self.documents@.len() && self.documents@[i as int]@.id == id@
                    && self@.contains_key(id@) && self@[id@] == self.documents@[i as int]@,
                None => !self@.contains_key(id@),
            },
    {
        proof {
            use_type_invariant(self);
        }
        let key = id.as_str();
        let mut i: usize = 0;
        while i < self.documents.len()
            invariant
                i <= self.documents.len(),
                key@ == id@,
                doc_ids(self.documents@).no_duplicates(),
                forall|j: int| 0 <= j < i ==> self.documents@[j]@.id != id@,
            decreases self.documents.len() - i,
        {
            if crate::http::str_eq(self.documents[i].id().as_str(), key) {
                proof {
                    lemma_docs_map_lookup(self.documents@, i as int);
                }
                return Some(i);
            }
            i = i + 1;
        }
        proof {
            lemma_docs_map_absent(self.documents@, id@);
        }
        None
    }
}

impl DocumentStore for InMemoryStore {
    open spec fn spec_docs(&self) -> Map<Seq<char>, DocumentView> {
        self@
    }

    fn insert(&mut self, doc: Document) -> (r: HyperlitResult<DocumentId>)
        ensures
            final(self)@ == old(self)@.insert(doc@.id, doc@),
            r matches Ok(id) && id@ == doc@.id,
    {
        proof {
            use_type_invariant(&*self);
        }
        let id = doc.id().clone();
        let ghost old_docs = self.documents@;
        let ghost dv = doc@;
        match self.find(&id) {
            Some(i) => {
                let mut documents: Vec<Document> = Vec::new();
                std::mem::swap(&mut documents, &mut self.documents);
                documents.set(i, doc);
                proof {
                    let nd = documents@;
                    assert(doc_ids(nd) =~= doc_ids(old_docs));
                    lemma_docs_map_dom(nd);
                    lemma_docs_map_dom(old_docs);
                    let target = docs_map(old_docs).insert(dv.id, dv);
                    assert forall|k: Seq<char>| #[trigger] docs_map(nd).contains_key(k) implies
                        docs_map(nd)[k] == target[k] by {
                        assert(doc_ids(nd).to_set().contains(k));
                        let j = choose|j: int| 0 <= j < doc_ids(nd).len() && doc_ids(nd)[j] == k;
                        lemma_docs_map_lookup(nd, j);
                        assert(doc_ids(nd)[i as int] == dv.id);
                        if j != i {
                            assert(doc_ids(nd)[j] != doc_ids(nd)[i as int]);
                            lemma_docs_map_lookup(old_docs, j);
                        }
                    }
                    assert(docs_map(nd).dom() =~= target.dom());
                    assert(docs_map(nd) =~= target);
                }
                self.documents = documents;
            },
            None => {
                let mut documents: Vec<Document> = Vec::new();
                std::mem::swap(&mut documents, &mut self.documents);
                documents.push(doc);
                proof {
                    let nd = documents@;
                    assert(nd.drop_last() == old_docs);
                    assert(doc_ids(nd) == doc_ids(old_docs).push(dv.id));
                    lemma_docs_map_dom(old_docs);
                    assert(!doc_ids(old_docs).contains(dv.id));
                }
                self.documents = documents;
            },
        }
        Ok(id)
    }

    fn get(&self, id: &DocumentId) -> (r: HyperlitResult<Option<Document>>)
        ensures
            r matches Ok(found) && match found {
                Some(d) => self@.contains_key(id@) && d@ == self@[id@],
                None => !self@.contains_key(id@),
            },
    {
        match self.find(id) {
            Some(i) => Ok(Some(self.documents[i].clone())),
            None => Ok(None),
        }
    }

    fn contains(&self, id: &DocumentId) -> (r: HyperlitResult<bool>)
        ensures
            r matches Ok(b) && b == self@.contains_key(id@),
    {
        Ok(self.find(id).is_some())
    }

    fn list(&self) -> (r: HyperlitResult<Vec<Document>>)
        ensures
            r matches Ok(v) && lists(self@, v@),
    {
        proof {
            use_type_invariant(self);
            lemma_docs_map_dom(self.documents@);
            doc_ids(self.documents@).unique_seq_to_set();
        }
        let mut v: Vec<Document> = Vec::new();
        let mut i: usize = 0;
        while i < self.documents.len()
            invariant
                i <= self.documents.len(),
                v@.len() == i,
                forall|j: int| 0 <= j < i ==> (#[trigger] v@[j])@ == self.documents@[j]@,
            decreases self.documents.len() - i,
        {
            v.push(self.documents[i].clone());
            i = i + 1;
        }
        proof {
            assert(doc_ids(v@) =~= doc_ids(self.documents@));
            assert forall|j: int| 0 <= j < v@.len() implies self@.contains_key(#[trigger] v@[j]@.id)
                && self@[v@[j]@.id] == v@[j]@ by {
                lemma_docs_map_lookup(self.documents@, j);
            }
        }
        Ok(v)
    }

    fn remove(&mut self, id: &DocumentId) -> (r: HyperlitResult<Option<Document>>)
        ensures
            final(self)@ == old(self)@.remove(id@),
            r matches Ok(found) && match found {
                Some(d) => old(self)@.contains_key(id@) && d@ == old(self)@[id@],
                None => !old(self)@.contains_key(id@),
            },
    {
        proof {
            use_type_invariant(&*self);
        }
        let ghost old_docs = self.documents@;
        match self.find(id) {
            Some(i) => {
                let mut documents: Vec<Document> = Vec::new();
                std::mem::swap(&mut documents, &mut self.documents);
                let d = documents.remove(i);
                proof {
                    let nd = documents@;
                    assert(nd =~= old_docs.remove(i as int));
                    assert(doc_ids(nd) =~= doc_ids(old_docs).remove(i as int));
                    lemma_docs_map_dom(nd);
                    lemma_docs_map_dom(old_docs);
                    let target = docs_map(old_docs).remove(id@);
                    assert forall|k: Seq<char>| #[trigger] docs_map(nd).contains_key(k) implies
                        target.contains_key(k) && docs_map(nd)[k] == target[k] by {
                        assert(doc_ids(nd).to_set().contains(k));
                        let j = choose|j: int| 0 <= j < doc_ids(nd).len() && doc_ids(nd)[j] == k;
                        lemma_docs_map_lookup(nd, j);
                        let oj = if j < i { j } else { j + 1 };
                        assert(nd[j] == old_docs[oj]);
                        assert(doc_ids(old_docs)[oj] == k);
                        assert(doc_ids(old_docs)[i as int] == id@);
                        lemma_docs_map_lookup(old_docs, oj);
                    }
                    assert forall|k: Seq<char>| #[trigger] target.contains_key(k) implies
                        docs_map(nd).contains_key(k) by {
                        assert(doc_ids(old_docs).to_set().contains(k));
                        let oj = choose|j: int| 0 <= j < doc_ids(old_docs).len() && doc_ids(old_docs)[j] == k;
                        assert(oj != i);
                        let j = if oj < i { oj } else { oj - 1 };
                        assert(nd[j] == old_docs[oj]);
                        assert(doc_ids(nd)[j] == k);
                        assert(doc_ids(nd).to_set().contains(k));
                    }
                    assert(docs_map(nd) =~= target);
                    assert(doc_ids(nd).no_duplicates());
                }
                self.documents = documents;
                Ok(Some(d))
            },
            None => {
                assert(self@.remove(id@) =~= self@);
                Ok(None)
            },
        }
    }

    fn clear(&mut self) -> (r: HyperlitResult<()>)
        ensures
            final(self)@ == Map::<Seq<char>, DocumentView>::empty(),
            r is Ok,
    {
        self.documents = Vec::new();
        assert(doc_ids(self.documents@) =~= Seq::<Seq<char>>::empty());
        Ok(())
    }

    fn len(&self) -> (r: HyperlitResult<usize>)
        ensures
            r matches Ok(n) && n == self@.len(),
    {
        proof {
            use_type_invariant(self);
            lemma_docs_map_dom(self.documents@);
            doc_ids(self.documents@).unique_seq_to_set();
        }
        Ok(self.documents.len())
    }

    fn is_empty(&self) -> (r: HyperlitResult<bool>)
        ensures
            r matches Ok(b) && b == (self@.len() == 0),
    {
        proof {
            use_type_invariant(self);
            lemma_docs_map_dom(self.documents@);
            doc_ids(self.documents@).unique_seq_to_set();
        }
        Ok(self.documents.len() == 0)
    }
}

/// Law: reading a document back after storing it gives what was stored.
pub proof fn lemma_get_after_insert(m: Map<Seq<char>, DocumentView>, d: DocumentView)
    ensures
        m.insert(d.id, d).contains_key(d.id),
        m.insert(d.id, d)[d.id] == d,
{
}

/// Law: storing a document leaves every other stored document as it was.
pub proof fn lemma_insert_keeps_others(m: Map<Seq<char>, DocumentView>, d: DocumentView, k: Seq<char>)
    requires
        k != d.id,
    ensures
        m.insert(d.id, d).contains_key(k) == m.contains_key(k),
        m.contains_key(k) ==> m.insert(d.id, d)[k] == m[k],
{
}

/// Law: after removing an ID, no document with it is found, and the count drops by
/// one exactly when one was stored.
pub proof fn lemma_remove_then_absent(m: Map<Seq<char>, DocumentView>, id: Seq<char>)
    requires
        m.dom().finite(),
    ensures
        !m.remove(id).contains_key(id),
        m.remove(id).len() == if m.contains_key(id) { m.len() - 1int } else { m.len() as int },
{
    if !m.contains_key(id) {
        assert(m.remove(id) =~= m);
    }
}

/// Law: storing a document with a new ID adds one to the count; with a stored ID the
/// count is unchanged.
pub proof fn lemma_insert_len(m: Map<Seq<char>, DocumentView>, d: DocumentView)
    requires
        m.dom().finite(),
    ensures
        m.insert(d.id, d).len() == if m.contains_key(d.id) { m.len() as int } else { m.len() + 1int },
{
    if m.contains_key(d.id) {
        assert(m.insert(d.id, d).dom() =~= m.dom());
    }
}

} // verus!
