//! The decisions of the file watcher: which change events to act on, and which
//! documents a changed file had given.
use vstd::prelude::*;
use std::time::{Duration, Instant};
use crate::document::{Document, DocumentId, DocumentView, first_free_candidate, slug};
use crate::error::{HyperlitError, HyperlitResult};
use crate::extractor::{ExtractionError, doc_id_seq, extract_documents, extracted_from, read_files, unread_files};
use crate::text::utf8_len;
use crate::path::FilePath;
use crate::store::{DocumentStore, doc_ids};

verus! {

#[verifier::external_type_specification]
#[verifier::external_body]
pub struct ExInstant(Instant);

/// Trusted: calls `Instant::now`.
#[verifier::external_body]
fn now() -> Instant {
    Instant::now()
}

/// Trusted: the time since `origin` in nanoseconds (`Instant::elapsed`, then
/// `Duration::as_nanos`); it depends on the clock, so nothing is stated of it.
#[verifier::external_body]
fn nanos_since(origin: &Instant) -> u128 {
    origin.elapsed().as_nanos()
}

/// What `Duration::as_nanos` gives for `d`: the whole length of the duration in
/// nanoseconds.
pub uninterp spec fn duration_nanos_of(d: Duration) -> u128;

/// Trusted: calls `Duration::as_nanos`, a function of the duration alone; the result
/// is named, not described.
#[verifier::external_body]
fn duration_nanos(d: &Duration) -> (n: u128)
    ensures
        n == duration_nanos_of(*d),
{
    d.as_nanos()
}

/// The IDs of the documents that come from the file `path`, in order.
pub open spec fn ids_from_file(docs: Seq<Document>, path: Seq<char>) -> Seq<Seq<char>>
    decreases docs.len(),
{
    if docs.len() == 0 {
        Seq::empty()
    } else {
        let r = ids_from_file(docs.drop_last(), path);
        if docs.last().spec_source().spec_file_path() == path {
            r.push(docs.last().spec_id())
        } else {
            r
        }
    }
}

/// The IDs of the documents that come from the given file, in order.
pub fn documents_from_file(docs: &[Document], file_path: &FilePath) -> (ids: Vec<DocumentId>)
    ensures
        ids@.map_values(|i: DocumentId| i@) == ids_from_file(docs@, file_path@),
{
    let mut ids: Vec<DocumentId> = Vec::new();
    let mut i: usize = 0;
    assert(docs@.take(0) =~= Seq::<Document>::empty());
    while i < docs.len()
        invariant
            i <= docs@.len(),
            ids@.map_values(|i: DocumentId| i@) == ids_from_file(docs@.take(i as int), file_path@),
        decreases docs.len() - i,
    {
        proof {
            assert(docs@.take(i + 1).drop_last() =~= docs@.take(i as int));
            assert(docs@.take(i + 1).last() == docs@[i as int]);
        }
        if docs[i].source().file_path().same_as(file_path) {
            let ghost before = ids@.map_values(|i: DocumentId| i@);
            ids.push(docs[i].id().clone());
            assert(ids@.map_values(|i: DocumentId| i@) =~= before.push(docs@[i as int].spec_id()));
        }
        i = i + 1;
    }
    assert(docs@.take(docs@.len() as int) =~= docs@);
    ids
}

proof fn lemma_ids_from_file_contains(docs: Seq<Document>, path: Seq<char>, i: int)
    requires
        0 <= i < docs.len(),
        docs[i].spec_source().spec_file_path() == path,
    ensures
        ids_from_file(docs, path).contains(docs[i].spec_id()),
    decreases docs.len(),
{
    let r = ids_from_file(docs.drop_last(), path);
    if i < docs.len() - 1 {
        assert(docs.drop_last()[i] == docs[i]);
        lemma_ids_from_file_contains(docs.drop_last(), path, i);
        let t = choose|t: int| 0 <= t < r.len() && r[t] == docs[i].spec_id();
        if docs.last().spec_source().spec_file_path() == path {
            assert(ids_from_file(docs, path)[t] == docs[i].spec_id());
        }
    } else {
        assert(ids_from_file(docs, path).last() == docs[i].spec_id());
    }
}

proof fn lemma_ids_from_file_members(docs: Seq<Document>, path: Seq<char>)
    ensures
        forall|t: int| 0 <= t < ids_from_file(docs, path).len() ==> exists|i: int| 0 <= i < docs.len()
            && docs[i].spec_id() == #[trigger] ids_from_file(docs, path)[t]
            && docs[i].spec_source().spec_file_path() == path,
    decreases docs.len(),
{
    if docs.len() > 0 {
        let p = docs.drop_last();
        lemma_ids_from_file_members(p, path);
        assert forall|t: int| 0 <= t < ids_from_file(docs, path).len() implies exists|i: int| 0 <= i < docs.len()
            && docs[i].spec_id() == #[trigger] ids_from_file(docs, path)[t]
            && docs[i].spec_source().spec_file_path() == path by {
            if t < ids_from_file(p, path).len() {
                let i = choose|i: int| 0 <= i < p.len() && p[i].spec_id() == ids_from_file(p, path)[t]
                    && p[i].spec_source().spec_file_path() == path;
                assert(docs[i] == p[i]);
            } else {
                assert(docs[docs.len() - 1] == docs.last());
            }
        }
    }
}

/// The documents of `m` that come from the file `path`.
pub open spec fn from_file(m: Map<Seq<char>, DocumentView>, path: Seq<char>, k: Seq<char>) -> bool {
    m.contains_key(k) && m[k].source.spec_file_path() == path
}

/// Removes from the store every document that comes from `file_path`. Returns how
/// many were removed, and the errors the store gave on the way: the removal goes on
/// past a failed one. Nothing but documents of the file is removed, and when the
/// store gave no error, none of them is left.
pub fn remove_documents_for_file<S: DocumentStore>(file_path: &FilePath, store: &mut S) -> (r: (usize, Vec<Box<HyperlitError>>))
    ensures
        exists|gone: Set<Seq<char>>| #![trigger old(store).spec_docs().remove_keys(gone)]
            gone.finite() && gone.len() == r.0
            && final(store).spec_docs() == old(store).spec_docs().remove_keys(gone)
            && forall|k: Seq<char>| #[trigger] gone.contains(k) ==> from_file(old(store).spec_docs(), file_path@, k),
        r.1.len() == 0 ==> forall|k: Seq<char>| !(#[trigger] from_file(final(store).spec_docs(), file_path@, k)),
{
    let ghost m0 = store.spec_docs();
    let docs = match store.list() {
        Ok(docs) => docs,
        Err(e) => {
            assert(m0.remove_keys(Set::empty()) =~= m0);
            return (0, vec![e]);
        },
    };
    let ids = documents_from_file(docs.as_slice(), file_path);
    let ghost idv = ids@.map_values(|i: DocumentId| i@);
    let mut removed: usize = 0;
    let mut errors: Vec<Box<HyperlitError>> = Vec::new();
    let ghost mut gone: Set<Seq<char>> = Set::empty();
    proof {
        lemma_ids_from_file_members(docs@, file_path@);
        assert forall|t: int| 0 <= t < idv.len() implies from_file(m0, file_path@, #[trigger] idv[t]) by {
            let i = choose|i: int| 0 <= i < docs@.len() && docs@[i].spec_id() == ids_from_file(docs@, file_path@)[t]
                && docs@[i].spec_source().spec_file_path() == file_path@;
            assert(docs@[i]@.id == idv[t]);
        }
    }
    assert(m0.remove_keys(gone) =~= m0);
    let mut j: usize = 0;
    while j < ids.len()
        invariant
            j <= ids.len(),
            idv == ids@.map_values(|i: DocumentId| i@),
            idv == ids_from_file(docs@, file_path@),
            gone.finite(),
            gone.len() == removed,
            removed <= j,
            store.spec_docs() == m0.remove_keys(gone),
            forall|k: Seq<char>| #[trigger] gone.contains(k) ==> from_file(m0, file_path@, k),
            forall|t: int| 0 <= t < idv.len() ==> from_file(m0, file_path@, #[trigger] idv[t]),
            errors@.len() == 0 ==> forall|t: int| 0 <= t < j ==> !store.spec_docs().contains_key(#[trigger] idv[t]),
        decreases ids.len() - j,
    {
        let ghost before = store.spec_docs();
        match store.remove(&ids[j]) {
            Ok(Some(_)) => {
                proof {
                    assert(!gone.contains(idv[j as int]));
                    gone = gone.insert(idv[j as int]);
                    assert(store.spec_docs() =~= m0.remove_keys(gone));
                }
                removed = removed + 1;
            },
            Ok(None) => {
                proof {
                    assert(store.spec_docs() =~= before);
                }
            },
            Err(e) => {
                errors.push(e);
            },
        }
        j = j + 1;
    }
    proof {
        if errors@.len() == 0 {
            assert forall|k: Seq<char>| !(#[trigger] from_file(store.spec_docs(), file_path@, k)) by {
                if from_file(store.spec_docs(), file_path@, k) {
                    assert(m0.contains_key(k));
                    assert(doc_ids(docs@).to_set().contains(k));
                    let i = choose|i: int| 0 <= i < doc_ids(docs@).len() && doc_ids(docs@)[i] == k;
                    assert(docs@[i]@.id == k);
                    assert(docs@[i]@ == m0[k]);
                    lemma_ids_from_file_contains(docs@, file_path@, i);
                    let t = choose|t: int| 0 <= t < idv.len() && idv[t] == k;
                    assert(!store.spec_docs().contains_key(idv[t]));
                }
            }
        }
    }
    (removed, errors)
}

/// Handle to a running file watcher: the watching itself is done by the platform
/// layer, which calls `handle_file_change` for each change event let through by a
/// `Debouncer`.
#[derive(Debug)]
pub struct FileWatcher;

/// What was done to the store for a changed file, and what went wrong on the way.
#[derive(Debug)]
pub struct FileChangeReport {
    /// How many documents of the file were removed.
    pub removed: usize,
    /// How many documents were extracted from the file and inserted.
    pub inserted: usize,
    /// The errors the store gave.
    pub store_errors: Vec<Box<HyperlitError>>,
    /// The errors met extracting documents from the file.
    pub extraction_errors: Vec<ExtractionError>,
}

/// Whether `m2` is `m1` after the documents of the file `path` were extracted again and
/// inserted: nothing is inserted when the file is gone (`None`) or could not be read;
/// else the document extracted from its content is inserted, unless the store
/// failed (`store_ok` false) and kept `m1`.
pub open spec fn reinserted(
    m1: Map<Seq<char>, DocumentView>,
    m2: Map<Seq<char>, DocumentView>,
    read: Option<HyperlitResult<String>>,
    path: Seq<char>,
    inserted: usize,
    store_ok: bool,
) -> bool {
    match read {
        Some(Ok(c)) => exists|d: Document| #[trigger] extracted_from(d, path, c@)
            && first_free_candidate(slug(d.spec_title()), Set::empty(), d.spec_id())
            && ((inserted == 1 && m2 == m1.insert(d@.id, d@)) || (inserted == 0 && !store_ok && m2 == m1)),
        _ => inserted == 0 && m2 == m1,
    }
}

/// Brings the store up to date after the file `file_path` changed: its documents are
/// removed, then, when the file still exists (`read` holds the result of reading it),
/// the documents extracted from it are inserted. The work goes on past errors, which
/// are reported.
pub fn handle_file_change<S: DocumentStore>(
    file_path: &FilePath,
    read: Option<HyperlitResult<String>>,
    store: &mut S,
) -> (r: FileChangeReport)
    requires
        read matches Some(Ok(c)) ==> utf8_len(c@) < usize::MAX,
    ensures
        exists|gone: Set<Seq<char>>| #![trigger old(store).spec_docs().remove_keys(gone)]
            gone.finite() && gone.len() == r.removed
            && (forall|k: Seq<char>| #[trigger] gone.contains(k) ==> from_file(old(store).spec_docs(), file_path@, k))
            && (r.store_errors@.len() == 0 ==> forall|k: Seq<char>|
                !(#[trigger] from_file(old(store).spec_docs().remove_keys(gone), file_path@, k)))
            && reinserted(old(store).spec_docs().remove_keys(gone), final(store).spec_docs(), read, file_path@,
                r.inserted, r.store_errors@.len() == 0),
        r.extraction_errors@.map_values(|e: ExtractionError| e.file_path@) == (match read {
            Some(Err(_)) => seq![file_path@],
            _ => Seq::<Seq<char>>::empty(),
        }),
{
    let ghost m0 = store.spec_docs();
    let (removed, mut store_errors) = remove_documents_for_file(file_path, store);
    let ghost m1 = store.spec_docs();
    let ghost removal_ok = store_errors@.len() == 0;
    let ghost read0 = read;
    let mut inserted: usize = 0;
    let mut extraction_errors: Vec<ExtractionError> = Vec::new();
    match read {
        None => {},
        Some(read) => {
            let fp = file_path.clone();
            let ghost entry = (fp, read);
            let files = vec![(fp, read)];
            proof {
                assert(files@.len() == 1);
                assert(files@[0] == entry);
                assert(files@.drop_last() =~= Seq::<(FilePath, HyperlitResult<String>)>::empty());
                assert(files@.last() == entry);
                assert(read_files(files@.drop_last()) =~= Seq::<(Seq<char>, Seq<char>)>::empty());
                assert(unread_files(files@.drop_last()) =~= Seq::<Seq<char>>::empty());
                assert(read_files(files@) =~= match read {
                    Ok(c) => seq![(file_path@, c@)],
                    Err(_) => Seq::<(Seq<char>, Seq<char>)>::empty(),
                });
                assert(unread_files(files@) =~= match read {
                    Err(_) => seq![file_path@],
                    Ok(_) => Seq::<Seq<char>>::empty(),
                });
            }
            match extract_documents(files) {
                Ok(mut res) => {
                    extraction_errors = res.errors;
                    if res.documents.len() > 0 {
                        let ghost ds = res.documents@;
                        proof {
                            assert(read is Ok);
                            assert(read0 == Some(read));
                            assert(extracted_from(ds[0], read_files(files@)[0].0, read_files(files@)[0].1));
                            assert(doc_id_seq(ds.take(0)).to_set() =~= Set::<Seq<char>>::empty());
                        }
                        let doc = res.documents.remove(0);
                        match store.insert(doc) {
                            Ok(_) => {
                                inserted = 1;
                            },
                            Err(e) => {
                                store_errors.push(e);
                            },
                        }
                    }
                },
                Err(e) => {
                    store_errors.push(e);
                },
            }
        },
    }
    FileChangeReport { removed, inserted, store_errors, extraction_errors }
}

/// Drops change events of a file that come within the debounce time of the last
/// event acted on for that file.
pub struct Debouncer {
    last_events: Vec<(FilePath, u128)>,
    debounce_nanos: u128,
    origin: Instant,
}

/// The time of the last event acted on for `path`, among the recorded ones (later
/// records win).
pub open spec fn last_event(events: Seq<(FilePath, u128)>, path: Seq<char>) -> Option<u128>
    decreases events.len(),
{
    if events.len() == 0 {
        None
    } else if events.last().0@ == path {
        Some(events.last().1)
    } else {
        last_event(events.drop_last(), path)
    }
}

impl Debouncer {
    /// The recorded events.
    pub closed spec fn spec_events(&self) -> Seq<(FilePath, u128)> {
        self.last_events@
    }

    /// The debounce time in nanoseconds.
    pub closed spec fn spec_debounce(&self) -> u128 {
        self.debounce_nanos
    }

    /// A debouncer with the given debounce time and no event recorded.
    pub fn new(debounce_duration: Duration) -> (d: Self)
        ensures
            d.spec_events().len() == 0,
            d.spec_debounce() == duration_nanos_of(debounce_duration),
    {
        Debouncer { last_events: Vec::new(), debounce_nanos: duration_nanos(&debounce_duration), origin: now() }
    }

    /// The time of the last event acted on for `file_path`.
    fn last_time(&self, file_path: &FilePath) -> (r: Option<u128>)
        ensures
            r == last_event(self.spec_events(), file_path@),
    {
        let ghost ev = self.last_events@;
        let mut i = self.last_events.len();
        assert(ev.take(i as int) =~= ev);
        while i > 0
            invariant
                i <= ev.len(),
                ev == self.last_events@,
                last_event(ev, file_path@) == last_event(ev.take(i as int), file_path@),
            decreases i,
        {
            proof {
                assert(ev.take(i as int).drop_last() =~= ev.take(i - 1));
                assert(ev.take(i as int).last() == ev[i - 1]);
            }
            if self.last_events[i - 1].0.same_as(file_path) {
                return Some(self.last_events[i - 1].1);
            }
            i = i - 1;
        }
        None
    }

    /// Whether an event for `file_path` at time `now` (nanoseconds since the debouncer
    /// started) is to be acted on: not when the last event acted on for the same file
    /// came less than the debounce time before. An event acted on is recorded.
    pub fn should_process_at(&mut self, file_path: &FilePath, now: u128) -> (b: bool)
        ensures
            b == !(last_event(old(self).spec_events(), file_path@) matches Some(t)
                && (if now >= t { now - t } else { 0 }) < old(self).spec_debounce()),
            b ==> last_event(final(self).spec_events(), file_path@) == Some(now),
            b ==> forall|p: Seq<char>| p != file_path@ ==> last_event(final(self).spec_events(), p) == last_event(old(self).spec_events(), p),
            !b ==> final(self).spec_events() == old(self).spec_events(),
            final(self).spec_debounce() == old(self).spec_debounce(),
    {
        match self.last_time(file_path) {
            Some(t) => {
                let elapsed = if now >= t { now - t } else { 0 };
                if elapsed < self.debounce_nanos {
                    return false;
                }
            },
            None => {},
        }
        let ghost old_events = self.last_events@;
        self.last_events.push((file_path.clone(), now));
        proof {
            assert(self.last_events@.drop_last() =~= old_events);
            assert forall|p: Seq<char>| p != file_path@ implies last_event(self.last_events@, p) == last_event(old_events, p) by {}
        }
        true
    }

    /// Whether an event for `file_path` now is to be acted on (see `should_process_at`).
    pub fn should_process(&mut self, file_path: &FilePath) -> (b: bool)
        ensures
            exists|now: u128| {
                &&& b == !(last_event(old(self).spec_events(), file_path@) matches Some(t)
                    && (if now >= t { now - t } else { 0 }) < old(self).spec_debounce())
                &&& b ==> last_event(final(self).spec_events(), file_path@) == Some(now)
            },
            b ==> forall|p: Seq<char>| p != file_path@ ==> last_event(final(self).spec_events(), p) == last_event(old(self).spec_events(), p),
            !b ==> final(self).spec_events() == old(self).spec_events(),
            final(self).spec_debounce() == old(self).spec_debounce(),
    {
        let now = nanos_since(&self.origin);
        self.should_process_at(file_path, now)
    }
}

} // verus!
