//! The index of a documentation site: its title and its documents, ordered by
//! identifier.
use vstd::prelude::*;
use vstd::multiset::Multiset;
use vstd::seq_lib::to_multiset_insert;
use crate::text::chars_of;

verus! {

/// A document of the site index: its identifier and title.
#[derive(Debug, Clone, PartialEq, Eq)]
pub struct DocumentInfo {
    pub id: String,
    pub title: String,
}

impl View for DocumentInfo {
    type V = (Seq<char>, Seq<char>);

    open spec fn view(&self) -> (Seq<char>, Seq<char>) {
        (self.id@, self.title@)
    }
}

/// The index of a site: its title and its documents.
#[derive(Debug, Clone)]
pub struct SiteInfo {
    pub title: String,
    pub documents: Vec<DocumentInfo>,
}

/// Whether `a` comes before `b` in the order of strings: character by character, by
/// code point, a proper prefix first.
pub open spec fn text_before(a: Seq<char>, b: Seq<char>) -> bool
    decreases a.len(),
{
    if a.len() == 0 {
        b.len() > 0
    } else if b.len() == 0 {
        false
    } else if a[0] != b[0] {
        (a[0] as u32) < (b[0] as u32)
    } else {
        text_before(a.drop_first(), b.drop_first())
    }
}

/// Whether the documents are in the order of their identifiers.
pub open spec fn ordered_by_id(ds: Seq<(Seq<char>, Seq<char>)>) -> bool {
    forall|i: int, j: int| 0 <= i < j < ds.len() ==> !text_before(#[trigger] ds[j].0, #[trigger] ds[i].0)
}

/// The order of strings is transitive.
pub proof fn lemma_text_before_transitive(a: Seq<char>, b: Seq<char>, c: Seq<char>)
    requires
        text_before(a, b),
        text_before(b, c),
    ensures
        text_before(a, c),
    decreases a.len(),
{
    if a.len() > 0 && b.len() > 0 && c.len() > 0 && a[0] == b[0] && b[0] == c[0] {
        lemma_text_before_transitive(a.drop_first(), b.drop_first(), c.drop_first());
    }
}

/// No string comes before itself.
pub proof fn lemma_text_before_irreflexive(a: Seq<char>)
    ensures
        !text_before(a, a),
    decreases a.len(),
{
    if a.len() > 0 {
        lemma_text_before_irreflexive(a.drop_first());
    }
}

/// Whether `a` comes before `b` in the order of strings.
pub fn str_before(a: &str, b: &str) -> (r: bool)
    ensures
        r == text_before(a@, b@),
{
    let x = chars_of(a);
    let y = chars_of(b);
    let mut i: usize = 0;
    assert(x@.skip(0) =~= x@);
    assert(y@.skip(0) =~= y@);
    while i < x.len() && i < y.len() && x[i] == y[i]
        invariant
            i <= x@.len(),
            i <= y@.len(),
            text_before(a@, b@) == text_before(x@.skip(i as int), y@.skip(i as int)),
            x@ == a@,
            y@ == b@,
        decreases x.len() - i,
    {
        assert(x@.skip(i as int).drop_first() =~= x@.skip(i + 1));
        assert(y@.skip(i as int).drop_first() =~= y@.skip(i + 1));
        i = i + 1;
    }
    if i == x.len() {
        i < y.len()
    } else if i == y.len() {
        false
    } else {
        assert(x@.skip(i as int)[0] == x@[i as int]);
        assert(y@.skip(i as int)[0] == y@[i as int]);
        (x[i] as u32) < (y[i] as u32)
    }
}

/// The views of a sequence of documents.
pub open spec fn info_views(ds: Seq<DocumentInfo>) -> Seq<(Seq<char>, Seq<char>)> {
    ds.map_values(|d: DocumentInfo| d@)
}

/// The site index with the given title: the documents ordered by identifier.
pub fn get_site_info(title: &str, documents: Vec<DocumentInfo>) -> (s: SiteInfo)
    ensures
        s.title@ == title@,
        ordered_by_id(info_views(s.documents@)),
        info_views(s.documents@).to_multiset() == info_views(documents@).to_multiset(),
{
    broadcast use vstd::seq_lib::group_to_multiset_ensures;
    let ghost input = info_views(documents@);
    let mut sorted: Vec<DocumentInfo> = Vec::new();
    let mut rest = documents;
    let ghost n = input.len();
    assert(input.skip(0) =~= input);
    assert(info_views(sorted@) =~= Seq::<(Seq<char>, Seq<char>)>::empty());
    assert(input.take(0) =~= Seq::<(Seq<char>, Seq<char>)>::empty());
    assert(info_views(sorted@).to_multiset() =~= input.take(0).to_multiset());
    while rest.len() > 0
        invariant
            rest@.len() <= n,
            n == input.len(),
            info_views(rest@) == input.skip(n - rest@.len()),
            ordered_by_id(info_views(sorted@)),
            info_views(sorted@).to_multiset() == input.take(n - rest@.len()).to_multiset(),
        decreases rest.len(),
    {
        let ghost k = n - rest@.len();
        let ghost old_rest = rest@;
        let d = rest.remove(0);
        proof {
            assert(input.skip(k)[0] == input[k]);
            assert(info_views(old_rest)[0] == d@);
            assert(d@ == input[k]);
            assert(rest@ =~= old_rest.drop_first());
            assert(info_views(rest@) =~= info_views(old_rest).drop_first());
            assert(info_views(rest@) =~= input.skip(k + 1));
        }
        let ghost before = info_views(sorted@);
        let mut p: usize = 0;
        loop
            invariant
                p <= sorted@.len(),
                before == info_views(sorted@),
                forall|i: int| 0 <= i < p ==> !text_before(d.id@, #[trigger] before[i].0),
            ensures
                p <= sorted@.len(),
                forall|i: int| 0 <= i < p ==> !text_before(d.id@, #[trigger] before[i].0),
                p < sorted@.len() ==> text_before(d.id@, before[p as int].0),
            decreases sorted.len() - p,
        {
            if p >= sorted.len() {
                break;
            }
            assert(before[p as int] == sorted@[p as int]@);
            if str_before(d.id.as_str(), sorted[p].id.as_str()) {
                break;
            }
            p = p + 1;
        }
        sorted.insert(p, d);
        proof {
            let after = info_views(sorted@);
            assert(after =~= before.insert(p as int, d@));
            to_multiset_insert(before, p as int, d@);
            assert(input.take(k + 1) =~= input.take(k).insert(k, input[k]));
            to_multiset_insert(input.take(k), k, input[k]);
            assert forall|i: int, j: int| 0 <= i < j < after.len() implies !text_before(
                #[trigger] after[j].0,
                #[trigger] after[i].0,
            ) by {
                if j < p {
                    assert(after[i] == before[i] && after[j] == before[j]);
                    assert(!text_before(before[j].0, before[i].0));
                } else if j == p {
                    assert(after[i] == before[i]);
                    assert(after[j] == d@);
                    assert(!text_before(d.id@, before[i].0));
                } else if i == p {
                    assert(after[j] == before[j - 1]);
                    assert(after[i] == d@);
                    assert(p < before.len());
                    assert(text_before(d.id@, before[p as int].0));
                    if j - 1 > p {
                        assert(!text_before(before[j - 1].0, before[p as int].0));
                    } else {
                        lemma_text_before_irreflexive(before[p as int].0);
                    }
                    if text_before(before[j - 1].0, d.id@) {
                        lemma_text_before_transitive(before[j - 1].0, d.id@, before[p as int].0);
                    }
                } else if i < p {
                    assert(after[i] == before[i] && after[j] == before[j - 1]);
                    assert(!text_before(d.id@, before[i].0));
                    assert(!text_before(before[j - 1].0, before[i].0));
                } else {
                    assert(after[i] == before[i - 1] && after[j] == before[j - 1]);
                    assert(!text_before(before[j - 1].0, before[i - 1].0));
                }
            }
        }
    }
    assert(input.take(n as int) =~= input);
    SiteInfo { title: title.to_owned(), documents: sorted }
}

} // verus!
