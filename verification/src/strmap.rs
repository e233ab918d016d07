//! A small map from strings to strings that keeps its entries in insertion order.
use vstd::prelude::*;

verus! {

/// A map from string keys to string values; each key occurs at most once.
#[derive(Debug)]
pub struct StrMap {
    entries: Vec<(String, String)>,
}

/// The characters of the keys of `e`, in order.
pub open spec fn entry_keys(e: Seq<(String, String)>) -> Seq<Seq<char>> {
    e.map_values(|p: (String, String)| p.0@)
}

/// The map that the entries `e` stand for (later entries win, though a well-formed
/// map has no repeated key).
pub open spec fn entries_map(e: Seq<(String, String)>) -> Map<Seq<char>, Seq<char>>
    decreases e.len(),
{
    if e.len() == 0 {
        Map::empty()
    } else {
        entries_map(e.drop_last()).insert(e.last().0@, e.last().1@)
    }
}

proof fn lemma_entries_map_dom(e: Seq<(String, String)>)
    ensures
        entries_map(e).dom() == entry_keys(e).to_set(),
        entries_map(e).dom().finite(),
    decreases e.len(),
{
    if e.len() > 0 {
        lemma_entries_map_dom(e.drop_last());
        assert(entry_keys(e) == entry_keys(e.drop_last()).push(e.last().0@));
        entry_keys(e.drop_last()).lemma_push_to_set_commute(e.last().0@);
    } else {
        assert(entry_keys(e).to_set() =~= Set::empty());
    }
}

proof fn lemma_entries_map_lookup(e: Seq<(String, String)>, i: int)
    requires
        entry_keys(e).no_duplicates(),
        0 <= i < e.len(),
    ensures
        entries_map(e).contains_key(e[i].0@),
        entries_map(e)[e[i].0@] == e[i].1@,
    decreases e.len(),
{
    if i < e.len() - 1 {
        let p = e.drop_last();
        assert(entry_keys(p) == entry_keys(e).drop_last());
        assert(entry_keys(e)[i] == e[i].0@);
        assert(entry_keys(e)[e.len() - 1] == e.last().0@);
        assert(entry_keys(p)[i] == e[i].0@);
        lemma_entries_map_lookup(p, i);
    }
}

proof fn lemma_entries_map_absent(e: Seq<(String, String)>, k: Seq<char>)
    requires
        forall|i: int| 0 <= i < e.len() ==> e[i].0@ != k,
    ensures
        !entries_map(e).contains_key(k),
    decreases e.len(),
{
    if e.len() > 0 {
        lemma_entries_map_absent(e.drop_last(), k);
    }
}

proof fn lemma_entries_map_same_views(a: Seq<(String, String)>, b: Seq<(String, String)>)
    requires
        a.len() == b.len(),
        forall|i: int| 0 <= i < a.len() ==> a[i].0@ == b[i].0@ && a[i].1@ == b[i].1@,
    ensures
        entries_map(a) == entries_map(b),
        entry_keys(a) == entry_keys(b),
    decreases a.len(),
{
    assert(entry_keys(a) =~= entry_keys(b));
    if a.len() > 0 {
        lemma_entries_map_same_views(a.drop_last(), b.drop_last());
    }
}

impl View for StrMap {
    type V = Map<Seq<char>, Seq<char>>;

    open spec fn view(&self) -> Map<Seq<char>, Seq<char>> {
        entries_map(self.entry_seq())
    }
}

impl StrMap {
    /// The entries, in insertion order.
    pub closed spec fn entry_seq(&self) -> Seq<(String, String)> {
        self.entries@
    }

    /// No key occurs twice.
    #[verifier::type_invariant]
    closed spec fn wf(&self) -> bool {
        entry_keys(self.entries@).no_duplicates()
    }

    /// The keys form a finite set.
    pub proof fn lemma_finite(&self)
        ensures
            self@.dom().finite(),
    {
        lemma_entries_map_dom(self.entries@);
    }

    /// An empty map.
    pub fn new() -> (m: Self)
        ensures
            m@ == Map::<Seq<char>, Seq<char>>::empty(),
    {
        let m = StrMap { entries: Vec::new() };
        assert(entry_keys(m.entries@) =~= Seq::<Seq<char>>::empty());
        m
    }

    /// The position of the entry with key `key`, if any.
    fn find(&self, key: &str) -> (r: Option<usize>)
        ensures
            match r {
                Some(i) => i < self.entries@.len() && self.entries@[i as int].0@ == key@
                    && self@.contains_key(key@) && self@[key@] == self.entries@[i as int].1@,
                None => !self@.contains_key(key@),
            },
    {
        proof {
            use_type_invariant(self);
        }
        let k = key.to_owned();
        let mut i: usize = 0;
        while i < self.entries.len()
            invariant
                i <= self.entries.len(),
                k@ == key@,
                entry_keys(self.entries@).no_duplicates(),
                forall|j: int| 0 <= j < i ==> self.entries@[j].0@ != key@,
            decreases self.entries.len() - i,
        {
            if self.entries[i].0 == k {
                proof {
                    lemma_entries_map_lookup(self.entries@, i as int);
                }
                return Some(i);
            }
            i = i + 1;
        }
        proof {
            lemma_entries_map_absent(self.entries@, key@);
        }
        None
    }

    /// The value stored under `key`.
    pub fn get(&self, key: &str) -> (r: Option<&String>)
        ensures
            match r {
                Some(v) => self@.contains_key(key@) && v@ == self@[key@],
                None => !self@.contains_key(key@),
            },
    {
        match self.find(key) {
            Some(i) => Some(&self.entries[i].1),
            None => None,
        }
    }

    /// Whether a value is stored under `key`.
    pub fn contains_key(&self, key: &str) -> (b: bool)
        ensures
            b == self@.contains_key(key@),
    {
        self.find(key).is_some()
    }

    /// Stores `value` under `key`, replacing and returning an earlier value.
    pub fn insert(&mut self, key: String, value: String) -> (prev: Option<String>)
        ensures
            final(self)@ == old(self)@.insert(key@, value@),
            match prev {
                Some(p) => old(self)@.contains_key(key@) && p@ == old(self)@[key@],
                None => !old(self)@.contains_key(key@),
            },
    {
        proof {
            use_type_invariant(&*self);
        }
        let ghost old_entries = self.entries@;
        match self.find(key.as_str()) {
            Some(i) => {
                let prev = self.entries[i].1.clone();
                let mut entries: Vec<(String, String)> = Vec::new();
                std::mem::swap(&mut entries, &mut self.entries);
                entries.set(i, (key, value));
                proof {
                    let ne = entries@;
                    assert(entry_keys(ne) =~= entry_keys(old_entries));
                    assert(ne.len() == old_entries.len());
                    lemma_entries_map_dom(ne);
                    lemma_entries_map_dom(old_entries);
                    assert forall|k: Seq<char>| #[trigger] entries_map(ne).contains_key(k) implies
                        entries_map(ne)[k] == entries_map(old_entries).insert(key@, value@)[k] by {
                        assert(entry_keys(ne).to_set().contains(k));
                        let j = choose|j: int| 0 <= j < entry_keys(ne).len() && entry_keys(ne)[j] == k;
                        assert(ne[j].0@ == k);
                        lemma_entries_map_lookup(ne, j);
                        assert(entry_keys(ne)[i as int] == key@);
                        if j != i {
                            assert(entry_keys(ne)[j] != entry_keys(ne)[i as int]);
                            assert(ne[j] == old_entries[j]);
                            lemma_entries_map_lookup(old_entries, j);
                        }
                    }
                    assert(entries_map(ne).dom() =~= entries_map(old_entries).insert(key@, value@).dom());
                    assert(entries_map(ne) =~= entries_map(old_entries).insert(key@, value@));
                }
                self.entries = entries;
                Some(prev)
            },
            None => {
                let ghost kv = key@;
                let ghost vv = value@;
                let mut entries: Vec<(String, String)> = Vec::new();
                std::mem::swap(&mut entries, &mut self.entries);
                entries.push((key, value));
                proof {
                    let ne = entries@;
                    assert(ne.drop_last() == old_entries);
                    assert(entry_keys(ne) == entry_keys(old_entries).push(kv));
                    lemma_entries_map_dom(old_entries);
                    assert(!entry_keys(old_entries).contains(kv));
                }
                self.entries = entries;
                None
            },
        }
    }

    /// Removes and returns the value stored under `key`.
    pub fn remove(&mut self, key: &str) -> (prev: Option<String>)
        ensures
            final(self)@ == old(self)@.remove(key@),
            match prev {
                Some(p) => old(self)@.contains_key(key@) && p@ == old(self)@[key@],
                None => !old(self)@.contains_key(key@),
            },
    {
        proof {
            use_type_invariant(&*self);
        }
        let ghost old_entries = self.entries@;
        match self.find(key) {
            Some(i) => {
                let mut entries: Vec<(String, String)> = Vec::new();
                std::mem::swap(&mut entries, &mut self.entries);
                let (_, v) = entries.remove(i);
                proof {
                    let ne = entries@;
                    assert(ne =~= old_entries.remove(i as int));
                    assert(entry_keys(ne) =~= entry_keys(old_entries).remove(i as int));
                    lemma_entries_map_dom(ne);
                    lemma_entries_map_dom(old_entries);
                    let target = entries_map(old_entries).remove(key@);
                    assert forall|k: Seq<char>| #[trigger] entries_map(ne).contains_key(k) implies
                        target.contains_key(k) && entries_map(ne)[k] == target[k] by {
                        assert(entry_keys(ne).to_set().contains(k));
                        let j = choose|j: int| 0 <= j < entry_keys(ne).len() && entry_keys(ne)[j] == k;
                        lemma_entries_map_lookup(ne, j);
                        let oj = if j < i { j } else { j + 1 };
                        assert(ne[j] == old_entries[oj]);
                        assert(entry_keys(old_entries)[oj] == k);
                        assert(entry_keys(old_entries)[i as int] == key@);
                        lemma_entries_map_lookup(old_entries, oj);
                    }
                    assert forall|k: Seq<char>| #[trigger] target.contains_key(k) implies
                        entries_map(ne).contains_key(k) by {
                        assert(entry_keys(old_entries).to_set().contains(k));
                        let oj = choose|j: int| 0 <= j < entry_keys(old_entries).len() && entry_keys(old_entries)[j] == k;
                        assert(oj != i);
                        let j = if oj < i { oj } else { oj - 1 };
                        assert(ne[j] == old_entries[oj]);
                        assert(entry_keys(ne)[j] == k);
                        assert(entry_keys(ne).to_set().contains(k));
                    }
                    assert(entries_map(ne) =~= target);
                    assert(entry_keys(ne).no_duplicates());
                }
                self.entries = entries;
                Some(v)
            },
            None => {
                assert(self@.remove(key@) =~= self@);
                None
            },
        }
    }

    /// The number of entries.
    pub fn len(&self) -> (n: usize)
        ensures
            n == self@.len(),
            n == self.entry_seq().len(),
    {
        proof {
            use_type_invariant(self);
            lemma_entries_map_dom(self.entries@);
            entry_keys(self.entries@).unique_seq_to_set();
        }
        self.entries.len()
    }

    /// Whether the map is empty.
    pub fn is_empty(&self) -> (b: bool)
        ensures
            b == (self@.len() == 0),
    {
        self.len() == 0
    }

    /// A copy of the entries, in insertion order.
    pub fn to_vec(&self) -> (e: Vec<(String, String)>)
        ensures
            e@ == self.entry_seq(),
            e@.len() == self.entry_seq().len(),
            forall|i: int| 0 <= i < e@.len() ==> e@[i].0@ == self.entry_seq()[i].0@ && e@[i].1@ == self.entry_seq()[i].1@,
            entries_map(e@) == self@,
            entry_keys(e@) == entry_keys(self.entry_seq()),
            entry_keys(e@).no_duplicates(),
            e@.len() == self@.len(),
    {
        proof {
            use_type_invariant(self);
            lemma_entries_map_dom(self.entries@);
            entry_keys(self.entries@).unique_seq_to_set();
        }
        let mut e: Vec<(String, String)> = Vec::new();
        let mut i: usize = 0;
        while i < self.entries.len()
            invariant
                i <= self.entries.len(),
                e@.len() == i,
                forall|j: int| 0 <= j < i ==> e@[j] == self.entries@[j],
            decreases self.entries.len() - i,
        {
            let k = self.entries[i].0.clone();
            let v = self.entries[i].1.clone();
            e.push((k, v));
            i = i + 1;
        }
        assert(e@ =~= self.entries@);
        e
    }

    /// Whether the two maps hold the same entries, in whatever order.
    pub fn same_as(&self, other: &StrMap) -> (b: bool)
        ensures
            b == (self@ == other@),
    {
        proof {
            self.lemma_finite();
            other.lemma_finite();
        }
        if self.len() != other.len() {
            return false;
        }
        let mut i: usize = 0;
        while i < self.entries.len()
            invariant
                i <= self.entries.len(),
                self.entries.len() == self@.len(),
                self@.len() == other@.len(),
                forall|j: int| 0 <= j < i ==> other@.contains_key(#[trigger] self.entries@[j].0@)
                    && other@[self.entries@[j].0@] == self.entries@[j].1@,
            decreases self.entries.len() - i,
        {
            proof {
                use_type_invariant(self);
                lemma_entries_map_lookup(self.entries@, i as int);
            }
            match other.get(self.entries[i].0.as_str()) {
                Some(v) => {
                    if *v != self.entries[i].1 {
                        assert(self@[self.entries@[i as int].0@] != other@[self.entries@[i as int].0@]);
                        return false;
                    }
                },
                None => {
                    return false;
                },
            }
            i = i + 1;
        }
        proof {
            use_type_invariant(self);
            lemma_entries_map_dom(self.entries@);
            assert forall|k: Seq<char>| #[trigger] self@.contains_key(k) implies other@.contains_key(k)
                && other@[k] == self@[k] by {
                assert(entry_keys(self.entries@).to_set().contains(k));
                let j = choose|j: int| 0 <= j < entry_keys(self.entries@).len() && entry_keys(self.entries@)[j] == k;
                lemma_entries_map_lookup(self.entries@, j);
                assert(self.entries@[j].0@ == k);
            }
            assert(self@.dom().subset_of(other@.dom()));
            vstd::set_lib::lemma_subset_equality(self@.dom(), other@.dom());
            assert(self@ =~= other@);
        }
        true
    }

    /// The entries in insertion order.
    pub fn entries(&self) -> (e: &Vec<(String, String)>)
        ensures
            e@ == self.entry_seq(),
            entries_map(e@) == self@,
            entry_keys(e@).no_duplicates(),
            e@.len() == self@.len(),
    {
        proof {
            use_type_invariant(self);
            lemma_entries_map_dom(self.entries@);
            entry_keys(self.entries@).unique_seq_to_set();
        }
        &self.entries
    }
}

impl PartialEq for StrMap {
    fn eq(&self, other: &Self) -> (b: bool) {
        self.same_as(other)
    }
}

impl vstd::std_specs::cmp::PartialEqSpecImpl for StrMap {
    open spec fn obeys_eq_spec() -> bool {
        true
    }

    open spec fn eq_spec(&self, other: &Self) -> bool {
        self@ == other@
    }
}

impl Eq for StrMap {
}

impl Clone for StrMap {
    fn clone(&self) -> (m: Self)
        ensures
            m@ == self@,
            m.entry_seq() == self.entry_seq(),
    {
        proof {
            use_type_invariant(self);
        }
        StrMap { entries: self.to_vec() }
    }
}

} // verus!
