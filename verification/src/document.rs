//! The document model: identifiers, sources, byte ranges and metadata.
use vstd::prelude::*;
use crate::text::{
    ascii_lower, ascii_lower_char, char_is_alphanumeric, char_is_whitespace, chars_of, decimal, is_alphanumeric,
    is_ascii_text, is_whitespace,
    lemma_decimal_injective, lemma_decimal_nonempty, lowercase_of, push_char, push_decimal,
    string_from_chars, to_lowercase,
};
use crate::path::FilePath;
use crate::strmap::{entries_map, entry_keys, StrMap};

verus! {

/// A set of strings, such as the document identifiers that are already taken.
///
/// The strings are kept in insertion order; none occurs twice.
#[derive(Debug)]
pub struct StringSet {
    ids: Vec<String>,
}

impl View for StringSet {
    type V = Set<Seq<char>>;

    open spec fn view(&self) -> Set<Seq<char>> {
        self.id_seq().to_set()
    }
}

impl StringSet {
    /// The identifiers, in insertion order.
    pub closed spec fn id_seq(&self) -> Seq<Seq<char>> {
        self.ids@.map_values(|s: String| s@)
    }

    /// No identifier occurs twice.
    #[verifier::type_invariant]
    closed spec fn wf(&self) -> bool {
        self.id_seq().no_duplicates()
    }

    /// The set of taken identifiers is finite and no larger than what a `Vec` holds.
    pub proof fn lemma_finite(&self)
        ensures
            self@.finite(),
            self@.len() <= usize::MAX,
    {
        self.id_seq().lemma_cardinality_of_set();
        assert(self.id_seq().len() == self.ids@.len());
        assert(self.ids@.len() == self.ids.len());
    }

    /// An empty set.
    pub fn new() -> (s: Self)
        ensures
            s@ == Set::<Seq<char>>::empty(),
    {
        let s = StringSet { ids: Vec::new() };
        assert(s.id_seq() =~= Seq::<Seq<char>>::empty());
        s
    }

    /// Whether `id` is taken.
    pub fn contains(&self, id: &str) -> (b: bool)
        ensures
            b == self@.contains(id@),
    {
        let key = id.to_owned();
        let mut i: usize = 0;
        while i < self.ids.len()
            invariant
                i <= self.ids.len(),
                key@ == id@,
                forall|j: int| 0 <= j < i ==> self.id_seq()[j] != id@,
            decreases self.ids.len() - i,
        {
            if self.ids[i] == key {
                assert(self.id_seq()[i as int] == id@);
                assert(self.id_seq().contains(id@));
                return true;
            }
            i = i + 1;
        }
        proof {
            if self.id_seq().contains(id@) {
                let j = choose|j: int| 0 <= j < self.id_seq().len() && self.id_seq()[j] == id@;
                assert(self.id_seq()[j] == id@);
            }
        }
        false
    }

    /// Marks `id` as taken; answers whether it was new.
    pub fn insert(&mut self, id: String) -> (added: bool)
        ensures
            final(self)@ == old(self)@.insert(id@),
            added == !old(self)@.contains(id@),
    {
        proof {
            use_type_invariant(&*self);
        }
        if self.contains(id.as_str()) {
            assert(self@.insert(id@) =~= self@);
            false
        } else {
            let ghost old_seq = self.id_seq();
            let mut ids: Vec<String> = Vec::new();
            std::mem::swap(&mut ids, &mut self.ids);
            ids.push(id);
            assert(ids@.map_values(|s: String| s@) =~= old_seq.push(id@));
            self.ids = ids;
            assert(self.id_seq() =~= old_seq.push(id@));
            assert(self@ =~= old_seq.to_set().insert(id@)) by {
                old_seq.lemma_push_to_set_commute(id@);
            }
            true
        }
    }
}

impl Clone for StringSet {
    fn clone(&self) -> (c: Self)
        ensures
            c@ == self@,
    {
        proof {
            use_type_invariant(self);
        }
        let mut ids: Vec<String> = Vec::new();
        let mut i: usize = 0;
        while i < self.ids.len()
            invariant
                i <= self.ids.len(),
                ids@.len() == i,
                forall|j: int| 0 <= j < i ==> ids@[j]@ == self.ids@[j]@,
            decreases self.ids.len() - i,
        {
            ids.push(self.ids[i].clone());
            i = i + 1;
        }
        assert(ids@.map_values(|s: String| s@) =~= self.id_seq());
        StringSet { ids }
    }
}

/// How one character of the lower-cased title enters a slug: kept (letters and
/// digits), turned into a separator (whitespace, `-`, `_`) or dropped (anything else).
pub open spec fn slug_char(c: char) -> Option<char> {
    if char_is_alphanumeric(c) {
        Some(c)
    } else if char_is_whitespace(c) || c == '-' || c == '_' {
        Some('-')
    } else {
        None
    }
}

/// Every character of `l` mapped by `slug_char`, the dropped ones left out.
pub open spec fn slug_map(l: Seq<char>) -> Seq<char>
    decreases l.len(),
{
    if l.len() == 0 {
        Seq::empty()
    } else {
        match slug_char(l.last()) {
            Some(c) => slug_map(l.drop_last()).push(c),
            None => slug_map(l.drop_last()),
        }
    }
}

/// Reads `m` from the left: the words (maximal runs without `-`) seen so far joined
/// by single hyphens, and whether a hyphen is owed before the next word.
pub open spec fn collapse_state(m: Seq<char>) -> (Seq<char>, bool)
    decreases m.len(),
{
    if m.len() == 0 {
        (Seq::empty(), false)
    } else {
        let (out, pending) = collapse_state(m.drop_last());
        let c = m.last();
        if c == '-' {
            (out, out.len() > 0)
        } else if pending {
            (out.push('-').push(c), false)
        } else {
            (out.push(c), false)
        }
    }
}

/// The words of `m` (maximal runs without `-`) joined by single hyphens.
pub open spec fn collapse_hyphens(m: Seq<char>) -> Seq<char> {
    collapse_state(m).0
}

/// The URL-friendly slug of a title: lower-cased, letters and digits kept,
/// whitespace, `-` and `_` turned into word breaks, other characters removed,
/// and the words joined by single hyphens.
pub open spec fn slug(title: Seq<char>) -> Seq<char> {
    collapse_hyphens(slug_map(lowercase_of(title)))
}

/// The slug of an ASCII title, whose lower-casing is known: `A`-`Z` made small.
pub open spec fn ascii_slug(title: Seq<char>) -> Seq<char> {
    collapse_hyphens(slug_map(ascii_lower(title)))
}

/// Convert a string to a URL-friendly slug.
pub fn slugify(s: &str) -> (r: String)
    ensures
        r@ == slug(s@),
        is_ascii_text(s@) ==> r@ == ascii_slug(s@),
{
    let lower = to_lowercase(s);
    let cs = chars_of(lower.as_str());
    let mut out: Vec<char> = Vec::new();
    let mut pending = false;
    let mut i: usize = 0;
    while i < cs.len()
        invariant
            i <= cs.len(),
            (out@, pending) == collapse_state(slug_map(cs@.take(i as int))),
        decreases cs.len() - i,
    {
        let c = cs[i];
        let ghost before = cs@.take(i as int);
        assert(cs@.take(i + 1) == before.push(c));
        assert(cs@.take(i + 1).drop_last() == before);
        let mapped: Option<char> = if is_alphanumeric(c) {
            Some(c)
        } else if is_whitespace(c) || c == '-' || c == '_' {
            Some('-')
        } else {
            None
        };
        match mapped {
            Some(m) => {
                assert(slug_map(cs@.take(i + 1)) == slug_map(before).push(m));
                assert(slug_map(cs@.take(i + 1)).drop_last() == slug_map(before));
                if m == '-' {
                    pending = out.len() > 0;
                } else {
                    if pending {
                        out.push('-');
                    }
                    out.push(m);
                    pending = false;
                }
            },
            None => {},
        }
        i = i + 1;
    }
    assert(cs@.take(cs@.len() as int) == cs@);
    string_from_chars(out.as_slice())
}

/// A slug has the shape of hyphen-separated words: it neither starts nor ends
/// with a hyphen, holds no two hyphens in a row, and every other character is
/// a letter or digit.
pub open spec fn slug_shaped(o: Seq<char>) -> bool {
    &&& o.len() > 0 ==> o[0] != '-' && o.last() != '-'
    &&& forall|i: int| 0 <= i < o.len() - 1 ==> !(#[trigger] o[i] == '-' && o[i + 1] == '-')
    &&& forall|i: int| 0 <= i < o.len() ==> #[trigger] o[i] == '-' || char_is_alphanumeric(o[i])
}

proof fn lemma_slug_map_chars(l: Seq<char>)
    ensures
        forall|i: int|
            0 <= i < slug_map(l).len() ==> #[trigger] slug_map(l)[i] == '-'
                || char_is_alphanumeric(slug_map(l)[i]),
    decreases l.len(),
{
    if l.len() > 0 {
        let p = l.drop_last();
        lemma_slug_map_chars(p);
        let r = slug_map(l);
        assert forall|i: int| 0 <= i < r.len() implies #[trigger] r[i] == '-' || char_is_alphanumeric(r[i]) by {
            if i < slug_map(p).len() {
                assert(r[i] == slug_map(p)[i]);
            }
        }
    }
}

proof fn lemma_collapse_shape(m: Seq<char>)
    requires
        forall|i: int| 0 <= i < m.len() ==> #[trigger] m[i] == '-' || char_is_alphanumeric(m[i]),
    ensures
        slug_shaped(collapse_state(m).0),
        collapse_state(m).1 ==> collapse_state(m).0.len() > 0,
    decreases m.len(),
{
    if m.len() > 0 {
        let p = m.drop_last();
        assert forall|i: int| 0 <= i < p.len() implies #[trigger] p[i] == '-' || char_is_alphanumeric(p[i]) by {
            assert(p[i] == m[i]);
        }
        lemma_collapse_shape(p);
        let (out, pending) = collapse_state(p);
        let c = m.last();
        assert(m[m.len() - 1] == c);
        if c != '-' {
            if pending {
                let o2 = out.push('-').push(c);
                assert forall|i: int| 0 <= i < o2.len() - 1 implies !(#[trigger] o2[i] == '-' && o2[i + 1] == '-') by {
                    if i < out.len() - 1 {
                        assert(o2[i] == out[i] && o2[i + 1] == out[i + 1]);
                    }
                }
                assert forall|i: int| 0 <= i < o2.len() implies #[trigger] o2[i] == '-' || char_is_alphanumeric(o2[i]) by {
                    if i < out.len() {
                        assert(o2[i] == out[i]);
                    }
                }
            } else {
                let o2 = out.push(c);
                assert forall|i: int| 0 <= i < o2.len() - 1 implies !(#[trigger] o2[i] == '-' && o2[i + 1] == '-') by {
                    if i < out.len() - 1 {
                        assert(o2[i] == out[i] && o2[i + 1] == out[i + 1]);
                    }
                }
                assert forall|i: int| 0 <= i < o2.len() implies #[trigger] o2[i] == '-' || char_is_alphanumeric(o2[i]) by {
                    if i < out.len() {
                        assert(o2[i] == out[i]);
                    }
                }
            }
        }
    }
}

/// Law: every slug is made of words of letters and digits joined by single hyphens.
pub proof fn lemma_slug_is_shaped(title: Seq<char>)
    ensures
        slug_shaped(slug(title)),
{
    let m = slug_map(lowercase_of(title));
    lemma_slug_map_chars(lowercase_of(title));
    lemma_collapse_shape(m);
}

/// Letters, digits and hyphens pass through `slug_map` unchanged.
proof fn lemma_slug_map_fixed(o: Seq<char>)
    requires
        forall|i: int| 0 <= i < o.len() ==> #[trigger] o[i] == '-' || char_is_alphanumeric(o[i]),
    ensures
        slug_map(o) == o,
    decreases o.len(),
{
    if o.len() > 0 {
        let p = o.drop_last();
        assert forall|i: int| 0 <= i < p.len() implies #[trigger] p[i] == '-' || char_is_alphanumeric(p[i]) by {
            assert(p[i] == o[i]);
        }
        lemma_slug_map_fixed(p);
        assert(o[o.len() - 1] == o.last());
        assert(p.push(o.last()) =~= o);
    }
}

/// Reading a prefix of a slug: the prefix without a trailing hyphen, and whether it
/// had one.
proof fn lemma_collapse_prefix(o: Seq<char>, k: int)
    requires
        slug_shaped(o),
        0 <= k <= o.len(),
    ensures
        collapse_state(o.take(k)) == (if k > 0 && o[k - 1] == '-' {
            (o.take(k - 1), true)
        } else {
            (o.take(k), false)
        }),
    decreases k,
{
    if k > 0 {
        lemma_collapse_prefix(o, k - 1);
        assert(o.take(k).drop_last() =~= o.take(k - 1));
        assert(o.take(k).last() == o[k - 1]);
        let c = o[k - 1];
        if c == '-' {
            assert(k - 1 > 0);
            assert(!(o[k - 2] == '-' && o[k - 1] == '-'));
        } else if k >= 2 && o[k - 2] == '-' {
            assert(o.take(k - 2).push('-').push(c) =~= o.take(k));
        } else {
            assert(o.take(k - 1).push(c) =~= o.take(k));
        }
    } else {
        assert(o.take(0) =~= Seq::<char>::empty());
    }
}

/// Law: a slug is its own slug, lower-casing aside: its letters, digits and single
/// hyphens pass through unchanged.
pub proof fn lemma_slug_of_slug(o: Seq<char>)
    requires
        slug_shaped(o),
    ensures
        collapse_hyphens(slug_map(o)) == o,
{
    lemma_slug_map_fixed(o);
    lemma_collapse_prefix(o, o.len() as int);
    assert(o.take(o.len() as int) =~= o);
}

/// An ASCII character that is not a capital letter.
pub open spec fn small_ascii(c: char) -> bool {
    (c as u32) < 128 && !(65 <= (c as u32) <= 90)
}

proof fn lemma_slug_map_small(l: Seq<char>)
    requires
        forall|i: int| 0 <= i < l.len() ==> small_ascii(#[trigger] l[i]),
    ensures
        forall|i: int| 0 <= i < slug_map(l).len() ==> small_ascii(#[trigger] slug_map(l)[i]),
    decreases l.len(),
{
    if l.len() > 0 {
        let p = l.drop_last();
        assert forall|i: int| 0 <= i < p.len() implies small_ascii(#[trigger] p[i]) by {
            assert(p[i] == l[i]);
        }
        lemma_slug_map_small(p);
        let r = slug_map(l);
        assert(small_ascii(l[l.len() - 1]));
        assert(('-' as u32) == 45);
        assert forall|i: int| 0 <= i < r.len() implies small_ascii(#[trigger] r[i]) by {
            if i < slug_map(p).len() {
                assert(r[i] == slug_map(p)[i]);
            }
        }
    }
}

proof fn lemma_collapse_small(m: Seq<char>)
    requires
        forall|i: int| 0 <= i < m.len() ==> small_ascii(#[trigger] m[i]),
    ensures
        forall|i: int| 0 <= i < collapse_state(m).0.len() ==> small_ascii(#[trigger] collapse_state(m).0[i]),
    decreases m.len(),
{
    if m.len() > 0 {
        let p = m.drop_last();
        assert forall|i: int| 0 <= i < p.len() implies small_ascii(#[trigger] p[i]) by {
            assert(p[i] == m[i]);
        }
        lemma_collapse_small(p);
        let out = collapse_state(p).0;
        let r = collapse_state(m).0;
        assert(small_ascii(m[m.len() - 1]));
        assert(('-' as u32) == 45);
        assert forall|i: int| 0 <= i < r.len() implies small_ascii(#[trigger] r[i]) by {
            if i < out.len() {
                assert(r[i] == out[i]);
            }
        }
    }
}

/// Law: slugifying the slug of an ASCII title gives it back unchanged (the slug is
/// ASCII too, so `slugify` takes it through `ascii_slug` again).
pub proof fn lemma_ascii_slug_idempotent(title: Seq<char>)
    requires
        is_ascii_text(title),
    ensures
        is_ascii_text(ascii_slug(title)),
        ascii_slug(ascii_slug(title)) == ascii_slug(title),
{
    let l = ascii_lower(title);
    assert forall|i: int| 0 <= i < l.len() implies small_ascii(#[trigger] l[i]) by {
        let c = title[i];
        assert((c as u32) < 128);
        if 65 <= (c as u32) <= 90 {
            assert((ascii_lower_char(c) as u32) == (c as u32) + 32);
        }
    }
    lemma_slug_map_small(l);
    lemma_collapse_small(slug_map(l));
    let o = ascii_slug(title);
    assert forall|i: int| 0 <= i < o.len() implies (#[trigger] o[i] as u32) < 128 by {
        assert(small_ascii(o[i]));
    }
    assert(ascii_lower(o) =~= o) by {
        assert forall|i: int| 0 <= i < o.len() implies #[trigger] ascii_lower(o)[i] == o[i] by {
            assert(small_ascii(o[i]));
        }
    }
    lemma_slug_is_shaped_lowered(l);
    lemma_slug_of_slug(o);
}

/// The slug of any lowered text has the shape of hyphen-separated words.
proof fn lemma_slug_is_shaped_lowered(l: Seq<char>)
    ensures
        slug_shaped(collapse_hyphens(slug_map(l))),
{
    lemma_slug_map_chars(l);
    lemma_collapse_shape(slug_map(l));
}

/// The `k`-th identifier tried for a title whose slug is `base`:
/// the slug itself, then `base-1`, `base-2`, and so on.
pub open spec fn id_candidate(base: Seq<char>, k: nat) -> Seq<char> {
    if k == 0 {
        base
    } else {
        base + seq!['-'] + decimal(k)
    }
}

/// `id` is the first candidate for `base` that is not taken.
pub open spec fn first_free_candidate(base: Seq<char>, taken: Set<Seq<char>>, id: Seq<char>) -> bool {
    exists|k: nat|
        #![trigger id_candidate(base, k)]
        id == id_candidate(base, k) && !taken.contains(id) && forall|j: nat|
            j < k ==> taken.contains(#[trigger] id_candidate(base, j))
}

/// Different positions give different candidates.
pub proof fn lemma_candidate_injective(base: Seq<char>, j: nat, k: nat)
    requires
        id_candidate(base, j) == id_candidate(base, k),
    ensures
        j == k,
{
    lemma_decimal_nonempty(j);
    lemma_decimal_nonempty(k);
    if j > 0 && k > 0 {
        let cj = id_candidate(base, j);
        let ck = id_candidate(base, k);
        let n = base.len() + 1int;
        assert(cj.subrange(n, cj.len() as int) == decimal(j));
        assert(ck.subrange(n, ck.len() as int) == decimal(k));
        lemma_decimal_injective(j, k);
    } else if j > 0 {
        assert(id_candidate(base, j).len() > base.len());
    } else if k > 0 {
        assert(id_candidate(base, k).len() > base.len());
    }
}

/// The taken identifiers that are candidates at position `k` or later.
pub open spec fn later_candidates(base: Seq<char>, taken: Set<Seq<char>>, k: nat) -> Set<Seq<char>> {
    taken.filter(is_later_candidate(base, k))
}

/// Whether an identifier is a candidate for `base` at position `k` or later.
pub open spec fn is_later_candidate(base: Seq<char>, k: nat) -> spec_fn(Seq<char>) -> bool {
    |x: Seq<char>| exists|j: nat| j >= k && x == #[trigger] id_candidate(base, j)
}

proof fn lemma_later_candidates_step(base: Seq<char>, taken: Set<Seq<char>>, k: nat)
    requires
        taken.finite(),
        taken.contains(id_candidate(base, k)),
    ensures
        later_candidates(base, taken, k).finite(),
        later_candidates(base, taken, k + 1).len() + 1 == later_candidates(base, taken, k).len(),
{
    taken.lemma_len_filter(is_later_candidate(base, k));
    let a = later_candidates(base, taken, k);
    let b = later_candidates(base, taken, k + 1);
    let c = id_candidate(base, k);
    assert(a.contains(c));
    assert forall|x: Seq<char>| b.contains(x) <==> #[trigger] a.remove(c).contains(x) by {
        if b.contains(x) {
            let j = choose|j: nat| j >= k + 1 && x == #[trigger] id_candidate(base, j);
            if x == c {
                lemma_candidate_injective(base, j, k);
            }
        }
        if a.remove(c).contains(x) {
            let j = choose|j: nat| j >= k && x == #[trigger] id_candidate(base, j);
            if j == k {
                assert(x == c);
            }
            assert(j >= k + 1);
        }
    }
    assert(b =~= a.remove(c));
}

/// Unique identifier for a document.
#[derive(Debug, PartialEq, Eq, Hash)]
pub struct DocumentId(String);

impl View for DocumentId {
    type V = Seq<char>;

    closed spec fn view(&self) -> Seq<char> {
        self.0@
    }
}

impl DocumentId {
    /// Create a DocumentId from a title, ensuring uniqueness with a collision counter:
    /// the slug of the title, or, if that is taken, the first of `slug-1`, `slug-2`, ...
    /// that is not.
    pub fn from_title(title: &str, existing_ids: &StringSet) -> (id: Self)
        ensures
            first_free_candidate(slug(title@), existing_ids@, id@),
            !existing_ids@.contains(id@),
    {
        let base = slugify(title);
        let ghost b = base@;
        let ghost taken = existing_ids@;
        proof {
            existing_ids.lemma_finite();
            taken.lemma_len_filter(is_later_candidate(b, 0));
        }
        let mut candidate = base.clone();
        let mut counter: u128 = 0;
        while existing_ids.contains(candidate.as_str())
            invariant
                taken == existing_ids@,
                base@ == b,
                taken.finite(),
                taken.len() <= usize::MAX,
                candidate@ == id_candidate(b, counter as nat),
                later_candidates(b, taken, 0).len() <= taken.len(),
                counter + later_candidates(b, taken, counter as nat).len() == later_candidates(b, taken, 0).len(),
                forall|j: nat| j < counter ==> taken.contains(#[trigger] id_candidate(b, j)),
            decreases later_candidates(b, taken, counter as nat).len(),
        {
            proof {
                lemma_later_candidates_step(b, taken, counter as nat);
            }
            counter = counter + 1;
            let mut next = base.clone();
            push_char(&mut next, '-');
            push_decimal(&mut next, counter);
            assert(next@ =~= id_candidate(b, counter as nat));
            candidate = next;
        }
        assert(first_free_candidate(b, taken, candidate@)) by {
            assert(candidate@ == id_candidate(b, counter as nat));
        }
        DocumentId(candidate)
    }

    /// An ID given as it is written (as in a request path).
    pub fn from_string(s: &str) -> (id: Self)
        ensures
            id@ == s@,
    {
        DocumentId(s.to_owned())
    }

    /// Returns the ID as a string slice.
    pub fn as_str(&self) -> (s: &str)
        ensures
            s@ == self@,
    {
        self.0.as_str()
    }

    /// The ID as an owned string.
    pub fn to_string(&self) -> (s: String)
        ensures
            s@ == self@,
    {
        self.0.clone()
    }
}


/// Byte range of extracted content within its source file: `start` inclusive,
/// `end` exclusive.
#[derive(Debug, Clone, Copy, PartialEq, Eq, Structural)]
pub struct ByteRange {
    start: usize,
    end: usize,
}

impl ByteRange {
    /// The start position (inclusive).
    pub closed spec fn spec_start(&self) -> usize {
        self.start
    }

    /// The end position (exclusive).
    pub closed spec fn spec_end(&self) -> usize {
        self.end
    }

    /// The length: `end - start`, or 0 when `end` lies before `start`.
    pub open spec fn spec_len(&self) -> nat {
        if self.spec_end() >= self.spec_start() {
            (self.spec_end() - self.spec_start()) as nat
        } else {
            0
        }
    }

    /// A range is its two ends: ranges with the same ends are the same range.
    pub proof fn lemma_ends_determine(a: ByteRange, b: ByteRange)
        requires
            a.spec_start() == b.spec_start(),
            a.spec_end() == b.spec_end(),
        ensures
            a == b,
    {
    }

    /// Create a new byte range.
    pub fn new(start: usize, end: usize) -> (r: Self)
        ensures
            r.spec_start() == start,
            r.spec_end() == end,
    {
        ByteRange { start, end }
    }

    /// Get the start byte position (inclusive).
    pub fn start(&self) -> (s: usize)
        ensures
            s == self.spec_start(),
    {
        self.start
    }

    /// Get the end byte position (exclusive).
    pub fn end(&self) -> (e: usize)
        ensures
            e == self.spec_end(),
    {
        self.end
    }

    /// Get the length of the byte range (saturating at 0).
    pub fn len(&self) -> (n: usize)
        ensures
            n == self.spec_len(),
    {
        self.end.saturating_sub(self.start)
    }

    /// Returns true if the range is empty.
    pub fn is_empty(&self) -> (b: bool)
        ensures
            b == (self.spec_len() == 0),
    {
        self.len() == 0
    }
}

/// Type of document source.
#[derive(Debug, Clone, Copy, PartialEq, Eq, Structural)]
pub enum SourceType {
    /// Document extracted from a code comment with a documentation marker.
    CodeComment,
    /// Document from a standalone markdown file.
    MarkdownFile,
}

/// Source location and type information for a document.
#[derive(Debug, PartialEq, Eq)]
pub struct DocumentSource {
    source_type: SourceType,
    file_path: FilePath,
    line_number: usize,
    byte_range: Option<ByteRange>,
}

impl DocumentSource {
    /// The type of the source.
    pub closed spec fn spec_source_type(&self) -> SourceType {
        self.source_type
    }

    /// The file the document comes from.
    pub closed spec fn spec_file_path(&self) -> Seq<char> {
        self.file_path@
    }

    /// The line the document starts on.
    pub closed spec fn spec_line_number(&self) -> usize {
        self.line_number
    }

    /// The byte range of the content, if known.
    pub closed spec fn spec_byte_range(&self) -> Option<ByteRange> {
        self.byte_range
    }

    /// Create a new source without a byte range.
    pub fn new(source_type: SourceType, file_path: FilePath, line_number: usize) -> (s: Self)
        ensures
            s.spec_source_type() == source_type,
            s.spec_file_path() == file_path@,
            s.spec_line_number() == line_number,
            s.spec_byte_range() is None,
    {
        DocumentSource { source_type, file_path, line_number, byte_range: None }
    }

    /// Set the byte range of the content.
    pub fn with_byte_range(self, byte_range: ByteRange) -> (s: Self)
        ensures
            s.spec_source_type() == self.spec_source_type(),
            s.spec_file_path() == self.spec_file_path(),
            s.spec_line_number() == self.spec_line_number(),
            s.spec_byte_range() == Some(byte_range),
    {
        let mut s = self;
        s.byte_range = Some(byte_range);
        s
    }

    /// Returns the type of source.
    pub fn source_type(&self) -> (t: SourceType)
        ensures
            t == self.spec_source_type(),
    {
        self.source_type
    }

    /// Returns the file path.
    pub fn file_path(&self) -> (p: &FilePath)
        ensures
            p@ == self.spec_file_path(),
    {
        &self.file_path
    }

    /// Returns the line number (1-indexed for code, 1 for markdown files).
    pub fn line_number(&self) -> (n: usize)
        ensures
            n == self.spec_line_number(),
    {
        self.line_number
    }

    /// Returns the byte range if present.
    pub fn byte_range(&self) -> (r: Option<&ByteRange>)
        ensures
            match r {
                Some(b) => self.spec_byte_range() == Some(*b),
                None => self.spec_byte_range() is None,
            },
    {
        match &self.byte_range {
            Some(b) => Some(b),
            None => None,
        }
    }

    /// Returns true if this document comes from a code comment.
    pub fn is_code_comment(&self) -> (b: bool)
        ensures
            b == (self.spec_source_type() == SourceType::CodeComment),
    {
        match self.source_type {
            SourceType::CodeComment => true,
            SourceType::MarkdownFile => false,
        }
    }

    /// Returns true if this document comes from a markdown file.
    pub fn is_markdown_file(&self) -> (b: bool)
        ensures
            b == (self.spec_source_type() == SourceType::MarkdownFile),
    {
        match self.source_type {
            SourceType::CodeComment => false,
            SourceType::MarkdownFile => true,
        }
    }
}

/// Metadata of a document: simple string key-value pairs.
#[derive(Debug, PartialEq, Eq)]
pub struct DocumentMetadata {
    fields: StrMap,
}

impl View for DocumentMetadata {
    type V = Map<Seq<char>, Seq<char>>;

    closed spec fn view(&self) -> Map<Seq<char>, Seq<char>> {
        self.fields@
    }
}

/// The (key, value) pairs of `e` as character sequences.
pub open spec fn pair_views(e: Seq<(String, String)>) -> Seq<(Seq<char>, Seq<char>)> {
    e.map_values(|p: (String, String)| (p.0@, p.1@))
}

impl DocumentMetadata {
    /// The fields in the order they are kept.
    pub closed spec fn spec_entries(&self) -> Seq<(Seq<char>, Seq<char>)> {
        pair_views(self.fields.entry_seq())
    }

    /// Create metadata from a map of fields.
    pub fn new(fields: StrMap) -> (m: Self)
        ensures
            m@ == fields@,
    {
        DocumentMetadata { fields }
    }

    /// Create empty metadata.
    pub fn empty() -> (m: Self)
        ensures
            m@ == Map::<Seq<char>, Seq<char>>::empty(),
    {
        DocumentMetadata { fields: StrMap::new() }
    }

    /// Get a metadata field by key.
    pub fn get(&self, key: &str) -> (r: Option<&str>)
        ensures
            match r {
                Some(v) => self@.contains_key(key@) && v@ == self@[key@],
                None => !self@.contains_key(key@),
            },
    {
        match self.fields.get(key) {
            Some(v) => Some(v.as_str()),
            None => None,
        }
    }

    /// All metadata fields as (key, value) pairs.
    pub fn iter(&self) -> (e: Vec<(String, String)>)
        ensures
            entries_map(e@) == self@,
            pair_views(e@) == self.spec_entries(),
            entry_keys(e@).no_duplicates(),
    {
        self.fields.to_vec()
    }

    /// Returns true if metadata has no fields.
    pub fn is_empty(&self) -> (b: bool)
        ensures
            b == (self@.len() == 0),
    {
        self.fields.is_empty()
    }
}

/// A documentation block extracted from source code or a markdown file.
#[derive(Debug, PartialEq, Eq)]
pub struct Document {
    id: DocumentId,
    title: String,
    content: String,
    source: DocumentSource,
    metadata: Option<DocumentMetadata>,
}

/// What a document holds, as mathematical values.
pub struct DocumentView {
    pub id: Seq<char>,
    pub title: Seq<char>,
    pub content: Seq<char>,
    pub source: DocumentSource,
    pub metadata: Option<Map<Seq<char>, Seq<char>>>,
}

impl View for Document {
    type V = DocumentView;

    open spec fn view(&self) -> DocumentView {
        DocumentView {
            id: self.spec_id(),
            title: self.spec_title(),
            content: self.spec_content(),
            source: self.spec_source(),
            metadata: self.spec_metadata(),
        }
    }
}

impl Document {
    /// The document ID.
    pub closed spec fn spec_id(&self) -> Seq<char> {
        self.id@
    }

    /// The title.
    pub closed spec fn spec_title(&self) -> Seq<char> {
        self.title@
    }

    /// The markdown content.
    pub closed spec fn spec_content(&self) -> Seq<char> {
        self.content@
    }

    /// The metadata fields in the order they are kept, if any.
    pub closed spec fn spec_metadata_entries(&self) -> Option<Seq<(Seq<char>, Seq<char>)>> {
        match self.metadata {
            Some(m) => Some(m.spec_entries()),
            None => None,
        }
    }

    /// The source information.
    pub closed spec fn spec_source(&self) -> DocumentSource {
        self.source
    }

    /// The metadata fields, if any.
    pub closed spec fn spec_metadata(&self) -> Option<Map<Seq<char>, Seq<char>>> {
        match self.metadata {
            Some(m) => Some(m@),
            None => None,
        }
    }

    /// Create a new document whose ID is generated from the title, avoiding the IDs in
    /// `existing_ids`.
    pub fn new(
        title: String,
        content: String,
        source: DocumentSource,
        metadata: Option<DocumentMetadata>,
        existing_ids: &StringSet,
    ) -> (d: Self)
        ensures
            first_free_candidate(slug(title@), existing_ids@, d.spec_id()),
            d.spec_title() == title@,
            d.spec_content() == content@,
            d.spec_source() == source,
            d.spec_metadata() == (match metadata {
                Some(m) => Some(m@),
                None => None::<Map<Seq<char>, Seq<char>>>,
            }),
    {
        let id = DocumentId::from_title(title.as_str(), existing_ids);
        Document { id, title, content, source, metadata }
    }

    /// Returns the document ID.
    pub fn id(&self) -> (i: &DocumentId)
        ensures
            i@ == self.spec_id(),
    {
        &self.id
    }

    /// Returns the document title.
    pub fn title(&self) -> (t: &str)
        ensures
            t@ == self.spec_title(),
    {
        self.title.as_str()
    }

    /// Returns the markdown content.
    pub fn content(&self) -> (c: &str)
        ensures
            c@ == self.spec_content(),
    {
        self.content.as_str()
    }

    /// Returns source location and type information.
    pub fn source(&self) -> (s: &DocumentSource)
        ensures
            *s == self.spec_source(),
    {
        &self.source
    }

    /// Returns metadata if present.
    pub fn metadata(&self) -> (m: Option<&DocumentMetadata>)
        ensures
            match m {
                Some(md) => self.spec_metadata() == Some(md@) && self.spec_metadata_entries() == Some(md.spec_entries()),
                None => self.spec_metadata() is None && self.spec_metadata_entries() is None,
            },
    {
        match &self.metadata {
            Some(md) => Some(md),
            None => None,
        }
    }
}


impl Clone for DocumentId {
    fn clone(&self) -> (c: Self)
        ensures
            c == *self,
    {
        DocumentId(self.0.clone())
    }
}

impl Clone for DocumentSource {
    fn clone(&self) -> (c: Self)
        ensures
            c == *self,
    {
        DocumentSource {
            source_type: self.source_type,
            file_path: self.file_path.clone(),
            line_number: self.line_number,
            byte_range: self.byte_range,
        }
    }
}

impl Clone for DocumentMetadata {
    fn clone(&self) -> (c: Self)
        ensures
            c@ == self@,
            c.spec_entries() == self.spec_entries(),
    {
        DocumentMetadata { fields: self.fields.clone() }
    }
}

impl Clone for Document {
    fn clone(&self) -> (c: Self)
        ensures
            c@ == self@,
            c.spec_metadata_entries() == self.spec_metadata_entries(),
    {
        let metadata = match &self.metadata {
            Some(m) => Some(m.clone()),
            None => None,
        };
        Document {
            id: self.id.clone(),
            title: self.title.clone(),
            content: self.content.clone(),
            source: self.source.clone(),
            metadata,
        }
    }
}

} // verus!
