//! Unique identifiers made from strings: the string itself, or the string with a
//! number appended when it is taken.
use vstd::prelude::*;
use crate::document::StringSet;
use crate::text::{decimal, push_char, push_decimal};

verus! {

/// The candidate of number `i` for `raw`: `raw` itself for 1, else `raw i`.
pub open spec fn id_candidate_of(raw: Seq<char>, i: nat) -> Seq<char> {
    if i <= 1 {
        raw
    } else {
        raw + seq![' '] + decimal(i)
    }
}

/// The number of candidates tried before giving up.
pub open spec fn max_tries() -> nat {
    100
}

/// Whether all candidates for `raw` (the string itself, then numbers 2 to 99) are
/// taken in `taken`.
pub open spec fn all_taken(raw: Seq<char>, taken: Set<Seq<char>>) -> bool {
    forall|i: nat| 1 <= i < max_tries() ==> taken.contains(#[trigger] id_candidate_of(raw, i))
}

/// Generates identifiers that are unique among those it generated before.
#[derive(Debug)]
pub struct IdGenerator {
    ids: StringSet,
}

impl View for IdGenerator {
    type V = Set<Seq<char>>;

    closed spec fn view(&self) -> Set<Seq<char>> {
        self.ids@
    }
}

impl Default for IdGenerator {
    fn default() -> (g: Self)
        ensures
            g@ == Set::<Seq<char>>::empty(),
    {
        IdGenerator { ids: StringSet::new() }
    }
}

impl IdGenerator {
    /// An identifier made from `string`: the string itself if it is new, else the first
    /// of `string 2`, `string 3`, ... up to `string 99` that is new. The identifier is
    /// recorded as taken.
    pub fn id_from(&mut self, string: &str) -> (id: String)
        requires
            !all_taken(string@, old(self)@),
        ensures
            exists|i: nat| 1 <= i < max_tries() && id@ == #[trigger] id_candidate_of(string@, i)
                && !old(self)@.contains(id@)
                && forall|j: nat| 1 <= j < i ==> old(self)@.contains(#[trigger] id_candidate_of(string@, j)),
            final(self)@ == old(self)@.insert(id@),
    {
        let ghost taken = self@;
        let raw = string.to_owned();
        if self.ids.insert(raw.clone()) {
            assert(id_candidate_of(string@, 1) == raw@);
            return raw;
        }
        assert(taken.contains(id_candidate_of(string@, 1)));
        let mut i: u64 = 2;
        while i < 100
            invariant
                2 <= i <= 100,
                self@ == taken,
                taken == old(self)@,
                raw@ == string@,
                !all_taken(string@, taken),
                forall|j: nat| 1 <= j < i ==> taken.contains(#[trigger] id_candidate_of(string@, j)),
            decreases 100 - i,
        {
            let mut candidate = raw.clone();
            push_char(&mut candidate, ' ');
            push_decimal(&mut candidate, i as u128);
            assert(candidate@ == id_candidate_of(string@, i as nat));
            if self.ids.insert(candidate.clone()) {
                assert(id_candidate_of(string@, i as nat) == candidate@);
                return candidate;
            }
            assert(taken.insert(candidate@) =~= taken);
            i = i + 1;
        }
        proof {
            assert(all_taken(string@, taken));
        }
        raw
    }
}

} // verus!
