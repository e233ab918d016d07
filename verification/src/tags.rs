//! Hash tags in titles: `The #atag title #btag` has the tags `atag` and `btag` and the
//! text `The title`.
use vstd::prelude::*;
use crate::text::{char_is_whitespace, chars_of, is_whitespace, push_char, push_str};

verus! {

/// The pieces of `s` between whitespace characters (empty pieces included).
pub open spec fn split_ws(s: Seq<char>) -> Seq<Seq<char>>
    decreases s.len(),
{
    if s.len() == 0 {
        seq![Seq::empty()]
    } else {
        let r = split_ws(s.drop_last());
        if char_is_whitespace(s.last()) {
            r.push(Seq::empty())
        } else {
            r.update(r.len() - 1, r.last().push(s.last()))
        }
    }
}

proof fn lemma_split_ws_nonempty(s: Seq<char>)
    ensures
        split_ws(s).len() >= 1,
    decreases s.len(),
{
    if s.len() > 0 {
        lemma_split_ws_nonempty(s.drop_last());
    }
}

/// Whether a word is a tag: it starts with `#`.
pub open spec fn is_tag(w: Seq<char>) -> bool {
    w.len() > 0 && w[0] == '#'
}

/// The tags among the pieces, without their `#`.
pub open spec fn tags_of(ps: Seq<Seq<char>>) -> Seq<Seq<char>>
    decreases ps.len(),
{
    if ps.len() == 0 {
        Seq::empty()
    } else {
        let r = tags_of(ps.drop_last());
        if is_tag(ps.last()) {
            r.push(ps.last().drop_first())
        } else {
            r
        }
    }
}

/// The words among the pieces that are not tags, joined by single spaces.
pub open spec fn text_of(ps: Seq<Seq<char>>) -> Seq<char>
    decreases ps.len(),
{
    if ps.len() == 0 {
        Seq::empty()
    } else {
        let t = text_of(ps.drop_last());
        let w = ps.last();
        if w.len() == 0 || is_tag(w) {
            t
        } else if t.len() == 0 {
            w
        } else {
            t + seq![' '] + w
        }
    }
}

/// The tags and the remaining text of a title.
#[derive(Debug, PartialEq)]
pub struct TagExtractionResult {
    pub tags: Vec<String>,
    pub text: String,
}

/// Split a title into its hash tags (words starting with `#`, without it) and the
/// remaining words joined by single spaces.
pub fn extract_hash_tags(input: &str) -> (r: TagExtractionResult)
    ensures
        r.tags@.map_values(|t: String| t@) == tags_of(split_ws(input@)),
        r.text@ == text_of(split_ws(input@)),
{
    let chars = chars_of(input);
    let mut tags: Vec<String> = Vec::new();
    let mut text = String::new();
    let mut word: Vec<char> = Vec::new();
    let mut i: usize = 0;
    proof {
        assert(chars@.take(0) =~= Seq::<char>::empty());
    }
    while i < chars.len()
        invariant
            i <= chars@.len(),
            chars@ == input@,
            split_ws(chars@.take(i as int)).len() >= 1,
            word@ == split_ws(chars@.take(i as int)).last(),
            tags@.map_values(|t: String| t@) == tags_of(split_ws(chars@.take(i as int)).drop_last()),
            text@ == text_of(split_ws(chars@.take(i as int)).drop_last()),
        decreases chars.len() - i,
    {
        let ghost pre = chars@.take(i as int);
        let ghost ps = split_ws(pre);
        proof {
            assert(chars@.take(i + 1).drop_last() =~= pre);
            assert(chars@.take(i + 1).last() == chars@[i as int]);
            lemma_split_ws_nonempty(chars@.take(i + 1));
        }
        let c = chars[i];
        if is_whitespace(c) {
            add_piece(&word, &mut tags, &mut text);
            assert(split_ws(chars@.take(i + 1)).drop_last() =~= ps);
            word = Vec::new();
        } else {
            word.push(c);
            assert(split_ws(chars@.take(i + 1)).drop_last() =~= ps.drop_last());
        }
        i = i + 1;
    }
    assert(chars@.take(chars@.len() as int) =~= chars@);
    let ghost ps = split_ws(chars@);
    add_piece(&word, &mut tags, &mut text);
    assert(ps =~= ps.drop_last().push(ps.last()));
    TagExtractionResult { tags, text }
}

/// Adds one piece to the tags or the text.
fn add_piece(word: &Vec<char>, tags: &mut Vec<String>, text: &mut String)
    ensures
        final(tags)@.map_values(|t: String| t@) == if is_tag(word@) {
            old(tags)@.map_values(|t: String| t@).push(word@.drop_first())
        } else {
            old(tags)@.map_values(|t: String| t@)
        },
        final(text)@ == if word@.len() == 0 || is_tag(word@) {
            old(text)@
        } else if old(text)@.len() == 0 {
            word@
        } else {
            old(text)@ + seq![' '] + word@
        },
{
    if word.len() > 0 && word[0] == '#' {
        let t = crate::text::string_of_range(word, 1, word.len());
        let ghost before = tags@.map_values(|t: String| t@);
        tags.push(t);
        assert(word@.subrange(1, word@.len() as int) =~= word@.drop_first());
        assert(tags@.map_values(|t: String| t@) =~= before.push(word@.drop_first()));
    } else if word.len() > 0 {
        let w = crate::text::string_of_range(word, 0, word.len());
        assert(word@.subrange(0, word@.len() as int) =~= word@);
        if !text.as_str().is_empty() {
            push_char(text, ' ');
        }
        push_str(text, w.as_str());
        assert(text@ =~= if old(text)@.len() == 0 { word@ } else { old(text)@ + seq![' '] + word@ });
    }
}

} // verus!
