//! Edits of text files: replace the text expected at a byte offset by new text.
use vstd::prelude::*;
use vstd::string::StrSliceExecFns;
use vstd::utf8::{encode_utf8, is_char_boundary, valid_utf8};
use crate::error::{HyperlitError, HyperlitResult};
use crate::path::FilePath;
use crate::text::{decimal, lemma_encode_concat, lemma_encode_injective, push_decimal, push_str, utf8_len};

verus! {

/// An edit of a file: at byte `offset`, the text `expected_text` is to be replaced by
/// `new_text`.
#[derive(Debug)]
pub struct TextEdit {
    pub path: FilePath,
    pub offset: usize,
    pub expected_text: String,
    pub new_text: String,
}

impl TextEdit {
    /// Create an edit.
    pub fn new(path: &str, offset: usize, expected_text: &str, new_text: &str) -> (e: Self)
        ensures
            e.path@ == path@,
            e.offset == offset,
            e.expected_text@ == expected_text@,
            e.new_text@ == new_text@,
    {
        TextEdit {
            path: FilePath::from(path),
            offset,
            expected_text: expected_text.to_owned(),
            new_text: new_text.to_owned(),
        }
    }
}

/// The outcome of applying an edit to a text with the bytes `b`: the bytes of the new
/// text, or the message of the error.
pub open spec fn edit_outcome(b: Seq<u8>, e: TextEdit) -> Result<Seq<u8>, Seq<char>> {
    let start = e.offset as int;
    let end = start + utf8_len(e.expected_text@);
    let prefix = "Cannot apply text edit to file '"@ + e.path@ + "' (at offset "@ + decimal(e.offset as nat);
    if end > b.len() {
        Err(prefix + "-"@ + decimal(end as nat) + "): offset out of bounds, file length is "@ + decimal(b.len())
            + " bytes"@)
    } else if !is_char_boundary(b, start) || !is_char_boundary(b, end) {
        Err(prefix + "): edit range is not a char boundary"@)
    } else if b.subrange(start, end) != encode_utf8(e.expected_text@) {
        Err(prefix + "):\n\texpected: '"@ + e.expected_text@ + "'\n\tactual:   '"@
            + vstd::utf8::decode_utf8(b.subrange(start, end)) + "'"@)
    } else {
        Ok(b.take(start) + encode_utf8(e.new_text@) + b.skip(end))
    }
}

/// The edit that undoes `e`: at the same offset, the new text is replaced by the
/// expected text.
pub open spec fn inverse_edit(e: TextEdit) -> TextEdit {
    TextEdit { path: e.path, offset: e.offset, expected_text: e.new_text, new_text: e.expected_text }
}

/// A valid UTF-8 text is cut at a character boundary where its part `e` starts, when
/// `e` is valid UTF-8 too.
proof fn lemma_boundary_at_join(a: Seq<u8>, e: Seq<u8>)
    requires
        valid_utf8(a),
        valid_utf8(e),
    ensures
        valid_utf8(a + e),
        is_char_boundary(a + e, a.len() as int),
{
    vstd::utf8::valid_utf8_concat(a, e);
    let t = a + e;
    if e.len() == 0 {
        assert(t =~= a);
        vstd::utf8::is_char_boundary_start_end_of_seq(a);
    } else {
        vstd::utf8::is_char_boundary_start_end_of_seq(e);
        vstd::utf8::is_char_boundary_iff_not_is_continuation_byte(e, 0);
        assert(t[a.len() as int] == e[0]);
        vstd::utf8::is_char_boundary_iff_not_is_continuation_byte(t, a.len() as int);
    }
}

/// Law: when an edit applies to a text, its inverse applies to the result and gives
/// the text back.
pub proof fn lemma_edit_undo(s: Seq<char>, e: TextEdit)
    ensures
        edit_outcome(encode_utf8(s), e) matches Ok(b2) ==> edit_outcome(b2, inverse_edit(e)) == Ok::<
            Seq<u8>,
            Seq<char>,
        >(encode_utf8(s)),
{
    let b = encode_utf8(s);
    if let Ok(b2) = edit_outcome(b, e) {
        let start = e.offset as int;
        let end = start + utf8_len(e.expected_text@);
        let n = encode_utf8(e.new_text@);
        let a = b.take(start);
        let c = b.skip(end);
        vstd::utf8::encode_utf8_valid_utf8(s);
        vstd::utf8::encode_utf8_valid_utf8(e.new_text@);
        vstd::utf8::valid_utf8_split(b, start);
        vstd::utf8::valid_utf8_split(b, end);
        assert(a =~= b.subrange(0, start));
        assert(c =~= b.subrange(end, b.len() as int));
        assert(b2 == a + n + c);
        lemma_boundary_at_join(a, n);
        lemma_boundary_at_join(a + n, c);
        vstd::utf8::valid_utf8_split(a + n + c, (a + n).len() as int);
        assert((a + n + c).subrange(0, (a + n).len() as int) =~= a + n);
        // The boundary of `a + n` at the start of `n` stays one in the whole text.
        assert(is_char_boundary(a + n + c, start)) by {
            if n.len() == 0 && c.len() == 0 {
                assert(a + n + c =~= a);
                vstd::utf8::is_char_boundary_start_end_of_seq(a);
            } else if n.len() == 0 {
                assert(a + n + c =~= a + c);
                lemma_boundary_at_join(a, c);
            } else {
                vstd::utf8::is_char_boundary_start_end_of_seq(n);
                vstd::utf8::is_char_boundary_iff_not_is_continuation_byte(n, 0);
                assert((a + n + c)[start] == n[0]);
                vstd::utf8::is_char_boundary_iff_not_is_continuation_byte(a + n + c, start);
            }
        }
        let end2 = start + utf8_len(e.new_text@);
        assert(end2 == (a + n).len());
        assert((a + n + c).subrange(start, end2) =~= n);
        assert((a + n + c).take(start) =~= a);
        assert((a + n + c).skip(end2) =~= c);
        assert(b.subrange(start, end) == encode_utf8(e.expected_text@));
        assert(a + encode_utf8(e.expected_text@) + c =~= b);
    }
}

/// A character boundary at or after another stays one in the text after the other.
proof fn lemma_char_boundary_skip(b: Seq<u8>, i: int, j: int)
    requires
        vstd::utf8::valid_utf8(b),
        is_char_boundary(b, i),
        is_char_boundary(b, j),
        i <= j,
    ensures
        is_char_boundary(b.skip(i), j - i),
    decreases b.len(),
{
    if i == 0 {
        assert(b.skip(0) =~= b);
    } else {
        let p = vstd::utf8::pop_first_scalar(b);
        let l = vstd::utf8::length_of_first_scalar(b);
        assert(l >= 1);
        lemma_char_boundary_skip(p, i - l, j - l);
        assert(p.skip(i - l) =~= b.skip(i));
    }
}

/// Apply an edit to the text of a file: the new text, or an error when the expected
/// text lies out of bounds, not on character boundaries, or differs from what is there.
pub fn apply_edit_to_text(original: &str, text_edit: &TextEdit) -> (r: HyperlitResult<String>)
    requires
        text_edit.offset + utf8_len(text_edit.expected_text@) <= usize::MAX,
        utf8_len(original@) <= usize::MAX,
    ensures
        match edit_outcome(encode_utf8(original@), *text_edit) {
            Ok(bytes) => r matches Ok(s) && encode_utf8(s@) == bytes,
            Err(m) => r matches Err(e) && e.spec_kind() is Message && e.spec_kind()->message@ == m,
        },
{
    let ghost b = encode_utf8(original@);
    proof {
        vstd::utf8::encode_utf8_valid_utf8(original@);
    }
    let offset = text_edit.offset;
    let end = offset + text_edit.expected_text.as_str().len();
    let mut prefix = "Cannot apply text edit to file '".to_owned();
    push_str(&mut prefix, text_edit.path.as_str());
    push_str(&mut prefix, "' (at offset ");
    push_decimal(&mut prefix, offset as u128);
    if end > original.len() {
        let mut m = prefix;
        push_str(&mut m, "-");
        push_decimal(&mut m, end as u128);
        push_str(&mut m, "): offset out of bounds, file length is ");
        push_decimal(&mut m, original.len() as u128);
        push_str(&mut m, " bytes");
        return Err(Box::new(HyperlitError::message(m.as_str())));
    }
    if !original.is_char_boundary(offset) || !original.is_char_boundary(end) {
        let mut m = prefix;
        push_str(&mut m, "): edit range is not a char boundary");
        return Err(Box::new(HyperlitError::message(m.as_str())));
    }
    let (head, rest) = original.split_at(offset);
    proof {
        assert(encode_utf8(rest@) =~= b.skip(offset as int));
    }
    assert(is_char_boundary(encode_utf8(rest@), end - offset)) by {
        vstd::utf8::encode_utf8_valid_utf8(original@);
        lemma_char_boundary_skip(b, offset as int, end as int);
    }
    let (current, tail) = rest.split_at(end - offset);
    proof {
        assert(encode_utf8(current@) =~= b.subrange(offset as int, end as int));
        assert(encode_utf8(tail@) =~= b.skip(end as int));
        assert(encode_utf8(head@) =~= b.take(offset as int));
    }
    if !crate::http::str_eq(current, text_edit.expected_text.as_str()) {
        let mut m = prefix;
        push_str(&mut m, "):\n\texpected: '");
        push_str(&mut m, text_edit.expected_text.as_str());
        push_str(&mut m, "'\n\tactual:   '");
        push_str(&mut m, current);
        push_str(&mut m, "'");
        proof {
            vstd::utf8::encode_utf8_decode_utf8(current@);
            if b.subrange(offset as int, end as int) == encode_utf8(text_edit.expected_text@) {
                lemma_encode_injective(current@, text_edit.expected_text@);
            }
        }
        return Err(Box::new(HyperlitError::message(m.as_str())));
    }
    let mut s = head.to_owned();
    push_str(&mut s, text_edit.new_text.as_str());
    push_str(&mut s, tail);
    proof {
        lemma_encode_concat(head@, text_edit.new_text@);
        lemma_encode_concat(head@ + text_edit.new_text@, tail@);
    }
    Ok(s)
}

} // verus!
