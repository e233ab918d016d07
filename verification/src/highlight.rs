//! Syntax highlighting of source files, line by line, with syntect.
//!
//! The highlighter cuts each line into regions and says of each whether it lies in a
//! comment and whether it is punctuation. What it answers for a line depends on the
//! syntax definitions, the extension that picked the syntax and the lines fed to it
//! before; the library names that answer and builds on it.
use vstd::prelude::*;
use std::str::FromStr;
use syntect::easy::ScopeRegionIterator;
use syntect::highlighting::ScopeSelectors;
use syntect::parsing::{ParseState, ScopeStack, SyntaxReference, SyntaxSet};
use crate::text::utf8_len;

verus! {

#[verifier::external_type_specification]
#[verifier::external_body]
pub struct ExSyntaxSet(SyntaxSet);

#[verifier::external_type_specification]
#[verifier::external_body]
pub struct ExSyntaxReference(SyntaxReference);

#[verifier::external_type_specification]
#[verifier::external_body]
pub struct ExParseState(ParseState);

#[verifier::external_type_specification]
#[verifier::external_body]
pub struct ExScopeStack(ScopeStack);

#[verifier::external_type_specification]
#[verifier::external_body]
pub struct ExScopeSelectors(ScopeSelectors);

/// Whether the syntax definitions hold a syntax for the file extension `ext`: those
/// of two-face if `extra` holds, else those built into syntect.
pub uninterp spec fn syntax_known(extra: bool, ext: Seq<char>) -> bool;

/// The regions of `line`, in order, when the syntax for `ext` (from the definitions
/// that `extra` picks) has been fed the lines `before`: each region's text, whether
/// the scope selector `comment` matches there and whether `punctuation` does; or the
/// text of the error the highlighter reported.
pub uninterp spec fn highlighted_line(extra: bool, ext: Seq<char>, before: Seq<Seq<char>>, line: Seq<char>)
    -> Result<Seq<(Seq<char>, bool, bool)>, Seq<char>>;

/// The texts of the regions, one after the other.
pub open spec fn part_texts(parts: Seq<(Seq<char>, bool, bool)>) -> Seq<char>
    decreases parts.len(),
{
    if parts.len() == 0 {
        Seq::empty()
    } else {
        part_texts(parts.drop_last()) + parts.last().0
    }
}

/// The regions as mathematical values.
pub open spec fn parts_view(parts: Seq<(String, bool, bool)>) -> Seq<(Seq<char>, bool, bool)> {
    parts.map_values(|p: (String, bool, bool)| (p.0@, p.1, p.2))
}

/// The lines joined back together.
pub open spec fn joined(ls: Seq<Seq<char>>) -> Seq<char>
    decreases ls.len(),
{
    if ls.len() == 0 {
        Seq::empty()
    } else {
        joined(ls.drop_last()) + ls.last()
    }
}

/// The index just past the end of the line that holds index `i`: past its newline,
/// or the end of `s`.
pub open spec fn line_end(s: Seq<char>, i: int) -> int
    decreases s.len() - i,
{
    if i >= s.len() {
        s.len() as int
    } else if s[i] == '\n' {
        i + 1
    } else {
        line_end(s, i + 1)
    }
}

/// A line never ends before it starts.
pub proof fn lemma_line_end_bounds(s: Seq<char>, i: int)
    requires
        0 <= i,
    ensures
        i < s.len() ==> i < line_end(s, i) <= s.len(),
        i >= s.len() ==> line_end(s, i) == s.len(),
    decreases s.len() - i,
{
    if i < s.len() && s[i] != '\n' {
        lemma_line_end_bounds(s, i + 1);
    }
}

/// The lines of `s` from index `i` on, each with its newline.
pub open spec fn lines_from(s: Seq<char>, i: int) -> Seq<Seq<char>>
    decreases s.len() - i,
{
    if i < 0 || i >= s.len() {
        Seq::empty()
    } else {
        proof {
            lemma_line_end_bounds(s, i);
        }
        seq![s.subrange(i, line_end(s, i))] + lines_from(s, line_end(s, i))
    }
}

/// The lines of `s`, each with its newline (the last may have none).
pub open spec fn lines_of(s: Seq<char>) -> Seq<Seq<char>> {
    lines_from(s, 0)
}

/// Syntax definitions with the scope selectors `comment` and `punctuation`.
///
/// Only the two constructors below build one, so the ghost flag always tells which
/// definitions `set` holds.
pub struct Syntaxes {
    set: SyntaxSet,
    comment: ScopeSelectors,
    punctuation: ScopeSelectors,
    extra: Ghost<bool>,
}

/// Trusted: `SyntaxSet::load_defaults_newlines`, the definitions built into syntect.
#[verifier::external_body]
fn builtin_set() -> SyntaxSet {
    SyntaxSet::load_defaults_newlines()
}

/// Trusted: `two_face::syntax::extra_newlines`, the definitions of two-face.
#[verifier::external_body]
fn extra_set() -> SyntaxSet {
    two_face::syntax::extra_newlines()
}

/// Trusted: `ScopeSelectors::from_str` on a plain scope name, which it parses
/// without error, so the `expect` never fires.
#[verifier::external_body]
fn selector(s: &str) -> ScopeSelectors
    requires
        s@ == "comment"@ || s@ == "punctuation"@,
{
    ScopeSelectors::from_str(s).expect("a plain scope name is a valid selector")
}

impl Syntaxes {
    /// Whether these are the definitions of two-face.
    pub closed spec fn spec_extra(&self) -> bool {
        self.extra@
    }

    /// The definitions built into syntect.
    pub fn builtin() -> (s: Self)
        ensures
            !s.spec_extra(),
    {
        Syntaxes {
            set: builtin_set(),
            comment: selector("comment"),
            punctuation: selector("punctuation"),
            extra: Ghost(false),
        }
    }

    /// The definitions of two-face.
    pub fn extra() -> (s: Self)
        ensures
            s.spec_extra(),
    {
        Syntaxes {
            set: extra_set(),
            comment: selector("comment"),
            punctuation: selector("punctuation"),
            extra: Ghost(true),
        }
    }
}

/// A syntax found for a file extension.
pub struct FoundSyntax {
    syntax: SyntaxReference,
    extra: Ghost<bool>,
    ext: Ghost<Seq<char>>,
}

/// Trusted: `SyntaxSet::find_syntax_by_extension`, whose result is cloned; it finds
/// one exactly when the definitions hold a syntax for the extension.
#[verifier::external_body]
fn find_syntax(syn: &Syntaxes, ext: &str) -> (r: Option<FoundSyntax>)
    ensures
        r is Some == syntax_known(syn.spec_extra(), ext@),
        r matches Some(f) ==> f.extra@ == syn.spec_extra() && f.ext@ == ext@,
{
    let found = syn.set.find_syntax_by_extension(ext)?;
    Some(FoundSyntax { syntax: found.clone(), extra: Ghost(syn.extra@), ext: Ghost(ext@) })
}

/// Trusted: `ParseState::new`.
#[verifier::external_body]
fn new_parse_state(syntax: &SyntaxReference) -> ParseState {
    ParseState::new(syntax)
}

/// Trusted: `ScopeStack::new`.
#[verifier::external_body]
fn new_scope_stack() -> ScopeStack {
    ScopeStack::new()
}

/// A highlighter for one file: the parse state and scope stack after the lines fed
/// so far.
pub struct LineHighlighter {
    state: ParseState,
    stack: ScopeStack,
    extra: Ghost<bool>,
    ext: Ghost<Seq<char>>,
    lines: Ghost<Seq<Seq<char>>>,
}

impl LineHighlighter {
    /// Whether it uses the definitions of two-face.
    pub closed spec fn spec_extra(&self) -> bool {
        self.extra@
    }

    /// The extension that picked its syntax.
    pub closed spec fn spec_ext(&self) -> Seq<char> {
        self.ext@
    }

    /// The lines fed to it so far.
    pub closed spec fn spec_lines(&self) -> Seq<Seq<char>> {
        self.lines@
    }

    /// A highlighter for files with the extension `ext`, or `None` if the definitions
    /// hold no syntax for it.
    pub fn start(syn: &Syntaxes, ext: &str) -> (r: Option<Self>)
        ensures
            r is Some == syntax_known(syn.spec_extra(), ext@),
            r matches Some(h) ==> h.spec_extra() == syn.spec_extra() && h.spec_ext() == ext@
                && h.spec_lines() == Seq::<Seq<char>>::empty(),
    {
        match find_syntax(syn, ext) {
            Some(f) => Some(LineHighlighter {
                state: new_parse_state(&f.syntax),
                stack: new_scope_stack(),
                extra: Ghost(f.extra@),
                ext: Ghost(f.ext@),
                lines: Ghost(Seq::empty()),
            }),
            None => None,
        }
    }
}

/// Trusted: one line through syntect: `ParseState::parse_line`, then
/// `ScopeRegionIterator` over its operations, each applied with `ScopeStack::apply`
/// before its region is judged with `ScopeSelectors::does_match`; errors give their
/// display text. The answer is the named one; the regions cover the line, since the
/// iterator cuts the whole line at the operations' offsets.
#[verifier::external_body]
pub(crate) fn highlight_line(syn: &Syntaxes, h: &mut LineHighlighter, line: &str) -> (r: Result<Vec<(String, bool, bool)>, String>)
    requires
        old(h).spec_extra() == syn.spec_extra(),
    ensures
        final(h).spec_extra() == old(h).spec_extra(),
        final(h).spec_ext() == old(h).spec_ext(),
        final(h).spec_lines() == old(h).spec_lines().push(line@),
        match r {
            Ok(v) => highlighted_line(old(h).spec_extra(), old(h).spec_ext(), old(h).spec_lines(), line@)
                == Ok::<Seq<(Seq<char>, bool, bool)>, Seq<char>>(parts_view(v@)),
            Err(t) => highlighted_line(old(h).spec_extra(), old(h).spec_ext(), old(h).spec_lines(), line@)
                == Err::<Seq<(Seq<char>, bool, bool)>, Seq<char>>(t@),
        },
        r matches Ok(v) ==> part_texts(parts_view(v@)) == line@,
{
    h.lines = Ghost(h.lines@.push(line@));
    let ops = h.state.parse_line(line, &syn.set).map_err(|e| e.to_string())?;
    let mut out = Vec::new();
    for (text, op) in ScopeRegionIterator::new(&ops, line) {
        h.stack.apply(op).map_err(|e| e.to_string())?;
        let comment = syn.comment.does_match(h.stack.as_slice()).is_some();
        let punctuation = syn.punctuation.does_match(h.stack.as_slice()).is_some();
        out.push((text.to_string(), comment, punctuation));
    }
    Ok(out)
}

/// The texts of the first `k + 1` regions are those of the first `k`, then the
/// text of region `k`.
pub proof fn lemma_part_texts_step(parts: Seq<(Seq<char>, bool, bool)>, k: int)
    requires
        0 <= k < parts.len(),
    ensures
        part_texts(parts.take(k + 1)) == part_texts(parts.take(k)) + parts[k].0,
        utf8_len(part_texts(parts.take(k + 1))) == utf8_len(part_texts(parts.take(k))) + utf8_len(parts[k].0),
{
    assert(parts.take(k + 1).drop_last() =~= parts.take(k));
    crate::text::lemma_encode_concat(part_texts(parts.take(k)), parts[k].0);
}

/// The texts of the first `k` regions take no more bytes than all of them.
pub proof fn lemma_part_texts_prefix(parts: Seq<(Seq<char>, bool, bool)>, k: int)
    requires
        0 <= k <= parts.len(),
    ensures
        utf8_len(part_texts(parts.take(k))) <= utf8_len(part_texts(parts)),
    decreases parts.len() - k,
{
    if k == parts.len() {
        assert(parts.take(k) =~= parts);
    } else {
        lemma_part_texts_step(parts, k);
        lemma_part_texts_prefix(parts, k + 1);
    }
}

/// The lines from index `i` on: the one that starts there, then the rest.
pub proof fn lemma_lines_from_step(s: Seq<char>, i: int)
    requires
        0 <= i < s.len(),
    ensures
        i < line_end(s, i) <= s.len(),
        lines_from(s, i) == seq![s.subrange(i, line_end(s, i))] + lines_from(s, line_end(s, i)),
{
    lemma_line_end_bounds(s, i);
}

} // verus!
