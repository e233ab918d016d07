//! Extraction of documentation comments from source code.
//!
//! A syntax highlighter cuts each line of a source file into regions and says which
//! of them lie in a comment and which are comment punctuation (`//`, `/*`, `#`, ...).
//! A comment whose first word is one of the documentation markers opens a
//! documentation comment; following comment regions add to it until code that is not
//! blank closes it.
use vstd::prelude::*;
use vstd::string::StrSliceExecFns;
use vstd::utf8::encode_utf8;
use crate::document::StringSet;
use crate::error::{ErrorKind, HyperlitError, HyperlitResult};
use crate::highlight::{
    highlight_line, highlighted_line, joined, line_end, lines_from, lines_of, part_texts, parts_view,
    syntax_known, LineHighlighter, Syntaxes,
};
use crate::text::{
    all_ws, char_is_whitespace, chars_of, find_whitespace, is_blank, lemma_encode_concat,
    push_str, skip_whitespace, split_at_ws, string_of_range, trim_ws_start, utf8_len,
};

verus! {

/// A documentation comment found in a source file.
#[derive(Debug, Clone)]
pub struct ExtractedComment {
    /// The documentation content (markdown) after the documentation marker
    pub content: String,
    /// Starting line number (1-indexed)
    pub start_line: usize,
    /// Starting byte offset of the content in the file
    pub start_byte: usize,
    /// Ending byte offset in the file
    pub end_byte: usize,
}

/// What an extracted comment holds, as mathematical values.
pub struct CommentView {
    pub content: Seq<char>,
    pub start_line: usize,
    pub start_byte: usize,
    pub end_byte: usize,
}

impl View for ExtractedComment {
    type V = CommentView;

    open spec fn view(&self) -> CommentView {
        CommentView {
            content: self.content@,
            start_line: self.start_line,
            start_byte: self.start_byte,
            end_byte: self.end_byte,
        }
    }
}

/// A region of a source line, with the highlighter's verdict on it.
#[derive(Debug, Clone)]
pub struct CommentRegion {
    /// The text of the region
    pub text: String,
    /// The line it lies on (1-indexed)
    pub line: usize,
    /// The byte offset where it starts
    pub start_byte: usize,
    /// Whether it lies in a comment
    pub in_comment: bool,
    /// Whether it is punctuation of a comment
    pub punctuation: bool,
}

/// What a region holds, as mathematical values.
pub struct RegionView {
    pub text: Seq<char>,
    pub line: usize,
    pub start_byte: usize,
    pub in_comment: bool,
    pub punctuation: bool,
}

impl View for CommentRegion {
    type V = RegionView;

    open spec fn view(&self) -> RegionView {
        RegionView {
            text: self.text@,
            line: self.line,
            start_byte: self.start_byte,
            in_comment: self.in_comment,
            punctuation: self.punctuation,
        }
    }
}

/// Where the scan stands: in code, in a documentation comment being collected, or in
/// a plain comment.
pub enum ScanMode {
    Code,
    Doc(CommentView),
    Plain,
}

/// The byte offset just past a region.
pub open spec fn region_end(r: RegionView) -> int {
    r.start_byte + utf8_len(r.text)
}

/// The mode after the first comment region met in code: a documentation comment if
/// the region's first word is a marker (its content is the rest, without leading
/// whitespace), else a plain comment.
pub open spec fn opening(markers: Set<Seq<char>>, r: RegionView) -> ScanMode {
    match split_at_ws(trim_ws_start(r.text)) {
        None => ScanMode::Plain,
        Some((indicator, rest)) => if markers.contains(indicator) {
            let doc = trim_ws_start(rest);
            ScanMode::Doc(CommentView {
                content: doc,
                start_line: r.line,
                start_byte: (region_end(r) - utf8_len(doc)) as usize,
                end_byte: region_end(r) as usize,
            })
        } else {
            ScanMode::Plain
        },
    }
}

/// `s` without one leading space, if it has one.
pub open spec fn strip_space(s: Seq<char>) -> Seq<char> {
    if s.len() > 0 && s[0] == ' ' {
        s.drop_first()
    } else {
        s
    }
}

/// One step of the scan over a region.
pub open spec fn scan_step(markers: Set<Seq<char>>, st: (ScanMode, Seq<CommentView>), r: RegionView) -> (ScanMode, Seq<CommentView>) {
    if r.text.len() == 0 {
        st
    } else if r.in_comment {
        if r.punctuation {
            st
        } else {
            match st.0 {
                ScanMode::Code => (opening(markers, r), st.1),
                ScanMode::Doc(c) => (ScanMode::Doc(CommentView {
                    content: c.content + strip_space(r.text),
                    start_line: c.start_line,
                    start_byte: c.start_byte,
                    end_byte: region_end(r) as usize,
                }), st.1),
                ScanMode::Plain => st,
            }
        }
    } else if !all_ws(r.text) {
        (ScanMode::Code, match st.0 {
            ScanMode::Doc(c) => st.1.push(c),
            _ => st.1,
        })
    } else {
        st
    }
}

/// The scan over the regions `rs`, from code with nothing found.
pub open spec fn scan(markers: Set<Seq<char>>, rs: Seq<RegionView>) -> (ScanMode, Seq<CommentView>)
    decreases rs.len(),
{
    if rs.len() == 0 {
        (ScanMode::Code, Seq::empty())
    } else {
        scan_step(markers, scan(markers, rs.drop_last()), rs.last())
    }
}

/// The documentation comments found in the regions `rs`, the last one included even
/// if the regions end inside it.
pub open spec fn comments_of(markers: Set<Seq<char>>, rs: Seq<RegionView>) -> Seq<CommentView> {
    let st = scan(markers, rs);
    match st.0 {
        ScanMode::Doc(c) => st.1.push(c),
        _ => st.1,
    }
}

/// Whether a region opens a documentation comment when met in code: a comment region,
/// not punctuation, whose first word is a marker.
pub open spec fn opens_doc(markers: Set<Seq<char>>, r: RegionView) -> bool {
    &&& r.text.len() > 0
    &&& r.in_comment
    &&& !r.punctuation
    &&& split_at_ws(trim_ws_start(r.text)) matches Some((indicator, _)) && markers.contains(indicator)
}

/// Whether the comment `c` starts on the line of a region of `rs` that opens a
/// documentation comment.
pub open spec fn started_by_marker(markers: Set<Seq<char>>, rs: Seq<RegionView>, c: CommentView) -> bool {
    exists|j: int| 0 <= j < rs.len() && #[trigger] opens_doc(markers, rs[j]) && rs[j].line == c.start_line
}

proof fn lemma_scan_started(markers: Set<Seq<char>>, rs: Seq<RegionView>)
    ensures
        forall|i: int| 0 <= i < scan(markers, rs).1.len() ==> started_by_marker(markers, rs, #[trigger] scan(markers, rs).1[i]),
        scan(markers, rs).0 matches ScanMode::Doc(c) ==> started_by_marker(markers, rs, c),
    decreases rs.len(),
{
    if rs.len() > 0 {
        let p = rs.drop_last();
        lemma_scan_started(markers, p);
        let st = scan(markers, p);
        let r = rs.last();
        assert forall|c: CommentView| started_by_marker(markers, p, c) implies started_by_marker(markers, rs, c) by {
            let j = choose|j: int| 0 <= j < p.len() && #[trigger] opens_doc(markers, p[j]) && p[j].line == c.start_line;
            assert(rs[j] == p[j]);
        }
        if r.text.len() > 0 && r.in_comment && !r.punctuation && st.0 is Code {
            if opening(markers, r) is Doc {
                assert(opens_doc(markers, rs[rs.len() - 1]));
            }
        }
        if r.text.len() > 0 && !r.in_comment && !all_ws(r.text) {
            if let ScanMode::Doc(c) = st.0 {
                assert(scan(markers, rs).1 == st.1.push(c));
            }
        }
    }
}

/// Law: every documentation comment found starts on the line of a comment region
/// whose first word is one of the markers.
pub proof fn lemma_comments_start_at_markers(markers: Set<Seq<char>>, rs: Seq<RegionView>)
    ensures
        forall|i: int| 0 <= i < comments_of(markers, rs).len() ==> started_by_marker(markers, rs, #[trigger] comments_of(markers, rs)[i]),
{
    lemma_scan_started(markers, rs);
}

/// Regions in the order of the file: each ends before any later one starts.
pub open spec fn regions_ordered(rs: Seq<RegionView>) -> bool {
    forall|i: int, j: int| 0 <= i < j < rs.len() ==> region_end(#[trigger] rs[i]) <= (#[trigger] rs[j]).start_byte
}

/// The comment `c` spans its content and ends where a comment region of `rs` ends.
pub open spec fn spans_content(rs: Seq<RegionView>, c: CommentView) -> bool {
    &&& c.start_byte + utf8_len(c.content) <= c.end_byte
    &&& exists|k: int| 0 <= k < rs.len() && rs[k].in_comment && region_end(#[trigger] rs[k]) == c.end_byte
}

proof fn lemma_leading_ws_witness(s: Seq<char>, i: int) -> (k: int)
    requires
        0 <= i <= s.len(),
        forall|j: int| 0 <= j < i ==> char_is_whitespace(#[trigger] s[j]),
    ensures
        crate::text::is_leading_ws(s, k),
    decreases s.len() - i,
{
    if i == s.len() || !char_is_whitespace(s[i]) {
        i
    } else {
        lemma_leading_ws_witness(s, i + 1)
    }
}

/// The text without its leading whitespace is a suffix of it.
proof fn lemma_trim_start_suffix(s: Seq<char>)
    ensures
        0 <= crate::text::leading_ws(s) <= s.len(),
        trim_ws_start(s) == s.skip(crate::text::leading_ws(s)),
{
    let k = lemma_leading_ws_witness(s, 0);
    crate::text::lemma_leading_ws_unique(s, k);
}

/// A suffix takes no more bytes than the whole.
proof fn lemma_skip_bytes(s: Seq<char>, m: int)
    requires
        0 <= m <= s.len(),
    ensures
        utf8_len(s.skip(m)) <= utf8_len(s),
{
    assert(s =~= s.take(m) + s.skip(m));
    lemma_encode_concat(s.take(m), s.skip(m));
}

/// The documentation text of an opening region takes no more bytes than the region.
proof fn lemma_opening_doc_bytes(r: RegionView)
    requires
        split_at_ws(trim_ws_start(r.text)) is Some,
    ensures
        utf8_len(trim_ws_start(split_at_ws(trim_ws_start(r.text))->Some_0.1)) <= utf8_len(r.text),
{
    let t = trim_ws_start(r.text);
    lemma_trim_start_suffix(r.text);
    lemma_skip_bytes(r.text, crate::text::leading_ws(r.text));
    let k = choose|k: int| crate::text::is_first_ws(t, k);
    let rest = t.skip(k + 1);
    lemma_skip_bytes(t, k + 1);
    lemma_trim_start_suffix(rest);
    lemma_skip_bytes(rest, crate::text::leading_ws(rest));
}

/// One step of the scan keeps every comment spanning its content.
proof fn lemma_spans_step(markers: Set<Seq<char>>, rs: Seq<RegionView>)
    requires
        rs.len() > 0,
        regions_ordered(rs),
        regions_fit(rs),
        forall|i: int| 0 <= i < scan(markers, rs.drop_last()).1.len() ==>
            spans_content(rs.drop_last(), #[trigger] scan(markers, rs.drop_last()).1[i]),
        scan(markers, rs.drop_last()).0 matches ScanMode::Doc(c) ==> spans_content(rs.drop_last(), c),
    ensures
        forall|i: int| 0 <= i < scan(markers, rs).1.len() ==> spans_content(rs, #[trigger] scan(markers, rs).1[i]),
        scan(markers, rs).0 matches ScanMode::Doc(c) ==> spans_content(rs, c),
{
    let p = rs.drop_last();
    let st = scan(markers, p);
    let r = rs.last();
    let n = rs.len() - 1;
    assert(rs[n] == r);
    assert(region_end(r) <= usize::MAX);
    assert forall|c: CommentView| spans_content(p, c) implies spans_content(rs, c) by {
        let k = choose|k: int| 0 <= k < p.len() && p[k].in_comment && region_end(#[trigger] p[k]) == c.end_byte;
        assert(rs[k] == p[k]);
    }
    if r.text.len() > 0 && r.in_comment && !r.punctuation {
        match st.0 {
            ScanMode::Code => {
                if let ScanMode::Doc(c) = opening(markers, r) {
                    lemma_opening_doc_bytes(r);
                    assert(spans_content(rs, c));
                }
            },
            ScanMode::Doc(c) => {
                let k = choose|k: int| 0 <= k < p.len() && p[k].in_comment && region_end(#[trigger] p[k]) == c.end_byte;
                assert(rs[k] == p[k]);
                assert(region_end(rs[k]) <= rs[n].start_byte);
                lemma_skip_bytes(r.text, if r.text.len() > 0 && r.text[0] == ' ' { 1 } else { 0 });
                assert(strip_space(r.text) == r.text.skip(if r.text.len() > 0 && r.text[0] == ' ' { 1 } else { 0 }));
                lemma_encode_concat(c.content, strip_space(r.text));
                let c2 = CommentView {
                    content: c.content + strip_space(r.text),
                    start_line: c.start_line,
                    start_byte: c.start_byte,
                    end_byte: region_end(r) as usize,
                };
                assert(spans_content(rs, c2));
            },
            ScanMode::Plain => {},
        }
    }
    let st2 = scan(markers, rs);
    assert forall|i: int| 0 <= i < st2.1.len() implies spans_content(rs, #[trigger] st2.1[i]) by {
        if i < st.1.len() {
            assert(spans_content(p, st.1[i]));
            if st2.1 != st.1 {
                assert(st2.1[i] == st.1[i]);
            }
        } else {
            if let ScanMode::Doc(c) = st.0 {
                assert(st2.1[i] == c);
            }
        }
    }
}

/// Law: in regions that follow each other through the file, every documentation
/// comment found ends where the last comment region it took text from ends: its
/// byte range covers all of its content, and its end is the end of a comment region.
pub proof fn lemma_comments_span_content(markers: Set<Seq<char>>, rs: Seq<RegionView>)
    requires
        regions_ordered(rs),
        regions_fit(rs),
    ensures
        forall|i: int| 0 <= i < comments_of(markers, rs).len() ==> spans_content(rs, #[trigger] comments_of(markers, rs)[i]),
    decreases rs.len(),
{
    lemma_scan_spans(markers, rs);
    let st = scan(markers, rs);
    assert forall|i: int| 0 <= i < comments_of(markers, rs).len() implies spans_content(rs, #[trigger] comments_of(markers, rs)[i]) by {
        if i < st.1.len() {
            if let ScanMode::Doc(c) = st.0 {
                assert(comments_of(markers, rs)[i] == st.1[i]);
            }
        }
    }
}

proof fn lemma_scan_spans(markers: Set<Seq<char>>, rs: Seq<RegionView>)
    requires
        regions_ordered(rs),
        regions_fit(rs),
    ensures
        forall|i: int| 0 <= i < scan(markers, rs).1.len() ==> spans_content(rs, #[trigger] scan(markers, rs).1[i]),
        scan(markers, rs).0 matches ScanMode::Doc(c) ==> spans_content(rs, c),
    decreases rs.len(),
{
    if rs.len() > 0 {
        let p = rs.drop_last();
        assert forall|i: int, j: int| 0 <= i < j < p.len() implies region_end(#[trigger] p[i]) <= (#[trigger] p[j]).start_byte by {
            assert(p[i] == rs[i] && p[j] == rs[j]);
        }
        assert forall|i: int| 0 <= i < p.len() implies region_end(#[trigger] p[i]) <= usize::MAX by {
            assert(p[i] == rs[i]);
        }
        lemma_scan_spans(markers, p);
        lemma_spans_step(markers, rs);
    }
}

/// Whether a comment found starts on line `line`.
pub open spec fn has_comment_at(cs: Seq<CommentView>, line: usize) -> bool {
    exists|i: int| 0 <= i < cs.len() && (#[trigger] cs[i]).start_line == line
}

/// The documentation comment opened on line `line` is still being collected, or was
/// found.
spec fn doc_kept(st: (ScanMode, Seq<CommentView>), line: usize) -> bool {
    ||| st.0 matches ScanMode::Doc(c) && c.start_line == line
    ||| has_comment_at(st.1, line)
}

proof fn lemma_doc_kept_step(markers: Set<Seq<char>>, st: (ScanMode, Seq<CommentView>), r: RegionView, line: usize)
    requires
        doc_kept(st, line),
    ensures
        doc_kept(scan_step(markers, st, r), line),
{
    let next = scan_step(markers, st, r);
    if has_comment_at(st.1, line) {
        let i = choose|i: int| 0 <= i < st.1.len() && (#[trigger] st.1[i]).start_line == line;
        if next.1 != st.1 {
            assert(next.1[i] == st.1[i]);
        }
    } else if r.text.len() > 0 && !r.in_comment && !all_ws(r.text) {
        if let ScanMode::Doc(c) = st.0 {
            assert(next.1[st.1.len() as int] == c);
        }
    }
}

proof fn lemma_doc_kept_from(markers: Set<Seq<char>>, rs: Seq<RegionView>, j: int, k: int)
    requires
        0 <= j < k <= rs.len(),
        opens_doc(markers, rs[j]),
        scan(markers, rs.take(j)).0 is Code,
    ensures
        doc_kept(scan(markers, rs.take(k)), rs[j].line),
    decreases k - j,
{
    assert(rs.take(k).drop_last() =~= rs.take(k - 1));
    assert(rs.take(k).last() == rs[k - 1]);
    if k == j + 1 {
        assert(opening(markers, rs[j]) is Doc);
    } else {
        lemma_doc_kept_from(markers, rs, j, k - 1);
        lemma_doc_kept_step(markers, scan(markers, rs.take(k - 1)), rs[k - 1], rs[j].line);
    }
}

/// Law: a comment region met in code whose first word is one of the markers opens a
/// documentation comment, and that comment is among those found.
pub proof fn lemma_marked_comments_found(markers: Set<Seq<char>>, rs: Seq<RegionView>, j: int)
    requires
        0 <= j < rs.len(),
        opens_doc(markers, rs[j]),
        scan(markers, rs.take(j)).0 is Code,
    ensures
        has_comment_at(comments_of(markers, rs), rs[j].line),
{
    lemma_doc_kept_from(markers, rs, j, rs.len() as int);
    assert(rs.take(rs.len() as int) =~= rs);
    let st = scan(markers, rs);
    if has_comment_at(st.1, rs[j].line) {
        let i = choose|i: int| 0 <= i < st.1.len() && (#[trigger] st.1[i]).start_line == rs[j].line;
        if let ScanMode::Doc(c) = st.0 {
            assert(comments_of(markers, rs)[i] == st.1[i]);
        }
    } else {
        if let ScanMode::Doc(c) = st.0 {
            assert(comments_of(markers, rs)[st.1.len() as int] == c);
        }
    }
}

/// The views of a sequence of regions.
pub open spec fn region_views(rs: Seq<CommentRegion>) -> Seq<RegionView> {
    rs.map_values(|r: CommentRegion| r@)
}

/// The views of a sequence of comments.
pub open spec fn comment_views(cs: Seq<ExtractedComment>) -> Seq<CommentView> {
    cs.map_values(|c: ExtractedComment| c@)
}

/// Regions whose end offsets fit in a `usize`.
pub open spec fn regions_fit(rs: Seq<RegionView>) -> bool {
    forall|i: int| 0 <= i < rs.len() ==> region_end(#[trigger] rs[i]) <= usize::MAX
}

enum ExtractorState {
    Code,
    DocComment(ExtractedComment),
    PlainComment,
}

spec fn state_view(s: ExtractorState) -> ScanMode {
    match s {
        ExtractorState::Code => ScanMode::Code,
        ExtractorState::DocComment(c) => ScanMode::Doc(c@),
        ExtractorState::PlainComment => ScanMode::Plain,
    }
}

/// The state after the first comment region met in code.
fn open_comment(markers: &StringSet, r: &CommentRegion, end_byte: usize) -> (s: ExtractorState)
    requires
        end_byte == region_end(r@),
    ensures
        state_view(s) == opening(markers@, r@),
{
    let v = chars_of(r.text.as_str());
    let a = skip_whitespace(&v, 0);
    assert(v@.skip(0) =~= v@);
    match find_whitespace(&v, a) {
        None => ExtractorState::PlainComment,
        Some(b) => {
            assert(b < v.len());
            let indicator = string_of_range(&v, a, b);
            if markers.contains(indicator.as_str()) {
                let c = skip_whitespace(&v, b + 1);
                let doc = string_of_range(&v, c, v.len());
                proof {
                    assert(v@.subrange(c as int, v@.len() as int) =~= v@.skip(c as int));
                    assert(v@ =~= v@.take(c as int) + v@.skip(c as int));
                    lemma_encode_concat(v@.take(c as int), v@.skip(c as int));
                }
                let dl = doc.as_str().len();
                ExtractorState::DocComment(ExtractedComment {
                    content: doc,
                    start_line: r.line,
                    start_byte: end_byte - dl,
                    end_byte,
                })
            } else {
                ExtractorState::PlainComment
            }
        },
    }
}

/// `text` without one leading space, if it has one.
fn strip_leading_space(text: &str) -> (s: String)
    ensures
        s@ == strip_space(text@),
{
    let v = chars_of(text);
    if v.len() > 0 && v[0] == ' ' {
        let s = string_of_range(&v, 1, v.len());
        assert(v@.subrange(1, v@.len() as int) =~= v@.drop_first());
        s
    } else {
        text.to_owned()
    }
}

/// Scan the regions of a source file for documentation comments.
pub fn extract_from_regions(markers: &StringSet, regions: &[CommentRegion]) -> (r: Vec<ExtractedComment>)
    requires
        regions_fit(region_views(regions@)),
    ensures
        comment_views(r@) == comments_of(markers@, region_views(regions@)),
        regions_ordered(region_views(regions@)) ==> forall|i: int| 0 <= i < r@.len() ==>
            spans_content(region_views(regions@), #[trigger] comment_views(r@)[i]),
{
    let ghost rv = region_views(regions@);
    let mut out: Vec<ExtractedComment> = Vec::new();
    let mut state = ExtractorState::Code;
    let mut i: usize = 0;
    while i < regions.len()
        invariant
            i <= regions@.len(),
            rv == region_views(regions@),
            regions_fit(rv),
            (state_view(state), comment_views(out@)) == scan(markers@, rv.take(i as int)),
        decreases regions.len() - i,
    {
        let r = &regions[i];
        proof {
            assert(rv.take(i + 1).drop_last() =~= rv.take(i as int));
            assert(rv.take(i + 1).last() == r@);
            assert(rv[i as int] == r@);
            assert(region_end(rv[i as int]) <= usize::MAX);
        }
        let ghost prev_out = comment_views(out@);
        if !r.text.as_str().is_empty() {
            let end_byte = r.start_byte + r.text.as_str().len();
            if r.in_comment {
                if !r.punctuation {
                    state = match state {
                        ExtractorState::Code => open_comment(markers, r, end_byte),
                        ExtractorState::DocComment(c) => {
                            let mut c = c;
                            let piece = strip_leading_space(r.text.as_str());
                            push_str(&mut c.content, piece.as_str());
                            c.end_byte = end_byte;
                            ExtractorState::DocComment(c)
                        },
                        ExtractorState::PlainComment => ExtractorState::PlainComment,
                    };
                }
            } else if !is_blank(r.text.as_str()) {
                match state {
                    ExtractorState::DocComment(c) => {
                        out.push(c);
                        assert(comment_views(out@) =~= prev_out.push(c@));
                    },
                    _ => {},
                }
                state = ExtractorState::Code;
            }
        }
        i = i + 1;
    }
    assert(rv.take(regions@.len() as int) =~= rv);
    let ghost last_out = comment_views(out@);
    match state {
        ExtractorState::DocComment(c) => {
            out.push(c);
            assert(comment_views(out@) =~= last_out.push(c@));
        },
        _ => {},
    }
    proof {
        if regions_ordered(rv) {
            lemma_comments_span_content(markers@, rv);
        }
    }
    out
}


/// The regions of a highlighted line as the scan sees them: on line `line_num`, the
/// first starting at byte `start` of the file, each after the one before.
pub open spec fn regions_of_line(parts: Seq<(Seq<char>, bool, bool)>, line_num: int, start: int) -> Seq<RegionView>
    decreases parts.len(),
{
    if parts.len() == 0 {
        Seq::empty()
    } else {
        let p = parts.last();
        regions_of_line(parts.drop_last(), line_num, start).push(RegionView {
            text: p.0,
            line: line_num as usize,
            start_byte: (start + utf8_len(part_texts(parts.drop_last()))) as usize,
            in_comment: p.1,
            punctuation: p.2,
        })
    }
}

/// The regions of a file whose lines are `ls`, as the highlighter cuts them with the
/// syntax built into syntect for `ext`, line `k` (from 1) starting at the byte where
/// the lines before it end; or the first error the highlighter reported.
pub open spec fn file_regions(ext: Seq<char>, ls: Seq<Seq<char>>) -> Result<Seq<RegionView>, Seq<char>>
    decreases ls.len(),
{
    if ls.len() == 0 {
        Ok(Seq::empty())
    } else {
        match file_regions(ext, ls.drop_last()) {
            Err(t) => Err(t),
            Ok(rs) => match highlighted_line(false, ext, ls.drop_last(), ls.last()) {
                Err(t) => Err(t),
                Ok(parts) => Ok(rs + regions_of_line(parts, ls.len() as int, utf8_len(joined(ls.drop_last())) as int)),
            },
        }
    }
}

/// Once the highlighter fails on a line, the file fails with that error whatever
/// lines follow.
proof fn lemma_file_regions_err(ext: Seq<char>, ls: Seq<Seq<char>>, more: Seq<Seq<char>>, t: Seq<char>)
    requires
        file_regions(ext, ls) == Err::<Seq<RegionView>, Seq<char>>(t),
    ensures
        file_regions(ext, ls + more) == Err::<Seq<RegionView>, Seq<char>>(t),
    decreases more.len(),
{
    if more.len() == 0 {
        assert(ls + more =~= ls);
    } else {
        lemma_file_regions_err(ext, ls, more.drop_last(), t);
        assert((ls + more).drop_last() =~= ls + more.drop_last());
    }
}

/// An error of the syntax highlighter, by its display text.
fn highlighter_error(text: String) -> (e: Box<HyperlitError>)
    ensures
        e.spec_kind() is StdError && e.spec_kind()->error@ == text@,
        e.spec_context().len() == 0 && e.spec_cause() is None,
{
    Box::new(HyperlitError::new(ErrorKind::StdError { error: text }))
}

/// Append the regions of one highlighted line, on line `line_num`, starting at byte
/// `line_start`.
fn push_line_regions(parts: &Vec<(String, bool, bool)>, line_num: usize, line_start: usize, regions: &mut Vec<CommentRegion>)
    requires
        line_start + utf8_len(part_texts(parts_view(parts@))) <= usize::MAX,
        regions_fit(region_views(old(regions)@)),
        regions_ordered(region_views(old(regions)@)),
        forall|i: int| 0 <= i < region_views(old(regions)@).len() ==> region_end(#[trigger] region_views(old(regions)@)[i]) <= line_start,
    ensures
        region_views(final(regions)@) == region_views(old(regions)@) + regions_of_line(parts_view(parts@), line_num as int, line_start as int),
        regions_fit(region_views(final(regions)@)),
        regions_ordered(region_views(final(regions)@)),
        forall|i: int| 0 <= i < region_views(final(regions)@).len() ==>
            region_end(#[trigger] region_views(final(regions)@)[i]) <= line_start + utf8_len(part_texts(parts_view(parts@))),
{
    let ghost pv = parts_view(parts@);
    let ghost start_views = region_views(regions@);
    let mut off = line_start;
    let mut j: usize = 0;
    assert(pv.take(0) =~= Seq::<(Seq<char>, bool, bool)>::empty());
    assert(encode_utf8(Seq::<char>::empty()) =~= Seq::<u8>::empty());
    while j < parts.len()
        invariant
            j <= parts@.len(),
            pv == parts_view(parts@),
            line_start + utf8_len(part_texts(pv)) <= usize::MAX,
            off == line_start + utf8_len(part_texts(pv.take(j as int))),
            region_views(regions@) == start_views + regions_of_line(pv.take(j as int), line_num as int, line_start as int),
            regions_fit(region_views(regions@)),
            regions_ordered(region_views(regions@)),
            forall|i: int| 0 <= i < region_views(regions@).len() ==> region_end(#[trigger] region_views(regions@)[i]) <= off,
            off <= line_start + utf8_len(part_texts(pv)),
        decreases parts.len() - j,
    {
        let p = &parts[j];
        proof {
            crate::highlight::lemma_part_texts_step(pv, j as int);
            crate::highlight::lemma_part_texts_prefix(pv, j + 1);
            assert(pv[j as int] == (p.0@, p.1, p.2));
            assert(pv.take(j + 1).drop_last() =~= pv.take(j as int));
        }
        let ghost before = region_views(regions@);
        let text = p.0.clone();
        let n = text.as_str().len();
        regions.push(CommentRegion { text, line: line_num, start_byte: off, in_comment: p.1, punctuation: p.2 });
        proof {
            assert(region_views(regions@) =~= before.push(regions@.last()@));
            assert forall|i: int| 0 <= i < region_views(regions@).len() implies
                region_end(#[trigger] region_views(regions@)[i]) <= off + n by {
                if i < before.len() {
                    assert(region_views(regions@)[i] == before[i]);
                }
            }
            assert forall|i: int| 0 <= i < region_views(regions@).len() implies
                region_end(#[trigger] region_views(regions@)[i]) <= usize::MAX by {
                if i < before.len() {
                    assert(region_views(regions@)[i] == before[i]);
                }
            }
            assert forall|i: int, k: int| 0 <= i < k < region_views(regions@).len() implies
                region_end(#[trigger] region_views(regions@)[i]) <= (#[trigger] region_views(regions@)[k]).start_byte by {
                assert(region_views(regions@)[i] == before[i]);
                if k < before.len() {
                    assert(region_views(regions@)[k] == before[k]);
                }
            }
        }
        off = off + n;
        j = j + 1;
    }
    assert(pv.take(parts@.len() as int) =~= pv);
}

/// Parses code comments from source files, using a syntax highlighter to tell
/// comments from code.
pub struct CommentParser {
    syntaxes: Syntaxes,
    doc_comment_markers: StringSet,
}

impl CommentParser {
    /// The parser highlights with the definitions built into syntect.
    #[verifier::type_invariant]
    closed spec fn uses_builtin(&self) -> bool {
        !self.syntaxes.spec_extra()
    }

    /// The documentation markers.
    pub closed spec fn markers(&self) -> Set<Seq<char>> {
        self.doc_comment_markers@
    }

    /// A comment parser with the default markers: the open book emoji, `DOC:`, `DOCS:`,
    /// `HINT:`, `NOTE:` and `INFO:`.
    pub fn new() -> (p: Self)
        ensures
            p.markers() == set!["\u{1F4D6}"@, "DOC:"@, "DOCS:"@, "HINT:"@, "NOTE:"@, "INFO:"@],
    {
        let mut v: Vec<String> = Vec::new();
        v.push("\u{1F4D6}".to_owned());
        v.push("DOC:".to_owned());
        v.push("DOCS:".to_owned());
        v.push("HINT:".to_owned());
        v.push("NOTE:".to_owned());
        v.push("INFO:".to_owned());
        let p = Self::with_markers(v);
        assert(v@.map_values(|s: String| s@) =~= seq!["\u{1F4D6}"@, "DOC:"@, "DOCS:"@, "HINT:"@, "NOTE:"@, "INFO:"@]);
        assert(p.markers() =~= set!["\u{1F4D6}"@, "DOC:"@, "DOCS:"@, "HINT:"@, "NOTE:"@, "INFO:"@]);
        p
    }

    /// A comment parser with the given documentation markers.
    pub fn with_markers(markers: Vec<String>) -> (p: Self)
        ensures
            p.markers() == markers@.map_values(|s: String| s@).to_set(),
    {
        let ghost mv = markers@.map_values(|s: String| s@);
        let mut set = StringSet::new();
        let mut i: usize = 0;
        while i < markers.len()
            invariant
                i <= markers@.len(),
                mv == markers@.map_values(|s: String| s@),
                set@ == mv.take(i as int).to_set(),
            decreases markers.len() - i,
        {
            set.insert(markers[i].clone());
            proof {
                assert(mv.take(i + 1) =~= mv.take(i as int).push(mv[i as int]));
                mv.take(i as int).lemma_push_to_set_commute(mv[i as int]);
            }
            i = i + 1;
        }
        assert(mv.take(markers@.len() as int) =~= mv);
        CommentParser { syntaxes: Syntaxes::builtin(), doc_comment_markers: set }
    }

    /// Extract all documentation comments from source code; the extension picks the
    /// language. An unknown extension is an error, and so is an error of the
    /// highlighter.
    ///
    /// The comments are those that the scan finds in the regions the highlighter cuts
    /// the content's lines into; a region's start is its byte offset in the file.
    pub fn extract_doc_comments(&self, content: &str, file_extension: &str) -> (r: HyperlitResult<Vec<ExtractedComment>>)
        requires
            utf8_len(content@) <= isize::MAX,
        ensures
            !syntax_known(false, file_extension@) ==> (r matches Err(e)
                && e.spec_kind() == (ErrorKind::Message { message: e.spec_kind()->message })
                && e.spec_kind()->message@ == "Unknown extension: "@ + file_extension@
                && e.spec_context().len() == 0 && e.spec_cause() is None),
            r matches Ok(v) ==> forall|i: int| 0 <= i < v@.len() ==>
                (#[trigger] v@[i]).start_byte + utf8_len(v@[i].content@) <= v@[i].end_byte,
            syntax_known(false, file_extension@) ==> match file_regions(file_extension@, lines_of(content@)) {
                Ok(rs) => r matches Ok(v) && comment_views(v@) == comments_of(self.markers(), rs),
                Err(t) => r matches Err(e) && e.spec_kind() is StdError && e.spec_kind()->error@ == t
                    && e.spec_context().len() == 0 && e.spec_cause() is None,
            },
    {
        proof {
            use_type_invariant(self);
        }
        let mut h = match LineHighlighter::start(&self.syntaxes, file_extension) {
            Some(h) => h,
            None => {
                let mut m = "Unknown extension: ".to_owned();
                push_str(&mut m, file_extension);
                return Err(Box::new(HyperlitError::message(m.as_str())));
            },
        };
        let chars = chars_of(content);
        let mut regions: Vec<CommentRegion> = Vec::new();
        let mut line_start_byte: usize = 0;
        let mut line_num: usize = 0;
        let mut pos: usize = 0;
        let ghost mut done: Seq<Seq<char>> = Seq::empty();
        proof {
            assert(chars@.take(0) =~= Seq::<char>::empty());
            assert(encode_utf8(chars@.take(0)) =~= Seq::<u8>::empty());
            assert(region_views(regions@) =~= Seq::<RegionView>::empty());
            assert(regions_ordered(region_views(regions@)));
            assert(done + lines_from(content@, 0) =~= lines_of(content@));
        }
        while pos < chars.len()
            invariant
                chars@ == content@,
                pos <= chars@.len(),
                line_num <= pos,
                utf8_len(content@) <= isize::MAX,
                !self.syntaxes.spec_extra(),
                h.spec_extra() == self.syntaxes.spec_extra(),
                syntax_known(false, file_extension@),
                h.spec_ext() == file_extension@,
                h.spec_lines() == done,
                done.len() == line_num,
                joined(done) == chars@.take(pos as int),
                lines_of(content@) == done + lines_from(content@, pos as int),
                line_start_byte == utf8_len(chars@.take(pos as int)),
                file_regions(file_extension@, done) == Ok::<Seq<RegionView>, Seq<char>>(region_views(regions@)),
                regions_fit(region_views(regions@)),
                regions_ordered(region_views(regions@)),
                forall|i: int| 0 <= i < region_views(regions@).len() ==>
                    region_end(#[trigger] region_views(regions@)[i]) <= line_start_byte,
            decreases chars.len() - pos,
        {
            let mut e = pos;
            while e < chars.len() && chars[e] != '\n'
                invariant
                    pos <= e <= chars@.len(),
                    line_end(content@, pos as int) == line_end(content@, e as int),
                    chars@ == content@,
                decreases chars.len() - e,
            {
                e = e + 1;
            }
            if e < chars.len() {
                e = e + 1;
            }
            let line = string_of_range(&chars, pos, e);
            proof {
                crate::highlight::lemma_lines_from_step(content@, pos as int);
                assert(chars@.take(e as int) =~= chars@.take(pos as int) + line@);
                lemma_encode_concat(chars@.take(pos as int), line@);
                assert(content@ =~= chars@.take(e as int) + chars@.skip(e as int));
                lemma_encode_concat(chars@.take(e as int), chars@.skip(e as int));
                assert(done.push(line@).drop_last() =~= done);
                assert(lines_of(content@) =~= done.push(line@) + lines_from(content@, e as int));
            }
            let parts = match highlight_line(&self.syntaxes, &mut h, line.as_str()) {
                Ok(parts) => parts,
                Err(t) => {
                    proof {
                        assert(file_regions(file_extension@, done.push(line@)) == Err::<Seq<RegionView>, Seq<char>>(t@));
                        lemma_file_regions_err(file_extension@, done.push(line@), lines_from(content@, e as int), t@);
                    }
                    return Err(highlighter_error(t));
                },
            };
            line_num = line_num + 1;
            push_line_regions(&parts, line_num, line_start_byte, &mut regions);
            proof {
                assert(file_regions(file_extension@, done.push(line@)) == Ok::<Seq<RegionView>, Seq<char>>(region_views(regions@)));
                done = done.push(line@);
            }
            line_start_byte = line_start_byte + line.as_str().len();
            pos = e;
        }
        proof {
            assert(lines_from(content@, pos as int) =~= Seq::<Seq<char>>::empty());
            assert(lines_of(content@) =~= done);
        }
        let found = extract_from_regions(&self.doc_comment_markers, regions.as_slice());
        proof {
            lemma_comments_span_content(self.markers(), region_views(regions@));
            assert forall|i: int| 0 <= i < found@.len() implies
                (#[trigger] found@[i]).start_byte + utf8_len(found@[i].content@) <= found@[i].end_byte by {
                assert(comment_views(found@)[i] == found@[i]@);
            }
        }
        Ok(found)
    }
}

impl Default for CommentParser {
    fn default() -> (p: Self)
        ensures
            p.markers() == set!["\u{1F4D6}"@, "DOC:"@, "DOCS:"@, "HINT:"@, "NOTE:"@, "INFO:"@],
    {
        Self::new()
    }
}

} // verus!
