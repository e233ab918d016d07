//! Byte ranges of documentation comments in source code, for documents assembled
//! from several comments.
//!
//! A comment region in code whose first word is a documentation marker opens a
//! documentation comment; its range starts after the marker and the whitespace that
//! follows it in the source, and ends where the next region outside comments starts.
use vstd::prelude::*;
use vstd::string::StrSliceExecFns;
use vstd::utf8::{decode_utf8, encode_utf8, is_char_boundary};
use std::ops::Range;
use crate::highlight::{
    highlight_line, highlighted_line, joined, line_end, lines_from, lines_of, part_texts, parts_view,
    syntax_known, LineHighlighter, Syntaxes,
};
use crate::document::StringSet;
use crate::error::{ErrorKind, HyperlitError, HyperlitResult};
use crate::text::{
    chars_of, find_whitespace, lemma_encode_concat, leading_ws, push_str,
    skip_whitespace, split_at_ws, string_of_range, trim_ws_start, utf8_len,
};

verus! {

/// A range of bytes of a source holding documentation.
#[derive(Debug)]
pub struct ExtractionResult {
    pub byte_range: Range<usize>,
}

/// A region of a source line, with the highlighter's verdict on it.
#[derive(Debug, Clone)]
pub struct RangeRegion {
    /// The text of the region
    pub text: String,
    /// The byte offset where its line starts
    pub line_start: usize,
    /// Whether it lies in a comment (punctuation excluded)
    pub in_comment: bool,
}

/// What a region holds, as mathematical values.
pub struct RangeRegionView {
    pub text: Seq<char>,
    pub line_start: usize,
    pub in_comment: bool,
}

impl View for RangeRegion {
    type V = RangeRegionView;

    open spec fn view(&self) -> RangeRegionView {
        RangeRegionView { text: self.text@, line_start: self.line_start, in_comment: self.in_comment }
    }
}

/// Where the scan stands: in code, in a plain comment, or in a documentation
/// comment that started at the given byte.
pub enum RangeMode {
    Code,
    Comment,
    Doc(int),
}

/// The state of the scan: the mode, the line of the last region, the running byte
/// offset, the ranges found, and whether an offset could not be computed.
pub struct RangeScan {
    pub mode: RangeMode,
    pub line: Option<usize>,
    pub offset: int,
    pub found: Seq<(int, int)>,
    pub failed: bool,
}

/// The number of bytes of whitespace that follow byte `p` of the source, if `p` is a
/// character boundary and something other than whitespace follows.
pub open spec fn ws_skip(src: Seq<char>, p: int) -> Option<int> {
    let b = encode_utf8(src);
    if p < 0 || p > b.len() || !is_char_boundary(b, p) {
        None
    } else {
        let rest = decode_utf8(b.skip(p));
        let k = leading_ws(rest);
        if k == rest.len() {
            None
        } else {
            Some(utf8_len(rest.take(k)) as int)
        }
    }
}

/// The scan state once a computation failed.
pub open spec fn scan_failed(st: RangeScan) -> RangeScan {
    RangeScan { mode: st.mode, line: st.line, offset: st.offset, found: st.found, failed: true }
}

/// One step of the scan over a region.
pub open spec fn range_step(src: Seq<char>, markers: Set<Seq<char>>, st: RangeScan, r: RangeRegionView) -> RangeScan {
    if st.failed || r.text.len() == 0 {
        st
    } else {
        let off = if st.line == Some(r.line_start) { st.offset } else { r.line_start as int };
        let next = off + utf8_len(r.text);
        if r.in_comment {
            match st.mode {
                RangeMode::Code => match split_at_ws(trim_ws_start(r.text)) {
                    None => RangeScan { mode: RangeMode::Comment, line: Some(r.line_start), offset: off, found: st.found, failed: false },
                    Some(parts) => if !markers.contains(parts.0) {
                        RangeScan { mode: RangeMode::Comment, line: Some(r.line_start), offset: off, found: st.found, failed: false }
                    } else {
                        let o2 = off + utf8_len(r.text.take(leading_ws(r.text))) + utf8_len(parts.0);
                        match ws_skip(src, o2) {
                            None => scan_failed(st),
                            Some(w) => if o2 + w + utf8_len(r.text) > usize::MAX {
                                scan_failed(st)
                            } else {
                                RangeScan {
                                    mode: RangeMode::Doc(o2 + w),
                                    line: Some(r.line_start),
                                    offset: o2 + w + utf8_len(r.text),
                                    found: st.found,
                                    failed: false,
                                }
                            },
                        }
                    },
                },
                _ => if next > usize::MAX {
                    scan_failed(st)
                } else {
                    RangeScan { mode: st.mode, line: Some(r.line_start), offset: next, found: st.found, failed: false }
                },
            }
        } else if next > usize::MAX {
            scan_failed(st)
        } else {
            RangeScan {
                mode: RangeMode::Code,
                line: Some(r.line_start),
                offset: next,
                found: match st.mode {
                    RangeMode::Doc(s) => st.found.push((s, off)),
                    _ => st.found,
                },
                failed: false,
            }
        }
    }
}

/// The scan over the regions `rs` of the source `src`.
pub open spec fn range_scan(src: Seq<char>, markers: Set<Seq<char>>, rs: Seq<RangeRegionView>) -> RangeScan
    decreases rs.len(),
{
    if rs.len() == 0 {
        RangeScan { mode: RangeMode::Code, line: None, offset: 0, found: Seq::empty(), failed: false }
    } else {
        range_step(src, markers, range_scan(src, markers, rs.drop_last()), rs.last())
    }
}

/// The views of a sequence of regions.
pub open spec fn range_region_views(rs: Seq<RangeRegion>) -> Seq<RangeRegionView> {
    rs.map_values(|r: RangeRegion| r@)
}

/// The ranges of a sequence of results.
pub open spec fn result_ranges(v: Seq<ExtractionResult>) -> Seq<(int, int)> {
    v.map_values(|e: ExtractionResult| (e.byte_range.start as int, e.byte_range.end as int))
}

/// Whether the text of every region fits the byte offsets of a `usize`.
pub open spec fn range_regions_fit(rs: Seq<RangeRegionView>) -> bool {
    forall|i: int| 0 <= i < rs.len() ==> utf8_len((#[trigger] rs[i]).text) <= usize::MAX
}

/// Once the scan has failed, it stays failed.
proof fn lemma_failed_sticky(src: Seq<char>, markers: Set<Seq<char>>, rs: Seq<RangeRegionView>, k: int)
    requires
        0 <= k <= rs.len(),
        range_scan(src, markers, rs.take(k)).failed,
    ensures
        range_scan(src, markers, rs).failed,
    decreases rs.len() - k,
{
    if k < rs.len() {
        assert(rs.take(k + 1).drop_last() =~= rs.take(k));
        lemma_failed_sticky(src, markers, rs, k + 1);
    } else {
        assert(rs.take(k) =~= rs);
    }
}

/// The number of bytes of whitespace after byte `p` of the source.
fn whitespace_after(source: &str, p: usize) -> (r: Option<usize>)
    requires
        utf8_len(source@) <= usize::MAX,
    ensures
        match r {
            Some(w) => ws_skip(source@, p as int) == Some(w as int),
            None => ws_skip(source@, p as int) is None,
        },
{
    if p > source.len() || !source.is_char_boundary(p) {
        return None;
    }
    let (_, rest) = source.split_at(p);
    proof {
        assert(encode_utf8(rest@) =~= encode_utf8(source@).skip(p as int));
        vstd::utf8::encode_utf8_decode_utf8(rest@);
    }
    let v = chars_of(rest);
    let k = skip_whitespace(&v, 0);
    assert(v@.skip(0) =~= v@);
    if k == v.len() {
        return None;
    }
    let lead = string_of_range(&v, 0, k);
    proof {
        assert(v@.subrange(0, k as int) =~= v@.take(k as int));
        crate::text::lemma_leading_ws_unique(v@, k as int);
        assert(v@ =~= v@.take(k as int) + v@.skip(k as int));
        lemma_encode_concat(v@.take(k as int), v@.skip(k as int));
    }
    Some(lead.as_str().len())
}

/// Scan the regions of a source for the byte ranges of documentation comments.
pub fn ranges_from_regions(source: &str, markers: &StringSet, regions: &[RangeRegion]) -> (r: HyperlitResult<Vec<ExtractionResult>>)
    requires
        utf8_len(source@) <= usize::MAX,
        range_regions_fit(range_region_views(regions@)),
    ensures
        match r {
            Ok(v) => !range_scan(source@, markers@, range_region_views(regions@)).failed
                && result_ranges(v@) == range_scan(source@, markers@, range_region_views(regions@)).found,
            Err(_) => range_scan(source@, markers@, range_region_views(regions@)).failed,
        },
{
    let ghost rv = range_region_views(regions@);
    let mut out: Vec<ExtractionResult> = Vec::new();
    let mut mode_code = true;
    let mut mode_doc: Option<usize> = None;
    let mut line: Option<usize> = None;
    let mut offset: usize = 0;
    let mut i: usize = 0;
    while i < regions.len()
        invariant
            i <= regions@.len(),
            rv == range_region_views(regions@),
            utf8_len(source@) <= usize::MAX,
            range_regions_fit(rv),
            ({
                let st = range_scan(source@, markers@, rv.take(i as int));
                &&& !st.failed
                &&& st.line == line
                &&& st.offset == offset as int
                &&& st.found == result_ranges(out@)
                &&& match st.mode {
                    RangeMode::Code => mode_code && mode_doc is None,
                    RangeMode::Comment => !mode_code && mode_doc is None,
                    RangeMode::Doc(s) => !mode_code && mode_doc == Some(s as usize) && 0 <= s <= usize::MAX,
                }
            }),
        decreases regions.len() - i,
    {
        let r = &regions[i];
        proof {
            assert(rv.take(i + 1).drop_last() =~= rv.take(i as int));
            assert(rv.take(i + 1).last() == r@);
            assert(rv[i as int] == r@);
            assert(utf8_len(r.text@) <= usize::MAX);
        }
        let ghost prev_out = result_ranges(out@);
        if !r.text.as_str().is_empty() {
            let off = match line {
                Some(l) => if l == r.line_start { offset } else { r.line_start },
                None => r.line_start,
            };
            let tl = r.text.as_str().len();
            if r.in_comment {
                if mode_code {
                    let v = chars_of(r.text.as_str());
                    let a = skip_whitespace(&v, 0);
                    assert(v@.skip(0) =~= v@);
                    match find_whitespace(&v, a) {
                        None => {
                            mode_code = false;
                            line = Some(r.line_start);
                            offset = off;
                        },
                        Some(b) => {
                            let indicator = string_of_range(&v, a, b);
                            if !markers.contains(indicator.as_str()) {
                                mode_code = false;
                                line = Some(r.line_start);
                                offset = off;
                            } else {
                                let lead = string_of_range(&v, 0, a);
                                proof {
                                    assert(v@.subrange(0, a as int) =~= v@.take(a as int));
                                    crate::text::lemma_leading_ws_unique(v@, a as int);
                                    assert(v@ =~= v@.take(a as int) + (v@.subrange(a as int, b as int) + v@.skip(b as int)));
                                    lemma_encode_concat(v@.take(a as int), v@.subrange(a as int, b as int) + v@.skip(b as int));
                                    lemma_encode_concat(v@.subrange(a as int, b as int), v@.skip(b as int));
                                }
                                let lb = lead.as_str().len();
                                let ib = indicator.as_str().len();
                                let o2 = match off.checked_add(lb) {
                                    Some(x) => x.checked_add(ib),
                                    None => None,
                                };
                                let o2 = match o2 {
                                    Some(x) => x,
                                    None => {
                                        proof {
                                            lemma_failed_sticky(source@, markers@, rv, i + 1);
                                        }
                                        return Err(Box::new(HyperlitError::message("byte offset out of range")));
                                    },
                                };
                                match whitespace_after(source, o2) {
                                    None => {
                                        proof {
                                            lemma_failed_sticky(source@, markers@, rv, i + 1);
                                        }
                                        return Err(Box::new(HyperlitError::message("no documentation text after the marker")));
                                    },
                                    Some(w) => {
                                        let start = match o2.checked_add(w) {
                                            Some(s) => s,
                                            None => {
                                                proof {
                                            lemma_failed_sticky(source@, markers@, rv, i + 1);
                                        }
                                        return Err(Box::new(HyperlitError::message("byte offset out of range")));
                                            },
                                        };
                                        match start.checked_add(tl) {
                                            Some(n) => {
                                                mode_code = false;
                                                mode_doc = Some(start);
                                                line = Some(r.line_start);
                                                offset = n;
                                            },
                                            None => {
                                                proof {
                                            lemma_failed_sticky(source@, markers@, rv, i + 1);
                                        }
                                        return Err(Box::new(HyperlitError::message("byte offset out of range")));
                                            },
                                        }
                                    },
                                }
                            }
                        },
                    }
                } else {
                    match off.checked_add(tl) {
                        Some(n) => {
                            line = Some(r.line_start);
                            offset = n;
                        },
                        None => {
                            proof {
                                            lemma_failed_sticky(source@, markers@, rv, i + 1);
                                        }
                                        return Err(Box::new(HyperlitError::message("byte offset out of range")));
                        },
                    }
                }
            } else {
                match off.checked_add(tl) {
                    Some(n) => {
                        match mode_doc {
                            Some(s) => {
                                out.push(ExtractionResult { byte_range: Range { start: s, end: off } });
                                assert(result_ranges(out@) =~= prev_out.push((s as int, off as int)));
                            },
                            None => {},
                        }
                        mode_code = true;
                        mode_doc = None;
                        line = Some(r.line_start);
                        offset = n;
                    },
                    None => {
                        proof {
                                            lemma_failed_sticky(source@, markers@, rv, i + 1);
                                        }
                                        return Err(Box::new(HyperlitError::message("byte offset out of range")));
                    },
                }
            }
        }
        i = i + 1;
    }
    assert(rv.take(regions@.len() as int) =~= rv);
    Ok(out)
}

/// The regions of a highlighted line as the scan sees them, on the line that starts at
/// byte `line_start`. A region counts as comment where the selector `comment` matches
/// and `punctuation` does not, which is what syntect's `comment - punctuation` selects.
pub open spec fn range_regions_of_line(parts: Seq<(Seq<char>, bool, bool)>, line_start: int) -> Seq<RangeRegionView> {
    parts.map_values(|p: (Seq<char>, bool, bool)|
        RangeRegionView { text: p.0, line_start: line_start as usize, in_comment: p.1 && !p.2 })
}

/// The regions of a source whose lines are `ls`, as the highlighter cuts them with the
/// syntax of two-face for `ext`; or the first error the highlighter reported.
pub open spec fn source_regions(ext: Seq<char>, ls: Seq<Seq<char>>) -> Result<Seq<RangeRegionView>, Seq<char>>
    decreases ls.len(),
{
    if ls.len() == 0 {
        Ok(Seq::empty())
    } else {
        match source_regions(ext, ls.drop_last()) {
            Err(t) => Err(t),
            Ok(rs) => match highlighted_line(true, ext, ls.drop_last(), ls.last()) {
                Err(t) => Err(t),
                Ok(parts) => Ok(rs + range_regions_of_line(parts, utf8_len(joined(ls.drop_last())) as int)),
            },
        }
    }
}

/// Once the highlighter fails on a line, the source fails with that error whatever
/// lines follow.
proof fn lemma_source_regions_err(ext: Seq<char>, ls: Seq<Seq<char>>, more: Seq<Seq<char>>, t: Seq<char>)
    requires
        source_regions(ext, ls) == Err::<Seq<RangeRegionView>, Seq<char>>(t),
    ensures
        source_regions(ext, ls + more) == Err::<Seq<RangeRegionView>, Seq<char>>(t),
    decreases more.len(),
{
    if more.len() == 0 {
        assert(ls + more =~= ls);
    } else {
        lemma_source_regions_err(ext, ls, more.drop_last(), t);
        assert((ls + more).drop_last() =~= ls + more.drop_last());
    }
}

/// Append the regions of one highlighted line that starts at byte `line_start`.
fn push_range_regions(parts: &Vec<(String, bool, bool)>, line_start: usize, regions: &mut Vec<RangeRegion>)
    requires
        utf8_len(part_texts(parts_view(parts@))) <= usize::MAX,
        range_regions_fit(range_region_views(old(regions)@)),
    ensures
        range_region_views(final(regions)@) == range_region_views(old(regions)@) + range_regions_of_line(parts_view(parts@), line_start as int),
        range_regions_fit(range_region_views(final(regions)@)),
{
    let ghost pv = parts_view(parts@);
    let ghost start_views = range_region_views(regions@);
    let mut j: usize = 0;
    while j < parts.len()
        invariant
            j <= parts@.len(),
            pv == parts_view(parts@),
            utf8_len(part_texts(pv)) <= usize::MAX,
            range_region_views(regions@) == start_views + range_regions_of_line(pv.take(j as int), line_start as int),
            range_regions_fit(range_region_views(regions@)),
        decreases parts.len() - j,
    {
        let p = &parts[j];
        proof {
            crate::highlight::lemma_part_texts_step(pv, j as int);
            crate::highlight::lemma_part_texts_prefix(pv, j + 1);
            assert(pv[j as int] == (p.0@, p.1, p.2));
        }
        let ghost before = range_region_views(regions@);
        let text = p.0.clone();
        regions.push(RangeRegion { text, line_start, in_comment: p.1 && !p.2 });
        proof {
            assert(range_region_views(regions@) =~= before.push(regions@.last()@));
            assert(range_regions_of_line(pv.take(j + 1), line_start as int)
                =~= range_regions_of_line(pv.take(j as int), line_start as int).push(regions@.last()@));
            assert forall|i: int| 0 <= i < range_region_views(regions@).len() implies
                utf8_len((#[trigger] range_region_views(regions@)[i]).text) <= usize::MAX by {
                if i < before.len() {
                    assert(range_region_views(regions@)[i] == before[i]);
                }
            }
        }
        j = j + 1;
    }
    assert(pv.take(parts@.len() as int) =~= pv);
}

/// Finds the byte ranges of documentation comments in source code, using the syntax
/// definitions of two-face.
pub struct Extractor {
    syntaxes: Syntaxes,
    doc_comment_markers: StringSet,
}

impl Extractor {
    /// The extractor highlights with the definitions of two-face.
    #[verifier::type_invariant]
    closed spec fn uses_extra(&self) -> bool {
        self.syntaxes.spec_extra()
    }

    /// The documentation markers.
    pub closed spec fn markers(&self) -> Set<Seq<char>> {
        self.doc_comment_markers@
    }

    /// An extractor for the given documentation markers.
    pub fn new(doc_comment_markers: &[&str]) -> (e: Self)
        ensures
            e.markers() == doc_comment_markers@.map_values(|s: &str| s@).to_set(),
    {
        let ghost mv = doc_comment_markers@.map_values(|s: &str| s@);
        let mut set = StringSet::new();
        let mut i: usize = 0;
        while i < doc_comment_markers.len()
            invariant
                i <= doc_comment_markers@.len(),
                mv == doc_comment_markers@.map_values(|s: &str| s@),
                set@ == mv.take(i as int).to_set(),
            decreases doc_comment_markers.len() - i,
        {
            set.insert(doc_comment_markers[i].to_owned());
            proof {
                assert(mv.take(i + 1) =~= mv.take(i as int).push(mv[i as int]));
                mv.take(i as int).lemma_push_to_set_commute(mv[i as int]);
            }
            i = i + 1;
        }
        assert(mv.take(doc_comment_markers@.len() as int) =~= mv);
        Extractor { syntaxes: Syntaxes::extra(), doc_comment_markers: set }
    }

    /// The byte ranges of the documentation comments of a source file; the extension
    /// picks the language. An unknown extension is an error, and so are an error of
    /// the highlighter and a scan whose offsets cannot be computed.
    pub fn extract(&self, source: &str, extension: &str) -> (r: HyperlitResult<Vec<ExtractionResult>>)
        requires
            utf8_len(source@) <= usize::MAX,
        ensures
            !syntax_known(true, extension@) ==> (r matches Err(e)
                && e.spec_kind() == (ErrorKind::Message { message: e.spec_kind()->message })
                && e.spec_kind()->message@ == "No syntax definition found for extension '"@ + extension@ + "'"@
                && e.spec_context().len() == 0 && e.spec_cause() is None),
            syntax_known(true, extension@) ==> match source_regions(extension@, lines_of(source@)) {
                Ok(rs) => if range_scan(source@, self.markers(), rs).failed {
                    r is Err
                } else {
                    r matches Ok(v) && result_ranges(v@) == range_scan(source@, self.markers(), rs).found
                },
                Err(t) => r matches Err(e) && e.spec_kind() is StdError && e.spec_kind()->error@ == t
                    && e.spec_context().len() == 0 && e.spec_cause() is None,
            },
    {
        proof {
            use_type_invariant(self);
        }
        let mut h = match LineHighlighter::start(&self.syntaxes, extension) {
            Some(h) => h,
            None => {
                let mut m = "No syntax definition found for extension '".to_owned();
                push_str(&mut m, extension);
                push_str(&mut m, "'");
                return Err(Box::new(HyperlitError::message(m.as_str())));
            },
        };
        let chars = chars_of(source);
        let mut regions: Vec<RangeRegion> = Vec::new();
        let mut line_start: usize = 0;
        let mut pos: usize = 0;
        let ghost mut done: Seq<Seq<char>> = Seq::empty();
        proof {
            assert(chars@.take(0) =~= Seq::<char>::empty());
            assert(encode_utf8(chars@.take(0)) =~= Seq::<u8>::empty());
            assert(range_region_views(regions@) =~= Seq::<RangeRegionView>::empty());
            assert(done + lines_from(source@, 0) =~= lines_of(source@));
        }
        while pos < chars.len()
            invariant
                chars@ == source@,
                pos <= chars@.len(),
                utf8_len(source@) <= usize::MAX,
                self.syntaxes.spec_extra(),
                h.spec_extra() == self.syntaxes.spec_extra(),
                syntax_known(true, extension@),
                h.spec_ext() == extension@,
                h.spec_lines() == done,
                joined(done) == chars@.take(pos as int),
                lines_of(source@) == done + lines_from(source@, pos as int),
                line_start == utf8_len(chars@.take(pos as int)),
                source_regions(extension@, done) == Ok::<Seq<RangeRegionView>, Seq<char>>(range_region_views(regions@)),
                range_regions_fit(range_region_views(regions@)),
            decreases chars.len() - pos,
        {
            let mut e = pos;
            while e < chars.len() && chars[e] != '\n'
                invariant
                    pos <= e <= chars@.len(),
                    line_end(source@, pos as int) == line_end(source@, e as int),
                    chars@ == source@,
                decreases chars.len() - e,
            {
                e = e + 1;
            }
            if e < chars.len() {
                e = e + 1;
            }
            let line = string_of_range(&chars, pos, e);
            proof {
                crate::highlight::lemma_lines_from_step(source@, pos as int);
                assert(chars@.take(e as int) =~= chars@.take(pos as int) + line@);
                lemma_encode_concat(chars@.take(pos as int), line@);
                assert(source@ =~= chars@.take(e as int) + chars@.skip(e as int));
                lemma_encode_concat(chars@.take(e as int), chars@.skip(e as int));
                assert(done.push(line@).drop_last() =~= done);
                assert(lines_of(source@) =~= done.push(line@) + lines_from(source@, e as int));
            }
            let parts = match highlight_line(&self.syntaxes, &mut h, line.as_str()) {
                Ok(parts) => parts,
                Err(t) => {
                    proof {
                        assert(source_regions(extension@, done.push(line@)) == Err::<Seq<RangeRegionView>, Seq<char>>(t@));
                        lemma_source_regions_err(extension@, done.push(line@), lines_from(source@, e as int), t@);
                    }
                    return Err(Box::new(HyperlitError::new(ErrorKind::StdError { error: t })));
                },
            };
            push_range_regions(&parts, line_start, &mut regions);
            proof {
                assert(source_regions(extension@, done.push(line@)) == Ok::<Seq<RangeRegionView>, Seq<char>>(range_region_views(regions@)));
                done = done.push(line@);
            }
            line_start = line_start + line.as_str().len();
            pos = e;
        }
        proof {
            assert(lines_from(source@, pos as int) =~= Seq::<Seq<char>>::empty());
            assert(lines_of(source@) =~= done);
        }
        ranges_from_regions(source, &self.doc_comment_markers, regions.as_slice())
    }
}

} // verus!
