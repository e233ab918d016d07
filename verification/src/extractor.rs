//! Extraction of documents from markdown files: YAML frontmatter, titles, and the
//! identifiers of the documents of a batch.
use vstd::prelude::*;
use vstd::utf8::encode_utf8;
use crate::document::{
    ByteRange, Document, DocumentMetadata, DocumentSource, SourceType, StringSet, first_free_candidate, slug,
};
use crate::error::{HyperlitError, HyperlitResult};
use crate::path::{FilePath, file_stem_of};
use crate::strmap::StrMap;
use crate::text::{
    all_ws, chars_of, is_blank, join_lines, join_range, lemma_encode_concat, lines, lines_of, split_char,
    str_trim, strip_cr, trim_ws, utf8_len, lemma_split_char_nonempty,
};

verus! {

/// A scalar of a YAML mapping, as far as frontmatter reads it.
#[derive(Debug, Clone)]
pub enum YamlScalar {
    /// A string
    Str(String),
    /// A number, by the text it displays
    Number(String),
    /// A boolean
    Bool(bool),
    /// Anything else (null, sequence, mapping, tagged value)
    Other,
}

/// What a YAML scalar holds, as mathematical values.
pub enum YamlScalarView {
    Str(Seq<char>),
    Number(Seq<char>),
    Bool(bool),
    Other,
}

impl View for YamlScalar {
    type V = YamlScalarView;

    open spec fn view(&self) -> YamlScalarView {
        match self {
            YamlScalar::Str(s) => YamlScalarView::Str(s@),
            YamlScalar::Number(s) => YamlScalarView::Number(s@),
            YamlScalar::Bool(b) => YamlScalarView::Bool(*b),
            YamlScalar::Other => YamlScalarView::Other,
        }
    }
}

/// The views of the entries of a YAML mapping.
pub open spec fn yaml_entry_views(es: Seq<(YamlScalar, YamlScalar)>) -> Seq<(YamlScalarView, YamlScalarView)> {
    es.map_values(|e: (YamlScalar, YamlScalar)| (e.0@, e.1@))
}

/// What `serde_yaml::from_str::<serde_yaml::Value>` gives for the text `text` when
/// it is a mapping: its entries in document order, each key and value read as a
/// scalar (`None` when the text does not parse or is not a mapping).
pub uninterp spec fn yaml_mapping_of(text: Seq<char>) -> Option<Seq<(YamlScalarView, YamlScalarView)>>;

/// Trusted: calls `serde_yaml::from_str::<serde_yaml::Value>`; a mapping is handed
/// back as its entries in order, each key and value told apart by variant (a number
/// by its `Display` text), anything else as `None`. The result is named, not
/// described.
#[verifier::external_body]
fn yaml_mapping(text: &str) -> (r: Option<Vec<(YamlScalar, YamlScalar)>>)
    ensures
        match r {
            Some(es) => yaml_mapping_of(text@) == Some(yaml_entry_views(es@)),
            None => yaml_mapping_of(text@) is None,
        },
{
    let scalar = |v: serde_yaml::Value| match v {
        serde_yaml::Value::String(s) => YamlScalar::Str(s),
        serde_yaml::Value::Number(n) => YamlScalar::Number(n.to_string()),
        serde_yaml::Value::Bool(b) => YamlScalar::Bool(b),
        _ => YamlScalar::Other,
    };
    match serde_yaml::from_str::<serde_yaml::Value>(text) {
        Ok(serde_yaml::Value::Mapping(m)) => Some(m.into_iter().map(|(k, v)| (scalar(k), scalar(v))).collect()),
        _ => None,
    }
}

/// The metadata field an entry gives: a string key with a string, number or boolean
/// value (a boolean as `true` or `false`); nothing for any other entry.
pub open spec fn field_of(k: YamlScalarView, v: YamlScalarView) -> Option<(Seq<char>, Seq<char>)> {
    match k {
        YamlScalarView::Str(ks) => match v {
            YamlScalarView::Str(s) => Some((ks, s)),
            YamlScalarView::Number(t) => Some((ks, t)),
            YamlScalarView::Bool(b) => Some((ks, if b { "true"@ } else { "false"@ })),
            YamlScalarView::Other => None,
        },
        _ => None,
    }
}

/// The metadata fields of the entries of a mapping (a later key wins).
pub open spec fn fields_map(es: Seq<(YamlScalarView, YamlScalarView)>) -> Map<Seq<char>, Seq<char>>
    decreases es.len(),
{
    if es.len() == 0 {
        Map::empty()
    } else {
        let m = fields_map(es.drop_last());
        match field_of(es.last().0, es.last().1) {
            Some(f) => m.insert(f.0, f.1),
            None => m,
        }
    }
}

/// Law: a field takes the value of the last entry with its key: a string value as it
/// is, a number by its text, and a boolean as its own text (`true` for true, `false`
/// for false).
pub proof fn lemma_last_entry_wins(es: Seq<(YamlScalarView, YamlScalarView)>, i: int, k: Seq<char>)
    requires
        0 <= i < es.len(),
        es[i].0 == YamlScalarView::Str(k),
        !(es[i].1 is Other),
        forall|j: int| i < j < es.len() ==> es[j].0 != YamlScalarView::Str(k),
    ensures
        fields_map(es).contains_key(k),
        es[i].1 matches YamlScalarView::Str(s) ==> fields_map(es)[k] == s,
        es[i].1 matches YamlScalarView::Number(t) ==> fields_map(es)[k] == t,
        es[i].1 matches YamlScalarView::Bool(b) ==> (fields_map(es)[k] == "true"@ <==> b)
            && (fields_map(es)[k] == "false"@ <==> !b),
    decreases es.len(),
{
    reveal_strlit("true");
    reveal_strlit("false");
    assert("true"@ != "false"@) by {
        assert("true"@.len() != "false"@.len());
    }
    if i < es.len() - 1 {
        let p = es.drop_last();
        assert forall|j: int| i < j < p.len() implies p[j].0 != YamlScalarView::Str(k) by {
            assert(p[j] == es[j]);
        }
        assert(p[i] == es[i]);
        lemma_last_entry_wins(p, i, k);
        assert(es.last() == es[es.len() - 1]);
    } else {
        assert(es.last() == es[i]);
    }
}

/// The metadata of frontmatter text: none for blank text, text that is not a YAML
/// mapping, or a mapping with no usable field.
pub open spec fn yaml_metadata(text: Seq<char>) -> Option<Map<Seq<char>, Seq<char>>> {
    if all_ws(text) {
        None
    } else {
        match yaml_mapping_of(text) {
            None => None,
            Some(es) => if fields_map(es).len() == 0 {
                None
            } else {
                Some(fields_map(es))
            },
        }
    }
}

/// The metadata of frontmatter text.
pub fn metadata_from_yaml(text: &str) -> (r: Option<DocumentMetadata>)
    ensures
        match r {
            Some(m) => yaml_metadata(text@) == Some(m@),
            None => yaml_metadata(text@) is None,
        },
{
    if is_blank(text) {
        return None;
    }
    let entries = match yaml_mapping(text) {
        Some(es) => es,
        None => {
            return None;
        },
    };
    let ghost ev = yaml_entry_views(entries@);
    let mut fields = StrMap::new();
    let mut i: usize = 0;
    while i < entries.len()
        invariant
            i <= entries@.len(),
            ev == yaml_entry_views(entries@),
            fields@ == fields_map(ev.take(i as int)),
        decreases entries.len() - i,
    {
        proof {
            assert(ev.take(i + 1).drop_last() =~= ev.take(i as int));
            assert(ev.take(i + 1).last() == ev[i as int]);
        }
        match &entries[i].0 {
            YamlScalar::Str(k) => {
                match &entries[i].1 {
                    YamlScalar::Str(s) => {
                        fields.insert(k.clone(), s.clone());
                    },
                    YamlScalar::Number(t) => {
                        fields.insert(k.clone(), t.clone());
                    },
                    YamlScalar::Bool(b) => {
                        if *b {
                            fields.insert(k.clone(), "true".to_owned());
                        } else {
                            fields.insert(k.clone(), "false".to_owned());
                        }
                    },
                    YamlScalar::Other => {},
                }
            },
            _ => {},
        }
        i = i + 1;
    }
    assert(ev.take(entries@.len() as int) =~= ev);
    proof {
        fields.lemma_finite();
    }
    if fields.is_empty() {
        None
    } else {
        Some(DocumentMetadata::new(fields))
    }
}

/// The number of bytes of the lines, without separators.
pub open spec fn bytes_sum(ls: Seq<Seq<char>>) -> nat
    decreases ls.len(),
{
    if ls.len() == 0 {
        0
    } else {
        bytes_sum(ls.drop_last()) + utf8_len(ls.last())
    }
}

/// Whether `c` is the index of the line that closes frontmatter: the first line
/// after the first that is `---` once trimmed.
pub open spec fn is_closing(ls: Seq<Seq<char>>, c: int) -> bool {
    &&& 1 <= c < ls.len()
    &&& trim_ws(ls[c]) == "---"@
    &&& forall|j: int| 1 <= j < c ==> trim_ws(#[trigger] ls[j]) != "---"@
}

/// Where the content after frontmatter closed by line `c` starts, counting each line
/// and one byte for each line break up to and after the closing line.
pub open spec fn frontmatter_end(ls: Seq<Seq<char>>, c: int) -> int {
    bytes_sum(ls.take(c + 1)) + c + if c + 1 < ls.len() { 1int } else { 0int }
}

/// The result of reading frontmatter from `content`: the metadata, the content
/// after the frontmatter, and the byte where that content starts. Content that does
/// not start with `---`, has fewer than two lines, or has no closing `---` line has
/// no frontmatter.
pub open spec fn frontmatter_of(content: Seq<char>) -> (Option<Map<Seq<char>, Seq<char>>>, Seq<char>, int) {
    let ls = lines_of(content);
    if !crate::text::starts_with(content, "---"@) || ls.len() < 2 || !(exists|c: int| is_closing(ls, c)) {
        (None, content, 0)
    } else {
        let c = choose|c: int| is_closing(ls, c);
        (yaml_metadata(join_lines(ls.subrange(1, c))), join_lines(ls.skip(c + 1)), frontmatter_end(ls, c))
    }
}

proof fn lemma_closing_unique(ls: Seq<Seq<char>>, c: int)
    requires
        is_closing(ls, c),
    ensures
        (choose|k: int| is_closing(ls, k)) == c,
{
    let k = choose|k: int| is_closing(ls, k);
    assert(is_closing(ls, k));
    if k < c {
        assert(trim_ws(ls[k]) != "---"@);
    } else if k > c {
        assert(trim_ws(ls[c]) != "---"@);
    }
}

proof fn lemma_utf8_len_push(s: Seq<char>, x: char)
    ensures
        utf8_len(s.push(x)) == utf8_len(s) + utf8_len(seq![x]),
{
    assert(s.push(x) =~= s + seq![x]);
    lemma_encode_concat(s, seq![x]);
}

proof fn lemma_newline_one_byte()
    ensures
        utf8_len(seq!['\n']) == 1,
{
    assert(seq!['\n'].drop_first() =~= Seq::<char>::empty());
    assert(encode_utf8(seq!['\n']) == vstd::utf8::encode_scalar('\n' as u32) + encode_utf8(Seq::<char>::empty()));
}

proof fn lemma_split_bytes(s: Seq<char>)
    ensures
        bytes_sum(split_char(s, '\n')) + split_char(s, '\n').len() == utf8_len(s) + 1,
    decreases s.len(),
{
    lemma_split_char_nonempty(s, '\n');
    let sp = split_char(s, '\n');
    assert(encode_utf8(Seq::<char>::empty()) =~= Seq::<u8>::empty());
    if s.len() == 0 {
        assert(encode_utf8(s) =~= Seq::<u8>::empty());
        assert(sp.drop_last() =~= Seq::<Seq<char>>::empty());
        assert(bytes_sum(sp) == bytes_sum(sp.drop_last()) + utf8_len(sp.last()));
        assert(sp.last() == Seq::<char>::empty());
    } else {
        let p = s.drop_last();
        lemma_split_bytes(p);
        lemma_split_char_nonempty(p, '\n');
        lemma_utf8_len_push(p, s.last());
        assert(p.push(s.last()) =~= s);
        let r = split_char(p, '\n');
        if s.last() == '\n' {
            lemma_newline_one_byte();
            assert(sp == r.push(Seq::<char>::empty()));
            assert(sp.drop_last() =~= r);
            assert(bytes_sum(sp) == bytes_sum(sp.drop_last()) + utf8_len(sp.last()));
        } else {
            assert(sp == r.update(r.len() - 1, r.last().push(s.last())));
            assert(sp.drop_last() =~= r.drop_last());
            assert(sp.last() == r.last().push(s.last()));
            assert(bytes_sum(sp) == bytes_sum(sp.drop_last()) + utf8_len(sp.last()));
            assert(bytes_sum(r) == bytes_sum(r.drop_last()) + utf8_len(r.last()));
            lemma_utf8_len_push(r.last(), s.last());
        }
    }
}

proof fn lemma_strip_bytes(ps: Seq<Seq<char>>)
    ensures
        bytes_sum(ps.map_values(|p: Seq<char>| strip_cr(p))) <= bytes_sum(ps),
    decreases ps.len(),
{
    if ps.len() > 0 {
        lemma_strip_bytes(ps.drop_last());
        assert(ps.map_values(|p: Seq<char>| strip_cr(p)).drop_last() =~= ps.drop_last().map_values(|p: Seq<char>| strip_cr(p)));
        let l = ps.last();
        if l.len() > 0 && l.last() == '\r' {
            lemma_utf8_len_push(l.drop_last(), '\r');
            assert(l.drop_last().push('\r') =~= l);
        }
    }
}

proof fn lemma_bytes_take(ls: Seq<Seq<char>>, k: int)
    requires
        0 <= k <= ls.len(),
    ensures
        bytes_sum(ls.take(k)) <= bytes_sum(ls),
    decreases ls.len() - k,
{
    if k < ls.len() {
        lemma_bytes_take(ls, k + 1);
        assert(ls.take(k + 1).drop_last() =~= ls.take(k));
    } else {
        assert(ls.take(k) =~= ls);
    }
}

/// The lines of a text take no more bytes, with one byte per line break, than the
/// text and one more.
proof fn lemma_lines_bytes(s: Seq<char>)
    ensures
        bytes_sum(lines_of(s)) + lines_of(s).len() <= utf8_len(s) + 1,
{
    let ps = split_char(s, '\n');
    lemma_split_char_nonempty(s, '\n');
    lemma_split_bytes(s);
    lemma_strip_bytes(ps.drop_last());
    assert(ps == ps.drop_last().push(ps.last()));
    let body = ps.drop_last().map_values(|p: Seq<char>| strip_cr(p));
    if ps.last().len() != 0 {
        assert(lines_of(s).drop_last() =~= body);
    }
}

/// Parse YAML frontmatter from markdown content: the metadata, the content after the
/// frontmatter, and the byte where it starts. Content without frontmatter is handed
/// back whole, from byte 0.
pub fn parse_frontmatter(content: &str) -> (r: HyperlitResult<(Option<DocumentMetadata>, String, usize)>)
    requires
        utf8_len(content@) < usize::MAX,
    ensures
        r matches Ok(t) && ({
            let f = frontmatter_of(content@);
            &&& t.1@ == f.1
            &&& t.2 == f.2
            &&& match t.0 {
                Some(m) => f.0 == Some(m@),
                None => f.0 is None,
            }
        }),
{
    if !crate::text::str_starts_with(content, "---") {
        return Ok((None, content.to_owned(), 0));
    }
    let ls = lines(content);
    let ghost lv = ls@.map_values(|p: String| p@);
    let n = ls.len();
    if n < 2 {
        return Ok((None, content.to_owned(), 0));
    }
    let mut closing: usize = 1;
    let mut found = false;
    while closing < n
        invariant_except_break
            !found,
        invariant
            1 <= closing <= n,
            n == ls@.len(),
            lv == ls@.map_values(|p: String| p@),
            lv == lines_of(content@),
            forall|j: int| 1 <= j < closing ==> trim_ws(#[trigger] lv[j]) != "---"@,
        ensures
            1 <= closing <= n,
            found ==> closing < n && trim_ws(lv[closing as int]) == "---"@,
            !found ==> closing == n,
            forall|j: int| 1 <= j < closing ==> trim_ws(#[trigger] lv[j]) != "---"@,
        decreases n - closing,
    {
        let t = str_trim(ls[closing].as_str());
        if crate::http::str_eq(t.as_str(), "---") {
            found = true;
            break;
        }
        closing = closing + 1;
    }
    if !found {
        proof {
            if exists|c: int| is_closing(lv, c) {
                let c = choose|c: int| is_closing(lv, c);
                assert(trim_ws(lv[c]) != "---"@);
            }
        }
        return Ok((None, content.to_owned(), 0));
    }
    proof {
        assert(is_closing(lv, closing as int));
        lemma_closing_unique(lv, closing as int);
    }
    let frontmatter = join_range(&ls, 1, closing);
    let metadata = metadata_from_yaml(frontmatter.as_str());
    proof {
        lemma_lines_bytes(content@);
        lemma_bytes_take(lv, closing + 1);
    }
    let mut end: usize = 0;
    let mut i: usize = 0;
    assert(lv.take(0) =~= Seq::<Seq<char>>::empty());
    while i < closing
        invariant
            i <= closing < n,
            n == ls@.len(),
            lv == ls@.map_values(|p: String| p@),
            bytes_sum(lv) + lv.len() <= utf8_len(content@) + 1,
            utf8_len(content@) < usize::MAX,
            end == bytes_sum(lv.take(i as int)) + i,
        decreases closing - i,
    {
        proof {
            assert(lv.take(i + 1).drop_last() =~= lv.take(i as int));
            lemma_bytes_take(lv, i + 1);
        }
        end = end + ls[i].as_str().len() + 1;
        i = i + 1;
    }
    proof {
        assert(lv.take(closing + 1).drop_last() =~= lv.take(closing as int));
    }
    end = end + ls[closing].as_str().len();
    if closing + 1 < n {
        end = end + 1;
    }
    let rest = if closing + 1 < n {
        join_range(&ls, closing + 1, n)
    } else {
        String::new()
    };
    proof {
        assert(lv.subrange(closing + 1, n as int) =~= lv.skip(closing + 1));
        if closing + 1 >= n {
            assert(lv.skip(closing + 1) =~= Seq::<Seq<char>>::empty());
        }
    }
    Ok((metadata, rest, end))
}


/// The pattern of a first-level markdown heading: `#`, whitespace, then the title.
pub open spec fn heading_pattern() -> Seq<char> {
    "^#\\s+(.+)$"@
}

/// What the first capture group of the regular expression `pattern` matches in
/// `text`, through the `regex` crate (`None` if the pattern is invalid, does not
/// match, or the group takes no part).
pub uninterp spec fn regex_group1_of(pattern: Seq<char>, text: Seq<char>) -> Option<Seq<char>>;

/// Trusted: compiles `pattern` with `regex::Regex::new` and takes the first group of
/// `Regex::captures` on `text`; the result is named, not described.
#[verifier::external_body]
fn regex_group1(pattern: &str, text: &str) -> (r: Option<String>)
    ensures
        match r {
            Some(g) => regex_group1_of(pattern@, text@) == Some(g@),
            None => regex_group1_of(pattern@, text@) is None,
        },
{
    let re = regex::Regex::new(pattern).ok()?;
    re.captures(text)?.get(1).map(|m| m.as_str().to_owned())
}

/// The title of a heading line's text: what comes before its first `#` (trailing
/// tags), trimmed.
pub open spec fn heading_title(g: Seq<char>) -> Seq<char> {
    trim_ws(split_char(g, '#')[0])
}

/// The title of the first first-level heading among the lines `ls`.
pub open spec fn first_heading_in(ls: Seq<Seq<char>>) -> Option<Seq<char>>
    decreases ls.len(),
{
    if ls.len() == 0 {
        None
    } else {
        match regex_group1_of(heading_pattern(), ls[0]) {
            Some(g) => Some(heading_title(g)),
            None => first_heading_in(ls.drop_first()),
        }
    }
}

proof fn lemma_first_heading_skip(ls: Seq<Seq<char>>, i: int)
    requires
        0 <= i <= ls.len(),
        forall|j: int| 0 <= j < i ==> regex_group1_of(heading_pattern(), #[trigger] ls[j]) is None,
    ensures
        first_heading_in(ls) == first_heading_in(ls.skip(i)),
    decreases i,
{
    if i > 0 {
        assert(regex_group1_of(heading_pattern(), ls[0]) is None);
        assert(ls.drop_first().skip(i - 1) =~= ls.skip(i));
        assert forall|j: int| 0 <= j < i - 1 implies regex_group1_of(heading_pattern(), #[trigger] ls.drop_first()[j]) is None by {
            assert(ls.drop_first()[j] == ls[j + 1]);
        }
        lemma_first_heading_skip(ls.drop_first(), i - 1);
    } else {
        assert(ls.skip(0) =~= ls);
    }
}

/// Extract the title of the first first-level (`# `) heading of markdown content,
/// without trailing `#` tags.
pub fn extract_first_heading(content: &str) -> (r: Option<String>)
    ensures
        match r {
            Some(t) => first_heading_in(lines_of(content@)) == Some(t@),
            None => first_heading_in(lines_of(content@)) is None,
        },
{
    let ls = lines(content);
    let ghost lv = ls@.map_values(|p: String| p@);
    let mut i: usize = 0;
    while i < ls.len()
        invariant
            i <= ls@.len(),
            lv == ls@.map_values(|p: String| p@),
            lv == lines_of(content@),
            forall|j: int| 0 <= j < i ==> regex_group1_of(heading_pattern(), #[trigger] lv[j]) is None,
        decreases ls.len() - i,
    {
        match regex_group1(r"^#\s+(.+)$", ls[i].as_str()) {
            Some(g) => {
                let parts = crate::text::split_on(g.as_str(), '#');
                proof {
                    lemma_split_char_nonempty(g@, '#');
                    lemma_first_heading_skip(lv, i as int);
                    assert(lv.skip(i as int)[0] == lv[i as int]);
                }
                let t = str_trim(parts[0].as_str());
                return Some(t);
            },
            None => {},
        }
        i = i + 1;
    }
    proof {
        lemma_first_heading_skip(lv, lv.len() as int);
        assert(lv.skip(lv.len() as int) =~= Seq::<Seq<char>>::empty());
    }
    None
}

/// The title of a markdown document: the `title` field of its metadata, else its
/// first heading, else the file name without extension, else `Untitled`.
pub open spec fn title_of(content: Seq<char>, metadata: Option<Map<Seq<char>, Seq<char>>>, path: Seq<char>) -> Seq<char> {
    if metadata is Some && metadata->0.contains_key("title"@) {
        metadata->0["title"@]
    } else {
        match first_heading_in(lines_of(content)) {
            Some(h) => h,
            None => match file_stem_of(path) {
                Some(s) => s,
                None => "Untitled"@,
            },
        }
    }
}

/// The views of optional metadata.
pub open spec fn metadata_view(m: Option<DocumentMetadata>) -> Option<Map<Seq<char>, Seq<char>>> {
    match m {
        Some(md) => Some(md@),
        None => None,
    }
}

/// Extract the title from markdown content or metadata.
pub fn extract_title(content: &str, metadata: &Option<DocumentMetadata>, file_path: &FilePath) -> (r: HyperlitResult<String>)
    ensures
        r matches Ok(t) && t@ == title_of(content@, metadata_view(*metadata), file_path@),
{
    match metadata {
        Some(meta) => {
            match meta.get("title") {
                Some(t) => {
                    return Ok(t.to_owned());
                },
                None => {},
            }
        },
        None => {},
    }
    match extract_first_heading(content) {
        Some(t) => {
            return Ok(t);
        },
        None => {},
    }
    match file_path.file_stem() {
        Some(s) => Ok(s),
        None => Ok("Untitled".to_owned()),
    }
}

/// Whether `d` is the document that extraction makes of the markdown file `path` with
/// content `content` (its identifier aside).
pub open spec fn extracted_from(d: Document, path: Seq<char>, content: Seq<char>) -> bool {
    let f = frontmatter_of(content);
    &&& d.spec_title() == title_of(f.1, f.0, path)
    &&& d.spec_content() == f.1
    &&& d.spec_metadata() == f.0
    &&& d.spec_source().spec_source_type() == SourceType::MarkdownFile
    &&& d.spec_source().spec_file_path() == path
    &&& d.spec_source().spec_line_number() == 1
    &&& d.spec_source().spec_byte_range() matches Some(b) && b.spec_start() == f.2 && b.spec_end() == utf8_len(content)
}

/// Extract a markdown document from the content of its file, avoiding the IDs in
/// `existing_ids`.
pub fn extract_markdown_document(file_path: &FilePath, content: &str, existing_ids: &StringSet) -> (r: HyperlitResult<Document>)
    requires
        utf8_len(content@) < usize::MAX,
    ensures
        r matches Ok(d) && extracted_from(d, file_path@, content@)
            && first_free_candidate(slug(d.spec_title()), existing_ids@, d.spec_id()),
{
    let (metadata, content_without_frontmatter, frontmatter_end_byte) = match parse_frontmatter(content) {
        Ok(t) => t,
        Err(e) => {
            return Err(e);
        },
    };
    let title = match extract_title(content_without_frontmatter.as_str(), &metadata, file_path) {
        Ok(t) => t,
        Err(e) => {
            return Err(e);
        },
    };
    let byte_range = ByteRange::new(frontmatter_end_byte, content.len());
    let source = DocumentSource::new(SourceType::MarkdownFile, file_path.clone(), 1).with_byte_range(byte_range);
    Ok(Document::new(title, content_without_frontmatter, source, metadata, existing_ids))
}

/// An error met while extracting a file.
#[derive(Debug)]
pub struct ExtractionError {
    /// File path that failed to extract
    pub file_path: FilePath,
    /// The error that occurred
    pub error: Box<HyperlitError>,
}

/// The documents extracted from a batch of files, and the errors met on the way.
#[derive(Debug)]
pub struct ExtractionResult {
    /// Successfully extracted documents
    pub documents: Vec<Document>,
    /// Errors encountered during extraction (non-fatal)
    pub errors: Vec<ExtractionError>,
}

/// The files of a batch that could be read, with their content.
pub open spec fn read_files(fs: Seq<(FilePath, HyperlitResult<String>)>) -> Seq<(Seq<char>, Seq<char>)>
    decreases fs.len(),
{
    if fs.len() == 0 {
        Seq::empty()
    } else {
        let r = read_files(fs.drop_last());
        match fs.last().1 {
            Ok(c) => r.push((fs.last().0@, c@)),
            Err(_) => r,
        }
    }
}

/// The files of a batch that could not be read.
pub open spec fn unread_files(fs: Seq<(FilePath, HyperlitResult<String>)>) -> Seq<Seq<char>>
    decreases fs.len(),
{
    if fs.len() == 0 {
        Seq::empty()
    } else {
        let r = unread_files(fs.drop_last());
        match fs.last().1 {
            Ok(_) => r,
            Err(_) => r.push(fs.last().0@),
        }
    }
}

/// The IDs of a sequence of documents.
pub open spec fn doc_id_seq(ds: Seq<Document>) -> Seq<Seq<char>> {
    ds.map_values(|d: Document| d.spec_id())
}

/// Whether `ds` are the documents extracted from the readable files `rf`, in order,
/// each with the first free ID given the IDs of those before it.
pub open spec fn batch_documents(ds: Seq<Document>, rf: Seq<(Seq<char>, Seq<char>)>) -> bool {
    &&& ds.len() == rf.len()
    &&& forall|i: int| 0 <= i < ds.len() ==> #[trigger] extracted_from(ds[i], rf[i].0, rf[i].1)
    &&& forall|i: int| 0 <= i < ds.len() ==> first_free_candidate(slug(ds[i].spec_title()),
            doc_id_seq(ds.take(i)).to_set(), #[trigger] ds[i].spec_id())
}

/// Whether every file of the batch fits the byte offsets of a `usize`.
pub open spec fn batch_fits(fs: Seq<(FilePath, HyperlitResult<String>)>) -> bool {
    forall|i: int| 0 <= i < fs.len() ==> ((#[trigger] fs[i]).1 matches Ok(c) ==> utf8_len(c@) < usize::MAX)
}

/// Extract documents from a batch of files, each given with the result of reading it.
/// Extraction goes on past files that could not be read; each of those gives an
/// error, in order.
pub fn extract_documents(files: Vec<(FilePath, HyperlitResult<String>)>) -> (r: HyperlitResult<ExtractionResult>)
    requires
        batch_fits(files@),
    ensures
        r matches Ok(res) && batch_documents(res.documents@, read_files(files@))
            && res.errors@.map_values(|e: ExtractionError| e.file_path@) == unread_files(files@),
{
    let ghost fs = files@;
    let mut documents: Vec<Document> = Vec::new();
    let mut errors: Vec<ExtractionError> = Vec::new();
    let mut existing_ids = StringSet::new();
    let mut files = files;
    let ghost n = fs.len();
    assert(fs.skip(0) =~= fs);
    assert(fs.take(0) =~= Seq::<(FilePath, HyperlitResult<String>)>::empty());
    assert(doc_id_seq(documents@) =~= Seq::<Seq<char>>::empty());
    while files.len() > 0
        invariant
            files@.len() <= n,
            n == fs.len(),
            batch_fits(fs),
            files@ == fs.skip(n - files@.len()),
            batch_documents(documents@, read_files(fs.take(n - files@.len()))),
            errors@.map_values(|e: ExtractionError| e.file_path@) == unread_files(fs.take(n - files@.len())),
            existing_ids@ == doc_id_seq(documents@).to_set(),
        decreases files@.len(),
    {
        let ghost k = n - files@.len();
        let (file_path, read) = files.remove(0);
        proof {
            assert(fs.skip(k)[0] == fs[k]);
            assert(fs.skip(k).drop_first() =~= fs.skip(k + 1));
            assert(fs[k] == (file_path, read));
            assert(fs.take(k + 1).drop_last() =~= fs.take(k));
            assert(fs.take(k + 1).last() == fs[k]);
        }
        let ghost old_docs = documents@;
        let ghost old_errs = errors@.map_values(|e: ExtractionError| e.file_path@);
        match read {
            Ok(content) => {
                assert(utf8_len(content@) < usize::MAX) by {
                    assert(fs[k].1 matches Ok(c) && utf8_len(c@) < usize::MAX);
                }
                match extract_markdown_document(&file_path, content.as_str(), &existing_ids) {
                    Ok(doc) => {
                        existing_ids.insert(doc.id().as_str().to_owned());
                        documents.push(doc);
                        proof {
                            let rf = read_files(fs.take(k + 1));
                            assert(rf == read_files(fs.take(k)).push((file_path@, content@)));
                            assert(documents@.take(old_docs.len() as int) =~= old_docs);
                            assert(doc_id_seq(documents@) =~= doc_id_seq(old_docs).push(doc.spec_id()));
                            doc_id_seq(old_docs).lemma_push_to_set_commute(doc.spec_id());
                            assert forall|i: int| 0 <= i < documents@.len() implies first_free_candidate(slug(documents@[i].spec_title()),
                                doc_id_seq(documents@.take(i)).to_set(), #[trigger] documents@[i].spec_id()) by {
                                if i < old_docs.len() {
                                    assert(documents@.take(i) =~= old_docs.take(i));
                                    assert(documents@[i] == old_docs[i]);
                                }
                            }
                            assert forall|i: int| 0 <= i < documents@.len() implies #[trigger] extracted_from(documents@[i], rf[i].0, rf[i].1) by {
                                if i < old_docs.len() {
                                    assert(documents@[i] == old_docs[i]);
                                }
                            }
                        }
                    },
                    Err(e) => {
                        proof {
                            assert(false);
                        }
                        errors.push(ExtractionError { file_path, error: e });
                    },
                }
                proof {
                    assert(unread_files(fs.take(k + 1)) == unread_files(fs.take(k)));
                }
            },
            Err(e) => {
                errors.push(ExtractionError { file_path, error: e });
                proof {
                    assert(read_files(fs.take(k + 1)) == read_files(fs.take(k)));
                    assert(errors@.map_values(|e: ExtractionError| e.file_path@) =~= old_errs.push(fs[k].0@));
                }
            },
        }
    }
    assert(fs.take(n as int) =~= fs);
    Ok(ExtractionResult { documents, errors })
}

/// Law: the documents of a batch have pairwise distinct IDs.
pub proof fn lemma_batch_ids_distinct(ds: Seq<Document>, rf: Seq<(Seq<char>, Seq<char>)>)
    requires
        batch_documents(ds, rf),
    ensures
        forall|i: int, j: int| 0 <= i < j < ds.len() ==> ds[i].spec_id() != ds[j].spec_id(),
{
    assert forall|i: int, j: int| 0 <= i < j < ds.len() implies ds[i].spec_id() != ds[j].spec_id() by {
        assert(first_free_candidate(slug(ds[j].spec_title()), doc_id_seq(ds.take(j)).to_set(), ds[j].spec_id()));
        assert(doc_id_seq(ds.take(j))[i] == ds[i].spec_id());
        assert(doc_id_seq(ds.take(j)).to_set().contains(ds[i].spec_id()));
    }
}

} // verus!
