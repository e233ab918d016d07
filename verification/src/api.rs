//! The HTTP API of a documentation site: site information, documents, search, and
//! static UI assets read from a zip archive appended to the program.
use vstd::prelude::*;
use vstd::utf8::encode_utf8;
use std::io::{Cursor, Read};
use crate::document::{Document, DocumentId, DocumentSource, SourceType};
use crate::error::{HyperlitError, HyperlitResult};
use crate::http::{HttpBody, HttpMethod, HttpRequest, HttpResponse, HttpService, HttpStatusCode, body_bytes};
use crate::search::{MatchType, SearchResult, SimpleSearch, search_results, doc_views, result_views};
use crate::store::{DocumentStore, lists};
use crate::text::{
    decimal, ends_with, lowercase_of, push_decimal, push_str, split_char, split_on,
    starts_with, str_ends_with, str_starts_with, to_lowercase, lemma_split_char_nonempty,
};

verus! {

/// A hexadecimal digit, in lower case.
pub open spec fn hex_digit(n: u32) -> char {
    if n < 10 {
        (48 + n) as char
    } else {
        (87 + n) as char
    }
}

/// How `serde_json` writes one character of a string: quote, backslash, backspace,
/// tab, line feed, form feed and carriage return by their short escapes, the other
/// control characters below U+0020 as `\u00` and two hex digits, every other
/// character as itself.
pub open spec fn json_escape_char(c: char) -> Seq<char> {
    let u = c as u32;
    if c == '"' {
        seq!['\\', '"']
    } else if c == '\\' {
        seq!['\\', '\\']
    } else if u == 0x08 {
        seq!['\\', 'b']
    } else if c == '\t' {
        seq!['\\', 't']
    } else if c == '\n' {
        seq!['\\', 'n']
    } else if u == 0x0C {
        seq!['\\', 'f']
    } else if c == '\r' {
        seq!['\\', 'r']
    } else if u < 0x20 {
        seq!['\\', 'u', '0', '0', hex_digit(u / 16), hex_digit(u % 16)]
    } else {
        seq![c]
    }
}

/// The characters of a string as `serde_json` escapes them.
pub open spec fn json_escaped(s: Seq<char>) -> Seq<char>
    decreases s.len(),
{
    if s.len() == 0 {
        Seq::empty()
    } else {
        json_escaped(s.drop_last()) + json_escape_char(s.last())
    }
}

/// What `serde_json::to_string` gives for a string with the characters `s`: the
/// escaped characters between double quotes.
pub open spec fn json_string_of(s: Seq<char>) -> Seq<char> {
    seq!['"'] + json_escaped(s) + seq!['"']
}

/// Trusted: calls `serde_json::to_string` on a string slice (which cannot fail: the
/// error arm is never taken); the result is the quoted, escaped string.
#[verifier::external_body]
fn json_quote(s: &str) -> (r: String)
    ensures
        r@ == json_string_of(s@),
{
    match serde_json::to_string(s) {
        Ok(j) => j,
        Err(_) => String::new(),
    }
}

/// Information about the documentation site.
#[derive(Debug, Clone)]
pub struct SiteInfo {
    /// The site title
    pub title: String,
    /// Optional site description
    pub description: Option<String>,
    /// Optional site version
    pub version: Option<String>,
}

/// The characters of an optional string.
pub open spec fn opt_view(o: Option<String>) -> Option<Seq<char>> {
    match o {
        Some(s) => Some(s@),
        None => None,
    }
}

impl SiteInfo {
    /// Create site info with just a title.
    pub fn new(title: &str) -> (s: Self)
        ensures
            s.title@ == title@,
            s.description is None,
            s.version is None,
    {
        SiteInfo { title: title.to_owned(), description: None, version: None }
    }

    /// Set the site description.
    pub fn with_description(self, description: &str) -> (s: Self)
        ensures
            s.title == self.title,
            opt_view(s.description) == Some(description@),
            s.version == self.version,
    {
        let mut s = self;
        s.description = Some(description.to_owned());
        s
    }

    /// Set the site version.
    pub fn with_version(self, version: &str) -> (s: Self)
        ensures
            s.title == self.title,
            s.description == self.description,
            opt_view(s.version) == Some(version@),
    {
        let mut s = self;
        s.version = Some(version.to_owned());
        s
    }
}

/// `,"name":"value"` for a present field, nothing for an absent one.
pub open spec fn opt_json_field(key: Seq<char>, v: Option<Seq<char>>) -> Seq<char> {
    match v {
        Some(x) => key + json_string_of(x),
        None => Seq::empty(),
    }
}

/// The JSON text of the site information.
pub open spec fn site_json(s: SiteInfo) -> Seq<char> {
    "{\"title\":"@ + json_string_of(s.title@) + opt_json_field(",\"description\":"@, opt_view(s.description))
        + opt_json_field(",\"version\":"@, opt_view(s.version)) + "}"@
}

/// The name of a source type in the API.
pub open spec fn source_type_json(t: SourceType) -> Seq<char> {
    match t {
        SourceType::CodeComment => "\"code_comment\""@,
        SourceType::MarkdownFile => "\"markdown_file\""@,
    }
}

/// The JSON text of a document source.
pub open spec fn source_json(s: DocumentSource) -> Seq<char> {
    "{\"type\":"@ + source_type_json(s.spec_source_type()) + ",\"file_path\":"@
        + json_string_of(s.spec_file_path()) + ",\"line_number\":"@ + decimal(s.spec_line_number() as nat)
        + match s.spec_byte_range() {
        Some(b) => ",\"byte_range\":{\"start\":"@ + decimal(b.spec_start() as nat) + ",\"end\":"@
            + decimal(b.spec_end() as nat) + "}"@,
        None => Seq::empty(),
    } + "}"@
}

/// The JSON members of a list of (key, value) pairs, separated by commas.
pub open spec fn pairs_json(e: Seq<(Seq<char>, Seq<char>)>) -> Seq<char>
    decreases e.len(),
{
    if e.len() == 0 {
        Seq::empty()
    } else {
        let head = json_string_of(e.last().0) + ":"@ + json_string_of(e.last().1);
        if e.len() == 1 {
            head
        } else {
            pairs_json(e.drop_last()) + ","@ + head
        }
    }
}

/// The JSON text of a document.
pub open spec fn document_json(d: Document) -> Seq<char> {
    "{\"id\":"@ + json_string_of(d.spec_id()) + ",\"title\":"@ + json_string_of(d.spec_title())
        + ",\"content\":"@ + json_string_of(d.spec_content()) + ",\"source\":"@ + source_json(d.spec_source())
        + match d.spec_metadata_entries() {
        Some(e) => ",\"metadata\":{"@ + pairs_json(e) + "}"@,
        None => Seq::empty(),
    } + "}"@
}

/// The JSON texts of documents, separated by commas.
pub open spec fn documents_items_json(ds: Seq<Document>) -> Seq<char>
    decreases ds.len(),
{
    if ds.len() == 0 {
        Seq::empty()
    } else if ds.len() == 1 {
        document_json(ds[0])
    } else {
        documents_items_json(ds.drop_last()) + ","@ + document_json(ds.last())
    }
}

/// The JSON text of a list of documents.
pub open spec fn documents_json(ds: Seq<Document>) -> Seq<char> {
    "["@ + documents_items_json(ds) + "]"@
}

/// The API name of a match type, as a JSON string.
pub open spec fn match_type_json(m: MatchType) -> Seq<char> {
    match m {
        MatchType::Title => "\"title\""@,
        MatchType::Content => "\"content\""@,
        MatchType::Both => "\"both\""@,
    }
}

/// The JSON text of one search result.
pub open spec fn result_json(r: SearchResult) -> Seq<char> {
    "{\"document\":"@ + document_json(r.document) + ",\"score\":"@ + decimal(r.score as nat)
        + ",\"match_type\":"@ + match_type_json(r.match_type) + "}"@
}

/// The JSON texts of search results, separated by commas.
pub open spec fn results_items_json(rs: Seq<SearchResult>) -> Seq<char>
    decreases rs.len(),
{
    if rs.len() == 0 {
        Seq::empty()
    } else if rs.len() == 1 {
        result_json(rs[0])
    } else {
        results_items_json(rs.drop_last()) + ","@ + result_json(rs.last())
    }
}

/// The JSON text of a search response.
pub open spec fn search_json(query: Seq<char>, rs: Seq<SearchResult>) -> Seq<char> {
    "{\"query\":"@ + json_string_of(query) + ",\"results\":["@ + results_items_json(rs) + "]}"@
}

/// Appends the JSON text of the site information.
pub fn write_site_json(out: &mut String, s: &SiteInfo)
    ensures
        final(out)@ == old(out)@ + site_json(*s),
{
    let ghost start = out@;
    push_str(out, "{\"title\":");
    let t = json_quote(s.title.as_str());
    push_str(out, t.as_str());
    match &s.description {
        Some(d) => {
            push_str(out, ",\"description\":");
            let q = json_quote(d.as_str());
            push_str(out, q.as_str());
        },
        None => {},
    }
    match &s.version {
        Some(v) => {
            push_str(out, ",\"version\":");
            let q = json_quote(v.as_str());
            push_str(out, q.as_str());
        },
        None => {},
    }
    push_str(out, "}");
    assert(out@ =~= start + site_json(*s));
}

/// Appends the JSON text of a document source.
pub fn write_source_json(out: &mut String, s: &DocumentSource)
    ensures
        final(out)@ == old(out)@ + source_json(*s),
{
    let ghost start = out@;
    if s.is_code_comment() {
        push_str(out, "{\"type\":\"code_comment\"");
    } else {
        push_str(out, "{\"type\":\"markdown_file\"");
    }
    push_str(out, ",\"file_path\":");
    let p = json_quote(s.file_path().as_str());
    push_str(out, p.as_str());
    push_str(out, ",\"line_number\":");
    push_decimal(out, s.line_number() as u128);
    let ghost mid = out@;
    match s.byte_range() {
        Some(b) => {
            push_str(out, ",\"byte_range\":{\"start\":");
            push_decimal(out, b.start() as u128);
            push_str(out, ",\"end\":");
            push_decimal(out, b.end() as u128);
            push_str(out, "}");
        },
        None => {},
    }
    push_str(out, "}");
    proof {
        reveal_strlit("{\"type\":\"code_comment\"");
        reveal_strlit("{\"type\":\"markdown_file\"");
        reveal_strlit("{\"type\":");
        reveal_strlit("\"code_comment\"");
        reveal_strlit("\"markdown_file\"");
    }
    assert(out@ =~= start + source_json(*s));
}

/// Appends the JSON text of a document.
#[verifier::spinoff_prover]
#[verifier::rlimit(40)]
pub fn write_document_json(out: &mut String, d: &Document)
    ensures
        final(out)@ == old(out)@ + document_json(*d),
{
    let ghost start = out@;
    push_str(out, "{\"id\":");
    let q = json_quote(d.id().as_str());
    push_str(out, q.as_str());
    push_str(out, ",\"title\":");
    let q = json_quote(d.title());
    push_str(out, q.as_str());
    push_str(out, ",\"content\":");
    let q = json_quote(d.content());
    push_str(out, q.as_str());
    push_str(out, ",\"source\":");
    write_source_json(out, d.source());
    let ghost mid = out@;
    match d.metadata() {
        Some(m) => {
            push_str(out, ",\"metadata\":{");
            let e = m.iter();
            let ghost pv = crate::document::pair_views(e@);
            let ghost before = out@;
            let mut i: usize = 0;
            while i < e.len()
                invariant
                    i <= e@.len(),
                    pv == crate::document::pair_views(e@),
                    out@ == before + pairs_json(pv.take(i as int)),
                decreases e.len() - i,
            {
                proof {
                    assert(pv.take(i + 1).drop_last() =~= pv.take(i as int));
                    assert(pv.take(i + 1).last() == pv[i as int]);
                }
                if i > 0 {
                    push_str(out, ",");
                }
                let k = json_quote(e[i].0.as_str());
                push_str(out, k.as_str());
                push_str(out, ":");
                let v = json_quote(e[i].1.as_str());
                push_str(out, v.as_str());
                i = i + 1;
                proof {
                    assert(pv[i - 1] == (e@[i - 1].0@, e@[i - 1].1@));
                    if i == 1 {
                        assert(pv.take(0) =~= Seq::<(Seq<char>, Seq<char>)>::empty());
                    }
                }
                assert(out@ =~= before + pairs_json(pv.take(i as int)));
            }
            assert(pv.take(e@.len() as int) =~= pv);
            push_str(out, "}");
        },
        None => {},
    }
    push_str(out, "}");
    assert(out@ =~= start + document_json(*d));
}

/// The JSON text of a list of documents.
pub fn documents_to_json(ds: &[Document]) -> (s: String)
    ensures
        s@ == documents_json(ds@),
{
    let mut out = String::new();
    push_str(&mut out, "[");
    let ghost before = out@;
    let mut i: usize = 0;
    assert(ds@.take(0) =~= Seq::<Document>::empty());
    while i < ds.len()
        invariant
            i <= ds@.len(),
            out@ == before + documents_items_json(ds@.take(i as int)),
        decreases ds.len() - i,
    {
        proof {
            assert(ds@.take(i + 1).drop_last() =~= ds@.take(i as int));
            assert(ds@.take(i + 1).last() == ds@[i as int]);
            if i == 0 {
                assert(ds@.take(1)[0] == ds@[0]);
            }
        }
        if i > 0 {
            push_str(&mut out, ",");
        }
        write_document_json(&mut out, &ds[i]);
        i = i + 1;
        assert(out@ =~= before + documents_items_json(ds@.take(i as int)));
    }
    assert(ds@.take(ds@.len() as int) =~= ds@);
    push_str(&mut out, "]");
    assert(out@ =~= documents_json(ds@));
    out
}

/// Appends the JSON text of one search result.
pub fn write_result_json(out: &mut String, r: &SearchResult)
    ensures
        final(out)@ == old(out)@ + result_json(*r),
{
    let ghost start = out@;
    push_str(out, "{\"document\":");
    write_document_json(out, &r.document);
    push_str(out, ",\"score\":");
    push_decimal(out, r.score as u128);
    match r.match_type {
        MatchType::Title => push_str(out, ",\"match_type\":\"title\"}"),
        MatchType::Content => push_str(out, ",\"match_type\":\"content\"}"),
        MatchType::Both => push_str(out, ",\"match_type\":\"both\"}"),
    }
    proof {
        reveal_strlit(",\"match_type\":\"title\"}");
        reveal_strlit(",\"match_type\":\"content\"}");
        reveal_strlit(",\"match_type\":\"both\"}");
        reveal_strlit(",\"match_type\":");
        reveal_strlit("\"title\"");
        reveal_strlit("\"content\"");
        reveal_strlit("\"both\"");
        reveal_strlit("}");
    }
    assert(out@ =~= start + result_json(*r));
}

/// The JSON text of a search response.
pub fn search_to_json(query: &str, rs: &[SearchResult]) -> (s: String)
    ensures
        s@ == search_json(query@, rs@),
{
    let mut out = String::new();
    push_str(&mut out, "{\"query\":");
    let q = json_quote(query);
    push_str(&mut out, q.as_str());
    push_str(&mut out, ",\"results\":[");
    let ghost before = out@;
    let mut i: usize = 0;
    assert(rs@.take(0) =~= Seq::<SearchResult>::empty());
    while i < rs.len()
        invariant
            i <= rs@.len(),
            out@ == before + results_items_json(rs@.take(i as int)),
        decreases rs.len() - i,
    {
        proof {
            assert(rs@.take(i + 1).drop_last() =~= rs@.take(i as int));
            assert(rs@.take(i + 1).last() == rs@[i as int]);
            if i == 0 {
                assert(rs@.take(1)[0] == rs@[0]);
            }
        }
        if i > 0 {
            push_str(&mut out, ",");
        }
        write_result_json(&mut out, &rs[i]);
        i = i + 1;
        assert(out@ =~= before + results_items_json(rs@.take(i as int)));
    }
    assert(rs@.take(rs@.len() as int) =~= rs@);
    push_str(&mut out, "]}");
    assert(out@ =~= search_json(query@, rs@));
    out
}


/// What the zip archive `archive` holds under the name `name`, read through
/// `zip::ZipArchive` (`None` if the archive cannot be read or has no such entry).
pub uninterp spec fn zip_entry_of(archive: Seq<u8>, name: Seq<char>) -> Option<Seq<u8>>;

/// Trusted: opens `archive` with `zip::ZipArchive::new`, finds the entry with
/// `ZipArchive::by_name` and reads it whole; the result is named, not described.
#[verifier::external_body]
fn zip_entry(archive: &[u8], name: &str) -> (r: Option<Vec<u8>>)
    ensures
        match r {
            Some(v) => zip_entry_of(archive@, name@) == Some(v@),
            None => zip_entry_of(archive@, name@) is None,
        },
{
    let mut zip = zip::ZipArchive::new(Cursor::new(archive)).ok()?;
    let mut file = zip.by_name(name).ok()?;
    let mut content = Vec::new();
    file.read_to_end(&mut content).ok()?;
    Some(content)
}

/// Whether `sig` occurs in `data` at position `i`.
pub open spec fn signature_at(data: Seq<u8>, sig: Seq<u8>, i: int) -> bool {
    0 <= i && i + sig.len() <= data.len() && data.subrange(i, i + sig.len()) == sig
}

/// Whether `r` is the last position of `sig` in `data` (`None`: it does not occur).
pub open spec fn last_signature(data: Seq<u8>, sig: Seq<u8>, r: Option<usize>) -> bool {
    match r {
        Some(i) => signature_at(data, sig, i as int) && forall|j: int| i < j ==> !#[trigger] signature_at(data, sig, j),
        None => forall|j: int| !#[trigger] signature_at(data, sig, j),
    }
}

/// The signature of the end-of-central-directory record of a zip archive.
pub open spec fn eocd_signature() -> Seq<u8> {
    seq![0x50u8, 0x4Bu8, 0x05u8, 0x06u8]
}

/// The name looked up in the archive for a request path: the path without one
/// leading slash, or `index.html` for the root.
pub open spec fn asset_name(path: Seq<char>) -> Seq<char> {
    let n = if path.len() > 0 && path[0] == '/' { path.drop_first() } else { path };
    if n.len() == 0 {
        "index.html"@
    } else {
        n
    }
}

/// The MIME type for a lower-cased path, by its extension.
pub open spec fn content_type_for(lower: Seq<char>) -> Seq<char> {
    if ends_with(lower, ".html"@) || ends_with(lower, ".htm"@) {
        "text/html"@
    } else if ends_with(lower, ".css"@) {
        "text/css"@
    } else if ends_with(lower, ".js"@) || ends_with(lower, ".mjs"@) {
        "application/javascript"@
    } else if ends_with(lower, ".json"@) {
        "application/json"@
    } else if ends_with(lower, ".png"@) {
        "image/png"@
    } else if ends_with(lower, ".jpg"@) || ends_with(lower, ".jpeg"@) {
        "image/jpeg"@
    } else if ends_with(lower, ".gif"@) {
        "image/gif"@
    } else if ends_with(lower, ".svg"@) {
        "image/svg+xml"@
    } else if ends_with(lower, ".ico"@) {
        "image/x-icon"@
    } else if ends_with(lower, ".woff"@) {
        "font/woff"@
    } else if ends_with(lower, ".woff2"@) {
        "font/woff2"@
    } else if ends_with(lower, ".ttf"@) {
        "font/ttf"@
    } else if ends_with(lower, ".otf"@) {
        "font/otf"@
    } else if ends_with(lower, ".wasm"@) {
        "application/wasm"@
    } else if ends_with(lower, ".xml"@) {
        "application/xml"@
    } else if ends_with(lower, ".txt"@) {
        "text/plain"@
    } else {
        "application/octet-stream"@
    }
}

/// Whether `r` is a 200 response with the given content type and body bytes.
pub open spec fn is_ok_response(r: HttpResponse, content_type: Seq<char>, body: Seq<u8>) -> bool {
    &&& r.spec_status() == HttpStatusCode::OK
    &&& r.spec_headers() == Map::<Seq<char>, Seq<char>>::empty().insert("Content-Type"@, content_type)
    &&& r.spec_body() is Bytes
    &&& body_bytes(r.spec_body()) == body
}

/// UI assets read from a zip archive at the end of the program's own file.
#[derive(Clone)]
pub struct EmbeddedAssetService {
    binary_content: Vec<u8>,
}

impl EmbeddedAssetService {
    /// The bytes that hold the archive.
    pub closed spec fn spec_content(&self) -> Seq<u8> {
        self.binary_content@
    }

    /// An asset service over the given bytes, if they hold the end record of a zip
    /// archive.
    pub fn from_binary(content: Vec<u8>) -> (r: Option<Self>)
        ensures
            match r {
                Some(s) => s.spec_content() == content@ && exists|i: int| signature_at(content@, eocd_signature(), i),
                None => forall|i: int| !#[trigger] signature_at(content@, eocd_signature(), i),
            },
    {
        let sig: Vec<u8> = vec![0x50u8, 0x4Bu8, 0x05u8, 0x06u8];
        assert(sig@ =~= eocd_signature());
        match Self::find_signature_backwards(content.as_slice(), sig.as_slice()) {
            Some(_) => Some(EmbeddedAssetService { binary_content: content }),
            None => None,
        }
    }

    /// Find a signature by searching backwards from the end of data.
    pub fn find_signature_backwards(data: &[u8], signature: &[u8]) -> (r: Option<usize>)
        ensures
            last_signature(data@, signature@, r),
    {
        if data.len() < signature.len() {
            return None;
        }
        let mut i: usize = data.len() - signature.len();
        loop
            invariant
                i + signature@.len() <= data@.len(),
                forall|j: int| i < j ==> !#[trigger] signature_at(data@, signature@, j),
            decreases i,
        {
            let mut k: usize = 0;
            let mut same = true;
            while k < signature.len()
                invariant
                    k <= signature@.len(),
                    i + signature@.len() <= data@.len(),
                    data@.len() == data.len(),
                    same == forall|m: int| 0 <= m < k ==> data@[i + m] == signature@[m],
                decreases signature.len() - k,
            {
                if data[i + k] != signature[k] {
                    same = false;
                }
                k = k + 1;
            }
            if same {
                assert(data@.subrange(i as int, i + signature@.len()) =~= signature@);
                return Some(i);
            } else {
                let ghost m = choose|m: int| 0 <= m < signature@.len() && data@[i + m] != signature@[m];
                assert(data@.subrange(i as int, i + signature@.len())[m] != signature@[m]);
            }
            if i == 0 {
                return None;
            }
            i = i - 1;
        }
    }

    /// Extract a file from the embedded zip by request path.
    pub fn extract_file(&self, path: &str) -> (r: Option<Vec<u8>>)
        ensures
            match r {
                Some(v) => zip_entry_of(self.spec_content(), asset_name(path@)) == Some(v@),
                None => zip_entry_of(self.spec_content(), asset_name(path@)) is None,
            },
    {
        let chars = crate::text::chars_of(path);
        let start: usize = if chars.len() > 0 && chars[0] == '/' { 1 } else { 0 };
        let normalized = crate::text::string_of_range(&chars, start, chars.len());
        proof {
            if start == 1 {
                assert(chars@.subrange(1, chars@.len() as int) =~= path@.drop_first());
            } else {
                assert(chars@.subrange(0, chars@.len() as int) =~= path@);
            }
        }
        if normalized.as_str().is_empty() {
            zip_entry(self.binary_content.as_slice(), "index.html")
        } else {
            zip_entry(self.binary_content.as_slice(), normalized.as_str())
        }
    }

    /// Serve a static file from the embedded zip.
    pub fn serve_file(&self, path: &str) -> (r: Option<HttpResponse>)
        ensures
            match r {
                Some(resp) => zip_entry_of(self.spec_content(), asset_name(path@)) is Some
                    && is_ok_response(resp, content_type_for(lowercase_of(path@)),
                        zip_entry_of(self.spec_content(), asset_name(path@))->0),
                None => zip_entry_of(self.spec_content(), asset_name(path@)) is None,
            },
    {
        match self.extract_file(path) {
            Some(content) => {
                let content_type = Self::guess_content_type(path);
                Some(HttpResponse::ok().with_content_type(content_type).with_body(HttpBody::from_bytes(content)))
            },
            None => None,
        }
    }

    /// Guess the MIME type based on file extension, ignoring case.
    pub fn guess_content_type(path: &str) -> (t: &'static str)
        ensures
            t@ == content_type_for(lowercase_of(path@)),
    {
        let lower = to_lowercase(path);
        let p = lower.as_str();
        if str_ends_with(p, ".html") || str_ends_with(p, ".htm") {
            "text/html"
        } else if str_ends_with(p, ".css") {
            "text/css"
        } else if str_ends_with(p, ".js") || str_ends_with(p, ".mjs") {
            "application/javascript"
        } else if str_ends_with(p, ".json") {
            "application/json"
        } else if str_ends_with(p, ".png") {
            "image/png"
        } else if str_ends_with(p, ".jpg") || str_ends_with(p, ".jpeg") {
            "image/jpeg"
        } else if str_ends_with(p, ".gif") {
            "image/gif"
        } else if str_ends_with(p, ".svg") {
            "image/svg+xml"
        } else if str_ends_with(p, ".ico") {
            "image/x-icon"
        } else if str_ends_with(p, ".woff") {
            "font/woff"
        } else if str_ends_with(p, ".woff2") {
            "font/woff2"
        } else if str_ends_with(p, ".ttf") {
            "font/ttf"
        } else if str_ends_with(p, ".otf") {
            "font/otf"
        } else if str_ends_with(p, ".wasm") {
            "application/wasm"
        } else if str_ends_with(p, ".xml") {
            "application/xml"
        } else if str_ends_with(p, ".txt") {
            "text/plain"
        } else {
            "application/octet-stream"
        }
    }
}


/// The path of a request without its query string.
pub open spec fn path_part(p: Seq<char>) -> Seq<char> {
    split_char(p, '?')[0]
}

/// The value of a query parameter named `q` (`key=value`, split at the first `=`;
/// the value of `q=...` starts after those two characters).
pub open spec fn q_value(param: Seq<char>) -> Option<Seq<char>> {
    let parts = split_char(param, '=');
    if parts.len() >= 2 && parts[0] == "q"@ {
        Some(param.skip(2))
    } else {
        None
    }
}

/// The value of the first parameter named `q` among `params`.
pub open spec fn first_q(params: Seq<Seq<char>>) -> Option<Seq<char>>
    decreases params.len(),
{
    if params.len() == 0 {
        None
    } else {
        match q_value(params[0]) {
            Some(v) => Some(v),
            None => first_q(params.drop_first()),
        }
    }
}

/// The search query of a request path: the value of the first `q` parameter of the
/// text between the first and the second `?`, or empty.
pub open spec fn search_query(path: Seq<char>) -> Seq<char> {
    let parts = split_char(path, '?');
    if parts.len() < 2 {
        Seq::empty()
    } else {
        match first_q(split_char(parts[1], '&')) {
            Some(v) => v,
            None => Seq::empty(),
        }
    }
}

/// `s` without its leading slashes.
pub open spec fn trim_slashes(s: Seq<char>) -> Seq<char>
    decreases s.len(),
{
    if s.len() > 0 && s[0] == '/' {
        trim_slashes(s.drop_first())
    } else {
        s
    }
}

/// The document ID named by a path `api/document/{id}` (leading slashes ignored), or
/// the message of the error it is.
pub open spec fn document_id_of(path: Seq<char>) -> Result<Seq<char>, Seq<char>> {
    let parts = split_char(trim_slashes(path), '/');
    if parts.len() != 3 || parts[0] != "api"@ || parts[1] != "document"@ {
        Err("Invalid path format. Expected: /api/document/{documentid}"@)
    } else if parts[2].len() == 0 {
        Err("Document ID cannot be empty"@)
    } else {
        Ok(parts[2])
    }
}

proof fn lemma_first_q_skip(params: Seq<Seq<char>>, i: int)
    requires
        0 <= i <= params.len(),
        forall|j: int| 0 <= j < i ==> #[trigger] q_value(params[j]) is None,
    ensures
        first_q(params) == first_q(params.skip(i)),
    decreases i,
{
    if i > 0 {
        assert(q_value(params[0]) is None);
        assert(params.drop_first().skip(i - 1) =~= params.skip(i));
        assert forall|j: int| 0 <= j < i - 1 implies #[trigger] q_value(params.drop_first()[j]) is None by {
            assert(params.drop_first()[j] == params[j + 1]);
        }
        lemma_first_q_skip(params.drop_first(), i - 1);
    } else {
        assert(params.skip(0) =~= params);
    }
}

/// The value of a parameter if its name is `q`.
fn param_q(param: &str) -> (r: Option<String>)
    ensures
        match r {
            Some(v) => q_value(param@) == Some(v@),
            None => q_value(param@) is None,
        },
{
    let pieces = split_on(param, '=');
    proof {
        lemma_split_char_nonempty(param@, '=');
    }
    if pieces.len() >= 2 && crate::http::str_eq(pieces[0].as_str(), "q") {
        let chars = crate::text::chars_of(param);
        assert(pieces@[0]@ == split_char(param@, '=')[0]);
        proof {
            lemma_split_first_shorter(param@, '=');
            reveal_strlit("q");
        }
        let v = crate::text::string_of_range(&chars, 2, chars.len());
        proof {
            reveal_strlit("q");
            assert(chars@.subrange(2, chars@.len() as int) =~= param@.skip(2));
        }
        Some(v)
    } else {
        None
    }
}

/// The first piece of a split is no longer than the text.
proof fn lemma_split_first_len(s: Seq<char>, c: char)
    ensures
        split_char(s, c)[0].len() <= s.len(),
    decreases s.len(),
{
    lemma_split_char_nonempty(s, c);
    if s.len() > 0 {
        lemma_split_char_nonempty(s.drop_last(), c);
        lemma_split_first_len(s.drop_last(), c);
    }
}

/// When a split gives several pieces, the first is shorter than the text.
proof fn lemma_split_first_shorter(s: Seq<char>, c: char)
    ensures
        split_char(s, c).len() >= 2 ==> split_char(s, c)[0].len() < s.len(),
    decreases s.len(),
{
    lemma_split_char_nonempty(s, c);
    if s.len() > 0 {
        lemma_split_char_nonempty(s.drop_last(), c);
        lemma_split_first_len(s.drop_last(), c);
        lemma_split_first_shorter(s.drop_last(), c);
    }
}

/// The search query of a request path (empty when there is none).
pub fn query_of(path: &str) -> (q: String)
    ensures
        q@ == search_query(path@),
{
    let parts = split_on(path, '?');
    if parts.len() < 2 {
        return String::new();
    }
    let params = split_on(parts[1].as_str(), '&');
    let ghost pv = params@.map_values(|p: String| p@);
    let mut i: usize = 0;
    while i < params.len()
        invariant
            i <= params@.len(),
            pv == params@.map_values(|p: String| p@),
            parts@.len() >= 2,
            parts@.map_values(|p: String| p@) == split_char(path@, '?'),
            pv == split_char(parts@[1]@, '&'),
            forall|j: int| 0 <= j < i ==> #[trigger] q_value(pv[j]) is None,
        decreases params.len() - i,
    {
        match param_q(params[i].as_str()) {
            Some(v) => {
                proof {
                    lemma_first_q_skip(pv, i as int);
                    assert(pv.skip(i as int)[0] == pv[i as int]);
                }
                return v;
            },
            None => {},
        }
        i = i + 1;
    }
    proof {
        lemma_first_q_skip(pv, pv.len() as int);
        assert(pv.skip(pv.len() as int) =~= Seq::<Seq<char>>::empty());
    }
    String::new()
}

/// The path of a request without its query string.
pub fn path_without_query(path: &str) -> (p: String)
    ensures
        p@ == path_part(path@),
{
    let mut parts = split_on(path, '?');
    proof {
        lemma_split_char_nonempty(path@, '?');
    }
    parts.swap_remove(0)
}

/// The document ID named by a request path, or the error it is.
pub fn document_id_from_path(path: &str) -> (r: HyperlitResult<DocumentId>)
    ensures
        match r {
            Ok(id) => document_id_of(path@) == Ok::<Seq<char>, Seq<char>>(id@),
            Err(e) => document_id_of(path@) is Err && is_message_error(*e, document_id_of(path@)->Err_0),
        },
{
    let chars = crate::text::chars_of(path);
    let mut k: usize = 0;
    assert(chars@.skip(0) =~= chars@);
    while k < chars.len() && chars[k] == '/'
        invariant
            k <= chars@.len(),
            chars@ == path@,
            trim_slashes(path@) == trim_slashes(chars@.skip(k as int)),
        decreases chars.len() - k,
    {
        assert(chars@.skip(k as int).drop_first() =~= chars@.skip(k + 1));
        k = k + 1;
    }
    let trimmed = crate::text::string_of_range(&chars, k, chars.len());
    proof {
        assert(chars@.subrange(k as int, chars@.len() as int) =~= chars@.skip(k as int));
        if k < chars@.len() {
            assert(chars@.skip(k as int)[0] == chars@[k as int]);
        }
        assert(trimmed@ == trim_slashes(path@));
    }
    let parts = split_on(trimmed.as_str(), '/');
    if parts.len() != 3 || !crate::http::str_eq(parts[0].as_str(), "api") || !crate::http::str_eq(parts[1].as_str(), "document") {
        return Err(message_error("Invalid path format. Expected: /api/document/{documentid}"));
    }
    if parts[2].as_str().is_empty() {
        return Err(message_error("Document ID cannot be empty"));
    }
    Ok(DocumentId::from_string(parts[2].as_str()))
}


/// Whether `e` is a plain message error with the text `m`.
pub open spec fn is_message_error(e: HyperlitError, m: Seq<char>) -> bool {
    &&& e.spec_kind() is Message
    &&& e.spec_kind()->message@ == m
    &&& e.spec_context().len() == 0
    &&& e.spec_cause() is None
}

/// A message error.
fn message_error(m: &str) -> (e: Box<HyperlitError>)
    ensures
        is_message_error(*e, m@),
{
    Box::new(HyperlitError::message(m))
}

/// A message error: `prefix` followed by the text of `cause`.
fn wrapped_error(prefix: &str, cause: &HyperlitError) -> (e: Box<HyperlitError>)
    ensures
        is_message_error(*e, prefix@ + cause.text()),
{
    let mut m = prefix.to_owned();
    let t = cause.to_string();
    push_str(&mut m, t.as_str());
    Box::new(HyperlitError::message(m.as_str()))
}

/// The response to a request for the site information.
pub fn site_response(site: &SiteInfo) -> (r: HttpResponse)
    ensures
        is_ok_response(r, "application/json"@, encode_utf8(site_json(*site))),
{
    let mut out = String::new();
    write_site_json(&mut out, site);
    assert(out@ =~= site_json(*site));
    HttpResponse::json(out.as_str())
}

/// The response to a request for one document, given what the store answered.
pub fn document_response(found: HyperlitResult<Option<Document>>) -> (r: HyperlitResult<HttpResponse>)
    ensures
        match found {
            Ok(Some(d)) => r matches Ok(resp) && is_ok_response(resp, "application/json"@, encode_utf8(document_json(d))),
            Ok(None) => r matches Err(e) && is_message_error(*e, "Document not found"@),
            Err(e0) => r matches Err(e) && is_message_error(*e, "Error retrieving document: "@ + e0.text()),
        },
{
    match found {
        Ok(Some(d)) => {
            let mut out = String::new();
            write_document_json(&mut out, &d);
            assert(out@ =~= document_json(d));
            Ok(HttpResponse::json(out.as_str()))
        },
        Ok(None) => Err(message_error("Document not found")),
        Err(e) => Err(wrapped_error("Error retrieving document: ", &e)),
    }
}

/// The response to a request for all documents, given what the store answered.
pub fn documents_response(list: HyperlitResult<Vec<Document>>) -> (r: HyperlitResult<HttpResponse>)
    ensures
        match list {
            Ok(ds) => r matches Ok(resp) && is_ok_response(resp, "application/json"@, encode_utf8(documents_json(ds@))),
            Err(e0) => r matches Err(e) && is_message_error(*e, "Error retrieving documents: "@ + e0.text()),
        },
{
    match list {
        Ok(ds) => {
            let out = documents_to_json(ds.as_slice());
            Ok(HttpResponse::json(out.as_str()))
        },
        Err(e) => Err(wrapped_error("Error retrieving documents: ", &e)),
    }
}

/// The response to a search for a non-empty query, given the documents the store
/// listed.
pub fn search_response(query: &str, list: HyperlitResult<Vec<Document>>) -> (r: HyperlitResult<HttpResponse>)
    ensures
        match list {
            Ok(ds) => r matches Ok(resp) && exists|rs: Seq<SearchResult>|
                #[trigger] result_views(rs) == search_results(doc_views(ds@), query@)
                && is_ok_response(resp, "application/json"@, encode_utf8(search_json(query@, rs))),
            Err(e0) => r matches Err(e) && is_message_error(*e, "Error searching documents: "@ + e0.text()),
        },
{
    match list {
        Ok(ds) => {
            let search = SimpleSearch::new();
            let results = search.search(ds.as_slice(), query);
            let out = search_to_json(query, results.as_slice());
            let resp = HttpResponse::json(out.as_str());
            assert(result_views(results@) == search_results(doc_views(ds@), query@));
            Ok(resp)
        },
        Err(e) => Err(wrapped_error("Error searching documents: ", &e)),
    }
}

/// The endpoints of the API.
pub enum ApiRoute {
    Site,
    Documents,
    Search,
    Document,
    Static,
}

/// The endpoint a request path (without query) is routed to.
pub open spec fn route_of(path: Seq<char>) -> ApiRoute {
    if path == "/api/site"@ {
        ApiRoute::Site
    } else if path == "/api/documents"@ {
        ApiRoute::Documents
    } else if starts_with(path, "/api/search"@) {
        ApiRoute::Search
    } else if starts_with(path, "/api/document/"@) {
        ApiRoute::Document
    } else {
        ApiRoute::Static
    }
}

/// The answer for a path that is no API endpoint: the embedded file at that path, else
/// `index.html` (for client-side routing), else an error.
pub open spec fn static_answer(assets: Option<EmbeddedAssetService>, path: Seq<char>, r: HyperlitResult<HttpResponse>) -> bool {
    match assets {
        None => r matches Err(e) && is_message_error(*e, "Invalid API endpoint or no embedded UI assets available"@),
        Some(a) => match zip_entry_of(a.spec_content(), asset_name(path)) {
            Some(c) => r matches Ok(resp) && is_ok_response(resp, content_type_for(lowercase_of(path)), c),
            None => match zip_entry_of(a.spec_content(), "index.html"@) {
                Some(c) => r matches Ok(resp) && is_ok_response(resp, content_type_for(lowercase_of("/index.html"@)), c),
                None => r matches Err(e) && is_message_error(*e, "Invalid API endpoint or no embedded UI assets available"@),
            },
        },
    }
}

/// HTTP service for all API endpoints and the static UI files, over a document store.
#[derive(Clone)]
pub struct ApiService<S> {
    store: S,
    site_info: SiteInfo,
    asset_service: Option<EmbeddedAssetService>,
}

impl<S: DocumentStore> ApiService<S> {
    /// The site information served.
    pub closed spec fn spec_site_info(&self) -> SiteInfo {
        self.site_info
    }

    /// The UI assets served, if any.
    pub closed spec fn spec_assets(&self) -> Option<EmbeddedAssetService> {
        self.asset_service
    }

    /// The document store.
    pub closed spec fn spec_store(&self) -> S {
        self.store
    }

    /// Create a new service over the given store and site information, with no UI
    /// assets.
    pub fn new(store: S, site_info: SiteInfo) -> (s: Self)
        ensures
            s.spec_store() == store,
            s.spec_site_info() == site_info,
            s.spec_assets() is None,
    {
        ApiService { store, site_info, asset_service: None }
    }

    /// Serve UI assets from the given archive.
    pub fn with_asset_service(self, assets: Option<EmbeddedAssetService>) -> (s: Self)
        ensures
            s.spec_store() == self.spec_store(),
            s.spec_site_info() == self.spec_site_info(),
            s.spec_assets() == assets,
    {
        ApiService { store: self.store, site_info: self.site_info, asset_service: assets }
    }

    /// The document store.
    pub fn store(&self) -> (s: &S)
        ensures
            *s == self.spec_store(),
    {
        &self.store
    }

    /// Mutable access to the document store.
    pub fn store_mut(&mut self) -> (s: &mut S)
        ensures
            *s == old(self).spec_store(),
            final(self).spec_store() == *final(s),
            final(self).spec_site_info() == old(self).spec_site_info(),
            final(self).spec_assets() == old(self).spec_assets(),
    {
        &mut self.store
    }

    /// The response for the static files: the requested file, else `index.html`
    /// (for client-side routing), else an error.
    fn static_response(&self, path: &str) -> (r: HyperlitResult<HttpResponse>)
        ensures
            static_answer(self.spec_assets(), path@, r),
    {
        match &self.asset_service {
            Some(assets) => {
                match assets.serve_file(path) {
                    Some(resp) => {
                        return Ok(resp);
                    },
                    None => {},
                }
                match assets.serve_file("/index.html") {
                    Some(resp) => {
                        proof {
                            reveal_strlit("/index.html");
                            reveal_strlit("index.html");
                            assert(asset_name("/index.html"@) =~= "index.html"@);
                        }
                        return Ok(resp);
                    },
                    None => {
                        proof {
                            reveal_strlit("/index.html");
                            reveal_strlit("index.html");
                            assert(asset_name("/index.html"@) =~= "index.html"@);
                        }
                    },
                }
                Err(message_error("Invalid API endpoint or no embedded UI assets available"))
            },
            None => Err(message_error("Invalid API endpoint or no embedded UI assets available")),
        }
    }
}

impl<S: DocumentStore> HttpService for ApiService<S> {
    /// Route a GET request to its endpoint; other methods are refused.
    fn handle_request(&self, request: HttpRequest) -> (r: HyperlitResult<HttpResponse>)
        ensures
            request.spec_method() != HttpMethod::Get ==> (r matches Err(e)
                && is_message_error(*e, "Only GET requests are supported"@)),
            request.spec_method() == HttpMethod::Get ==> match route_of(path_part(request.spec_path())) {
                ApiRoute::Site => (r matches Ok(resp)
                    && is_ok_response(resp, "application/json"@, encode_utf8(site_json(self.spec_site_info())))),
                ApiRoute::Documents => (r matches Ok(resp) ==> exists|ds: Seq<Document>|
                    #[trigger] lists(self.spec_store().spec_docs(), ds)
                    && is_ok_response(resp, "application/json"@, encode_utf8(documents_json(ds))))
                    && (r matches Err(e) ==> exists|t: Seq<char>| #[trigger] is_message_error(*e, "Error retrieving documents: "@ + t)),
                ApiRoute::Search => if search_query(request.spec_path()).len() == 0 {
                    (r matches Err(e) && is_message_error(*e, "Missing required query parameter 'q'"@))
                } else {
                    (r matches Ok(resp) ==> exists|ds: Seq<Document>, rs: Seq<SearchResult>|
                        #[trigger] lists(self.spec_store().spec_docs(), ds)
                        && #[trigger] result_views(rs) == search_results(doc_views(ds), search_query(request.spec_path()))
                        && is_ok_response(resp, "application/json"@,
                            encode_utf8(search_json(search_query(request.spec_path()), rs))))
                    && (r matches Err(e) ==> exists|t: Seq<char>| #[trigger] is_message_error(*e, "Error searching documents: "@ + t))
                },
                ApiRoute::Document => match document_id_of(path_part(request.spec_path())) {
                    Err(m) => (r matches Err(e) && is_message_error(*e, m)),
                    Ok(id) => (r matches Ok(resp) ==> self.spec_store().spec_docs().contains_key(id)
                        && exists|d: Document| d@ == self.spec_store().spec_docs()[id]
                            && #[trigger] is_ok_response(resp, "application/json"@, encode_utf8(document_json(d))))
                        && (r matches Err(e) ==> is_message_error(*e, "Document not found"@)
                            || exists|t: Seq<char>| #[trigger] is_message_error(*e, "Error retrieving document: "@ + t))
                        && (!self.spec_store().spec_docs().contains_key(id) ==> r is Err),
                },
                ApiRoute::Static => static_answer(self.spec_assets(), path_part(request.spec_path()), r),
            },
    {
        match request.method() {
            HttpMethod::Get => {},
            _ => {
                return Err(message_error("Only GET requests are supported"));
            },
        }
        let path = path_without_query(request.path());
        let p = path.as_str();
        if crate::http::str_eq(p, "/api/site") {
            Ok(site_response(&self.site_info))
        } else if crate::http::str_eq(p, "/api/documents") {
            let listed = self.store.list();
            let ghost lg = listed;
            let r = documents_response(listed);
            proof {
                if let Ok(v) = lg {
                    assert(lists(self.spec_store().spec_docs(), v@));
                }
            }
            r
        } else if str_starts_with(p, "/api/search") {
            let query = query_of(request.path());
            if query.as_str().is_empty() {
                return Err(message_error("Missing required query parameter 'q'"));
            }
            let listed = self.store.list();
            let ghost lg = listed;
            let r = search_response(query.as_str(), listed);
            proof {
                if let Ok(v) = lg {
                    assert(lists(self.spec_store().spec_docs(), v@));
                }
            }
            r
        } else if str_starts_with(p, "/api/document/") {
            let id = match document_id_from_path(p) {
                Ok(id) => id,
                Err(e) => {
                    return Err(e);
                },
            };
            let found = self.store.get(&id);
            let ghost fg = found;
            let r = document_response(found);
            proof {
                if let Ok(Some(d)) = fg {
                    assert(d@ == self.spec_store().spec_docs()[id@]);
                }
            }
            r
        } else {
            self.static_response(p)
        }
    }
}

} // verus!
