//! The HTTP endpoint `/api/document/{documentid}`: one document of a store as JSON.
//!
//! Every failure (a method other than GET, a path of another form, a document that
//! is not stored, an error of the store) is answered with status 599 and a JSON
//! object holding the error message.
use vstd::prelude::*;
use vstd::utf8::encode_utf8;
use crate::api::{document_id_of, path_part, path_without_query};
use crate::document::{pair_views, Document, DocumentId, SourceType};
use crate::http::{body_bytes, HttpBody, HttpMethod, HttpRequest, HttpResponse, HttpStatusCode};
use crate::store::DocumentStore;
use crate::error::HyperlitResult;
use crate::text::{chars_of, decimal, push_char, push_decimal, push_str, str_starts_with, starts_with};

verus! {

/// How one character is written inside a JSON string by the document service:
/// quote, backslash and the control characters `\n`, `\r`, `\t`, backspace and form
/// feed are escaped; every other character stands for itself.
pub open spec fn escape_char(c: char) -> Seq<char> {
    if c == '"' {
        seq!['\\', '"']
    } else if c == '\\' {
        seq!['\\', '\\']
    } else if c == '\n' {
        seq!['\\', 'n']
    } else if c == '\r' {
        seq!['\\', 'r']
    } else if c == '\t' {
        seq!['\\', 't']
    } else if c == '\u{08}' {
        seq!['\\', 'b']
    } else if c == '\u{0C}' {
        seq!['\\', 'f']
    } else {
        seq![c]
    }
}

/// Every character of `s` escaped with `escape_char`.
pub open spec fn escaped(s: Seq<char>) -> Seq<char>
    decreases s.len(),
{
    if s.len() == 0 {
        Seq::empty()
    } else {
        escaped(s.drop_last()) + escape_char(s.last())
    }
}

/// `"text"` with the text escaped.
pub open spec fn quoted(s: Seq<char>) -> Seq<char> {
    seq!['"'] + escaped(s) + seq!['"']
}

/// The members `"key":"value"` of metadata entries, separated by commas.
pub open spec fn metadata_members(e: Seq<(Seq<char>, Seq<char>)>) -> Seq<char>
    decreases e.len(),
{
    if e.len() == 0 {
        Seq::empty()
    } else {
        let head = quoted(e.last().0) + seq![':'] + quoted(e.last().1);
        if e.len() == 1 {
            head
        } else {
            metadata_members(e.drop_last()) + seq![','] + head
        }
    }
}

/// One metadata member: the key and the value, each quoted, joined by a colon.
pub open spec fn member_text(key: Seq<char>, value: Seq<char>) -> Seq<char> {
    quoted(key) + seq![':'] + quoted(value)
}

/// Law: the members of one entry `(key, value)` are that key mapped to that value.
pub proof fn lemma_members_single(key: Seq<char>, value: Seq<char>)
    ensures
        metadata_members(seq![(key, value)]) == member_text(key, value),
{
    assert(seq![(key, value)].last() == (key, value));
}

/// Law: the members of entries one after the other are those of the first entries,
/// a comma, then those of the rest.
pub proof fn lemma_members_concat(a: Seq<(Seq<char>, Seq<char>)>, b: Seq<(Seq<char>, Seq<char>)>)
    requires
        a.len() > 0,
        b.len() > 0,
    ensures
        metadata_members(a + b) == metadata_members(a) + seq![','] + metadata_members(b),
    decreases b.len(),
{
    let b0 = b.drop_last();
    assert((a + b).drop_last() =~= a + b0);
    assert((a + b).last() == b.last());
    let head = quoted(b.last().0) + seq![':'] + quoted(b.last().1);
    if b.len() == 1 {
        assert(a + b0 =~= a);
        assert(b.last() == b[0]);
        lemma_members_single(b[0].0, b[0].1);
        assert(b =~= seq![(b[0].0, b[0].1)]);
    } else {
        lemma_members_concat(a, b0);
        assert(metadata_members(a) + seq![','] + metadata_members(b0) + seq![','] + head
            =~= metadata_members(a) + seq![','] + (metadata_members(b0) + seq![','] + head));
    }
}

/// Law: every metadata entry `(key, value)` appears in the members as its key
/// mapped to its value.
pub proof fn lemma_members_hold_entries(e: Seq<(Seq<char>, Seq<char>)>, i: int)
    requires
        0 <= i < e.len(),
    ensures
        exists|pre: Seq<char>, post: Seq<char>|
            metadata_members(e) == pre + #[trigger] member_text(e[i].0, e[i].1) + post,
{
    let m = member_text(e[i].0, e[i].1);
    lemma_members_single(e[i].0, e[i].1);
    assert(e.subrange(i, i + 1) =~= seq![(e[i].0, e[i].1)]);
    let left = e.take(i);
    let mid = e.subrange(i, i + 1);
    let right = e.skip(i + 1);
    let pre = if i > 0 { metadata_members(left) + seq![','] } else { Seq::<char>::empty() };
    let post = if i + 1 < e.len() { seq![','] + metadata_members(right) } else { Seq::<char>::empty() };
    let lm = left + mid;
    if i > 0 {
        lemma_members_concat(left, mid);
    } else {
        assert(lm =~= mid);
    }
    assert(metadata_members(lm) == pre + m) by {
        if i == 0 {
            assert(pre + m =~= m);
        }
    }
    if i + 1 < e.len() {
        lemma_members_concat(lm, right);
        assert(lm + right =~= e);
        assert(pre + m + seq![','] + metadata_members(right) =~= pre + m + post);
    } else {
        assert(lm =~= e);
        assert(pre + m + post =~= pre + m);
    }
}

/// The JSON text of a document as the service serves it: identifier, title,
/// content and source (type, file path, line number), then the byte range and the
/// metadata where there are any.
pub open spec fn service_json(d: Document) -> Seq<char> {
    let s = d.spec_source();
    "{\"id\":"@ + quoted(d.spec_id()) + ",\"title\":"@ + quoted(d.spec_title()) + ",\"content\":"@
        + quoted(d.spec_content()) + ",\"source\":{\"type\":"@ + match s.spec_source_type() {
        SourceType::CodeComment => "\"code_comment\""@,
        SourceType::MarkdownFile => "\"markdown_file\""@,
    } + ",\"file_path\":"@ + quoted(s.spec_file_path()) + ",\"line_number\":"@ + decimal(s.spec_line_number() as nat)
        + "}"@ + match s.spec_byte_range() {
        Some(b) => ",\"byte_range\":{\"start\":"@ + decimal(b.spec_start() as nat) + ",\"end\":"@
            + decimal(b.spec_end() as nat) + "}"@,
        None => Seq::empty(),
    } + match d.spec_metadata_entries() {
        Some(e) => ",\"metadata\":{"@ + metadata_members(e) + "}"@,
        None => Seq::empty(),
    } + "}"@
}

/// Law: the JSON served for a document maps each of its metadata keys to its value:
/// for every entry `(key, value)` of the metadata it holds `"key":"value"`.
pub proof fn lemma_served_metadata(d: Document, i: int)
    requires
        d.spec_metadata_entries() is Some,
        0 <= i < d.spec_metadata_entries()->Some_0.len(),
    ensures
        exists|pre: Seq<char>, post: Seq<char>|
            service_json(d) == pre + #[trigger] member_text(
                d.spec_metadata_entries()->Some_0[i].0,
                d.spec_metadata_entries()->Some_0[i].1,
            ) + post,
{
    let e = d.spec_metadata_entries()->Some_0;
    let m = member_text(e[i].0, e[i].1);
    lemma_members_hold_entries(e, i);
    let (pre, post) = choose|pre: Seq<char>, post: Seq<char>| metadata_members(e) == pre + member_text(e[i].0, e[i].1) + post;
    let j = service_json(d);
    let k = j.len() - (metadata_members(e).len() + 2);
    let head = j.take(k);
    assert(j =~= head + metadata_members(e) + "}"@ + "}"@) by {
        reveal_strlit("}");
    }
    assert(j =~= (head + pre) + m + (post + "}"@ + "}"@));
}

/// The document ID a request path names: the part before the query must start with
/// `/` and read `api/document/{id}` after its leading slashes, with a non-empty `id`.
pub open spec fn requested_id(path: Seq<char>) -> Option<Seq<char>> {
    let p = path_part(path);
    if !starts_with(p, "/"@) {
        None
    } else {
        match document_id_of(p) {
            Ok(id) => Some(id),
            Err(_) => None,
        }
    }
}

/// The body of a failure: `{"error":"<message>"}`.
pub open spec fn failure_json(message: Seq<char>) -> Seq<char> {
    "{\"error\":"@ + quoted(message) + "}"@
}

/// Whether `r` is a JSON response with the given status and text.
pub open spec fn is_json_response(r: HttpResponse, status: HttpStatusCode, text: Seq<char>) -> bool {
    &&& r.spec_status() == status
    &&& r.spec_headers() == Map::<Seq<char>, Seq<char>>::empty().insert("Content-Type"@, "application/json"@)
    &&& r.spec_body() is Bytes
    &&& body_bytes(r.spec_body()) == encode_utf8(text)
}

/// Escape a string for use inside a JSON string.
fn escape_text(s: &str) -> (r: String)
    ensures
        r@ == escaped(s@),
{
    let cs = chars_of(s);
    let mut out = String::new();
    let mut i: usize = 0;
    assert(cs@.take(0) =~= Seq::<char>::empty());
    while i < cs.len()
        invariant
            i <= cs@.len(),
            cs@ == s@,
            out@ == escaped(cs@.take(i as int)),
        decreases cs.len() - i,
    {
        let c = cs[i];
        if c == '"' {
            push_char(&mut out, '\\');
            push_char(&mut out, '"');
        } else if c == '\\' {
            push_char(&mut out, '\\');
            push_char(&mut out, '\\');
        } else if c == '\n' {
            push_char(&mut out, '\\');
            push_char(&mut out, 'n');
        } else if c == '\r' {
            push_char(&mut out, '\\');
            push_char(&mut out, 'r');
        } else if c == '\t' {
            push_char(&mut out, '\\');
            push_char(&mut out, 't');
        } else if c == '\u{08}' {
            push_char(&mut out, '\\');
            push_char(&mut out, 'b');
        } else if c == '\u{0C}' {
            push_char(&mut out, '\\');
            push_char(&mut out, 'f');
        } else {
            push_char(&mut out, c);
        }
        proof {
            assert(cs@.take(i + 1).drop_last() =~= cs@.take(i as int));
            assert(cs@.take(i + 1).last() == c);
        }
        assert(out@ =~= escaped(cs@.take(i + 1)));
        i = i + 1;
    }
    assert(cs@.take(cs@.len() as int) =~= cs@);
    out
}

/// Append `"text"` with the text escaped.
fn push_quoted(out: &mut String, s: &str)
    ensures
        final(out)@ == old(out)@ + quoted(s@),
{
    push_char(out, '"');
    let e = escape_text(s);
    push_str(out, e.as_str());
    push_char(out, '"');
    assert(final(out)@ =~= old(out)@ + quoted(s@));
}

/// The JSON text of a document as the service serves it.
#[verifier::spinoff_prover]
#[verifier::rlimit(40)]
fn document_json_text(doc: &Document) -> (r: String)
    ensures
        r@ == service_json(*doc),
{
    let source = doc.source();
    let mut out = String::new();
    push_str(&mut out, "{\"id\":");
    push_quoted(&mut out, doc.id().as_str());
    push_str(&mut out, ",\"title\":");
    push_quoted(&mut out, doc.title());
    push_str(&mut out, ",\"content\":");
    push_quoted(&mut out, doc.content());
    push_str(&mut out, ",\"source\":{\"type\":");
    if source.is_code_comment() {
        push_str(&mut out, "\"code_comment\"");
    } else {
        push_str(&mut out, "\"markdown_file\"");
    }
    push_str(&mut out, ",\"file_path\":");
    push_quoted(&mut out, source.file_path().as_str());
    push_str(&mut out, ",\"line_number\":");
    push_decimal(&mut out, source.line_number() as u128);
    push_str(&mut out, "}");
    let ghost head = out@;
    match source.byte_range() {
        Some(range) => {
            push_str(&mut out, ",\"byte_range\":{\"start\":");
            push_decimal(&mut out, range.start() as u128);
            push_str(&mut out, ",\"end\":");
            push_decimal(&mut out, range.end() as u128);
            push_str(&mut out, "}");
        },
        None => {},
    }
    let ghost mid = out@;
    match doc.metadata() {
        Some(m) => {
            push_str(&mut out, ",\"metadata\":{");
            let e = m.iter();
            let ghost pv = pair_views(e@);
            let ghost before = out@;
            let mut i: usize = 0;
            while i < e.len()
                invariant
                    i <= e@.len(),
                    pv == pair_views(e@),
                    out@ == before + metadata_members(pv.take(i as int)),
                decreases e.len() - i,
            {
                proof {
                    assert(pv.take(i + 1).drop_last() =~= pv.take(i as int));
                    assert(pv.take(i + 1).last() == pv[i as int]);
                    assert(pv[i as int] == (e@[i as int].0@, e@[i as int].1@));
                    if i == 0 {
                        assert(pv.take(0) =~= Seq::<(Seq<char>, Seq<char>)>::empty());
                    }
                }
                if i > 0 {
                    push_char(&mut out, ',');
                }
                push_quoted(&mut out, e[i].0.as_str());
                push_char(&mut out, ':');
                push_quoted(&mut out, e[i].1.as_str());
                assert(out@ =~= before + metadata_members(pv.take(i + 1)));
                i = i + 1;
            }
            assert(pv.take(e@.len() as int) =~= pv);
            push_str(&mut out, "}");
        },
        None => {},
    }
    push_str(&mut out, "}");
    proof {
        reveal_strlit("\"code_comment\"");
        reveal_strlit("\"markdown_file\"");
    }
    assert(out@ =~= service_json(*doc));
    out
}

/// A JSON response with the given status and text.
fn json_response(status: HttpStatusCode, text: String) -> (r: HttpResponse)
    ensures
        is_json_response(r, status, text@),
{
    HttpResponse::new(status).with_content_type("application/json").with_body(HttpBody::from_string(text.as_str()))
}

/// The 599 response for a failure.
fn failure_response(message: &str) -> (r: HttpResponse)
    ensures
        is_json_response(r, HttpStatusCode::NetworkConnectTimeoutError, failure_json(message@)),
{
    let mut out = String::new();
    push_str(&mut out, "{\"error\":");
    push_quoted(&mut out, message);
    push_str(&mut out, "}");
    assert(out@ =~= failure_json(message@));
    json_response(HttpStatusCode::NetworkConnectTimeoutError, out)
}

/// HTTP service for `/api/document/{documentid}` over a document store.
pub struct DocumentService<S> {
    store: S,
}

impl<S: DocumentStore> DocumentService<S> {
    /// The document store.
    pub closed spec fn spec_store(&self) -> S {
        self.store
    }

    /// Create a service over the given store.
    pub fn new(store: S) -> (s: Self)
        ensures
            s.spec_store() == store,
    {
        DocumentService { store }
    }

    /// Escape a string for use inside a JSON string.
    pub fn escape_json(s: &str) -> (r: String)
        ensures
            r@ == escaped(s@),
    {
        escape_text(s)
    }

    /// The JSON text of a document.
    pub fn document_to_json(&self, doc: &Document) -> (r: String)
        ensures
            r@ == service_json(*doc),
    {
        document_json_text(doc)
    }

    /// The document ID named by a request path of the form
    /// `/api/document/{documentid}` (a query is ignored).
    pub fn extract_document_id(&self, path: &str) -> (r: Option<DocumentId>)
        ensures
            match r {
                Some(id) => requested_id(path@) == Some(id@),
                None => requested_id(path@) is None,
            },
    {
        let p = path_without_query(path);
        if !str_starts_with(p.as_str(), "/") {
            return None;
        }
        match crate::api::document_id_from_path(p.as_str()) {
            Ok(id) => Some(id),
            Err(_) => None,
        }
    }

    /// Whether `r` answers `request`: the document as JSON (status 200) for a GET of
    /// `/api/document/{documentid}` naming a stored document, else status 599 with
    /// the error message (of the store, where it failed).
    pub open spec fn answers(&self, request: HttpRequest, r: HttpResponse) -> bool {
        &&& request.spec_method() != HttpMethod::Get ==> is_json_response(r,
            HttpStatusCode::NetworkConnectTimeoutError, failure_json("Only GET requests are supported"@))
        &&& request.spec_method() == HttpMethod::Get ==> match requested_id(request.spec_path()) {
            None => is_json_response(r, HttpStatusCode::NetworkConnectTimeoutError,
                failure_json("Invalid path format. Expected: /api/document/{documentid}"@)),
            Some(id) => {
                ||| self.spec_store().spec_docs().contains_key(id) && exists|d: Document|
                    d@ == self.spec_store().spec_docs()[id] && #[trigger] is_json_response(r, HttpStatusCode::OK, service_json(d))
                ||| !self.spec_store().spec_docs().contains_key(id) && is_json_response(r,
                    HttpStatusCode::NetworkConnectTimeoutError, failure_json("Document not found"@))
                ||| exists|t: Seq<char>| #[trigger] is_json_response(r, HttpStatusCode::NetworkConnectTimeoutError,
                    failure_json("Error retrieving document: "@ + t))
            },
        }
    }

    /// Answer a request (see `answers`).
    pub fn handle_request(&self, request: HttpRequest) -> (r: HttpResponse)
        ensures
            self.answers(request, r),
    {
        match request.method() {
            HttpMethod::Get => {},
            _ => {
                return failure_response("Only GET requests are supported");
            },
        }
        let id = match self.extract_document_id(request.path()) {
            Some(id) => id,
            None => {
                return failure_response("Invalid path format. Expected: /api/document/{documentid}");
            },
        };
        let found = self.store.get(&id);
        let ghost fg = found;
        let r = document_answer(found);
        proof {
            if let Ok(Some(d)) = fg {
                assert(d@ == self.spec_store().spec_docs()[id@]);
            }
            if let Err(e) = fg {
                assert(is_json_response(r, HttpStatusCode::NetworkConnectTimeoutError,
                    failure_json("Error retrieving document: "@ + e.text())));
            }
        }
        r
    }
}

/// The answer to a request for a document, given what the store answered: the
/// document as JSON, or a 599 saying that it is not stored or what the store's
/// error was.
pub fn document_answer(found: HyperlitResult<Option<Document>>) -> (r: HttpResponse)
    ensures
        match found {
            Ok(Some(d)) => is_json_response(r, HttpStatusCode::OK, service_json(d)),
            Ok(None) => is_json_response(r, HttpStatusCode::NetworkConnectTimeoutError, failure_json("Document not found"@)),
            Err(e) => is_json_response(r, HttpStatusCode::NetworkConnectTimeoutError,
                failure_json("Error retrieving document: "@ + e.text())),
        },
{
    match found {
        Ok(Some(doc)) => {
            let json = document_json_text(&doc);
            json_response(HttpStatusCode::OK, json)
        },
        Ok(None) => failure_response("Document not found"),
        Err(e) => {
            let mut m = "Error retrieving document: ".to_owned();
            let t = e.to_string();
            push_str(&mut m, t.as_str());
            failure_response(m.as_str())
        },
    }
}

} // verus!
