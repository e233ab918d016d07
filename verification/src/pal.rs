//! The parts of the platform layer that compute: the base directory of the real
//! file system layer, the JSON error responses of its HTTP server, and the check
//! that a file's bytes are text.
use vstd::prelude::*;
use vstd::utf8::{decode_utf8, encode_utf8, valid_utf8};
use crate::error::{HyperlitError, HyperlitResult};
use crate::http::{HttpBody, HttpResponse, HttpStatusCode, body_bytes, string_from_utf8};
use crate::path::FilePath;
use crate::text::{chars_of, push_str};

verus! {

/// The JSON escape of one character: quote, backslash, newline, carriage return, tab,
/// backspace and form feed are escaped; every other character stands for itself.
pub open spec fn escape_char(c: char) -> Seq<char> {
    if c == '"' {
        seq!['\\', '"']
    } else if c == '\\' {
        seq!['\\', '\\']
    } else if c == '\n' {
        seq!['\\', 'n']
    } else if c == '\r' {
        seq!['\\', 'r']
    } else if c == '\t' {
        seq!['\\', 't']
    } else if c == '\u{08}' {
        seq!['\\', 'b']
    } else if c == '\u{0C}' {
        seq!['\\', 'f']
    } else {
        seq![c]
    }
}

/// The JSON escape of a text, character by character.
pub open spec fn escaped(s: Seq<char>) -> Seq<char>
    decreases s.len(),
{
    if s.len() == 0 {
        Seq::empty()
    } else {
        escaped(s.drop_last()) + escape_char(s.last())
    }
}

/// The JSON body of an error response.
pub open spec fn error_body(text: Seq<char>) -> Seq<char> {
    "{\"error\":\""@ + escaped(text) + "\"}"@
}

/// The real file system layer: every path is taken relative to its base directory.
#[derive(Debug)]
pub struct RealPal {
    base_dir: String,
}

impl RealPal {
    /// The base directory.
    pub closed spec fn spec_base_dir(&self) -> Seq<char> {
        self.base_dir@
    }

    /// Create a new RealPal with the given base directory.
    pub fn new(base_dir: &str) -> (p: Self)
        ensures
            p.spec_base_dir() == base_dir@,
    {
        RealPal { base_dir: base_dir.to_owned() }
    }

    /// The base directory.
    pub fn base_dir(&self) -> (d: &str)
        ensures
            d@ == self.spec_base_dir(),
    {
        self.base_dir.as_str()
    }

    /// Escape special characters for JSON string values.
    pub fn escape_json(s: &str) -> (r: String)
        ensures
            r@ == escaped(s@),
    {
        let v = chars_of(s);
        let mut out = String::new();
        let mut i: usize = 0;
        while i < v.len()
            invariant
                i <= v@.len(),
                v@ == s@,
                out@ == escaped(v@.take(i as int)),
            decreases v.len() - i,
        {
            let c = v[i];
            let ghost before = out@;
            if c == '"' {
                push_str(&mut out, "\\\"");
            } else if c == '\\' {
                push_str(&mut out, "\\\\");
            } else if c == '\n' {
                push_str(&mut out, "\\n");
            } else if c == '\r' {
                push_str(&mut out, "\\r");
            } else if c == '\t' {
                push_str(&mut out, "\\t");
            } else if c == '\u{08}' {
                push_str(&mut out, "\\b");
            } else if c == '\u{0C}' {
                push_str(&mut out, "\\f");
            } else {
                crate::text::push_char(&mut out, c);
            }
            proof {
                reveal_strlit("\\\"");
                reveal_strlit("\\\\");
                reveal_strlit("\\n");
                reveal_strlit("\\r");
                reveal_strlit("\\t");
                reveal_strlit("\\b");
                reveal_strlit("\\f");
                assert(v@.take(i + 1).drop_last() =~= v@.take(i as int));
                assert(v@.take(i + 1).last() == c);
                assert(out@ =~= before + escape_char(c));
            }
            i = i + 1;
        }
        assert(v@.take(v@.len() as int) =~= v@);
        out
    }

    /// The response for an error of a service: HTTP 599 with a JSON body holding the
    /// full error text.
    pub fn convert_error_to_response(error: &HyperlitError) -> (r: HttpResponse)
        ensures
            r.spec_status() == HttpStatusCode::NetworkConnectTimeoutError,
            r.spec_headers() == Map::<Seq<char>, Seq<char>>::empty().insert("Content-Type"@, "application/json"@),
            r.spec_body() is Bytes,
            body_bytes(r.spec_body()) == encode_utf8(error_body(error.text())),
    {
        let message = error.to_string();
        let mut body = "{\"error\":\"".to_owned();
        let e = Self::escape_json(message.as_str());
        push_str(&mut body, e.as_str());
        push_str(&mut body, "\"}");
        HttpResponse::new(HttpStatusCode::NetworkConnectTimeoutError)
            .with_content_type("application/json")
            .with_body(HttpBody::from_string(body.as_str()))
    }
}

/// The text of a file from its bytes: an error naming the file when they are not
/// valid UTF-8.
pub fn text_from_bytes(path: &FilePath, bytes: Vec<u8>) -> (r: HyperlitResult<String>)
    ensures
        match r {
            Ok(s) => valid_utf8(bytes@) && s@ == decode_utf8(bytes@),
            Err(e) => !valid_utf8(bytes@) && e.spec_kind() is Message
                && e.spec_kind()->message@ == "File is not valid UTF-8: "@ + path@,
        },
{
    match string_from_utf8(bytes) {
        Some(s) => Ok(s),
        None => {
            let mut m = "File is not valid UTF-8: ".to_owned();
            push_str(&mut m, path.as_str());
            Err(Box::new(HyperlitError::message(m.as_str())))
        },
    }
}

} // verus!
