//! Paths of files relative to the base directory of a platform layer, held as the
//! text that names them.
use vstd::prelude::*;
use std::path::Path;

verus! {

/// What `Path::file_stem` gives for the path named by `p`, read as UTF-8 text
/// (`None` where there is no file name or it is not valid text).
pub uninterp spec fn file_stem_of(p: Seq<char>) -> Option<Seq<char>>;

/// What `Path::extension` gives for the path named by `p`, read as UTF-8 text.
pub uninterp spec fn extension_of(p: Seq<char>) -> Option<Seq<char>>;

/// Trusted: calls `Path::file_stem` and `OsStr::to_str`; the result is named, not
/// described.
#[verifier::external_body]
fn path_file_stem(p: &str) -> (r: Option<String>)
    ensures
        match r {
            Some(s) => file_stem_of(p@) == Some(s@),
            None => file_stem_of(p@) is None,
        },
{
    Path::new(p).file_stem().and_then(|s| s.to_str()).map(|s| s.to_owned())
}

/// Trusted: calls `Path::extension` and `OsStr::to_str`; the result is named, not
/// described.
#[verifier::external_body]
fn path_extension(p: &str) -> (r: Option<String>)
    ensures
        match r {
            Some(s) => extension_of(p@) == Some(s@),
            None => extension_of(p@) is None,
        },
{
    Path::new(p).extension().and_then(|s| s.to_str()).map(|s| s.to_owned())
}

/// Type-safe name of a file relative to the base directory of a platform layer.
#[derive(Debug, PartialEq, Eq, Hash)]
pub struct FilePath(String);

impl View for FilePath {
    type V = Seq<char>;

    closed spec fn view(&self) -> Seq<char> {
        self.0@
    }
}

impl FilePath {
    /// The path as a string slice.
    pub fn as_str(&self) -> (s: &str)
        ensures
            s@ == self@,
    {
        self.0.as_str()
    }

    /// The path as an owned string (its display form).
    pub fn to_string(&self) -> (s: String)
        ensures
            s@ == self@,
    {
        self.0.clone()
    }

    /// The file name without its extension, if there is one that is valid text.
    pub fn file_stem(&self) -> (r: Option<String>)
        ensures
            match r {
                Some(s) => file_stem_of(self@) == Some(s@),
                None => file_stem_of(self@) is None,
            },
    {
        path_file_stem(self.0.as_str())
    }

    /// The extension of the file name, if there is one that is valid text.
    pub fn extension(&self) -> (r: Option<String>)
        ensures
            match r {
                Some(s) => extension_of(self@) == Some(s@),
                None => extension_of(self@) is None,
            },
    {
        path_extension(self.0.as_str())
    }

    /// Whether two paths are named by the same text.
    pub fn same_as(&self, other: &FilePath) -> (b: bool)
        ensures
            b == (self@ == other@),
    {
        self.0 == other.0
    }
}

impl Clone for FilePath {
    fn clone(&self) -> (p: Self)
        ensures
            p == *self,
    {
        FilePath(self.0.clone())
    }
}

impl<'a> From<&'a str> for FilePath {
    fn from(s: &'a str) -> (p: Self)
        ensures
            p@ == s@,
    {
        FilePath(s.to_owned())
    }
}

impl<'a> vstd::std_specs::convert::FromSpecImpl<&'a str> for FilePath {
    open spec fn obeys_from_spec() -> bool {
        false
    }

    open spec fn from_spec(v: &'a str) -> Self {
        arbitrary()
    }
}

impl From<String> for FilePath {
    fn from(s: String) -> (p: Self)
        ensures
            p@ == s@,
    {
        FilePath(s)
    }
}

impl vstd::std_specs::convert::FromSpecImpl<String> for FilePath {
    open spec fn obeys_from_spec() -> bool {
        false
    }

    open spec fn from_spec(v: String) -> Self {
        arbitrary()
    }
}

} // verus!
