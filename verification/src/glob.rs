//! Sets of glob patterns that select the files of a directory.
use vstd::prelude::*;
use std::path::Path;
use globset::{Glob, GlobBuilder, GlobSet, GlobSetBuilder};
use crate::error::{HyperlitError, HyperlitResult};
use crate::text::push_str;

verus! {

#[verifier::external_type_specification]
#[verifier::external_body]
pub struct ExGlob(Glob);

#[verifier::external_type_specification]
#[verifier::external_body]
pub struct ExGlobSet(GlobSet);

#[verifier::external_type_specification]
#[verifier::external_body]
pub struct ExGlobSetBuilder(GlobSetBuilder);

/// What `GlobBuilder::new(pattern).build()` reports for `pattern`: `None` when it
/// compiles, else the display text of the error.
pub uninterp spec fn glob_error_of(pattern: Seq<char>) -> Option<Seq<char>>;

/// Trusted: calls `GlobBuilder::new(pattern).build()`; whether it fails, and with what
/// text, is named, not described.
#[verifier::external_body]
fn compile_glob(pattern: &str) -> (r: Result<Glob, String>)
    ensures
        match r {
            Ok(_) => glob_error_of(pattern@) is None,
            Err(t) => glob_error_of(pattern@) == Some(t@),
        },
{
    GlobBuilder::new(pattern).build().map_err(|e| e.to_string())
}

/// Trusted: calls `GlobSetBuilder::new`.
#[verifier::external_body]
fn new_glob_set_builder() -> GlobSetBuilder {
    GlobSetBuilder::new()
}

/// Trusted: calls `GlobSetBuilder::add`.
#[verifier::external_body]
fn add_glob(builder: &mut GlobSetBuilder, glob: Glob) {
    builder.add(glob);
}

/// Trusted: calls `GlobSetBuilder::build`, which may fail (a pattern set too large
/// for the matcher); nothing is stated of when.
#[verifier::external_body]
fn finish_glob_set(builder: &GlobSetBuilder) -> Result<GlobSet, String> {
    builder.build().map_err(|e| e.to_string())
}

/// A set of glob patterns compiled together, with the patterns it was built from.
///
/// Only `build_glob_set` builds one, from exactly those patterns, in order.
#[derive(Debug)]
pub struct CompiledGlobs {
    set: GlobSet,
    patterns: Vec<String>,
}

/// Whether the glob set compiled from `patterns` (each with the default options of
/// `GlobBuilder`) matches the path `path`.
pub uninterp spec fn glob_set_matches_of(patterns: Seq<Seq<char>>, path: Seq<char>) -> bool;

/// Trusted: `GlobSet::is_match`; whether it matches is named after the patterns the
/// set was built from and the path.
#[verifier::external_body]
fn glob_set_is_match(globs: &CompiledGlobs, path: &str) -> (b: bool)
    ensures
        b == glob_set_matches_of(globs.spec_patterns(), path@),
{
    globs.set.is_match(path)
}

/// `path` with the leading components `prefix` taken off, as `Path::strip_prefix`
/// gives it (`None` where `prefix` is not a prefix of `path`).
pub uninterp spec fn strip_prefix_of(path: Seq<char>, prefix: Seq<char>) -> Option<Seq<char>>;

/// Trusted: `Path::strip_prefix`, its result as text (`to_string_lossy`, which is
/// exact on text that came from a `&str`).
#[verifier::external_body]
fn strip_path_prefix(path: &str, prefix: &str) -> (r: Option<String>)
    ensures
        match r {
            Some(s) => strip_prefix_of(path@, prefix@) == Some(s@),
            None => strip_prefix_of(path@, prefix@) is None,
        },
{
    match Path::new(path).strip_prefix(prefix) {
        Ok(rest) => Some(rest.to_string_lossy().to_string()),
        Err(_) => None,
    }
}

/// `rel` joined onto `base`, as `Path::join` gives it.
pub uninterp spec fn path_join_of(base: Seq<char>, rel: Seq<char>) -> Seq<char>;

/// Trusted: `Path::join`, its result as text (`to_string_lossy`, which is exact on text
/// that came from a `&str`).
#[verifier::external_body]
fn join_path(base: &str, rel: &str) -> (r: String)
    ensures
        r@ == path_join_of(base@, rel@),
{
    Path::new(base).join(rel).to_string_lossy().to_string()
}

impl CompiledGlobs {
    /// The patterns the set was built from.
    pub closed spec fn spec_patterns(&self) -> Seq<Seq<char>> {
        self.patterns@.map_values(|g: String| g@)
    }

    /// Whether any pattern of the set matches the path.
    pub fn is_match(&self, path: &str) -> (b: bool)
        ensures
            b == glob_set_matches_of(self.spec_patterns(), path@),
    {
        glob_set_is_match(self, path)
    }
}

/// The files a walk of the directory `root` selects: each walked path under `root`
/// whose part below `root` the patterns match, joined onto `base`, in walk order.
pub open spec fn selected(patterns: Seq<Seq<char>>, root: Seq<char>, base: Seq<char>, walked: Seq<Seq<char>>) -> Seq<Seq<char>>
    decreases walked.len(),
{
    if walked.len() == 0 {
        Seq::empty()
    } else {
        let rest = selected(patterns, root, base, walked.drop_last());
        match strip_prefix_of(walked.last(), root) {
            Some(rel) => if glob_set_matches_of(patterns, rel) {
                rest.push(path_join_of(base, rel))
            } else {
                rest
            },
            None => rest,
        }
    }
}

/// Select the files of a directory walk: the paths walked under `root` that the
/// patterns match below `root`, joined onto `base`, in the order walked.
pub fn select_matching(globs: &CompiledGlobs, root: &str, base: &str, walked: &Vec<String>) -> (r: Vec<String>)
    ensures
        r@.map_values(|s: String| s@) == selected(globs.spec_patterns(), root@, base@, walked@.map_values(|s: String| s@)),
{
    let ghost wv = walked@.map_values(|s: String| s@);
    let mut out: Vec<String> = Vec::new();
    let mut i: usize = 0;
    assert(wv.take(0) =~= Seq::<Seq<char>>::empty());
    assert(out@.map_values(|s: String| s@) =~= Seq::<Seq<char>>::empty());
    while i < walked.len()
        invariant
            i <= walked@.len(),
            wv == walked@.map_values(|s: String| s@),
            out@.map_values(|s: String| s@) == selected(globs.spec_patterns(), root@, base@, wv.take(i as int)),
        decreases walked.len() - i,
    {
        proof {
            assert(wv.take(i + 1).drop_last() =~= wv.take(i as int));
            assert(wv.take(i + 1).last() == walked@[i as int]@);
        }
        let ghost before = out@.map_values(|s: String| s@);
        match strip_path_prefix(walked[i].as_str(), root) {
            Some(rel) => {
                if globs.is_match(rel.as_str()) {
                    out.push(join_path(base, rel.as_str()));
                    assert(out@.map_values(|s: String| s@) =~= before.push(out@.last()@));
                }
            },
            None => {},
        }
        i = i + 1;
    }
    assert(wv.take(walked@.len() as int) =~= wv);
    out
}

/// Whether the patterns before position `k` all compile.
pub open spec fn globs_compile(globs: Seq<Seq<char>>, k: int) -> bool {
    forall|j: int| 0 <= j < k ==> glob_error_of(#[trigger] globs[j]) is None
}

/// Compile glob patterns into a set. The first pattern that does not compile gives
/// the error `Invalid glob pattern '<pattern>': <reason>`; a set that cannot be built
/// gives `Failed to build glob set: <reason>`.
pub fn build_glob_set(globs: &[String]) -> (r: HyperlitResult<CompiledGlobs>)
    ensures
        r matches Ok(c) ==> globs_compile(globs@.map_values(|g: String| g@), globs@.len() as int)
            && c.spec_patterns() == globs@.map_values(|g: String| g@),
        r matches Err(e) ==> (e.spec_kind() is Message && ((exists|k: int| #![trigger globs@[k]]
            0 <= k < globs@.len() && globs_compile(globs@.map_values(|g: String| g@), k)
            && glob_error_of(globs@[k]@) is Some
            && e.spec_kind()->message@ == "Invalid glob pattern '"@ + globs@[k]@ + "': "@ + glob_error_of(globs@[k]@)->0)
            || (globs_compile(globs@.map_values(|g: String| g@), globs@.len() as int)
                && exists|t: Seq<char>| e.spec_kind()->message@ == "Failed to build glob set: "@ + t))),
{
    let ghost gv = globs@.map_values(|g: String| g@);
    let mut builder = new_glob_set_builder();
    let mut i: usize = 0;
    while i < globs.len()
        invariant
            i <= globs@.len(),
            gv == globs@.map_values(|g: String| g@),
            globs_compile(gv, i as int),
        decreases globs.len() - i,
    {
        match compile_glob(globs[i].as_str()) {
            Ok(g) => {
                add_glob(&mut builder, g);
            },
            Err(t) => {
                let mut m = "Invalid glob pattern '".to_owned();
                push_str(&mut m, globs[i].as_str());
                push_str(&mut m, "': ");
                push_str(&mut m, t.as_str());
                let e = Box::new(HyperlitError::message(m.as_str()));
                assert(gv[i as int] == globs@[i as int]@);
                return Err(e);
            },
        }
        assert(gv[i as int] == globs@[i as int]@);
        i = i + 1;
    }
    match finish_glob_set(&builder) {
        Ok(set) => {
            let mut patterns: Vec<String> = Vec::new();
            let mut k: usize = 0;
            while k < globs.len()
                invariant
                    k <= globs@.len(),
                    gv == globs@.map_values(|g: String| g@),
                    patterns@.map_values(|g: String| g@) == gv.take(k as int),
                decreases globs.len() - k,
            {
                let ghost before = patterns@.map_values(|g: String| g@);
                patterns.push(globs[k].clone());
                assert(patterns@.map_values(|g: String| g@) =~= before.push(globs@[k as int]@));
                assert(gv.take(k + 1) =~= gv.take(k as int).push(gv[k as int]));
                k = k + 1;
            }
            assert(gv.take(globs@.len() as int) =~= gv);
            Ok(CompiledGlobs { set, patterns })
        },
        Err(t) => {
            let mut m = "Failed to build glob set: ".to_owned();
            push_str(&mut m, t.as_str());
            Err(Box::new(HyperlitError::message(m.as_str())))
        },
    }
}

} // verus!
