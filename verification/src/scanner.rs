//! Finding the files of a documentation site: each configured directory is walked
//! with its glob patterns; errors are collected and the scan goes on.
use vstd::prelude::*;
use crate::error::{HyperlitError, HyperlitResult};
use crate::path::FilePath;

verus! {

/// Configuration for a specific directory within the site.
#[derive(Debug, Clone)]
pub struct DirectoryConfig {
    /// Paths to the directory.
    pub paths: Vec<String>,
    /// Glob patterns for files in this directory.
    pub globs: Vec<String>,
}

/// Configuration for a documentation site.
#[derive(Debug, Clone)]
pub struct Config {
    /// Title of the documentation site.
    pub title: String,
    /// Template for generating source code links.
    pub source_link_template: String,
    /// Custom directory configurations.
    pub directory: Vec<DirectoryConfig>,
}

/// Results from scanning files: the files found and the errors met.
#[derive(Debug)]
pub struct ScanResult {
    /// Files found during the scan.
    pub files: Vec<FilePath>,
    /// Errors encountered during the scan (non-fatal).
    pub errors: Vec<ScanError>,
}

/// Error encountered while scanning a specific directory.
#[derive(Debug)]
pub struct ScanError {
    /// The directory path that was being scanned when the error occurred.
    pub directory_path: String,
    /// The error that occurred.
    pub error: Box<HyperlitError>,
}

/// The outcome of walking one directory: an error, or the entries found (each a file
/// or an error).
pub type WalkOutcome = HyperlitResult<Vec<HyperlitResult<FilePath>>>;

/// The files found by the walks, in order.
pub open spec fn walk_files(walks: Seq<(String, WalkOutcome)>) -> Seq<Seq<char>>
    decreases walks.len(),
{
    if walks.len() == 0 {
        Seq::empty()
    } else {
        walk_files(walks.drop_last()) + match walks.last().1 {
            Ok(items) => entry_files(items@),
            Err(_) => Seq::empty(),
        }
    }
}

/// The files among the entries of a walk.
pub open spec fn entry_files(items: Seq<HyperlitResult<FilePath>>) -> Seq<Seq<char>>
    decreases items.len(),
{
    if items.len() == 0 {
        Seq::empty()
    } else {
        entry_files(items.drop_last()) + match items.last() {
            Ok(f) => seq![f@],
            Err(_) => Seq::empty(),
        }
    }
}

/// The number of errors among the entries of a walk.
pub open spec fn entry_errors(items: Seq<HyperlitResult<FilePath>>) -> nat
    decreases items.len(),
{
    if items.len() == 0 {
        0
    } else {
        entry_errors(items.drop_last()) + if items.last() is Err { 1nat } else { 0nat }
    }
}

/// The directory path of each error met by the walks, in order.
pub open spec fn walk_errors(walks: Seq<(String, WalkOutcome)>) -> Seq<Seq<char>>
    decreases walks.len(),
{
    if walks.len() == 0 {
        Seq::empty()
    } else {
        walk_errors(walks.drop_last()) + match walks.last().1 {
            Ok(items) => Seq::new(entry_errors(items@), |i: int| walks.last().0@),
            Err(_) => seq![walks.last().0@],
        }
    }
}

/// The directory paths of a configuration, directory by directory.
pub open spec fn config_paths(dirs: Seq<DirectoryConfig>) -> Seq<Seq<char>>
    decreases dirs.len(),
{
    if dirs.len() == 0 {
        Seq::empty()
    } else {
        config_paths(dirs.drop_last()) + dirs.last().paths@.map_values(|p: String| p@)
    }
}

/// The files and errors of a scan, given the outcome of walking each directory.
pub fn collect_scan(walks: Vec<(String, WalkOutcome)>) -> (r: ScanResult)
    ensures
        r.files@.map_values(|f: FilePath| f@) == walk_files(walks@),
        r.errors@.map_values(|e: ScanError| e.directory_path@) == walk_errors(walks@),
{
    let ghost ws = walks@;
    let mut files: Vec<FilePath> = Vec::new();
    let mut errors: Vec<ScanError> = Vec::new();
    let mut walks = walks;
    let ghost n = ws.len();
    assert(ws.skip(0) =~= ws);
    assert(ws.take(0) =~= Seq::<(String, WalkOutcome)>::empty());
    while walks.len() > 0
        invariant
            walks@.len() <= n,
            n == ws.len(),
            walks@ == ws.skip(n - walks@.len()),
            files@.map_values(|f: FilePath| f@) == walk_files(ws.take(n - walks@.len())),
            errors@.map_values(|e: ScanError| e.directory_path@) == walk_errors(ws.take(n - walks@.len())),
        decreases walks@.len(),
    {
        let ghost k = n - walks@.len();
        let (path, outcome) = walks.remove(0);
        proof {
            assert(ws.skip(k)[0] == ws[k]);
            assert(ws.skip(k).drop_first() =~= ws.skip(k + 1));
            assert(ws.take(k + 1).drop_last() =~= ws.take(k));
            assert(ws.take(k + 1).last() == ws[k]);
        }
        let ghost f0 = files@.map_values(|f: FilePath| f@);
        let ghost e0 = errors@.map_values(|e: ScanError| e.directory_path@);
        match outcome {
            Ok(items) => {
                let ghost iv = items@;
                let mut items = items;
                let ghost m = iv.len();
                assert(iv.skip(0) =~= iv);
                assert(iv.take(0) =~= Seq::<HyperlitResult<FilePath>>::empty());
                while items.len() > 0
                    invariant
                        items@.len() <= m,
                        m == iv.len(),
                        items@ == iv.skip(m - items@.len()),
                        files@.map_values(|f: FilePath| f@) == f0 + entry_files(iv.take(m - items@.len())),
                        errors@.map_values(|e: ScanError| e.directory_path@)
                            == e0 + Seq::new(entry_errors(iv.take(m - items@.len())), |i: int| path@),
                    decreases items@.len(),
                {
                    let ghost j = m - items@.len();
                    let item = items.remove(0);
                    proof {
                        assert(iv.skip(j)[0] == iv[j]);
                        assert(iv.skip(j).drop_first() =~= iv.skip(j + 1));
                        assert(iv.take(j + 1).drop_last() =~= iv.take(j));
                        assert(iv.take(j + 1).last() == iv[j]);
                    }
                    let ghost fb = files@.map_values(|f: FilePath| f@);
                    let ghost eb = errors@.map_values(|e: ScanError| e.directory_path@);
                    match item {
                        Ok(f) => {
                            files.push(f);
                            assert(files@.map_values(|f: FilePath| f@) =~= fb.push(iv[j]->Ok_0@));
                            assert(errors@.map_values(|e: ScanError| e.directory_path@) =~= e0 + Seq::new(entry_errors(iv.take(j + 1)), |i: int| path@));
                        },
                        Err(e) => {
                            errors.push(ScanError { directory_path: path.clone(), error: e });
                            assert(errors@.map_values(|e: ScanError| e.directory_path@) =~= eb.push(path@));
                            assert(entry_errors(iv.take(j + 1)) == entry_errors(iv.take(j)) + 1);
                            assert(Seq::new(entry_errors(iv.take(j + 1)), |i: int| path@) =~= Seq::new(entry_errors(iv.take(j)), |i: int| path@).push(path@));
                            assert(errors@.map_values(|e: ScanError| e.directory_path@) =~= e0 + Seq::new(entry_errors(iv.take(j + 1)), |i: int| path@));
                        },
                    }
                }
                assert(iv.take(m as int) =~= iv);
            },
            Err(e) => {
                errors.push(ScanError { directory_path: path, error: e });
                assert(errors@.map_values(|e: ScanError| e.directory_path@) =~= e0.push(ws[k].0@));
                assert(files@.map_values(|f: FilePath| f@) =~= f0 + Seq::<Seq<char>>::empty());
            },
        }
    }
    assert(ws.take(n as int) =~= ws);
    ScanResult { files, errors }
}

/// The directory paths walked, one after the other.
pub open spec fn walk_paths(walks: Seq<(String, WalkOutcome)>) -> Seq<Seq<char>> {
    walks.map_values(|w: (String, WalkOutcome)| w.0@)
}

/// The glob patterns each directory path is walked with, path by path.
pub open spec fn config_globs(dirs: Seq<DirectoryConfig>) -> Seq<Seq<Seq<char>>>
    decreases dirs.len(),
{
    if dirs.len() == 0 {
        Seq::empty()
    } else {
        config_globs(dirs.drop_last())
            + Seq::new(dirs.last().paths@.len(), |i: int| dirs.last().globs@.map_values(|g: String| g@))
    }
}

/// The outcome of a walk is one that `walk_directory` may return for its directory
/// and the patterns `globs`.
pub open spec fn walked_by<F: Fn(&FilePath, &[String]) -> WalkOutcome>(walk_directory: F, w: (String, WalkOutcome), globs: Seq<Seq<char>>) -> bool {
    exists|p: &FilePath, g: &[String]|
        p@ == w.0@ && g@.map_values(|s: String| s@) == globs && #[trigger] call_ensures(walk_directory, (p, g), w.1)
}

/// Scan for files matching the configured glob patterns: `walk_directory` walks one
/// directory with the given patterns. Each configured path is walked once, in order,
/// with the patterns of its directory; the files are those of the walks, in order;
/// every failed walk and every failed entry gives an error naming its directory.
pub fn scan_files<F: Fn(&FilePath, &[String]) -> WalkOutcome>(walk_directory: F, config: &Config) -> (r: HyperlitResult<ScanResult>)
    requires
        forall|p: &FilePath, g: &[String]| #[trigger] walk_directory.requires((p, g)),
    ensures
        r matches Ok(res) && exists|walks: Seq<(String, WalkOutcome)>|
            #[trigger] walk_paths(walks) == config_paths(config.directory@)
            && walks.len() == config_globs(config.directory@).len()
            && (forall|i: int| 0 <= i < walks.len() ==> walked_by(walk_directory, #[trigger] walks[i], config_globs(config.directory@)[i]))
            && res.files@.map_values(|f: FilePath| f@) == walk_files(walks)
            && res.errors@.map_values(|e: ScanError| e.directory_path@) == walk_errors(walks),
{
    let mut walks: Vec<(String, WalkOutcome)> = Vec::new();
    let dirs = &config.directory;
    let mut d: usize = 0;
    assert(dirs@.take(0) =~= Seq::<DirectoryConfig>::empty());
    assert(walk_paths(walks@) =~= Seq::<Seq<char>>::empty());
    while d < dirs.len()
        invariant
            d <= dirs@.len(),
            dirs@ == config.directory@,
            forall|p: &FilePath, g: &[String]| #[trigger] walk_directory.requires((p, g)),
            walk_paths(walks@) == config_paths(dirs@.take(d as int)),
            walks@.len() == config_globs(dirs@.take(d as int)).len(),
            forall|i: int| 0 <= i < walks@.len() ==>
                walked_by(walk_directory, #[trigger] walks@[i], config_globs(dirs@.take(d as int))[i]),
        decreases dirs.len() - d,
    {
        let dir = &dirs[d];
        let ghost before = walk_paths(walks@);
        let ghost before_globs = config_globs(dirs@.take(d as int));
        let ghost gv = dir.globs@.map_values(|g: String| g@);
        let mut p: usize = 0;
        assert(dir.paths@.take(0).map_values(|p: String| p@) =~= Seq::<Seq<char>>::empty());
        while p < dir.paths.len()
            invariant
                p <= dir.paths@.len(),
                forall|p: &FilePath, g: &[String]| #[trigger] walk_directory.requires((p, g)),
                walk_paths(walks@) == before + dir.paths@.take(p as int).map_values(|p: String| p@),
                gv == dir.globs@.map_values(|g: String| g@),
                walks@.len() == before_globs.len() + p,
                forall|i: int| 0 <= i < walks@.len() ==>
                    walked_by(walk_directory, #[trigger] walks@[i], (before_globs + Seq::new(p as nat, |k: int| gv))[i]),
            decreases dir.paths.len() - p,
        {
            let path = FilePath::from(dir.paths[p].as_str());
            let globs = dir.globs.as_slice();
            let outcome = walk_directory(&path, globs);
            let ghost wb = walks@;
            let ghost gb = before_globs + Seq::new(p as nat, |k: int| gv);
            walks.push((dir.paths[p].clone(), outcome));
            proof {
                assert(walk_paths(walks@) =~= walk_paths(wb).push(dir.paths@[p as int]@));
                assert(dir.paths@.take(p + 1).map_values(|p: String| p@) =~= dir.paths@.take(p as int).map_values(|p: String| p@).push(dir.paths@[p as int]@));
                let gn = before_globs + Seq::new((p + 1) as nat, |k: int| gv);
                assert(gn =~= gb.push(gv));
                assert(walked_by(walk_directory, walks@[wb.len() as int], gv)) by {
                    assert(call_ensures(walk_directory, (&path, globs), walks@[wb.len() as int].1));
                }
                assert forall|i: int| 0 <= i < walks@.len() implies
                    walked_by(walk_directory, #[trigger] walks@[i], gn[i]) by {
                    if i < wb.len() {
                        assert(walks@[i] == wb[i]);
                        assert(gn[i] == gb[i]);
                    }
                }
            }
            p = p + 1;
        }
        proof {
            assert(dir.paths@.take(dir.paths@.len() as int) =~= dir.paths@);
            assert(dirs@.take(d + 1).drop_last() =~= dirs@.take(d as int));
            assert(dirs@.take(d + 1).last() == dirs@[d as int]);
            assert(config_globs(dirs@.take(d + 1)) =~= before_globs + Seq::new(dir.paths@.len(), |k: int| gv));
        }
        d = d + 1;
    }
    assert(dirs@.take(dirs@.len() as int) =~= dirs@);
    let ghost ws = walks@;
    let res = collect_scan(walks);
    Ok(res)
}

} // verus!
