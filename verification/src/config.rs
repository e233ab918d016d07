//! The `hyperlit.toml` configuration: the title, directories and templates of a
//! documentation build, read from a TOML document.
use vstd::prelude::*;
use crate::error::{ErrorKind, HyperlitError, HyperlitResult};
use crate::text::push_str;

verus! {

/// A value inside an array of a directory table, as far as the configuration reads
/// it: a string or something else.
#[derive(Debug, Clone)]
pub enum TomlLeaf {
    Str(String),
    Other,
}

/// A value of a directory table: a string, an array, or something else.
#[derive(Debug, Clone)]
pub enum TomlField {
    Str(String),
    Array(Vec<TomlLeaf>),
    Other,
}

/// An element of a top-level array: a table or something else.
#[derive(Debug, Clone)]
pub enum TomlItem {
    Table(Vec<(String, TomlField)>),
    Other,
}

/// A top-level value: a string, an array, or something else.
#[derive(Debug, Clone)]
pub enum TomlTop {
    Str(String),
    Array(Vec<TomlItem>),
    Other,
}

/// What a leaf holds, as mathematical values.
pub enum LeafView {
    Str(Seq<char>),
    Other,
}

/// What a field holds, as mathematical values.
pub enum FieldView {
    Str(Seq<char>),
    Array(Seq<LeafView>),
    Other,
}

/// What an item holds, as mathematical values.
pub enum ItemView {
    Table(Seq<(Seq<char>, FieldView)>),
    Other,
}

/// What a top-level value holds, as mathematical values.
pub enum TopView {
    Str(Seq<char>),
    Array(Seq<ItemView>),
    Other,
}

impl View for TomlLeaf {
    type V = LeafView;

    open spec fn view(&self) -> LeafView {
        match self {
            TomlLeaf::Str(s) => LeafView::Str(s@),
            TomlLeaf::Other => LeafView::Other,
        }
    }
}

impl View for TomlField {
    type V = FieldView;

    open spec fn view(&self) -> FieldView {
        match self {
            TomlField::Str(s) => FieldView::Str(s@),
            TomlField::Array(v) => FieldView::Array(v@.map_values(|l: TomlLeaf| l@)),
            TomlField::Other => FieldView::Other,
        }
    }
}

impl View for TomlItem {
    type V = ItemView;

    open spec fn view(&self) -> ItemView {
        match self {
            TomlItem::Table(t) => ItemView::Table(t@.map_values(|e: (String, TomlField)| (e.0@, e.1@))),
            TomlItem::Other => ItemView::Other,
        }
    }
}

impl View for TomlTop {
    type V = TopView;

    open spec fn view(&self) -> TopView {
        match self {
            TomlTop::Str(s) => TopView::Str(s@),
            TomlTop::Array(v) => TopView::Array(v@.map_values(|i: TomlItem| i@)),
            TomlTop::Other => TopView::Other,
        }
    }
}

/// The views of the entries of a top-level table.
pub open spec fn top_views(t: Seq<(String, TomlTop)>) -> Seq<(Seq<char>, TopView)> {
    t.map_values(|e: (String, TomlTop)| (e.0@, e.1@))
}

/// What `toml_span::parse` gives for `text`: the entries of the top-level table in
/// key order (`Ok(None)` when the document is not a table), or the display text of
/// the parse error.
pub uninterp spec fn toml_doc_of(text: Seq<char>) -> Result<Option<Seq<(Seq<char>, TopView)>>, Seq<char>>;

#[verifier::external_type_specification]
#[verifier::external_body]
pub struct ExTomlValue<'de>(toml_span::Value<'de>);

/// Trusted: a TOML value as a leaf: one arm for a string, one for anything else.
#[verifier::external_body]
fn toml_leaf(v: &toml_span::Value) -> TomlLeaf {
    match v.as_str() {
        Some(s) => TomlLeaf::Str(s.to_owned()),
        None => TomlLeaf::Other,
    }
}

/// Trusted: a TOML value as a field: a string, an array of leaves, or something else.
#[verifier::external_body]
fn toml_field(v: &toml_span::Value) -> TomlField {
    if let Some(s) = v.as_str() {
        return TomlField::Str(s.to_owned());
    }
    match v.as_array() {
        Some(a) => TomlField::Array(a.iter().map(|x| toml_leaf(x)).collect()),
        None => TomlField::Other,
    }
}

/// Trusted: a TOML value as an item: a table of fields (in key order) or something
/// else.
#[verifier::external_body]
fn toml_item(v: &toml_span::Value) -> TomlItem {
    match v.as_table() {
        Some(t) => TomlItem::Table(t.iter().map(|(k, x)| (k.name.to_string(), toml_field(x))).collect()),
        None => TomlItem::Other,
    }
}

/// Trusted: a TOML value as a top-level value: a string, an array of items, or
/// something else.
#[verifier::external_body]
fn toml_top(v: &toml_span::Value) -> TomlTop {
    if let Some(s) = v.as_str() {
        return TomlTop::Str(s.to_owned());
    }
    match v.as_array() {
        Some(a) => TomlTop::Array(a.iter().map(|x| toml_item(x)).collect()),
        None => TomlTop::Other,
    }
}

/// Trusted: calls `toml_span::parse`; the top-level table comes back as its entries
/// in key order, a parse error as its display text. The result is named, not
/// described.
#[verifier::external_body]
fn toml_parse(text: &str) -> (r: Result<Option<Vec<(String, TomlTop)>>, String>)
    ensures
        match r {
            Ok(Some(t)) => toml_doc_of(text@) == Ok::<Option<Seq<(Seq<char>, TopView)>>, Seq<char>>(Some(top_views(t@))),
            Ok(None) => toml_doc_of(text@) == Ok::<Option<Seq<(Seq<char>, TopView)>>, Seq<char>>(None),
            Err(e) => toml_doc_of(text@) == Err::<Option<Seq<(Seq<char>, TopView)>>, Seq<char>>(e@),
        },
{
    match toml_span::parse(text) {
        Ok(v) => Ok(v.as_table().map(|t| t.iter().map(|(k, x)| (k.name.to_string(), toml_top(x))).collect())),
        Err(e) => Err(e.to_string()),
    }
}


/// The value under `key` among the entries of a table (its keys are unique).
pub open spec fn lookup<V>(t: Seq<(Seq<char>, V)>, key: Seq<char>) -> Option<V>
    decreases t.len(),
{
    if t.len() == 0 {
        None
    } else if t[0].0 == key {
        Some(t[0].1)
    } else {
        lookup(t.drop_first(), key)
    }
}

/// The message `<key> <what>`.
pub open spec fn key_msg(key: Seq<char>, what: Seq<char>) -> Seq<char> {
    key + what
}

/// A required string of the top-level table.
pub open spec fn string_value(t: Seq<(Seq<char>, TopView)>, key: Seq<char>) -> Result<Seq<char>, Seq<char>> {
    match lookup(t, key) {
        None => Err(key_msg(key, " not found"@)),
        Some(TopView::Str(s)) => Ok(s),
        Some(_) => Err(key_msg(key, " is not a string"@)),
    }
}

/// An optional string of the top-level table, with a default.
pub open spec fn string_or(t: Seq<(Seq<char>, TopView)>, key: Seq<char>, default: Seq<char>) -> Result<Seq<char>, Seq<char>> {
    match lookup(t, key) {
        None => Ok(default),
        Some(TopView::Str(s)) => Ok(s),
        Some(_) => Err(key_msg(key, " is not a string"@)),
    }
}

/// The strings of an array, if all its elements are strings.
pub open spec fn leaf_strings(items: Seq<LeafView>) -> Option<Seq<Seq<char>>>
    decreases items.len(),
{
    if items.len() == 0 {
        Some(Seq::empty())
    } else {
        match leaf_strings(items.drop_last()) {
            None => None,
            Some(r) => match items.last() {
                LeafView::Str(s) => Some(r.push(s)),
                LeafView::Other => None,
            },
        }
    }
}

/// An array of strings of a directory table, with a default when it is absent
/// (`None`: it is required).
pub open spec fn string_array(t: Seq<(Seq<char>, FieldView)>, key: Seq<char>, default: Option<Seq<Seq<char>>>) -> Result<Seq<Seq<char>>, Seq<char>> {
    match lookup(t, key) {
        None => match default {
            Some(d) => Ok(d),
            None => Err(key_msg(key, " not found"@)),
        },
        Some(FieldView::Array(items)) => match leaf_strings(items) {
            Some(v) => Ok(v),
            None => Err(key_msg(key, " is not a string"@)),
        },
        Some(_) => Err(key_msg(key, " is not an array"@)),
    }
}

/// What a directory configuration holds, as mathematical values.
pub struct DirectoryView {
    pub paths: Seq<Seq<char>>,
    pub globs: Seq<Seq<char>>,
    pub markers: Seq<Seq<char>>,
}

/// The directory configuration of an element of the `directory` array.
pub open spec fn directory_of(item: ItemView) -> Result<DirectoryView, Seq<char>> {
    match item {
        ItemView::Table(t) => match string_array(t, "paths"@, None) {
            Err(m) => Err(m),
            Ok(paths) => match string_array(t, "globs"@, None) {
                Err(m) => Err(m),
                Ok(globs) => match string_array(t, "markers"@, Some(Seq::empty())) {
                    Err(m) => Err(m),
                    Ok(markers) => Ok(DirectoryView { paths, globs, markers }),
                },
            },
        },
        ItemView::Other => Err("directory is not a table"@),
    }
}

/// The directory configurations of the `directory` array; the first error wins.
pub open spec fn directories_of(items: Seq<ItemView>) -> Result<Seq<DirectoryView>, Seq<char>>
    decreases items.len(),
{
    if items.len() == 0 {
        Ok(Seq::empty())
    } else {
        match directories_of(items.drop_last()) {
            Err(m) => Err(m),
            Ok(r) => match directory_of(items.last()) {
                Err(m) => Err(m),
                Ok(d) => Ok(r.push(d)),
            },
        }
    }
}

/// What a configuration holds, as mathematical values.
pub struct ConfigView {
    pub title: Seq<char>,
    pub config_path: Seq<char>,
    pub build_directory: Seq<char>,
    pub output_directory: Seq<char>,
    pub source_link_template: Option<Seq<char>>,
    pub directories: Seq<DirectoryView>,
}

/// The configuration of a top-level table, or the message of its first error: the
/// directories, then the title, the build and the output directory are read in turn.
pub open spec fn config_of_table(t: Seq<(Seq<char>, TopView)>) -> Result<ConfigView, Seq<char>> {
    let dirs = match lookup(t, "directory"@) {
        Some(TopView::Array(items)) => directories_of(items),
        _ => Ok(Seq::empty()),
    };
    match dirs {
        Err(m) => Err(m),
        Ok(directories) => match string_value(t, "title"@) {
            Err(m) => Err(m),
            Ok(title) => match string_or(t, "build_directory"@, "build"@) {
                Err(m) => Err(m),
                Ok(build_directory) => match string_or(t, "output_directory"@, "output"@) {
                    Err(m) => Err(m),
                    Ok(output_directory) => Ok(ConfigView {
                        title,
                        config_path: match lookup(t, "config_path"@) {
                            Some(TopView::Str(s)) => s,
                            _ => "hyperlit.toml"@,
                        },
                        build_directory,
                        output_directory,
                        source_link_template: match string_value(t, "source_link_template"@) {
                            Ok(s) => Some(s),
                            Err(_) => None,
                        },
                        directories,
                    }),
                },
            },
        },
    }
}

/// A directory with source and documentation files.
#[derive(Debug, Clone)]
pub struct DirectoryConfig {
    pub paths: Vec<String>,
    pub globs: Vec<String>,
    pub markers: Vec<String>,
}

/// The strings of a vector, as character sequences.
pub open spec fn strings_view(v: Seq<String>) -> Seq<Seq<char>> {
    v.map_values(|s: String| s@)
}

impl View for DirectoryConfig {
    type V = DirectoryView;

    open spec fn view(&self) -> DirectoryView {
        DirectoryView { paths: strings_view(self.paths@), globs: strings_view(self.globs@), markers: strings_view(self.markers@) }
    }
}

/// Configuration of the document generation process.
#[derive(Debug, Clone)]
pub struct HyperlitConfig {
    /// Title of the resulting document
    pub title: String,
    /// Path to the hyperlit.toml file
    pub config_path: String,
    /// Path to a build directory used for temporary files
    pub build_directory: String,
    /// Directory to write the complete documentation output to
    pub output_directory: String,
    /// Template used to generate links to source code
    pub source_link_template: Option<String>,
    /// Directories with source and documentation files
    pub directories: Vec<DirectoryConfig>,
}

impl View for HyperlitConfig {
    type V = ConfigView;

    open spec fn view(&self) -> ConfigView {
        ConfigView {
            title: self.title@,
            config_path: self.config_path@,
            build_directory: self.build_directory@,
            output_directory: self.output_directory@,
            source_link_template: match self.source_link_template {
                Some(s) => Some(s@),
                None => None,
            },
            directories: self.directories@.map_values(|d: DirectoryConfig| d@),
        }
    }
}

/// Whether `e` is a plain message error with text `m`.
pub open spec fn is_message(e: HyperlitError, m: Seq<char>) -> bool {
    e.spec_kind() is Message && e.spec_kind()->message@ == m
}

/// The message `<key><what>` as an error.
fn key_error(key: &str, what: &str) -> (e: Box<HyperlitError>)
    ensures
        is_message(*e, key_msg(key@, what@)),
{
    let mut m = key.to_owned();
    push_str(&mut m, what);
    Box::new(HyperlitError::message(m.as_str()))
}

/// The position of the entry with key `key` in a top-level table.
fn find_top(t: &Vec<(String, TomlTop)>, key: &str) -> (r: Option<usize>)
    ensures
        match r {
            Some(i) => i < t@.len() && lookup(top_views(t@), key@) == Some(t@[i as int].1@),
            None => lookup(top_views(t@), key@) is None,
        },
{
    let ghost tv = top_views(t@);
    let mut i: usize = 0;
    assert(tv.skip(0) =~= tv);
    while i < t.len()
        invariant
            i <= t@.len(),
            tv == top_views(t@),
            lookup(tv, key@) == lookup(tv.skip(i as int), key@),
        decreases t.len() - i,
    {
        proof {
            assert(tv.skip(i as int).drop_first() =~= tv.skip(i + 1));
            assert(tv.skip(i as int)[0] == tv[i as int]);
        }
        if crate::http::str_eq(t[i].0.as_str(), key) {
            return Some(i);
        }
        i = i + 1;
    }
    assert(tv.skip(i as int) =~= Seq::<(Seq<char>, TopView)>::empty());
    None
}

/// The position of the entry with key `key` in a directory table.
fn find_field(t: &Vec<(String, TomlField)>, key: &str) -> (r: Option<usize>)
    ensures
        match r {
            Some(i) => i < t@.len() && lookup(field_views(t@), key@) == Some(t@[i as int].1@),
            None => lookup(field_views(t@), key@) is None,
        },
{
    let ghost tv = field_views(t@);
    let mut i: usize = 0;
    assert(tv.skip(0) =~= tv);
    while i < t.len()
        invariant
            i <= t@.len(),
            tv == field_views(t@),
            lookup(tv, key@) == lookup(tv.skip(i as int), key@),
        decreases t.len() - i,
    {
        proof {
            assert(tv.skip(i as int).drop_first() =~= tv.skip(i + 1));
            assert(tv.skip(i as int)[0] == tv[i as int]);
        }
        if crate::http::str_eq(t[i].0.as_str(), key) {
            return Some(i);
        }
        i = i + 1;
    }
    assert(tv.skip(i as int) =~= Seq::<(Seq<char>, FieldView)>::empty());
    None
}

/// The views of the entries of a directory table.
pub open spec fn field_views(t: Seq<(String, TomlField)>) -> Seq<(Seq<char>, FieldView)> {
    t.map_values(|e: (String, TomlField)| (e.0@, e.1@))
}

/// A required string of the top-level table.
pub fn get_string(table: &Vec<(String, TomlTop)>, key: &str) -> (r: HyperlitResult<String>)
    ensures
        match string_value(top_views(table@), key@) {
            Ok(s) => r matches Ok(v) && v@ == s,
            Err(m) => r matches Err(e) && is_message(*e, m),
        },
{
    match find_top(table, key) {
        None => Err(key_error(key, " not found")),
        Some(i) => match &table[i].1 {
            TomlTop::Str(s) => Ok(s.clone()),
            _ => Err(key_error(key, " is not a string")),
        },
    }
}

/// An optional string of the top-level table.
pub fn get_string_maybe(table: &Vec<(String, TomlTop)>, key: &str) -> (r: HyperlitResult<Option<String>>)
    ensures
        match lookup(top_views(table@), key@) {
            None => r matches Ok(v) && v is None,
            Some(TopView::Str(s)) => r matches Ok(v) && v matches Some(x) && x@ == s,
            Some(_) => r matches Err(e) && is_message(*e, key_msg(key@, " is not a string"@)),
        },
{
    match find_top(table, key) {
        None => Ok(None),
        Some(i) => match &table[i].1 {
            TomlTop::Str(s) => Ok(Some(s.clone())),
            _ => Err(key_error(key, " is not a string")),
        },
    }
}

/// An optional string of the top-level table, with a default.
pub fn get_string_or(table: &Vec<(String, TomlTop)>, key: &str, default: &str) -> (r: HyperlitResult<String>)
    ensures
        match string_or(top_views(table@), key@, default@) {
            Ok(s) => r matches Ok(v) && v@ == s,
            Err(m) => r matches Err(e) && is_message(*e, m),
        },
{
    match find_top(table, key) {
        None => Ok(default.to_owned()),
        Some(i) => match &table[i].1 {
            TomlTop::Str(s) => Ok(s.clone()),
            _ => Err(key_error(key, " is not a string")),
        },
    }
}

/// The strings of an array whose elements are all strings.
fn leaf_strings_of(items: &Vec<TomlLeaf>) -> (r: Option<Vec<String>>)
    ensures
        match r {
            Some(v) => leaf_strings(items@.map_values(|l: TomlLeaf| l@)) == Some(strings_view(v@)),
            None => leaf_strings(items@.map_values(|l: TomlLeaf| l@)) is None,
        },
{
    let ghost iv = items@.map_values(|l: TomlLeaf| l@);
    let mut out: Vec<String> = Vec::new();
    let mut i: usize = 0;
    assert(iv.take(0) =~= Seq::<LeafView>::empty());
    while i < items.len()
        invariant
            i <= items@.len(),
            iv == items@.map_values(|l: TomlLeaf| l@),
            leaf_strings(iv.take(i as int)) == Some(strings_view(out@)),
        decreases items.len() - i,
    {
        proof {
            assert(iv.take(i + 1).drop_last() =~= iv.take(i as int));
            assert(iv.take(i + 1).last() == items@[i as int]@);
        }
        match &items[i] {
            TomlLeaf::Str(s) => {
                let ghost before = strings_view(out@);
                out.push(s.clone());
                assert(strings_view(out@) =~= before.push(s@));
            },
            TomlLeaf::Other => {
                proof {
                    lemma_leaf_strings_none(iv, i as int + 1);
                }
                return None;
            },
        }
        i = i + 1;
    }
    assert(iv.take(items@.len() as int) =~= iv);
    Some(out)
}

proof fn lemma_leaf_strings_none(items: Seq<LeafView>, k: int)
    requires
        0 <= k <= items.len(),
        leaf_strings(items.take(k)) is None,
    ensures
        leaf_strings(items) is None,
    decreases items.len() - k,
{
    if k < items.len() {
        assert(items.take(k + 1).drop_last() =~= items.take(k));
        lemma_leaf_strings_none(items, k + 1);
    } else {
        assert(items.take(k) =~= items);
    }
}

/// An array of strings of a directory table, with a default when it is absent
/// (`None`: it is required).
pub fn get_string_array_or(table: &Vec<(String, TomlField)>, key: &str, default: Option<&[&str]>) -> (r: HyperlitResult<Vec<String>>)
    ensures
        match string_array(field_views(table@), key@, match default {
            Some(d) => Some(d@.map_values(|s: &str| s@)),
            None => None,
        }) {
            Ok(v) => r matches Ok(x) && strings_view(x@) == v,
            Err(m) => r matches Err(e) && is_message(*e, m),
        },
{
    match find_field(table, key) {
        None => match default {
            Some(d) => {
                let mut out: Vec<String> = Vec::new();
                let mut i: usize = 0;
                while i < d.len()
                    invariant
                        i <= d@.len(),
                        strings_view(out@) == d@.take(i as int).map_values(|s: &str| s@),
                    decreases d.len() - i,
                {
                    let ghost before = strings_view(out@);
                    out.push(d[i].to_owned());
                    assert(strings_view(out@) =~= before.push(d@[i as int]@));
                    assert(d@.take(i + 1).map_values(|s: &str| s@) =~= d@.take(i as int).map_values(|s: &str| s@).push(d@[i as int]@));
                    i = i + 1;
                }
                assert(d@.take(d@.len() as int) =~= d@);
                Ok(out)
            },
            None => Err(key_error(key, " not found")),
        },
        Some(i) => match &table[i].1 {
            TomlField::Array(items) => match leaf_strings_of(items) {
                Some(v) => Ok(v),
                None => Err(key_error(key, " is not a string")),
            },
            _ => Err(key_error(key, " is not an array")),
        },
    }
}

/// A required array of strings of a directory table.
pub fn get_string_array(table: &Vec<(String, TomlField)>, key: &str) -> (r: HyperlitResult<Vec<String>>)
    ensures
        match string_array(field_views(table@), key@, None) {
            Ok(v) => r matches Ok(x) && strings_view(x@) == v,
            Err(m) => r matches Err(e) && is_message(*e, m),
        },
{
    get_string_array_or(table, key, None)
}

/// The directory configurations of the elements of the `directory` array.
pub fn parse_directories(directories_array: Option<&Vec<TomlItem>>) -> (r: HyperlitResult<Vec<DirectoryConfig>>)
    ensures
        match directories_array {
            None => r matches Ok(v) && v@.len() == 0,
            Some(items) => match directories_of(items@.map_values(|i: TomlItem| i@)) {
                Ok(ds) => r matches Ok(v) && v@.map_values(|d: DirectoryConfig| d@) == ds,
                Err(m) => r matches Err(e) && is_message(*e, m),
            },
        },
{
    let mut directories: Vec<DirectoryConfig> = Vec::new();
    let items = match directories_array {
        None => {
            return Ok(directories);
        },
        Some(a) => a,
    };
    let ghost iv = items@.map_values(|i: TomlItem| i@);
    let mut i: usize = 0;
    assert(iv.take(0) =~= Seq::<ItemView>::empty());
    assert(directories@.map_values(|d: DirectoryConfig| d@) =~= Seq::<DirectoryView>::empty());
    while i < items.len()
        invariant
            directories_array == Some(items),
            i <= items@.len(),
            iv == items@.map_values(|i: TomlItem| i@),
            directories_of(iv.take(i as int)) == Ok::<Seq<DirectoryView>, Seq<char>>(directories@.map_values(|d: DirectoryConfig| d@)),
        decreases items.len() - i,
    {
        proof {
            assert(iv.take(i + 1).drop_last() =~= iv.take(i as int));
            assert(iv.take(i + 1).last() == items@[i as int]@);
        }
        let table = match &items[i] {
            TomlItem::Table(t) => t,
            TomlItem::Other => {
                proof {
                    lemma_directories_err(iv, i as int + 1);
                }
                return Err(Box::new(HyperlitError::message("directory is not a table")));
            },
        };
        let empty: [&str; 0] = [];
        let paths = match get_string_array(table, "paths") {
            Ok(v) => v,
            Err(e) => {
                proof {
                    lemma_directories_err(iv, i as int + 1);
                }
                return Err(e);
            },
        };
        let globs = match get_string_array(table, "globs") {
            Ok(v) => v,
            Err(e) => {
                proof {
                    lemma_directories_err(iv, i as int + 1);
                }
                return Err(e);
            },
        };
        let markers = match get_string_array_or(table, "markers", Some(&empty)) {
            Ok(v) => v,
            Err(e) => {
                proof {
                    assert(empty@.map_values(|s: &str| s@) =~= Seq::<Seq<char>>::empty());
                    lemma_directories_err(iv, i as int + 1);
                }
                return Err(e);
            },
        };
        proof {
            assert(empty@.map_values(|s: &str| s@) =~= Seq::<Seq<char>>::empty());
        }
        let ghost before = directories@.map_values(|d: DirectoryConfig| d@);
        let d = DirectoryConfig { paths, globs, markers };
        directories.push(d);
        assert(directories@.map_values(|d: DirectoryConfig| d@) =~= before.push(d@));
        i = i + 1;
    }
    assert(iv.take(items@.len() as int) =~= iv);
    Ok(directories)
}

proof fn lemma_directories_err(items: Seq<ItemView>, k: int)
    requires
        0 <= k <= items.len(),
        directories_of(items.take(k)) is Err,
    ensures
        directories_of(items) == directories_of(items.take(k)),
    decreases items.len() - k,
{
    if k < items.len() {
        assert(items.take(k + 1).drop_last() =~= items.take(k));
        lemma_directories_err(items, k + 1);
    } else {
        assert(items.take(k) =~= items);
    }
}

impl HyperlitConfig {
    /// Read the configuration from the text of a TOML document.
    pub fn from_string(string: &str) -> (r: HyperlitResult<Self>)
        ensures
            match toml_doc_of(string@) {
                Err(m) => r matches Err(e) && e.spec_kind() == (ErrorKind::StdError { error: e.spec_kind()->error })
                    && e.spec_kind()->error@ == m,
                Ok(None) => r matches Err(e) && is_message(*e, "not a table"@),
                Ok(Some(t)) => match config_of_table(t) {
                    Ok(c) => r matches Ok(v) && v@ == c,
                    Err(m) => r matches Err(e) && is_message(*e, m),
                },
            },
    {
        let table = match toml_parse(string) {
            Err(m) => {
                return Err(Box::new(HyperlitError::new(ErrorKind::StdError { error: m })));
            },
            Ok(None) => {
                return Err(Box::new(HyperlitError::message("not a table")));
            },
            Ok(Some(t)) => t,
        };
        let dir_items = match find_top(&table, "directory") {
            Some(i) => match &table[i].1 {
                TomlTop::Array(items) => Some(items),
                _ => None,
            },
            None => None,
        };
        let directories = match parse_directories(dir_items) {
            Ok(d) => d,
            Err(e) => {
                return Err(e);
            },
        };
        let title = match get_string(&table, "title") {
            Ok(t) => t,
            Err(e) => {
                return Err(e);
            },
        };
        let config_path = match find_top(&table, "config_path") {
            Some(i) => match &table[i].1 {
                TomlTop::Str(s) => s.clone(),
                _ => "hyperlit.toml".to_owned(),
            },
            None => "hyperlit.toml".to_owned(),
        };
        let build_directory = match get_string_or(&table, "build_directory", "build") {
            Ok(t) => t,
            Err(e) => {
                return Err(e);
            },
        };
        let output_directory = match get_string_or(&table, "output_directory", "output") {
            Ok(t) => t,
            Err(e) => {
                return Err(e);
            },
        };
        let source_link_template = match get_string(&table, "source_link_template") {
            Ok(t) => Some(t),
            Err(_) => None,
        };
        let ghost tv = top_views(table@);
        let ghost dv = directories@.map_values(|d: DirectoryConfig| d@);
        if dir_items.is_none() {
            assert(dv =~= Seq::<DirectoryView>::empty());
        }
        assert(match lookup(tv, "directory"@) {
            Some(TopView::Array(items)) => directories_of(items),
            _ => Ok(Seq::empty()),
        } == Ok::<Seq<DirectoryView>, Seq<char>>(dv));
        let c = HyperlitConfig { title, config_path, build_directory, output_directory, source_link_template, directories };
        assert(c@.directories == dv);
        assert(c@ == config_of_table(tv)->Ok_0);
        Ok(c)
    }
}

} // verus!
