//! File names and paths: which notebook format a path names, where a working
//! copy keeps its assets, and where one asset may be stored.

use crate::model::{AssetView, Project, FORMAT_VERSION};
use crate::text::{decimal, push_decimal};
use std::path::{Component, Path};
use vstd::prelude::*;

verus! {

/// One component of a path, as `std::path::Path::components` yields it.
#[derive(Debug)]
pub enum PathComponent {
    Prefix,
    RootDir,
    CurDir,
    ParentDir,
    Normal(String),
}

/// Mathematical view of a path component.
pub enum ComponentView {
    Prefix,
    RootDir,
    CurDir,
    ParentDir,
    Normal(Seq<char>),
}

impl View for PathComponent {
    type V = ComponentView;

    open spec fn view(&self) -> ComponentView {
        match self {
            PathComponent::Prefix => ComponentView::Prefix,
            PathComponent::RootDir => ComponentView::RootDir,
            PathComponent::CurDir => ComponentView::CurDir,
            PathComponent::ParentDir => ComponentView::ParentDir,
            PathComponent::Normal(name) => ComponentView::Normal(name@),
        }
    }
}

/// The components of the path `p` (the result of `Path::components`).
pub uninterp spec fn path_components(p: Seq<char>) -> Seq<ComponentView>;

/// The final component of the path `p`, if it is a normal name (the result
/// of `Path::file_name`).
pub uninterp spec fn path_file_name(p: Seq<char>) -> Option<Seq<char>>;

/// The extension of the final component of `p` (the result of `Path::extension`).
pub uninterp spec fn path_extension(p: Seq<char>) -> Option<Seq<char>>;

/// `p` with its final component replaced by `name` (the result of
/// `Path::with_file_name`).
pub uninterp spec fn path_with_file_name(p: Seq<char>, name: Seq<char>) -> Seq<char>;

/// `name` appended to the directory `dir` (the result of `Path::join`).
pub uninterp spec fn path_join(dir: Seq<char>, name: Seq<char>) -> Seq<char>;

/// A name that `Path::components` gives as a normal component on Unix: not
/// empty, without `/`, and neither `.` nor `..`.
pub open spec fn plain_component(name: Seq<char>) -> bool {
    &&& name.len() > 0
    &&& !name.contains('/')
    &&& name != "."@
    &&& name != ".."@
}

/// `path` is a file directly inside `directory`: the directory joined with
/// one plain name.
pub open spec fn directly_inside(directory: Seq<char>, path: Seq<char>) -> bool {
    exists|name: Seq<char>| plain_component(name) && path == path_join(directory, name)
}

/// The components of a path.
/// Trusted: calls `Path::components` and converts each component to a
/// `PathComponent` of the same kind; a normal component keeps its name. On
/// Unix the path is split at `/`, empty parts and `.` parts after the first
/// are skipped, a leading `.` is `CurDir` and `..` is `ParentDir`, so a
/// normal component is a plain name.
#[verifier::external_body]
fn components(p: &str) -> (r: Vec<PathComponent>)
    ensures
        r@.map_values(|c: PathComponent| c@) == path_components(p@),
        forall|i: int|
            0 <= i < r@.len() && (#[trigger] r@[i]) is Normal ==> plain_component(r@[i]->Normal_0@),
{
    Path::new(p).components().map(|c| match c {
        Component::Prefix(_) => PathComponent::Prefix,
        Component::RootDir => PathComponent::RootDir,
        Component::CurDir => PathComponent::CurDir,
        Component::ParentDir => PathComponent::ParentDir,
        Component::Normal(name) => PathComponent::Normal(name.to_string_lossy().into_owned()),
    }).collect()
}

/// The file name of a path.
/// Trusted: calls `Path::file_name` on a path built from a string, so the
/// name it returns is valid UTF-8 and converts without loss.
#[verifier::external_body]
fn file_name(p: &str) -> (r: Option<String>)
    ensures
        opt_chars(r) == path_file_name(p@),
{
    Path::new(p).file_name().map(|name| name.to_string_lossy().into_owned())
}

/// `p` is a plain file name `stem.ext`: no `/` anywhere, a stem that is not
/// empty, and an extension that is not empty and holds no `.`.
pub open spec fn dotted_name(p: Seq<char>, stem: Seq<char>, ext: Seq<char>) -> bool {
    &&& p == stem + "."@ + ext
    &&& stem.len() > 0
    &&& ext.len() > 0
    &&& !stem.contains('/')
    &&& !ext.contains('/')
    &&& !ext.contains('.')
}

/// The extension of a path.
/// Trusted: calls `Path::extension` on a path built from a string, so the
/// extension it returns is valid UTF-8 and converts without loss. Of a plain
/// file name `stem.ext` as `dotted_name` describes it (on Unix, where `/` is
/// the only separator), the path is that one normal component, and the
/// extension is what follows the last `.`.
#[verifier::external_body]
fn extension(p: &str) -> (r: Option<String>)
    ensures
        opt_chars(r) == path_extension(p@),
        forall|stem: Seq<char>, ext: Seq<char>|
            #[trigger] dotted_name(p@, stem, ext) ==> opt_chars(r) == Some(ext),
{
    Path::new(p).extension().map(|ext| ext.to_string_lossy().into_owned())
}

/// A path with another final component.
/// Trusted: calls `Path::with_file_name` on strings; the result joins valid
/// UTF-8 and converts without loss.
#[verifier::external_body]
fn with_file_name(p: &str, name: &str) -> (r: String)
    ensures
        r@ == path_with_file_name(p@, name@),
{
    Path::new(p).with_file_name(name).to_string_lossy().into_owned()
}

/// A name appended to a directory path.
/// Trusted: calls `Path::join` on strings; the result joins valid UTF-8 and
/// converts without loss.
#[verifier::external_body]
fn join(dir: &str, name: &str) -> (r: String)
    ensures
        r@ == path_join(dir@, name@),
{
    Path::new(dir).join(name).to_string_lossy().into_owned()
}

/// The view of an optional string.
pub open spec fn opt_chars(o: Option<String>) -> Option<Seq<char>> {
    match o {
        Some(s) => Some(s@),
        None => None,
    }
}

/// The file name of `p`, or `default` when it has none.
pub open spec fn file_name_or(p: Seq<char>, default: Seq<char>) -> Seq<char> {
    match path_file_name(p) {
        Some(n) => n,
        None => default,
    }
}

/// The directory beside a working copy (or an export) that holds its assets:
/// the file name with `.assets` appended.
pub open spec fn assets_dir_of(p: Seq<char>) -> Seq<char> {
    path_with_file_name(p, file_name_or(p, "notebook.onl"@) + ".assets"@)
}

/// The directory beside `path` that holds its assets: its file name (or
/// `notebook.onl`) with `.assets` appended.
pub fn assets_dir(path: &str) -> (r: String)
    ensures
        r@ == assets_dir_of(path@),
{
    let mut name = match file_name(path) {
        Some(n) => n,
        None => String::from_str("notebook.onl"),
    };
    name.append(".assets");
    with_file_name(path, name.as_str())
}

/// A stored asset name that is not a single plain file name.
#[derive(Debug)]
pub struct InvalidAssetPath {
    pub stored_name: String,
}

impl InvalidAssetPath {
    /// The message shown to the user.
    pub fn message(&self) -> (r: String)
        ensures
            r@ == "invalid project asset path: "@ + self.stored_name@,
    {
        let mut out = String::from_str("invalid project asset path: ");
        out.append(self.stored_name.as_str());
        out
    }
}

/// Where an asset stored as `stored_name` lives in `directory`: only a name
/// that is one plain path component is accepted, so an asset can never be
/// written outside its directory.
pub fn asset_path(directory: &str, stored_name: &str) -> (r: Result<String, InvalidAssetPath>)
    ensures
        match path_components(stored_name@) {
            cs => if cs.len() == 1 && cs[0] is Normal {
                r is Ok && r->Ok_0@ == path_join(directory@, cs[0]->Normal_0) && plain_component(
                    cs[0]->Normal_0,
                ) && directly_inside(directory@, r->Ok_0@)
            } else {
                r is Err && r->Err_0.stored_name@ == stored_name@
            },
        },
{
    let parts = components(stored_name);
    let ghost cs = path_components(stored_name@);
    assert(parts@.len() == cs.len());
    if parts.len() == 1 {
        match &parts[0] {
            PathComponent::Normal(name) => {
                assert(cs[0] == parts@[0]@);
                assert(plain_component(name@));
                return Ok(join(directory, name.as_str()));
            },
            _ => {
                assert(cs[0] == parts@[0]@);
            },
        }
    }
    Err(InvalidAssetPath { stored_name: String::from_str(stored_name) })
}

/// The kinds of file a notebook can be opened from or saved to.
#[derive(Clone, Copy, Debug, PartialEq, Eq, Structural)]
pub enum FileFormat {
    /// An `.onl` working copy.
    WorkingCopy,
    /// A native `.one` section.
    Section,
    /// A native `.onepkg` notebook package.
    Package,
    /// A native `.onetoc2` notebook index.
    NotebookIndex,
    Unsupported,
}

/// A character in ASCII lower case.
pub open spec fn ascii_lower(c: char) -> char {
    if 'A' <= c <= 'Z' {
        ((c as u32) + 32) as char
    } else {
        c
    }
}

/// The format named by an extension, compared without regard to ASCII case.
pub open spec fn format_of_extension(ext: Option<Seq<char>>) -> FileFormat {
    match ext {
        Some(e) => {
            let lower = e.map_values(|c: char| ascii_lower(c));
            if lower == "onl"@ {
                FileFormat::WorkingCopy
            } else if lower == "one"@ {
                FileFormat::Section
            } else if lower == "onepkg"@ {
                FileFormat::Package
            } else if lower == "onetoc2"@ {
                FileFormat::NotebookIndex
            } else {
                FileFormat::Unsupported
            }
        },
        None => FileFormat::Unsupported,
    }
}

/// A character in ASCII lower case.
fn to_ascii_lower(c: char) -> (r: char)
    ensures
        r == ascii_lower(c),
{
    if 'A' <= c && c <= 'Z' {
        let b: u8 = c as u8;
        (b + 32) as char
    } else {
        c
    }
}

/// Whether `chars` spells `word`.
fn spells(chars: &Vec<char>, word: &str) -> (r: bool)
    ensures
        r == (chars@ == word@),
{
    let w = crate::text::chars_of(word);
    crate::text::chars_equal(chars, &w)
}

/// The notebook format a path names, by its extension in any ASCII case.
pub fn file_format(path: &str) -> (r: FileFormat)
    ensures
        r == format_of_extension(path_extension(path@)),
        forall|stem: Seq<char>, ext: Seq<char>|
            #[trigger] dotted_name(path@, stem, ext) ==> r == format_of_extension(Some(ext)),
{
    match extension(path) {
        Some(ext) => {
            let chars = crate::text::chars_of(ext.as_str());
            let mut lower: Vec<char> = Vec::new();
            let mut i: usize = 0;
            while i < chars.len()
                invariant
                    i <= chars@.len(),
                    lower@ == chars@.take(i as int).map_values(|c: char| ascii_lower(c)),
                decreases chars@.len() - i,
            {
                lower.push(to_ascii_lower(chars[i]));
                i = i + 1;
                assert(chars@.take(i as int).map_values(|c: char| ascii_lower(c)) =~= chars@.take(
                    (i - 1) as int,
                ).map_values(|c: char| ascii_lower(c)).push(ascii_lower(chars@[i - 1])));
            }
            assert(chars@.take(i as int) =~= chars@);
            if spells(&lower, "onl") {
                FileFormat::WorkingCopy
            } else if spells(&lower, "one") {
                FileFormat::Section
            } else if spells(&lower, "onepkg") {
                FileFormat::Package
            } else if spells(&lower, "onetoc2") {
                FileFormat::NotebookIndex
            } else {
                FileFormat::Unsupported
            }
        },
        None => FileFormat::Unsupported,
    }
}

/// The extension a native container format is saved with (`onl` for the
/// other formats).
pub fn native_extension(format: FileFormat) -> (r: &'static str)
    ensures
        r@ == (match format {
            FileFormat::Section => "one"@,
            FileFormat::Package => "onepkg"@,
            _ => "onl"@,
        }),
{
    match format {
        FileFormat::Section => "one",
        FileFormat::Package => "onepkg",
        _ => "onl",
    }
}

/// Where an asset stored as `stored_name` lives in `directory`, or `None` when
/// the name is not one plain path component.
pub open spec fn asset_location(directory: Seq<char>, stored_name: Seq<char>) -> Option<Seq<char>> {
    let cs = path_components(stored_name);
    if cs.len() == 1 && cs[0] is Normal {
        Some(path_join(directory, cs[0]->Normal_0))
    } else {
        None
    }
}

/// The files to write for the assets that hold data, in order: each asset's
/// index and path, up to the first asset whose stored name is refused.
pub open spec fn asset_writes_spec(assets: Seq<AssetView>, directory: Seq<char>) -> (Seq<(int, Seq<char>)>, Option<Seq<char>>)
    decreases assets.len(),
{
    if assets.len() == 0 {
        (Seq::empty(), None)
    } else {
        let (writes, error) = asset_writes_spec(assets.drop_last(), directory);
        let a = assets.last();
        if error is Some || a.bytes.len() == 0 {
            (writes, error)
        } else {
            match asset_location(directory, a.stored_name) {
                Some(path) => (writes.push((assets.len() - 1, path)), None),
                None => (writes, Some(a.stored_name)),
            }
        }
    }
}

/// The asset files a save or an export writes.
#[derive(Debug)]
pub struct AssetWrites {
    /// The index of each asset to write, and the path to write it to.
    pub writes: Vec<(usize, String)>,
    /// The first refused stored name; nothing after it is written.
    pub error: Option<InvalidAssetPath>,
}

/// The view of planned writes.
pub open spec fn writes_view(writes: Seq<(usize, String)>) -> Seq<(int, Seq<char>)> {
    writes.map_values(|w: (usize, String)| (w.0 as int, w.1@))
}

/// The view of a refusal.
pub open spec fn refusal_view(e: Option<InvalidAssetPath>) -> Option<Seq<char>> {
    match e {
        Some(e) => Some(e.stored_name@),
        None => None,
    }
}

impl Project {
    /// The files to write, in `directory`, for the assets that hold data.
    pub fn asset_writes(&self, directory: &str) -> (r: AssetWrites)
        ensures
            (writes_view(r.writes@), refusal_view(r.error)) == asset_writes_spec(self@.assets, directory@),
            forall|i: int|
                0 <= i < r.writes@.len() ==> directly_inside(directory@, (#[trigger] r.writes@[i]).1@),
    {
        let mut writes: Vec<(usize, String)> = Vec::new();
        let mut i: usize = 0;
        while i < self.assets.len()
            invariant
                i <= self.assets@.len(),
                (writes_view(writes@), None::<Seq<char>>) == asset_writes_spec(
                    self@.assets.take(i as int),
                    directory@,
                ),
                forall|j: int|
                    0 <= j < writes@.len() ==> directly_inside(directory@, (#[trigger] writes@[j]).1@),
            decreases self.assets@.len() - i,
        {
            let asset = &self.assets[i];
            proof {
                assert(self@.assets.take(i + 1).drop_last() =~= self@.assets.take(i as int));
                assert(self@.assets.take(i + 1).last() == asset@);
            }
            if asset.bytes.len() > 0 {
                match asset_path(directory, asset.stored_name.as_str()) {
                    Ok(path) => {
                        writes.push((i, path));
                        assert(writes_view(writes@) =~= writes_view(writes@.drop_last()).push(
                            (i as int, path@),
                        ));
                    },
                    Err(e) => {
                        proof {
                            lemma_writes_stop(self@.assets, directory@, i as int + 1);
                        }
                        return AssetWrites { writes, error: Some(e) };
                    },
                }
            }
            i = i + 1;
        }
        assert(self@.assets.take(i as int) =~= self@.assets);
        AssetWrites { writes, error: None }
    }

    /// Where each asset is read from in `directory`, or the first stored
    /// name that is refused.
    pub fn asset_reads(&self, directory: &str) -> (r: Result<Vec<String>, InvalidAssetPath>)
        ensures
            match r {
                Ok(paths) => paths@.len() == self@.assets.len() && (forall|i: int|
                    0 <= i < paths@.len() ==> #[trigger] asset_location(directory@, self@.assets[i].stored_name)
                        == Some(paths@[i]@)) && forall|i: int|
                    0 <= i < paths@.len() ==> directly_inside(directory@, #[trigger] paths@[i]@),
                Err(e) => exists|i: int|
                    0 <= i < self@.assets.len() && #[trigger] asset_location(directory@, self@.assets[i].stored_name)
                        is None && e.stored_name@ == self@.assets[i].stored_name && forall|j: int|
                        0 <= j < i ==> #[trigger] asset_location(directory@, self@.assets[j].stored_name)
                            is Some,
            },
    {
        let mut paths: Vec<String> = Vec::new();
        let mut i: usize = 0;
        while i < self.assets.len()
            invariant
                i <= self.assets@.len(),
                paths@.len() == i,
                forall|j: int|
                    0 <= j < i ==> #[trigger] asset_location(directory@, self@.assets[j].stored_name)
                        == Some(paths@[j]@),
                forall|j: int| 0 <= j < i ==> directly_inside(directory@, #[trigger] paths@[j]@),
            decreases self.assets@.len() - i,
        {
            match asset_path(directory, self.assets[i].stored_name.as_str()) {
                Ok(path) => {
                    assert(asset_location(directory@, self@.assets[i as int].stored_name) == Some(path@));
                    paths.push(path);
                },
                Err(e) => {
                    assert(asset_location(directory@, self@.assets[i as int].stored_name) is None);
                    assert(forall|j: int|
                        0 <= j < i ==> #[trigger] asset_location(directory@, self@.assets[j].stored_name)
                            is Some);
                    return Err(e);
                },
            }
            i = i + 1;
        }
        Ok(paths)
    }
}

/// Once a refusal is met, later assets add nothing.
proof fn lemma_writes_stop(assets: Seq<AssetView>, directory: Seq<char>, k: int)
    requires
        0 < k <= assets.len(),
        asset_writes_spec(assets.take(k), directory).1 is Some,
    ensures
        asset_writes_spec(assets, directory) == asset_writes_spec(assets.take(k), directory),
    decreases assets.len() - k,
{
    if k == assets.len() {
        assert(assets.take(k) =~= assets);
    } else {
        assert(assets.take(k + 1).drop_last() =~= assets.take(k));
        lemma_writes_stop(assets, directory, k + 1);
    }
}

/// Whether a project file of format `version` can be opened: versions 1
/// (migrated on load) up to the current one.
pub open spec fn version_supported(version: u32) -> bool {
    1 <= version <= FORMAT_VERSION
}

/// Refuses a project file whose format this version cannot read.
pub fn check_format_version(version: u32) -> (r: Result<(), String>)
    ensures
        version_supported(version) ==> r is Ok,
        !version_supported(version) ==> r is Err && r->Err_0@ == "unsupported project version "@
            + decimal(version as nat) + " (latest "@ + decimal(FORMAT_VERSION as nat) + ")"@,
{
    if 1 <= version && version <= FORMAT_VERSION {
        Ok(())
    } else {
        let mut message = String::from_str("unsupported project version ");
        push_decimal(&mut message, version as u64);
        message.append(" (latest ");
        push_decimal(&mut message, FORMAT_VERSION as u64);
        message.append(")");
        Err(message)
    }
}

/// The name of an export's asset directory as links in the Markdown use it:
/// the directory's file name, or `notebook.md.assets`.
pub fn export_assets_name(export_path: &str) -> (r: String)
    ensures
        r@ == file_name_or(assets_dir_of(export_path@), "notebook.md.assets"@),
{
    let directory = assets_dir(export_path);
    match file_name(directory.as_str()) {
        Some(name) => name,
        None => String::from_str("notebook.md.assets"),
    }
}

/// Lower-casing twice changes nothing more.
proof fn lemma_ascii_lower_idempotent(c: char)
    ensures
        ascii_lower(ascii_lower(c)) == ascii_lower(c),
{
}

/// The format an extension names does not depend on the case of its letters.
pub proof fn lemma_format_ignores_case(extension: Seq<char>)
    ensures
        format_of_extension(Some(extension)) == format_of_extension(
            Some(extension.map_values(|c: char| ascii_lower(c))),
        ),
{
    let lower = extension.map_values(|c: char| ascii_lower(c));
    assert forall|i: int| 0 <= i < extension.len() implies ascii_lower(#[trigger] lower[i]) == lower[i] by {
        lemma_ascii_lower_idempotent(extension[i]);
    }
    assert(lower.map_values(|c: char| ascii_lower(c)) =~= lower);
}

} // verus!
