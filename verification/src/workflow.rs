//! The decisions of the notebook window: how a path is opened, where and how
//! a notebook is saved, and what the status line says afterwards.

use crate::paths::{
    dotted_name, file_format, format_of_extension, native_extension, path_extension, FileFormat,
};
use crate::text::{
    char_is_alphanumeric, chars_of, decimal, is_alphanumeric, lemma_strip, lemma_strip_bounds,
    push_char, push_decimal, strip, trim_char,
};
use vstd::prelude::*;

verus! {

/// A character kept in a file name made from a notebook name; others become `-`.
pub open spec fn name_char(c: char) -> char {
    if is_alphanumeric(c) || c == '-' || c == '_' {
        c
    } else {
        '-'
    }
}

/// A notebook name made into a default file name: characters other than
/// letters, digits, `-` and `_` become `-`, dashes at either end are
/// dropped, and an empty result becomes `notebook`.
pub open spec fn safe_project_name_spec(name: Seq<char>) -> Seq<char> {
    let filtered = strip(name.map_values(|c: char| name_char(c)), |x: char| x == '-');
    if filtered.len() == 0 {
        "notebook"@
    } else {
        filtered
    }
}

/// The default file name for a notebook named `name`.
pub fn safe_project_name(name: &str) -> (r: String)
    ensures
        r@ == safe_project_name_spec(name@),
{
    let chars = chars_of(name);
    let mut mapped = String::new();
    let mut i: usize = 0;
    while i < chars.len()
        invariant
            i <= chars@.len(),
            mapped@ == chars@.take(i as int).map_values(|c: char| name_char(c)),
        decreases chars@.len() - i,
    {
        let c = chars[i];
        let keep = char_is_alphanumeric(c) || c == '-' || c == '_';
        push_char(&mut mapped, if keep { c } else { '-' });
        i = i + 1;
        assert(chars@.take(i as int).map_values(|c: char| name_char(c)) =~= chars@.take(
            i - 1,
        ).map_values(|c: char| name_char(c)).push(name_char(c)));
    }
    assert(chars@.take(i as int) =~= chars@);
    let filtered = trim_char(mapped.as_str(), '-');
    if filtered.as_str().is_empty() {
        String::from_str("notebook")
    } else {
        filtered
    }
}

/// What opening a path does.
#[derive(Debug)]
pub enum OpenAction {
    /// Load an `.onl` working copy.
    OpenWorkingCopy,
    /// Import a native notebook in the background.
    Import,
    /// Refuse, with this message.
    Refuse(String),
}

/// What opening `path` does; `shown` is the path as the user sees it.
pub fn open_action(path: &str, shown: &str) -> (r: OpenAction)
    ensures
        match format_of_extension(path_extension(path@)) {
            FileFormat::WorkingCopy => r is OpenWorkingCopy,
            FileFormat::Unsupported => r is Refuse && r->Refuse_0@ == "Unsupported notebook type: "@
                + shown@ + ". Open a .onl, .one, .onepkg, or .onetoc2 file."@,
            _ => r is Import,
        },
{
    match file_format(path) {
        FileFormat::WorkingCopy => OpenAction::OpenWorkingCopy,
        FileFormat::Unsupported => {
            let mut message = String::from_str("Unsupported notebook type: ");
            message.append(shown);
            message.append(". Open a .onl, .one, .onepkg, or .onetoc2 file.");
            OpenAction::Refuse(message)
        },
        _ => OpenAction::Import,
    }
}

/// The file an imported notebook saves back to: the native file itself for a
/// section or a package, none for a notebook index.
pub fn imported_save_path(source: &str) -> (r: Option<String>)
    ensures
        match format_of_extension(path_extension(source@)) {
            FileFormat::Section | FileFormat::Package => r is Some && r->Some_0@ == source@,
            _ => r is None,
        },
{
    match file_format(source) {
        FileFormat::Section | FileFormat::Package => Some(String::from_str(source)),
        _ => None,
    }
}

/// The status after a notebook was imported from `shown` with `warnings`
/// parser warnings.
pub fn opened_status(source: &str, shown: &str, warnings: usize) -> (r: String)
    ensures
        warnings > 0 ==> r@ == "Opened "@ + shown@ + " with "@ + decimal(warnings as nat)
            + " parser warning(s)"@,
        warnings == 0 && format_of_extension(path_extension(source@)) == FileFormat::NotebookIndex
            ==> r@ == "Opened "@ + shown@ + " (use Save As to choose a writable file)"@,
        warnings == 0 && format_of_extension(path_extension(source@)) != FileFormat::NotebookIndex
            ==> r@ == "Opened "@ + shown@,
{
    let mut r = String::from_str("Opened ");
    r.append(shown);
    if warnings > 0 {
        r.append(" with ");
        push_decimal(&mut r, warnings as u64);
        r.append(" parser warning(s)");
    } else if file_format(source) == FileFormat::NotebookIndex {
        r.append(" (use Save As to choose a writable file)");
    }
    r
}

/// How a save to a path goes.
#[derive(Debug)]
pub enum SaveTarget {
    /// Write an `.onl` working copy.
    WorkingCopy,
    /// Write edits back into a native file.
    Native,
    /// Refuse, with this message.
    Refused(String),
}

/// How saving to `path` goes.
pub fn save_target(path: &str) -> (r: SaveTarget)
    ensures
        match format_of_extension(path_extension(path@)) {
            FileFormat::WorkingCopy => r is WorkingCopy,
            FileFormat::Section | FileFormat::Package => r is Native,
            FileFormat::NotebookIndex => r is Refused && r->Refused_0@
                == "Saving to .onetoc2 is not supported. Save as .onl, or use the matching .one/.onepkg type from the original notebook."@,
            FileFormat::Unsupported => r is Refused && r->Refused_0@
                == "Unsupported output type. Use .onl, .one, or .onepkg."@,
        },
{
    match file_format(path) {
        FileFormat::WorkingCopy => SaveTarget::WorkingCopy,
        FileFormat::Section | FileFormat::Package => SaveTarget::Native,
        FileFormat::NotebookIndex => SaveTarget::Refused(
            String::from_str(
                "Saving to .onetoc2 is not supported. Save as .onl, or use the matching .one/.onepkg type from the original notebook.",
            ),
        ),
        FileFormat::Unsupported => SaveTarget::Refused(
            String::from_str("Unsupported output type. Use .onl, .one, or .onepkg."),
        ),
    }
}

/// The extension of a native container format, as a spec.
pub open spec fn native_extension_spec(format: FileFormat) -> Seq<char> {
    match format {
        FileFormat::Section => "one"@,
        FileFormat::Package => "onepkg"@,
        _ => "onl"@,
    }
}

/// Whether edits can be written into the native file `output`: the project
/// must come from a `.one` or `.onepkg` file, and `output` must be of the same
/// kind. `source` is the project's source path.
pub fn native_save_check(source: &Option<String>, output: &str) -> (r: Result<(), String>)
    ensures
        match source {
            None => r is Err && r->Err_0@
                == "This project has no native OneNote baseline. Save it as .onl."@,
            Some(src) => {
                let sf = format_of_extension(path_extension(src@));
                let of = format_of_extension(path_extension(output@));
                if sf != FileFormat::Section && sf != FileFormat::Package {
                    r is Err && r->Err_0@ == src@
                        + " is not a writable .one or .onepkg native baseline. Save as .onl."@
                } else if sf != of {
                    r is Err && r->Err_0@ == "Native container conversion is not implemented: "@
                        + src@ + " can only be saved as another ."@ + native_extension_spec(sf)
                        + ", or as .onl."@
                } else {
                    r is Ok
                }
            },
        },
{
    let src = match source {
        Some(s) => s,
        None => {
            return Err(
                String::from_str("This project has no native OneNote baseline. Save it as .onl."),
            );
        },
    };
    let source_format = file_format(src.as_str());
    let output_format = file_format(output);
    if source_format != FileFormat::Section && source_format != FileFormat::Package {
        let mut message = src.clone();
        message.append(" is not a writable .one or .onepkg native baseline. Save as .onl.");
        return Err(message);
    }
    if source_format != output_format {
        let mut message = String::from_str("Native container conversion is not implemented: ");
        message.append(src.as_str());
        message.append(" can only be saved as another .");
        message.append(native_extension(source_format));
        message.append(", or as .onl.");
        return Err(message);
    }
    Ok(())
}

/// The status after a native save to `shown`; `unchanged` tells whether the
/// project was not edited while the save ran.
pub fn native_saved_status(shown: &str, unchanged: bool) -> (r: String)
    ensures
        unchanged ==> r@ == "Saved "@ + shown@,
        !unchanged ==> r@ == "Saved "@ + shown@ + "; newer in-app edits remain unsaved"@,
{
    let mut r = String::from_str("Saved ");
    r.append(shown);
    if !unchanged {
        r.append("; newer in-app edits remain unsaved");
    }
    r
}

/// A default file name is never empty, and unless it is `notebook` it holds
/// only letters, digits, `-` and `_`, and neither starts nor ends with `-`.
pub proof fn lemma_safe_project_name_is_a_file_name(name: Seq<char>)
    ensures
        safe_project_name_spec(name).len() > 0,
        safe_project_name_spec(name) == "notebook"@ || ({
            let r = safe_project_name_spec(name);
            &&& r[0] != '-'
            &&& r.last() != '-'
            &&& forall|i: int|
                0 <= i < r.len() ==> is_alphanumeric(#[trigger] r[i]) || r[i] == '-' || r[i] == '_'
        }),
{
    reveal_strlit("notebook");
    let mapped = name.map_values(|c: char| name_char(c));
    let dash = |x: char| x == '-';
    lemma_strip_bounds(mapped, dash);
    let (i, j) = choose|i: int, j: int|
        0 <= i <= j <= mapped.len() && strip(mapped, dash) == mapped.subrange(i, j) && (i < j ==> !dash(
            mapped[i],
        ) && !dash(mapped[j - 1]));
    let r = strip(mapped, dash);
    if r.len() > 0 {
        assert forall|k: int| 0 <= k < r.len() implies is_alphanumeric(#[trigger] r[k]) || r[k] == '-'
            || r[k] == '_' by {
            assert(r[k] == mapped[i + k]);
            assert(mapped[i + k] == name_char(name[i + k]));
        }
        assert(r[0] == mapped[i]);
        assert(r.last() == mapped[j - 1]);
    }
}

/// Stripping `-` from both ends changes nothing in a text that neither starts
/// nor ends with `-`.
proof fn lemma_strip_dashes_of_clean(s: Seq<char>)
    requires
        s.len() > 0,
        s[0] != '-',
        s.last() != '-',
    ensures
        strip(s, |x: char| x == '-') == s,
{
    lemma_strip(s, |x: char| x == '-', 0, s.len() as int);
    assert(s.subrange(0, s.len() as int) =~= s);
}

/// A text of letters, digits, `-` and `_` is kept as it is by the character
/// mapping of default file names.
proof fn lemma_name_chars_of_clean(s: Seq<char>)
    requires
        forall|i: int| 0 <= i < s.len() ==> is_alphanumeric(#[trigger] s[i]) || s[i] == '-' || s[i] == '_',
    ensures
        s.map_values(|c: char| name_char(c)) == s,
{
    assert(s.map_values(|c: char| name_char(c)) =~= s);
}

/// Making a default file name out of a default file name changes nothing.
pub proof fn lemma_safe_project_name_idempotent(name: Seq<char>)
    ensures
        safe_project_name_spec(safe_project_name_spec(name)) == safe_project_name_spec(name),
{
    reveal_strlit("notebook");
    lemma_safe_project_name_is_a_file_name(name);
    let r = safe_project_name_spec(name);
    assert forall|i: int| 0 <= i < r.len() implies is_alphanumeric(#[trigger] r[i]) || r[i] == '-'
        || r[i] == '_' by {
        if r == "notebook"@ {
            assert(('a' <= r[i] <= 'z'));
        }
    }
    lemma_name_chars_of_clean(r);
    lemma_strip_dashes_of_clean(r);
}

/// The extension a format is saved with names that format again: a file
/// saved as `stem.one` opens as a section and one saved as `stem.onepkg` as a
/// package (`file_format` reads the extension of such a plain name); every
/// other format is saved as a working copy, whose `.onl` names a working copy.
pub proof fn lemma_native_extension_names_its_format(format: FileFormat, stem: Seq<char>)
    requires
        stem.len() > 0,
        !stem.contains('/'),
    ensures
        dotted_name(
            stem + "."@ + native_extension_spec(format),
            stem,
            native_extension_spec(format),
        ),
        format_of_extension(Some(native_extension_spec(format))) == (match format {
            FileFormat::Section => FileFormat::Section,
            FileFormat::Package => FileFormat::Package,
            _ => FileFormat::WorkingCopy,
        }),
{
    reveal_strlit("one");
    reveal_strlit("onepkg");
    reveal_strlit("onl");
    reveal_strlit("onetoc2");
    let e = native_extension_spec(format);
    assert(e.map_values(|c: char| crate::paths::ascii_lower(c)) =~= e);
    assert forall|i: int| 0 <= i < e.len() implies e[i] != '.' && e[i] != '/' by {
        assert('a' <= e[i] <= 'z');
    }
    match format {
        FileFormat::Section => {
            assert(e[2] != "onl"@[2]);
        },
        FileFormat::Package => {
            assert(e.len() != "onl"@.len());
            assert(e.len() != "one"@.len());
        },
        _ => {},
    }
}

} // verus!
