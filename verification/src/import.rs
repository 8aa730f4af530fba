//! Reading a native notebook into the editable model: the text a reader sees,
//! the text of table cells, the blocks an outline becomes, the names assets
//! are stored under, and the merging of adjacent paragraphs into one box.
//! Positions and ink geometry are computed by the caller.

use crate::history::copy_strokes;
use crate::model::{
    blocks_view, default_canvas_layout, opt_view, rows_view, strokes_view, Asset, AssetView,
    BlockView, CanvasLayout, EditorBlock, EditorPage, EditorSection, GraphSyncMetadata, Project,
    ProjectView, SectionView, FORMAT_VERSION,
};
use crate::native::{
    Content, NativeInk, OutlineElement, OutlineItem, Paragraph, Table, TableCell, TableRow, TextRun,
};
use crate::text::{
    chars_of, padded_decimal, push_char, push_padded_decimal, string_of_range, trim, trim_spec,
};
use vstd::prelude::*;
use vstd::utf8::encode_utf8;

verus! {

broadcast use vstd::std_specs::vec::group_vec_axioms;

// ---------------------------------------------------------------------------
// Visible text.
// ---------------------------------------------------------------------------

/// The text of the runs that are not hidden, in order.
pub open spec fn runs_visible_text(runs: Seq<TextRun>) -> Seq<char>
    decreases runs.len(),
{
    if runs.len() == 0 {
        Seq::empty()
    } else {
        runs_visible_text(runs.drop_last()) + if runs.last().hidden {
            Seq::empty()
        } else {
            runs.last().text@
        }
    }
}

/// The text a reader sees in a paragraph: its text when it has no formatting
/// runs, else the text of its visible runs.
pub open spec fn visible_text_spec(p: Paragraph) -> Seq<char> {
    if p.runs@.len() == 0 {
        p.text@
    } else {
        runs_visible_text(p.runs@)
    }
}

/// The text a reader sees in a paragraph.
pub fn visible_text(paragraph: &Paragraph) -> (r: String)
    ensures
        r@ == visible_text_spec(*paragraph),
{
    if paragraph.runs.len() == 0 {
        return paragraph.text.clone();
    }
    let mut out = String::new();
    let mut i: usize = 0;
    while i < paragraph.runs.len()
        invariant
            i <= paragraph.runs@.len(),
            out@ == runs_visible_text(paragraph.runs@.take(i as int)),
        decreases paragraph.runs@.len() - i,
    {
        let run = &paragraph.runs[i];
        if !run.hidden {
            out.append(run.text.as_str());
        }
        i = i + 1;
        assert(paragraph.runs@.take(i as int).drop_last() =~= paragraph.runs@.take(i - 1));
    }
    assert(paragraph.runs@.take(i as int) =~= paragraph.runs@);
    out
}

// ---------------------------------------------------------------------------
// The text of an outline element, as a table cell shows it.
// ---------------------------------------------------------------------------

/// `out` with a paragraph's text added on a line of its own.
pub open spec fn with_line(out: Seq<char>, text: Seq<char>) -> Seq<char> {
    (if out.len() > 0 {
        out.push('\n')
    } else {
        out
    }) + text
}

/// `out` with the visible text of each paragraph among `cs` added.
pub open spec fn contents_text(out: Seq<char>, cs: Seq<Content>) -> Seq<char>
    decreases cs.len(),
{
    if cs.len() == 0 {
        out
    } else {
        let o = contents_text(out, cs.drop_last());
        match cs.last() {
            Content::Paragraph(p) => with_line(o, visible_text_spec(p)),
            _ => o,
        }
    }
}

/// `out` with the text of an element: its paragraphs, then its children.
pub open spec fn element_text(out: Seq<char>, e: OutlineElement) -> Seq<char>
    decreases e, 0nat,
{
    children_text(contents_text(out, e.content@), e.children@)
}

/// `out` with the text of child items; a group contributes the elements
/// directly in it.
pub open spec fn children_text(out: Seq<char>, items: Seq<OutlineItem>) -> Seq<char>
    decreases items, 1nat,
{
    if items.len() == 0 {
        out
    } else {
        let o = children_text(out, items.drop_last());
        match items.last() {
            OutlineItem::Element(e) => element_text(o, e),
            OutlineItem::Group(g) => group_text(o, g@),
        }
    }
}

/// `out` with the text of the elements directly in a group.
pub open spec fn group_text(out: Seq<char>, items: Seq<OutlineItem>) -> Seq<char>
    decreases items, 1nat,
{
    if items.len() == 0 {
        out
    } else {
        let o = group_text(out, items.drop_last());
        match items.last() {
            OutlineItem::Element(e) => element_text(o, e),
            OutlineItem::Group(_) => o,
        }
    }
}

fn append_contents_text(contents: &Vec<Content>, output: &mut String)
    ensures
        final(output)@ == contents_text(old(output)@, contents@),
{
    let ghost start = output@;
    let mut i: usize = 0;
    while i < contents.len()
        invariant
            i <= contents@.len(),
            output@ == contents_text(start, contents@.take(i as int)),
        decreases contents@.len() - i,
    {
        match &contents[i] {
            Content::Paragraph(p) => {
                if !output.as_str().is_empty() {
                    push_char(output, '\n');
                }
                output.append(visible_text(p).as_str());
            },
            _ => {},
        }
        i = i + 1;
        assert(contents@.take(i as int).drop_last() =~= contents@.take(i - 1));
    }
    assert(contents@.take(i as int) =~= contents@);
}

/// Appends the text of an outline element: each paragraph on a line of its
/// own, then the text of its children.
pub fn append_element_text(element: &OutlineElement, output: &mut String)
    ensures
        final(output)@ == element_text(old(output)@, *element),
    decreases element, 0nat,
{
    append_contents_text(&element.content, output);
    append_children_text(&element.children, output);
}

fn append_children_text(items: &Vec<OutlineItem>, output: &mut String)
    ensures
        final(output)@ == children_text(old(output)@, items@),
    decreases items, 1nat,
{
    let ghost start = output@;
    let mut i: usize = 0;
    while i < items.len()
        invariant
            i <= items@.len(),
            output@ == children_text(start, items@.take(i as int)),
        decreases items@.len() - i,
    {
        match &items[i] {
            OutlineItem::Element(e) => append_element_text(e, output),
            OutlineItem::Group(g) => append_group_text(g, output),
        }
        i = i + 1;
        assert(items@.take(i as int).drop_last() =~= items@.take(i - 1));
    }
    assert(items@.take(i as int) =~= items@);
}

fn append_group_text(items: &Vec<OutlineItem>, output: &mut String)
    ensures
        final(output)@ == group_text(old(output)@, items@),
    decreases items, 1nat,
{
    let ghost start = output@;
    let mut i: usize = 0;
    while i < items.len()
        invariant
            i <= items@.len(),
            output@ == group_text(start, items@.take(i as int)),
        decreases items@.len() - i,
    {
        match &items[i] {
            OutlineItem::Element(e) => append_element_text(e, output),
            OutlineItem::Group(_) => {},
        }
        i = i + 1;
        assert(items@.take(i as int).drop_last() =~= items@.take(i - 1));
    }
    assert(items@.take(i as int) =~= items@);
}

/// The text of several elements, one after the other.
pub open spec fn elements_text(out: Seq<char>, es: Seq<OutlineElement>) -> Seq<char>
    decreases es.len(),
{
    if es.len() == 0 {
        out
    } else {
        element_text(elements_text(out, es.drop_last()), es.last())
    }
}

/// The text of a table cell.
pub open spec fn cell_text(cell: TableCell) -> Seq<char> {
    elements_text(Seq::empty(), cell.content@)
}

/// The text of each cell of a table, row by row.
pub open spec fn table_rows_spec(t: Table) -> Seq<Seq<Seq<char>>> {
    t.content@.map_values(|row: TableRow| row.cells@.map_values(|c: TableCell| cell_text(c)))
}

fn cell_string(cell: &TableCell) -> (r: String)
    ensures
        r@ == cell_text(*cell),
{
    let mut text = String::new();
    let mut i: usize = 0;
    while i < cell.content.len()
        invariant
            i <= cell.content@.len(),
            text@ == elements_text(Seq::empty(), cell.content@.take(i as int)),
        decreases cell.content@.len() - i,
    {
        append_element_text(&cell.content[i], &mut text);
        i = i + 1;
        assert(cell.content@.take(i as int).drop_last() =~= cell.content@.take(i - 1));
    }
    assert(cell.content@.take(i as int) =~= cell.content@);
    text
}

fn row_strings(row: &TableRow) -> (r: Vec<String>)
    ensures
        r@.map_values(|c: String| c@) == row.cells@.map_values(|c: TableCell| cell_text(c)),
{
    let mut out: Vec<String> = Vec::new();
    let mut i: usize = 0;
    while i < row.cells.len()
        invariant
            i <= row.cells@.len(),
            out@.map_values(|c: String| c@) == row.cells@.take(i as int).map_values(
                |c: TableCell| cell_text(c),
            ),
        decreases row.cells@.len() - i,
    {
        out.push(cell_string(&row.cells[i]));
        i = i + 1;
        assert(row.cells@.take(i as int).map_values(|c: TableCell| cell_text(c)) =~= row.cells@.take(
            i - 1,
        ).map_values(|c: TableCell| cell_text(c)).push(cell_text(row.cells@[i - 1])));
        assert(out@.map_values(|c: String| c@) =~= out@.drop_last().map_values(|c: String| c@).push(
            out@.last()@,
        ));
    }
    assert(row.cells@.take(i as int) =~= row.cells@);
    out
}

/// The text of each cell of a table, row by row.
pub fn table_rows(table: &Table) -> (r: Vec<Vec<String>>)
    ensures
        rows_view(r@) == table_rows_spec(*table),
{
    let mut out: Vec<Vec<String>> = Vec::new();
    let mut i: usize = 0;
    while i < table.content.len()
        invariant
            i <= table.content@.len(),
            rows_view(out@) == table.content@.take(i as int).map_values(
                |row: TableRow| row.cells@.map_values(|c: TableCell| cell_text(c)),
            ),
        decreases table.content@.len() - i,
    {
        out.push(row_strings(&table.content[i]));
        i = i + 1;
        assert(table.content@.take(i as int).map_values(
            |row: TableRow| row.cells@.map_values(|c: TableCell| cell_text(c)),
        ) =~= table.content@.take(i - 1).map_values(
            |row: TableRow| row.cells@.map_values(|c: TableCell| cell_text(c)),
        ).push(table.content@[i - 1].cells@.map_values(|c: TableCell| cell_text(c))));
        assert(rows_view(out@) =~= rows_view(out@.drop_last()).push(
            out@.last()@.map_values(|c: String| c@),
        ));
    }
    assert(table.content@.take(i as int) =~= table.content@);
    out
}

// ---------------------------------------------------------------------------
// Asset names.
// ---------------------------------------------------------------------------

/// Whether a character separates path components on some system.
pub open spec fn is_path_separator(c: char) -> bool {
    c == '/' || c == '\\'
}

/// The part of `s` after its last `/` or `\`.
pub open spec fn after_last_separator(s: Seq<char>) -> Seq<char>
    decreases s.len(),
{
    if s.len() == 0 {
        s
    } else if is_path_separator(s.last()) {
        Seq::empty()
    } else {
        after_last_separator(s.drop_last()).push(s.last())
    }
}

proof fn lemma_after_last_separator(s: Seq<char>, k: int)
    requires
        0 <= k <= s.len(),
        k == 0 || is_path_separator(s[k - 1]),
        forall|j: int| k <= j < s.len() ==> !is_path_separator(#[trigger] s[j]),
    ensures
        after_last_separator(s) == s.skip(k),
    decreases s.len(),
{
    if s.len() == k {
        assert(s.skip(k) =~= Seq::<char>::empty());
    } else {
        lemma_after_last_separator(s.drop_last(), k);
        assert(s.drop_last().skip(k).push(s.last()) =~= s.skip(k));
    }
}

/// A character that `sanitize_filename` removes: one of `/ ? < > \ : * | "`,
/// or a control character (U+0000 to U+001F, U+0080 to U+009F).
pub open spec fn unsafe_name_char(c: char) -> bool {
    ||| c == '/'
    ||| c == '?'
    ||| c == '<'
    ||| c == '>'
    ||| c == '\\'
    ||| c == ':'
    ||| c == '*'
    ||| c == '|'
    ||| c == '"'
    ||| (c as u32) < 32
    ||| 128 <= (c as u32) && (c as u32) < 160
}

/// `s` without the characters `sanitize_filename` removes.
pub open spec fn without_unsafe_chars(s: Seq<char>) -> Seq<char>
    decreases s.len(),
{
    if s.len() == 0 {
        Seq::<char>::empty()
    } else if unsafe_name_char(s.last()) {
        without_unsafe_chars(s.drop_last())
    } else {
        without_unsafe_chars(s.drop_last()).push(s.last())
    }
}

/// A name made of dots alone (at least one).
pub open spec fn only_dots(s: Seq<char>) -> bool {
    s.len() > 0 && forall|i: int| 0 <= i < s.len() ==> s[i] == '.'
}

/// The longest prefix of `s` whose UTF-8 encoding takes at most `n` bytes.
pub open spec fn utf8_prefix(s: Seq<char>, n: nat) -> Seq<char>
    decreases s.len(),
{
    if s.len() == 0 || encode_utf8(s).len() <= n {
        s
    } else {
        utf8_prefix(s.drop_last(), n)
    }
}

/// A file name made safe by `sanitize_filename` for a Unix file system (the
/// result of `sanitize_with_options` with `windows: false`): the unsafe
/// characters removed, a name of dots alone emptied, and the rest cut to at
/// most 255 bytes of UTF-8 at a character boundary.
pub open spec fn sanitized(name: Seq<char>) -> Seq<char> {
    let kept = without_unsafe_chars(name);
    utf8_prefix(
        if only_dots(kept) {
            Seq::<char>::empty()
        } else {
            kept
        },
        255,
    )
}

/// A name without characters that are unsafe in a Unix file name.
/// Trusted: calls `sanitize_filename::sanitize_with_options` with
/// `windows: false` and the crate's other default options (truncation on, an
/// empty replacement), which removes what its two character classes match,
/// replaces a name of dots alone, and truncates, as `sanitized` states.
#[verifier::external_body]
fn sanitize_name(name: &str) -> (r: String)
    ensures
        r@ == sanitized(name@),
{
    sanitize_filename::sanitize_with_options(
        name,
        sanitize_filename::Options { windows: false, ..sanitize_filename::Options::default() },
    )
}

/// The name an asset file is stored under: the last component of its original
/// name, sanitized, or `asset.bin` when nothing is left.
pub open spec fn safe_filename_spec(filename: Seq<char>) -> Seq<char> {
    let last = after_last_separator(filename);
    let base = if last.len() == 0 {
        "asset.bin"@
    } else {
        last
    };
    let name = sanitized(base);
    if name.len() == 0 {
        "asset.bin"@
    } else {
        name
    }
}

/// What `without_unsafe_chars` keeps holds no unsafe character.
proof fn lemma_without_unsafe_chars(s: Seq<char>)
    ensures
        forall|i: int|
            0 <= i < without_unsafe_chars(s).len() ==> !unsafe_name_char(
                #[trigger] without_unsafe_chars(s)[i],
            ),
    decreases s.len(),
{
    if s.len() > 0 {
        lemma_without_unsafe_chars(s.drop_last());
        let rest = without_unsafe_chars(s.drop_last());
        if !unsafe_name_char(s.last()) {
            assert forall|i: int| 0 <= i < rest.push(s.last()).len() implies !unsafe_name_char(
                #[trigger] rest.push(s.last())[i],
            ) by {
                if i < rest.len() {
                    assert(rest.push(s.last())[i] == rest[i]);
                }
            }
        }
    }
}

/// A UTF-8 prefix is a prefix.
proof fn lemma_utf8_prefix(s: Seq<char>, n: nat)
    ensures
        utf8_prefix(s, n).len() <= s.len(),
        utf8_prefix(s, n) == s.take(utf8_prefix(s, n).len() as int),
    decreases s.len(),
{
    if !(s.len() == 0 || encode_utf8(s).len() <= n) {
        lemma_utf8_prefix(s.drop_last(), n);
        let t = utf8_prefix(s.drop_last(), n);
        assert(s.drop_last().take(t.len() as int) =~= s.take(t.len() as int));
    } else {
        assert(s.take(s.len() as int) =~= s);
    }
}

/// The name an asset is stored under is never empty and holds none of the
/// characters that `sanitize_filename` removes, `/` and `\` among them: it is
/// one plain file name inside the assets directory.
pub proof fn lemma_safe_filename_is_plain(filename: Seq<char>)
    ensures
        safe_filename_spec(filename).len() > 0,
        forall|i: int|
            0 <= i < safe_filename_spec(filename).len() ==> !unsafe_name_char(
                #[trigger] safe_filename_spec(filename)[i],
            ),
{
    reveal_strlit("asset.bin");
    let last = after_last_separator(filename);
    let base = if last.len() == 0 {
        "asset.bin"@
    } else {
        last
    };
    let kept = without_unsafe_chars(base);
    lemma_without_unsafe_chars(base);
    let named = if only_dots(kept) {
        Seq::<char>::empty()
    } else {
        kept
    };
    lemma_utf8_prefix(named, 255);
    let name = sanitized(base);
    assert forall|i: int| 0 <= i < name.len() implies !unsafe_name_char(#[trigger] name[i]) by {
        assert(name[i] == named[i]);
    }
    let r = safe_filename_spec(filename);
    assert forall|i: int| 0 <= i < r.len() implies !unsafe_name_char(#[trigger] r[i]) by {
        if name.len() == 0 {
            assert(r == "asset.bin"@);
        } else {
            assert(r[i] == name[i]);
        }
    }
}

/// The stored file name for an asset named `filename`.
pub fn safe_filename(filename: &str) -> (r: String)
    ensures
        r@ == safe_filename_spec(filename@),
{
    let chars = chars_of(filename);
    let mut k: usize = chars.len();
    while k > 0 && chars[k - 1] != '/' && chars[k - 1] != '\\'
        invariant
            k <= chars@.len(),
            forall|j: int| k <= j < chars@.len() ==> !is_path_separator(#[trigger] chars@[j]),
        decreases k,
    {
        k = k - 1;
    }
    proof {
        lemma_after_last_separator(chars@, k as int);
    }
    let last = string_of_range(&chars, k, chars.len());
    assert(last@ =~= chars@.skip(k as int));
    let base = if last.as_str().is_empty() {
        String::from_str("asset.bin")
    } else {
        last
    };
    let name = sanitize_name(base.as_str());
    if name.as_str().is_empty() {
        String::from_str("asset.bin")
    } else {
        name
    }
}

/// The media type guessed from a file name's extension, or
/// `application/octet-stream` (the result of `mime_guess::from_path` and
/// `first_or_octet_stream`).
pub uninterp spec fn media_type_of(filename: Seq<char>) -> Seq<char>;

/// The media type of a file name.
/// Trusted: calls `mime_guess::from_path(..).first_or_octet_stream()` and
/// writes the media type as text.
#[verifier::external_body]
fn guess_media_type(filename: &str) -> (r: String)
    ensures
        r@ == media_type_of(filename@),
{
    mime_guess::from_path(filename).first_or_octet_stream().to_string()
}

/// The view of optional bytes.
pub open spec fn opt_bytes(data: Option<Vec<u8>>) -> Option<Seq<u8>> {
    match data {
        Some(d) => Some(d@),
        None => None,
    }
}

/// The asset an imported file becomes.
pub open spec fn imported_asset(id: u64, filename: Seq<char>, data: Option<Seq<u8>>, size: u64) -> AssetView {
    AssetView {
        id,
        filename,
        media_type: media_type_of(filename),
        stored_name: padded_decimal(id as nat, 8) + "-"@ + safe_filename_spec(filename),
        size,
        bytes: match data {
            Some(d) => d,
            None => Seq::empty(),
        },
    }
}

/// `parts` joined with `sep` between them.
pub open spec fn joined(parts: Seq<Seq<char>>, sep: Seq<char>) -> Seq<char>
    decreases parts.len(),
{
    if parts.len() == 0 {
        Seq::empty()
    } else if parts.len() == 1 {
        parts[0]
    } else {
        joined(parts.drop_last(), sep) + sep + parts.last()
    }
}

// ---------------------------------------------------------------------------
// The blocks an outline becomes.
// ---------------------------------------------------------------------------

/// What an import has produced so far: the next free identifier, the assets
/// and the blocks of the outline being read.
pub struct ImportView {
    pub next_id: nat,
    pub assets: Seq<AssetView>,
    pub blocks: Seq<BlockView>,
}

/// The indent of a paragraph at outline level `level`.
pub open spec fn indent_of(level: u8) -> u8 {
    if level == 0 {
        0
    } else {
        (level - 1) as u8
    }
}

/// The import after one more content of an element at level `level`: a
/// paragraph with visible text becomes a text box, a table a table, an image
/// or a file an asset and a block, ink an ink block, anything else an
/// unsupported block. Blank paragraphs are dropped.
pub open spec fn content_import(s: ImportView, c: Content, level: u8) -> ImportView {
    match c {
        Content::Paragraph(p) => {
            let text = visible_text_spec(p);
            if trim_spec(text).len() == 0 {
                s
            } else {
                ImportView {
                    next_id: s.next_id + 1,
                    blocks: s.blocks.push(
                        BlockView::Text {
                            id: s.next_id as u64,
                            text,
                            indent: indent_of(level),
                            layout: default_canvas_layout(),
                        },
                    ),
                    ..s
                }
            }
        },
        Content::Table(t) => ImportView {
            next_id: s.next_id + 1,
            blocks: s.blocks.push(
                BlockView::Table {
                    id: s.next_id as u64,
                    rows: table_rows_spec(t),
                    layout: default_canvas_layout(),
                },
            ),
            ..s
        },
        Content::Image(image) => ImportView {
            next_id: s.next_id + 2,
            assets: s.assets.push(
                imported_asset(
                    s.next_id as u64,
                    match image.filename {
                        Some(f) => f@,
                        None => "image.bin"@,
                    },
                    opt_bytes(image.data),
                    image.size,
                ),
            ),
            blocks: s.blocks.push(
                BlockView::Image {
                    id: (s.next_id + 1) as u64,
                    asset_id: s.next_id as u64,
                    layout: default_canvas_layout(),
                },
            ),
        },
        Content::Attachment(file) => ImportView {
            next_id: s.next_id + 2,
            assets: s.assets.push(
                imported_asset(s.next_id as u64, file.filename@, opt_bytes(file.data), file.size),
            ),
            blocks: s.blocks.push(
                BlockView::Attachment {
                    id: (s.next_id + 1) as u64,
                    asset_id: s.next_id as u64,
                    layout: default_canvas_layout(),
                },
            ),
        },
        Content::Ink(ink) => ImportView {
            next_id: s.next_id + 1,
            blocks: s.blocks.push(
                BlockView::Ink {
                    id: s.next_id as u64,
                    stroke_count: ink.stroke_count,
                    strokes: strokes_view(ink.strokes@),
                    layout: ink.layout,
                },
            ),
            ..s
        },
        Content::Unknown => ImportView {
            next_id: s.next_id + 1,
            blocks: s.blocks.push(
                BlockView::Unsupported {
                    id: s.next_id as u64,
                    description: "unknown outline content"@,
                    layout: default_canvas_layout(),
                },
            ),
            ..s
        },
    }
}

/// The import after the contents of an element at level `level`.
pub open spec fn contents_import(s: ImportView, cs: Seq<Content>, level: u8) -> ImportView
    decreases cs.len(),
{
    if cs.len() == 0 {
        s
    } else {
        content_import(contents_import(s, cs.drop_last(), level), cs.last(), level)
    }
}

/// The import after an element: its contents, then its children.
pub open spec fn element_import(s: ImportView, e: OutlineElement) -> ImportView
    decreases e, 0nat,
{
    items_import(contents_import(s, e.content@, e.level), e.children@)
}

/// The import after a sequence of outline items.
pub open spec fn items_import(s: ImportView, items: Seq<OutlineItem>) -> ImportView
    decreases items, 1nat,
{
    if items.len() == 0 {
        s
    } else {
        item_import(items_import(s, items.drop_last()), items.last())
    }
}

/// The import after one outline item; a group is read item by item.
pub open spec fn item_import(s: ImportView, item: OutlineItem) -> ImportView
    decreases item, 0nat,
{
    match item {
        OutlineItem::Element(e) => element_import(s, e),
        OutlineItem::Group(items) => items_import(s, items@),
    }
}

proof fn lemma_contents_grow(s: ImportView, cs: Seq<Content>, level: u8, k: int)
    requires
        0 <= k <= cs.len(),
    ensures
        s.next_id <= contents_import(s, cs.take(k), level).next_id,
        contents_import(s, cs.take(k), level).next_id <= contents_import(s, cs, level).next_id,
    decreases cs.len(),
{
    if k == cs.len() {
        assert(cs.take(k) =~= cs);
        if cs.len() > 0 {
            lemma_contents_grow(s, cs.drop_last(), level, k - 1);
            assert(cs.drop_last().take(k - 1) =~= cs.drop_last());
        }
    } else {
        lemma_contents_grow(s, cs.drop_last(), level, k);
        assert(cs.drop_last().take(k) =~= cs.take(k));
    }
}

proof fn lemma_element_grows(s: ImportView, e: OutlineElement)
    ensures
        s.next_id <= element_import(s, e).next_id,
    decreases e, 0nat,
{
    lemma_contents_grow(s, e.content@, e.level, 0);
    assert(e.content@.take(0) =~= Seq::<Content>::empty());
    lemma_items_grow(contents_import(s, e.content@, e.level), e.children@, 0);
    assert(e.children@.take(0) =~= Seq::<OutlineItem>::empty());
}

proof fn lemma_item_grows(s: ImportView, item: OutlineItem)
    ensures
        s.next_id <= item_import(s, item).next_id,
    decreases item, 0nat,
{
    match item {
        OutlineItem::Element(e) => lemma_element_grows(s, e),
        OutlineItem::Group(items) => {
            lemma_items_grow(s, items@, 0);
            assert(items@.take(0) =~= Seq::<OutlineItem>::empty());
        },
    }
}

proof fn lemma_items_grow(s: ImportView, items: Seq<OutlineItem>, k: int)
    requires
        0 <= k <= items.len(),
    ensures
        s.next_id <= items_import(s, items.take(k)).next_id,
        items_import(s, items.take(k)).next_id <= items_import(s, items).next_id,
    decreases items, 1nat,
{
    if items.len() == 0 {
        assert(items.take(k) =~= items);
    } else if k == items.len() {
        assert(items.take(k) =~= items);
        lemma_items_grow(s, items.drop_last(), k - 1);
        assert(items.drop_last().take(k - 1) =~= items.drop_last());
        lemma_item_grows(items_import(s, items.drop_last()), items.last());
    } else {
        lemma_items_grow(s, items.drop_last(), k);
        assert(items.drop_last().take(k) =~= items.take(k));
        lemma_item_grows(items_import(s, items.drop_last()), items.last());
    }
}

/// Builds a project while a native notebook is read.
#[derive(Debug)]
pub struct ProjectBuilder {
    pub project: Project,
}

/// What the builder and an outline's blocks record of an import.
pub open spec fn import_state(p: ProjectView, blocks: Seq<EditorBlock>) -> ImportView {
    ImportView { next_id: p.next_id as nat, assets: p.assets, blocks: blocks_view(blocks) }
}

/// The project after an import step: the identifiers and assets it used.
pub open spec fn project_after(p: ProjectView, s: ImportView) -> ProjectView {
    ProjectView { next_id: s.next_id as u64, assets: s.assets, ..p }
}

impl ProjectBuilder {
    /// A builder for an empty notebook named `name`, read from `source`.
    pub fn new(name: String, source: Option<String>) -> (r: ProjectBuilder)
        ensures
            r.project@.format_version == FORMAT_VERSION,
            r.project@.name == name@,
            r.project@.source == opt_view(source),
            r.project@.sections.len() == 0,
            r.project@.assets.len() == 0,
            r.project@.next_id == 1,
            r.project@.graph_sync.pages == Map::<u64, crate::model::LinkView>::empty(),
            r.project@.graph_sync.notebook_id is None,
            r.project@.graph_sync.notebook_name is None,
            r.project@.graph_sync.section_id is None,
            r.project@.graph_sync.section_name is None,
    {
        let r = ProjectBuilder {
            project: Project {
                format_version: FORMAT_VERSION,
                name,
                source,
                sections: Vec::new(),
                assets: Vec::new(),
                next_id: 1,
                graph_sync: GraphSyncMetadata::empty(),
            },
        };
        assert(r.project@.sections.len() == 0);
        assert(r.project@.assets.len() == 0);
        r
    }

    /// The next free identifier.
    pub fn id(&mut self) -> (id: u64)
        requires
            old(self).project.next_id < u64::MAX,
        ensures
            id == old(self).project.next_id,
            final(self).project@ == (ProjectView { next_id: (id + 1) as u64, ..old(self).project@ }),
    {
        self.project.allocate_id()
    }

    /// Adds an imported file as an asset and returns its identifier.
    pub fn add_asset(&mut self, filename: &str, bytes: &Option<Vec<u8>>, size: u64) -> (id: u64)
        requires
            old(self).project.next_id < u64::MAX,
        ensures
            id == old(self).project.next_id,
            final(self).project@ == (ProjectView {
                next_id: (id + 1) as u64,
                assets: old(self).project@.assets.push(
                    imported_asset(id, filename@, opt_bytes(*bytes), size),
                ),
                ..old(self).project@
            }),
    {
        let id = self.id();
        let mut stored_name = String::new();
        push_padded_decimal(&mut stored_name, id, 8);
        stored_name.append("-");
        stored_name.append(safe_filename(filename).as_str());
        let data = match bytes {
            Some(b) => b.clone(),
            None => Vec::new(),
        };
        let asset = Asset {
            id,
            filename: String::from_str(filename),
            media_type: guess_media_type(filename),
            stored_name,
            size,
            bytes: data,
        };
        self.project.assets.push(asset);
        proof {
            assert(self.project@.assets =~= old(self).project@.assets.push(
                imported_asset(id, filename@, opt_bytes(*bytes), size),
            ));
        }
        id
    }

    /// Adds the block one content of an element at level `level` becomes.
    pub fn import_content(&mut self, content: &Content, level: u8, output: &mut Vec<EditorBlock>)
        requires
            content_import(import_state(old(self).project@, old(output)@), *content, level).next_id
                <= u64::MAX,
        ensures
            final(self).project@ == project_after(
                old(self).project@,
                content_import(import_state(old(self).project@, old(output)@), *content, level),
            ),
            blocks_view(final(output)@) == content_import(
                import_state(old(self).project@, old(output)@),
                *content,
                level,
            ).blocks,
    {
        let ghost s = import_state(self.project@, output@);
        let ghost p0 = self.project@;
        match content {
            Content::Paragraph(paragraph) => {
                let text = visible_text(paragraph);
                let trimmed = trim(text.as_str());
                if !trimmed.as_str().is_empty() {
                    let id = self.id();
                    output.push(
                        EditorBlock::Text {
                            id,
                            text,
                            indent: level.saturating_sub(1),
                            layout: CanvasLayout::default_layout(),
                        },
                    );
                }
            },
            Content::Table(table) => {
                let rows = table_rows(table);
                let id = self.id();
                output.push(EditorBlock::Table { id, rows, layout: CanvasLayout::default_layout() });
            },
            Content::Image(image) => {
                let asset_id = match &image.filename {
                    Some(f) => self.add_asset(f.as_str(), &image.data, image.size),
                    None => self.add_asset("image.bin", &image.data, image.size),
                };
                let id = self.id();
                output.push(EditorBlock::Image { id, asset_id, layout: CanvasLayout::default_layout() });
            },
            Content::Attachment(file) => {
                let asset_id = self.add_asset(file.filename.as_str(), &file.data, file.size);
                let id = self.id();
                output.push(
                    EditorBlock::Attachment { id, asset_id, layout: CanvasLayout::default_layout() },
                );
            },
            Content::Ink(ink) => {
                let strokes = copy_strokes(&ink.strokes);
                let id = self.id();
                output.push(
                    EditorBlock::Ink { id, stroke_count: ink.stroke_count, strokes, layout: ink.layout },
                );
            },
            Content::Unknown => {
                let id = self.id();
                output.push(
                    EditorBlock::Unsupported {
                        id,
                        description: String::from_str("unknown outline content"),
                        layout: CanvasLayout::default_layout(),
                    },
                );
            },
        }
        proof {
            let after = content_import(s, *content, level);
            assert(blocks_view(output@) =~= after.blocks);
            assert(self.project@ == project_after(p0, after));
        }
    }

    /// Adds the blocks of an outline element and its children.
    pub fn import_element(&mut self, element: &OutlineElement, output: &mut Vec<EditorBlock>)
        requires
            element_import(import_state(old(self).project@, old(output)@), *element).next_id
                <= u64::MAX,
        ensures
            final(self).project@ == project_after(
                old(self).project@,
                element_import(import_state(old(self).project@, old(output)@), *element),
            ),
            blocks_view(final(output)@) == element_import(
                import_state(old(self).project@, old(output)@),
                *element,
            ).blocks,
        decreases element, 0nat,
    {
        let ghost s = import_state(self.project@, output@);
        let ghost p0 = self.project@;
        let ghost cs = element.content@;
        let mut i: usize = 0;
        while i < element.content.len()
            invariant
                i <= cs.len(),
                cs == element.content@,
                element_import(s, *element).next_id <= u64::MAX,
                import_state(self.project@, output@) == contents_import(s, cs.take(i as int), element.level),
                self.project@ == project_after(p0, contents_import(s, cs.take(i as int), element.level)),
            decreases cs.len() - i,
        {
            proof {
                lemma_contents_grow(s, cs, element.level, i + 1);
                assert(cs.take(i + 1).drop_last() =~= cs.take(i as int));
                lemma_items_grow(contents_import(s, cs, element.level), element.children@, 0);
                assert(element.children@.take(0) =~= Seq::<OutlineItem>::empty());
            }
            self.import_content(&element.content[i], element.level, output);
            i = i + 1;
        }
        proof {
            assert(cs.take(i as int) =~= cs);
        }
        self.import_items(&element.children, output);
    }

    /// Adds the blocks of one outline item.
    pub fn import_outline_item(&mut self, item: &OutlineItem, output: &mut Vec<EditorBlock>)
        requires
            item_import(import_state(old(self).project@, old(output)@), *item).next_id <= u64::MAX,
        ensures
            final(self).project@ == project_after(
                old(self).project@,
                item_import(import_state(old(self).project@, old(output)@), *item),
            ),
            blocks_view(final(output)@) == item_import(
                import_state(old(self).project@, old(output)@),
                *item,
            ).blocks,
        decreases item, 0nat,
    {
        match item {
            OutlineItem::Element(element) => self.import_element(element, output),
            OutlineItem::Group(items) => self.import_items(items, output),
        }
    }

    fn import_items(&mut self, items: &Vec<OutlineItem>, output: &mut Vec<EditorBlock>)
        requires
            items_import(import_state(old(self).project@, old(output)@), items@).next_id <= u64::MAX,
        ensures
            final(self).project@ == project_after(
                old(self).project@,
                items_import(import_state(old(self).project@, old(output)@), items@),
            ),
            blocks_view(final(output)@) == items_import(
                import_state(old(self).project@, old(output)@),
                items@,
            ).blocks,
        decreases items, 1nat,
    {
        let ghost s = import_state(self.project@, output@);
        let ghost p0 = self.project@;
        let mut i: usize = 0;
        while i < items.len()
            invariant
                i <= items@.len(),
                items_import(s, items@).next_id <= u64::MAX,
                import_state(self.project@, output@) == items_import(s, items@.take(i as int)),
                self.project@ == project_after(p0, items_import(s, items@.take(i as int))),
            decreases items@.len() - i,
        {
            proof {
                lemma_items_grow(s, items@, i + 1);
                assert(items@.take(i + 1).drop_last() =~= items@.take(i as int));
            }
            self.import_outline_item(&items[i], output);
            i = i + 1;
        }
        proof {
            assert(items@.take(i as int) =~= items@);
        }
    }
}

// ---------------------------------------------------------------------------
// One box per run of paragraphs.
// ---------------------------------------------------------------------------

/// A paragraph added to the text of the box before it: on a new line (unless
/// the box is empty), indented by two spaces per level.
pub open spec fn joined_text(previous: Seq<char>, indent: u8, text: Seq<char>) -> Seq<char> {
    (if previous.len() > 0 {
        previous.push('\n')
    } else {
        previous
    }) + Seq::new((2 * indent) as nat, |i: int| ' ') + text
}

/// The blocks with each text block that follows a text block merged into it;
/// the merged box keeps the identifier, indent and layout of the first.
pub open spec fn merged(blocks: Seq<BlockView>) -> Seq<BlockView>
    decreases blocks.len(),
{
    if blocks.len() == 0 {
        Seq::empty()
    } else {
        let m = merged(blocks.drop_last());
        let b = blocks.last();
        if m.len() > 0 && m.last() is Text && b is Text {
            m.update(
                m.len() - 1,
                BlockView::Text {
                    id: m.last()->Text_id,
                    text: joined_text(m.last()->Text_text, b->Text_indent, b->Text_text),
                    indent: m.last()->Text_indent,
                    layout: m.last()->Text_layout,
                },
            )
        } else {
            m.push(b)
        }
    }
}

/// Merges each run of adjacent text blocks into one editable box.
pub fn merge_adjacent_text_blocks(blocks: &mut Vec<EditorBlock>)
    ensures
        blocks_view(final(blocks)@) == merged(blocks_view(old(blocks)@)),
{
    let ghost source = blocks_view(blocks@);
    let mut out: Vec<EditorBlock> = Vec::new();
    let mut i: usize = 0;
    while i < blocks.len()
        invariant
            i <= blocks@.len(),
            source == blocks_view(blocks@),
            blocks_view(out@) == merged(source.take(i as int)),
        decreases blocks@.len() - i,
    {
        let b = crate::history::copy_block(&blocks[i]);
        let n = out.len();
        let previous_is_text = n > 0 && match &out[n - 1] {
            EditorBlock::Text { .. } => true,
            _ => false,
        };
        let ghost m = blocks_view(out@);
        proof {
            assert(source.take(i + 1).drop_last() =~= source.take(i as int));
            assert(source.take(i + 1).last() == b@);
            if n > 0 {
                assert(m.last() == out@[n - 1]@);
            }
        }
        match b {
            EditorBlock::Text { id: _, text, indent, layout: _ } if previous_is_text => {
                let last = out.pop().unwrap();
                match last {
                    EditorBlock::Text { id, text: previous, indent: previous_indent, layout } => {
                        let mut joined = previous;
                        if !joined.as_str().is_empty() {
                            push_char(&mut joined, '\n');
                        }
                        let mut k: u32 = 0;
                        let spaces: u32 = 2 * (indent as u32);
                        let ghost start = joined@;
                        while k < spaces
                            invariant
                                k <= spaces,
                                joined@ == start + Seq::new(k as nat, |j: int| ' '),
                            decreases spaces - k,
                        {
                            push_char(&mut joined, ' ');
                            k = k + 1;
                            assert(Seq::new(k as nat, |j: int| ' ') =~= Seq::new(
                                (k - 1) as nat,
                                |j: int| ' ',
                            ).push(' '));
                        }
                        joined.append(text.as_str());
                        out.push(EditorBlock::Text { id, text: joined, indent: previous_indent, layout });
                        proof {
                            assert(blocks_view(out@) =~= m.update(
                                m.len() - 1,
                                BlockView::Text {
                                    id: m.last()->Text_id,
                                    text: joined_text(m.last()->Text_text, indent, text@),
                                    indent: m.last()->Text_indent,
                                    layout: m.last()->Text_layout,
                                },
                            ));
                        }
                    },
                    other => {
                        out.push(other);
                    },
                }
            },
            other => {
                out.push(other);
                proof {
                    assert(blocks_view(out@) =~= m.push(other@));
                }
            },
        }
        i = i + 1;
    }
    proof {
        assert(source.take(i as int) =~= source);
    }
    *blocks = out;
}

impl ProjectBuilder {
    /// The blocks of an outline: its items read in order, with adjacent
    /// paragraphs merged into one box.
    pub fn import_outline(&mut self, items: &Vec<OutlineItem>) -> (r: Vec<EditorBlock>)
        requires
            items_import(import_state(old(self).project@, Seq::empty()), items@).next_id <= u64::MAX,
        ensures
            final(self).project@ == project_after(
                old(self).project@,
                items_import(import_state(old(self).project@, Seq::empty()), items@),
            ),
            blocks_view(r@) == merged(
                items_import(import_state(old(self).project@, Seq::empty()), items@).blocks,
            ),
    {
        let mut blocks: Vec<EditorBlock> = Vec::new();
        assert(blocks@ =~= Seq::<EditorBlock>::empty());
        self.import_items(items, &mut blocks);
        merge_adjacent_text_blocks(&mut blocks);
        blocks
    }

    /// Adds a section holding `pages`, named by the section groups it is nested
    /// in and its own name, joined with ` / `.
    pub fn add_section(&mut self, group_path: &Vec<String>, name: &str, pages: Vec<EditorPage>)
        requires
            old(self).project.next_id < u64::MAX,
        ensures
            final(self).project@ == (ProjectView {
                next_id: (old(self).project.next_id + 1) as u64,
                sections: old(self).project@.sections.push(
                    SectionView {
                        id: old(self).project.next_id,
                        name: joined(
                            group_path@.map_values(|g: String| g@).push(name@),
                            " / "@,
                        ),
                        pages: crate::model::pages_view(pages@),
                    },
                ),
                ..old(self).project@
            }),
    {
        let ghost parts = group_path@.map_values(|g: String| g@).push(name@);
        let mut title = String::new();
        let mut i: usize = 0;
        while i < group_path.len()
            invariant
                i <= group_path@.len(),
                parts == group_path@.map_values(|g: String| g@).push(name@),
                title@ == joined(parts.take(i as int), " / "@),
            decreases group_path@.len() - i,
        {
            if i > 0 {
                title.append(" / ");
            }
            title.append(group_path[i].as_str());
            i = i + 1;
            proof {
                assert(parts.take(i as int).drop_last() =~= parts.take(i - 1));
                assert(parts.take(i as int).last() == group_path@[i - 1]@);
                if i == 1 {
                    assert(title@ =~= parts.take(1)[0]);
                }
            }
        }
        if i > 0 {
            title.append(" / ");
        }
        title.append(name);
        proof {
            assert(parts.take(i + 1) =~= parts);
            assert(parts.take(i + 1).drop_last() =~= parts.take(i as int));
            if i == 0 {
                assert(title@ =~= parts[0]);
            }
        }
        let id = self.id();
        self.project.sections.push(EditorSection { id, name: title, pages });
        proof {
            assert(self.project@.sections =~= old(self).project@.sections.push(
                SectionView { id, name: joined(parts, " / "@), pages: crate::model::pages_view(pages@) },
            ));
        }
    }

    /// The project that was built.
    pub fn finish(self) -> (r: Project)
        ensures
            r@ == self.project@,
    {
        self.project
    }
}

/// After merging, no two neighbouring blocks are both text boxes: a run of
/// paragraphs becomes one editable box.
pub proof fn lemma_merged_has_no_adjacent_text(blocks: Seq<BlockView>)
    ensures
        forall|i: int|
            0 <= i < merged(blocks).len() - 1 ==> !(#[trigger] merged(blocks)[i] is Text && merged(
                blocks,
            )[i + 1] is Text),
    decreases blocks.len(),
{
    if blocks.len() > 0 {
        lemma_merged_has_no_adjacent_text(blocks.drop_last());
        let m = merged(blocks.drop_last());
        let r = merged(blocks);
        assert forall|i: int| 0 <= i < r.len() - 1 implies !(#[trigger] r[i] is Text && r[i + 1] is Text) by {
            if m.len() > 0 && m.last() is Text && blocks.last() is Text {
                assert(r.len() == m.len());
                if i + 1 < m.len() - 1 {
                    assert(r[i] == m[i] && r[i + 1] == m[i + 1]);
                } else {
                    assert(r[i] == m[i]);
                }
            } else {
                assert(r == m.push(blocks.last()));
                if i + 1 < m.len() {
                    assert(r[i] == m[i] && r[i + 1] == m[i + 1]);
                }
            }
        }
    }
}

/// Every block in `blocks` has an identifier below `n`, and no two share one.
pub open spec fn fresh_ids(blocks: Seq<BlockView>, n: nat) -> bool {
    &&& forall|i: int| 0 <= i < blocks.len() ==> (#[trigger] blocks[i]).id() < n
    &&& forall|i: int, j: int|
        0 <= i < j < blocks.len() ==> (#[trigger] blocks[i]).id() != (#[trigger] blocks[j]).id()
}

/// Every asset in `assets` has an identifier below `n`, and no two share one.
pub open spec fn fresh_asset_ids(assets: Seq<AssetView>, n: nat) -> bool {
    &&& forall|i: int| 0 <= i < assets.len() ==> (#[trigger] assets[i]).id < n
    &&& forall|i: int, j: int|
        0 <= i < j < assets.len() ==> (#[trigger] assets[i]).id != (#[trigger] assets[j]).id
}

/// What an import keeps: unique identifiers below the next free one.
pub open spec fn ids_ok(s: ImportView) -> bool {
    fresh_ids(s.blocks, s.next_id) && fresh_asset_ids(s.assets, s.next_id)
}

proof fn lemma_content_keeps_ids(s: ImportView, c: Content, level: u8)
    requires
        ids_ok(s),
        content_import(s, c, level).next_id <= u64::MAX,
    ensures
        ids_ok(content_import(s, c, level)),
{
    let t = content_import(s, c, level);
    assert forall|i: int| 0 <= i < t.blocks.len() implies (#[trigger] t.blocks[i]).id() < t.next_id by {
        if i < s.blocks.len() {
            assert(t.blocks[i] == s.blocks[i]);
        }
    }
    assert forall|i: int, j: int| 0 <= i < j < t.blocks.len() implies (#[trigger] t.blocks[i]).id()
        != (#[trigger] t.blocks[j]).id() by {
        if j < s.blocks.len() {
            assert(t.blocks[i] == s.blocks[i] && t.blocks[j] == s.blocks[j]);
        } else {
            assert(t.blocks[i] == s.blocks[i]);
            assert(s.blocks[i].id() < s.next_id);
        }
    }
    assert forall|i: int| 0 <= i < t.assets.len() implies (#[trigger] t.assets[i]).id < t.next_id by {
        if i < s.assets.len() {
            assert(t.assets[i] == s.assets[i]);
        }
    }
    assert forall|i: int, j: int| 0 <= i < j < t.assets.len() implies (#[trigger] t.assets[i]).id
        != (#[trigger] t.assets[j]).id by {
        if j < s.assets.len() {
            assert(t.assets[i] == s.assets[i] && t.assets[j] == s.assets[j]);
        } else {
            assert(t.assets[i] == s.assets[i]);
            assert(s.assets[i].id < s.next_id);
        }
    }
}

proof fn lemma_contents_keep_ids(s: ImportView, cs: Seq<Content>, level: u8)
    requires
        ids_ok(s),
        contents_import(s, cs, level).next_id <= u64::MAX,
    ensures
        ids_ok(contents_import(s, cs, level)),
    decreases cs.len(),
{
    if cs.len() > 0 {
        lemma_contents_grow(s, cs, level, cs.len() - 1);
        assert(cs.take(cs.len() - 1) =~= cs.drop_last());
        lemma_contents_keep_ids(s, cs.drop_last(), level);
        lemma_content_keeps_ids(contents_import(s, cs.drop_last(), level), cs.last(), level);
    }
}

proof fn lemma_element_keeps_ids(s: ImportView, e: OutlineElement)
    requires
        ids_ok(s),
        element_import(s, e).next_id <= u64::MAX,
    ensures
        ids_ok(element_import(s, e)),
    decreases e, 0nat,
{
    let mid = contents_import(s, e.content@, e.level);
    lemma_items_grow(mid, e.children@, 0);
    assert(e.children@.take(0) =~= Seq::<OutlineItem>::empty());
    lemma_contents_keep_ids(s, e.content@, e.level);
    lemma_items_keep_ids(mid, e.children@);
}

proof fn lemma_item_keeps_ids(s: ImportView, item: OutlineItem)
    requires
        ids_ok(s),
        item_import(s, item).next_id <= u64::MAX,
    ensures
        ids_ok(item_import(s, item)),
    decreases item, 0nat,
{
    match item {
        OutlineItem::Element(e) => lemma_element_keeps_ids(s, e),
        OutlineItem::Group(items) => lemma_items_keep_ids(s, items@),
    }
}

proof fn lemma_items_keep_ids(s: ImportView, items: Seq<OutlineItem>)
    requires
        ids_ok(s),
        items_import(s, items).next_id <= u64::MAX,
    ensures
        ids_ok(items_import(s, items)),
    decreases items, 1nat,
{
    if items.len() > 0 {
        lemma_items_grow(s, items, items.len() - 1);
        assert(items.take(items.len() - 1) =~= items.drop_last());
        lemma_items_keep_ids(s, items.drop_last());
        lemma_item_keeps_ids(items_import(s, items.drop_last()), items.last());
    }
}

/// Merging keeps only identifiers of blocks that were there, in order: the
/// result gives, for each merged block, the position of the original block
/// whose identifier it carries.
proof fn lemma_merged_ids(blocks: Seq<BlockView>) -> (pos: Seq<int>)
    ensures
        pos.len() == merged(blocks).len(),
        forall|i: int|
            0 <= i < pos.len() ==> 0 <= #[trigger] pos[i] < blocks.len() && merged(blocks)[i].id()
                == blocks[pos[i]].id(),
        forall|i: int, j: int| 0 <= i < j < pos.len() ==> #[trigger] pos[i] < #[trigger] pos[j],
    decreases blocks.len(),
{
    if blocks.len() == 0 {
        Seq::empty()
    } else {
        let pos = lemma_merged_ids(blocks.drop_last());
        let m = merged(blocks.drop_last());
        let r = merged(blocks);
        if m.len() > 0 && m.last() is Text && blocks.last() is Text {
            assert forall|i: int| 0 <= i < pos.len() implies 0 <= #[trigger] pos[i] < blocks.len()
                && r[i].id() == blocks[pos[i]].id() by {
                assert(blocks.drop_last()[pos[i]] == blocks[pos[i]]);
                if i < m.len() - 1 {
                    assert(r[i] == m[i]);
                } else {
                    assert(r[i].id() == m.last().id());
                }
            }
            pos
        } else {
            let pos2 = pos.push(blocks.len() - 1);
            assert forall|i: int| 0 <= i < pos2.len() implies 0 <= #[trigger] pos2[i] < blocks.len()
                && r[i].id() == blocks[pos2[i]].id() by {
                if i < pos.len() {
                    assert(pos2[i] == pos[i]);
                    assert(blocks.drop_last()[pos[i]] == blocks[pos[i]]);
                    assert(r[i] == m[i]);
                }
            }
            assert forall|i: int, j: int| 0 <= i < j < pos2.len() implies #[trigger] pos2[i]
                < #[trigger] pos2[j] by {
                if j < pos.len() {
                    assert(pos2[i] == pos[i] && pos2[j] == pos[j]);
                } else {
                    assert(pos2[i] == pos[i]);
                }
            }
            pos2
        }
    }
}

/// The blocks an outline becomes each have their own identifier, distinct
/// from those handed out before, and so do the assets it adds; merging
/// adjacent paragraphs keeps this.
pub proof fn lemma_outline_ids_are_unique(s: ImportView, items: Seq<OutlineItem>)
    requires
        ids_ok(s),
        items_import(s, items).next_id <= u64::MAX,
    ensures
        ids_ok(items_import(s, items)),
        fresh_ids(merged(items_import(s, items).blocks), items_import(s, items).next_id),
{
    lemma_items_keep_ids(s, items);
    let t = items_import(s, items);
    let pos = lemma_merged_ids(t.blocks);
    let m = merged(t.blocks);
    assert forall|i: int| 0 <= i < m.len() implies (#[trigger] m[i]).id() < t.next_id by {
        assert(m[i].id() == t.blocks[pos[i]].id());
    }
    assert forall|i: int, j: int| 0 <= i < j < m.len() implies (#[trigger] m[i]).id() != (
    #[trigger] m[j]).id() by {
        assert(pos[i] < pos[j]);
        assert(m[i].id() == t.blocks[pos[i]].id());
        assert(m[j].id() == t.blocks[pos[j]].id());
    }
}

// ---------------------------------------------------------------------------
// Objects placed directly on a page.
// ---------------------------------------------------------------------------

/// An object placed directly on a native page, with the position the caller
/// computed for it.
#[derive(Debug)]
pub enum PageObject {
    Image { filename: Option<String>, data: Option<Vec<u8>>, size: u64, layout: CanvasLayout },
    Attachment { filename: String, data: Option<Vec<u8>>, size: u64, layout: CanvasLayout },
    Ink(NativeInk),
    Unknown,
}

/// The import after one object placed on a page: an image or a file becomes
/// an asset and a block, ink an ink block, anything else an unsupported block.
pub open spec fn object_import(s: ImportView, o: PageObject) -> ImportView {
    match o {
        PageObject::Image { filename, data, size, layout } => ImportView {
            next_id: s.next_id + 2,
            assets: s.assets.push(
                imported_asset(
                    s.next_id as u64,
                    match filename {
                        Some(f) => f@,
                        None => "image.bin"@,
                    },
                    opt_bytes(data),
                    size,
                ),
            ),
            blocks: s.blocks.push(
                BlockView::Image { id: (s.next_id + 1) as u64, asset_id: s.next_id as u64, layout },
            ),
        },
        PageObject::Attachment { filename, data, size, layout } => ImportView {
            next_id: s.next_id + 2,
            assets: s.assets.push(imported_asset(s.next_id as u64, filename@, opt_bytes(data), size)),
            blocks: s.blocks.push(
                BlockView::Attachment { id: (s.next_id + 1) as u64, asset_id: s.next_id as u64, layout },
            ),
        },
        PageObject::Ink(ink) => ImportView {
            next_id: s.next_id + 1,
            blocks: s.blocks.push(
                BlockView::Ink {
                    id: s.next_id as u64,
                    stroke_count: ink.stroke_count,
                    strokes: strokes_view(ink.strokes@),
                    layout: ink.layout,
                },
            ),
            ..s
        },
        PageObject::Unknown => ImportView {
            next_id: s.next_id + 1,
            blocks: s.blocks.push(
                BlockView::Unsupported {
                    id: s.next_id as u64,
                    description: "unknown page content"@,
                    layout: default_canvas_layout(),
                },
            ),
            ..s
        },
    }
}

impl ProjectBuilder {
    /// Adds the block an object placed on a page becomes.
    pub fn import_page_object(&mut self, object: &PageObject, output: &mut Vec<EditorBlock>)
        requires
            object_import(import_state(old(self).project@, old(output)@), *object).next_id <= u64::MAX,
        ensures
            final(self).project@ == project_after(
                old(self).project@,
                object_import(import_state(old(self).project@, old(output)@), *object),
            ),
            blocks_view(final(output)@) == object_import(
                import_state(old(self).project@, old(output)@),
                *object,
            ).blocks,
    {
        let ghost s = import_state(self.project@, output@);
        let ghost p0 = self.project@;
        match object {
            PageObject::Image { filename, data, size, layout } => {
                let asset_id = match filename {
                    Some(f) => self.add_asset(f.as_str(), data, *size),
                    None => self.add_asset("image.bin", data, *size),
                };
                let id = self.id();
                output.push(EditorBlock::Image { id, asset_id, layout: *layout });
            },
            PageObject::Attachment { filename, data, size, layout } => {
                let asset_id = self.add_asset(filename.as_str(), data, *size);
                let id = self.id();
                output.push(EditorBlock::Attachment { id, asset_id, layout: *layout });
            },
            PageObject::Ink(ink) => {
                let strokes = copy_strokes(&ink.strokes);
                let id = self.id();
                output.push(
                    EditorBlock::Ink { id, stroke_count: ink.stroke_count, strokes, layout: ink.layout },
                );
            },
            PageObject::Unknown => {
                let id = self.id();
                output.push(
                    EditorBlock::Unsupported {
                        id,
                        description: String::from_str("unknown page content"),
                        layout: CanvasLayout::default_layout(),
                    },
                );
            },
        }
        proof {
            let after = object_import(s, *object);
            assert(blocks_view(output@) =~= after.blocks);
            assert(self.project@ == project_after(p0, after));
        }
    }
}

/// An object placed on a page gets identifiers of its own, as outline blocks do.
pub proof fn lemma_page_object_ids_are_unique(s: ImportView, o: PageObject)
    requires
        ids_ok(s),
        object_import(s, o).next_id <= u64::MAX,
    ensures
        ids_ok(object_import(s, o)),
{
    let t = object_import(s, o);
    assert forall|i: int| 0 <= i < t.blocks.len() implies (#[trigger] t.blocks[i]).id() < t.next_id by {
        if i < s.blocks.len() {
            assert(t.blocks[i] == s.blocks[i]);
        }
    }
    assert forall|i: int, j: int| 0 <= i < j < t.blocks.len() implies (#[trigger] t.blocks[i]).id()
        != (#[trigger] t.blocks[j]).id() by {
        if j < s.blocks.len() {
            assert(t.blocks[i] == s.blocks[i] && t.blocks[j] == s.blocks[j]);
        } else {
            assert(t.blocks[i] == s.blocks[i]);
            assert(s.blocks[i].id() < s.next_id);
        }
    }
    assert forall|i: int| 0 <= i < t.assets.len() implies (#[trigger] t.assets[i]).id < t.next_id by {
        if i < s.assets.len() {
            assert(t.assets[i] == s.assets[i]);
        }
    }
    assert forall|i: int, j: int| 0 <= i < j < t.assets.len() implies (#[trigger] t.assets[i]).id
        != (#[trigger] t.assets[j]).id by {
        if j < s.assets.len() {
            assert(t.assets[i] == s.assets[i] && t.assets[j] == s.assets[j]);
        } else {
            assert(t.assets[i] == s.assets[i]);
            assert(s.assets[i].id < s.next_id);
        }
    }
}

/// An object placed on a page keeps its place: the import appends exactly one
/// block after the blocks already there, and an image, a file or ink becomes a
/// block at the object's own position and size. An image or a file also
/// appends exactly one asset, the one its block shows.
pub proof fn lemma_page_object_keeps_its_place(s: ImportView, o: PageObject)
    ensures
        object_import(s, o).blocks.len() == s.blocks.len() + 1,
        object_import(s, o).blocks.take(s.blocks.len() as int) == s.blocks,
        match o {
            PageObject::Image { layout, .. } => {
                let t = object_import(s, o);
                &&& t.assets.len() == s.assets.len() + 1
                &&& t.blocks.last() matches BlockView::Image { layout: l, asset_id: a, .. } && l
                    == layout && a == t.assets.last().id
            },
            PageObject::Attachment { layout, .. } => {
                let t = object_import(s, o);
                &&& t.assets.len() == s.assets.len() + 1
                &&& t.blocks.last() matches BlockView::Attachment { layout: l, asset_id: a, .. } && l
                    == layout && a == t.assets.last().id
            },
            PageObject::Ink(ink) => object_import(s, o).blocks.last() matches BlockView::Ink {
                layout: l,
                stroke_count: n,
                ..
            } && l == ink.layout && n == ink.stroke_count,
            PageObject::Unknown => object_import(s, o).blocks.last() is Unsupported,
        },
{
    let t = object_import(s, o);
    assert(t.blocks.take(s.blocks.len() as int) =~= s.blocks);
}

} // verus!
