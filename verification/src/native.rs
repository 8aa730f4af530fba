//! The part of a native OneNote notebook that text edits are mapped back to:
//! sections (possibly nested in section groups), pages with titles, outlines
//! of paragraphs (with formatting runs) and tables, and image alt texts.
//! Everything else a native page holds is carried by the application.

use crate::text::{
    add_clipped, add_count, lemma_clip_add, chars_equal, chars_of, clip, count_matches, is_utf16_boundary,
    lemma_utf16_char_index, lemma_utf16_concat, lemma_utf16_prefix_mono,
    lemma_utf16_prefix_strict, match_count, decimal, push_decimal, string_of_range, utf16_char_index,
    utf16_len, utf16_len_of, utf16_width_of,
};
use crate::model::{CanvasLayout, EditorStroke};
use vstd::prelude::*;

verus! {

broadcast use vstd::std_specs::vec::group_vec_axioms;

/// A run of text with one formatting style.
#[derive(Debug)]
pub struct TextRun {
    pub text: String,
    /// The run is hidden text, not shown to the reader.
    pub hidden: bool,
}

/// A paragraph: its full text and the formatting runs that make it up.
#[derive(Debug)]
pub struct Paragraph {
    pub text: String,
    pub runs: Vec<TextRun>,
}

/// One cell of a native table.
#[derive(Debug)]
pub struct TableCell {
    pub content: Vec<OutlineElement>,
}

/// One row of a native table.
#[derive(Debug)]
pub struct TableRow {
    pub cells: Vec<TableCell>,
}

/// A native table.
#[derive(Debug)]
pub struct Table {
    pub content: Vec<TableRow>,
}

/// An embedded image: its alternative text and its file.
#[derive(Debug)]
pub struct NativeImage {
    pub alt: Option<String>,
    pub filename: Option<String>,
    /// The file's bytes, when the source holds them.
    pub data: Option<Vec<u8>>,
    pub size: u64,
}

/// An embedded file.
#[derive(Debug)]
pub struct NativeFile {
    pub filename: String,
    /// The file's bytes, when the source holds them.
    pub data: Option<Vec<u8>>,
    pub size: u64,
}

/// Ink inside an outline, already converted to editor strokes relative to
/// its own block.
#[derive(Debug)]
pub struct NativeInk {
    pub stroke_count: usize,
    pub strokes: Vec<EditorStroke>,
    pub layout: CanvasLayout,
}

/// What an outline element holds.
#[derive(Debug)]
pub enum Content {
    Paragraph(Paragraph),
    Table(Table),
    Image(NativeImage),
    Attachment(NativeFile),
    Ink(NativeInk),
    Unknown,
}

/// An outline element: its indentation level, contents and nested items.
#[derive(Debug)]
pub struct OutlineElement {
    pub level: u8,
    pub content: Vec<Content>,
    pub children: Vec<OutlineItem>,
}

/// An item of an outline: an element, or a group of items.
#[derive(Debug)]
pub enum OutlineItem {
    Element(OutlineElement),
    Group(Vec<OutlineItem>),
}

/// A positioned object on a native page.
#[derive(Debug)]
pub enum PageBlock {
    Outline(Vec<OutlineItem>),
    /// An image, with its alternative text.
    Image(Option<String>),
    Attachment,
    Ink,
    Unknown,
}

/// A native page.
#[derive(Debug)]
pub struct Page {
    pub title: String,
    pub blocks: Vec<PageBlock>,
}

/// A native section.
#[derive(Debug)]
pub struct Section {
    pub name: String,
    pub pages: Vec<Page>,
}

/// An entry of a notebook: a section, or a named group of entries.
#[derive(Debug)]
pub enum NotebookEntry {
    Section(Section),
    SectionGroup(String, Vec<NotebookEntry>),
}

/// A native notebook.
#[derive(Debug)]
pub struct Notebook {
    pub name: String,
    pub entries: Vec<NotebookEntry>,
}

// ---------------------------------------------------------------------------
// How often a text occurs anywhere in the notebook's visible text: page
// titles, paragraphs (also inside tables) and image alternative texts.
// ---------------------------------------------------------------------------

/// Occurrences of `t` in an optional alternative text.
pub open spec fn alt_occurrences(alt: Option<String>, t: Seq<char>) -> nat {
    match alt {
        Some(a) => match_count(a@, t),
        None => 0,
    }
}

/// Occurrences of `t` in a sequence of entries.
pub open spec fn entries_occurrences(es: Seq<NotebookEntry>, t: Seq<char>) -> nat
    decreases es, 1nat,
{
    if es.len() == 0 {
        0
    } else {
        entries_occurrences(es.drop_last(), t) + entry_occurrences(es.last(), t)
    }
}

/// Occurrences of `t` in an entry.
pub open spec fn entry_occurrences(e: NotebookEntry, t: Seq<char>) -> nat
    decreases e, 0nat,
{
    match e {
        NotebookEntry::Section(s) => pages_occurrences(s.pages@, t),
        NotebookEntry::SectionGroup(_, es) => entries_occurrences(es@, t),
    }
}

/// Occurrences of `t` in a sequence of pages (titles and blocks).
pub open spec fn pages_occurrences(ps: Seq<Page>, t: Seq<char>) -> nat
    decreases ps, 1nat,
{
    if ps.len() == 0 {
        0
    } else {
        pages_occurrences(ps.drop_last(), t) + match_count(ps.last().title@, t)
            + blocks_occurrences(ps.last().blocks@, t)
    }
}

/// Occurrences of `t` in a sequence of page blocks.
pub open spec fn blocks_occurrences(bs: Seq<PageBlock>, t: Seq<char>) -> nat
    decreases bs, 1nat,
{
    if bs.len() == 0 {
        0
    } else {
        blocks_occurrences(bs.drop_last(), t) + block_occurrences(bs.last(), t)
    }
}

/// Occurrences of `t` in a page block.
pub open spec fn block_occurrences(b: PageBlock, t: Seq<char>) -> nat
    decreases b, 0nat,
{
    match b {
        PageBlock::Outline(items) => items_occurrences(items@, t),
        PageBlock::Image(alt) => alt_occurrences(alt, t),
        _ => 0,
    }
}

/// Occurrences of `t` in a sequence of outline items.
pub open spec fn items_occurrences(is: Seq<OutlineItem>, t: Seq<char>) -> nat
    decreases is, 1nat,
{
    if is.len() == 0 {
        0
    } else {
        items_occurrences(is.drop_last(), t) + item_occurrences(is.last(), t)
    }
}

/// Occurrences of `t` in an outline item.
pub open spec fn item_occurrences(i: OutlineItem, t: Seq<char>) -> nat
    decreases i, 0nat,
{
    match i {
        OutlineItem::Element(e) => element_occurrences(e, t),
        OutlineItem::Group(items) => items_occurrences(items@, t),
    }
}

/// Occurrences of `t` in an outline element: its contents, then its children.
pub open spec fn element_occurrences(e: OutlineElement, t: Seq<char>) -> nat
    decreases e, 0nat,
{
    contents_occurrences(e.content@, t) + items_occurrences(e.children@, t)
}

/// Occurrences of `t` in a sequence of contents.
pub open spec fn contents_occurrences(cs: Seq<Content>, t: Seq<char>) -> nat
    decreases cs, 1nat,
{
    if cs.len() == 0 {
        0
    } else {
        contents_occurrences(cs.drop_last(), t) + content_occurrences(cs.last(), t)
    }
}

/// Occurrences of `t` in one content.
pub open spec fn content_occurrences(c: Content, t: Seq<char>) -> nat
    decreases c, 0nat,
{
    match c {
        Content::Paragraph(p) => match_count(p.text@, t),
        Content::Table(table) => rows_occurrences(table.content@, t),
        Content::Image(image) => alt_occurrences(image.alt, t),
        _ => 0,
    }
}

/// Occurrences of `t` in a sequence of table rows.
pub open spec fn rows_occurrences(rs: Seq<TableRow>, t: Seq<char>) -> nat
    decreases rs, 1nat,
{
    if rs.len() == 0 {
        0
    } else {
        rows_occurrences(rs.drop_last(), t) + cells_occurrences(rs.last().cells@, t)
    }
}

/// Occurrences of `t` in a sequence of table cells.
pub open spec fn cells_occurrences(cs: Seq<TableCell>, t: Seq<char>) -> nat
    decreases cs, 1nat,
{
    if cs.len() == 0 {
        0
    } else {
        cells_occurrences(cs.drop_last(), t) + elements_occurrences(cs.last().content@, t)
    }
}

/// Occurrences of `t` in a sequence of outline elements.
pub open spec fn elements_occurrences(es: Seq<OutlineElement>, t: Seq<char>) -> nat
    decreases es, 1nat,
{
    if es.len() == 0 {
        0
    } else {
        elements_occurrences(es.drop_last(), t) + element_occurrences(es.last(), t)
    }
}

/// Occurrences of `t` anywhere in the notebook's visible text.
pub open spec fn notebook_occurrences(n: Notebook, t: Seq<char>) -> nat {
    entries_occurrences(n.entries@, t)
}


/// Occurrences of `text` in an optional alternative text.
fn count_alt_occurrences(alt: &Option<String>, text: &[char]) -> (r: usize)
    requires
        text@.len() > 0,
    ensures
        r == clip(alt_occurrences(*alt, text@)),
{
    match alt {
        Some(a) => {
            let chars = chars_of(a.as_str());
            count_matches(&chars, text)
        },
        None => 0,
    }
}

/// Occurrences of `text` in the notebook's visible text (saturating).
pub fn count_text_occurrences(notebook: &Notebook, text: &[char]) -> (r: usize)
    requires
        text@.len() > 0,
    ensures
        r == clip(notebook_occurrences(*notebook, text@)),
{
    count_entries_text_occurrences(&notebook.entries, text)
}

fn count_entries_text_occurrences(entries: &Vec<NotebookEntry>, text: &[char]) -> (r: usize)
    requires
        text@.len() > 0,
    ensures
        r == clip(entries_occurrences(entries@, text@)),
    decreases entries, 1nat,
{
    let mut total: usize = 0;
    let mut i: usize = 0;
    while i < entries.len()
        invariant
            i <= entries@.len(),
            text@.len() > 0,
            total == clip(entries_occurrences(entries@.take(i as int), text@)),
        decreases entries@.len() - i,
    {
        let n = count_entry_text_occurrences(&entries[i], text);
        assert(entries@.take(i + 1).drop_last() =~= entries@.take(i as int));
        total = add_clipped(
            total,
            n,
            Ghost(entries_occurrences(entries@.take(i as int), text@)),
            Ghost(entry_occurrences(entries@[i as int], text@)),
        );
        i = i + 1;
    }
    assert(entries@.take(i as int) =~= entries@);
    total
}

fn count_entry_text_occurrences(entry: &NotebookEntry, text: &[char]) -> (r: usize)
    requires
        text@.len() > 0,
    ensures
        r == clip(entry_occurrences(*entry, text@)),
    decreases entry, 0nat,
{
    match entry {
        NotebookEntry::Section(section) => count_pages_text_occurrences(&section.pages, text),
        NotebookEntry::SectionGroup(_, entries) => count_entries_text_occurrences(entries, text),
    }
}

fn count_pages_text_occurrences(pages: &Vec<Page>, text: &[char]) -> (r: usize)
    requires
        text@.len() > 0,
    ensures
        r == clip(pages_occurrences(pages@, text@)),
    decreases pages, 1nat,
{
    let mut total: usize = 0;
    let mut i: usize = 0;
    while i < pages.len()
        invariant
            i <= pages@.len(),
            text@.len() > 0,
            total == clip(pages_occurrences(pages@.take(i as int), text@)),
        decreases pages@.len() - i,
    {
        let page = &pages[i];
        let title = chars_of(page.title.as_str());
        let in_title = count_matches(&title, text);
        let in_blocks = count_blocks_text_occurrences(&page.blocks, text);
        assert(pages@.take(i + 1).drop_last() =~= pages@.take(i as int));
        let partial = add_clipped(
            total,
            in_title,
            Ghost(pages_occurrences(pages@.take(i as int), text@)),
            Ghost(match_count(page.title@, text@)),
        );
        total = add_clipped(
            partial,
            in_blocks,
            Ghost(pages_occurrences(pages@.take(i as int), text@) + match_count(page.title@, text@)),
            Ghost(blocks_occurrences(page.blocks@, text@)),
        );
        i = i + 1;
    }
    assert(pages@.take(i as int) =~= pages@);
    total
}

fn count_blocks_text_occurrences(blocks: &Vec<PageBlock>, text: &[char]) -> (r: usize)
    requires
        text@.len() > 0,
    ensures
        r == clip(blocks_occurrences(blocks@, text@)),
    decreases blocks, 1nat,
{
    let mut total: usize = 0;
    let mut i: usize = 0;
    while i < blocks.len()
        invariant
            i <= blocks@.len(),
            text@.len() > 0,
            total == clip(blocks_occurrences(blocks@.take(i as int), text@)),
        decreases blocks@.len() - i,
    {
        let n = count_block_text_occurrences(&blocks[i], text);
        assert(blocks@.take(i + 1).drop_last() =~= blocks@.take(i as int));
        total = add_clipped(
            total,
            n,
            Ghost(blocks_occurrences(blocks@.take(i as int), text@)),
            Ghost(block_occurrences(blocks@[i as int], text@)),
        );
        i = i + 1;
    }
    assert(blocks@.take(i as int) =~= blocks@);
    total
}

/// Occurrences of `text` in one page block (saturating).
pub fn count_block_text_occurrences(block: &PageBlock, text: &[char]) -> (r: usize)
    requires
        text@.len() > 0,
    ensures
        r == clip(block_occurrences(*block, text@)),
    decreases block, 0nat,
{
    match block {
        PageBlock::Outline(items) => count_items_text_occurrences(items, text),
        PageBlock::Image(alt) => count_alt_occurrences(alt, text),
        _ => 0,
    }
}

fn count_items_text_occurrences(items: &Vec<OutlineItem>, text: &[char]) -> (r: usize)
    requires
        text@.len() > 0,
    ensures
        r == clip(items_occurrences(items@, text@)),
    decreases items, 1nat,
{
    let mut total: usize = 0;
    let mut i: usize = 0;
    while i < items.len()
        invariant
            i <= items@.len(),
            text@.len() > 0,
            total == clip(items_occurrences(items@.take(i as int), text@)),
        decreases items@.len() - i,
    {
        let n = count_item_text_occurrences(&items[i], text);
        assert(items@.take(i + 1).drop_last() =~= items@.take(i as int));
        total = add_clipped(
            total,
            n,
            Ghost(items_occurrences(items@.take(i as int), text@)),
            Ghost(item_occurrences(items@[i as int], text@)),
        );
        i = i + 1;
    }
    assert(items@.take(i as int) =~= items@);
    total
}

/// Occurrences of `text` in one outline item (saturating).
pub fn count_item_text_occurrences(item: &OutlineItem, text: &[char]) -> (r: usize)
    requires
        text@.len() > 0,
    ensures
        r == clip(item_occurrences(*item, text@)),
    decreases item, 0nat,
{
    match item {
        OutlineItem::Element(element) => count_element_text_occurrences(element, text),
        OutlineItem::Group(items) => count_items_text_occurrences(items, text),
    }
}

/// Occurrences of `text` in one outline element and what it nests (saturating).
pub fn count_element_text_occurrences(element: &OutlineElement, text: &[char]) -> (r: usize)
    requires
        text@.len() > 0,
    ensures
        r == clip(element_occurrences(*element, text@)),
    decreases element, 0nat,
{
    let direct = count_contents_text_occurrences(&element.content, text);
    let nested = count_items_text_occurrences(&element.children, text);
    add_clipped(
        direct,
        nested,
        Ghost(contents_occurrences(element.content@, text@)),
        Ghost(items_occurrences(element.children@, text@)),
    )
}

fn count_contents_text_occurrences(contents: &Vec<Content>, text: &[char]) -> (r: usize)
    requires
        text@.len() > 0,
    ensures
        r == clip(contents_occurrences(contents@, text@)),
    decreases contents, 1nat,
{
    let mut total: usize = 0;
    let mut i: usize = 0;
    while i < contents.len()
        invariant
            i <= contents@.len(),
            text@.len() > 0,
            total == clip(contents_occurrences(contents@.take(i as int), text@)),
        decreases contents@.len() - i,
    {
        let n = count_content_text_occurrences(&contents[i], text);
        assert(contents@.take(i + 1).drop_last() =~= contents@.take(i as int));
        total = add_clipped(
            total,
            n,
            Ghost(contents_occurrences(contents@.take(i as int), text@)),
            Ghost(content_occurrences(contents@[i as int], text@)),
        );
        i = i + 1;
    }
    assert(contents@.take(i as int) =~= contents@);
    total
}

fn count_content_text_occurrences(content: &Content, text: &[char]) -> (r: usize)
    requires
        text@.len() > 0,
    ensures
        r == clip(content_occurrences(*content, text@)),
    decreases content, 0nat,
{
    match content {
        Content::Paragraph(paragraph) => {
            let chars = chars_of(paragraph.text.as_str());
            count_matches(&chars, text)
        },
        Content::Table(table) => count_rows_text_occurrences(&table.content, text),
        Content::Image(image) => count_alt_occurrences(&image.alt, text),
        _ => 0,
    }
}

fn count_rows_text_occurrences(rows: &Vec<TableRow>, text: &[char]) -> (r: usize)
    requires
        text@.len() > 0,
    ensures
        r == clip(rows_occurrences(rows@, text@)),
    decreases rows, 1nat,
{
    let mut total: usize = 0;
    let mut i: usize = 0;
    while i < rows.len()
        invariant
            i <= rows@.len(),
            text@.len() > 0,
            total == clip(rows_occurrences(rows@.take(i as int), text@)),
        decreases rows@.len() - i,
    {
        let n = count_cells_text_occurrences(&rows[i].cells, text);
        assert(rows@.take(i + 1).drop_last() =~= rows@.take(i as int));
        total = add_clipped(
            total,
            n,
            Ghost(rows_occurrences(rows@.take(i as int), text@)),
            Ghost(cells_occurrences(rows@[i as int].cells@, text@)),
        );
        i = i + 1;
    }
    assert(rows@.take(i as int) =~= rows@);
    total
}

fn count_cells_text_occurrences(cells: &Vec<TableCell>, text: &[char]) -> (r: usize)
    requires
        text@.len() > 0,
    ensures
        r == clip(cells_occurrences(cells@, text@)),
    decreases cells, 1nat,
{
    let mut total: usize = 0;
    let mut i: usize = 0;
    while i < cells.len()
        invariant
            i <= cells@.len(),
            text@.len() > 0,
            total == clip(cells_occurrences(cells@.take(i as int), text@)),
        decreases cells@.len() - i,
    {
        let n = count_elements_text_occurrences(&cells[i].content, text);
        assert(cells@.take(i + 1).drop_last() =~= cells@.take(i as int));
        total = add_clipped(
            total,
            n,
            Ghost(cells_occurrences(cells@.take(i as int), text@)),
            Ghost(elements_occurrences(cells@[i as int].content@, text@)),
        );
        i = i + 1;
    }
    assert(cells@.take(i as int) =~= cells@);
    total
}

fn count_elements_text_occurrences(elements: &Vec<OutlineElement>, text: &[char]) -> (r: usize)
    requires
        text@.len() > 0,
    ensures
        r == clip(elements_occurrences(elements@, text@)),
    decreases elements, 1nat,
{
    let mut total: usize = 0;
    let mut i: usize = 0;
    while i < elements.len()
        invariant
            i <= elements@.len(),
            text@.len() > 0,
            total == clip(elements_occurrences(elements@.take(i as int), text@)),
        decreases elements@.len() - i,
    {
        let n = count_element_text_occurrences(&elements[i], text);
        assert(elements@.take(i + 1).drop_last() =~= elements@.take(i as int));
        total = add_clipped(
            total,
            n,
            Ghost(elements_occurrences(elements@.take(i as int), text@)),
            Ghost(element_occurrences(elements@[i as int], text@)),
        );
        i = i + 1;
    }
    assert(elements@.take(i as int) =~= elements@);
    total
}


// ---------------------------------------------------------------------------
// How many paragraphs (also inside tables) have exactly a given text.
// ---------------------------------------------------------------------------

/// Paragraphs with text exactly `t` in a sequence of entries.
pub open spec fn entries_exact(es: Seq<NotebookEntry>, t: Seq<char>) -> nat
    decreases es, 1nat,
{
    if es.len() == 0 {
        0
    } else {
        entries_exact(es.drop_last(), t) + entry_exact(es.last(), t)
    }
}

/// Paragraphs with text exactly `t` in an entry.
pub open spec fn entry_exact(e: NotebookEntry, t: Seq<char>) -> nat
    decreases e, 0nat,
{
    match e {
        NotebookEntry::Section(s) => pages_exact(s.pages@, t),
        NotebookEntry::SectionGroup(_, es) => entries_exact(es@, t),
    }
}

/// Paragraphs with text exactly `t` on a sequence of pages.
pub open spec fn pages_exact(ps: Seq<Page>, t: Seq<char>) -> nat
    decreases ps, 1nat,
{
    if ps.len() == 0 {
        0
    } else {
        pages_exact(ps.drop_last(), t) + blocks_exact(ps.last().blocks@, t)
    }
}

/// Paragraphs with text exactly `t` in a sequence of page blocks.
pub open spec fn blocks_exact(bs: Seq<PageBlock>, t: Seq<char>) -> nat
    decreases bs, 1nat,
{
    if bs.len() == 0 {
        0
    } else {
        blocks_exact(bs.drop_last(), t) + block_exact(bs.last(), t)
    }
}

/// Paragraphs with text exactly `t` in a page block.
pub open spec fn block_exact(b: PageBlock, t: Seq<char>) -> nat
    decreases b, 0nat,
{
    match b {
        PageBlock::Outline(items) => items_exact(items@, t),
        _ => 0,
    }
}

/// Paragraphs with text exactly `t` in a sequence of outline items.
pub open spec fn items_exact(is: Seq<OutlineItem>, t: Seq<char>) -> nat
    decreases is, 1nat,
{
    if is.len() == 0 {
        0
    } else {
        items_exact(is.drop_last(), t) + item_exact(is.last(), t)
    }
}

/// Paragraphs with text exactly `t` in an outline item.
pub open spec fn item_exact(i: OutlineItem, t: Seq<char>) -> nat
    decreases i, 0nat,
{
    match i {
        OutlineItem::Element(e) => element_exact(e, t),
        OutlineItem::Group(items) => items_exact(items@, t),
    }
}

/// Paragraphs with text exactly `t` in an outline element and what it nests.
pub open spec fn element_exact(e: OutlineElement, t: Seq<char>) -> nat
    decreases e, 0nat,
{
    contents_exact(e.content@, t) + items_exact(e.children@, t)
}

/// Paragraphs with text exactly `t` in a sequence of contents.
pub open spec fn contents_exact(cs: Seq<Content>, t: Seq<char>) -> nat
    decreases cs, 1nat,
{
    if cs.len() == 0 {
        0
    } else {
        contents_exact(cs.drop_last(), t) + content_exact(cs.last(), t)
    }
}

/// Paragraphs with text exactly `t` in one content.
pub open spec fn content_exact(c: Content, t: Seq<char>) -> nat
    decreases c, 0nat,
{
    match c {
        Content::Paragraph(p) => if p.text@ == t {
            1
        } else {
            0
        },
        Content::Table(table) => rows_exact(table.content@, t),
        _ => 0,
    }
}

/// Paragraphs with text exactly `t` in a sequence of table rows.
pub open spec fn rows_exact(rs: Seq<TableRow>, t: Seq<char>) -> nat
    decreases rs, 1nat,
{
    if rs.len() == 0 {
        0
    } else {
        rows_exact(rs.drop_last(), t) + cells_exact(rs.last().cells@, t)
    }
}

/// Paragraphs with text exactly `t` in a sequence of table cells.
pub open spec fn cells_exact(cs: Seq<TableCell>, t: Seq<char>) -> nat
    decreases cs, 1nat,
{
    if cs.len() == 0 {
        0
    } else {
        cells_exact(cs.drop_last(), t) + elements_exact(cs.last().content@, t)
    }
}

/// Paragraphs with text exactly `t` in a sequence of outline elements.
pub open spec fn elements_exact(es: Seq<OutlineElement>, t: Seq<char>) -> nat
    decreases es, 1nat,
{
    if es.len() == 0 {
        0
    } else {
        elements_exact(es.drop_last(), t) + element_exact(es.last(), t)
    }
}

/// Paragraphs with text exactly `t` anywhere in the notebook.
pub open spec fn notebook_exact(n: Notebook, t: Seq<char>) -> nat {
    entries_exact(n.entries@, t)
}

/// Paragraphs whose text is exactly `text`, anywhere in the notebook (saturating).
pub fn count_exact_paragraphs(notebook: &Notebook, text: &String) -> (r: usize)
    ensures
        r == clip(notebook_exact(*notebook, text@)),
{
    count_exact_entries(&notebook.entries, text)
}

fn count_exact_entries(entries: &Vec<NotebookEntry>, text: &String) -> (r: usize)
    ensures
        r == clip(entries_exact(entries@, text@)),
    decreases entries, 1nat,
{
    let mut total: usize = 0;
    let mut i: usize = 0;
    while i < entries.len()
        invariant
            i <= entries@.len(),
            total == clip(entries_exact(entries@.take(i as int), text@)),
        decreases entries@.len() - i,
    {
        let n = count_exact_entry(&entries[i], text);
        assert(entries@.take(i + 1).drop_last() =~= entries@.take(i as int));
        total = add_clipped(
            total,
            n,
            Ghost(entries_exact(entries@.take(i as int), text@)),
            Ghost(entry_exact(entries@[i as int], text@)),
        );
        i = i + 1;
    }
    assert(entries@.take(i as int) =~= entries@);
    total
}

fn count_exact_entry(entry: &NotebookEntry, text: &String) -> (r: usize)
    ensures
        r == clip(entry_exact(*entry, text@)),
    decreases entry, 0nat,
{
    match entry {
        NotebookEntry::Section(section) => count_exact_pages(&section.pages, text),
        NotebookEntry::SectionGroup(_, entries) => count_exact_entries(entries, text),
    }
}

fn count_exact_pages(pages: &Vec<Page>, text: &String) -> (r: usize)
    ensures
        r == clip(pages_exact(pages@, text@)),
    decreases pages, 1nat,
{
    let mut total: usize = 0;
    let mut i: usize = 0;
    while i < pages.len()
        invariant
            i <= pages@.len(),
            total == clip(pages_exact(pages@.take(i as int), text@)),
        decreases pages@.len() - i,
    {
        let n = count_exact_blocks(&pages[i].blocks, text);
        assert(pages@.take(i + 1).drop_last() =~= pages@.take(i as int));
        total = add_clipped(
            total,
            n,
            Ghost(pages_exact(pages@.take(i as int), text@)),
            Ghost(blocks_exact(pages@[i as int].blocks@, text@)),
        );
        i = i + 1;
    }
    assert(pages@.take(i as int) =~= pages@);
    total
}

fn count_exact_blocks(blocks: &Vec<PageBlock>, text: &String) -> (r: usize)
    ensures
        r == clip(blocks_exact(blocks@, text@)),
    decreases blocks, 1nat,
{
    let mut total: usize = 0;
    let mut i: usize = 0;
    while i < blocks.len()
        invariant
            i <= blocks@.len(),
            total == clip(blocks_exact(blocks@.take(i as int), text@)),
        decreases blocks@.len() - i,
    {
        let n = count_exact_block_paragraphs(&blocks[i], text);
        assert(blocks@.take(i + 1).drop_last() =~= blocks@.take(i as int));
        total = add_clipped(
            total,
            n,
            Ghost(blocks_exact(blocks@.take(i as int), text@)),
            Ghost(block_exact(blocks@[i as int], text@)),
        );
        i = i + 1;
    }
    assert(blocks@.take(i as int) =~= blocks@);
    total
}

/// Paragraphs whose text is exactly `text` in one page block (saturating).
pub fn count_exact_block_paragraphs(block: &PageBlock, text: &String) -> (r: usize)
    ensures
        r == clip(block_exact(*block, text@)),
    decreases block, 0nat,
{
    match block {
        PageBlock::Outline(items) => count_exact_items(items, text),
        _ => 0,
    }
}

fn count_exact_items(items: &Vec<OutlineItem>, text: &String) -> (r: usize)
    ensures
        r == clip(items_exact(items@, text@)),
    decreases items, 1nat,
{
    let mut total: usize = 0;
    let mut i: usize = 0;
    while i < items.len()
        invariant
            i <= items@.len(),
            total == clip(items_exact(items@.take(i as int), text@)),
        decreases items@.len() - i,
    {
        let n = count_exact_item_paragraphs(&items[i], text);
        assert(items@.take(i + 1).drop_last() =~= items@.take(i as int));
        total = add_clipped(
            total,
            n,
            Ghost(items_exact(items@.take(i as int), text@)),
            Ghost(item_exact(items@[i as int], text@)),
        );
        i = i + 1;
    }
    assert(items@.take(i as int) =~= items@);
    total
}

/// Paragraphs whose text is exactly `text` in one outline item (saturating).
pub fn count_exact_item_paragraphs(item: &OutlineItem, text: &String) -> (r: usize)
    ensures
        r == clip(item_exact(*item, text@)),
    decreases item, 0nat,
{
    match item {
        OutlineItem::Element(element) => count_exact_element_paragraphs(element, text),
        OutlineItem::Group(items) => count_exact_items(items, text),
    }
}

/// Paragraphs whose text is exactly `text` in one outline element and what it
/// nests (saturating).
pub fn count_exact_element_paragraphs(element: &OutlineElement, text: &String) -> (r: usize)
    ensures
        r == clip(element_exact(*element, text@)),
    decreases element, 0nat,
{
    let direct = count_exact_contents(&element.content, text);
    let nested = count_exact_items(&element.children, text);
    add_clipped(
        direct,
        nested,
        Ghost(contents_exact(element.content@, text@)),
        Ghost(items_exact(element.children@, text@)),
    )
}

fn count_exact_contents(contents: &Vec<Content>, text: &String) -> (r: usize)
    ensures
        r == clip(contents_exact(contents@, text@)),
    decreases contents, 1nat,
{
    let mut total: usize = 0;
    let mut i: usize = 0;
    while i < contents.len()
        invariant
            i <= contents@.len(),
            total == clip(contents_exact(contents@.take(i as int), text@)),
        decreases contents@.len() - i,
    {
        let n = count_exact_content(&contents[i], text);
        assert(contents@.take(i + 1).drop_last() =~= contents@.take(i as int));
        total = add_clipped(
            total,
            n,
            Ghost(contents_exact(contents@.take(i as int), text@)),
            Ghost(content_exact(contents@[i as int], text@)),
        );
        i = i + 1;
    }
    assert(contents@.take(i as int) =~= contents@);
    total
}

fn count_exact_content(content: &Content, text: &String) -> (r: usize)
    ensures
        r == clip(content_exact(*content, text@)),
    decreases content, 0nat,
{
    match content {
        Content::Paragraph(paragraph) => if paragraph.text == *text {
            1
        } else {
            0
        },
        Content::Table(table) => count_exact_rows(&table.content, text),
        _ => 0,
    }
}

fn count_exact_rows(rows: &Vec<TableRow>, text: &String) -> (r: usize)
    ensures
        r == clip(rows_exact(rows@, text@)),
    decreases rows, 1nat,
{
    let mut total: usize = 0;
    let mut i: usize = 0;
    while i < rows.len()
        invariant
            i <= rows@.len(),
            total == clip(rows_exact(rows@.take(i as int), text@)),
        decreases rows@.len() - i,
    {
        let n = count_exact_cells(&rows[i].cells, text);
        assert(rows@.take(i + 1).drop_last() =~= rows@.take(i as int));
        total = add_clipped(
            total,
            n,
            Ghost(rows_exact(rows@.take(i as int), text@)),
            Ghost(cells_exact(rows@[i as int].cells@, text@)),
        );
        i = i + 1;
    }
    assert(rows@.take(i as int) =~= rows@);
    total
}

fn count_exact_cells(cells: &Vec<TableCell>, text: &String) -> (r: usize)
    ensures
        r == clip(cells_exact(cells@, text@)),
    decreases cells, 1nat,
{
    let mut total: usize = 0;
    let mut i: usize = 0;
    while i < cells.len()
        invariant
            i <= cells@.len(),
            total == clip(cells_exact(cells@.take(i as int), text@)),
        decreases cells@.len() - i,
    {
        let n = count_exact_elements(&cells[i].content, text);
        assert(cells@.take(i + 1).drop_last() =~= cells@.take(i as int));
        total = add_clipped(
            total,
            n,
            Ghost(cells_exact(cells@.take(i as int), text@)),
            Ghost(elements_exact(cells@[i as int].content@, text@)),
        );
        i = i + 1;
    }
    assert(cells@.take(i as int) =~= cells@);
    total
}

fn count_exact_elements(elements: &Vec<OutlineElement>, text: &String) -> (r: usize)
    ensures
        r == clip(elements_exact(elements@, text@)),
    decreases elements, 1nat,
{
    let mut total: usize = 0;
    let mut i: usize = 0;
    while i < elements.len()
        invariant
            i <= elements@.len(),
            total == clip(elements_exact(elements@.take(i as int), text@)),
        decreases elements@.len() - i,
    {
        let n = count_exact_element_paragraphs(&elements[i], text);
        assert(elements@.take(i + 1).drop_last() =~= elements@.take(i as int));
        total = add_clipped(
            total,
            n,
            Ghost(elements_exact(elements@.take(i as int), text@)),
            Ghost(element_exact(elements@[i as int], text@)),
        );
        i = i + 1;
    }
    assert(elements@.take(i as int) =~= elements@);
    total
}


// ---------------------------------------------------------------------------
// Errors of native edit planning and application.
// ---------------------------------------------------------------------------

/// Why an edit cannot be written back to the native notebook.
#[derive(Debug)]
pub enum NativeEditError {
    /// The project has `project` sections, the native source `native`.
    SectionCountChanged { project: usize, native: usize },
    /// A section has a different number of pages than its native original.
    PageCountChanged { section: String, project: usize, native: usize },
    /// A page has a different number of objects than its native original.
    ObjectCountChanged { page: String, section: String, project: usize, native: usize },
    /// Something other than titles and complete paragraphs changed.
    UnsupportedEdit,
    /// An edited text is not exactly one native paragraph.
    AmbiguousParagraph,
    /// An original text does not occur exactly once in the notebook.
    TextNotUnique,
    /// A table gained or lost rows or cells.
    TableDimensionsChanged,
    /// The native notebook has no section at a planned index.
    SectionMappingChanged,
    /// The native section has no page at a planned index.
    PageMappingChanged,
    /// The native page title differs from the one the plan expects.
    TitleChanged,
    /// A planned paragraph no longer matches exactly one native paragraph.
    ParagraphMappingChanged,
    /// The new text needs more UTF-16 code units than the original.
    DoesNotFit,
    /// The formatting runs do not spell the paragraph text.
    FormattingMismatch,
    /// The new text is shorter than the runs before the last one.
    CrossesRunBoundary,
    /// A run boundary falls inside a character of the new text.
    SplitsCharacter,
}


impl NativeEditError {
    /// The message shown to the user.
    pub open spec fn text(&self) -> Seq<char> {
        match self {
            NativeEditError::SectionCountChanged { project, native } => "This notebook has "@
                + decimal(*project as nat) + " section(s), but the native source has "@ + decimal(
                *native as nat,
            ) + ". Native writing cannot yet add or delete sections. Save as .onl to preserve these edits."@,
            NativeEditError::PageCountChanged { section, project, native } => "Section “"@
                + section@ + "” has "@ + decimal(*project as nat)
                + " page(s), but the native source has "@ + decimal(*native as nat)
                + ". Native writing cannot yet add or delete pages. Save as .onl to preserve these edits."@,
            NativeEditError::ObjectCountChanged { page, section, project, native } => "Page “"@
                + page@ + "” in section “"@ + section@ + "” has "@ + decimal(
                *project as nat,
            ) + " object(s), but the native source has "@ + decimal(*native as nat)
                + ". Native writing cannot yet add or delete page objects, including new ink, text boxes, and tables. Save as .onl to preserve these edits."@,
            NativeEditError::UnsupportedEdit => "native saving currently supports only page-title and complete-paragraph text changes that fit existing native allocations; save other edits as an .onl working copy"@,
            NativeEditError::AmbiguousParagraph => "the edited text does not map unambiguously to one original OneNote paragraph"@,
            NativeEditError::TextNotUnique => "the original text is not unique enough for a safe in-place native update"@,
            NativeEditError::TableDimensionsChanged => "native saving does not support changing table dimensions"@,
            NativeEditError::SectionMappingChanged => "native section mapping changed"@,
            NativeEditError::PageMappingChanged => "native page mapping changed"@,
            NativeEditError::TitleChanged => "native page title changed since import"@,
            NativeEditError::ParagraphMappingChanged => "native paragraph mapping changed since import"@,
            NativeEditError::DoesNotFit => "native text replacement does not fit the existing property allocation"@,
            NativeEditError::FormattingMismatch => "native paragraph formatting cannot be mapped safely"@,
            NativeEditError::CrossesRunBoundary => "shortening this paragraph would cross a formatting-run boundary"@,
            NativeEditError::SplitsCharacter => "replacement splits a UTF-16 formatting boundary"@,
        }
    }

    /// The message shown to the user.
    pub fn message(&self) -> (r: String)
        ensures
            r@ == self.text(),
    {
        match self {
            NativeEditError::SectionCountChanged { project, native } => {
                let mut out = String::from_str("This notebook has ");
                push_decimal(&mut out, *project as u64);
                out.append(" section(s), but the native source has ");
                push_decimal(&mut out, *native as u64);
                out.append(
                    ". Native writing cannot yet add or delete sections. Save as .onl to preserve these edits.",
                );
                out
            },
            NativeEditError::PageCountChanged { section, project, native } => {
                let mut out = String::from_str("Section “");
                out.append(section.as_str());
                out.append("” has ");
                push_decimal(&mut out, *project as u64);
                out.append(" page(s), but the native source has ");
                push_decimal(&mut out, *native as u64);
                out.append(
                    ". Native writing cannot yet add or delete pages. Save as .onl to preserve these edits.",
                );
                out
            },
            NativeEditError::ObjectCountChanged { page, section, project, native } => {
                let mut out = String::from_str("Page “");
                out.append(page.as_str());
                out.append("” in section “");
                out.append(section.as_str());
                out.append("” has ");
                push_decimal(&mut out, *project as u64);
                out.append(" object(s), but the native source has ");
                push_decimal(&mut out, *native as u64);
                out.append(
                    ". Native writing cannot yet add or delete page objects, including new ink, text boxes, and tables. Save as .onl to preserve these edits.",
                );
                out
            },
            NativeEditError::UnsupportedEdit => String::from_str("native saving currently supports only page-title and complete-paragraph text changes that fit existing native allocations; save other edits as an .onl working copy"),
            NativeEditError::AmbiguousParagraph => String::from_str("the edited text does not map unambiguously to one original OneNote paragraph"),
            NativeEditError::TextNotUnique => String::from_str("the original text is not unique enough for a safe in-place native update"),
            NativeEditError::TableDimensionsChanged => String::from_str("native saving does not support changing table dimensions"),
            NativeEditError::SectionMappingChanged => String::from_str("native section mapping changed"),
            NativeEditError::PageMappingChanged => String::from_str("native page mapping changed"),
            NativeEditError::TitleChanged => String::from_str("native page title changed since import"),
            NativeEditError::ParagraphMappingChanged => String::from_str("native paragraph mapping changed since import"),
            NativeEditError::DoesNotFit => String::from_str("native text replacement does not fit the existing property allocation"),
            NativeEditError::FormattingMismatch => String::from_str("native paragraph formatting cannot be mapped safely"),
            NativeEditError::CrossesRunBoundary => String::from_str("shortening this paragraph would cross a formatting-run boundary"),
            NativeEditError::SplitsCharacter => String::from_str("replacement splits a UTF-16 formatting boundary"),
        }
    }
}

// ---------------------------------------------------------------------------
// Replacing the text of one paragraph while keeping its formatting runs.
// ---------------------------------------------------------------------------

/// The text spelled by a sequence of runs.
pub open spec fn runs_text(runs: Seq<TextRun>) -> Seq<char>
    decreases runs.len(),
{
    if runs.len() == 0 {
        Seq::<char>::empty()
    } else {
        runs_text(runs.drop_last()) + runs.last().text@
    }
}

/// UTF-16 code units taken by the first `i` runs.
pub open spec fn units_before(runs: Seq<TextRun>, i: int) -> nat {
    utf16_len(runs_text(runs.take(i)))
}

/// UTF-16 code units taken by all runs but the last: the part of a paragraph
/// whose formatting boundaries stay where they are.
pub open spec fn fixed_run_units(runs: Seq<TextRun>) -> nat {
    if runs.len() == 0 {
        0
    } else {
        units_before(runs, runs.len() - 1)
    }
}

/// Code unit offset where run `i` ends once the text is replaced by `new`: the
/// last run takes whatever remains.
pub open spec fn run_end(runs: Seq<TextRun>, new: Seq<char>, i: int) -> int {
    if i == runs.len() - 1 {
        utf16_len(new) as int
    } else {
        units_before(runs, i + 1) as int
    }
}

/// Why replacing the text of `p` by `new` is refused, if it is.
pub open spec fn replacement_error(p: Paragraph, new: Seq<char>) -> Option<NativeEditError> {
    let runs = p.runs@;
    if utf16_len(new) > utf16_len(p.text@) || utf16_len(new) >= usize::MAX {
        Some(NativeEditError::DoesNotFit)
    } else if runs.len() > 0 && runs_text(runs) != p.text@ {
        Some(NativeEditError::FormattingMismatch)
    } else if utf16_len(new) < fixed_run_units(runs) {
        Some(NativeEditError::CrossesRunBoundary)
    } else if exists|i: int|
        1 <= i < runs.len() && !is_utf16_boundary(new, #[trigger] units_before(runs, i) as int) {
        Some(NativeEditError::SplitsCharacter)
    } else {
        None
    }
}

/// The replaced paragraph `after` keeps the formatting of `before`: each run
/// keeps its style and its share of UTF-16 code units, the last run absorbs
/// the change in length, and the paragraph text is `new`.
pub open spec fn replaced_paragraph(before: Paragraph, after: Paragraph, new: Seq<char>) -> bool {
    let runs = before.runs@;
    &&& after.text@ == new
    &&& after.runs@.len() == runs.len()
    &&& forall|i: int|
        0 <= i < runs.len() ==> {
            &&& (#[trigger] after.runs@[i]).hidden == runs[i].hidden
            &&& after.runs@[i].text@ == new.subrange(
                utf16_char_index(new, units_before(runs, i) as int),
                utf16_char_index(new, run_end(runs, new, i)),
            )
        }
}

proof fn lemma_units_before_step(runs: Seq<TextRun>, i: int)
    requires
        0 <= i < runs.len(),
    ensures
        units_before(runs, i + 1) == units_before(runs, i) + utf16_len(runs[i].text@),
{
    assert(runs.take(i + 1).drop_last() =~= runs.take(i));
    lemma_utf16_concat(runs_text(runs.take(i)), runs[i].text@);
}

proof fn lemma_units_before_mono(runs: Seq<TextRun>, i: int, j: int)
    requires
        0 <= i <= j <= runs.len(),
    ensures
        units_before(runs, i) <= units_before(runs, j),
    decreases j - i,
{
    if i < j {
        lemma_units_before_step(runs, j - 1);
        lemma_units_before_mono(runs, i, j - 1);
    }
}

/// The characters of the runs' text, in order.
fn runs_chars(runs: &Vec<TextRun>) -> (r: Vec<char>)
    ensures
        r@ == runs_text(runs@),
{
    let mut r: Vec<char> = Vec::new();
    let mut i: usize = 0;
    while i < runs.len()
        invariant
            i <= runs@.len(),
            r@ == runs_text(runs@.take(i as int)),
        decreases runs@.len() - i,
    {
        let piece = chars_of(runs[i].text.as_str());
        let ghost before = r@;
        let mut k: usize = 0;
        while k < piece.len()
            invariant
                k <= piece@.len(),
                r@ == before + piece@.take(k as int),
            decreases piece@.len() - k,
        {
            r.push(piece[k]);
            k = k + 1;
            assert(piece@.take(k as int) =~= piece@.take(k - 1).push(piece@[k - 1]));
        }
        assert(piece@.take(k as int) =~= piece@);
        assert(runs@.take(i + 1).drop_last() =~= runs@.take(i as int));
        i = i + 1;
    }
    assert(runs@.take(i as int) =~= runs@);
    r
}

/// `k` is the first run boundary (counted from the start of run `k`) that
/// falls inside a character of `new`.
pub open spec fn first_split(runs: Seq<TextRun>, new: Seq<char>, k: int) -> bool {
    &&& 1 <= k < runs.len()
    &&& !is_utf16_boundary(new, units_before(runs, k) as int)
    &&& forall|j: int| 1 <= j < k ==> is_utf16_boundary(new, #[trigger] units_before(runs, j) as int)
}

/// `after` is `before` with its first `done` runs already cut from `new` as a
/// successful replacement cuts them, and the rest of the paragraph, its text
/// included, as it was.
pub open spec fn partly_replaced(before: Paragraph, after: Paragraph, new: Seq<char>, done: int) -> bool {
    let runs = before.runs@;
    &&& after.text@ == before.text@
    &&& after.runs@.len() == runs.len()
    &&& forall|i: int|
        0 <= i < done ==> {
            &&& (#[trigger] after.runs@[i]).hidden == runs[i].hidden
            &&& after.runs@[i].text@ == new.subrange(
                utf16_char_index(new, units_before(runs, i) as int),
                utf16_char_index(new, run_end(runs, new, i)),
            )
        }
    &&& forall|i: int| done <= i < runs.len() ==> #[trigger] after.runs@[i] == runs[i]
}

/// Replaces the text of a native paragraph by `new`, keeping its formatting
/// runs: every run but the last keeps its length in UTF-16 code units, and
/// the last run takes the rest.
pub fn replace_paragraph_text(paragraph: &mut Paragraph, new: &String) -> (r: Result<
    (),
    NativeEditError,
>)
    ensures
        match replacement_error(*old(paragraph), new@) {
            Some(NativeEditError::SplitsCharacter) => r == Err::<(), NativeEditError>(
                NativeEditError::SplitsCharacter,
            ) && exists|k: int|
                first_split(old(paragraph).runs@, new@, k) && partly_replaced(
                    *old(paragraph),
                    *final(paragraph),
                    new@,
                    k - 1,
                ),
            Some(e) => r == Err::<(), NativeEditError>(e) && *final(paragraph) == *old(paragraph),
            None => r is Ok && replaced_paragraph(*old(paragraph), *final(paragraph), new@),
        },
{
    let ghost runs = paragraph.runs@;
    let new_chars = chars_of(new.as_str());
    let old_chars = chars_of(paragraph.text.as_str());
    let new_units = utf16_len_of(&new_chars);
    let old_units = utf16_len_of(&old_chars);
    if new_units == usize::MAX || new_units > old_units {
        return Err(NativeEditError::DoesNotFit);
    }
    let run_count = paragraph.runs.len();
    if run_count > 0 {
        let joined = runs_chars(&paragraph.runs);
        if !chars_equal(&joined, &old_chars) {
            return Err(NativeEditError::FormattingMismatch);
        }
    }
    // Code units of all runs but the last.
    let mut fixed: usize = 0;
    let mut j: usize = 0;
    while run_count > 0 && j < run_count - 1
        invariant
            run_count > 0 ==> j <= run_count - 1,
            run_count == 0 ==> j == 0,
            run_count == runs.len(),
            runs == paragraph.runs@,
            fixed == clip(units_before(runs, j as int)),
        decreases run_count - j,
    {
        let piece = chars_of(paragraph.runs[j].text.as_str());
        let w = utf16_len_of(&piece);
        proof {
            lemma_units_before_step(runs, j as int);
        }
        fixed = add_clipped(
            fixed,
            w,
            Ghost(units_before(runs, j as int)),
            Ghost(utf16_len(runs[j as int].text@)),
        );
        j = j + 1;
    }
    assert(fixed == clip(fixed_run_units(runs))) by {
        if run_count == 0 {
            assert(runs.take(0) =~= Seq::<TextRun>::empty());
        }
    }
    if new_units < fixed {
        return Err(NativeEditError::CrossesRunBoundary);
    }
    proof {
        if run_count > 0 {
            lemma_units_before_mono(runs, 0, run_count - 1);
        }
    }
    // Cut the new text at the old run boundaries, rewriting the runs in turn.
    let mut ci: usize = 0;
    let mut ui: usize = 0;
    let mut i: usize = 0;
    assert(runs.take(0) =~= Seq::<TextRun>::empty());
    assert(new_chars@.take(0) =~= Seq::<char>::empty());
    while i < run_count
        invariant
            run_count == runs.len(),
            runs == old(paragraph).runs@,
            paragraph.text == old(paragraph).text,
            paragraph.runs@.len() == run_count,
            forall|k: int| i <= k < run_count ==> #[trigger] paragraph.runs@[k] == runs[k],
            new_chars@ == new@,
            new_units == utf16_len(new@),
            new_units < usize::MAX,
            run_count > 0 ==> units_before(runs, run_count - 1) <= new_units,
            utf16_len(new@) <= utf16_len(paragraph.text@),
            run_count > 0 ==> runs_text(runs) == paragraph.text@,
            utf16_len(new@) >= fixed_run_units(runs),
            i <= run_count,
            ci <= new_chars@.len(),
            i < run_count ==> ui == units_before(runs, i as int),
            ui == utf16_len(new@.take(ci as int)),
            forall|k: int|
                1 <= k <= i && k < run_count ==> is_utf16_boundary(
                    new@,
                    #[trigger] units_before(runs, k) as int,
                ),
            forall|k: int|
                0 <= k < i ==> {
                    &&& (#[trigger] paragraph.runs@[k]).hidden == runs[k].hidden
                    &&& paragraph.runs@[k].text@ == new@.subrange(
                        utf16_char_index(new@, units_before(runs, k) as int),
                        utf16_char_index(new@, run_end(runs, new@, k)),
                    )
                },
        decreases run_count - i,
    {
        let start_ci = ci;
        let target: usize;
        if i + 1 == run_count {
            target = new_units;
        } else {
            let piece = chars_of(paragraph.runs[i].text.as_str());
            let w = utf16_len_of(&piece);
            proof {
                lemma_units_before_step(runs, i as int);
                lemma_units_before_mono(runs, i + 1, run_count - 1);
            }
            target = ui + w;
        }
        assert(target == run_end(runs, new@, i as int));
        assert(ui <= target) by {
            if i + 1 < run_count {
                lemma_units_before_step(runs, i as int);
            } else {
                lemma_units_before_mono(runs, i as int, run_count - 1);
            }
        }
        let char_count = new_chars.len();
        while ui < target
            invariant
                char_count == new_chars@.len(),
                start_ci <= ci <= new_chars@.len(),
                new_chars@ == new@,
                new_units == utf16_len(new@),
                new_units < usize::MAX,
                target <= new_units,
                ui == utf16_len(new@.take(ci as int)),
                ci > start_ci ==> utf16_len(new@.take(ci - 1)) < target,
            decreases new_chars@.len() - ci,
        {
            assert(ci < char_count) by {
                if ci == new_chars@.len() {
                    assert(new@.take(ci as int) =~= new@);
                }
            }
            let w = utf16_width_of(new_chars[ci]);
            assert(new@.take(ci + 1).drop_last() =~= new@.take(ci as int));
            ui = ui + w;
            ci = ci + 1;
        }
        if ui != target {
            proof {
                if i + 1 == run_count {
                    lemma_utf16_prefix_mono(new@, ci as int, new@.len() as int);
                    assert(new@.take(new@.len() as int) =~= new@);
                }
                assert(!is_utf16_boundary(new@, target as int)) by {
                    assert forall|m: int| 0 <= m <= new@.len() implies utf16_len(new@.take(m))
                        != target by {
                        if m < ci {
                            lemma_utf16_prefix_mono(new@, m, ci - 1);
                        } else {
                            lemma_utf16_prefix_mono(new@, ci as int, m);
                        }
                    }
                }
                assert(1 <= i + 1 < runs.len());
                assert(target == units_before(runs, i + 1));
                assert(first_split(runs, new@, i + 1));
                assert(partly_replaced(*old(paragraph), *paragraph, new@, i as int));
            }
            return Err(NativeEditError::SplitsCharacter);
        }
        proof {
            lemma_utf16_char_index(new@, start_ci as int);
            lemma_utf16_char_index(new@, ci as int);
        }
        let text = string_of_range(&new_chars, start_ci, ci);
        let hidden = paragraph.runs[i].hidden;
        paragraph.runs.set(i, TextRun { text, hidden });
        i = i + 1;
    }
    proof {
        assert(!(exists|k: int|
            1 <= k < runs.len() && !is_utf16_boundary(new@, #[trigger] units_before(runs, k) as int)));
    }
    paragraph.text = new.clone();
    Ok(())
}


// ---------------------------------------------------------------------------
// Replacing every paragraph whose text is exactly `old` by `new`.
// ---------------------------------------------------------------------------

/// A result with no value: `Ok` when there is no error.
pub open spec fn result_of(e: Option<NativeEditError>) -> Result<(), NativeEditError> {
    match e {
        Some(x) => Err(x),
        None => Ok(()),
    }
}

/// The first error among two, in order.
pub open spec fn first_of(a: Option<NativeEditError>, b: Option<NativeEditError>) -> Option<
    NativeEditError,
> {
    match a {
        Some(x) => Some(x),
        None => b,
    }
}

/// Paragraphs with text exactly `t` on one page.
pub open spec fn page_exact(p: Page, t: Seq<char>) -> nat {
    blocks_exact(p.blocks@, t)
}

/// Paragraphs with text exactly `t` in one table row.
pub open spec fn row_exact(r: TableRow, t: Seq<char>) -> nat {
    cells_exact(r.cells@, t)
}

/// Paragraphs with text exactly `t` in one table cell.
pub open spec fn cell_exact(c: TableCell, t: Seq<char>) -> nat {
    elements_exact(c.content@, t)
}

/// `after` is `before` with its text replaced, if `before` reads exactly `old`.
pub open spec fn paragraph_replaced(before: Paragraph, after: Paragraph, old_t: Seq<char>, new_t: Seq<char>) -> bool {
    if before.text@ == old_t {
        replaced_paragraph(before, after, new_t)
    } else {
        after == before
    }
}

/// Why replacing `old` by `new` fails on one paragraph, if it does.
pub open spec fn paragraph_error(p: Paragraph, old_t: Seq<char>, new_t: Seq<char>) -> Option<NativeEditError> {
    if p.text@ == old_t {
        replacement_error(p, new_t)
    } else {
        None
    }
}

/// Relation of a replaced entry to the original.
pub open spec fn entry_replaced(b: NotebookEntry, a: NotebookEntry, old_t: Seq<char>, new_t: Seq<char>) -> bool
    decreases b, 0nat,
{
    match b {
        NotebookEntry::Section(sb) => match a {
            NotebookEntry::Section(sa) => sa.name == sb.name && pages_replaced(sb.pages@, sa.pages@, old_t, new_t),
            _ => false,
        },
        NotebookEntry::SectionGroup(nb, eb) => match a {
            NotebookEntry::SectionGroup(na, ea) => na == nb && entries_replaced(eb@, ea@, old_t, new_t),
            _ => false,
        },
    }
}

/// First replacement error in an entry.
pub open spec fn entry_error(b: NotebookEntry, old_t: Seq<char>, new_t: Seq<char>) -> Option<NativeEditError>
    decreases b, 0nat,
{
    match b {
        NotebookEntry::Section(sb) => pages_error(sb.pages@, old_t, new_t),
        NotebookEntry::SectionGroup(_, eb) => entries_error(eb@, old_t, new_t),
    }
}

/// Relation of a replaced page to the original.
pub open spec fn page_replaced(b: Page, a: Page, old_t: Seq<char>, new_t: Seq<char>) -> bool
    decreases b, 0nat,
{
    a.title == b.title && blocks_replaced(b.blocks@, a.blocks@, old_t, new_t)
}

/// First replacement error on a page.
pub open spec fn page_error(b: Page, old_t: Seq<char>, new_t: Seq<char>) -> Option<NativeEditError>
    decreases b, 0nat,
{
    blocks_error(b.blocks@, old_t, new_t)
}

/// Relation of a replaced page block to the original.
pub open spec fn block_replaced(b: PageBlock, a: PageBlock, old_t: Seq<char>, new_t: Seq<char>) -> bool
    decreases b, 0nat,
{
    match b {
        PageBlock::Outline(ib) => match a {
            PageBlock::Outline(ia) => items_replaced(ib@, ia@, old_t, new_t),
            _ => false,
        },
        _ => a == b,
    }
}

/// First replacement error in a page block.
pub open spec fn block_error(b: PageBlock, old_t: Seq<char>, new_t: Seq<char>) -> Option<NativeEditError>
    decreases b, 0nat,
{
    match b {
        PageBlock::Outline(ib) => items_error(ib@, old_t, new_t),
        _ => None,
    }
}

/// Relation of a replaced outline item to the original.
pub open spec fn item_replaced(b: OutlineItem, a: OutlineItem, old_t: Seq<char>, new_t: Seq<char>) -> bool
    decreases b, 0nat,
{
    match b {
        OutlineItem::Element(eb) => match a {
            OutlineItem::Element(ea) => element_replaced(eb, ea, old_t, new_t),
            _ => false,
        },
        OutlineItem::Group(ib) => match a {
            OutlineItem::Group(ia) => items_replaced(ib@, ia@, old_t, new_t),
            _ => false,
        },
    }
}

/// First replacement error in an outline item.
pub open spec fn item_error(b: OutlineItem, old_t: Seq<char>, new_t: Seq<char>) -> Option<NativeEditError>
    decreases b, 0nat,
{
    match b {
        OutlineItem::Element(eb) => element_error(eb, old_t, new_t),
        OutlineItem::Group(ib) => items_error(ib@, old_t, new_t),
    }
}

/// Relation of a replaced outline element to the original.
pub open spec fn element_replaced(b: OutlineElement, a: OutlineElement, old_t: Seq<char>, new_t: Seq<char>) -> bool
    decreases b, 0nat,
{
    a.level == b.level && contents_replaced(b.content@, a.content@, old_t, new_t) && items_replaced(
        b.children@,
        a.children@,
        old_t,
        new_t,
    )
}

/// First replacement error in an outline element: its contents, then its children.
pub open spec fn element_error(b: OutlineElement, old_t: Seq<char>, new_t: Seq<char>) -> Option<NativeEditError>
    decreases b, 0nat,
{
    first_of(contents_error(b.content@, old_t, new_t), items_error(b.children@, old_t, new_t))
}

/// Relation of a replaced content to the original.
pub open spec fn content_replaced(b: Content, a: Content, old_t: Seq<char>, new_t: Seq<char>) -> bool
    decreases b, 0nat,
{
    match b {
        Content::Paragraph(pb) => match a {
            Content::Paragraph(pa) => paragraph_replaced(pb, pa, old_t, new_t),
            _ => false,
        },
        Content::Table(tb) => match a {
            Content::Table(ta) => rows_replaced(tb.content@, ta.content@, old_t, new_t),
            _ => false,
        },
        _ => a == b,
    }
}

/// First replacement error in one content.
pub open spec fn content_error(b: Content, old_t: Seq<char>, new_t: Seq<char>) -> Option<NativeEditError>
    decreases b, 0nat,
{
    match b {
        Content::Paragraph(pb) => paragraph_error(pb, old_t, new_t),
        Content::Table(tb) => rows_error(tb.content@, old_t, new_t),
        _ => None,
    }
}

/// Relation of a replaced table row to the original.
pub open spec fn row_replaced(b: TableRow, a: TableRow, old_t: Seq<char>, new_t: Seq<char>) -> bool
    decreases b, 0nat,
{
    cells_replaced(b.cells@, a.cells@, old_t, new_t)
}

/// First replacement error in a table row.
pub open spec fn row_error(b: TableRow, old_t: Seq<char>, new_t: Seq<char>) -> Option<NativeEditError>
    decreases b, 0nat,
{
    cells_error(b.cells@, old_t, new_t)
}

/// Relation of a replaced table cell to the original.
pub open spec fn cell_replaced(b: TableCell, a: TableCell, old_t: Seq<char>, new_t: Seq<char>) -> bool
    decreases b, 0nat,
{
    elements_replaced(b.content@, a.content@, old_t, new_t)
}

/// First replacement error in a table cell.
pub open spec fn cell_error(b: TableCell, old_t: Seq<char>, new_t: Seq<char>) -> Option<NativeEditError>
    decreases b, 0nat,
{
    elements_error(b.content@, old_t, new_t)
}

/// Relation of a replaced notebook to the original.
pub open spec fn notebook_replaced(b: Notebook, a: Notebook, old_t: Seq<char>, new_t: Seq<char>) -> bool {
    a.name == b.name && entries_replaced(b.entries@, a.entries@, old_t, new_t)
}

/// First replacement error in the notebook.
pub open spec fn notebook_error(b: Notebook, old_t: Seq<char>, new_t: Seq<char>) -> Option<NativeEditError> {
    entries_error(b.entries@, old_t, new_t)
}

/// Relation of replaced entries to the originals, pairwise.
pub open spec fn entries_replaced(bs: Seq<NotebookEntry>, as_: Seq<NotebookEntry>, old_t: Seq<char>, new_t: Seq<char>) -> bool
    decreases bs, 1nat,
{
    bs.len() == as_.len() && (bs.len() == 0 || (entries_replaced(
        bs.drop_last(),
        as_.drop_last(),
        old_t,
        new_t,
    ) && entry_replaced(bs.last(), as_.last(), old_t, new_t)))
}

/// First replacement error among entries, in order.
pub open spec fn entries_error(bs: Seq<NotebookEntry>, old_t: Seq<char>, new_t: Seq<char>) -> Option<NativeEditError>
    decreases bs, 1nat,
{
    if bs.len() == 0 {
        None
    } else {
        first_of(entries_error(bs.drop_last(), old_t, new_t), entry_error(bs.last(), old_t, new_t))
    }
}

proof fn lemma_entries_error_prefix(s: Seq<NotebookEntry>, k: int, old_t: Seq<char>, new_t: Seq<char>)
    requires
        0 <= k <= s.len(),
        entries_error(s.take(k), old_t, new_t) is Some,
    ensures
        entries_error(s, old_t, new_t) == entries_error(s.take(k), old_t, new_t),
    decreases s.len() - k,
{
    if k < s.len() {
        assert(s.take(k + 1).drop_last() =~= s.take(k));
        lemma_entries_error_prefix(s, k + 1, old_t, new_t);
    } else {
        assert(s.take(k) =~= s);
    }
}

/// Relation of replaced pages to the originals, pairwise.
pub open spec fn pages_replaced(bs: Seq<Page>, as_: Seq<Page>, old_t: Seq<char>, new_t: Seq<char>) -> bool
    decreases bs, 1nat,
{
    bs.len() == as_.len() && (bs.len() == 0 || (pages_replaced(
        bs.drop_last(),
        as_.drop_last(),
        old_t,
        new_t,
    ) && page_replaced(bs.last(), as_.last(), old_t, new_t)))
}

/// First replacement error among pages, in order.
pub open spec fn pages_error(bs: Seq<Page>, old_t: Seq<char>, new_t: Seq<char>) -> Option<NativeEditError>
    decreases bs, 1nat,
{
    if bs.len() == 0 {
        None
    } else {
        first_of(pages_error(bs.drop_last(), old_t, new_t), page_error(bs.last(), old_t, new_t))
    }
}

proof fn lemma_pages_error_prefix(s: Seq<Page>, k: int, old_t: Seq<char>, new_t: Seq<char>)
    requires
        0 <= k <= s.len(),
        pages_error(s.take(k), old_t, new_t) is Some,
    ensures
        pages_error(s, old_t, new_t) == pages_error(s.take(k), old_t, new_t),
    decreases s.len() - k,
{
    if k < s.len() {
        assert(s.take(k + 1).drop_last() =~= s.take(k));
        lemma_pages_error_prefix(s, k + 1, old_t, new_t);
    } else {
        assert(s.take(k) =~= s);
    }
}

/// Relation of replaced blocks to the originals, pairwise.
pub open spec fn blocks_replaced(bs: Seq<PageBlock>, as_: Seq<PageBlock>, old_t: Seq<char>, new_t: Seq<char>) -> bool
    decreases bs, 1nat,
{
    bs.len() == as_.len() && (bs.len() == 0 || (blocks_replaced(
        bs.drop_last(),
        as_.drop_last(),
        old_t,
        new_t,
    ) && block_replaced(bs.last(), as_.last(), old_t, new_t)))
}

/// First replacement error among blocks, in order.
pub open spec fn blocks_error(bs: Seq<PageBlock>, old_t: Seq<char>, new_t: Seq<char>) -> Option<NativeEditError>
    decreases bs, 1nat,
{
    if bs.len() == 0 {
        None
    } else {
        first_of(blocks_error(bs.drop_last(), old_t, new_t), block_error(bs.last(), old_t, new_t))
    }
}

proof fn lemma_blocks_error_prefix(s: Seq<PageBlock>, k: int, old_t: Seq<char>, new_t: Seq<char>)
    requires
        0 <= k <= s.len(),
        blocks_error(s.take(k), old_t, new_t) is Some,
    ensures
        blocks_error(s, old_t, new_t) == blocks_error(s.take(k), old_t, new_t),
    decreases s.len() - k,
{
    if k < s.len() {
        assert(s.take(k + 1).drop_last() =~= s.take(k));
        lemma_blocks_error_prefix(s, k + 1, old_t, new_t);
    } else {
        assert(s.take(k) =~= s);
    }
}

/// Relation of replaced items to the originals, pairwise.
pub open spec fn items_replaced(bs: Seq<OutlineItem>, as_: Seq<OutlineItem>, old_t: Seq<char>, new_t: Seq<char>) -> bool
    decreases bs, 1nat,
{
    bs.len() == as_.len() && (bs.len() == 0 || (items_replaced(
        bs.drop_last(),
        as_.drop_last(),
        old_t,
        new_t,
    ) && item_replaced(bs.last(), as_.last(), old_t, new_t)))
}

/// First replacement error among items, in order.
pub open spec fn items_error(bs: Seq<OutlineItem>, old_t: Seq<char>, new_t: Seq<char>) -> Option<NativeEditError>
    decreases bs, 1nat,
{
    if bs.len() == 0 {
        None
    } else {
        first_of(items_error(bs.drop_last(), old_t, new_t), item_error(bs.last(), old_t, new_t))
    }
}

proof fn lemma_items_error_prefix(s: Seq<OutlineItem>, k: int, old_t: Seq<char>, new_t: Seq<char>)
    requires
        0 <= k <= s.len(),
        items_error(s.take(k), old_t, new_t) is Some,
    ensures
        items_error(s, old_t, new_t) == items_error(s.take(k), old_t, new_t),
    decreases s.len() - k,
{
    if k < s.len() {
        assert(s.take(k + 1).drop_last() =~= s.take(k));
        lemma_items_error_prefix(s, k + 1, old_t, new_t);
    } else {
        assert(s.take(k) =~= s);
    }
}

/// Relation of replaced contents to the originals, pairwise.
pub open spec fn contents_replaced(bs: Seq<Content>, as_: Seq<Content>, old_t: Seq<char>, new_t: Seq<char>) -> bool
    decreases bs, 1nat,
{
    bs.len() == as_.len() && (bs.len() == 0 || (contents_replaced(
        bs.drop_last(),
        as_.drop_last(),
        old_t,
        new_t,
    ) && content_replaced(bs.last(), as_.last(), old_t, new_t)))
}

/// First replacement error among contents, in order.
pub open spec fn contents_error(bs: Seq<Content>, old_t: Seq<char>, new_t: Seq<char>) -> Option<NativeEditError>
    decreases bs, 1nat,
{
    if bs.len() == 0 {
        None
    } else {
        first_of(contents_error(bs.drop_last(), old_t, new_t), content_error(bs.last(), old_t, new_t))
    }
}

proof fn lemma_contents_error_prefix(s: Seq<Content>, k: int, old_t: Seq<char>, new_t: Seq<char>)
    requires
        0 <= k <= s.len(),
        contents_error(s.take(k), old_t, new_t) is Some,
    ensures
        contents_error(s, old_t, new_t) == contents_error(s.take(k), old_t, new_t),
    decreases s.len() - k,
{
    if k < s.len() {
        assert(s.take(k + 1).drop_last() =~= s.take(k));
        lemma_contents_error_prefix(s, k + 1, old_t, new_t);
    } else {
        assert(s.take(k) =~= s);
    }
}

/// Relation of replaced rows to the originals, pairwise.
pub open spec fn rows_replaced(bs: Seq<TableRow>, as_: Seq<TableRow>, old_t: Seq<char>, new_t: Seq<char>) -> bool
    decreases bs, 1nat,
{
    bs.len() == as_.len() && (bs.len() == 0 || (rows_replaced(
        bs.drop_last(),
        as_.drop_last(),
        old_t,
        new_t,
    ) && row_replaced(bs.last(), as_.last(), old_t, new_t)))
}

/// First replacement error among rows, in order.
pub open spec fn rows_error(bs: Seq<TableRow>, old_t: Seq<char>, new_t: Seq<char>) -> Option<NativeEditError>
    decreases bs, 1nat,
{
    if bs.len() == 0 {
        None
    } else {
        first_of(rows_error(bs.drop_last(), old_t, new_t), row_error(bs.last(), old_t, new_t))
    }
}

proof fn lemma_rows_error_prefix(s: Seq<TableRow>, k: int, old_t: Seq<char>, new_t: Seq<char>)
    requires
        0 <= k <= s.len(),
        rows_error(s.take(k), old_t, new_t) is Some,
    ensures
        rows_error(s, old_t, new_t) == rows_error(s.take(k), old_t, new_t),
    decreases s.len() - k,
{
    if k < s.len() {
        assert(s.take(k + 1).drop_last() =~= s.take(k));
        lemma_rows_error_prefix(s, k + 1, old_t, new_t);
    } else {
        assert(s.take(k) =~= s);
    }
}

/// Relation of replaced cells to the originals, pairwise.
pub open spec fn cells_replaced(bs: Seq<TableCell>, as_: Seq<TableCell>, old_t: Seq<char>, new_t: Seq<char>) -> bool
    decreases bs, 1nat,
{
    bs.len() == as_.len() && (bs.len() == 0 || (cells_replaced(
        bs.drop_last(),
        as_.drop_last(),
        old_t,
        new_t,
    ) && cell_replaced(bs.last(), as_.last(), old_t, new_t)))
}

/// First replacement error among cells, in order.
pub open spec fn cells_error(bs: Seq<TableCell>, old_t: Seq<char>, new_t: Seq<char>) -> Option<NativeEditError>
    decreases bs, 1nat,
{
    if bs.len() == 0 {
        None
    } else {
        first_of(cells_error(bs.drop_last(), old_t, new_t), cell_error(bs.last(), old_t, new_t))
    }
}

proof fn lemma_cells_error_prefix(s: Seq<TableCell>, k: int, old_t: Seq<char>, new_t: Seq<char>)
    requires
        0 <= k <= s.len(),
        cells_error(s.take(k), old_t, new_t) is Some,
    ensures
        cells_error(s, old_t, new_t) == cells_error(s.take(k), old_t, new_t),
    decreases s.len() - k,
{
    if k < s.len() {
        assert(s.take(k + 1).drop_last() =~= s.take(k));
        lemma_cells_error_prefix(s, k + 1, old_t, new_t);
    } else {
        assert(s.take(k) =~= s);
    }
}

/// Relation of replaced elements to the originals, pairwise.
pub open spec fn elements_replaced(bs: Seq<OutlineElement>, as_: Seq<OutlineElement>, old_t: Seq<char>, new_t: Seq<char>) -> bool
    decreases bs, 1nat,
{
    bs.len() == as_.len() && (bs.len() == 0 || (elements_replaced(
        bs.drop_last(),
        as_.drop_last(),
        old_t,
        new_t,
    ) && element_replaced(bs.last(), as_.last(), old_t, new_t)))
}

/// First replacement error among elements, in order.
pub open spec fn elements_error(bs: Seq<OutlineElement>, old_t: Seq<char>, new_t: Seq<char>) -> Option<NativeEditError>
    decreases bs, 1nat,
{
    if bs.len() == 0 {
        None
    } else {
        first_of(elements_error(bs.drop_last(), old_t, new_t), element_error(bs.last(), old_t, new_t))
    }
}

proof fn lemma_elements_error_prefix(s: Seq<OutlineElement>, k: int, old_t: Seq<char>, new_t: Seq<char>)
    requires
        0 <= k <= s.len(),
        elements_error(s.take(k), old_t, new_t) is Some,
    ensures
        elements_error(s, old_t, new_t) == elements_error(s.take(k), old_t, new_t),
    decreases s.len() - k,
{
    if k < s.len() {
        assert(s.take(k + 1).drop_last() =~= s.take(k));
        lemma_elements_error_prefix(s, k + 1, old_t, new_t);
    } else {
        assert(s.take(k) =~= s);
    }
}

fn replace_entries_paragraphs(
    xs: &mut Vec<NotebookEntry>,
    old_text: &String,
    new_text: &String,
    replacements: &mut usize,
) -> (r: Result<(), NativeEditError>)
    ensures
        r == result_of(entries_error(old(xs)@, old_text@, new_text@)),
        r is Ok ==> entries_replaced(old(xs)@, final(xs)@, old_text@, new_text@) && *final(replacements) == clip(
            (*old(replacements) + entries_exact(old(xs)@, old_text@)) as nat,
        ),
    decreases *old(xs), 1nat,
{
    let ghost before = xs@;
    let ghost start = *replacements;
    let mut i: usize = 0;
    assert(before.take(0) =~= Seq::<NotebookEntry>::empty());
    assert(xs@.take(0) =~= Seq::<NotebookEntry>::empty());
    while i < xs.len()
        invariant
            i <= xs@.len(),
            xs@.len() == before.len(),
            before == old(xs)@,
            start == *old(replacements),
            forall|j: int| i <= j < xs@.len() ==> xs@[j] == before[j],
            entries_error(before.take(i as int), old_text@, new_text@) is None,
            entries_replaced(before.take(i as int), xs@.take(i as int), old_text@, new_text@),
            *replacements == clip((start + entries_exact(before.take(i as int), old_text@)) as nat),
        decreases before.len() - i,
    {
        let ghost prev = *replacements;
        let ghost prev_xs = xs@;
        assert(before.take(i + 1).drop_last() =~= before.take(i as int));
        assert(decreases_to!(before => before[i as int]));
        let res = replace_entry_paragraphs(&mut xs[i], old_text, new_text, replacements);
        match res {
            Err(e) => {
                proof {
                    lemma_entries_error_prefix(before, i + 1, old_text@, new_text@);
                }
                return Err(e);
            },
            Ok(()) => {},
        }
        proof {
            lemma_clip_add((start + entries_exact(before.take(i as int), old_text@)) as nat, entry_exact(before[i as int], old_text@));
            assert(xs@.take(i + 1).drop_last() =~= xs@.take(i as int));
            assert(xs@.take(i as int) =~= prev_xs.take(i as int));
        }
        i = i + 1;
    }
    assert(before.take(i as int) =~= before);
    assert(xs@.take(i as int) =~= xs@);
    Ok(())
}

fn replace_pages_paragraphs(
    xs: &mut Vec<Page>,
    old_text: &String,
    new_text: &String,
    replacements: &mut usize,
) -> (r: Result<(), NativeEditError>)
    ensures
        r == result_of(pages_error(old(xs)@, old_text@, new_text@)),
        r is Ok ==> pages_replaced(old(xs)@, final(xs)@, old_text@, new_text@) && *final(replacements) == clip(
            (*old(replacements) + pages_exact(old(xs)@, old_text@)) as nat,
        ),
    decreases *old(xs), 1nat,
{
    let ghost before = xs@;
    let ghost start = *replacements;
    let mut i: usize = 0;
    assert(before.take(0) =~= Seq::<Page>::empty());
    assert(xs@.take(0) =~= Seq::<Page>::empty());
    while i < xs.len()
        invariant
            i <= xs@.len(),
            xs@.len() == before.len(),
            before == old(xs)@,
            start == *old(replacements),
            forall|j: int| i <= j < xs@.len() ==> xs@[j] == before[j],
            pages_error(before.take(i as int), old_text@, new_text@) is None,
            pages_replaced(before.take(i as int), xs@.take(i as int), old_text@, new_text@),
            *replacements == clip((start + pages_exact(before.take(i as int), old_text@)) as nat),
        decreases before.len() - i,
    {
        let ghost prev = *replacements;
        let ghost prev_xs = xs@;
        assert(before.take(i + 1).drop_last() =~= before.take(i as int));
        assert(decreases_to!(before => before[i as int]));
        let res = replace_page_paragraphs(&mut xs[i], old_text, new_text, replacements);
        match res {
            Err(e) => {
                proof {
                    lemma_pages_error_prefix(before, i + 1, old_text@, new_text@);
                }
                return Err(e);
            },
            Ok(()) => {},
        }
        proof {
            lemma_clip_add((start + pages_exact(before.take(i as int), old_text@)) as nat, page_exact(before[i as int], old_text@));
            assert(xs@.take(i + 1).drop_last() =~= xs@.take(i as int));
            assert(xs@.take(i as int) =~= prev_xs.take(i as int));
        }
        i = i + 1;
    }
    assert(before.take(i as int) =~= before);
    assert(xs@.take(i as int) =~= xs@);
    Ok(())
}

fn replace_blocks_paragraphs(
    xs: &mut Vec<PageBlock>,
    old_text: &String,
    new_text: &String,
    replacements: &mut usize,
) -> (r: Result<(), NativeEditError>)
    ensures
        r == result_of(blocks_error(old(xs)@, old_text@, new_text@)),
        r is Ok ==> blocks_replaced(old(xs)@, final(xs)@, old_text@, new_text@) && *final(replacements) == clip(
            (*old(replacements) + blocks_exact(old(xs)@, old_text@)) as nat,
        ),
    decreases *old(xs), 1nat,
{
    let ghost before = xs@;
    let ghost start = *replacements;
    let mut i: usize = 0;
    assert(before.take(0) =~= Seq::<PageBlock>::empty());
    assert(xs@.take(0) =~= Seq::<PageBlock>::empty());
    while i < xs.len()
        invariant
            i <= xs@.len(),
            xs@.len() == before.len(),
            before == old(xs)@,
            start == *old(replacements),
            forall|j: int| i <= j < xs@.len() ==> xs@[j] == before[j],
            blocks_error(before.take(i as int), old_text@, new_text@) is None,
            blocks_replaced(before.take(i as int), xs@.take(i as int), old_text@, new_text@),
            *replacements == clip((start + blocks_exact(before.take(i as int), old_text@)) as nat),
        decreases before.len() - i,
    {
        let ghost prev = *replacements;
        let ghost prev_xs = xs@;
        assert(before.take(i + 1).drop_last() =~= before.take(i as int));
        assert(decreases_to!(before => before[i as int]));
        let res = replace_block_paragraphs(&mut xs[i], old_text, new_text, replacements);
        match res {
            Err(e) => {
                proof {
                    lemma_blocks_error_prefix(before, i + 1, old_text@, new_text@);
                }
                return Err(e);
            },
            Ok(()) => {},
        }
        proof {
            lemma_clip_add((start + blocks_exact(before.take(i as int), old_text@)) as nat, block_exact(before[i as int], old_text@));
            assert(xs@.take(i + 1).drop_last() =~= xs@.take(i as int));
            assert(xs@.take(i as int) =~= prev_xs.take(i as int));
        }
        i = i + 1;
    }
    assert(before.take(i as int) =~= before);
    assert(xs@.take(i as int) =~= xs@);
    Ok(())
}

fn replace_items_paragraphs(
    xs: &mut Vec<OutlineItem>,
    old_text: &String,
    new_text: &String,
    replacements: &mut usize,
) -> (r: Result<(), NativeEditError>)
    ensures
        r == result_of(items_error(old(xs)@, old_text@, new_text@)),
        r is Ok ==> items_replaced(old(xs)@, final(xs)@, old_text@, new_text@) && *final(replacements) == clip(
            (*old(replacements) + items_exact(old(xs)@, old_text@)) as nat,
        ),
    decreases *old(xs), 1nat,
{
    let ghost before = xs@;
    let ghost start = *replacements;
    let mut i: usize = 0;
    assert(before.take(0) =~= Seq::<OutlineItem>::empty());
    assert(xs@.take(0) =~= Seq::<OutlineItem>::empty());
    while i < xs.len()
        invariant
            i <= xs@.len(),
            xs@.len() == before.len(),
            before == old(xs)@,
            start == *old(replacements),
            forall|j: int| i <= j < xs@.len() ==> xs@[j] == before[j],
            items_error(before.take(i as int), old_text@, new_text@) is None,
            items_replaced(before.take(i as int), xs@.take(i as int), old_text@, new_text@),
            *replacements == clip((start + items_exact(before.take(i as int), old_text@)) as nat),
        decreases before.len() - i,
    {
        let ghost prev = *replacements;
        let ghost prev_xs = xs@;
        assert(before.take(i + 1).drop_last() =~= before.take(i as int));
        assert(decreases_to!(before => before[i as int]));
        let res = replace_item_paragraphs(&mut xs[i], old_text, new_text, replacements);
        match res {
            Err(e) => {
                proof {
                    lemma_items_error_prefix(before, i + 1, old_text@, new_text@);
                }
                return Err(e);
            },
            Ok(()) => {},
        }
        proof {
            lemma_clip_add((start + items_exact(before.take(i as int), old_text@)) as nat, item_exact(before[i as int], old_text@));
            assert(xs@.take(i + 1).drop_last() =~= xs@.take(i as int));
            assert(xs@.take(i as int) =~= prev_xs.take(i as int));
        }
        i = i + 1;
    }
    assert(before.take(i as int) =~= before);
    assert(xs@.take(i as int) =~= xs@);
    Ok(())
}

fn replace_contents_paragraphs(
    xs: &mut Vec<Content>,
    old_text: &String,
    new_text: &String,
    replacements: &mut usize,
) -> (r: Result<(), NativeEditError>)
    ensures
        r == result_of(contents_error(old(xs)@, old_text@, new_text@)),
        r is Ok ==> contents_replaced(old(xs)@, final(xs)@, old_text@, new_text@) && *final(replacements) == clip(
            (*old(replacements) + contents_exact(old(xs)@, old_text@)) as nat,
        ),
    decreases *old(xs), 1nat,
{
    let ghost before = xs@;
    let ghost start = *replacements;
    let mut i: usize = 0;
    assert(before.take(0) =~= Seq::<Content>::empty());
    assert(xs@.take(0) =~= Seq::<Content>::empty());
    while i < xs.len()
        invariant
            i <= xs@.len(),
            xs@.len() == before.len(),
            before == old(xs)@,
            start == *old(replacements),
            forall|j: int| i <= j < xs@.len() ==> xs@[j] == before[j],
            contents_error(before.take(i as int), old_text@, new_text@) is None,
            contents_replaced(before.take(i as int), xs@.take(i as int), old_text@, new_text@),
            *replacements == clip((start + contents_exact(before.take(i as int), old_text@)) as nat),
        decreases before.len() - i,
    {
        let ghost prev = *replacements;
        let ghost prev_xs = xs@;
        assert(before.take(i + 1).drop_last() =~= before.take(i as int));
        assert(decreases_to!(before => before[i as int]));
        let res = replace_content_paragraphs(&mut xs[i], old_text, new_text, replacements);
        match res {
            Err(e) => {
                proof {
                    lemma_contents_error_prefix(before, i + 1, old_text@, new_text@);
                }
                return Err(e);
            },
            Ok(()) => {},
        }
        proof {
            lemma_clip_add((start + contents_exact(before.take(i as int), old_text@)) as nat, content_exact(before[i as int], old_text@));
            assert(xs@.take(i + 1).drop_last() =~= xs@.take(i as int));
            assert(xs@.take(i as int) =~= prev_xs.take(i as int));
        }
        i = i + 1;
    }
    assert(before.take(i as int) =~= before);
    assert(xs@.take(i as int) =~= xs@);
    Ok(())
}

fn replace_rows_paragraphs(
    xs: &mut Vec<TableRow>,
    old_text: &String,
    new_text: &String,
    replacements: &mut usize,
) -> (r: Result<(), NativeEditError>)
    ensures
        r == result_of(rows_error(old(xs)@, old_text@, new_text@)),
        r is Ok ==> rows_replaced(old(xs)@, final(xs)@, old_text@, new_text@) && *final(replacements) == clip(
            (*old(replacements) + rows_exact(old(xs)@, old_text@)) as nat,
        ),
    decreases *old(xs), 1nat,
{
    let ghost before = xs@;
    let ghost start = *replacements;
    let mut i: usize = 0;
    assert(before.take(0) =~= Seq::<TableRow>::empty());
    assert(xs@.take(0) =~= Seq::<TableRow>::empty());
    while i < xs.len()
        invariant
            i <= xs@.len(),
            xs@.len() == before.len(),
            before == old(xs)@,
            start == *old(replacements),
            forall|j: int| i <= j < xs@.len() ==> xs@[j] == before[j],
            rows_error(before.take(i as int), old_text@, new_text@) is None,
            rows_replaced(before.take(i as int), xs@.take(i as int), old_text@, new_text@),
            *replacements == clip((start + rows_exact(before.take(i as int), old_text@)) as nat),
        decreases before.len() - i,
    {
        let ghost prev = *replacements;
        let ghost prev_xs = xs@;
        assert(before.take(i + 1).drop_last() =~= before.take(i as int));
        assert(decreases_to!(before => before[i as int]));
        let res = replace_row_paragraphs(&mut xs[i], old_text, new_text, replacements);
        match res {
            Err(e) => {
                proof {
                    lemma_rows_error_prefix(before, i + 1, old_text@, new_text@);
                }
                return Err(e);
            },
            Ok(()) => {},
        }
        proof {
            lemma_clip_add((start + rows_exact(before.take(i as int), old_text@)) as nat, row_exact(before[i as int], old_text@));
            assert(xs@.take(i + 1).drop_last() =~= xs@.take(i as int));
            assert(xs@.take(i as int) =~= prev_xs.take(i as int));
        }
        i = i + 1;
    }
    assert(before.take(i as int) =~= before);
    assert(xs@.take(i as int) =~= xs@);
    Ok(())
}

fn replace_cells_paragraphs(
    xs: &mut Vec<TableCell>,
    old_text: &String,
    new_text: &String,
    replacements: &mut usize,
) -> (r: Result<(), NativeEditError>)
    ensures
        r == result_of(cells_error(old(xs)@, old_text@, new_text@)),
        r is Ok ==> cells_replaced(old(xs)@, final(xs)@, old_text@, new_text@) && *final(replacements) == clip(
            (*old(replacements) + cells_exact(old(xs)@, old_text@)) as nat,
        ),
    decreases *old(xs), 1nat,
{
    let ghost before = xs@;
    let ghost start = *replacements;
    let mut i: usize = 0;
    assert(before.take(0) =~= Seq::<TableCell>::empty());
    assert(xs@.take(0) =~= Seq::<TableCell>::empty());
    while i < xs.len()
        invariant
            i <= xs@.len(),
            xs@.len() == before.len(),
            before == old(xs)@,
            start == *old(replacements),
            forall|j: int| i <= j < xs@.len() ==> xs@[j] == before[j],
            cells_error(before.take(i as int), old_text@, new_text@) is None,
            cells_replaced(before.take(i as int), xs@.take(i as int), old_text@, new_text@),
            *replacements == clip((start + cells_exact(before.take(i as int), old_text@)) as nat),
        decreases before.len() - i,
    {
        let ghost prev = *replacements;
        let ghost prev_xs = xs@;
        assert(before.take(i + 1).drop_last() =~= before.take(i as int));
        assert(decreases_to!(before => before[i as int]));
        let res = replace_cell_paragraphs(&mut xs[i], old_text, new_text, replacements);
        match res {
            Err(e) => {
                proof {
                    lemma_cells_error_prefix(before, i + 1, old_text@, new_text@);
                }
                return Err(e);
            },
            Ok(()) => {},
        }
        proof {
            lemma_clip_add((start + cells_exact(before.take(i as int), old_text@)) as nat, cell_exact(before[i as int], old_text@));
            assert(xs@.take(i + 1).drop_last() =~= xs@.take(i as int));
            assert(xs@.take(i as int) =~= prev_xs.take(i as int));
        }
        i = i + 1;
    }
    assert(before.take(i as int) =~= before);
    assert(xs@.take(i as int) =~= xs@);
    Ok(())
}

fn replace_elements_paragraphs(
    xs: &mut Vec<OutlineElement>,
    old_text: &String,
    new_text: &String,
    replacements: &mut usize,
) -> (r: Result<(), NativeEditError>)
    ensures
        r == result_of(elements_error(old(xs)@, old_text@, new_text@)),
        r is Ok ==> elements_replaced(old(xs)@, final(xs)@, old_text@, new_text@) && *final(replacements) == clip(
            (*old(replacements) + elements_exact(old(xs)@, old_text@)) as nat,
        ),
    decreases *old(xs), 1nat,
{
    let ghost before = xs@;
    let ghost start = *replacements;
    let mut i: usize = 0;
    assert(before.take(0) =~= Seq::<OutlineElement>::empty());
    assert(xs@.take(0) =~= Seq::<OutlineElement>::empty());
    while i < xs.len()
        invariant
            i <= xs@.len(),
            xs@.len() == before.len(),
            before == old(xs)@,
            start == *old(replacements),
            forall|j: int| i <= j < xs@.len() ==> xs@[j] == before[j],
            elements_error(before.take(i as int), old_text@, new_text@) is None,
            elements_replaced(before.take(i as int), xs@.take(i as int), old_text@, new_text@),
            *replacements == clip((start + elements_exact(before.take(i as int), old_text@)) as nat),
        decreases before.len() - i,
    {
        let ghost prev = *replacements;
        let ghost prev_xs = xs@;
        assert(before.take(i + 1).drop_last() =~= before.take(i as int));
        assert(decreases_to!(before => before[i as int]));
        let res = replace_element_paragraphs(&mut xs[i], old_text, new_text, replacements);
        match res {
            Err(e) => {
                proof {
                    lemma_elements_error_prefix(before, i + 1, old_text@, new_text@);
                }
                return Err(e);
            },
            Ok(()) => {},
        }
        proof {
            lemma_clip_add((start + elements_exact(before.take(i as int), old_text@)) as nat, element_exact(before[i as int], old_text@));
            assert(xs@.take(i + 1).drop_last() =~= xs@.take(i as int));
            assert(xs@.take(i as int) =~= prev_xs.take(i as int));
        }
        i = i + 1;
    }
    assert(before.take(i as int) =~= before);
    assert(xs@.take(i as int) =~= xs@);
    Ok(())
}

fn replace_entry_paragraphs(
    x: &mut NotebookEntry,
    old_text: &String,
    new_text: &String,
    replacements: &mut usize,
) -> (r: Result<(), NativeEditError>)
    ensures
        r == result_of(entry_error(*old(x), old_text@, new_text@)),
        r is Ok ==> entry_replaced(*old(x), *final(x), old_text@, new_text@) && *final(replacements) == clip(
            (*old(replacements) + entry_exact(*old(x), old_text@)) as nat,
        ),
    decreases *old(x), 0nat,
{
    match x {
        NotebookEntry::Section(section) => replace_pages_paragraphs(&mut section.pages, old_text, new_text, replacements),
        NotebookEntry::SectionGroup(_, entries) => replace_entries_paragraphs(entries, old_text, new_text, replacements),
    }
}

fn replace_page_paragraphs(
    x: &mut Page,
    old_text: &String,
    new_text: &String,
    replacements: &mut usize,
) -> (r: Result<(), NativeEditError>)
    ensures
        r == result_of(page_error(*old(x), old_text@, new_text@)),
        r is Ok ==> page_replaced(*old(x), *final(x), old_text@, new_text@) && *final(replacements) == clip(
            (*old(replacements) + page_exact(*old(x), old_text@)) as nat,
        ),
    decreases *old(x), 0nat,
{
    replace_blocks_paragraphs(&mut x.blocks, old_text, new_text, replacements)
}

fn replace_block_paragraphs(
    x: &mut PageBlock,
    old_text: &String,
    new_text: &String,
    replacements: &mut usize,
) -> (r: Result<(), NativeEditError>)
    ensures
        r == result_of(block_error(*old(x), old_text@, new_text@)),
        r is Ok ==> block_replaced(*old(x), *final(x), old_text@, new_text@) && *final(replacements) == clip(
            (*old(replacements) + block_exact(*old(x), old_text@)) as nat,
        ),
    decreases *old(x), 0nat,
{
    match x {
        PageBlock::Outline(items) => replace_items_paragraphs(items, old_text, new_text, replacements),
        _ => Ok(()),
    }
}

/// Replaces every paragraph of an outline item whose text is exactly `old`.
pub fn replace_item_paragraphs(
    x: &mut OutlineItem,
    old_text: &String,
    new_text: &String,
    replacements: &mut usize,
) -> (r: Result<(), NativeEditError>)
    ensures
        r == result_of(item_error(*old(x), old_text@, new_text@)),
        r is Ok ==> item_replaced(*old(x), *final(x), old_text@, new_text@) && *final(replacements) == clip(
            (*old(replacements) + item_exact(*old(x), old_text@)) as nat,
        ),
    decreases *old(x), 0nat,
{
    match x {
        OutlineItem::Element(element) => replace_element_paragraphs(element, old_text, new_text, replacements),
        OutlineItem::Group(items) => replace_items_paragraphs(items, old_text, new_text, replacements),
    }
}

/// Replaces every paragraph of an outline element (its contents, also inside
/// tables, then its children) whose text is exactly `old`.
pub fn replace_element_paragraphs(
    x: &mut OutlineElement,
    old_text: &String,
    new_text: &String,
    replacements: &mut usize,
) -> (r: Result<(), NativeEditError>)
    ensures
        r == result_of(element_error(*old(x), old_text@, new_text@)),
        r is Ok ==> element_replaced(*old(x), *final(x), old_text@, new_text@) && *final(replacements) == clip(
            (*old(replacements) + element_exact(*old(x), old_text@)) as nat,
        ),
    decreases *old(x), 0nat,
{
    let ghost start = *replacements;
    match replace_contents_paragraphs(&mut x.content, old_text, new_text, replacements) {
        Err(e) => {
            return Err(e);
        },
        Ok(()) => {},
    }
    let r = replace_items_paragraphs(&mut x.children, old_text, new_text, replacements);
    proof {
        lemma_clip_add(
            (start + contents_exact(old(x).content@, old_text@)) as nat,
            items_exact(old(x).children@, old_text@),
        );
    }
    r
}

fn replace_content_paragraphs(
    x: &mut Content,
    old_text: &String,
    new_text: &String,
    replacements: &mut usize,
) -> (r: Result<(), NativeEditError>)
    ensures
        r == result_of(content_error(*old(x), old_text@, new_text@)),
        r is Ok ==> content_replaced(*old(x), *final(x), old_text@, new_text@) && *final(replacements) == clip(
            (*old(replacements) + content_exact(*old(x), old_text@)) as nat,
        ),
    decreases *old(x), 0nat,
{
    match x {
        Content::Paragraph(paragraph) => {
            if paragraph.text == *old_text {
                match replace_paragraph_text(paragraph, new_text) {
                    Err(e) => {
                        return Err(e);
                    },
                    Ok(()) => {},
                }
                add_count(replacements, 1, Ghost(*old(replacements) as nat), Ghost(1nat));
            }
            Ok(())
        },
        Content::Table(table) => replace_rows_paragraphs(&mut table.content, old_text, new_text, replacements),
        _ => Ok(()),
    }
}

fn replace_row_paragraphs(
    x: &mut TableRow,
    old_text: &String,
    new_text: &String,
    replacements: &mut usize,
) -> (r: Result<(), NativeEditError>)
    ensures
        r == result_of(row_error(*old(x), old_text@, new_text@)),
        r is Ok ==> row_replaced(*old(x), *final(x), old_text@, new_text@) && *final(replacements) == clip(
            (*old(replacements) + row_exact(*old(x), old_text@)) as nat,
        ),
    decreases *old(x), 0nat,
{
    replace_cells_paragraphs(&mut x.cells, old_text, new_text, replacements)
}

fn replace_cell_paragraphs(
    x: &mut TableCell,
    old_text: &String,
    new_text: &String,
    replacements: &mut usize,
) -> (r: Result<(), NativeEditError>)
    ensures
        r == result_of(cell_error(*old(x), old_text@, new_text@)),
        r is Ok ==> cell_replaced(*old(x), *final(x), old_text@, new_text@) && *final(replacements) == clip(
            (*old(replacements) + cell_exact(*old(x), old_text@)) as nat,
        ),
    decreases *old(x), 0nat,
{
    replace_elements_paragraphs(&mut x.content, old_text, new_text, replacements)
}

/// Replaces every paragraph of the notebook whose text is exactly `old` by
/// `new`, keeping each paragraph's formatting runs, and counts them.
pub fn replace_notebook_paragraphs(
    notebook: &mut Notebook,
    old_text: &String,
    new_text: &String,
    replacements: &mut usize,
) -> (r: Result<(), NativeEditError>)
    ensures
        r == result_of(notebook_error(*old(notebook), old_text@, new_text@)),
        r is Ok ==> notebook_replaced(*old(notebook), *final(notebook), old_text@, new_text@)
            && *final(replacements) == clip(
            (*old(replacements) + notebook_exact(*old(notebook), old_text@)) as nat,
        ),
{
    replace_entries_paragraphs(&mut notebook.entries, old_text, new_text, replacements)
}

// ---------------------------------------------------------------------------
// Changing the title of one page, addressed by the position of its section
// in depth-first order.
// ---------------------------------------------------------------------------

/// The sections of a sequence of entries, in depth-first order.
pub open spec fn entries_sections(es: Seq<NotebookEntry>) -> Seq<Section>
    decreases es, 1nat,
{
    if es.len() == 0 {
        Seq::<Section>::empty()
    } else {
        entries_sections(es.drop_last()) + entry_sections(es.last())
    }
}

/// The sections of one entry, in depth-first order.
pub open spec fn entry_sections(e: NotebookEntry) -> Seq<Section>
    decreases e, 0nat,
{
    match e {
        NotebookEntry::Section(s) => seq![s],
        NotebookEntry::SectionGroup(_, es) => entries_sections(es@),
    }
}

/// A page with another title.
pub open spec fn retitled(p: Page, title: String) -> Page {
    Page { title: title, blocks: p.blocks }
}

/// `a` is `b` where the page at `page` of the section at depth-first position
/// `k` is titled `title`; nothing else differs.
pub open spec fn entries_retitled(
    b: Seq<NotebookEntry>,
    a: Seq<NotebookEntry>,
    k: int,
    page: int,
    title: String,
) -> bool
    decreases b, 1nat,
{
    b.len() == a.len() && (b.len() == 0 || (entries_retitled(
        b.drop_last(),
        a.drop_last(),
        k,
        page,
        title,
    ) && entry_retitled(
        b.last(),
        a.last(),
        k - entries_sections(b.drop_last()).len(),
        page,
        title,
    )))
}

/// `a` is the entry `b` where the page at `page` of its section at
/// depth-first position `k` is titled `title`.
pub open spec fn entry_retitled(b: NotebookEntry, a: NotebookEntry, k: int, page: int, title: String) -> bool
    decreases b, 0nat,
{
    match b {
        NotebookEntry::Section(sb) => match a {
            NotebookEntry::Section(sa) => sa.name == sb.name && sa.pages@ == (if k == 0 {
                sb.pages@.update(page, retitled(sb.pages@[page], title))
            } else {
                sb.pages@
            }),
            _ => false,
        },
        NotebookEntry::SectionGroup(nb, eb) => match a {
            NotebookEntry::SectionGroup(na, ea) => na == nb && entries_retitled(
                eb@,
                ea@,
                k,
                page,
                title,
            ),
            _ => false,
        },
    }
}

/// Why the title of page `page` of section `k` cannot be changed from
/// `old_title`, if it cannot.
pub open spec fn retitle_error(es: Seq<NotebookEntry>, k: int, page: int, old_title: Seq<char>) -> Option<
    NativeEditError,
> {
    if k < 0 || k >= entries_sections(es).len() {
        Some(NativeEditError::SectionMappingChanged)
    } else if page < 0 || page >= entries_sections(es)[k].pages@.len() {
        Some(NativeEditError::PageMappingChanged)
    } else if entries_sections(es)[k].pages@[page].title@ != old_title {
        Some(NativeEditError::TitleChanged)
    } else {
        None
    }
}

proof fn lemma_entries_sections_concat(a: Seq<NotebookEntry>, b: Seq<NotebookEntry>)
    ensures
        entries_sections(a + b) == entries_sections(a) + entries_sections(b),
    decreases b.len(),
{
    if b.len() == 0 {
        assert(a + b =~= a);
        assert(entries_sections(a) + entries_sections(b) =~= entries_sections(a));
    } else {
        assert((a + b).drop_last() =~= a + b.drop_last());
        lemma_entries_sections_concat(a, b.drop_last());
        assert(entries_sections(a + b) =~= entries_sections(a) + entries_sections(b));
    }
}

proof fn lemma_entries_sections_single(x: NotebookEntry)
    ensures
        entries_sections(seq![x]) == entry_sections(x),
{
    let s = seq![x];
    assert(s.drop_last() =~= Seq::<NotebookEntry>::empty());
    assert(s.last() == x);
    assert(entries_sections(Seq::<NotebookEntry>::empty()) == Seq::<Section>::empty());
    assert(entries_sections(s) =~= entry_sections(x));
}

proof fn lemma_entries_retitled_refl(es: Seq<NotebookEntry>, k: int, page: int, title: String)
    requires
        k < 0 || k >= entries_sections(es).len(),
    ensures
        entries_retitled(es, es, k, page, title),
    decreases es, 1nat,
{
    if es.len() > 0 {
        lemma_entries_sections_concat(es.drop_last(), seq![es.last()]);
        assert(es.drop_last() + seq![es.last()] =~= es);
        lemma_entries_sections_single(es.last());
        lemma_entries_retitled_refl(es.drop_last(), k, page, title);
        lemma_entry_retitled_refl(es.last(), k - entries_sections(es.drop_last()).len(), page, title);
    }
}

proof fn lemma_entry_retitled_refl(e: NotebookEntry, k: int, page: int, title: String)
    requires
        k < 0 || k >= entry_sections(e).len(),
    ensures
        entry_retitled(e, e, k, page, title),
    decreases e, 0nat,
{
    match e {
        NotebookEntry::Section(_) => {},
        NotebookEntry::SectionGroup(_, es) => {
            lemma_entries_retitled_refl(es@, k, page, title);
        },
    }
}

proof fn lemma_entries_retitled_extend(
    b: Seq<NotebookEntry>,
    a: Seq<NotebookEntry>,
    i: int,
    k: int,
    page: int,
    title: String,
)
    requires
        0 <= i <= b.len(),
        b.len() == a.len(),
        forall|j: int| i <= j < b.len() ==> a[j] == b[j],
        entries_retitled(b.take(i), a.take(i), k, page, title),
        k < entries_sections(b.take(i)).len(),
    ensures
        entries_retitled(b, a, k, page, title),
    decreases b.len() - i,
{
    if i < b.len() {
        assert(b.take(i + 1).drop_last() =~= b.take(i));
        assert(a.take(i + 1).drop_last() =~= a.take(i));
        lemma_entry_retitled_refl(b[i], k - entries_sections(b.take(i)).len(), page, title);
        lemma_entries_sections_concat(b.take(i), seq![b[i]]);
        assert(b.take(i) + seq![b[i]] =~= b.take(i + 1));
        lemma_entries_sections_single(b[i]);
        lemma_entries_retitled_extend(b, a, i + 1, k, page, title);
    } else {
        assert(b.take(i) =~= b);
        assert(a.take(i) =~= a);
    }
}

/// How many sections an entry holds (saturating).
fn count_entry_sections(entry: &NotebookEntry) -> (r: usize)
    ensures
        r == clip(entry_sections(*entry).len()),
    decreases entry, 0nat,
{
    match entry {
        NotebookEntry::Section(_) => 1,
        NotebookEntry::SectionGroup(_, entries) => count_entries_sections(entries),
    }
}

/// How many sections a sequence of entries holds (saturating).
fn count_entries_sections(entries: &Vec<NotebookEntry>) -> (r: usize)
    ensures
        r == clip(entries_sections(entries@).len()),
    decreases entries, 1nat,
{
    let mut total: usize = 0;
    let mut i: usize = 0;
    while i < entries.len()
        invariant
            i <= entries@.len(),
            total == clip(entries_sections(entries@.take(i as int)).len()),
        decreases entries@.len() - i,
    {
        let n = count_entry_sections(&entries[i]);
        assert(entries@.take(i + 1).drop_last() =~= entries@.take(i as int));
        total = add_clipped(
            total,
            n,
            Ghost(entries_sections(entries@.take(i as int)).len()),
            Ghost(entry_sections(entries@[i as int]).len()),
        );
        i = i + 1;
    }
    assert(entries@.take(i as int) =~= entries@);
    total
}

fn retitle_in_entry(
    x: &mut NotebookEntry,
    k: usize,
    page: usize,
    old_title: &String,
    new_title: &String,
) -> (r: Result<(), NativeEditError>)
    requires
        k < entry_sections(*old(x)).len(),
        k < usize::MAX,
    ensures
        r == result_of(retitle_error(seq![*old(x)], k as int, page as int, old_title@)),
        r is Ok ==> entry_retitled(*old(x), *final(x), k as int, page as int, *new_title),
    decreases *old(x), 0nat,
{
    proof {
        lemma_entries_sections_single(*old(x));
    }
    match x {
        NotebookEntry::Section(section) => {
            if page >= section.pages.len() {
                return Err(NativeEditError::PageMappingChanged);
            }
            if section.pages[page].title != *old_title {
                return Err(NativeEditError::TitleChanged);
            }
            let ghost before = section.pages@;
            section.pages[page].title = new_title.clone();
            assert(section.pages@ =~= before.update(page as int, retitled(before[page as int], *new_title)));
            Ok(())
        },
        NotebookEntry::SectionGroup(_, entries) => retitle_in_entries(entries, k, page, old_title, new_title),
    }
}

fn retitle_in_entries(
    xs: &mut Vec<NotebookEntry>,
    k: usize,
    page: usize,
    old_title: &String,
    new_title: &String,
) -> (r: Result<(), NativeEditError>)
    requires
        k < entries_sections(old(xs)@).len(),
        k < usize::MAX,
    ensures
        r == result_of(retitle_error(old(xs)@, k as int, page as int, old_title@)),
        r is Ok ==> entries_retitled(old(xs)@, final(xs)@, k as int, page as int, *new_title),
    decreases *old(xs), 1nat,
{
    let ghost before = xs@;
    let mut offset: usize = 0;
    let mut i: usize = 0;
    assert(before.take(0) =~= Seq::<NotebookEntry>::empty());
    while i < xs.len()
        invariant
            i <= xs@.len(),
            xs@ == before,
            before == old(xs)@,
            k < entries_sections(before).len(),
            k < usize::MAX,
            offset == entries_sections(before.take(i as int)).len(),
            offset <= k,
        decreases before.len() - i,
    {
        let n = count_entry_sections(&xs[i]);
        let ghost prefix = entries_sections(before.take(i as int));
        let ghost here = entry_sections(before[i as int]);
        assert(before.take(i + 1).drop_last() =~= before.take(i as int));
        if k - offset < n {
            proof {
                lemma_entries_sections_concat(before.take(i + 1), before.skip(i + 1));
                assert(before.take(i + 1) + before.skip(i + 1) =~= before);
                assert(entries_sections(before)[k as int] == here[k - offset]);
                assert(decreases_to!(before => before[i as int]));
                lemma_entries_sections_single(before[i as int]);
                lemma_entries_retitled_refl(before.take(i as int), k as int, page as int, *new_title);
            }
            let r = retitle_in_entry(&mut xs[i], k - offset, page, old_title, new_title);
            proof {
                assert(here.drop_last().len() >= 0);
                if r is Ok {
                    assert(xs@.take(i + 1).drop_last() =~= before.take(i as int));
                    assert(xs@.take(i + 1).last() == xs@[i as int]);
                    assert(entries_retitled(
                        before.take(i + 1),
                        xs@.take(i + 1),
                        k as int,
                        page as int,
                        *new_title,
                    ));
                    lemma_entries_retitled_extend(before, xs@, i + 1, k as int, page as int, *new_title);
                }
            }
            return r;
        }
        offset = offset + n;
        i = i + 1;
    }
    assert(before.take(i as int) =~= before);
    Err(NativeEditError::SectionMappingChanged)
}

/// Changes the title of the page at `page` in the section at depth-first
/// position `section`, provided it still reads `old_title`.
pub(crate) fn retitle_page(
    notebook: &mut Notebook,
    section: usize,
    page: usize,
    old_title: &String,
    new_title: &String,
) -> (r: Result<(), NativeEditError>)
    requires
        section < usize::MAX,
    ensures
        r == result_of(retitle_error(old(notebook).entries@, section as int, page as int, old_title@)),
        r is Ok ==> final(notebook).name == old(notebook).name && entries_retitled(
            old(notebook).entries@,
            final(notebook).entries@,
            section as int,
            page as int,
            *new_title,
        ),
{
    let total = count_entries_sections(&notebook.entries);
    if section >= total {
        return Err(NativeEditError::SectionMappingChanged);
    }
    retitle_in_entries(&mut notebook.entries, section, page, old_title, new_title)
}

/// A successful replacement keeps the paragraph consistent: its formatting
/// runs spell exactly the new text.
pub proof fn lemma_replaced_runs_spell_text(before: Paragraph, after: Paragraph, new_t: Seq<char>)
    requires
        replacement_error(before, new_t) is None,
        replaced_paragraph(before, after, new_t),
        before.runs@.len() > 0,
    ensures
        runs_text(after.runs@) == after.text@,
{
    let runs = before.runs@;
    let n = runs.len() as int;
    // Every run boundary is a character boundary of the new text.
    assert forall|i: int| 0 <= i < n implies is_utf16_boundary(new_t, #[trigger] units_before(runs, i) as int) by {
        if i == 0 {
            assert(runs.take(0) =~= Seq::<TextRun>::empty());
            assert(new_t.take(0) =~= Seq::<char>::empty());
            lemma_utf16_char_index(new_t, 0);
        }
    }
    assert(new_t.take(new_t.len() as int) =~= new_t);
    lemma_utf16_char_index(new_t, new_t.len() as int);
    assert(runs.take(0) =~= Seq::<TextRun>::empty());
    assert(new_t.take(0) =~= Seq::<char>::empty());
    lemma_utf16_char_index(new_t, 0);
    lemma_runs_prefix_text(before, after, new_t, n);
    assert(after.runs@.take(n) =~= after.runs@);
    assert(new_t.subrange(0, new_t.len() as int) =~= new_t);
}

proof fn lemma_char_index_order(s: Seq<char>, a: int, b: int)
    requires
        is_utf16_boundary(s, a),
        is_utf16_boundary(s, b),
        a <= b,
    ensures
        0 <= utf16_char_index(s, a) <= utf16_char_index(s, b) <= s.len(),
{
    let ma = utf16_char_index(s, a);
    let mb = utf16_char_index(s, b);
    if mb < ma {
        lemma_utf16_prefix_strict(s, mb, ma);
    }
}

#[verifier::spinoff_prover]
#[verifier::rlimit(40)]
proof fn lemma_runs_prefix_text(before: Paragraph, after: Paragraph, new_t: Seq<char>, k: int)
    requires
        replacement_error(before, new_t) is None,
        replaced_paragraph(before, after, new_t),
        0 < k <= before.runs@.len(),
        forall|i: int|
            0 <= i < before.runs@.len() ==> is_utf16_boundary(new_t, #[trigger] units_before(before.runs@, i) as int),
        is_utf16_boundary(new_t, utf16_len(new_t) as int),
        utf16_char_index(new_t, 0) == 0,
        utf16_char_index(new_t, utf16_len(new_t) as int) == new_t.len(),
    ensures
        runs_text(after.runs@.take(k)) == new_t.subrange(
            0,
            utf16_char_index(new_t, run_end(before.runs@, new_t, k - 1)),
        ),
    decreases k,
{
    let runs = before.runs@;
    let n = runs.len() as int;
    let i = k - 1;
    let start = units_before(runs, i) as int;
    let end = run_end(runs, new_t, i);
    assert(is_utf16_boundary(new_t, end)) by {
        if i < n - 1 {
            assert(is_utf16_boundary(new_t, units_before(runs, i + 1) as int));
        }
    }
    assert(start <= end) by {
        if i < n - 1 {
            lemma_units_before_step(runs, i);
        } else {
            lemma_units_before_mono(runs, i, n - 1);
        }
    }
    lemma_char_index_order(new_t, start, end);
    assert(after.runs@.take(k).drop_last() =~= after.runs@.take(i));
    assert(after.runs@.take(k).last() == after.runs@[i]);
    if k == 1 {
        assert(runs.take(0) =~= Seq::<TextRun>::empty());
        assert(start == 0);
        assert(after.runs@.take(0) =~= Seq::<TextRun>::empty());
        assert(runs_text(after.runs@.take(k)) =~= Seq::<char>::empty() + after.runs@[0].text@);
        assert(runs_text(after.runs@.take(k)) =~= new_t.subrange(0, utf16_char_index(new_t, end)));
    } else {
        lemma_runs_prefix_text(before, after, new_t, k - 1);
        let prev_end = run_end(runs, new_t, i - 1);
        assert(prev_end == start);
        assert(new_t.take(0) =~= Seq::<char>::empty());
        assert(utf16_len(new_t.take(0)) == 0);
        assert(is_utf16_boundary(new_t, 0));
        lemma_char_index_order(new_t, 0, start);
        assert(new_t.subrange(0, utf16_char_index(new_t, start)) + new_t.subrange(
            utf16_char_index(new_t, start),
            utf16_char_index(new_t, end),
        ) =~= new_t.subrange(0, utf16_char_index(new_t, end)));
    }
}

// ---------------------------------------------------------------------------
// Every paragraph of an outline counts, however deeply it is nested.
// ---------------------------------------------------------------------------

/// A text occurs once in itself.
pub proof fn lemma_text_occurs_in_itself(t: Seq<char>)
    requires
        t.len() > 0,
    ensures
        match_count(t, t) == 1,
{
    assert(t.take(t.len() as int) =~= t);
    let rest = t.skip(t.len() as int);
    assert(rest.len() == 0);
    assert(match_count(rest, t) == 0);
    assert(match_count(t, t) == 1 + match_count(rest, t));
}

/// An item counts at least as often as it does alone in any list holding it.
proof fn lemma_items_hold_each(is: Seq<OutlineItem>, k: int, t: Seq<char>)
    requires
        0 <= k < is.len(),
    ensures
        items_occurrences(is, t) >= item_occurrences(is[k], t),
    decreases is.len(),
{
    if k < is.len() - 1 {
        lemma_items_hold_each(is.drop_last(), k, t);
        assert(is.drop_last()[k] == is[k]);
    }
}

/// A content counts at least as often as it does alone in any list holding it.
proof fn lemma_contents_hold_each(cs: Seq<Content>, k: int, t: Seq<char>)
    requires
        0 <= k < cs.len(),
    ensures
        contents_occurrences(cs, t) >= content_occurrences(cs[k], t),
    decreases cs.len(),
{
    if k < cs.len() - 1 {
        lemma_contents_hold_each(cs.drop_last(), k, t);
        assert(cs.drop_last()[k] == cs[k]);
    }
}

/// The occurrences in two lists of items are those of the first plus those
/// of the second.
pub proof fn lemma_items_occurrences_concat(a: Seq<OutlineItem>, b: Seq<OutlineItem>, t: Seq<char>)
    ensures
        items_occurrences(a + b, t) == items_occurrences(a, t) + items_occurrences(b, t),
    decreases b.len(),
{
    if b.len() == 0 {
        assert(a + b =~= a);
    } else {
        lemma_items_occurrences_concat(a, b.drop_last(), t);
        assert((a + b).drop_last() =~= a + b.drop_last());
        assert((a + b).last() == b.last());
    }
}

/// The occurrences in two lists of contents are those of the first plus
/// those of the second.
pub proof fn lemma_contents_occurrences_concat(a: Seq<Content>, b: Seq<Content>, t: Seq<char>)
    ensures
        contents_occurrences(a + b, t) == contents_occurrences(a, t) + contents_occurrences(b, t),
    decreases b.len(),
{
    if b.len() == 0 {
        assert(a + b =~= a);
    } else {
        lemma_contents_occurrences_concat(a, b.drop_last(), t);
        assert((a + b).drop_last() =~= a + b.drop_last());
        assert((a + b).last() == b.last());
    }
}

/// An outline element counts what its own contents hold and what its nested
/// items hold: each of its contents and each of its children counts in it,
/// an element without contents counts as its children and one without
/// children as its contents, and a paragraph counts the occurrences in its
/// text.
pub proof fn lemma_element_counts_contents_and_children(e: OutlineElement, t: Seq<char>)
    ensures
        element_occurrences(e, t) >= contents_occurrences(e.content@, t),
        element_occurrences(e, t) >= items_occurrences(e.children@, t),
        forall|k: int|
            0 <= k < e.content@.len() ==> element_occurrences(e, t) >= content_occurrences(
                #[trigger] e.content@[k],
                t,
            ),
        forall|k: int|
            0 <= k < e.children@.len() ==> element_occurrences(e, t) >= item_occurrences(
                #[trigger] e.children@[k],
                t,
            ),
        e.content@.len() == 0 ==> element_occurrences(e, t) == items_occurrences(e.children@, t),
        e.children@.len() == 0 ==> element_occurrences(e, t) == contents_occurrences(e.content@, t),
        item_occurrences(OutlineItem::Element(e), t) == element_occurrences(e, t),
{
    assert forall|k: int| 0 <= k < e.content@.len() implies element_occurrences(e, t)
        >= content_occurrences(#[trigger] e.content@[k], t) by {
        lemma_contents_hold_each(e.content@, k, t);
    }
    assert forall|k: int| 0 <= k < e.children@.len() implies element_occurrences(e, t)
        >= item_occurrences(#[trigger] e.children@[k], t) by {
        lemma_items_hold_each(e.children@, k, t);
    }
}

/// A paragraph whose text is exactly `t`, held by an element nested as the
/// `k`-th child of `e`, makes `t` occur in `e`: a nested paragraph is never
/// missed.
pub proof fn lemma_nested_paragraph_counts(e: OutlineElement, k: int, j: int, t: Seq<char>)
    requires
        t.len() > 0,
        0 <= k < e.children@.len(),
        e.children@[k] is Element,
        0 <= j < e.children@[k]->Element_0.content@.len(),
        e.children@[k]->Element_0.content@[j] is Paragraph,
        e.children@[k]->Element_0.content@[j]->Paragraph_0.text@ == t,
    ensures
        element_occurrences(e, t) >= 1,
        content_occurrences(e.children@[k]->Element_0.content@[j], t) == 1,
{
    let c = e.children@[k]->Element_0;
    lemma_text_occurs_in_itself(t);
    lemma_element_counts_contents_and_children(c, t);
    lemma_element_counts_contents_and_children(e, t);
    assert(element_occurrences(c, t) >= content_occurrences(c.content@[j], t));
    assert(element_occurrences(e, t) >= item_occurrences(e.children@[k], t));
}

/// Each page of a list counts at least its title's occurrences and those of
/// its blocks, and an outline block counts those of its items.
pub proof fn lemma_pages_count_titles_and_blocks(ps: Seq<Page>, k: int, t: Seq<char>)
    requires
        0 <= k < ps.len(),
    ensures
        pages_occurrences(ps, t) >= match_count(ps[k].title@, t) + blocks_occurrences(ps[k].blocks@, t),
        forall|items: Vec<OutlineItem>|
            #[trigger] block_occurrences(PageBlock::Outline(items), t) == items_occurrences(items@, t),
    decreases ps.len(),
{
    if k < ps.len() - 1 {
        lemma_pages_count_titles_and_blocks(ps.drop_last(), k, t);
        assert(ps.drop_last()[k] == ps[k]);
    }
}

} // verus!
