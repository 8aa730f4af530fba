//! The editable project model: notebook, sections, pages, positioned blocks,
//! ink strokes and imported assets, each with its mathematical view.
//!
//! Canvas coordinates and lengths are pixels in single precision. The library
//! never computes with them: it stores, copies and compares their IEEE-754 bit
//! patterns (`u32`), and the application converts with `f32::to_bits` and
//! `f32::from_bits`, which round-trip exactly.

use std::collections::BTreeMap;
use vstd::prelude::*;

verus! {

/// Version of the working-copy format written by this library.
pub const FORMAT_VERSION: u32 = 2;

/// Bit pattern of a canvas default: 96 px.
pub const PIXELS_96: u32 = 0x42c0_0000;

/// Bit pattern of a canvas default: 120 px.
pub const PIXELS_120: u32 = 0x42f0_0000;

/// Bit pattern of a canvas default: 440 px.
pub const PIXELS_440: u32 = 0x43dc_0000;

/// Bit pattern of a canvas default: 140 px.
pub const PIXELS_140: u32 = 0x430c_0000;

/// 180 px.
pub const PIXELS_180: u32 = 0x4334_0000;

/// 520 px.
pub const PIXELS_520: u32 = 0x4402_0000;

/// Bit pattern of the default canvas width, 1600 px.
pub const DEFAULT_CANVAS_WIDTH: u32 = 0x44c8_0000;

/// Bit pattern of the default canvas height, 1200 px.
pub const DEFAULT_CANVAS_HEIGHT: u32 = 0x4496_0000;

/// Position and size of a block on the page canvas (bit patterns of pixels).
#[derive(Clone, Copy, Debug, PartialEq, Eq, Structural)]
pub struct CanvasLayout {
    pub x: u32,
    pub y: u32,
    pub width: u32,
    pub height: u32,
}

impl CanvasLayout {
    /// The layout of a new text box: 96, 120, 440 x 140 px.
    pub fn default_layout() -> (r: CanvasLayout)
        ensures
            r == default_canvas_layout(),
    {
        CanvasLayout { x: PIXELS_96, y: PIXELS_120, width: PIXELS_440, height: PIXELS_140 }
    }
}

/// The layout of a new text box.
pub open spec fn default_canvas_layout() -> CanvasLayout {
    CanvasLayout { x: PIXELS_96, y: PIXELS_120, width: PIXELS_440, height: PIXELS_140 }
}

/// One sampled ink point relative to its block (bit patterns of pixels).
#[derive(Clone, Copy, Debug, PartialEq, Eq, Structural)]
pub struct CanvasPoint {
    pub x: u32,
    pub y: u32,
}

/// A freehand or shape stroke.
#[derive(Debug)]
pub struct EditorStroke {
    pub points: Vec<CanvasPoint>,
    pub color: [u8; 4],
    pub width: u32,
    /// Optional width for each point. Empty means a constant-width stroke.
    pub point_widths: Vec<u32>,
}

/// Mathematical view of a stroke.
pub struct StrokeView {
    pub points: Seq<CanvasPoint>,
    pub color: [u8; 4],
    pub width: u32,
    pub point_widths: Seq<u32>,
}

impl View for EditorStroke {
    type V = StrokeView;

    open spec fn view(&self) -> StrokeView {
        StrokeView {
            points: self.points@,
            color: self.color,
            width: self.width,
            point_widths: self.point_widths@,
        }
    }
}

/// A positioned object on a page.
#[derive(Debug)]
pub enum EditorBlock {
    Text { id: u64, text: String, indent: u8, layout: CanvasLayout },
    Table { id: u64, rows: Vec<Vec<String>>, layout: CanvasLayout },
    Image { id: u64, asset_id: u64, layout: CanvasLayout },
    Attachment { id: u64, asset_id: u64, layout: CanvasLayout },
    Ink { id: u64, stroke_count: usize, strokes: Vec<EditorStroke>, layout: CanvasLayout },
    Unsupported { id: u64, description: String, layout: CanvasLayout },
}

/// Mathematical view of a block.
pub enum BlockView {
    Text { id: u64, text: Seq<char>, indent: u8, layout: CanvasLayout },
    Table { id: u64, rows: Seq<Seq<Seq<char>>>, layout: CanvasLayout },
    Image { id: u64, asset_id: u64, layout: CanvasLayout },
    Attachment { id: u64, asset_id: u64, layout: CanvasLayout },
    Ink { id: u64, stroke_count: usize, strokes: Seq<StrokeView>, layout: CanvasLayout },
    Unsupported { id: u64, description: Seq<char>, layout: CanvasLayout },
}

impl BlockView {
    /// The block's identifier.
    pub open spec fn id(self) -> u64 {
        match self {
            BlockView::Text { id, .. } => id,
            BlockView::Table { id, .. } => id,
            BlockView::Image { id, .. } => id,
            BlockView::Attachment { id, .. } => id,
            BlockView::Ink { id, .. } => id,
            BlockView::Unsupported { id, .. } => id,
        }
    }

    /// The block with another position and size.
    pub open spec fn with_layout(self, l: CanvasLayout) -> BlockView {
        match self {
            BlockView::Text { id, text, indent, .. } => BlockView::Text { id, text, indent, layout: l },
            BlockView::Table { id, rows, .. } => BlockView::Table { id, rows, layout: l },
            BlockView::Image { id, asset_id, .. } => BlockView::Image { id, asset_id, layout: l },
            BlockView::Attachment { id, asset_id, .. } => BlockView::Attachment { id, asset_id, layout: l },
            BlockView::Ink { id, stroke_count, strokes, .. } => BlockView::Ink { id, stroke_count, strokes, layout: l },
            BlockView::Unsupported { id, description, .. } => BlockView::Unsupported { id, description, layout: l },
        }
    }

    /// The block's position and size.
    pub open spec fn layout(self) -> CanvasLayout {
        match self {
            BlockView::Text { layout, .. } => layout,
            BlockView::Table { layout, .. } => layout,
            BlockView::Image { layout, .. } => layout,
            BlockView::Attachment { layout, .. } => layout,
            BlockView::Ink { layout, .. } => layout,
            BlockView::Unsupported { layout, .. } => layout,
        }
    }
}

/// The view of a table's rows.
pub open spec fn rows_view(rows: Seq<Vec<String>>) -> Seq<Seq<Seq<char>>> {
    rows.map_values(|row: Vec<String>| row@.map_values(|cell: String| cell@))
}

/// The view of a list of strokes.
pub open spec fn strokes_view(strokes: Seq<EditorStroke>) -> Seq<StrokeView> {
    strokes.map_values(|s: EditorStroke| s@)
}

impl View for EditorBlock {
    type V = BlockView;

    open spec fn view(&self) -> BlockView {
        match self {
            EditorBlock::Text { id, text, indent, layout } => BlockView::Text {
                id: *id,
                text: text@,
                indent: *indent,
                layout: *layout,
            },
            EditorBlock::Table { id, rows, layout } => BlockView::Table {
                id: *id,
                rows: rows_view(rows@),
                layout: *layout,
            },
            EditorBlock::Image { id, asset_id, layout } => BlockView::Image {
                id: *id,
                asset_id: *asset_id,
                layout: *layout,
            },
            EditorBlock::Attachment { id, asset_id, layout } => BlockView::Attachment {
                id: *id,
                asset_id: *asset_id,
                layout: *layout,
            },
            EditorBlock::Ink { id, stroke_count, strokes, layout } => BlockView::Ink {
                id: *id,
                stroke_count: *stroke_count,
                strokes: strokes_view(strokes@),
                layout: *layout,
            },
            EditorBlock::Unsupported { id, description, layout } => BlockView::Unsupported {
                id: *id,
                description: description@,
                layout: *layout,
            },
        }
    }
}

impl EditorBlock {
    /// The block's identifier.
    pub fn id(&self) -> (r: u64)
        ensures
            r == self@.id(),
    {
        match self {
            EditorBlock::Text { id, .. } => *id,
            EditorBlock::Table { id, .. } => *id,
            EditorBlock::Image { id, .. } => *id,
            EditorBlock::Attachment { id, .. } => *id,
            EditorBlock::Ink { id, .. } => *id,
            EditorBlock::Unsupported { id, .. } => *id,
        }
    }

    /// The block's position and size, to be changed in place.
    pub fn layout_mut(&mut self) -> (r: &mut CanvasLayout)
        ensures
            *r == old(self)@.layout(),
            final(self)@ == old(self)@.with_layout(*final(r)),
    {
        match self {
            EditorBlock::Text { layout, .. } => layout,
            EditorBlock::Table { layout, .. } => layout,
            EditorBlock::Image { layout, .. } => layout,
            EditorBlock::Attachment { layout, .. } => layout,
            EditorBlock::Ink { layout, .. } => layout,
            EditorBlock::Unsupported { layout, .. } => layout,
        }
    }

    /// The block's position and size.
    pub fn layout(&self) -> (r: CanvasLayout)
        ensures
            r == self@.layout(),
    {
        match self {
            EditorBlock::Text { layout, .. } => *layout,
            EditorBlock::Table { layout, .. } => *layout,
            EditorBlock::Image { layout, .. } => *layout,
            EditorBlock::Attachment { layout, .. } => *layout,
            EditorBlock::Ink { layout, .. } => *layout,
            EditorBlock::Unsupported { layout, .. } => *layout,
        }
    }
}

/// The view of an optional string.
pub open spec fn opt_view(o: Option<String>) -> Option<Seq<char>> {
    match o {
        Some(s) => Some(s@),
        None => None,
    }
}

/// A page of positioned blocks.
#[derive(Debug)]
pub struct EditorPage {
    pub id: u64,
    pub title: String,
    pub level: i32,
    pub author: Option<String>,
    pub created_at: String,
    pub updated_at: String,
    pub canvas_width: u32,
    pub canvas_height: u32,
    pub blocks: Vec<EditorBlock>,
}

/// Mathematical view of a page.
pub struct PageView {
    pub id: u64,
    pub title: Seq<char>,
    pub level: i32,
    pub author: Option<Seq<char>>,
    pub created_at: Seq<char>,
    pub updated_at: Seq<char>,
    pub canvas_width: u32,
    pub canvas_height: u32,
    pub blocks: Seq<BlockView>,
}

/// The view of a list of blocks.
pub open spec fn blocks_view(blocks: Seq<EditorBlock>) -> Seq<BlockView> {
    blocks.map_values(|b: EditorBlock| b@)
}

impl View for EditorPage {
    type V = PageView;

    open spec fn view(&self) -> PageView {
        PageView {
            id: self.id,
            title: self.title@,
            level: self.level,
            author: opt_view(self.author),
            created_at: self.created_at@,
            updated_at: self.updated_at@,
            canvas_width: self.canvas_width,
            canvas_height: self.canvas_height,
            blocks: blocks_view(self.blocks@),
        }
    }
}

/// A named list of pages.
#[derive(Debug)]
pub struct EditorSection {
    pub id: u64,
    pub name: String,
    pub pages: Vec<EditorPage>,
}

/// Mathematical view of a section.
pub struct SectionView {
    pub id: u64,
    pub name: Seq<char>,
    pub pages: Seq<PageView>,
}

/// The view of a list of pages.
pub open spec fn pages_view(pages: Seq<EditorPage>) -> Seq<PageView> {
    pages.map_values(|p: EditorPage| p@)
}

impl View for EditorSection {
    type V = SectionView;

    open spec fn view(&self) -> SectionView {
        SectionView { id: self.id, name: self.name@, pages: pages_view(self.pages@) }
    }
}

/// An imported image or attachment. `bytes` is kept beside the working copy,
/// not inside it.
#[derive(Debug)]
pub struct Asset {
    pub id: u64,
    pub filename: String,
    pub media_type: String,
    pub stored_name: String,
    pub size: u64,
    pub bytes: Vec<u8>,
}

/// Mathematical view of an asset.
pub struct AssetView {
    pub id: u64,
    pub filename: Seq<char>,
    pub media_type: Seq<char>,
    pub stored_name: Seq<char>,
    pub size: u64,
    pub bytes: Seq<u8>,
}

impl View for Asset {
    type V = AssetView;

    open spec fn view(&self) -> AssetView {
        AssetView {
            id: self.id,
            filename: self.filename@,
            media_type: self.media_type@,
            stored_name: self.stored_name@,
            size: self.size,
            bytes: self.bytes@,
        }
    }
}

/// The link between a local page and the Microsoft Graph page it was uploaded to.
#[derive(Debug)]
pub struct GraphPageLink {
    pub graph_page_id: String,
    pub uploaded_at: String,
    pub sync_version: u32,
}

/// Mathematical view of a page link.
pub struct LinkView {
    pub graph_page_id: Seq<char>,
    pub uploaded_at: Seq<char>,
    pub sync_version: u32,
}

impl View for GraphPageLink {
    type V = LinkView;

    open spec fn view(&self) -> LinkView {
        LinkView {
            graph_page_id: self.graph_page_id@,
            uploaded_at: self.uploaded_at@,
            sync_version: self.sync_version,
        }
    }
}

/// Where the notebook was last synchronized, and which local pages are linked.
#[derive(Debug)]
pub struct GraphSyncMetadata {
    pub notebook_id: Option<String>,
    pub notebook_name: Option<String>,
    pub section_id: Option<String>,
    pub section_name: Option<String>,
    pub pages: BTreeMap<u64, GraphPageLink>,
}

/// Mathematical view of the synchronization metadata.
pub struct SyncView {
    pub notebook_id: Option<Seq<char>>,
    pub notebook_name: Option<Seq<char>>,
    pub section_id: Option<Seq<char>>,
    pub section_name: Option<Seq<char>>,
    pub pages: Map<u64, LinkView>,
}

impl View for GraphSyncMetadata {
    type V = SyncView;

    open spec fn view(&self) -> SyncView {
        SyncView {
            notebook_id: opt_view(self.notebook_id),
            notebook_name: opt_view(self.notebook_name),
            section_id: opt_view(self.section_id),
            section_name: opt_view(self.section_name),
            pages: self.pages@.map_values(|l: GraphPageLink| l@),
        }
    }
}

impl GraphSyncMetadata {
    /// Metadata of a notebook that was never synchronized.
    pub fn empty() -> (r: GraphSyncMetadata)
        ensures
            r@.notebook_id is None,
            r@.notebook_name is None,
            r@.section_id is None,
            r@.section_name is None,
            r@.pages == Map::<u64, LinkView>::empty(),
    {
        let r = GraphSyncMetadata {
            notebook_id: None,
            notebook_name: None,
            section_id: None,
            section_name: None,
            pages: BTreeMap::new(),
        };
        assert(r@.pages =~= Map::<u64, LinkView>::empty());
        r
    }
}

/// An editable notebook.
#[derive(Debug)]
pub struct Project {
    pub format_version: u32,
    pub name: String,
    pub source: Option<String>,
    pub sections: Vec<EditorSection>,
    pub assets: Vec<Asset>,
    pub next_id: u64,
    pub graph_sync: GraphSyncMetadata,
}

/// Mathematical view of a project.
pub struct ProjectView {
    pub format_version: u32,
    pub name: Seq<char>,
    pub source: Option<Seq<char>>,
    pub sections: Seq<SectionView>,
    pub assets: Seq<AssetView>,
    pub next_id: u64,
    pub graph_sync: SyncView,
}

/// The view of a list of sections.
pub open spec fn sections_view(sections: Seq<EditorSection>) -> Seq<SectionView> {
    sections.map_values(|s: EditorSection| s@)
}

/// The view of a list of assets.
pub open spec fn assets_view(assets: Seq<Asset>) -> Seq<AssetView> {
    assets.map_values(|a: Asset| a@)
}

impl View for Project {
    type V = ProjectView;

    open spec fn view(&self) -> ProjectView {
        ProjectView {
            format_version: self.format_version,
            name: self.name@,
            source: opt_view(self.source),
            sections: sections_view(self.sections@),
            assets: assets_view(self.assets@),
            next_id: self.next_id,
            graph_sync: self.graph_sync@,
        }
    }
}

/// Hands out the identifier `*next_id` and advances the counter by one.
pub fn take_id(next_id: &mut u64) -> (id: u64)
    requires
        *old(next_id) < u64::MAX,
    ensures
        id == *old(next_id),
        *final(next_id) == *old(next_id) + 1,
{
    let id = *next_id;
    *next_id = *next_id + 1;
    id
}

/// The index of the first asset with identifier `id`.
pub open spec fn first_asset_index(assets: Seq<AssetView>, id: u64) -> Option<int> {
    if exists|i: int| 0 <= i < assets.len() && assets[i].id == id {
        let i = choose|i: int|
            0 <= i < assets.len() && assets[i].id == id && forall|j: int|
                0 <= j < i ==> assets[j].id != id;
        Some(i)
    } else {
        None
    }
}

impl Project {
    /// A new notebook with one section holding one page with one empty text box.
    /// Identifiers 1, 2 and 3 go to the section, the page and the text box.
    pub fn empty() -> (r: Project)
        ensures
            r@.format_version == FORMAT_VERSION,
            r@.name == "New notebook"@,
            r@.source is None,
            r@.assets.len() == 0,
            r@.next_id == 4,
            r@.graph_sync.pages == Map::<u64, LinkView>::empty(),
            r@.graph_sync.notebook_id is None && r@.graph_sync.notebook_name is None
                && r@.graph_sync.section_id is None && r@.graph_sync.section_name is None,
            r@.sections.len() == 1,
            r@.sections[0].id == 1,
            r@.sections[0].name == "Section"@,
            r@.sections[0].pages.len() == 1,
            r@.sections[0].pages[0] == (PageView {
                id: 2,
                title: "New page"@,
                level: 0,
                author: None,
                created_at: Seq::<char>::empty(),
                updated_at: Seq::<char>::empty(),
                canvas_width: DEFAULT_CANVAS_WIDTH,
                canvas_height: DEFAULT_CANVAS_HEIGHT,
                blocks: seq![
                    BlockView::Text {
                        id: 3,
                        text: Seq::<char>::empty(),
                        indent: 0,
                        layout: default_canvas_layout(),
                    },
                ],
            }),
    {
        let mut project = Project {
            format_version: FORMAT_VERSION,
            name: String::from_str("New notebook"),
            source: None,
            sections: Vec::new(),
            assets: Vec::new(),
            next_id: 1,
            graph_sync: GraphSyncMetadata::empty(),
        };
        let section_id = project.allocate_id();
        let page_id = project.allocate_id();
        let block_id = project.allocate_id();
        assert(project.sections@.len() == 0) by {
            assert(project@.sections.len() == 0);
        }
        let mut blocks: Vec<EditorBlock> = Vec::new();
        blocks.push(
            EditorBlock::Text {
                id: block_id,
                text: String::new(),
                indent: 0,
                layout: CanvasLayout::default_layout(),
            },
        );
        let mut pages: Vec<EditorPage> = Vec::new();
        pages.push(
            EditorPage {
                id: page_id,
                title: String::from_str("New page"),
                level: 0,
                author: None,
                created_at: String::new(),
                updated_at: String::new(),
                canvas_width: DEFAULT_CANVAS_WIDTH,
                canvas_height: DEFAULT_CANVAS_HEIGHT,
                blocks,
            },
        );
        project.sections.push(
            EditorSection { id: section_id, name: String::from_str("Section"), pages },
        );
        proof {
            assert(project@.sections.len() == 1);
            assert(project.sections@[0].pages@.len() == 1);
            assert(project.sections@[0].pages@[0].blocks@.len() == 1);
            assert(project@.sections[0].pages[0].blocks =~= seq![
                BlockView::Text {
                    id: 3,
                    text: Seq::<char>::empty(),
                    indent: 0,
                    layout: default_canvas_layout(),
                },
            ]);
        }
        project
    }

    /// Hands out the next free identifier.
    pub fn allocate_id(&mut self) -> (id: u64)
        requires
            old(self).next_id < u64::MAX,
        ensures
            id == old(self).next_id,
            final(self)@ == (ProjectView { next_id: (id + 1) as u64, ..old(self)@ }),
    {
        take_id(&mut self.next_id)
    }

    /// The first asset with identifier `id`, if any.
    pub fn asset(&self, id: u64) -> (r: Option<&Asset>)
        ensures
            match first_asset_index(self@.assets, id) {
                Some(i) => r is Some && r->0@ == self@.assets[i],
                None => r is None,
            },
    {
        let mut i: usize = 0;
        while i < self.assets.len()
            invariant
                i <= self.assets@.len(),
                forall|j: int| 0 <= j < i ==> self@.assets[j].id != id,
            decreases self.assets@.len() - i,
        {
            if self.assets[i].id == id {
                assert(self@.assets[i as int].id == id);
                return Some(&self.assets[i]);
            }
            i = i + 1;
        }
        None
    }
}

/// The selection kept when a list shrinks to `remaining` items: the selected
/// index while it still names an item, else the last item (0 for an empty
/// list).
pub open spec fn clamped_selection(selected: int, remaining: int) -> int {
    if remaining <= 0 {
        0
    } else if selected < remaining {
        selected
    } else {
        remaining - 1
    }
}

/// Removes the item at `index` (a page or a section) and gives the index
/// selected afterwards: `selected` while it still names an item, else the
/// last item left.
pub fn remove_and_reselect<T>(items: &mut Vec<T>, index: usize, selected: usize) -> (r: usize)
    requires
        index < old(items).len(),
    ensures
        final(items)@ == old(items)@.remove(index as int),
        r == clamped_selection(selected as int, final(items)@.len() as int),
{
    items.remove(index);
    let remaining = items.len();
    if remaining == 0 {
        0
    } else if selected < remaining {
        selected
    } else {
        remaining - 1
    }
}

/// Appends an item (a new page or section) and gives its index, which becomes
/// the selection.
pub fn push_selected<T>(items: &mut Vec<T>, item: T) -> (r: usize)
    ensures
        final(items)@ == old(items)@.push(item),
        r == old(items)@.len(),
        r + 1 == final(items)@.len(),
{
    let r = items.len();
    items.push(item);
    r
}

/// A new page titled "New page" holding one empty text box, with a
/// default-size canvas.
pub fn empty_page(id: u64, block_id: u64) -> (r: EditorPage)
    ensures
        r@ == (PageView {
            id,
            title: "New page"@,
            level: 0,
            author: None,
            created_at: Seq::<char>::empty(),
            updated_at: Seq::<char>::empty(),
            canvas_width: DEFAULT_CANVAS_WIDTH,
            canvas_height: DEFAULT_CANVAS_HEIGHT,
            blocks: seq![
                BlockView::Text {
                    id: block_id,
                    text: Seq::<char>::empty(),
                    indent: 0,
                    layout: default_canvas_layout(),
                },
            ],
        }),
{
    let mut blocks: Vec<EditorBlock> = Vec::new();
    blocks.push(
        EditorBlock::Text { id: block_id, text: String::new(), indent: 0, layout: CanvasLayout::default_layout() },
    );
    let page = EditorPage {
        id,
        title: String::from_str("New page"),
        level: 0,
        author: None,
        created_at: String::new(),
        updated_at: String::new(),
        canvas_width: DEFAULT_CANVAS_WIDTH,
        canvas_height: DEFAULT_CANVAS_HEIGHT,
        blocks,
    };
    assert(page@.blocks =~= seq![
        BlockView::Text {
            id: block_id,
            text: Seq::<char>::empty(),
            indent: 0,
            layout: default_canvas_layout(),
        },
    ]);
    page
}

/// A new, empty section named "New section".
pub fn new_section(id: u64) -> (r: EditorSection)
    ensures
        r@ == (SectionView { id, name: "New section"@, pages: Seq::empty() }),
{
    let r = EditorSection { id, name: String::from_str("New section"), pages: Vec::new() };
    assert(r@.pages =~= Seq::<PageView>::empty());
    r
}

/// A new empty text box at the default position.
pub fn new_text_box(id: u64) -> (r: EditorBlock)
    ensures
        r@ == (BlockView::Text {
            id,
            text: Seq::<char>::empty(),
            indent: 0,
            layout: default_canvas_layout(),
        }),
{
    EditorBlock::Text { id, text: String::new(), indent: 0, layout: CanvasLayout::default_layout() }
}

/// The layout of a new table: 120, 180, 520 x 180 px.
pub open spec fn new_table_layout() -> CanvasLayout {
    CanvasLayout { x: PIXELS_120, y: PIXELS_180, width: PIXELS_520, height: PIXELS_180 }
}

/// A new two-column table with a header row and one empty row.
pub fn new_table(id: u64) -> (r: EditorBlock)
    ensures
        r@ == (BlockView::Table {
            id,
            rows: seq![
                seq!["Column 1"@, "Column 2"@],
                seq![Seq::<char>::empty(), Seq::<char>::empty()],
            ],
            layout: new_table_layout(),
        }),
{
    let mut header: Vec<String> = Vec::new();
    header.push(String::from_str("Column 1"));
    header.push(String::from_str("Column 2"));
    let mut empty: Vec<String> = Vec::new();
    empty.push(String::new());
    empty.push(String::new());
    let mut rows: Vec<Vec<String>> = Vec::new();
    rows.push(header);
    rows.push(empty);
    let r = EditorBlock::Table {
        id,
        rows,
        layout: CanvasLayout { x: PIXELS_120, y: PIXELS_180, width: PIXELS_520, height: PIXELS_180 },
    };
    assert(rows_view(rows@) =~= seq![
        seq!["Column 1"@, "Column 2"@],
        seq![Seq::<char>::empty(), Seq::<char>::empty()],
    ]) by {
        assert(rows_view(rows@)[0] =~= seq!["Column 1"@, "Column 2"@]);
        assert(rows_view(rows@)[1] =~= seq![Seq::<char>::empty(), Seq::<char>::empty()]);
    }
    r
}

/// The blocks of a page without the one with identifier `id`.
pub open spec fn without_block(blocks: Seq<BlockView>, id: u64) -> Seq<BlockView> {
    blocks.filter(|b: BlockView| b.id() != id)
}

impl EditorPage {
    /// Deletes the blocks with identifier `id`. Returns whether one was there.
    pub fn remove_block(&mut self, id: u64) -> (removed: bool)
        ensures
            final(self)@ == (PageView { blocks: without_block(old(self)@.blocks, id), ..old(self)@ }),
            removed == (without_block(old(self)@.blocks, id).len() != old(self)@.blocks.len()),
    {
        let ghost before = self@.blocks;
        let mut kept: Vec<EditorBlock> = Vec::new();
        let mut source: Vec<EditorBlock> = Vec::new();
        std::mem::swap(&mut source, &mut self.blocks);
        let ghost all = source@;
        let original_len = source.len();
        assert(blocks_view(all) == before);
        let mut i: usize = 0;
        while source.len() > 0
            invariant
                i + source@.len() == all.len(),
                all.len() == original_len,
                source@ == all.skip(i as int),
                blocks_view(kept@) == without_block(blocks_view(all.take(i as int)), id),
            decreases source@.len(),
        {
            let block = source.remove(0);
            assert(block == all[i as int]);
            proof {
                let v = blocks_view(all.take(i + 1));
                assert(v.drop_last() =~= blocks_view(all.take(i as int)));
                assert(v.last() == block@);
                assert(v =~= blocks_view(all.take(i as int)).push(block@));
                reveal(Seq::filter);
            }
            if block.id() != id {
                kept.push(block);
            }
            i = i + 1;
            assert(source@ =~= all.skip(i as int));
        }
        assert(all.take(i as int) =~= all);
        self.blocks = kept;
        let n = self.blocks.len();
        proof {
            assert(blocks_view(self.blocks@).len() == n);
        }
        n != original_len
    }
}

// ---------------------------------------------------------------------------
// Comparing values by their views.
// ---------------------------------------------------------------------------

/// Whether two optional strings read the same.
pub fn opt_string_eq(a: &Option<String>, b: &Option<String>) -> (r: bool)
    ensures
        r == (opt_view(*a) == opt_view(*b)),
{
    match (a, b) {
        (Some(x), Some(y)) => *x == *y,
        (None, None) => true,
        _ => false,
    }
}

/// A pixel value (bit pattern of an `f32`) that is not finite: infinite or
/// not a number.
pub open spec fn non_finite_pixel(a: u32) -> bool {
    (a / 0x80_0000) % 0x100 == 0xff
}

/// Two pixel values (bit patterns of `f32`) that are the same value once
/// written as JSON: the same bits, zero of either sign, or both not finite
/// (written as `null`).
pub open spec fn same_pixel(a: u32, b: u32) -> bool {
    ||| a == b
    ||| a % 0x8000_0000 == 0 && b % 0x8000_0000 == 0
    ||| non_finite_pixel(a) && non_finite_pixel(b)
}

/// Two layouts whose four pixel values are the same once written as JSON.
pub open spec fn same_layout(a: CanvasLayout, b: CanvasLayout) -> bool {
    &&& same_pixel(a.x, b.x)
    &&& same_pixel(a.y, b.y)
    &&& same_pixel(a.width, b.width)
    &&& same_pixel(a.height, b.height)
}

/// Two ink points that are the same once written as JSON.
pub open spec fn same_point(a: CanvasPoint, b: CanvasPoint) -> bool {
    same_pixel(a.x, b.x) && same_pixel(a.y, b.y)
}

/// Two strokes that are the same once written as JSON.
pub open spec fn same_stroke(a: StrokeView, b: StrokeView) -> bool {
    &&& a.points.len() == b.points.len()
    &&& forall|i: int| 0 <= i < a.points.len() ==> same_point(#[trigger] a.points[i], b.points[i])
    &&& a.color == b.color
    &&& same_pixel(a.width, b.width)
    &&& a.point_widths.len() == b.point_widths.len()
    &&& forall|i: int|
        0 <= i < a.point_widths.len() ==> same_pixel(#[trigger] a.point_widths[i], b.point_widths[i])
}

/// Two stroke lists that are the same once written as JSON.
pub open spec fn same_strokes(a: Seq<StrokeView>, b: Seq<StrokeView>) -> bool {
    &&& a.len() == b.len()
    &&& forall|i: int| 0 <= i < a.len() ==> same_stroke(#[trigger] a[i], b[i])
}

/// Whether two pixel values are the same once written as JSON.
pub fn pixel_agrees(a: u32, b: u32) -> (r: bool)
    ensures
        r == same_pixel(a, b),
{
    a == b || (a % 0x8000_0000 == 0 && b % 0x8000_0000 == 0) || ((a / 0x80_0000) % 0x100 == 0xff && (b
        / 0x80_0000) % 0x100 == 0xff)
}

/// Whether two layouts are the same once written as JSON.
pub fn layout_agrees(a: &CanvasLayout, b: &CanvasLayout) -> (r: bool)
    ensures
        r == same_layout(*a, *b),
{
    pixel_agrees(a.x, b.x) && pixel_agrees(a.y, b.y) && pixel_agrees(a.width, b.width)
        && pixel_agrees(a.height, b.height)
}

/// Whether two strokes are the same once written as JSON.
fn stroke_agrees(a: &EditorStroke, b: &EditorStroke) -> (r: bool)
    ensures
        r == same_stroke(a@, b@),
{
    let colors = a.color[0] == b.color[0] && a.color[1] == b.color[1] && a.color[2] == b.color[2]
        && a.color[3] == b.color[3];
    proof {
        if colors {
            assert(a.color@ =~= b.color@);
            assert(a.color == b.color);
        }
    }
    if !(colors && pixel_agrees(a.width, b.width) && a.points.len() == b.points.len()
        && a.point_widths.len() == b.point_widths.len()) {
        return false;
    }
    let mut i: usize = 0;
    while i < a.points.len()
        invariant
            i <= a.points@.len(),
            a.points@.len() == b.points@.len(),
            forall|j: int| 0 <= j < i ==> same_point(#[trigger] a.points@[j], b.points@[j]),
        decreases a.points@.len() - i,
    {
        if !(pixel_agrees(a.points[i].x, b.points[i].x) && pixel_agrees(a.points[i].y, b.points[i].y)) {
            return false;
        }
        i = i + 1;
    }
    let mut k: usize = 0;
    while k < a.point_widths.len()
        invariant
            k <= a.point_widths@.len(),
            a.point_widths@.len() == b.point_widths@.len(),
            forall|j: int| 0 <= j < k ==> same_pixel(#[trigger] a.point_widths@[j], b.point_widths@[j]),
        decreases a.point_widths@.len() - k,
    {
        if !pixel_agrees(a.point_widths[k], b.point_widths[k]) {
            return false;
        }
        k = k + 1;
    }
    true
}

/// Whether two stroke lists are the same once written as JSON.
pub fn strokes_agree(a: &Vec<EditorStroke>, b: &Vec<EditorStroke>) -> (r: bool)
    ensures
        r == same_strokes(strokes_view(a@), strokes_view(b@)),
{
    let ghost av = strokes_view(a@);
    let ghost bv = strokes_view(b@);
    if a.len() != b.len() {
        assert(av.len() != bv.len());
        return false;
    }
    let mut i: usize = 0;
    while i < a.len()
        invariant
            i <= a@.len(),
            a@.len() == b@.len(),
            av == strokes_view(a@),
            bv == strokes_view(b@),
            forall|j: int| 0 <= j < i ==> same_stroke(#[trigger] av[j], bv[j]),
        decreases a@.len() - i,
    {
        if !stroke_agrees(&a[i], &b[i]) {
            assert(!same_stroke(av[i as int], bv[i as int]));
            return false;
        }
        i = i + 1;
    }
    true
}

} // verus!
