//! Undo and redo of page edits: snapshots of a page's blocks and canvas size,
//! kept on two bounded stacks.

use crate::model::{
    blocks_view, rows_view, strokes_view, BlockView, CanvasPoint, EditorBlock, EditorPage,
    EditorStroke, PageView,
};
use vstd::prelude::*;

verus! {

/// How many snapshots each stack keeps; the oldest is dropped beyond that.
pub const HISTORY_LIMIT: usize = 64;

/// The blocks and canvas size of a page at one moment.
#[derive(Debug)]
pub struct PageSnapshot {
    pub blocks: Vec<EditorBlock>,
    pub canvas_width: u32,
    pub canvas_height: u32,
}

/// Mathematical view of a snapshot.
pub struct SnapshotView {
    pub blocks: Seq<BlockView>,
    pub canvas_width: u32,
    pub canvas_height: u32,
}

impl View for PageSnapshot {
    type V = SnapshotView;

    open spec fn view(&self) -> SnapshotView {
        SnapshotView {
            blocks: blocks_view(self.blocks@),
            canvas_width: self.canvas_width,
            canvas_height: self.canvas_height,
        }
    }
}

/// The snapshot of a page.
pub open spec fn snapshot_of(page: PageView) -> SnapshotView {
    SnapshotView { blocks: page.blocks, canvas_width: page.canvas_width, canvas_height: page.canvas_height }
}

/// A page with the blocks and canvas size of a snapshot.
pub open spec fn restored(page: PageView, s: SnapshotView) -> PageView {
    PageView { blocks: s.blocks, canvas_width: s.canvas_width, canvas_height: s.canvas_height, ..page }
}

/// A copy of a list of points.
fn copy_points(points: &Vec<CanvasPoint>) -> (r: Vec<CanvasPoint>)
    ensures
        r@ == points@,
{
    let mut r: Vec<CanvasPoint> = Vec::new();
    let mut i: usize = 0;
    while i < points.len()
        invariant
            i <= points@.len(),
            r@ == points@.take(i as int),
        decreases points@.len() - i,
    {
        r.push(points[i]);
        i = i + 1;
        assert(points@.take(i as int) =~= points@.take(i - 1).push(points@[i - 1]));
    }
    assert(points@.take(points@.len() as int) =~= points@);
    r
}

/// A copy of a list of widths.
fn copy_widths(widths: &Vec<u32>) -> (r: Vec<u32>)
    ensures
        r@ == widths@,
{
    let mut r: Vec<u32> = Vec::new();
    let mut i: usize = 0;
    while i < widths.len()
        invariant
            i <= widths@.len(),
            r@ == widths@.take(i as int),
        decreases widths@.len() - i,
    {
        r.push(widths[i]);
        i = i + 1;
        assert(widths@.take(i as int) =~= widths@.take(i - 1).push(widths@[i - 1]));
    }
    assert(widths@.take(widths@.len() as int) =~= widths@);
    r
}

/// A copy of a list of strokes.
pub fn copy_strokes(strokes: &Vec<EditorStroke>) -> (r: Vec<EditorStroke>)
    ensures
        strokes_view(r@) == strokes_view(strokes@),
{
    let mut r: Vec<EditorStroke> = Vec::new();
    let mut i: usize = 0;
    while i < strokes.len()
        invariant
            i <= strokes@.len(),
            strokes_view(r@) == strokes_view(strokes@.take(i as int)),
        decreases strokes@.len() - i,
    {
        let s = &strokes[i];
        r.push(
            EditorStroke {
                points: copy_points(&s.points),
                color: s.color,
                width: s.width,
                point_widths: copy_widths(&s.point_widths),
            },
        );
        i = i + 1;
        assert(strokes_view(strokes@.take(i as int)) =~= strokes_view(strokes@.take(i - 1)).push(
            strokes@[i - 1]@,
        ));
        assert(strokes_view(r@) =~= strokes_view(r@.drop_last()).push(r@.last()@));
    }
    assert(strokes@.take(strokes@.len() as int) =~= strokes@);
    r
}

/// A copy of one row of table cells.
fn copy_row(row: &Vec<String>) -> (r: Vec<String>)
    ensures
        r@.map_values(|c: String| c@) == row@.map_values(|c: String| c@),
{
    let mut r: Vec<String> = Vec::new();
    let mut i: usize = 0;
    while i < row.len()
        invariant
            i <= row@.len(),
            r@.map_values(|c: String| c@) == row@.take(i as int).map_values(|c: String| c@),
        decreases row@.len() - i,
    {
        r.push(row[i].clone());
        i = i + 1;
        assert(row@.take(i as int).map_values(|c: String| c@) =~= row@.take(i - 1).map_values(
            |c: String| c@,
        ).push(row@[i - 1]@));
        assert(r@.map_values(|c: String| c@) =~= r@.drop_last().map_values(|c: String| c@).push(
            r@.last()@,
        ));
    }
    assert(row@.take(row@.len() as int) =~= row@);
    r
}

/// A copy of the rows of a table.
fn copy_rows(rows: &Vec<Vec<String>>) -> (r: Vec<Vec<String>>)
    ensures
        rows_view(r@) == rows_view(rows@),
{
    let mut r: Vec<Vec<String>> = Vec::new();
    let mut i: usize = 0;
    while i < rows.len()
        invariant
            i <= rows@.len(),
            rows_view(r@) == rows_view(rows@.take(i as int)),
        decreases rows@.len() - i,
    {
        r.push(copy_row(&rows[i]));
        i = i + 1;
        assert(rows_view(rows@.take(i as int)) =~= rows_view(rows@.take(i - 1)).push(
            rows@[i - 1]@.map_values(|c: String| c@),
        ));
        assert(rows_view(r@) =~= rows_view(r@.drop_last()).push(
            r@.last()@.map_values(|c: String| c@),
        ));
    }
    assert(rows@.take(rows@.len() as int) =~= rows@);
    r
}

/// A copy of a block.
pub fn copy_block(block: &EditorBlock) -> (r: EditorBlock)
    ensures
        r@ == block@,
{
    match block {
        EditorBlock::Text { id, text, indent, layout } => EditorBlock::Text {
            id: *id,
            text: text.clone(),
            indent: *indent,
            layout: *layout,
        },
        EditorBlock::Table { id, rows, layout } => EditorBlock::Table {
            id: *id,
            rows: copy_rows(rows),
            layout: *layout,
        },
        EditorBlock::Image { id, asset_id, layout } => EditorBlock::Image {
            id: *id,
            asset_id: *asset_id,
            layout: *layout,
        },
        EditorBlock::Attachment { id, asset_id, layout } => EditorBlock::Attachment {
            id: *id,
            asset_id: *asset_id,
            layout: *layout,
        },
        EditorBlock::Ink { id, stroke_count, strokes, layout } => EditorBlock::Ink {
            id: *id,
            stroke_count: *stroke_count,
            strokes: copy_strokes(strokes),
            layout: *layout,
        },
        EditorBlock::Unsupported { id, description, layout } => EditorBlock::Unsupported {
            id: *id,
            description: description.clone(),
            layout: *layout,
        },
    }
}

/// A copy of a list of blocks.
pub fn copy_blocks(blocks: &Vec<EditorBlock>) -> (r: Vec<EditorBlock>)
    ensures
        blocks_view(r@) == blocks_view(blocks@),
{
    let mut r: Vec<EditorBlock> = Vec::new();
    let mut i: usize = 0;
    while i < blocks.len()
        invariant
            i <= blocks@.len(),
            blocks_view(r@) == blocks_view(blocks@.take(i as int)),
        decreases blocks@.len() - i,
    {
        r.push(copy_block(&blocks[i]));
        i = i + 1;
        assert(blocks_view(blocks@.take(i as int)) =~= blocks_view(blocks@.take(i - 1)).push(
            blocks@[i - 1]@,
        ));
        assert(blocks_view(r@) =~= blocks_view(r@.drop_last()).push(r@.last()@));
    }
    assert(blocks@.take(blocks@.len() as int) =~= blocks@);
    r
}

impl PageSnapshot {
    /// The snapshot of a page as it is now.
    pub fn capture(page: &EditorPage) -> (r: PageSnapshot)
        ensures
            r@ == snapshot_of(page@),
    {
        PageSnapshot {
            blocks: copy_blocks(&page.blocks),
            canvas_width: page.canvas_width,
            canvas_height: page.canvas_height,
        }
    }

    /// Puts the snapshot's blocks and canvas size back into a page.
    pub fn restore(self, page: &mut EditorPage)
        ensures
            final(page)@ == restored(old(page)@, self@),
    {
        page.blocks = self.blocks;
        page.canvas_width = self.canvas_width;
        page.canvas_height = self.canvas_height;
    }
}

/// The view of a stack of snapshots.
pub open spec fn stack_view(stack: Seq<PageSnapshot>) -> Seq<SnapshotView> {
    stack.map_values(|s: PageSnapshot| s@)
}

/// A stack after a snapshot is pushed: a full stack drops its oldest entry.
pub open spec fn pushed(stack: Seq<SnapshotView>, s: SnapshotView) -> Seq<SnapshotView> {
    if stack.len() == HISTORY_LIMIT {
        stack.drop_first().push(s)
    } else {
        stack.push(s)
    }
}

/// Pushes a snapshot, dropping the oldest one from a full stack.
pub fn push_history(stack: &mut Vec<PageSnapshot>, snapshot: PageSnapshot)
    ensures
        stack_view(final(stack)@) == pushed(stack_view(old(stack)@), snapshot@),
{
    let ghost s = snapshot@;
    if stack.len() == HISTORY_LIMIT {
        stack.remove(0);
    }
    stack.push(snapshot);
    proof {
        let before = stack_view(old(stack)@);
        if before.len() == HISTORY_LIMIT {
            assert(stack_view(stack@) =~= before.drop_first().push(s));
        } else {
            assert(stack_view(stack@) =~= before.push(s));
        }
    }
}

/// Moves a pending snapshot onto the undo stack and clears the redo stack;
/// without a pending snapshot nothing changes.
pub fn commit_pending_history(
    pending: &mut Option<PageSnapshot>,
    undo_stack: &mut Vec<PageSnapshot>,
    redo_stack: &mut Vec<PageSnapshot>,
)
    ensures
        *final(pending) is None,
        match *old(pending) {
            Some(s) => stack_view(final(undo_stack)@) == pushed(stack_view(old(undo_stack)@), s@)
                && final(redo_stack)@.len() == 0,
            None => final(undo_stack)@ == old(undo_stack)@ && final(redo_stack)@ == old(redo_stack)@,
        },
{
    match pending.take() {
        Some(snapshot) => {
            push_history(undo_stack, snapshot);
            redo_stack.clear();
        },
        None => {},
    }
}

/// The undo and redo stacks of the page being edited, and the snapshot taken
/// when an edit in progress began.
#[derive(Debug)]
pub struct PageHistory {
    pub undo_stack: Vec<PageSnapshot>,
    pub redo_stack: Vec<PageSnapshot>,
    pub pending: Option<PageSnapshot>,
}

/// Mathematical view of the history.
pub struct HistoryView {
    pub undo: Seq<SnapshotView>,
    pub redo: Seq<SnapshotView>,
    pub pending: Option<SnapshotView>,
}

impl View for PageHistory {
    type V = HistoryView;

    open spec fn view(&self) -> HistoryView {
        HistoryView {
            undo: stack_view(self.undo_stack@),
            redo: stack_view(self.redo_stack@),
            pending: match self.pending {
                Some(s) => Some(s@),
                None => None,
            },
        }
    }
}

/// The history after a finished edit whose earlier state is `s`.
pub open spec fn after_record(h: HistoryView, s: SnapshotView) -> HistoryView {
    HistoryView { undo: pushed(h.undo, s), redo: Seq::empty(), ..h }
}

/// The history and page after an undo (unchanged when there is nothing to undo).
pub open spec fn after_undo(h: HistoryView, page: PageView) -> (HistoryView, PageView) {
    if h.undo.len() == 0 {
        (h, page)
    } else {
        (
            HistoryView {
                undo: h.undo.drop_last(),
                redo: pushed(h.redo, snapshot_of(page)),
                pending: None,
            },
            restored(page, h.undo.last()),
        )
    }
}

/// The history and page after a redo (unchanged when there is nothing to redo).
pub open spec fn after_redo(h: HistoryView, page: PageView) -> (HistoryView, PageView) {
    if h.redo.len() == 0 {
        (h, page)
    } else {
        (
            HistoryView {
                undo: pushed(h.undo, snapshot_of(page)),
                redo: h.redo.drop_last(),
                pending: None,
            },
            restored(page, h.redo.last()),
        )
    }
}

impl PageHistory {
    /// An empty history.
    pub fn new() -> (r: PageHistory)
        ensures
            r@.undo.len() == 0,
            r@.redo.len() == 0,
            r@.pending is None,
    {
        PageHistory { undo_stack: Vec::new(), redo_stack: Vec::new(), pending: None }
    }

    /// Forgets everything, as when another page is opened.
    pub fn clear(&mut self)
        ensures
            final(self)@.undo.len() == 0,
            final(self)@.redo.len() == 0,
            final(self)@.pending is None,
    {
        self.undo_stack.clear();
        self.redo_stack.clear();
        self.pending = None;
    }

    /// Whether there is an edit to undo.
    pub fn can_undo(&self) -> (r: bool)
        ensures
            r == (self@.undo.len() > 0),
    {
        self.undo_stack.len() > 0
    }

    /// Whether there is an undone edit to redo.
    pub fn can_redo(&self) -> (r: bool)
        ensures
            r == (self@.redo.len() > 0),
    {
        self.redo_stack.len() > 0
    }

    /// Records a finished edit whose earlier state is `snapshot`.
    pub fn record(&mut self, snapshot: PageSnapshot)
        ensures
            final(self)@ == after_record(old(self)@, snapshot@),
    {
        push_history(&mut self.undo_stack, snapshot);
        self.redo_stack.clear();
        assert(stack_view(self.redo_stack@) =~= Seq::empty());
    }

    /// Takes a snapshot of `page` as the earlier state of the edit that is
    /// starting, unless an edit is already in progress.
    pub fn begin_edit(&mut self, page: &EditorPage)
        ensures
            final(self)@ == (HistoryView {
                pending: match old(self)@.pending {
                    Some(s) => Some(s),
                    None => Some(snapshot_of(page@)),
                },
                ..old(self)@
            }),
    {
        if self.pending.is_none() {
            self.pending = Some(PageSnapshot::capture(page));
        }
    }

    /// Finishes the edit in progress, recording its earlier state.
    pub fn commit(&mut self)
        ensures
            final(self)@ == match old(self)@.pending {
                Some(s) => HistoryView { pending: None, ..after_record(old(self)@, s) },
                None => old(self)@,
            },
    {
        let ghost before = self@;
        commit_pending_history(&mut self.pending, &mut self.undo_stack, &mut self.redo_stack);
        proof {
            if before.pending is Some {
                assert(stack_view(self.redo_stack@) =~= Seq::<SnapshotView>::empty());
            }
        }
    }

    /// Drops the edit in progress without recording it.
    pub fn discard(&mut self)
        ensures
            final(self)@ == (HistoryView { pending: None, ..old(self)@ }),
    {
        self.pending = None;
    }

    /// Undoes the last edit of `page`. Returns whether there was one.
    pub fn undo(&mut self, page: &mut EditorPage) -> (changed: bool)
        ensures
            changed == (old(self)@.undo.len() > 0),
            (final(self)@, final(page)@) == after_undo(old(self)@, old(page)@),
    {
        let ghost h = self@;
        let snapshot = match self.undo_stack.pop() {
            Some(s) => s,
            None => return false,
        };
        proof {
            assert(stack_view(self.undo_stack@) =~= h.undo.drop_last());
        }
        let current = PageSnapshot::capture(page);
        snapshot.restore(page);
        push_history(&mut self.redo_stack, current);
        self.pending = None;
        true
    }

    /// Redoes the last undone edit of `page`. Returns whether there was one.
    pub fn redo(&mut self, page: &mut EditorPage) -> (changed: bool)
        ensures
            changed == (old(self)@.redo.len() > 0),
            (final(self)@, final(page)@) == after_redo(old(self)@, old(page)@),
    {
        let ghost h = self@;
        let snapshot = match self.redo_stack.pop() {
            Some(s) => s,
            None => return false,
        };
        proof {
            assert(stack_view(self.redo_stack@) =~= h.redo.drop_last());
        }
        let current = PageSnapshot::capture(page);
        snapshot.restore(page);
        push_history(&mut self.undo_stack, current);
        self.pending = None;
        true
    }
}

/// Undoing right after recording an edit gives the page back the blocks and
/// canvas size it had before the edit, whatever the edit did.
pub proof fn lemma_undo_reverts_recorded_edit(h: HistoryView, before: PageView, after: PageView)
    ensures
        after_undo(after_record(h, snapshot_of(before)), after).1 == restored(after, snapshot_of(before)),
        after_undo(after_record(h, snapshot_of(before)), after).1.blocks == before.blocks,
{
}

/// Redoing right after an undo gives the page back the blocks and canvas size
/// it had before the undo.
pub proof fn lemma_redo_reverts_undo(h: HistoryView, page: PageView)
    requires
        h.undo.len() > 0,
    ensures
        after_redo(after_undo(h, page).0, after_undo(h, page).1).1 == restored(
            after_undo(h, page).1,
            snapshot_of(page),
        ),
        after_redo(after_undo(h, page).0, after_undo(h, page).1).1 == page,
{
    let (h1, p1) = after_undo(h, page);
    assert(h1.redo.last() == snapshot_of(page));
}

/// A stack never holds more than `HISTORY_LIMIT` snapshots.
pub proof fn lemma_stacks_stay_bounded(stack: Seq<SnapshotView>, s: SnapshotView)
    requires
        stack.len() <= HISTORY_LIMIT,
    ensures
        pushed(stack, s).len() <= HISTORY_LIMIT,
        pushed(stack, s).last() == s,
{
}

/// A newly recorded edit makes the undone edits unreachable: redo does
/// nothing after it.
pub proof fn lemma_record_clears_redo(h: HistoryView, s: SnapshotView, page: PageView)
    ensures
        after_redo(after_record(h, s), page) == (after_record(h, s), page),
{
}

} // verus!
