//! Planning which edits of a project can be written back into the native
//! notebook it was imported from, and applying such a plan.
//!
//! Only page-title changes and changes of complete paragraphs (text boxes and
//! table cells) are written back; each original text must identify exactly
//! one native paragraph or title, so that the write cannot land elsewhere.

use crate::model::{
    layout_agrees, opt_string_eq, opt_view, pixel_agrees, rows_view, same_layout, same_pixel,
    same_strokes, strokes_agree, Asset, BlockView, EditorBlock, EditorPage, EditorSection, Project,
};
use crate::native::{
    count_exact_paragraphs, count_text_occurrences, entries_retitled, notebook_error,
    notebook_exact, notebook_occurrences, notebook_replaced, replace_notebook_paragraphs,
    result_of, retitle_error, retitle_page, NativeEditError, Notebook,
};
use crate::text::chars_of;
use vstd::prelude::*;

verus! {

/// A planned change of one page title.
#[derive(Debug)]
pub struct TitleEdit {
    /// Depth-first position of the page's section in the native notebook.
    pub section: usize,
    /// Position of the page in its section.
    pub page: usize,
    pub original: String,
    pub replacement: String,
}

/// A planned change of one complete paragraph.
#[derive(Debug)]
pub struct TextEdit {
    pub original: String,
    pub replacement: String,
}

/// The edits that can be written back into a native notebook.
#[derive(Debug)]
pub struct NativeEditPlan {
    pub titles: Vec<TitleEdit>,
    pub paragraphs: Vec<TextEdit>,
}

/// A planned title change as plain values: section, page, original, replacement.
pub type TitleChange = (int, int, Seq<char>, Seq<char>);

/// A planned paragraph change as plain values: original, replacement.
pub type TextChange = (Seq<char>, Seq<char>);

impl NativeEditPlan {
    /// The planned title changes.
    pub open spec fn title_changes(&self) -> Seq<TitleChange> {
        self.titles@.map_values(
            |e: TitleEdit| (e.section as int, e.page as int, e.original@, e.replacement@),
        )
    }

    /// The planned paragraph changes.
    pub open spec fn text_changes(&self) -> Seq<TextChange> {
        self.paragraphs@.map_values(|e: TextEdit| (e.original@, e.replacement@))
    }

    /// Section positions are proper indices.
    pub open spec fn wf(&self) -> bool {
        forall|i: int| 0 <= i < self.titles@.len() ==> #[trigger] self.titles@[i].section < usize::MAX
    }

    /// Whether the plan changes nothing.
    pub fn is_empty(&self) -> (r: bool)
        ensures
            r == (self.titles@.len() == 0 && self.paragraphs@.len() == 0),
    {
        self.titles.len() == 0 && self.paragraphs.len() == 0
    }
}

// ---------------------------------------------------------------------------
// Applying a plan.
// ---------------------------------------------------------------------------

/// `states` are the notebooks passed through while applying the title edits
/// `es` in order.
pub open spec fn title_chain(es: Seq<TitleEdit>, states: Seq<Notebook>) -> bool {
    &&& states.len() == es.len() + 1
    &&& forall|i: int| 0 <= i < es.len() ==> #[trigger] title_step(es[i], states[i], states[i + 1])
}

/// `after` is `before` with the title edits of `es` applied in order.
pub open spec fn titles_applied(es: Seq<TitleEdit>, before: Notebook, after: Notebook) -> bool {
    exists|states: Seq<Notebook>|
        #[trigger] title_chain(es, states) && states[0] == before && states.last() == after
}

/// `after` is `before` with one title edit applied.
pub open spec fn title_step(e: TitleEdit, before: Notebook, after: Notebook) -> bool {
    &&& retitle_error(before.entries@, e.section as int, e.page as int, e.original@) is None
    &&& after.name == before.name
    &&& entries_retitled(
        before.entries@,
        after.entries@,
        e.section as int,
        e.page as int,
        e.replacement,
    )
}

/// `states` are the notebooks passed through while applying the paragraph
/// edits `es` in order.
pub open spec fn paragraph_chain(es: Seq<TextEdit>, states: Seq<Notebook>) -> bool {
    &&& states.len() == es.len() + 1
    &&& forall|i: int|
        0 <= i < es.len() ==> #[trigger] paragraph_step(es[i], states[i], states[i + 1])
}

/// `after` is `before` with the paragraph edits of `es` applied in order.
pub open spec fn paragraphs_applied(es: Seq<TextEdit>, before: Notebook, after: Notebook) -> bool {
    exists|states: Seq<Notebook>|
        #[trigger] paragraph_chain(es, states) && states[0] == before && states.last() == after
}

/// `after` is `before` where the one paragraph reading `e.original` now reads
/// `e.replacement`.
pub open spec fn paragraph_step(e: TextEdit, before: Notebook, after: Notebook) -> bool {
    &&& notebook_error(before, e.original@, e.replacement@) is None
    &&& notebook_exact(before, e.original@) == 1
    &&& notebook_replaced(before, after, e.original@, e.replacement@)
}

/// Why one paragraph edit fails on `n`, if it does.
pub open spec fn paragraph_step_error(e: TextEdit, n: Notebook) -> Option<NativeEditError> {
    match notebook_error(n, e.original@, e.replacement@) {
        Some(x) => Some(x),
        None => if notebook_exact(n, e.original@) != 1 {
            Some(NativeEditError::ParagraphMappingChanged)
        } else {
            None
        },
    }
}

/// Applying the plan turns `before` into `after`: all title edits, then all
/// paragraph edits, each in order.
pub open spec fn plan_applied(plan: NativeEditPlan, before: Notebook, after: Notebook) -> bool {
    exists|mid: Notebook|
        #[trigger] titles_applied(plan.titles@, before, mid) && paragraphs_applied(
            plan.paragraphs@,
            mid,
            after,
        )
}

/// Applying the plan to `before` stops with error `e` at some edit.
pub open spec fn plan_fails_with(plan: NativeEditPlan, before: Notebook, e: NativeEditError) -> bool {
    ||| exists|k: int, mid: Notebook|
        0 <= k < plan.titles@.len() && #[trigger] titles_applied(plan.titles@.take(k), before, mid)
            && retitle_error(
            mid.entries@,
            plan.titles@[k].section as int,
            plan.titles@[k].page as int,
            plan.titles@[k].original@,
        ) == Some(e)
    ||| exists|k: int, mid1: Notebook, mid2: Notebook|
        0 <= k < plan.paragraphs@.len() && #[trigger] titles_applied(plan.titles@, before, mid1)
            && #[trigger] paragraphs_applied(plan.paragraphs@.take(k), mid1, mid2)
            && paragraph_step_error(plan.paragraphs@[k], mid2) == Some(e)
}

impl NativeEditPlan {
    /// Writes the planned edits into the native notebook: each title edit
    /// checks that the page still has its original title; each paragraph edit
    /// must replace exactly one native paragraph.
    pub fn apply(self, notebook: &mut Notebook) -> (r: Result<(), NativeEditError>)
        requires
            self.wf(),
        ensures
            match r {
                Ok(()) => plan_applied(self, *old(notebook), *final(notebook)),
                Err(e) => plan_fails_with(self, *old(notebook), e),
            },
    {
        let ghost start = *notebook;
        let ghost plan = self;
        let ghost mut states: Seq<Notebook> = seq![*notebook];
        let mut i: usize = 0;
        assert(title_chain(self.titles@.take(0), states));
        while i < self.titles.len()
            invariant
                i <= self.titles@.len(),
                self == plan,
                plan.wf(),
                start == *old(notebook),
                title_chain(self.titles@.take(i as int), states),
                states[0] == start,
                states.last() == *notebook,
            decreases self.titles@.len() - i,
        {
            let ghost mid = *notebook;
            let edit = &self.titles[i];
            assert(edit.section < usize::MAX);
            match retitle_page(notebook, edit.section, edit.page, &edit.original, &edit.replacement) {
                Err(e) => {
                    assert(plan_fails_with(plan, start, e)) by {
                        assert(title_chain(plan.titles@.take(i as int), states));
                        assert(titles_applied(plan.titles@.take(i as int), start, mid));
                    }
                    return Err(e);
                },
                Ok(()) => {},
            }
            proof {
                let next = self.titles@.take(i + 1);
                assert(title_step(next[i as int], mid, *notebook));
                states = states.push(*notebook);
                assert(title_chain(next, states)) by {
                    assert forall|k: int| 0 <= k < next.len() implies #[trigger] title_step(
                        next[k],
                        states[k],
                        states[k + 1],
                    ) by {
                        if k < i {
                            assert(next[k] == self.titles@.take(i as int)[k]);
                        }
                    }
                }
            }
            i = i + 1;
        }
        assert(self.titles@.take(i as int) =~= self.titles@);
        let ghost titled = *notebook;
        assert(titles_applied(self.titles@, start, titled));
        let ghost mut pstates: Seq<Notebook> = seq![*notebook];
        let mut j: usize = 0;
        assert(paragraph_chain(self.paragraphs@.take(0), pstates));
        while j < self.paragraphs.len()
            invariant
                j <= self.paragraphs@.len(),
                self == plan,
                start == *old(notebook),
                titles_applied(self.titles@, start, titled),
                paragraph_chain(self.paragraphs@.take(j as int), pstates),
                pstates[0] == titled,
                pstates.last() == *notebook,
            decreases self.paragraphs@.len() - j,
        {
            let ghost mid = *notebook;
            let edit = &self.paragraphs[j];
            let mut replacements: usize = 0;
            match replace_notebook_paragraphs(
                notebook,
                &edit.original,
                &edit.replacement,
                &mut replacements,
            ) {
                Err(e) => {
                    assert(plan_fails_with(plan, start, e)) by {
                        assert(paragraph_chain(plan.paragraphs@.take(j as int), pstates));
                        assert(paragraphs_applied(plan.paragraphs@.take(j as int), titled, mid));
                        assert(paragraph_step_error(plan.paragraphs@[j as int], mid) == Some(e));
                    }
                    return Err(e);
                },
                Ok(()) => {},
            }
            if replacements != 1 {
                assert(plan_fails_with(plan, start, NativeEditError::ParagraphMappingChanged)) by {
                    assert(paragraph_chain(plan.paragraphs@.take(j as int), pstates));
                    assert(paragraphs_applied(plan.paragraphs@.take(j as int), titled, mid));
                    assert(paragraph_step_error(plan.paragraphs@[j as int], mid) == Some(
                        NativeEditError::ParagraphMappingChanged,
                    ));
                }
                return Err(NativeEditError::ParagraphMappingChanged);
            }
            proof {
                let next = self.paragraphs@.take(j + 1);
                assert(paragraph_step(next[j as int], mid, *notebook));
                pstates = pstates.push(*notebook);
                assert(paragraph_chain(next, pstates)) by {
                    assert forall|k: int| 0 <= k < next.len() implies #[trigger] paragraph_step(
                        next[k],
                        pstates[k],
                        pstates[k + 1],
                    ) by {
                        if k < j {
                            assert(next[k] == self.paragraphs@.take(j as int)[k]);
                        }
                    }
                }
            }
            j = j + 1;
        }
        assert(self.paragraphs@.take(j as int) =~= self.paragraphs@);
        assert(paragraphs_applied(self.paragraphs@, titled, *notebook));
        Ok(())
    }
}

// ---------------------------------------------------------------------------
// Planning.
// ---------------------------------------------------------------------------

/// Why an original text is not unique enough for an in-place update, if it is not.
pub open spec fn unique_check(nb: Notebook, t: Seq<char>) -> Option<NativeEditError> {
    if t.len() == 0 || notebook_occurrences(nb, t) != 1 {
        Some(NativeEditError::TextNotUnique)
    } else {
        None
    }
}

/// Why an edited text does not identify exactly one native paragraph, if it
/// does not.
pub open spec fn exact_check(nb: Notebook, t: Seq<char>) -> Option<NativeEditError> {
    if t.len() == 0 || notebook_exact(nb, t) != 1 {
        Some(NativeEditError::AmbiguousParagraph)
    } else {
        unique_check(nb, t)
    }
}

/// The changes among `(original, current)` text pairs, in order, or the
/// first reason one of them cannot be written back.
pub open spec fn pair_edits(pairs: Seq<TextChange>, nb: Notebook) -> Result<
    Seq<TextChange>,
    NativeEditError,
>
    decreases pairs.len(),
{
    if pairs.len() == 0 {
        Ok(Seq::<TextChange>::empty())
    } else {
        match pair_edits(pairs.drop_last(), nb) {
            Err(e) => Err(e),
            Ok(es) => {
                let p = pairs.last();
                if p.0 == p.1 {
                    Ok(es)
                } else {
                    match exact_check(nb, p.0) {
                        Some(e) => Err(e),
                        None => Ok(es.push(p)),
                    }
                }
            },
        }
    }
}

/// Two tables have the same number of rows, and of cells in each row.
pub open spec fn same_dims(b: Seq<Seq<Seq<char>>>, c: Seq<Seq<Seq<char>>>) -> bool {
    b.len() == c.len() && forall|i: int| 0 <= i < b.len() ==> (#[trigger] b[i]).len() == c[i].len()
}

/// The cell pairs of one row.
pub open spec fn row_pairs(b: Seq<Seq<char>>, c: Seq<Seq<char>>) -> Seq<TextChange> {
    Seq::new(b.len(), |i: int| (b[i], c[i]))
}

/// The cell pairs of two tables of the same dimensions, row by row.
pub open spec fn table_pairs(b: Seq<Seq<Seq<char>>>, c: Seq<Seq<Seq<char>>>) -> Seq<TextChange>
    decreases b.len(),
{
    if b.len() == 0 {
        Seq::<TextChange>::empty()
    } else {
        table_pairs(b.drop_last(), c) + row_pairs(b.last(), c[b.len() - 1])
    }
}

/// The paragraph changes of one block (`b` the native original, `c` the
/// current block), or why they cannot be written back.
pub open spec fn block_edits(b: BlockView, c: BlockView, nb: Notebook) -> Result<
    Seq<TextChange>,
    NativeEditError,
> {
    match b {
        BlockView::Text { text: bt, .. } => match c {
            BlockView::Text { text: ct, .. } => pair_edits(seq![(bt, ct)], nb),
            _ => Ok(Seq::<TextChange>::empty()),
        },
        BlockView::Table { rows: br, .. } => match c {
            BlockView::Table { rows: cr, .. } => if !same_dims(cr, br) {
                Err(NativeEditError::TableDimensionsChanged)
            } else {
                pair_edits(table_pairs(br, cr), nb)
            },
            _ => Ok(Seq::<TextChange>::empty()),
        },
        _ => Ok(Seq::<TextChange>::empty()),
    }
}

/// The paragraph changes of corresponding blocks, in order.
pub open spec fn blocks_edits(bs: Seq<EditorBlock>, cs: Seq<EditorBlock>, nb: Notebook) -> Result<
    Seq<TextChange>,
    NativeEditError,
>
    decreases bs.len(),
{
    if bs.len() == 0 {
        Ok(Seq::<TextChange>::empty())
    } else {
        match blocks_edits(bs.drop_last(), cs, nb) {
            Err(e) => Err(e),
            Ok(es) => match block_edits(bs.last()@, cs[bs.len() - 1]@, nb) {
                Err(e) => Err(e),
                Ok(more) => Ok(es + more),
            },
        }
    }
}

/// The title and paragraph changes of one page (`bp` the native original,
/// `cp` the current page), or why they cannot be written back.
pub open spec fn page_edits(
    s: int,
    p: int,
    section_name: String,
    bp: EditorPage,
    cp: EditorPage,
    nb: Notebook,
) -> Result<(Seq<TitleChange>, Seq<TextChange>), NativeEditError> {
    let retitled = cp.title@ != bp.title@;
    if retitled && unique_check(nb, bp.title@) is Some {
        Err(NativeEditError::TextNotUnique)
    } else if cp.blocks@.len() != bp.blocks@.len() {
        Err(
            NativeEditError::ObjectCountChanged {
                page: cp.title,
                section: section_name,
                project: cp.blocks@.len() as usize,
                native: bp.blocks@.len() as usize,
            },
        )
    } else {
        match blocks_edits(bp.blocks@, cp.blocks@, nb) {
            Err(e) => Err(e),
            Ok(es) => Ok(
                (
                    if retitled {
                        seq![(s, p, bp.title@, cp.title@)]
                    } else {
                        Seq::<TitleChange>::empty()
                    },
                    es,
                ),
            ),
        }
    }
}

/// The changes of the first pages of section `s`, in order.
pub open spec fn pages_edits(
    s: int,
    section_name: String,
    bps: Seq<EditorPage>,
    cps: Seq<EditorPage>,
    nb: Notebook,
) -> Result<(Seq<TitleChange>, Seq<TextChange>), NativeEditError>
    decreases bps.len(),
{
    if bps.len() == 0 {
        Ok((Seq::<TitleChange>::empty(), Seq::<TextChange>::empty()))
    } else {
        match pages_edits(s, section_name, bps.drop_last(), cps, nb) {
            Err(e) => Err(e),
            Ok((ts, ps)) => match page_edits(
                s,
                bps.len() - 1,
                section_name,
                bps.last(),
                cps[bps.len() - 1],
                nb,
            ) {
                Err(e) => Err(e),
                Ok((t2, p2)) => Ok((ts + t2, ps + p2)),
            },
        }
    }
}

/// The changes of section `s`.
pub open spec fn section_edits(s: int, bs: EditorSection, cs: EditorSection, nb: Notebook) -> Result<
    (Seq<TitleChange>, Seq<TextChange>),
    NativeEditError,
> {
    if cs.pages@.len() != bs.pages@.len() {
        Err(
            NativeEditError::PageCountChanged {
                section: cs.name,
                project: cs.pages@.len() as usize,
                native: bs.pages@.len() as usize,
            },
        )
    } else {
        pages_edits(s, cs.name, bs.pages@, cs.pages@, nb)
    }
}

/// The changes of the first sections, in order.
pub open spec fn sections_edits(bss: Seq<EditorSection>, css: Seq<EditorSection>, nb: Notebook) -> Result<
    (Seq<TitleChange>, Seq<TextChange>),
    NativeEditError,
>
    decreases bss.len(),
{
    if bss.len() == 0 {
        Ok((Seq::<TitleChange>::empty(), Seq::<TextChange>::empty()))
    } else {
        match sections_edits(bss.drop_last(), css, nb) {
            Err(e) => Err(e),
            Ok((ts, ps)) => match section_edits(bss.len() - 1, bss.last(), css[bss.len() - 1], nb) {
                Err(e) => Err(e),
                Ok((t2, p2)) => Ok((ts + t2, ps + p2)),
            },
        }
    }
}

/// The persisted record of an asset (its bytes live beside the working copy).
pub open spec fn asset_record(a: Asset) -> (u64, Seq<char>, Seq<char>, Seq<char>, u64) {
    (a.id, a.filename@, a.media_type@, a.stored_name@, a.size)
}

/// Two blocks agree once planned text changes are set aside: text boxes and
/// tables may differ only in their texts (tables keep their dimensions), and
/// pixel values are compared as they are written in JSON.
pub open spec fn block_agrees(c: BlockView, b: BlockView) -> bool {
    match c {
        BlockView::Text { id, indent, layout, .. } => match b {
            BlockView::Text { id: id2, indent: indent2, layout: layout2, .. } => id == id2
                && indent == indent2 && same_layout(layout, layout2),
            _ => false,
        },
        BlockView::Table { id, rows, layout } => match b {
            BlockView::Table { id: id2, rows: rows2, layout: layout2 } => id == id2 && same_dims(
                rows,
                rows2,
            ) && same_layout(layout, layout2),
            _ => false,
        },
        BlockView::Image { id, asset_id, layout } => match b {
            BlockView::Image { id: id2, asset_id: asset2, layout: layout2 } => id == id2 && asset_id
                == asset2 && same_layout(layout, layout2),
            _ => false,
        },
        BlockView::Attachment { id, asset_id, layout } => match b {
            BlockView::Attachment { id: id2, asset_id: asset2, layout: layout2 } => id == id2
                && asset_id == asset2 && same_layout(layout, layout2),
            _ => false,
        },
        BlockView::Ink { id, stroke_count, strokes, layout } => match b {
            BlockView::Ink { id: id2, stroke_count: count2, strokes: strokes2, layout: layout2 } =>
                id == id2 && stroke_count == count2 && same_strokes(strokes, strokes2) && same_layout(
                layout,
                layout2,
            ),
            _ => false,
        },
        BlockView::Unsupported { id, description, layout } => match b {
            BlockView::Unsupported { id: id2, description: description2, layout: layout2 } => id
                == id2 && description == description2 && same_layout(layout, layout2),
            _ => false,
        },
    }
}

/// Two pages agree once planned title and text changes are set aside.
pub open spec fn page_agrees(c: EditorPage, b: EditorPage) -> bool {
    &&& c.id == b.id
    &&& c.level == b.level
    &&& opt_view(c.author) == opt_view(b.author)
    &&& c.created_at@ == b.created_at@
    &&& c.updated_at@ == b.updated_at@
    &&& same_pixel(c.canvas_width, b.canvas_width)
    &&& same_pixel(c.canvas_height, b.canvas_height)
    &&& c.blocks@.len() == b.blocks@.len()
    &&& forall|k: int| 0 <= k < c.blocks@.len() ==> block_agrees(#[trigger] c.blocks@[k]@, b.blocks@[k]@)
}

/// Two sections agree once planned title and text changes are set aside.
pub open spec fn section_agrees(c: EditorSection, b: EditorSection) -> bool {
    &&& c.id == b.id
    &&& c.name@ == b.name@
    &&& c.pages@.len() == b.pages@.len()
    &&& forall|j: int| 0 <= j < c.pages@.len() ==> page_agrees(#[trigger] c.pages@[j], b.pages@[j])
}

/// The project `p` agrees with its native original `b` once planned title and
/// text changes are set aside (synchronization links and asset bytes are not
/// part of what is compared).
pub open spec fn project_agrees(p: Project, b: Project) -> bool {
    &&& p.format_version == b.format_version
    &&& p.name@ == b.name@
    &&& opt_view(p.source) == opt_view(b.source)
    &&& p.assets@.map_values(|a: Asset| asset_record(a)) == b.assets@.map_values(
        |a: Asset| asset_record(a),
    )
    &&& p.next_id == b.next_id
    &&& p.sections@.len() == b.sections@.len()
    &&& forall|i: int|
        0 <= i < p.sections@.len() ==> section_agrees(#[trigger] p.sections@[i], b.sections@[i])
}

/// The plan for writing `project` back into the native notebook `nb` it was
/// imported from as `baseline`, or the first reason it cannot be.
pub open spec fn planned(project: Project, baseline: Project, nb: Notebook) -> Result<
    (Seq<TitleChange>, Seq<TextChange>),
    NativeEditError,
> {
    if project.sections@.len() != baseline.sections@.len() {
        Err(
            NativeEditError::SectionCountChanged {
                project: project.sections@.len() as usize,
                native: baseline.sections@.len() as usize,
            },
        )
    } else {
        match sections_edits(baseline.sections@, project.sections@, nb) {
            Err(e) => Err(e),
            Ok(x) => if project_agrees(project, baseline) {
                Ok(x)
            } else {
                Err(NativeEditError::UnsupportedEdit)
            },
        }
    }
}

/// Fails unless `text` occurs exactly once in the notebook's visible text.
pub fn require_unique_native_text(notebook: &Notebook, text: &String) -> (r: Result<
    (),
    NativeEditError,
>)
    ensures
        r == result_of(unique_check(*notebook, text@)),
{
    let chars = chars_of(text.as_str());
    if chars.len() == 0 || count_text_occurrences(notebook, &chars) != 1 {
        return Err(NativeEditError::TextNotUnique);
    }
    Ok(())
}

/// Fails unless `text` is exactly one native paragraph and occurs nowhere else.
pub fn require_exact_native_paragraph(notebook: &Notebook, text: &String) -> (r: Result<
    (),
    NativeEditError,
>)
    ensures
        r == result_of(exact_check(*notebook, text@)),
{
    let chars = chars_of(text.as_str());
    if chars.len() == 0 || count_exact_paragraphs(notebook, text) != 1 {
        return Err(NativeEditError::AmbiguousParagraph);
    }
    require_unique_native_text(notebook, text)
}


proof fn lemma_pair_edits_prefix_error(whole: Seq<TextChange>, prefix: Seq<TextChange>, nb: Notebook)
    requires
        prefix.len() <= whole.len(),
        whole.take(prefix.len() as int) == prefix,
        pair_edits(prefix, nb) is Err,
    ensures
        pair_edits(whole, nb) == pair_edits(prefix, nb),
    decreases whole.len() - prefix.len(),
{
    if prefix.len() < whole.len() {
        let next = whole.take(prefix.len() + 1int);
        assert(next.drop_last() =~= prefix);
        assert(whole.take(next.len() as int) =~= next);
        lemma_pair_edits_prefix_error(whole, next, nb);
    } else {
        assert(whole =~= prefix);
    }
}

proof fn lemma_table_pairs_prefix(br: Seq<Seq<Seq<char>>>, cr: Seq<Seq<Seq<char>>>, k: int)
    requires
        0 <= k <= br.len(),
    ensures
        table_pairs(br.take(k), cr).len() <= table_pairs(br, cr).len(),
        table_pairs(br, cr).take(table_pairs(br.take(k), cr).len() as int) == table_pairs(
            br.take(k),
            cr,
        ),
    decreases br.len() - k,
{
    if k < br.len() {
        lemma_table_pairs_prefix(br, cr, k + 1);
        assert(br.take(k + 1).drop_last() =~= br.take(k));
        let small = table_pairs(br.take(k), cr);
        let mid = table_pairs(br.take(k + 1), cr);
        assert(mid.take(small.len() as int) =~= small);
        assert(table_pairs(br, cr).take(small.len() as int) =~= mid.take(small.len() as int));
    } else {
        assert(br.take(k) =~= br);
        assert(table_pairs(br, cr).take(table_pairs(br, cr).len() as int) =~= table_pairs(br, cr));
    }
}

/// Records the change from `original` to `current` if there is one.
fn collect_pair_edit(
    original: &String,
    current: &String,
    notebook: &Notebook,
    edits: &mut Vec<TextEdit>,
    Ghost(pairs): Ghost<Seq<TextChange>>,
) -> (r: Result<(), NativeEditError>)
    requires
        pair_edits(pairs, *notebook) is Ok,
        old(edits)@.map_values(|e: TextEdit| (e.original@, e.replacement@)) == pair_edits(
            pairs,
            *notebook,
        )->Ok_0,
    ensures
        match pair_edits(pairs.push((original@, current@)), *notebook) {
            Ok(es) => r is Ok && final(edits)@.map_values(
                |e: TextEdit| (e.original@, e.replacement@),
            ) == es,
            Err(e) => r == Err::<(), NativeEditError>(e),
        },
{
    let ghost all = pairs.push((original@, current@));
    assert(all.drop_last() =~= pairs);
    if *original != *current {
        match require_exact_native_paragraph(notebook, original) {
            Err(e) => {
                return Err(e);
            },
            Ok(()) => {},
        }
        edits.push(TextEdit { original: original.clone(), replacement: current.clone() });
        assert(edits@.map_values(|e: TextEdit| (e.original@, e.replacement@)) =~= old(
            edits,
        )@.map_values(|e: TextEdit| (e.original@, e.replacement@)).push((original@, current@)));
    }
    Ok(())
}

/// Records the paragraph edits of one block: a changed text box, or changed
/// cells of a table of unchanged dimensions. Each original text must be
/// exactly one native paragraph.
pub fn collect_block_edits(
    baseline: &EditorBlock,
    current: &EditorBlock,
    notebook: &Notebook,
    edits: &mut Vec<TextEdit>,
) -> (r: Result<(), NativeEditError>)
    ensures
        match block_edits(baseline@, current@, *notebook) {
            Ok(es) => r is Ok && final(edits)@.map_values(
                |e: TextEdit| (e.original@, e.replacement@),
            ) == old(edits)@.map_values(|e: TextEdit| (e.original@, e.replacement@)) + es,
            Err(e) => r == Err::<(), NativeEditError>(e),
        },
{
    let ghost before = edits@.map_values(|e: TextEdit| (e.original@, e.replacement@));
    match (baseline, current) {
        (EditorBlock::Text { text: b, .. }, EditorBlock::Text { text: c, .. }) => {
            let mut mine: Vec<TextEdit> = Vec::new();
            assert(mine@.map_values(|e: TextEdit| (e.original@, e.replacement@)) =~= Seq::<
                TextChange,
            >::empty());
            let r = collect_pair_edit(b, c, notebook, &mut mine, Ghost(Seq::<TextChange>::empty()));
            assert(Seq::<TextChange>::empty().push((b@, c@)) =~= seq![(b@, c@)]);
            if r.is_ok() {
                let ghost mid = edits@;
                edits.append(&mut mine);
                proof {
                    assert(edits@.map_values(|e: TextEdit| (e.original@, e.replacement@)) =~= before
                        + pair_edits(seq![(b@, c@)], *notebook)->Ok_0);
                }
            }
            r
        },
        (EditorBlock::Table { rows: b, .. }, EditorBlock::Table { rows: c, .. }) => {
            let ghost br = rows_view(b@);
            let ghost cr = rows_view(c@);
            assert(baseline@ matches BlockView::Table { rows, .. } && rows == br);
            assert(current@ matches BlockView::Table { rows, .. } && rows == cr);
            assert(block_edits(baseline@, current@, *notebook) == (if !same_dims(cr, br) {
                Err(NativeEditError::TableDimensionsChanged)
            } else {
                pair_edits(table_pairs(br, cr), *notebook)
            }));
            if c.len() != b.len() {
                assert(cr.len() != br.len());
                assert(!same_dims(cr, br));
                return Err(NativeEditError::TableDimensionsChanged);
            }
            let mut k: usize = 0;
            while k < b.len()
                invariant
                    b@.len() == c@.len(),
                    k <= b@.len(),
                    block_edits(baseline@, current@, *notebook) == (if !same_dims(cr, br) {
                        Err(NativeEditError::TableDimensionsChanged)
                    } else {
                        pair_edits(table_pairs(br, cr), *notebook)
                    }),
                    br == rows_view(b@),
                    cr == rows_view(c@),
                    forall|j: int| 0 <= j < k ==> (#[trigger] cr[j]).len() == br[j].len(),
                decreases b@.len() - k,
            {
                if c[k].len() != b[k].len() {
                    assert(!same_dims(cr, br)) by {
                        assert(cr[k as int].len() != br[k as int].len());
                    }
                    return Err(NativeEditError::TableDimensionsChanged);
                }
                k = k + 1;
            }
            assert(same_dims(cr, br));
            let mut mine: Vec<TextEdit> = Vec::new();
            let mut row: usize = 0;
            assert(br.take(0) =~= Seq::<Seq<Seq<char>>>::empty());
            assert(mine@.map_values(|e: TextEdit| (e.original@, e.replacement@)) =~= Seq::<
                TextChange,
            >::empty());
            while row < b.len()
                invariant
                    b@.len() == c@.len(),
                    row <= b@.len(),
                    block_edits(baseline@, current@, *notebook) == (if !same_dims(cr, br) {
                        Err(NativeEditError::TableDimensionsChanged)
                    } else {
                        pair_edits(table_pairs(br, cr), *notebook)
                    }),
                    br == rows_view(b@),
                    cr == rows_view(c@),
                    same_dims(cr, br),
                    pair_edits(table_pairs(br.take(row as int), cr), *notebook) is Ok,
                    mine@.map_values(|e: TextEdit| (e.original@, e.replacement@)) == pair_edits(
                        table_pairs(br.take(row as int), cr),
                        *notebook,
                    )->Ok_0,
                decreases b@.len() - row,
            {
                let ghost done = table_pairs(br.take(row as int), cr);
                let ghost here = row_pairs(br[row as int], cr[row as int]);
                assert(br.take(row + 1).drop_last() =~= br.take(row as int));
                assert(table_pairs(br.take(row + 1), cr) == done + here);
                let mut col: usize = 0;
                assert(here.take(0) =~= Seq::<TextChange>::empty());
                assert(done + here.take(0) =~= done);
                while col < b[row].len()
                    invariant
                        b@.len() == c@.len(),
                        row < b@.len(),
                        block_edits(baseline@, current@, *notebook) == (if !same_dims(cr, br) {
                            Err(NativeEditError::TableDimensionsChanged)
                        } else {
                            pair_edits(table_pairs(br, cr), *notebook)
                        }),
                        br == rows_view(b@),
                        cr == rows_view(c@),
                        same_dims(cr, br),
                        col <= b@[row as int]@.len(),
                        here == row_pairs(br[row as int], cr[row as int]),
                        table_pairs(br.take(row + 1), cr) == done + here,
                        pair_edits(done + here.take(col as int), *notebook) is Ok,
                        mine@.map_values(|e: TextEdit| (e.original@, e.replacement@)) == pair_edits(
                            done + here.take(col as int),
                            *notebook,
                        )->Ok_0,
                    decreases b@[row as int]@.len() - col,
                {
                    assert(c@[row as int]@.len() == b@[row as int]@.len()) by {
                        assert(cr[row as int].len() == br[row as int].len());
                    }
                    assert((done + here.take(col as int)).push((br[row as int][col as int], cr[row as int][col as int]))
                        =~= done + here.take(col + 1));
                    let r = collect_pair_edit(
                        &b[row][col],
                        &c[row][col],
                        notebook,
                        &mut mine,
                        Ghost(done + here.take(col as int)),
                    );
                    match r {
                        Err(e) => {
                            proof {
                                let pre = done + here.take(col + 1);
                                let mid = done + here;
                                lemma_table_pairs_prefix(br, cr, row + 1);
                                assert(mid.take(pre.len() as int) =~= pre);
                                assert(table_pairs(br, cr).take(mid.len() as int) == mid);
                                assert(table_pairs(br, cr).take(pre.len() as int) =~= mid.take(
                                    pre.len() as int,
                                ));
                                lemma_pair_edits_prefix_error(table_pairs(br, cr), pre, *notebook);
                            }
                            return Err(e);
                        },
                        Ok(()) => {},
                    }
                    col = col + 1;
                }
                assert(here.take(col as int) =~= here);
                row = row + 1;
            }
            assert(br.take(row as int) =~= br);
            let ghost mid = edits@;
            edits.append(&mut mine);
            proof {
                assert(edits@.map_values(|e: TextEdit| (e.original@, e.replacement@)) =~= before
                    + pair_edits(table_pairs(br, cr), *notebook)->Ok_0);
            }
            Ok(())
        },
        _ => {
            proof {
                assert(before + Seq::<TextChange>::empty() =~= before);
            }
            Ok(())
        },
    }
}


/// Whether two tables have the same dimensions.
fn rows_same_dims(c: &Vec<Vec<String>>, b: &Vec<Vec<String>>) -> (r: bool)
    ensures
        r == same_dims(rows_view(c@), rows_view(b@)),
{
    let ghost cr = rows_view(c@);
    let ghost br = rows_view(b@);
    if c.len() != b.len() {
        return false;
    }
    let mut i: usize = 0;
    while i < c.len()
        invariant
            i <= c@.len(),
            c@.len() == b@.len(),
            cr == rows_view(c@),
            br == rows_view(b@),
            forall|j: int| 0 <= j < i ==> (#[trigger] cr[j]).len() == br[j].len(),
        decreases c@.len() - i,
    {
        if c[i].len() != b[i].len() {
            assert(cr[i as int].len() != br[i as int].len());
            return false;
        }
        i = i + 1;
    }
    true
}

/// Whether two blocks agree once planned text changes are set aside.
fn block_agrees_check(c: &EditorBlock, b: &EditorBlock) -> (r: bool)
    ensures
        r == block_agrees(c@, b@),
{
    match (c, b) {
        (
            EditorBlock::Text { id: i1, indent: n1, layout: l1, .. },
            EditorBlock::Text { id: i2, indent: n2, layout: l2, .. },
        ) => *i1 == *i2 && *n1 == *n2 && layout_agrees(l1, l2),
        (
            EditorBlock::Table { id: i1, rows: r1, layout: l1 },
            EditorBlock::Table { id: i2, rows: r2, layout: l2 },
        ) => *i1 == *i2 && rows_same_dims(r1, r2) && layout_agrees(l1, l2),
        (
            EditorBlock::Image { id: i1, asset_id: a1, layout: l1 },
            EditorBlock::Image { id: i2, asset_id: a2, layout: l2 },
        ) => *i1 == *i2 && *a1 == *a2 && layout_agrees(l1, l2),
        (
            EditorBlock::Attachment { id: i1, asset_id: a1, layout: l1 },
            EditorBlock::Attachment { id: i2, asset_id: a2, layout: l2 },
        ) => *i1 == *i2 && *a1 == *a2 && layout_agrees(l1, l2),
        (
            EditorBlock::Ink { id: i1, stroke_count: c1, strokes: s1, layout: l1 },
            EditorBlock::Ink { id: i2, stroke_count: c2, strokes: s2, layout: l2 },
        ) => *i1 == *i2 && *c1 == *c2 && strokes_agree(s1, s2) && layout_agrees(l1, l2),
        (
            EditorBlock::Unsupported { id: i1, description: d1, layout: l1 },
            EditorBlock::Unsupported { id: i2, description: d2, layout: l2 },
        ) => *i1 == *i2 && *d1 == *d2 && layout_agrees(l1, l2),
        _ => false,
    }
}

/// Whether two pages agree once planned title and text changes are set aside.
fn page_agrees_check(c: &EditorPage, b: &EditorPage) -> (r: bool)
    ensures
        r == page_agrees(*c, *b),
{
    if !(c.id == b.id && c.level == b.level && opt_string_eq(&c.author, &b.author)
        && c.created_at == b.created_at && c.updated_at == b.updated_at && pixel_agrees(
        c.canvas_width,
        b.canvas_width,
    ) && pixel_agrees(c.canvas_height, b.canvas_height) && c.blocks.len()
        == b.blocks.len()) {
        return false;
    }
    let mut k: usize = 0;
    while k < c.blocks.len()
        invariant
            k <= c.blocks@.len(),
            c.blocks@.len() == b.blocks@.len(),
            forall|j: int| 0 <= j < k ==> block_agrees(#[trigger] c.blocks@[j]@, b.blocks@[j]@),
        decreases c.blocks@.len() - k,
    {
        if !block_agrees_check(&c.blocks[k], &b.blocks[k]) {
            return false;
        }
        k = k + 1;
    }
    true
}

/// Whether two sections agree once planned title and text changes are set aside.
fn section_agrees_check(c: &EditorSection, b: &EditorSection) -> (r: bool)
    ensures
        r == section_agrees(*c, *b),
{
    if !(c.id == b.id && c.name == b.name && c.pages.len() == b.pages.len()) {
        return false;
    }
    let mut k: usize = 0;
    while k < c.pages.len()
        invariant
            k <= c.pages@.len(),
            c.pages@.len() == b.pages@.len(),
            forall|j: int| 0 <= j < k ==> page_agrees(#[trigger] c.pages@[j], b.pages@[j]),
        decreases c.pages@.len() - k,
    {
        if !page_agrees_check(&c.pages[k], &b.pages[k]) {
            return false;
        }
        k = k + 1;
    }
    true
}

/// Whether two asset lists have the same persisted records.
fn asset_records_eq(c: &Vec<Asset>, b: &Vec<Asset>) -> (r: bool)
    ensures
        r == (c@.map_values(|a: Asset| asset_record(a)) == b@.map_values(|a: Asset| asset_record(a))),
{
    let ghost cm = c@.map_values(|a: Asset| asset_record(a));
    let ghost bm = b@.map_values(|a: Asset| asset_record(a));
    if c.len() != b.len() {
        assert(cm.len() != bm.len());
        return false;
    }
    let mut k: usize = 0;
    while k < c.len()
        invariant
            k <= c@.len(),
            c@.len() == b@.len(),
            cm == c@.map_values(|a: Asset| asset_record(a)),
            bm == b@.map_values(|a: Asset| asset_record(a)),
            forall|j: int| 0 <= j < k ==> cm[j] == bm[j],
        decreases c@.len() - k,
    {
        let x = &c[k];
        let y = &b[k];
        if !(x.id == y.id && x.filename == y.filename && x.media_type == y.media_type
            && x.stored_name == y.stored_name && x.size == y.size) {
            assert(cm[k as int] != bm[k as int]);
            return false;
        }
        k = k + 1;
    }
    assert(cm =~= bm);
    true
}

/// Whether the project agrees with its native original once planned title
/// and text changes are set aside.
fn project_agrees_check(p: &Project, b: &Project) -> (r: bool)
    ensures
        r == project_agrees(*p, *b),
{
    if !(p.format_version == b.format_version && p.name == b.name && opt_string_eq(
        &p.source,
        &b.source,
    ) && asset_records_eq(&p.assets, &b.assets) && p.next_id == b.next_id && p.sections.len()
        == b.sections.len()) {
        return false;
    }
    let mut k: usize = 0;
    while k < p.sections.len()
        invariant
            k <= p.sections@.len(),
            p.sections@.len() == b.sections@.len(),
            forall|j: int| 0 <= j < k ==> section_agrees(#[trigger] p.sections@[j], b.sections@[j]),
        decreases p.sections@.len() - k,
    {
        if !section_agrees_check(&p.sections[k], &b.sections[k]) {
            return false;
        }
        k = k + 1;
    }
    true
}

/// The title changes recorded in a list of title edits.
pub open spec fn title_list(v: Seq<TitleEdit>) -> Seq<TitleChange> {
    v.map_values(|e: TitleEdit| (e.section as int, e.page as int, e.original@, e.replacement@))
}

/// The paragraph changes recorded in a list of text edits.
pub open spec fn text_list(v: Seq<TextEdit>) -> Seq<TextChange> {
    v.map_values(|e: TextEdit| (e.original@, e.replacement@))
}

proof fn lemma_blocks_edits_prefix(bs: Seq<EditorBlock>, cs: Seq<EditorBlock>, k: int, nb: Notebook)
    requires
        0 <= k <= bs.len(),
        blocks_edits(bs.take(k), cs, nb) is Err,
    ensures
        blocks_edits(bs, cs, nb) == blocks_edits(bs.take(k), cs, nb),
    decreases bs.len() - k,
{
    if k < bs.len() {
        assert(bs.take(k + 1).drop_last() =~= bs.take(k));
        lemma_blocks_edits_prefix(bs, cs, k + 1, nb);
    } else {
        assert(bs.take(k) =~= bs);
    }
}

proof fn lemma_pages_edits_prefix(
    s: int,
    name: String,
    bs: Seq<EditorPage>,
    cs: Seq<EditorPage>,
    k: int,
    nb: Notebook,
)
    requires
        0 <= k <= bs.len(),
        pages_edits(s, name, bs.take(k), cs, nb) is Err,
    ensures
        pages_edits(s, name, bs, cs, nb) == pages_edits(s, name, bs.take(k), cs, nb),
    decreases bs.len() - k,
{
    if k < bs.len() {
        assert(bs.take(k + 1).drop_last() =~= bs.take(k));
        lemma_pages_edits_prefix(s, name, bs, cs, k + 1, nb);
    } else {
        assert(bs.take(k) =~= bs);
    }
}

proof fn lemma_sections_edits_prefix(bs: Seq<EditorSection>, cs: Seq<EditorSection>, k: int, nb: Notebook)
    requires
        0 <= k <= bs.len(),
        sections_edits(bs.take(k), cs, nb) is Err,
    ensures
        sections_edits(bs, cs, nb) == sections_edits(bs.take(k), cs, nb),
    decreases bs.len() - k,
{
    if k < bs.len() {
        assert(bs.take(k + 1).drop_last() =~= bs.take(k));
        lemma_sections_edits_prefix(bs, cs, k + 1, nb);
    } else {
        assert(bs.take(k) =~= bs);
    }
}

/// Records the title and paragraph edits of one page.
fn collect_page_edits(
    s: usize,
    p: usize,
    section_name: &String,
    bp: &EditorPage,
    cp: &EditorPage,
    notebook: &Notebook,
    titles: &mut Vec<TitleEdit>,
    paragraphs: &mut Vec<TextEdit>,
) -> (r: Result<(), NativeEditError>)
    ensures
        match page_edits(s as int, p as int, *section_name, *bp, *cp, *notebook) {
            Ok((ts, ps)) => r is Ok && title_list(final(titles)@) == title_list(old(titles)@) + ts
                && text_list(final(paragraphs)@) == text_list(old(paragraphs)@) + ps
                && forall|i: int|
                0 <= i < final(titles)@.len() ==> (#[trigger] final(titles)@[i]).section == s || (i
                    < old(titles)@.len() && final(titles)@[i] == old(titles)@[i]),
            Err(e) => r == Err::<(), NativeEditError>(e),
        },
{
    let ghost t0 = title_list(titles@);
    let ghost old_titles = titles@;
    let retitled = cp.title != bp.title;
    if retitled {
        match require_unique_native_text(notebook, &bp.title) {
            Err(e) => {
                return Err(e);
            },
            Ok(()) => {},
        }
    }
    if cp.blocks.len() != bp.blocks.len() {
        return Err(
            NativeEditError::ObjectCountChanged {
                page: cp.title.clone(),
                section: section_name.clone(),
                project: cp.blocks.len(),
                native: bp.blocks.len(),
            },
        );
    }
    let ghost p0 = text_list(paragraphs@);
    let mut k: usize = 0;
    assert(bp.blocks@.take(0) =~= Seq::<EditorBlock>::empty());
    assert(p0 + Seq::<TextChange>::empty() =~= p0);
    while k < bp.blocks.len()
        invariant
            k <= bp.blocks@.len(),
            cp.blocks@.len() == bp.blocks@.len(),
            cp.title@ != bp.title@ ==> unique_check(*notebook, bp.title@) is None,
            blocks_edits(bp.blocks@.take(k as int), cp.blocks@, *notebook) is Ok,
            text_list(paragraphs@) == p0 + blocks_edits(bp.blocks@.take(k as int), cp.blocks@, *notebook)->Ok_0,
        decreases bp.blocks@.len() - k,
    {
        let ghost done = blocks_edits(bp.blocks@.take(k as int), cp.blocks@, *notebook)->Ok_0;
        assert(bp.blocks@.take(k + 1).drop_last() =~= bp.blocks@.take(k as int));
        match collect_block_edits(&bp.blocks[k], &cp.blocks[k], notebook, paragraphs) {
            Err(e) => {
                proof {
                    lemma_blocks_edits_prefix(bp.blocks@, cp.blocks@, k + 1, *notebook);
                }
                return Err(e);
            },
            Ok(()) => {},
        }
        proof {
            let more = block_edits(bp.blocks@[k as int]@, cp.blocks@[k as int]@, *notebook)->Ok_0;
            assert(p0 + done + more =~= p0 + (done + more));
        }
        k = k + 1;
    }
    assert(bp.blocks@.take(k as int) =~= bp.blocks@);
    if retitled {
        titles.push(
            TitleEdit { section: s, page: p, original: bp.title.clone(), replacement: cp.title.clone() },
        );
        assert(title_list(titles@) =~= t0 + seq![(s as int, p as int, bp.title@, cp.title@)]);
    } else {
        assert(t0 + Seq::<TitleChange>::empty() =~= t0);
    }
    Ok(())
}

/// Records the title and paragraph edits of one section.
fn collect_section_edits(
    s: usize,
    bs: &EditorSection,
    cs: &EditorSection,
    notebook: &Notebook,
    titles: &mut Vec<TitleEdit>,
    paragraphs: &mut Vec<TextEdit>,
) -> (r: Result<(), NativeEditError>)
    ensures
        match section_edits(s as int, *bs, *cs, *notebook) {
            Ok((ts, ps)) => r is Ok && title_list(final(titles)@) == title_list(old(titles)@) + ts
                && text_list(final(paragraphs)@) == text_list(old(paragraphs)@) + ps
                && forall|i: int|
                0 <= i < final(titles)@.len() ==> (#[trigger] final(titles)@[i]).section == s || (i
                    < old(titles)@.len() && final(titles)@[i] == old(titles)@[i]),
            Err(e) => r == Err::<(), NativeEditError>(e),
        },
{
    if cs.pages.len() != bs.pages.len() {
        return Err(
            NativeEditError::PageCountChanged {
                section: cs.name.clone(),
                project: cs.pages.len(),
                native: bs.pages.len(),
            },
        );
    }
    let ghost t0 = title_list(titles@);
    let ghost p0 = text_list(paragraphs@);
    let ghost old_titles = titles@;
    let mut k: usize = 0;
    assert(bs.pages@.take(0) =~= Seq::<EditorPage>::empty());
    assert(t0 + Seq::<TitleChange>::empty() =~= t0);
    assert(p0 + Seq::<TextChange>::empty() =~= p0);
    while k < bs.pages.len()
        invariant
            k <= bs.pages@.len(),
            cs.pages@.len() == bs.pages@.len(),
            old_titles == old(titles)@,
            pages_edits(s as int, cs.name, bs.pages@.take(k as int), cs.pages@, *notebook) is Ok,
            title_list(titles@) == t0 + pages_edits(s as int, cs.name, bs.pages@.take(k as int), cs.pages@, *notebook)->Ok_0.0,
            text_list(paragraphs@) == p0 + pages_edits(s as int, cs.name, bs.pages@.take(k as int), cs.pages@, *notebook)->Ok_0.1,
            t0 == title_list(old_titles),
            forall|i: int|
                0 <= i < titles@.len() ==> (#[trigger] titles@[i]).section == s || (i
                    < old_titles.len() && titles@[i] == old_titles[i]),
        decreases bs.pages@.len() - k,
    {
        let ghost done = pages_edits(s as int, cs.name, bs.pages@.take(k as int), cs.pages@, *notebook)->Ok_0;
        let ghost before_titles = titles@;
        assert(bs.pages@.take(k + 1).drop_last() =~= bs.pages@.take(k as int));
        match collect_page_edits(s, k, &cs.name, &bs.pages[k], &cs.pages[k], notebook, titles, paragraphs) {
            Err(e) => {
                proof {
                    lemma_pages_edits_prefix(s as int, cs.name, bs.pages@, cs.pages@, k + 1, *notebook);
                }
                return Err(e);
            },
            Ok(()) => {},
        }
        proof {
            let more = page_edits(s as int, k as int, cs.name, bs.pages@[k as int], cs.pages@[k as int], *notebook)->Ok_0;
            assert(t0 + done.0 + more.0 =~= t0 + (done.0 + more.0));
            assert(p0 + done.1 + more.1 =~= p0 + (done.1 + more.1));
            assert forall|i: int| 0 <= i < titles@.len() implies (#[trigger] titles@[i]).section == s || (i
                    < old_titles.len() && titles@[i] == old_titles[i]) by {
                if i < before_titles.len() && titles@[i] == before_titles[i] {
                    assert(before_titles[i].section == s || (i < old_titles.len() && before_titles[i] == old_titles[i]));
                }
            }
        }
        k = k + 1;
    }
    assert(bs.pages@.take(k as int) =~= bs.pages@);
    Ok(())
}

impl Project {
    /// Plans how the edits of this project can be written back into the
    /// native notebook it was imported from (`baseline` is that notebook as
    /// imported): changed page titles, and changed text boxes or table cells
    /// whose original text is exactly one native paragraph. Anything else that
    /// differs is refused.
    pub fn native_edit_plan(&self, baseline: &Project, notebook: &Notebook) -> (r: Result<
        NativeEditPlan,
        NativeEditError,
    >)
        ensures
            match planned(*self, *baseline, *notebook) {
                Ok((ts, ps)) => r is Ok && r->Ok_0.title_changes() == ts && r->Ok_0.text_changes()
                    == ps && r->Ok_0.wf(),
                Err(e) => r == Err::<NativeEditPlan, NativeEditError>(e),
            },
    {
        if self.sections.len() != baseline.sections.len() {
            return Err(
                NativeEditError::SectionCountChanged {
                    project: self.sections.len(),
                    native: baseline.sections.len(),
                },
            );
        }
        let mut titles: Vec<TitleEdit> = Vec::new();
        let mut paragraphs: Vec<TextEdit> = Vec::new();
        let mut s: usize = 0;
        assert(baseline.sections@.take(0) =~= Seq::<EditorSection>::empty());
        assert(title_list(titles@) =~= Seq::<TitleChange>::empty());
        assert(text_list(paragraphs@) =~= Seq::<TextChange>::empty());
        while s < baseline.sections.len()
            invariant
                s <= baseline.sections@.len(),
                self.sections@.len() == baseline.sections@.len(),
                sections_edits(baseline.sections@.take(s as int), self.sections@, *notebook) is Ok,
                title_list(titles@) == sections_edits(baseline.sections@.take(s as int), self.sections@, *notebook)->Ok_0.0,
                text_list(paragraphs@) == sections_edits(baseline.sections@.take(s as int), self.sections@, *notebook)->Ok_0.1,
                forall|i: int| 0 <= i < titles@.len() ==> (#[trigger] titles@[i]).section < s,
            decreases baseline.sections@.len() - s,
        {
            let ghost done = sections_edits(baseline.sections@.take(s as int), self.sections@, *notebook)->Ok_0;
            let ghost before_titles = titles@;
            assert(baseline.sections@.take(s + 1).drop_last() =~= baseline.sections@.take(s as int));
            match collect_section_edits(
                s,
                &baseline.sections[s],
                &self.sections[s],
                notebook,
                &mut titles,
                &mut paragraphs,
            ) {
                Err(e) => {
                    proof {
                        lemma_sections_edits_prefix(baseline.sections@, self.sections@, s + 1, *notebook);
                    }
                    return Err(e);
                },
                Ok(()) => {},
            }
            proof {
                let more = section_edits(s as int, baseline.sections@[s as int], self.sections@[s as int], *notebook)->Ok_0;
                assert(done.0 + more.0 =~= done.0 + more.0);
                assert forall|i: int| 0 <= i < titles@.len() implies (#[trigger] titles@[i]).section < s + 1 by {
                    if !(titles@[i].section == s) {
                        assert(i < before_titles.len() && titles@[i] == before_titles[i]);
                    }
                }
            }
            s = s + 1;
        }
        assert(baseline.sections@.take(s as int) =~= baseline.sections@);
        if !project_agrees_check(self, baseline) {
            return Err(NativeEditError::UnsupportedEdit);
        }
        let plan = NativeEditPlan { titles, paragraphs };
        assert(plan.wf());
        Ok(plan)
    }
}

// ---------------------------------------------------------------------------
// An unedited project plans nothing.
// ---------------------------------------------------------------------------

/// Text pairs that are all unchanged give no paragraph change.
proof fn lemma_pair_edits_unchanged(pairs: Seq<TextChange>, nb: Notebook)
    requires
        forall|i: int| 0 <= i < pairs.len() ==> (#[trigger] pairs[i]).0 == pairs[i].1,
    ensures
        pair_edits(pairs, nb) == Ok::<Seq<TextChange>, NativeEditError>(Seq::<TextChange>::empty()),
    decreases pairs.len(),
{
    if pairs.len() > 0 {
        assert forall|i: int| 0 <= i < pairs.drop_last().len() implies (#[trigger] pairs.drop_last()[i]).0
            == pairs.drop_last()[i].1 by {
            assert(pairs.drop_last()[i] == pairs[i]);
        }
        lemma_pair_edits_unchanged(pairs.drop_last(), nb);
        assert(pairs.last() == pairs[pairs.len() - 1]);
    }
}

/// The cell pairs of a table against itself are all unchanged.
proof fn lemma_table_pairs_unchanged(b: Seq<Seq<Seq<char>>>, c: Seq<Seq<Seq<char>>>)
    requires
        b.len() <= c.len(),
        forall|i: int| 0 <= i < b.len() ==> #[trigger] b[i] == c[i],
    ensures
        forall|k: int|
            0 <= k < table_pairs(b, c).len() ==> (#[trigger] table_pairs(b, c)[k]).0 == table_pairs(
                b,
                c,
            )[k].1,
    decreases b.len(),
{
    if b.len() > 0 {
        let front = b.drop_last();
        assert forall|i: int| 0 <= i < front.len() implies #[trigger] front[i] == c[i] by {
            assert(front[i] == b[i]);
        }
        lemma_table_pairs_unchanged(front, c);
        let t = table_pairs(front, c);
        let r = row_pairs(b.last(), c[b.len() - 1]);
        assert(b.last() == b[b.len() - 1]);
        assert forall|k: int| 0 <= k < (t + r).len() implies (#[trigger] (t + r)[k]).0 == (t + r)[k].1 by {
            if k >= t.len() {
                assert((t + r)[k] == r[k - t.len()]);
            } else {
                assert((t + r)[k] == t[k]);
            }
        }
    }
}

/// A block compared with itself gives no paragraph change.
proof fn lemma_block_unedited(b: BlockView, nb: Notebook)
    ensures
        block_edits(b, b, nb) == Ok::<Seq<TextChange>, NativeEditError>(Seq::<TextChange>::empty()),
{
    match b {
        BlockView::Text { text, .. } => {
            lemma_pair_edits_unchanged(seq![(text, text)], nb);
        },
        BlockView::Table { rows, .. } => {
            lemma_table_pairs_unchanged(rows, rows);
            lemma_pair_edits_unchanged(table_pairs(rows, rows), nb);
        },
        _ => {},
    }
}

/// The first `k` blocks compared with themselves give no paragraph change.
proof fn lemma_blocks_unedited(bs: Seq<EditorBlock>, k: int, nb: Notebook)
    requires
        0 <= k <= bs.len(),
    ensures
        blocks_edits(bs.take(k), bs, nb) == Ok::<Seq<TextChange>, NativeEditError>(
            Seq::<TextChange>::empty(),
        ),
    decreases k,
{
    if k > 0 {
        assert(bs.take(k).drop_last() =~= bs.take(k - 1));
        lemma_blocks_unedited(bs, k - 1, nb);
        lemma_block_unedited(bs[k - 1]@, nb);
        assert(Seq::<TextChange>::empty() + Seq::<TextChange>::empty() =~= Seq::<TextChange>::empty());
    }
}

/// The first `k` pages compared with themselves give no change.
proof fn lemma_pages_unedited(s: int, name: String, ps: Seq<EditorPage>, k: int, nb: Notebook)
    requires
        0 <= k <= ps.len(),
    ensures
        pages_edits(s, name, ps.take(k), ps, nb) == Ok::<
            (Seq<TitleChange>, Seq<TextChange>),
            NativeEditError,
        >((Seq::<TitleChange>::empty(), Seq::<TextChange>::empty())),
    decreases k,
{
    if k > 0 {
        assert(ps.take(k).drop_last() =~= ps.take(k - 1));
        lemma_pages_unedited(s, name, ps, k - 1, nb);
        let p = ps[k - 1];
        lemma_blocks_unedited(p.blocks@, p.blocks@.len() as int, nb);
        assert(p.blocks@.take(p.blocks@.len() as int) =~= p.blocks@);
        assert(Seq::<TitleChange>::empty() + Seq::<TitleChange>::empty() =~= Seq::<TitleChange>::empty());
        assert(Seq::<TextChange>::empty() + Seq::<TextChange>::empty() =~= Seq::<TextChange>::empty());
    }
}

/// The first `k` sections compared with themselves give no change.
proof fn lemma_sections_unedited(ss: Seq<EditorSection>, k: int, nb: Notebook)
    requires
        0 <= k <= ss.len(),
    ensures
        sections_edits(ss.take(k), ss, nb) == Ok::<
            (Seq<TitleChange>, Seq<TextChange>),
            NativeEditError,
        >((Seq::<TitleChange>::empty(), Seq::<TextChange>::empty())),
    decreases k,
{
    if k > 0 {
        assert(ss.take(k).drop_last() =~= ss.take(k - 1));
        lemma_sections_unedited(ss, k - 1, nb);
        let sec = ss[k - 1];
        lemma_pages_unedited(k - 1, sec.name, sec.pages@, sec.pages@.len() as int, nb);
        assert(sec.pages@.take(sec.pages@.len() as int) =~= sec.pages@);
        assert(Seq::<TitleChange>::empty() + Seq::<TitleChange>::empty() =~= Seq::<TitleChange>::empty());
        assert(Seq::<TextChange>::empty() + Seq::<TextChange>::empty() =~= Seq::<TextChange>::empty());
    }
}

/// A project agrees with itself.
proof fn lemma_project_agrees_with_itself(p: Project)
    ensures
        project_agrees(p, p),
{
    assert forall|i: int| 0 <= i < p.sections@.len() implies section_agrees(
        #[trigger] p.sections@[i],
        p.sections@[i],
    ) by {
        let sec = p.sections@[i];
        assert forall|j: int| 0 <= j < sec.pages@.len() implies page_agrees(
            #[trigger] sec.pages@[j],
            sec.pages@[j],
        ) by {
            let pg = sec.pages@[j];
            assert forall|k: int| 0 <= k < pg.blocks@.len() implies block_agrees(
                #[trigger] pg.blocks@[k]@,
                pg.blocks@[k]@,
            ) by {
                let b = pg.blocks@[k]@;
                match b {
                    BlockView::Table { rows, .. } => {
                        assert(same_dims(rows, rows));
                    },
                    BlockView::Ink { strokes, .. } => {
                        assert(same_strokes(strokes, strokes));
                    },
                    _ => {},
                }
            }
        }
    }
}

/// Planning a project that was not edited since it was imported gives a plan
/// with no title change and no paragraph change: writing it back changes
/// nothing.
pub proof fn lemma_unedited_import_plans_nothing(project: Project, nb: Notebook)
    ensures
        planned(project, project, nb) == Ok::<(Seq<TitleChange>, Seq<TextChange>), NativeEditError>(
            (Seq::<TitleChange>::empty(), Seq::<TextChange>::empty()),
        ),
{
    let ss = project.sections@;
    lemma_sections_unedited(ss, ss.len() as int, nb);
    assert(ss.take(ss.len() as int) =~= ss);
    lemma_project_agrees_with_itself(project);
}

} // verus!
