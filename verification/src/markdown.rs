//! Markdown export of a project's editable content.

use crate::model::{
    first_asset_index, rows_view, AssetView, BlockView, CanvasLayout, EditorBlock, Project,
};
use crate::text::{decimal, push_decimal};
use vstd::prelude::*;

verus! {

/// `"  "` repeated `indent` times.
pub open spec fn indentation(indent: nat) -> Seq<char> {
    Seq::new(2 * indent, |i: int| ' ')
}

/// The widest row of a table.
pub open spec fn column_count(rows: Seq<Seq<Seq<char>>>) -> nat
    decreases rows.len(),
{
    if rows.len() == 0 {
        0
    } else {
        let rest = column_count(rows.drop_last());
        if rows.last().len() > rest {
            rows.last().len()
        } else {
            rest
        }
    }
}

/// The cell at `column` of `row`, or nothing when the row is shorter.
pub open spec fn cell_text(row: Seq<Seq<char>>, column: int) -> Seq<char> {
    if 0 <= column < row.len() {
        row[column]
    } else {
        Seq::<char>::empty()
    }
}

/// The first `k` cells of a Markdown table line.
pub open spec fn cells_markdown(row: Seq<Seq<char>>, k: nat) -> Seq<char>
    decreases k,
{
    if k == 0 {
        Seq::<char>::empty()
    } else {
        cells_markdown(row, (k - 1) as nat) + (if k == 1 {
            "| "@
        } else {
            " | "@
        }) + cell_text(row, k - 1)
    }
}

/// One Markdown table line with `columns` cells.
pub open spec fn line_markdown(row: Seq<Seq<char>>, columns: nat) -> Seq<char> {
    cells_markdown(row, columns) + " |\n"@
}

/// `" --- |"` repeated `columns` times.
pub open spec fn separator_cells(columns: nat) -> Seq<char>
    decreases columns,
{
    if columns == 0 {
        Seq::<char>::empty()
    } else {
        separator_cells((columns - 1) as nat) + " --- |"@
    }
}

/// The lines of the rows after the header.
pub open spec fn body_lines(rows: Seq<Seq<Seq<char>>>, columns: nat) -> Seq<char>
    decreases rows.len(),
{
    if rows.len() == 0 {
        Seq::<char>::empty()
    } else {
        body_lines(rows.drop_last(), columns) + line_markdown(rows.last(), columns)
    }
}

/// A Markdown table: the first row as header, a separator line, the other
/// rows, and a blank line; nothing for a table without cells.
pub open spec fn table_markdown(rows: Seq<Seq<Seq<char>>>) -> Seq<char> {
    let columns = column_count(rows);
    if columns == 0 {
        Seq::<char>::empty()
    } else {
        line_markdown(if rows.len() > 0 {
            rows[0]
        } else {
            Seq::<Seq<char>>::empty()
        }, columns) + "|"@ + separator_cells(columns) + "\n"@ + body_lines(
            rows.skip(1),
            columns,
        ) + "\n"@
    }
}

/// A link to an exported asset: `dir/stored_name`.
pub open spec fn asset_link(dir: Seq<char>, a: AssetView) -> Seq<char> {
    dir + "/"@ + a.stored_name
}

/// The Markdown of one block.
pub open spec fn block_markdown(assets: Seq<AssetView>, dir: Seq<char>, b: BlockView) -> Seq<char> {
    match b {
        BlockView::Text { text, indent, .. } => indentation(indent as nat) + text + "\n\n"@,
        BlockView::Table { rows, .. } => table_markdown(rows),
        BlockView::Image { asset_id, .. } => match first_asset_index(assets, asset_id) {
            Some(i) => "!["@ + assets[i].filename + "]("@ + asset_link(dir, assets[i]) + ")\n\n"@,
            None => Seq::<char>::empty(),
        },
        BlockView::Attachment { asset_id, .. } => match first_asset_index(assets, asset_id) {
            Some(i) => "[Attachment: "@ + assets[i].filename + "]("@ + asset_link(dir, assets[i])
                + ")\n\n"@,
            None => Seq::<char>::empty(),
        },
        BlockView::Ink { stroke_count, .. } => "_[Ink: "@ + decimal(stroke_count as nat)
            + " strokes]_\n\n"@,
        BlockView::Unsupported { description, .. } => "_[Unsupported: "@ + description + "]_\n\n"@,
    }
}

/// The Markdown of a sequence of blocks.
pub open spec fn blocks_markdown(assets: Seq<AssetView>, dir: Seq<char>, bs: Seq<BlockView>) -> Seq<
    char,
>
    decreases bs.len(),
{
    if bs.len() == 0 {
        Seq::<char>::empty()
    } else {
        blocks_markdown(assets, dir, bs.drop_last()) + block_markdown(assets, dir, bs.last())
    }
}

/// The Markdown of a project: its name as title, each section and page as a
/// heading, and each block in order. Images and attachments link into `dir`.
pub open spec fn project_markdown(p: Project, dir: Seq<char>) -> Seq<char> {
    "# "@ + p.name@ + "\n\n"@ + sections_markdown(p, dir, p.sections@.len() as nat)
}

/// The Markdown of the first `k` sections.
pub open spec fn sections_markdown(p: Project, dir: Seq<char>, k: nat) -> Seq<char>
    decreases k,
{
    if k == 0 {
        Seq::<char>::empty()
    } else {
        let s = p.sections@[k - 1];
        sections_markdown(p, dir, (k - 1) as nat) + "## "@ + s.name@ + "\n\n"@ + pages_markdown(
            p,
            dir,
            k - 1,
            s.pages@.len() as nat,
        )
    }
}

/// The Markdown of the first `k` pages of section `s`.
pub open spec fn pages_markdown(p: Project, dir: Seq<char>, s: int, k: nat) -> Seq<char>
    decreases k,
{
    if k == 0 {
        Seq::<char>::empty()
    } else {
        let page = p.sections@[s].pages@[k - 1];
        pages_markdown(p, dir, s, (k - 1) as nat) + "### "@ + page.title@ + "\n\n"@
            + blocks_markdown(p@.assets, dir, page@.blocks)
    }
}

/// Appends a Markdown table of `rows`: the first row as header, a separator
/// line, the other rows, and a blank line; nothing for a table without cells.
pub fn append_table(output: &mut String, rows: &Vec<Vec<String>>)
    ensures
        final(output)@ == old(output)@ + table_markdown(rows_view(rows@)),
{
    let ghost rv = rows_view(rows@);
    let mut columns: usize = 0;
    let mut i: usize = 0;
    while i < rows.len()
        invariant
            i <= rows@.len(),
            rv == rows_view(rows@),
            columns == column_count(rv.take(i as int)),
        decreases rows@.len() - i,
    {
        assert(rv.take(i + 1).drop_last() =~= rv.take(i as int));
        if rows[i].len() > columns {
            columns = rows[i].len();
        }
        i = i + 1;
    }
    assert(rv.take(i as int) =~= rv);
    if columns == 0 {
        return;
    }
    let ghost start = output@;
    let ghost header = if rv.len() > 0 {
        rv[0]
    } else {
        Seq::<Seq<char>>::empty()
    };
    let empty: Vec<String> = Vec::new();
    let first: &Vec<String> = if rows.len() > 0 {
        &rows[0]
    } else {
        &empty
    };
    assert(first@.map_values(|c: String| c@) =~= header);
    append_line(output, first, columns);
    output.append("|");
    let mut c: usize = 0;
    let ghost mid = output@;
    while c < columns
        invariant
            c <= columns,
            output@ == mid + separator_cells(c as nat),
        decreases columns - c,
    {
        output.append(" --- |");
        c = c + 1;
    }
    output.append("\n");
    let ghost body_start = output@;
    let mut r: usize = 1;
    assert(rv.skip(1).take(0) =~= Seq::<Seq<Seq<char>>>::empty());
    while r < rows.len()
        invariant
            1 <= r <= rows@.len() || (r == 1 && rows@.len() == 0),
            rv == rows_view(rows@),
            output@ == body_start + body_lines(rv.skip(1).take(r - 1), columns as nat),
        decreases rows@.len() - r,
    {
        assert(rv.skip(1).take(r as int).drop_last() =~= rv.skip(1).take(r - 1));
        assert(rv.skip(1).take(r as int).last() == rv[r as int]);
        append_line(output, &rows[r], columns);
        r = r + 1;
    }
    proof {
        if rows@.len() > 0 {
            assert(rv.skip(1).take(r - 1) =~= rv.skip(1));
        } else {
            assert(rv.skip(1) =~= Seq::<Seq<Seq<char>>>::empty());
            assert(rv.skip(1).take(0) =~= rv.skip(1));
        }
    }
    output.append("\n");
}

/// Appends one table line with `columns` cells.
fn append_line(output: &mut String, row: &Vec<String>, columns: usize)
    ensures
        final(output)@ == old(output)@ + line_markdown(row@.map_values(|c: String| c@), columns as nat),
{
    let ghost rv = row@.map_values(|c: String| c@);
    let mut c: usize = 0;
    while c < columns
        invariant
            c <= columns,
            rv == row@.map_values(|c: String| c@),
            output@ == old(output)@ + cells_markdown(rv, c as nat),
        decreases columns - c,
    {
        if c == 0 {
            output.append("| ");
        } else {
            output.append(" | ");
        }
        if c < row.len() {
            output.append(row[c].as_str());
        }
        c = c + 1;
    }
    output.append(" |\n");
}

/// Appends `"  "` times `indent`, the text and a blank line.
fn append_text(output: &mut String, text: &String, indent: u8)
    ensures
        final(output)@ == old(output)@ + indentation(indent as nat) + text@ + "\n\n"@,
{
    let mut k: u8 = 0;
    assert(indentation(0) =~= Seq::<char>::empty());
    while k < indent
        invariant
            k <= indent,
            output@ == old(output)@ + indentation(k as nat),
        decreases indent - k,
    {
        output.append("  ");
        k = k + 1;
        assert(indentation((k - 1) as nat) + "  "@ =~= indentation(k as nat)) by {
            reveal_strlit("  ");
        }
    }
    output.append(text.as_str());
    output.append("\n\n");
}

/// Appends a link to an exported asset after `opening`.
fn append_asset(output: &mut String, opening: &str, filename: &String, dir: &str, stored: &String)
    ensures
        final(output)@ == old(output)@ + opening@ + filename@ + "]("@ + (dir@ + "/"@ + stored@)
            + ")\n\n"@,
{
    output.append(opening);
    output.append(filename.as_str());
    output.append("](");
    output.append(dir);
    output.append("/");
    output.append(stored.as_str());
    output.append(")\n\n");
    assert(output@ =~= old(output)@ + opening@ + filename@ + "]("@ + (dir@ + "/"@ + stored@)
        + ")\n\n"@);
}

/// Appends the Markdown of one block.
fn append_block(output: &mut String, project: &Project, dir: &str, block: &EditorBlock)
    ensures
        final(output)@ == old(output)@ + block_markdown(project@.assets, dir@, block@),
{
    match block {
        EditorBlock::Text { text, indent, .. } => {
            append_text(output, text, *indent);
            assert(old(output)@ + indentation(*indent as nat) + text@ + "\n\n"@ =~= old(output)@
                + (indentation(*indent as nat) + text@ + "\n\n"@));
        },
        EditorBlock::Table { rows, .. } => append_table(output, rows),
        EditorBlock::Image { asset_id, .. } => {
            if let Some(asset) = project.asset(*asset_id) {
                append_asset(output, "![", &asset.filename, dir, &asset.stored_name);
                assert(old(output)@ + "!["@ + asset.filename@ + "]("@ + (dir@ + "/"@
                    + asset.stored_name@) + ")\n\n"@ =~= old(output)@ + ("!["@ + asset.filename@
                    + "]("@ + (dir@ + "/"@ + asset.stored_name@) + ")\n\n"@));
            } else {
                assert(old(output)@ + Seq::<char>::empty() =~= old(output)@);
            }
        },
        EditorBlock::Attachment { asset_id, .. } => {
            if let Some(asset) = project.asset(*asset_id) {
                append_asset(output, "[Attachment: ", &asset.filename, dir, &asset.stored_name);
                assert(old(output)@ + "[Attachment: "@ + asset.filename@ + "]("@ + (dir@ + "/"@
                    + asset.stored_name@) + ")\n\n"@ =~= old(output)@ + ("[Attachment: "@
                    + asset.filename@ + "]("@ + (dir@ + "/"@ + asset.stored_name@) + ")\n\n"@));
            } else {
                assert(old(output)@ + Seq::<char>::empty() =~= old(output)@);
            }
        },
        EditorBlock::Ink { stroke_count, .. } => {
            output.append("_[Ink: ");
            push_decimal(output, *stroke_count as u64);
            output.append(" strokes]_\n\n");
            assert(output@ =~= old(output)@ + ("_[Ink: "@ + decimal(*stroke_count as nat)
                + " strokes]_\n\n"@));
        },
        EditorBlock::Unsupported { description, .. } => {
            output.append("_[Unsupported: ");
            output.append(description.as_str());
            output.append("]_\n\n");
            assert(output@ =~= old(output)@ + ("_[Unsupported: "@ + description@ + "]_\n\n"@));
        },
    }
}

impl Project {
    /// The project as Markdown: the notebook name as title, a heading for each
    /// section and page, then each block; images and attachments link to
    /// their stored files in the directory `assets_dir`.
    pub fn markdown(&self, assets_dir: &str) -> (r: String)
        ensures
            r@ == project_markdown(*self, assets_dir@),
    {
        let mut output = String::from_str("# ");
        output.append(self.name.as_str());
        output.append("\n\n");
        let mut s: usize = 0;
        let ghost head = output@;
        while s < self.sections.len()
            invariant
                s <= self.sections@.len(),
                output@ == head + sections_markdown(*self, assets_dir@, s as nat),
            decreases self.sections@.len() - s,
        {
            let section = &self.sections[s];
            output.append("## ");
            output.append(section.name.as_str());
            output.append("\n\n");
            let ghost section_start = output@;
            let mut p: usize = 0;
            while p < section.pages.len()
                invariant
                    p <= section.pages@.len(),
                    section == self.sections@[s as int],
                    s < self.sections@.len(),
                    output@ == section_start + pages_markdown(*self, assets_dir@, s as int, p as nat),
                decreases section.pages@.len() - p,
            {
                let page = &section.pages[p];
                output.append("### ");
                output.append(page.title.as_str());
                output.append("\n\n");
                let ghost page_start = output@;
                let mut b: usize = 0;
                assert(page@.blocks.take(0) =~= Seq::<BlockView>::empty());
                while b < page.blocks.len()
                    invariant
                        b <= page.blocks@.len(),
                        page == section.pages@[p as int],
                        output@ == page_start + blocks_markdown(
                            self@.assets,
                            assets_dir@,
                            page@.blocks.take(b as int),
                        ),
                    decreases page.blocks@.len() - b,
                {
                    assert(page@.blocks.take(b + 1).drop_last() =~= page@.blocks.take(b as int));
                    append_block(&mut output, self, assets_dir, &page.blocks[b]);
                    b = b + 1;
                }
                assert(page@.blocks.take(b as int) =~= page@.blocks);
                p = p + 1;
            }
            s = s + 1;
        }
        output
    }
}

/// The first asset with identifier `id` is the one at `i`.
proof fn lemma_first_asset_index_is(assets: Seq<AssetView>, id: u64, i: int)
    requires
        0 <= i < assets.len(),
        assets[i].id == id,
        forall|j: int| 0 <= j < i ==> assets[j].id != id,
    ensures
        first_asset_index(assets, id) == Some(i),
{
    let k = choose|k: int|
        0 <= k < assets.len() && assets[k].id == id && forall|j: int| 0 <= j < k ==> assets[j].id != id;
    assert(0 <= k < assets.len() && assets[k].id == id);
    if k < i {
        assert(assets[k].id != id);
    }
    if i < k {
        assert(assets[i].id != id);
    }
}

/// An image whose asset is listed is embedded as a Markdown image: `!`, `[`,
/// the asset's file name, `](`, the assets directory, `/`, the asset's stored
/// name, `)` and a blank line. An attachment of the same asset is a plain link
/// instead, which starts with `[`, not `!`.
pub proof fn lemma_image_is_embedded(
    assets: Seq<AssetView>,
    dir: Seq<char>,
    id: u64,
    asset_id: u64,
    layout: CanvasLayout,
    i: int,
)
    requires
        0 <= i < assets.len(),
        assets[i].id == asset_id,
        forall|j: int| 0 <= j < i ==> assets[j].id != asset_id,
    ensures
        block_markdown(assets, dir, BlockView::Image { id, asset_id, layout }) == seq!['!', '[']
            + assets[i].filename + seq![']', '('] + dir + seq!['/'] + assets[i].stored_name + seq![
            ')',
            '\n',
            '\n',
        ],
        block_markdown(assets, dir, BlockView::Attachment { id, asset_id, layout }) == "[Attachment: "@
            + assets[i].filename + seq![']', '('] + dir + seq!['/'] + assets[i].stored_name + seq![
            ')',
            '\n',
            '\n',
        ],
        block_markdown(assets, dir, BlockView::Attachment { id, asset_id, layout })[0] == '[',
{
    reveal_strlit("![");
    reveal_strlit("](");
    reveal_strlit("/");
    reveal_strlit(")\n\n");
    reveal_strlit("[Attachment: ");
    lemma_first_asset_index_is(assets, asset_id, i);
    let a = assets[i];
    assert(block_markdown(assets, dir, BlockView::Image { id, asset_id, layout }) =~= seq!['!', '[']
        + a.filename + seq![']', '('] + dir + seq!['/'] + a.stored_name + seq![')', '\n', '\n']);
    assert(block_markdown(assets, dir, BlockView::Attachment { id, asset_id, layout })
        =~= "[Attachment: "@ + a.filename + seq![']', '('] + dir + seq!['/'] + a.stored_name + seq![
        ')',
        '\n',
        '\n',
    ]);
}

/// The Markdown of a list of blocks is the Markdown of its first part followed
/// by that of the rest: every block is written, once, in order.
pub proof fn lemma_blocks_markdown_concat(
    assets: Seq<AssetView>,
    dir: Seq<char>,
    a: Seq<BlockView>,
    b: Seq<BlockView>,
)
    ensures
        blocks_markdown(assets, dir, a + b) == blocks_markdown(assets, dir, a) + blocks_markdown(
            assets,
            dir,
            b,
        ),
    decreases b.len(),
{
    if b.len() == 0 {
        assert(a + b =~= a);
        assert(blocks_markdown(assets, dir, a) + Seq::<char>::empty() =~= blocks_markdown(assets, dir, a));
    } else {
        lemma_blocks_markdown_concat(assets, dir, a, b.drop_last());
        assert((a + b).drop_last() =~= a + b.drop_last());
        assert((a + b).last() == b.last());
        assert(blocks_markdown(assets, dir, a) + blocks_markdown(assets, dir, b.drop_last())
            + block_markdown(assets, dir, b.last()) =~= blocks_markdown(assets, dir, a) + (
        blocks_markdown(assets, dir, b.drop_last()) + block_markdown(assets, dir, b.last())));
    }
}

/// A list of one block is written as that block.
pub proof fn lemma_single_block_markdown(assets: Seq<AssetView>, dir: Seq<char>, b: BlockView)
    ensures
        blocks_markdown(assets, dir, seq![b]) == block_markdown(assets, dir, b),
{
    let one = seq![b];
    assert(one.drop_last() =~= Seq::<BlockView>::empty());
    assert(one.last() == b);
    assert(blocks_markdown(assets, dir, one.drop_last()) == Seq::<char>::empty());
    assert(Seq::<char>::empty() + block_markdown(assets, dir, b) =~= block_markdown(assets, dir, b));
}

} // verus!
