//! DOCX (Office Open XML) to Markdown.
//!
//! A table is buffered in full (rows of cells, each cell a list of paragraph
//! blocks) and then rendered as one GFM table of its grid width, with a
//! tab-separated plain-text twin. A table holding a nested table is
//! linearized instead: every non-blank block is emitted on its own.

use vstd::prelude::*;

use std::io::Cursor;

use crate::converter::docx_body::{body_fold, opt_str, parse_document, target_file_name, BodyV};
use crate::converter::{
    imgs_view, resolve_plain_without_describer, resolve_without_describer, warns_view,
};
use crate::converter::docx_comments::{append_comments, extract_docx_comments, Comment};
use crate::converter::docx_styles::{
    instances_view, levels_view, numbering_fold, parse_numbering, parse_styles, styles_fold,
    styles_view, NumberingDefs,
};
use crate::converter::ooxml_utils::{rels_from_tokens, rels_view, resolve_file_spec};
use crate::xml_io::xml_tokens;
use crate::converter::ooxml_utils::{parse_relationships, resolve_relative_to_file, Relationship};
use crate::converter::ImageInfo;
use crate::converter::{
    resolve_image_placeholders, warning, ConversionOptions, ConversionResult, ConversionWarning,
    Converter, ImageDescriber, NoDescriber, PendingImageResolution, WarningCode,
};
use crate::error::ConvertError;
use crate::zip_io::{open_archive, zip_entry_names, zip_entry_read};
use crate::zip_utils::{
    budget_outcome, part_text, read_zip_bytes, read_zip_text, validate_zip_budget,
};
use crate::markdown::{build_table, build_table_plain, fit_row, md_table, pad_row, plain_table};
use crate::text::{
    chars_of, contains_seq, decimal, decimal_chars, is_blank, lemma_deep_view_chars, push_all, push_str,
    string_from_chars, trim, trim_end, trim_end_ws, trim_ws,
};

verus! {

broadcast use vstd::string::group_string_axioms;

/// The widest grid a table is rendered with; wider rows lose trailing columns.
pub const MAX_TABLE_COLS: usize = 4096;

/// The most cells (grid path) or blocks (linearized path) one table emits.
pub const MAX_TABLE_CELLS: usize = 100000;

// ---------------------------------------------------------------------------
// Table model
// ---------------------------------------------------------------------------

/// Vertical-merge state of a table cell (`<w:vMerge>`).
#[derive(Debug, Clone, Copy, PartialEq, Eq, Structural)]
pub enum VMerge {
    /// Not vertically merged.
    NotMerged,
    /// Top cell of a vertical merge (`<w:vMerge w:val="restart"/>`).
    Restart,
    /// Continuation cell of a vertical merge (a bare `<w:vMerge/>`).
    Continue,
}

impl Default for VMerge {
    fn default() -> (r: Self)
        ensures
            r == VMerge::NotMerged,
    {
        VMerge::NotMerged
    }
}

/// One paragraph of content buffered inside a table cell, in Markdown and in
/// plain text (both untrimmed).
#[derive(Debug)]
pub struct DocxCellBlock {
    /// Markdown form of the paragraph.
    pub md: String,
    /// Plain-text form of the paragraph.
    pub plain: String,
    /// True when this block is a fully rendered nested table.
    pub is_table: bool,
}

/// A buffered table cell with its horizontal span, merge state and blocks.
#[derive(Debug)]
pub struct DocxCell {
    /// Grid columns this cell spans (`<w:gridSpan w:val>`); 0 counts as 1.
    pub grid_span: usize,
    /// Vertical-merge state (`<w:vMerge>`).
    pub v_merge: VMerge,
    /// Content paragraphs, in document order.
    pub blocks: Vec<DocxCellBlock>,
}

impl Default for DocxCell {
    fn default() -> (r: Self)
        ensures
            r.grid_span == 1,
            r.v_merge == VMerge::NotMerged,
            r.blocks@.len() == 0,
    {
        DocxCell { grid_span: 1, v_merge: VMerge::NotMerged, blocks: Vec::new() }
    }
}

/// A buffered table row.
#[derive(Debug)]
pub struct DocxRow {
    /// Cells in document order.
    pub cells: Vec<DocxCell>,
}

impl Default for DocxRow {
    fn default() -> (r: Self)
        ensures
            r.cells@.len() == 0,
    {
        DocxRow { cells: Vec::new() }
    }
}

/// A buffered table: its completed rows, the declared grid width and the
/// row and cell being filled while parsing.
#[derive(Debug)]
pub struct DocxTable {
    /// Completed rows, in document order.
    pub rows: Vec<DocxRow>,
    /// Grid column count from `<w:tblGrid>`/`<w:gridCol>` (0 if absent).
    pub grid_width: usize,
    /// In-progress row.
    pub current_row: DocxRow,
    /// In-progress cell.
    pub current_cell: DocxCell,
    /// Whether a `<w:tr>` is open in this table.
    pub in_row: bool,
    /// Whether a `<w:tc>` is open in this table.
    pub in_cell: bool,
}

impl Default for DocxTable {
    fn default() -> (r: Self)
        ensures
            r.rows@.len() == 0,
            r.grid_width == 0,
            r.current_row.cells@.len() == 0,
            r.current_cell.grid_span == 1,
            r.current_cell.v_merge == VMerge::NotMerged,
            r.current_cell.blocks@.len() == 0,
            !r.in_row,
            !r.in_cell,
    {
        DocxTable {
            rows: Vec::new(),
            grid_width: 0,
            current_row: DocxRow::default(),
            current_cell: DocxCell::default(),
            in_row: false,
            in_cell: false,
        }
    }
}

// ---------------------------------------------------------------------------
// Specifications: cells and rows
// ---------------------------------------------------------------------------

/// The text of a block in the Markdown stream or in the plain stream.
pub open spec fn block_text(b: DocxCellBlock, plain: bool) -> Seq<char> {
    if plain {
        b.plain@
    } else {
        b.md@
    }
}

/// Blocks joined into one line: each block trimmed, with one space before
/// every non-empty block after the first.
pub open spec fn joined_blocks(bs: Seq<DocxCellBlock>, plain: bool) -> Seq<char>
    decreases bs.len(),
{
    if bs.len() == 0 {
        Seq::empty()
    } else {
        let t = block_text(bs.last(), plain);
        joined_blocks(bs.drop_last(), plain) + (if bs.len() > 1 && t.len() > 0 {
            seq![' ']
        } else {
            Seq::empty()
        }) + trim_ws(t)
    }
}

/// The text a cell shows in a grid: its joined blocks, trimmed.
pub open spec fn cell_text(c: DocxCell, plain: bool) -> Seq<char> {
    trim_ws(joined_blocks(c.blocks@, plain))
}

/// The columns a cell claims: its span (at least 1), cut to the columns
/// still free in a grid of width `w` once `used` are taken (at least 1).
pub open spec fn clamped_span(grid_span: nat, w: nat, used: nat) -> nat {
    let gs: nat = if grid_span >= 1 {
        grid_span
    } else {
        1
    };
    let free: nat = if w > used {
        (w - used) as nat
    } else {
        0
    };
    let cap: nat = if free >= 1 {
        free
    } else {
        1
    };
    if gs <= cap {
        gs
    } else {
        cap
    }
}

/// The columns of a row before fitting: each cell's text in its first
/// column, followed by an empty column for each further column it spans.
pub open spec fn expand_cells(cells: Seq<DocxCell>, w: nat, plain: bool) -> Seq<Seq<char>>
    decreases cells.len(),
{
    if cells.len() == 0 {
        Seq::empty()
    } else {
        let prev = expand_cells(cells.drop_last(), w, plain);
        let span = clamped_span(cells.last().grid_span as nat, w, prev.len());
        prev + seq![cell_text(cells.last(), plain)] + Seq::new(
            (span - 1) as nat,
            |i: int| Seq::<char>::empty(),
        )
    }
}

/// A row spread across a grid of exactly `w` columns.
pub open spec fn expand_row(r: DocxRow, w: nat, plain: bool) -> Seq<Seq<char>> {
    pad_row(expand_cells(r.cells@, w, plain), w)
}

/// Every row spread across a grid of `w` columns.
pub open spec fn expand_rows(rows: Seq<DocxRow>, w: nat, plain: bool) -> Seq<Seq<Seq<char>>> {
    Seq::new(rows.len(), |i: int| expand_row(rows[i], w, plain))
}

/// The grid rendering of `rows`: the first row is the header, the others
/// are data rows; Markdown (escaped GFM) or plain (tab-separated).
pub open spec fn grid_render(rows: Seq<DocxRow>, w: nat, plain: bool) -> Seq<char> {
    let ex = expand_rows(rows, w, plain);
    if plain {
        plain_table(ex[0], ex.drop_first())
    } else {
        md_table(ex[0], ex.drop_first())
    }
}

// ---------------------------------------------------------------------------
// Specifications: grid width
// ---------------------------------------------------------------------------

/// The columns a row's cells span together (each span at least 1).
pub open spec fn span_sum(cells: Seq<DocxCell>) -> int
    decreases cells.len(),
{
    if cells.len() == 0 {
        0
    } else {
        span_sum(cells.drop_last()) + (if cells.last().grid_span >= 1 {
            cells.last().grid_span as int
        } else {
            1
        })
    }
}

/// The widest row's span sum (0 without rows).
pub open spec fn widest_row(rows: Seq<DocxRow>) -> int
    decreases rows.len(),
{
    if rows.len() == 0 {
        0
    } else {
        let a = widest_row(rows.drop_last());
        let b = span_sum(rows.last().cells@);
        if a >= b {
            a
        } else {
            b
        }
    }
}

/// The uncapped grid width: the declared grid width or the widest row,
/// whichever is larger (the declared width is a floor).
pub open spec fn raw_grid_width(t: DocxTable) -> int {
    let wr = widest_row(t.rows@);
    if t.grid_width >= wr {
        t.grid_width as int
    } else {
        wr
    }
}

/// The grid width a table is rendered with: the raw width, at most
/// [`MAX_TABLE_COLS`].
pub open spec fn grid_width_of(t: DocxTable) -> int {
    let raw = raw_grid_width(t);
    if raw <= MAX_TABLE_COLS {
        raw
    } else {
        MAX_TABLE_COLS as int
    }
}

/// Rows kept on the grid path: `MAX_TABLE_CELLS / w`, at least 1.
pub open spec fn max_grid_rows(w: nat) -> nat {
    let q = MAX_TABLE_CELLS as nat / w;
    if q >= 1 {
        q
    } else {
        1
    }
}

// ---------------------------------------------------------------------------
// Specifications: nested tables and linearization
// ---------------------------------------------------------------------------

/// Whether some cell of the row holds a nested-table block.
pub open spec fn row_has_nested(r: DocxRow) -> bool {
    exists|i: int, j: int|
        0 <= i < r.cells@.len() && 0 <= j < r.cells@[i].blocks@.len()
            && #[trigger] r.cells@[i].blocks@[j].is_table
}

/// Whether some row of the table holds a nested-table block.
pub open spec fn table_has_nested(t: DocxTable) -> bool {
    exists|k: int| 0 <= k < t.rows@.len() && #[trigger] row_has_nested(t.rows@[k])
}

/// Whether some block of the table has text in either stream.
pub open spec fn table_has_content(t: DocxTable) -> bool {
    exists|k: int, i: int, j: int|
        0 <= k < t.rows@.len() && 0 <= i < t.rows@[k].cells@.len() && 0 <= j
            < t.rows@[k].cells@[i].blocks@.len() && #[trigger] block_has_text(
            t.rows@[k].cells@[i].blocks@[j],
        )
}

/// Whether a block has text in either stream.
pub open spec fn block_has_text(b: DocxCellBlock) -> bool {
    trim_ws(b.md@).len() > 0 || trim_ws(b.plain@).len() > 0
}

/// The blocks of some cells, in order.
pub open spec fn cells_blocks(cells: Seq<DocxCell>) -> Seq<DocxCellBlock>
    decreases cells.len(),
{
    if cells.len() == 0 {
        Seq::empty()
    } else {
        cells_blocks(cells.drop_last()) + cells.last().blocks@
    }
}

/// The blocks of some rows, in order.
pub open spec fn rows_blocks(rows: Seq<DocxRow>) -> Seq<DocxCellBlock>
    decreases rows.len(),
{
    if rows.len() == 0 {
        Seq::empty()
    } else {
        rows_blocks(rows.drop_last()) + cells_blocks(rows.last().cells@)
    }
}

/// What a block adds to the linearized Markdown: its text without trailing
/// whitespace and a blank line, except an empty nested table, which adds
/// nothing.
pub open spec fn md_piece(b: DocxCellBlock) -> Seq<char> {
    if b.is_table && trim_end_ws(b.md@).len() == 0 {
        Seq::empty()
    } else {
        trim_end_ws(b.md@) + seq!['\n', '\n']
    }
}

/// What a block adds to the linearized plain text: its text without
/// trailing whitespace and a newline, except an empty nested table.
pub open spec fn plain_piece(b: DocxCellBlock) -> Seq<char> {
    if b.is_table && trim_end_ws(b.plain@).len() == 0 {
        Seq::empty()
    } else {
        trim_end_ws(b.plain@) + seq!['\n']
    }
}

/// The linearization state: Markdown so far, plain text so far, blocks
/// emitted, and whether the block budget ran out.
pub type LinState = (Seq<char>, Seq<char>, nat, bool);

/// One block's effect on the linearization: blocks blank in both streams
/// are skipped; once [`MAX_TABLE_CELLS`] blocks are out, the next one with
/// text marks the output truncated and nothing more is emitted.
pub open spec fn lin_step(s: LinState, b: DocxCellBlock) -> LinState {
    if s.3 || !block_has_text(b) {
        s
    } else if s.2 >= MAX_TABLE_CELLS {
        (s.0, s.1, s.2, true)
    } else {
        (s.0 + md_piece(b), s.1 + plain_piece(b), s.2 + 1, false)
    }
}

/// The linearization of a block sequence from state `s`.
pub open spec fn lin_fold(s: LinState, bs: Seq<DocxCellBlock>) -> LinState
    decreases bs.len(),
{
    if bs.len() == 0 {
        s
    } else {
        lin_step(lin_fold(s, bs.drop_last()), bs.last())
    }
}

/// The linearization of a whole table.
pub open spec fn lin_table(t: DocxTable) -> LinState {
    lin_fold((Seq::empty(), Seq::empty(), 0, false), rows_blocks(t.rows@))
}

/// `s` without trailing whitespace and, if anything is left, one newline.
pub open spec fn single_newline(s: Seq<char>) -> Seq<char> {
    if trim_end_ws(s).len() == 0 {
        Seq::empty()
    } else {
        trim_end_ws(s) + seq!['\n']
    }
}

// ---------------------------------------------------------------------------
// Specifications: a rendered table
// ---------------------------------------------------------------------------

/// The rows rendered on the grid path: at most [`max_grid_rows`].
pub open spec fn grid_rows(t: DocxTable) -> Seq<DocxRow> {
    let n = max_grid_rows(grid_width_of(t) as nat);
    if t.rows@.len() <= n {
        t.rows@
    } else {
        t.rows@.subrange(0, n as int)
    }
}

/// A rendered table in one stream. A table without rows or of grid width 0
/// renders empty; one without nested tables renders as a grid of its grid
/// width; one with a nested table is linearized.
pub open spec fn table_render(t: DocxTable, plain: bool) -> Seq<char> {
    let w = grid_width_of(t);
    if t.rows@.len() == 0 || w == 0 {
        Seq::empty()
    } else if !table_has_nested(t) {
        grid_render(grid_rows(t), w as nat, plain)
    } else if plain {
        single_newline(lin_table(t).1)
    } else {
        single_newline(lin_table(t).0)
    }
}

/// The warning for columns dropped by the width cap.
pub open spec fn cols_dropped_message() -> Seq<char> {
    "table row exceeded the 4096-column limit; extra columns were dropped"@
}

/// The warning for rows dropped on the grid path.
pub open spec fn rows_dropped_message(max_rows: nat) -> Seq<char> {
    "table truncated to "@ + decimal(max_rows) + " rows (limit 100000 cells)"@
}

/// The warning for blocks dropped on the linearized path.
pub open spec fn blocks_dropped_message() -> Seq<char> {
    "table linearization truncated to 100000 blocks (limit 100000 cells)"@
}

/// The messages of the warnings rendering a table adds, in order: on the
/// grid path one when columns were cut and one when rows were cut, on the
/// linearized path one when blocks were cut.
pub open spec fn table_warnings(t: DocxTable) -> Seq<Seq<char>> {
    let w = grid_width_of(t);
    if t.rows@.len() == 0 || w == 0 {
        Seq::empty()
    } else if !table_has_nested(t) {
        (if raw_grid_width(t) > w {
            seq![cols_dropped_message()]
        } else {
            Seq::empty()
        }) + (if t.rows@.len() > max_grid_rows(w as nat) {
            seq![rows_dropped_message(max_grid_rows(w as nat))]
        } else {
            Seq::empty()
        })
    } else if lin_table(t).3 {
        seq![blocks_dropped_message()]
    } else {
        Seq::empty()
    }
}

/// `after` is `before` with one resource-limit warning appended per message.
pub open spec fn warnings_appended(
    before: Seq<ConversionWarning>,
    after: Seq<ConversionWarning>,
    messages: Seq<Seq<char>>,
) -> bool {
    &&& after.len() == before.len() + messages.len()
    &&& after.subrange(0, before.len() as int) == before
    &&& forall|j: int|
        0 <= j < messages.len() ==> {
            &&& (#[trigger] after[before.len() + j]).code == WarningCode::ResourceLimitReached
            &&& after[before.len() + j].message@ == messages[j]
            &&& after[before.len() + j].location is None
        }
}

// ---------------------------------------------------------------------------
// Tables as plain values
// ---------------------------------------------------------------------------

/// A cell block as plain values.
pub struct BlockV {
    pub md: Seq<char>,
    pub plain: Seq<char>,
    pub is_table: bool,
}

/// A table cell as plain values.
pub struct CellV {
    pub grid_span: usize,
    pub v_merge: VMerge,
    pub blocks: Seq<BlockV>,
}

/// A table row as plain values.
pub struct RowV {
    pub cells: Seq<CellV>,
}

/// A table being read, as plain values.
pub struct TableV {
    pub rows: Seq<RowV>,
    pub grid_width: usize,
    pub current_row: RowV,
    pub current_cell: CellV,
    pub in_row: bool,
    pub in_cell: bool,
}

impl View for DocxCellBlock {
    type V = BlockV;

    open spec fn view(&self) -> BlockV {
        BlockV { md: self.md@, plain: self.plain@, is_table: self.is_table }
    }
}

/// The views of some blocks.
pub open spec fn blocks_view(bs: Seq<DocxCellBlock>) -> Seq<BlockV> {
    bs.map_values(|b: DocxCellBlock| b@)
}

impl View for DocxCell {
    type V = CellV;

    open spec fn view(&self) -> CellV {
        CellV { grid_span: self.grid_span, v_merge: self.v_merge, blocks: blocks_view(self.blocks@) }
    }
}

/// The views of some cells.
pub open spec fn cells_view(cs: Seq<DocxCell>) -> Seq<CellV> {
    cs.map_values(|c: DocxCell| c@)
}

impl View for DocxRow {
    type V = RowV;

    open spec fn view(&self) -> RowV {
        RowV { cells: cells_view(self.cells@) }
    }
}

/// The views of some rows.
pub open spec fn rows_view(rs: Seq<DocxRow>) -> Seq<RowV> {
    rs.map_values(|r: DocxRow| r@)
}

impl View for DocxTable {
    type V = TableV;

    open spec fn view(&self) -> TableV {
        TableV {
            rows: rows_view(self.rows@),
            grid_width: self.grid_width,
            current_row: self.current_row@,
            current_cell: self.current_cell@,
            in_row: self.in_row,
            in_cell: self.in_cell,
        }
    }
}

/// A table with view `tv`; every specification of a table depends on its
/// view alone (see [`lemma_table_congruent`]).
pub open spec fn table_with_view(tv: TableV) -> DocxTable {
    choose|t: DocxTable| t@ == tv
}

/// Joined blocks depend on the blocks' views alone.
proof fn lemma_joined_congruent(a: Seq<DocxCellBlock>, b: Seq<DocxCellBlock>, plain: bool)
    requires
        blocks_view(a) == blocks_view(b),
    ensures
        joined_blocks(a, plain) == joined_blocks(b, plain),
    decreases a.len(),
{
    assert(a.len() == blocks_view(a).len() && b.len() == blocks_view(b).len());
    if a.len() > 0 {
        assert(blocks_view(a.drop_last()) =~= blocks_view(b.drop_last())) by {
            assert forall|i: int| 0 <= i < a.len() - 1 implies blocks_view(a.drop_last())[i]
                == blocks_view(b.drop_last())[i] by {
                assert(blocks_view(a)[i] == blocks_view(b)[i]);
                assert(blocks_view(a.drop_last())[i] == a.drop_last()[i]@);
                assert(blocks_view(b.drop_last())[i] == b.drop_last()[i]@);
                assert(blocks_view(a)[i] == a[i]@);
                assert(blocks_view(b)[i] == b[i]@);
            }
        }
        lemma_joined_congruent(a.drop_last(), b.drop_last(), plain);
        assert(blocks_view(a)[a.len() - 1] == blocks_view(b)[a.len() - 1]);
        assert(blocks_view(a)[a.len() - 1] == a[a.len() - 1]@);
        assert(blocks_view(b)[a.len() - 1] == b[a.len() - 1]@);
    assert(blocks_view(a)[a.len() - 1] == a[a.len() - 1]@);
    assert(blocks_view(b)[a.len() - 1] == b[a.len() - 1]@);
    }
}

/// A cell's text depends on its view alone.
proof fn lemma_cell_text_congruent(a: DocxCell, b: DocxCell, plain: bool)
    requires
        a@ == b@,
    ensures
        cell_text(a, plain) == cell_text(b, plain),
{
    lemma_joined_congruent(a.blocks@, b.blocks@, plain);
}

/// Views of the cells without the last one.
proof fn lemma_cells_view_drop_last(a: Seq<DocxCell>, b: Seq<DocxCell>)
    requires
        cells_view(a) == cells_view(b),
        a.len() > 0,
    ensures
        a.len() == b.len(),
        cells_view(a.drop_last()) == cells_view(b.drop_last()),
        a.last()@ == b.last()@,
{
    assert(a.len() == cells_view(a).len() && b.len() == cells_view(b).len());
    assert(cells_view(a.drop_last()) =~= cells_view(b.drop_last())) by {
        assert forall|i: int| 0 <= i < a.len() - 1 implies cells_view(a.drop_last())[i]
            == cells_view(b.drop_last())[i] by {
            assert(cells_view(a)[i] == cells_view(b)[i]);
            assert(cells_view(a.drop_last())[i] == a.drop_last()[i]@);
            assert(cells_view(b.drop_last())[i] == b.drop_last()[i]@);
            assert(cells_view(a)[i] == a[i]@);
            assert(cells_view(b)[i] == b[i]@);
        }
    }
    assert(cells_view(a)[a.len() - 1] == cells_view(b)[a.len() - 1]);
    assert(cells_view(a)[a.len() - 1] == a[a.len() - 1]@);
    assert(cells_view(b)[a.len() - 1] == b[a.len() - 1]@);
}

/// Views of the rows without the last one.
proof fn lemma_rows_view_drop_last(a: Seq<DocxRow>, b: Seq<DocxRow>)
    requires
        rows_view(a) == rows_view(b),
        a.len() > 0,
    ensures
        a.len() == b.len(),
        rows_view(a.drop_last()) == rows_view(b.drop_last()),
        a.last()@ == b.last()@,
{
    assert(a.len() == rows_view(a).len() && b.len() == rows_view(b).len());
    assert(rows_view(a.drop_last()) =~= rows_view(b.drop_last())) by {
        assert forall|i: int| 0 <= i < a.len() - 1 implies rows_view(a.drop_last())[i]
            == rows_view(b.drop_last())[i] by {
            assert(rows_view(a)[i] == rows_view(b)[i]);
            assert(rows_view(a.drop_last())[i] == a.drop_last()[i]@);
            assert(rows_view(b.drop_last())[i] == b.drop_last()[i]@);
            assert(rows_view(a)[i] == a[i]@);
            assert(rows_view(b)[i] == b[i]@);
        }
    }
    assert(rows_view(a)[a.len() - 1] == rows_view(b)[a.len() - 1]);
    assert(rows_view(a)[a.len() - 1] == a[a.len() - 1]@);
    assert(rows_view(b)[a.len() - 1] == b[a.len() - 1]@);
}

/// A row's columns depend on its cells' views alone.
proof fn lemma_expand_cells_congruent(a: Seq<DocxCell>, b: Seq<DocxCell>, w: nat, plain: bool)
    requires
        cells_view(a) == cells_view(b),
    ensures
        expand_cells(a, w, plain) == expand_cells(b, w, plain),
        span_sum(a) == span_sum(b),
    decreases a.len(),
{
    assert(a.len() == cells_view(a).len() && b.len() == cells_view(b).len());
    if a.len() > 0 {
        lemma_cells_view_drop_last(a, b);
        lemma_expand_cells_congruent(a.drop_last(), b.drop_last(), w, plain);
        lemma_cell_text_congruent(a.last(), b.last(), plain);
    }
}

/// The widest row depends on the rows' views alone.
proof fn lemma_widest_congruent(a: Seq<DocxRow>, b: Seq<DocxRow>)
    requires
        rows_view(a) == rows_view(b),
    ensures
        widest_row(a) == widest_row(b),
    decreases a.len(),
{
    assert(a.len() == rows_view(a).len() && b.len() == rows_view(b).len());
    if a.len() > 0 {
        lemma_rows_view_drop_last(a, b);
        lemma_widest_congruent(a.drop_last(), b.drop_last());
        lemma_expand_cells_congruent(a.last().cells@, b.last().cells@, 0, false);
    }
}

/// The grid rendering depends on the rows' views alone.
proof fn lemma_grid_congruent(a: Seq<DocxRow>, b: Seq<DocxRow>, w: nat, plain: bool)
    requires
        rows_view(a) == rows_view(b),
    ensures
        expand_rows(a, w, plain) == expand_rows(b, w, plain),
        grid_render(a, w, plain) == grid_render(b, w, plain),
{
    assert(a.len() == rows_view(a).len() && b.len() == rows_view(b).len());
    assert forall|i: int| 0 <= i < a.len() implies expand_row(a[i], w, plain) == expand_row(
        b[i],
        w,
        plain,
    ) by {
        assert(rows_view(a)[i] == rows_view(b)[i]);
        assert(rows_view(a)[i] == a[i]@);
        assert(rows_view(b)[i] == b[i]@);
        lemma_expand_cells_congruent(a[i].cells@, b[i].cells@, w, plain);
    }
    assert(expand_rows(a, w, plain) =~= expand_rows(b, w, plain));
}

/// The blocks of some cells, by view.
proof fn lemma_cells_blocks_congruent(a: Seq<DocxCell>, b: Seq<DocxCell>)
    requires
        cells_view(a) == cells_view(b),
    ensures
        blocks_view(cells_blocks(a)) == blocks_view(cells_blocks(b)),
    decreases a.len(),
{
    assert(a.len() == cells_view(a).len() && b.len() == cells_view(b).len());
    if a.len() > 0 {
        lemma_cells_view_drop_last(a, b);
        lemma_cells_blocks_congruent(a.drop_last(), b.drop_last());
        let pa = cells_blocks(a.drop_last());
        let pb = cells_blocks(b.drop_last());
        assert(blocks_view(pa + a.last().blocks@) =~= blocks_view(pa) + blocks_view(a.last().blocks@));
        assert(blocks_view(pb + b.last().blocks@) =~= blocks_view(pb) + blocks_view(b.last().blocks@));
    }
}

/// The blocks of some rows, by view.
proof fn lemma_rows_blocks_congruent(a: Seq<DocxRow>, b: Seq<DocxRow>)
    requires
        rows_view(a) == rows_view(b),
    ensures
        blocks_view(rows_blocks(a)) == blocks_view(rows_blocks(b)),
    decreases a.len(),
{
    assert(a.len() == rows_view(a).len() && b.len() == rows_view(b).len());
    if a.len() > 0 {
        lemma_rows_view_drop_last(a, b);
        lemma_rows_blocks_congruent(a.drop_last(), b.drop_last());
        lemma_cells_blocks_congruent(a.last().cells@, b.last().cells@);
        let pa = rows_blocks(a.drop_last());
        let pb = rows_blocks(b.drop_last());
        let ca = cells_blocks(a.last().cells@);
        let cb = cells_blocks(b.last().cells@);
        assert(blocks_view(pa + ca) =~= blocks_view(pa) + blocks_view(ca));
        assert(blocks_view(pb + cb) =~= blocks_view(pb) + blocks_view(cb));
    }
}

/// The linearization depends on the blocks' views alone.
proof fn lemma_lin_congruent(s: LinState, a: Seq<DocxCellBlock>, b: Seq<DocxCellBlock>)
    requires
        blocks_view(a) == blocks_view(b),
    ensures
        lin_fold(s, a) == lin_fold(s, b),
    decreases a.len(),
{
    assert(a.len() == blocks_view(a).len() && b.len() == blocks_view(b).len());
    if a.len() > 0 {
        assert(blocks_view(a.drop_last()) =~= blocks_view(b.drop_last())) by {
            assert forall|i: int| 0 <= i < a.len() - 1 implies blocks_view(a.drop_last())[i]
                == blocks_view(b.drop_last())[i] by {
                assert(blocks_view(a)[i] == blocks_view(b)[i]);
                assert(blocks_view(a.drop_last())[i] == a.drop_last()[i]@);
                assert(blocks_view(b.drop_last())[i] == b.drop_last()[i]@);
                assert(blocks_view(a)[i] == a[i]@);
                assert(blocks_view(b)[i] == b[i]@);
            }
        }
        lemma_lin_congruent(s, a.drop_last(), b.drop_last());
        assert(blocks_view(a)[a.len() - 1] == blocks_view(b)[a.len() - 1]);
        assert(blocks_view(a)[a.len() - 1] == a[a.len() - 1]@);
        assert(blocks_view(b)[a.len() - 1] == b[a.len() - 1]@);
    assert(blocks_view(a)[a.len() - 1] == a[a.len() - 1]@);
    assert(blocks_view(b)[a.len() - 1] == b[a.len() - 1]@);
    }
}

/// Nested tables and content depend on the rows' views alone.
proof fn lemma_flags_congruent(a: DocxTable, b: DocxTable)
    requires
        a@ == b@,
    ensures
        table_has_nested(a) == table_has_nested(b),
        table_has_content(a) == table_has_content(b),
{
    assert(a.rows@.len() == rows_view(a.rows@).len() && b.rows@.len() == rows_view(b.rows@).len());
    assert forall|k: int| 0 <= k < a.rows@.len() implies (#[trigger] a.rows@[k])@ == b.rows@[k]@
        && a.rows@[k].cells@.len() == b.rows@[k].cells@.len() by {
        assert(rows_view(a.rows@)[k] == rows_view(b.rows@)[k]);
        assert(rows_view(a.rows@)[k] == a.rows@[k]@);
        assert(rows_view(b.rows@)[k] == b.rows@[k]@);
        assert(cells_view(a.rows@[k].cells@).len() == a.rows@[k].cells@.len());
        assert(cells_view(b.rows@[k].cells@).len() == b.rows@[k].cells@.len());
    }
    assert forall|k: int, i: int|
        0 <= k < a.rows@.len() && 0 <= i < a.rows@[k].cells@.len() implies (#[trigger] a.rows@[k].cells@[i])@
        == b.rows@[k].cells@[i]@ && a.rows@[k].cells@[i].blocks@.len()
        == b.rows@[k].cells@[i].blocks@.len() by {
        assert(a.rows@[k]@ == b.rows@[k]@);
        assert(cells_view(a.rows@[k].cells@)[i] == cells_view(b.rows@[k].cells@)[i]);
        assert(cells_view(a.rows@[k].cells@)[i] == a.rows@[k].cells@[i]@);
        assert(cells_view(b.rows@[k].cells@)[i] == b.rows@[k].cells@[i]@);
        assert(blocks_view(a.rows@[k].cells@[i].blocks@).len() == a.rows@[k].cells@[i].blocks@.len());
        assert(blocks_view(b.rows@[k].cells@[i].blocks@).len() == b.rows@[k].cells@[i].blocks@.len());
    }
    assert forall|k: int, i: int, j: int|
        0 <= k < a.rows@.len() && 0 <= i < a.rows@[k].cells@.len() && 0 <= j
            < a.rows@[k].cells@[i].blocks@.len() implies (#[trigger] a.rows@[k].cells@[i].blocks@[j])@
        == b.rows@[k].cells@[i].blocks@[j]@ by {
        assert(a.rows@[k].cells@[i]@ == b.rows@[k].cells@[i]@);
        assert(blocks_view(a.rows@[k].cells@[i].blocks@)[j] == a.rows@[k].cells@[i].blocks@[j]@);
        assert(blocks_view(b.rows@[k].cells@[i].blocks@)[j] == b.rows@[k].cells@[i].blocks@[j]@);
    }
    if table_has_nested(a) {
        let k = choose|k: int| 0 <= k < a.rows@.len() && #[trigger] row_has_nested(a.rows@[k]);
        let (i, j) = choose|i: int, j: int|
            0 <= i < a.rows@[k].cells@.len() && 0 <= j < a.rows@[k].cells@[i].blocks@.len()
                && #[trigger] a.rows@[k].cells@[i].blocks@[j].is_table;
        assert(a.rows@[k].cells@[i].blocks@[j]@ == b.rows@[k].cells@[i].blocks@[j]@);
        assert(b.rows@[k].cells@[i].blocks@[j].is_table);
        assert(row_has_nested(b.rows@[k]));
    }
    if table_has_nested(b) {
        let k = choose|k: int| 0 <= k < b.rows@.len() && #[trigger] row_has_nested(b.rows@[k]);
        let (i, j) = choose|i: int, j: int|
            0 <= i < b.rows@[k].cells@.len() && 0 <= j < b.rows@[k].cells@[i].blocks@.len()
                && #[trigger] b.rows@[k].cells@[i].blocks@[j].is_table;
        assert(a.rows@[k]@ == b.rows@[k]@);
        assert(a.rows@[k].cells@[i]@ == b.rows@[k].cells@[i]@);
        assert(a.rows@[k].cells@[i].blocks@[j]@ == b.rows@[k].cells@[i].blocks@[j]@);
        assert(a.rows@[k].cells@[i].blocks@[j].is_table);
        assert(row_has_nested(a.rows@[k]));
    }
    if table_has_content(a) {
        let (k, i, j) = choose|k: int, i: int, j: int|
            0 <= k < a.rows@.len() && 0 <= i < a.rows@[k].cells@.len() && 0 <= j
                < a.rows@[k].cells@[i].blocks@.len() && #[trigger] block_has_text(
                a.rows@[k].cells@[i].blocks@[j],
            );
        assert(a.rows@[k].cells@[i].blocks@[j]@ == b.rows@[k].cells@[i].blocks@[j]@);
        assert(block_has_text(b.rows@[k].cells@[i].blocks@[j]));
    }
    if table_has_content(b) {
        let (k, i, j) = choose|k: int, i: int, j: int|
            0 <= k < b.rows@.len() && 0 <= i < b.rows@[k].cells@.len() && 0 <= j
                < b.rows@[k].cells@[i].blocks@.len() && #[trigger] block_has_text(
                b.rows@[k].cells@[i].blocks@[j],
            );
        assert(a.rows@[k]@ == b.rows@[k]@);
        assert(a.rows@[k].cells@[i]@ == b.rows@[k].cells@[i]@);
        assert(a.rows@[k].cells@[i].blocks@[j]@ == b.rows@[k].cells@[i].blocks@[j]@);
        assert(block_has_text(a.rows@[k].cells@[i].blocks@[j]));
    }
}

/// A table's rendering, warnings and content depend on its view alone.
pub proof fn lemma_table_congruent(a: DocxTable, b: DocxTable)
    requires
        a@ == b@,
    ensures
        table_render(a, false) == table_render(b, false),
        table_render(a, true) == table_render(b, true),
        table_warnings(a) == table_warnings(b),
        table_has_content(a) == table_has_content(b),
{
    lemma_flags_congruent(a, b);
    lemma_widest_congruent(a.rows@, b.rows@);
    assert(a.rows@.len() == rows_view(a.rows@).len() && b.rows@.len() == rows_view(b.rows@).len());
    let w = grid_width_of(a);
    let n = max_grid_rows(w as nat);
    let ga = grid_rows(a);
    let gb = grid_rows(b);
    if a.rows@.len() > n {
        assert(rows_view(ga) =~= rows_view(gb)) by {
            assert forall|i: int| 0 <= i < ga.len() implies rows_view(ga)[i] == rows_view(gb)[i] by {
                assert(rows_view(a.rows@)[i] == rows_view(b.rows@)[i]);
            }
        }
    }
    lemma_grid_congruent(ga, gb, w as nat, false);
    lemma_grid_congruent(ga, gb, w as nat, true);
    lemma_rows_blocks_congruent(a.rows@, b.rows@);
    lemma_lin_congruent((Seq::empty(), Seq::empty(), 0, false), rows_blocks(a.rows@), rows_blocks(b.rows@));
}

/// What a table with view `tv` renders to and warns about is what the
/// table itself renders to and warns about.
pub proof fn lemma_table_with_view(t: DocxTable)
    ensures
        table_with_view(t@)@ == t@,
        table_render(table_with_view(t@), false) == table_render(t, false),
        table_render(table_with_view(t@), true) == table_render(t, true),
        table_warnings(table_with_view(t@)) == table_warnings(t),
        table_has_content(table_with_view(t@)) == table_has_content(t),
{
    assert(exists|u: DocxTable| u@ == t@);
    lemma_table_congruent(table_with_view(t@), t);
}

// ---------------------------------------------------------------------------
// Cells and rows
// ---------------------------------------------------------------------------

/// The text of block `b` in the chosen stream.
fn block_chars(b: &DocxCellBlock, plain: bool) -> (v: Vec<char>)
    ensures
        v@ == block_text(*b, plain),
{
    if plain {
        chars_of(b.plain.as_str())
    } else {
        chars_of(b.md.as_str())
    }
}

/// A cell's blocks joined into one trimmed line (see [`cell_text`]).
fn join_cell_blocks(cell: &DocxCell, plain: bool) -> (v: Vec<char>)
    ensures
        v@ == cell_text(*cell, plain),
{
    let mut s: Vec<char> = Vec::new();
    let mut i: usize = 0;
    while i < cell.blocks.len()
        invariant
            i <= cell.blocks.len(),
            s@ == joined_blocks(cell.blocks@.subrange(0, i as int), plain),
        decreases cell.blocks.len() - i,
    {
        let t = block_chars(&cell.blocks[i], plain);
        if i > 0 && t.len() > 0 {
            s.push(' ');
        }
        let tt = trim(t.as_slice());
        push_all(&mut s, tt.as_slice());
        proof {
            let sub = cell.blocks@.subrange(0, i + 1);
            assert(sub.drop_last() =~= cell.blocks@.subrange(0, i as int));
            assert(sub.last() == cell.blocks@[i as int]);
        }
        i = i + 1;
    }
    assert(cell.blocks@.subrange(0, cell.blocks.len() as int) =~= cell.blocks@);
    trim(s.as_slice())
}

/// A cell's blocks joined into one Markdown line.
pub fn join_cell_blocks_md(cell: &DocxCell) -> (s: String)
    ensures
        s@ == cell_text(*cell, false),
{
    let v = join_cell_blocks(cell, false);
    string_from_chars(v.as_slice())
}

/// A cell's blocks joined into one plain-text line.
pub fn join_cell_blocks_plain(cell: &DocxCell) -> (s: String)
    ensures
        s@ == cell_text(*cell, true),
{
    let v = join_cell_blocks(cell, true);
    string_from_chars(v.as_slice())
}

/// A row spread across `grid_width` columns (see [`expand_row`]).
fn expand_row_chars(row: &DocxRow, grid_width: usize, plain: bool) -> (v: Vec<Vec<char>>)
    ensures
        v.deep_view() == expand_row(*row, grid_width as nat, plain),
{
    let mut cols: Vec<Vec<char>> = Vec::new();
    let mut i: usize = 0;
    while i < row.cells.len()
        invariant
            i <= row.cells.len(),
            cols.deep_view() == expand_cells(
                row.cells@.subrange(0, i as int),
                grid_width as nat,
                plain,
            ),
        decreases row.cells.len() - i,
    {
        let c = &row.cells[i];
        let remaining = grid_width.saturating_sub(cols.len());
        let gs: usize = if c.grid_span >= 1 {
            c.grid_span
        } else {
            1
        };
        let cap: usize = if remaining >= 1 {
            remaining
        } else {
            1
        };
        let span: usize = if gs <= cap {
            gs
        } else {
            cap
        };
        let ghost prev = cols.deep_view();
        assert(span == clamped_span(c.grid_span as nat, grid_width as nat, prev.len()));
        let text = join_cell_blocks(c, plain);
        proof {
            lemma_deep_view_chars(text);
        }
        cols.push(text);
        let ghost head = prev + seq![cell_text(*c, plain)];
        assert(cols.deep_view() =~= head);
        let mut k: usize = 1;
        while k < span
            invariant
                1 <= k <= span,
                cols.deep_view() == head + Seq::new(
                    (k - 1) as nat,
                    |j: int| Seq::<char>::empty(),
                ),
            decreases span - k,
        {
            let e: Vec<char> = Vec::new();
            proof {
                lemma_deep_view_chars(e);
            }
            let ghost before = cols.deep_view();
            cols.push(e);
            assert(cols.deep_view() =~= before.push(Seq::<char>::empty()));
            k = k + 1;
            assert(cols.deep_view() =~= head + Seq::new(
                (k - 1) as nat,
                |j: int| Seq::<char>::empty(),
            ));
        }
        proof {
            let sub = row.cells@.subrange(0, i + 1);
            assert(sub.drop_last() =~= row.cells@.subrange(0, i as int));
            assert(sub.last() == row.cells@[i as int]);
        }
        i = i + 1;
    }
    assert(row.cells@.subrange(0, row.cells.len() as int) =~= row.cells@);
    fit_row(cols.as_slice(), grid_width)
}

/// A row spread across `grid_width` columns: each cell's joined text in the
/// first of the columns it spans, the others empty, and the row padded (or
/// cut) to exactly `grid_width` columns.
pub fn expand_row_to_grid(row: &DocxRow, grid_width: usize, plain: bool) -> (v: Vec<String>)
    ensures
        v@.len() == grid_width,
        forall|i: int|
            0 <= i < grid_width ==> #[trigger] v@[i]@ == expand_row(
                *row,
                grid_width as nat,
                plain,
            )[i],
{
    let cols = expand_row_chars(row, grid_width, plain);
    let mut v: Vec<String> = Vec::new();
    let mut i: usize = 0;
    while i < cols.len()
        invariant
            i <= cols.len(),
            cols.deep_view() == expand_row(*row, grid_width as nat, plain),
            v@.len() == i,
            forall|j: int| 0 <= j < i ==> #[trigger] v@[j]@ == cols.deep_view()[j],
        decreases cols.len() - i,
    {
        let s = string_from_chars(cols[i].as_slice());
        proof {
            lemma_deep_view_chars(cols@[i as int]);
        }
        v.push(s);
        i = i + 1;
    }
    assert(cols.deep_view().len() == cols@.len());
    v
}

// ---------------------------------------------------------------------------
// Grid width and classification
// ---------------------------------------------------------------------------

/// The span sum of a row, saturated at `usize::MAX`.
fn row_span_sum(row: &DocxRow) -> (n: usize)
    ensures
        n == (if span_sum(row.cells@) <= usize::MAX {
            span_sum(row.cells@)
        } else {
            usize::MAX as int
        }),
{
    let mut acc: usize = 0;
    let mut i: usize = 0;
    while i < row.cells.len()
        invariant
            i <= row.cells.len(),
            span_sum(row.cells@.subrange(0, i as int)) >= 0,
            acc == (if span_sum(row.cells@.subrange(0, i as int)) <= usize::MAX {
                span_sum(row.cells@.subrange(0, i as int))
            } else {
                usize::MAX as int
            }),
        decreases row.cells.len() - i,
    {
        let gs: usize = if row.cells[i].grid_span >= 1 {
            row.cells[i].grid_span
        } else {
            1
        };
        acc = acc.saturating_add(gs);
        proof {
            let sub = row.cells@.subrange(0, i + 1);
            assert(sub.drop_last() =~= row.cells@.subrange(0, i as int));
            assert(sub.last() == row.cells@[i as int]);
        }
        i = i + 1;
    }
    assert(row.cells@.subrange(0, row.cells.len() as int) =~= row.cells@);
    acc
}

/// The uncapped grid width (see [`raw_grid_width`]), saturated at
/// `usize::MAX`.
pub fn docx_raw_grid_width(t: &DocxTable) -> (n: usize)
    ensures
        n == (if raw_grid_width(*t) <= usize::MAX {
            raw_grid_width(*t)
        } else {
            usize::MAX as int
        }),
{
    let mut widest: usize = 0;
    let mut i: usize = 0;
    while i < t.rows.len()
        invariant
            i <= t.rows.len(),
            widest_row(t.rows@.subrange(0, i as int)) >= 0,
            widest == (if widest_row(t.rows@.subrange(0, i as int)) <= usize::MAX {
                widest_row(t.rows@.subrange(0, i as int))
            } else {
                usize::MAX as int
            }),
        decreases t.rows.len() - i,
    {
        let s = row_span_sum(&t.rows[i]);
        if s > widest {
            widest = s;
        }
        proof {
            let sub = t.rows@.subrange(0, i + 1);
            assert(sub.drop_last() =~= t.rows@.subrange(0, i as int));
            assert(sub.last() == t.rows@[i as int]);
            lemma_span_sum_nonneg(t.rows@[i as int].cells@);
        }
        i = i + 1;
    }
    assert(t.rows@.subrange(0, t.rows.len() as int) =~= t.rows@);
    if t.grid_width >= widest {
        t.grid_width
    } else {
        widest
    }
}

/// A span sum is never negative.
pub proof fn lemma_span_sum_nonneg(cells: Seq<DocxCell>)
    ensures
        span_sum(cells) >= 0,
    decreases cells.len(),
{
    if cells.len() > 0 {
        lemma_span_sum_nonneg(cells.drop_last());
    }
}

/// The grid width a table is rendered with (see [`grid_width_of`]): the
/// declared width or the widest row, whichever is larger, capped at
/// [`MAX_TABLE_COLS`].
pub fn docx_grid_width(t: &DocxTable) -> (n: usize)
    ensures
        n == grid_width_of(*t),
{
    let raw = docx_raw_grid_width(t);
    if raw <= MAX_TABLE_COLS {
        raw
    } else {
        MAX_TABLE_COLS
    }
}

/// Whether some cell of the row holds a nested-table block.
pub fn docx_row_has_nested_table(row: &DocxRow) -> (b: bool)
    ensures
        b == row_has_nested(*row),
{
    let mut i: usize = 0;
    while i < row.cells.len()
        invariant
            i <= row.cells.len(),
            forall|a: int, j: int|
                0 <= a < i && 0 <= j < row.cells@[a].blocks@.len()
                    ==> !(#[trigger] row.cells@[a].blocks@[j].is_table),
        decreases row.cells.len() - i,
    {
        let c = &row.cells[i];
        let mut j: usize = 0;
        while j < c.blocks.len()
            invariant
                j <= c.blocks.len(),
                i < row.cells.len(),
                *c == row.cells@[i as int],
                forall|a: int, j: int|
                    0 <= a < i && 0 <= j < row.cells@[a].blocks@.len()
                        ==> !(#[trigger] row.cells@[a].blocks@[j].is_table),
                forall|k: int| 0 <= k < j ==> !(#[trigger] c.blocks@[k].is_table),
            decreases c.blocks.len() - j,
        {
            if c.blocks[j].is_table {
                assert(row.cells@[i as int].blocks@[j as int].is_table);
                return true;
            }
            j = j + 1;
        }
        i = i + 1;
    }
    false
}

/// Whether some row of the table holds a nested-table block.
fn table_has_nested_table(t: &DocxTable) -> (b: bool)
    ensures
        b == table_has_nested(*t),
{
    let mut k: usize = 0;
    while k < t.rows.len()
        invariant
            k <= t.rows.len(),
            forall|a: int| 0 <= a < k ==> !(#[trigger] row_has_nested(t.rows@[a])),
        decreases t.rows.len() - k,
    {
        if docx_row_has_nested_table(&t.rows[k]) {
            return true;
        }
        k = k + 1;
    }
    false
}

/// Whether a block has text in either stream.
fn block_has_text_exec(b: &DocxCellBlock) -> (r: bool)
    ensures
        r == block_has_text(*b),
{
    let md = chars_of(b.md.as_str());
    let plain = chars_of(b.plain.as_str());
    !is_blank(md.as_slice()) || !is_blank(plain.as_slice())
}

/// Whether some block of the table has text in either stream; a nested
/// table without any is dropped rather than rendered as an empty skeleton.
pub fn docx_table_has_content(t: &DocxTable) -> (r: bool)
    ensures
        r == table_has_content(*t),
{
    let mut k: usize = 0;
    while k < t.rows.len()
        invariant
            k <= t.rows.len(),
            forall|a: int, i: int, j: int|
                0 <= a < k && 0 <= i < t.rows@[a].cells@.len() && 0 <= j
                    < t.rows@[a].cells@[i].blocks@.len() ==> !(#[trigger] block_has_text(
                    t.rows@[a].cells@[i].blocks@[j],
                )),
        decreases t.rows.len() - k,
    {
        let row = &t.rows[k];
        let mut i: usize = 0;
        while i < row.cells.len()
            invariant
                i <= row.cells.len(),
                k < t.rows.len(),
                *row == t.rows@[k as int],
                forall|a: int, i: int, j: int|
                    0 <= a < k && 0 <= i < t.rows@[a].cells@.len() && 0 <= j
                        < t.rows@[a].cells@[i].blocks@.len() ==> !(#[trigger] block_has_text(
                        t.rows@[a].cells@[i].blocks@[j],
                    )),
                forall|a: int, b: int|
                    0 <= a < i && 0 <= b < row.cells@[a].blocks@.len()
                        ==> !(#[trigger] block_has_text(row.cells@[a].blocks@[b])),
            decreases row.cells.len() - i,
        {
            let c = &row.cells[i];
            let mut j: usize = 0;
            while j < c.blocks.len()
                invariant
                    j <= c.blocks.len(),
                    i < row.cells.len(),
                    k < t.rows.len(),
                    *row == t.rows@[k as int],
                    *c == row.cells@[i as int],
                    forall|a: int, i: int, j: int|
                        0 <= a < k && 0 <= i < t.rows@[a].cells@.len() && 0 <= j
                            < t.rows@[a].cells@[i].blocks@.len() ==> !(#[trigger] block_has_text(
                            t.rows@[a].cells@[i].blocks@[j],
                        )),
                    forall|a: int, b: int|
                        0 <= a < i && 0 <= b < row.cells@[a].blocks@.len()
                            ==> !(#[trigger] block_has_text(row.cells@[a].blocks@[b])),
                    forall|b: int| 0 <= b < j ==> !(#[trigger] block_has_text(c.blocks@[b])),
                decreases c.blocks.len() - j,
            {
                if block_has_text_exec(&c.blocks[j]) {
                    assert(block_has_text(t.rows@[k as int].cells@[i as int].blocks@[j as int]));
                    return true;
                }
                j = j + 1;
            }
            i = i + 1;
        }
        k = k + 1;
    }
    false
}

// ---------------------------------------------------------------------------
// Rendering
// ---------------------------------------------------------------------------

/// The first `n` rows as one table of `grid_width` columns (see
/// [`grid_render`]).
fn render_docx_grid(rows: &[DocxRow], n: usize, grid_width: usize, plain: bool) -> (v: Vec<
    char,
>)
    requires
        1 <= n <= rows.len(),
    ensures
        v@ == grid_render(rows@.subrange(0, n as int), grid_width as nat, plain),
{
    let header = expand_row_chars(&rows[0], grid_width, plain);
    let mut data: Vec<Vec<Vec<char>>> = Vec::new();
    let mut i: usize = 1;
    while i < n
        invariant
            1 <= i <= n <= rows.len(),
            data.deep_view() == expand_rows(rows@.subrange(1, i as int), grid_width as nat, plain),
        decreases n - i,
    {
        let r = expand_row_chars(&rows[i], grid_width, plain);
        let ghost before = data.deep_view();
        data.push(r);
        assert(data.deep_view() =~= before.push(r.deep_view()));
        i = i + 1;
        assert(data.deep_view() =~= expand_rows(
            rows@.subrange(1, i as int),
            grid_width as nat,
            plain,
        ));
    }
    let ghost ex = expand_rows(rows@.subrange(0, n as int), grid_width as nat, plain);
    assert(ex[0] == header.deep_view());
    assert(ex.drop_first() =~= data.deep_view());
    if plain {
        build_table_plain(header.as_slice(), data.as_slice())
    } else {
        build_table(header.as_slice(), data.as_slice())
    }
}

/// `s` without trailing whitespace and, if anything is left, one newline.
fn trim_to_single_trailing_newline(s: &[char]) -> (v: Vec<char>)
    ensures
        v@ == single_newline(s@),
{
    let mut v = trim_end(s);
    if v.len() > 0 {
        v.push('\n');
    }
    v
}

/// Linearization of one block (see [`lin_step`]).
fn lin_block(
    b: &DocxCellBlock,
    md: &mut Vec<char>,
    plain: &mut Vec<char>,
    emitted: &mut usize,
    truncated: &mut bool,
)
    requires
        *old(emitted) <= MAX_TABLE_CELLS,
    ensures
        *final(emitted) <= MAX_TABLE_CELLS,
        (final(md)@, final(plain)@, *final(emitted) as nat, *final(truncated)) == lin_step(
            (old(md)@, old(plain)@, *old(emitted) as nat, *old(truncated)),
            *b,
        ),
{
    if *truncated {
        return ;
    }
    if !block_has_text_exec(b) {
        return ;
    }
    if *emitted >= MAX_TABLE_CELLS {
        *truncated = true;
        return ;
    }
    *emitted = *emitted + 1;
    let md_full = chars_of(b.md.as_str());
    let md_block = trim_end(md_full.as_slice());
    if !(b.is_table && md_block.len() == 0) {
        push_all(md, md_block.as_slice());
        md.push('\n');
        md.push('\n');
    }
    let plain_full = chars_of(b.plain.as_str());
    let plain_block = trim_end(plain_full.as_slice());
    if !(b.is_table && plain_block.len() == 0) {
        push_all(plain, plain_block.as_slice());
        plain.push('\n');
    }
    assert(md@ =~= old(md)@ + md_piece(*b));
    assert(plain@ =~= old(plain)@ + plain_piece(*b));
}

/// Once the budget has run out, further blocks change nothing.
pub proof fn lemma_lin_fold_truncated(s: LinState, bs: Seq<DocxCellBlock>)
    requires
        s.3,
    ensures
        lin_fold(s, bs) == s,
    decreases bs.len(),
{
    if bs.len() > 0 {
        lemma_lin_fold_truncated(s, bs.drop_last());
    }
}

/// Folding over a concatenation folds over its parts in turn.
pub proof fn lemma_lin_fold_append(s: LinState, a: Seq<DocxCellBlock>, b: Seq<DocxCellBlock>)
    ensures
        lin_fold(s, a + b) == lin_fold(lin_fold(s, a), b),
    decreases b.len(),
{
    if b.len() == 0 {
        assert(a + b =~= a);
    } else {
        lemma_lin_fold_append(s, a, b.drop_last());
        assert((a + b).drop_last() =~= a + b.drop_last());
        assert((a + b).last() == b.last());
    }
}

/// The linearization of a whole table (see [`lin_table`]), as Markdown,
/// plain text and whether blocks were dropped.
fn linearize_table(t: &DocxTable) -> (r: (Vec<char>, Vec<char>, bool))
    ensures
        r.0@ == lin_table(*t).0,
        r.1@ == lin_table(*t).1,
        r.2 == lin_table(*t).3,
{
    let ghost init: LinState = (Seq::empty(), Seq::empty(), 0, false);
    let mut md: Vec<char> = Vec::new();
    let mut plain: Vec<char> = Vec::new();
    let mut emitted: usize = 0;
    let mut truncated = false;
    let mut ri: usize = 0;
    while ri < t.rows.len()
        invariant
            ri <= t.rows.len(),
            emitted <= MAX_TABLE_CELLS,
            (md@, plain@, emitted as nat, truncated) == lin_fold(
                init,
                rows_blocks(t.rows@.subrange(0, ri as int)),
            ),
        decreases t.rows.len() - ri,
    {
        let row = &t.rows[ri];
        let ghost done_rows = rows_blocks(t.rows@.subrange(0, ri as int));
        let mut ci: usize = 0;
        assert(done_rows + cells_blocks(row.cells@.subrange(0, 0)) =~= done_rows);
        while ci < row.cells.len()
            invariant
                ci <= row.cells.len(),
                emitted <= MAX_TABLE_CELLS,
                (md@, plain@, emitted as nat, truncated) == lin_fold(
                    init,
                    done_rows + cells_blocks(row.cells@.subrange(0, ci as int)),
                ),
            decreases row.cells.len() - ci,
        {
            let c = &row.cells[ci];
            let ghost done = done_rows + cells_blocks(row.cells@.subrange(0, ci as int));
            let mut bi: usize = 0;
            assert(done + c.blocks@.subrange(0, 0) =~= done);
            while bi < c.blocks.len()
                invariant
                    bi <= c.blocks.len(),
                    emitted <= MAX_TABLE_CELLS,
                    (md@, plain@, emitted as nat, truncated) == lin_fold(
                        init,
                        done + c.blocks@.subrange(0, bi as int),
                    ),
                decreases c.blocks.len() - bi,
            {
                lin_block(&c.blocks[bi], &mut md, &mut plain, &mut emitted, &mut truncated);
                proof {
                    let next = done + c.blocks@.subrange(0, bi + 1);
                    assert(next.drop_last() =~= done + c.blocks@.subrange(0, bi as int));
                    assert(next.last() == c.blocks@[bi as int]);
                }
                bi = bi + 1;
            }
            proof {
                let sub = row.cells@.subrange(0, ci + 1);
                assert(sub.drop_last() =~= row.cells@.subrange(0, ci as int));
                assert(sub.last() == row.cells@[ci as int]);
                assert(c.blocks@.subrange(0, c.blocks.len() as int) =~= c.blocks@);
                assert(done + c.blocks@ =~= done_rows + cells_blocks(sub));
            }
            ci = ci + 1;
        }
        proof {
            let sub = t.rows@.subrange(0, ri + 1);
            assert(sub.drop_last() =~= t.rows@.subrange(0, ri as int));
            assert(sub.last() == t.rows@[ri as int]);
            assert(row.cells@.subrange(0, row.cells.len() as int) =~= row.cells@);
        }
        ri = ri + 1;
    }
    assert(t.rows@.subrange(0, t.rows.len() as int) =~= t.rows@);
    (md, plain, truncated)
}

/// The warning for rows dropped on the grid path.
fn rows_dropped_warning(max_rows: usize) -> (w: ConversionWarning)
    ensures
        w.code == WarningCode::ResourceLimitReached,
        w.message@ == rows_dropped_message(max_rows as nat),
        w.location is None,
{
    let mut m: Vec<char> = Vec::new();
    push_str(&mut m, "table truncated to ");
    let d = decimal_chars(max_rows);
    push_all(&mut m, d.as_slice());
    push_str(&mut m, " rows (limit 100000 cells)");
    warning(WarningCode::ResourceLimitReached, m, None)
}

/// A resource-limit warning with the given message.
fn limit_warning(message: &str) -> (w: ConversionWarning)
    ensures
        w.code == WarningCode::ResourceLimitReached,
        w.message@ == message@,
        w.location is None,
{
    let m = chars_of(message);
    warning(WarningCode::ResourceLimitReached, m, None)
}

/// Renders a buffered table as `(markdown, plain_text)` (see
/// [`table_render`]) and appends a resource-limit warning for each kind of
/// content the limits dropped (see [`table_warnings`]).
pub fn render_docx_table(table: &DocxTable, warnings: &mut Vec<ConversionWarning>) -> (r: (
    String,
    String,
))
    ensures
        r.0@ == table_render(*table, false),
        r.1@ == table_render(*table, true),
        warnings_appended(old(warnings)@, final(warnings)@, table_warnings(*table)),
{
    let ghost before = warnings@;
    assert(warnings@.subrange(0, before.len() as int) =~= before);
    if table.rows.len() == 0 {
        return (String::new(), String::new());
    }
    let raw_width = docx_raw_grid_width(table);
    let grid_width = docx_grid_width(table);
    if grid_width == 0 {
        return (String::new(), String::new());
    }
    if !table_has_nested_table(table) {
        let ghost msgs = table_warnings(*table);
        let ghost m1: Seq<Seq<char>> = if raw_grid_width(*table) > grid_width as int {
            seq![cols_dropped_message()]
        } else {
            Seq::empty()
        };
        if raw_width > grid_width {
            warnings.push(
                limit_warning("table row exceeded the 4096-column limit; extra columns were dropped"),
            );
            assert(warnings@.subrange(0, before.len() as int) =~= before);
            assert(warnings@[before.len() + 0int] == warnings@[before.len() as int]);
        }
        assert(warnings_appended(before, warnings@, m1));
        let q = MAX_TABLE_CELLS / grid_width;
        let max_rows: usize = if q >= 1 {
            q
        } else {
            1
        };
        assert(max_rows == max_grid_rows(grid_width as nat));
        if table.rows.len() > max_rows {
            let ghost mid = warnings@;
            warnings.push(rows_dropped_warning(max_rows));
            assert(warnings@.subrange(0, mid.len() as int) =~= mid);
            assert(warnings@.subrange(0, before.len() as int) =~= before);
        }
        let n: usize = if table.rows.len() <= max_rows {
            table.rows.len()
        } else {
            max_rows
        };
        assert(table.rows@.subrange(0, table.rows.len() as int) =~= table.rows@);
        let md = render_docx_grid(table.rows.as_slice(), n, grid_width, false);
        let plain = render_docx_grid(table.rows.as_slice(), n, grid_width, true);
        return (string_from_chars(md.as_slice()), string_from_chars(plain.as_slice()));
    }
    let (md, plain, truncated) = linearize_table(table);
    if truncated {
        warnings.push(
            limit_warning("table linearization truncated to 100000 blocks (limit 100000 cells)"),
        );
        assert(warnings@.subrange(0, before.len() as int) =~= before);
    }
    let md1 = trim_to_single_trailing_newline(md.as_slice());
    let plain1 = trim_to_single_trailing_newline(plain.as_slice());
    (string_from_chars(md1.as_slice()), string_from_chars(plain1.as_slice()))
}

// ---------------------------------------------------------------------------
// Laws
// ---------------------------------------------------------------------------

/// A row whose spans fit the grid is spread without clamping: it takes
/// exactly its span sum of columns.
pub proof fn lemma_expand_cells_len(cells: Seq<DocxCell>, w: nat, plain: bool)
    requires
        span_sum(cells) <= w,
    ensures
        expand_cells(cells, w, plain).len() == span_sum(cells),
    decreases cells.len(),
{
    if cells.len() > 0 {
        lemma_span_sum_nonneg(cells.drop_last());
        lemma_expand_cells_len(cells.drop_last(), w, plain);
    }
}

/// The widest row is at least as wide as every row.
pub proof fn lemma_widest_row(rows: Seq<DocxRow>, k: int)
    requires
        0 <= k < rows.len(),
    ensures
        span_sum(rows[k].cells@) <= widest_row(rows),
    decreases rows.len(),
{
    if k < rows.len() - 1 {
        lemma_widest_row(rows.drop_last(), k);
        assert(rows.drop_last()[k] == rows[k]);
    }
}

/// The declared grid width is a floor and [`MAX_TABLE_COLS`] a ceiling:
/// the grid is never wider than the cap, never narrower than the declared
/// width or any row (up to the cap), and when no row exceeds the cap every
/// row is spread over exactly its span sum of columns, so no cell is lost.
pub proof fn lemma_grid_width_keeps_cells(t: DocxTable, k: int, plain: bool)
    requires
        0 <= k < t.rows@.len(),
    ensures
        grid_width_of(t) <= MAX_TABLE_COLS,
        grid_width_of(t) >= (if t.grid_width <= MAX_TABLE_COLS {
            t.grid_width as int
        } else {
            MAX_TABLE_COLS as int
        }),
        raw_grid_width(t) <= MAX_TABLE_COLS ==> {
            &&& span_sum(t.rows@[k].cells@) <= grid_width_of(t)
            &&& expand_cells(t.rows@[k].cells@, grid_width_of(t) as nat, plain).len() == span_sum(
                t.rows@[k].cells@,
            )
        },
{
    lemma_widest_row(t.rows@, k);
    lemma_span_sum_nonneg(t.rows@[k].cells@);
    if raw_grid_width(t) <= MAX_TABLE_COLS {
        lemma_expand_cells_len(t.rows@[k].cells@, grid_width_of(t) as nat, plain);
    }
}

/// The grid path emits at most [`MAX_TABLE_CELLS`] cells (or a single row
/// when one row alone is wider than that).
pub proof fn lemma_grid_rows_bounded(t: DocxTable)
    requires
        grid_width_of(t) > 0,
    ensures
        grid_rows(t).len() <= max_grid_rows(grid_width_of(t) as nat),
        max_grid_rows(grid_width_of(t) as nat) == 1 || max_grid_rows(grid_width_of(t) as nat)
            * grid_width_of(t) <= MAX_TABLE_CELLS,
{
    let w = grid_width_of(t) as nat;
    let q = MAX_TABLE_CELLS as nat / w;
    assert(q * w <= MAX_TABLE_CELLS) by (nonlinear_arith)
        requires
            w > 0,
            q == MAX_TABLE_CELLS as nat / w,
    ;
}

/// The linearized path emits at most [`MAX_TABLE_CELLS`] blocks.
pub proof fn lemma_lin_fold_bounded(s: LinState, bs: Seq<DocxCellBlock>)
    requires
        s.2 <= MAX_TABLE_CELLS,
    ensures
        lin_fold(s, bs).2 <= MAX_TABLE_CELLS,
        lin_fold(s, bs).2 >= s.2,
    decreases bs.len(),
{
    if bs.len() > 0 {
        lemma_lin_fold_bounded(s, bs.drop_last());
    }
}

/// The number of blocks with text in either stream.
pub open spec fn text_block_count(bs: Seq<DocxCellBlock>) -> nat
    decreases bs.len(),
{
    if bs.len() == 0 {
        0
    } else {
        text_block_count(bs.drop_last()) + if block_has_text(bs.last()) {
            1nat
        } else {
            0nat
        }
    }
}

/// Linearizing from the start marks blocks as dropped exactly when more
/// than [`MAX_TABLE_CELLS`] blocks have text; otherwise it counts them all.
proof fn lemma_lin_fold_flag(bs: Seq<DocxCellBlock>)
    ensures
        lin_fold((Seq::empty(), Seq::empty(), 0, false), bs).3 <==> text_block_count(bs)
            > MAX_TABLE_CELLS,
        !lin_fold((Seq::empty(), Seq::empty(), 0, false), bs).3 ==> lin_fold(
            (Seq::empty(), Seq::empty(), 0, false),
            bs,
        ).2 == text_block_count(bs),
    decreases bs.len(),
{
    if bs.len() > 0 {
        lemma_lin_fold_flag(bs.drop_last());
    }
}

/// A table without nested tables, with rows and columns, renders as one
/// grid of its grid width whose first row is the header, cut to
/// [`max_grid_rows`] rows.
pub proof fn lemma_docx_grid_path(t: DocxTable, plain: bool)
    requires
        t.rows@.len() > 0,
        grid_width_of(t) > 0,
        !table_has_nested(t),
    ensures
        ({
            let w = grid_width_of(t) as nat;
            let n = if t.rows@.len() <= max_grid_rows(w) {
                t.rows@.len()
            } else {
                max_grid_rows(w)
            };
            table_render(t, plain) == grid_render(t.rows@.take(n as int), w, plain)
        }),
{
    let w = grid_width_of(t) as nat;
    if t.rows@.len() <= max_grid_rows(w) {
        assert(t.rows@.take(t.rows@.len() as int) =~= t.rows@);
    } else {
        assert(t.rows@.take(max_grid_rows(w) as int) =~= t.rows@.subrange(0, max_grid_rows(w) as int));
    }
}

/// Rendering a table adds no warning exactly when it has no rows, no
/// columns, or nothing to cut: on the grid path no row wider than
/// [`MAX_TABLE_COLS`] and no more rows than [`max_grid_rows`] allows; on
/// the linearized path at most [`MAX_TABLE_CELLS`] blocks with text.
pub proof fn lemma_docx_table_quiet(t: DocxTable)
    ensures
        table_warnings(t).len() == 0 <==> (t.rows@.len() == 0 || raw_grid_width(t) == 0 || (
        !table_has_nested(t) && raw_grid_width(t) <= MAX_TABLE_COLS && t.rows@.len()
            <= max_grid_rows(grid_width_of(t) as nat)) || (table_has_nested(t) && text_block_count(
            rows_blocks(t.rows@),
        ) <= MAX_TABLE_CELLS)),
{
    lemma_lin_fold_flag(rows_blocks(t.rows@));
}

// ---------------------------------------------------------------------------
// Images of a package
// ---------------------------------------------------------------------------

/// The number of bytes in a list of named byte strings.
pub open spec fn total_len(items: Seq<(String, Vec<u8>)>) -> nat
    decreases items.len(),
{
    if items.len() == 0 {
        0
    } else {
        total_len(items.drop_last()) + items.last().1@.len()
    }
}

/// Whether entry `j` is the one in force for its id: no later entry has
/// the same id.
pub open spec fn rel_in_force(rels: Seq<(Seq<char>, Seq<char>, Seq<char>)>, j: int) -> bool {
    forall|m: int| j < m < rels.len() ==> rels[m].0 != rels[j].0
}

/// Whether entry `j` is the one in force for its id (see
/// [`rel_in_force`]).
pub fn in_force(rels: &Vec<(String, Relationship)>, j: usize) -> (r: bool)
    requires
        j < rels.len(),
    ensures
        r == rel_in_force(crate::converter::ooxml_utils::rels_view(rels@), j as int),
{
    let k = chars_of(rels[j].0.as_str());
    let mut m = j + 1;
    while m < rels.len()
        invariant
            j < m <= rels.len(),
            k@ == rels@[j as int].0@,
            forall|x: int| j < x < m ==> rels@[x].0@ != rels@[j as int].0@,
        decreases rels.len() - m,
    {
        let n = chars_of(rels[m].0.as_str());
        if crate::text::eq_chars(n.as_slice(), k.as_slice()) {
            proof {
                let rv = crate::converter::ooxml_utils::rels_view(rels@);
                assert(rv[m as int].0 == rv[j as int].0);
            }
            return false;
        }
        m = m + 1;
    }
    proof {
        let rv = crate::converter::ooxml_utils::rels_view(rels@);
        assert forall|x: int| j < x < rv.len() implies rv[x].0 != rv[j as int].0 by {
            assert(rels@[x].0@ != rels@[j as int].0@);
        }
    }
    true
}

/// The part after the last `/` of a path.
fn last_segment(path: &str) -> (v: Vec<char>)
    ensures
        v@ == target_file_name(path@),
{
    let c = chars_of(path);
    match crate::text::last_index(c.as_slice(), '/') {
        Some(i) => slice_chars_from(c.as_slice(), i + 1),
        None => c,
    }
}

/// The characters of `s` from `from` on.
fn slice_chars_from(s: &[char], from: usize) -> (v: Vec<char>)
    requires
        from <= s.len(),
    ensures
        v@ == s@.subrange(from as int, s.len() as int),
{
    crate::text::slice_chars(s, from, s.len())
}

/// Named byte strings as plain values.
pub open spec fn named_bytes_view(items: Seq<(String, Vec<u8>)>) -> Seq<(Seq<char>, Seq<u8>)> {
    items.map_values(|i: (String, Vec<u8>)| (i.0@, i.1@))
}

/// The images of a package read so far: the kept files, the bytes by
/// relationship id, the bytes used and the warnings given.
pub struct PackageImagesV {
    pub files: Seq<(Seq<char>, Seq<u8>)>,
    pub bytes: Seq<(Seq<char>, Seq<u8>)>,
    pub total: nat,
    pub warns: Seq<(WarningCode, Seq<char>, Option<Seq<char>>)>,
}

/// The warning for an image that overflows the image budget `max`.
pub open spec fn image_budget_message(max: nat) -> Seq<char> {
    "total image bytes exceeded limit ("@ + decimal(max) + ")"@
}

/// The image scan after relationship `j` (id, target, type) of `rels`:
/// only a relationship in force whose type contains `image` counts, and
/// only while bytes are left in the budget. Its part (the target resolved
/// against `base_file`) is read from the package `data`; an image that
/// fits is kept by id and, when `keep_files`, under its file name; one that
/// does not fit uses up the budget and gives a `ResourceLimitReached`
/// warning located at the part. A part that is missing or unreadable is
/// passed over.
pub open spec fn package_image_step(
    data: Seq<u8>,
    rels: Seq<(Seq<char>, Seq<char>, Seq<char>)>,
    base_file: Seq<char>,
    max: nat,
    keep_files: bool,
    s: PackageImagesV,
    j: int,
) -> PackageImagesV {
    if !rel_in_force(rels, j) || !contains_seq(rels[j].2, "image"@) || s.total >= max {
        s
    } else {
        let path = resolve_file_spec(base_file, rels[j].1);
        match zip_entry_read(data, path) {
            Ok(Some(b)) => if s.total + b.len() <= max {
                PackageImagesV {
                    files: if keep_files {
                        s.files.push((target_file_name(path), b))
                    } else {
                        s.files
                    },
                    bytes: s.bytes.push((rels[j].0, b)),
                    total: s.total + b.len(),
                    warns: s.warns,
                }
            } else {
                PackageImagesV {
                    files: s.files,
                    bytes: s.bytes,
                    total: if s.total + b.len() <= usize::MAX {
                        s.total + b.len()
                    } else {
                        usize::MAX as nat
                    },
                    warns: s.warns.push(
                        (WarningCode::ResourceLimitReached, image_budget_message(max), Some(path)),
                    ),
                }
            },
            _ => s,
        }
    }
}

/// The image scan over the first `n` relationships of `rels` (see
/// [`package_image_step`]).
pub open spec fn package_images(
    data: Seq<u8>,
    rels: Seq<(Seq<char>, Seq<char>, Seq<char>)>,
    base_file: Seq<char>,
    max: nat,
    keep_files: bool,
    n: nat,
) -> PackageImagesV
    decreases n,
{
    if n == 0 {
        PackageImagesV { files: Seq::empty(), bytes: Seq::empty(), total: 0, warns: Seq::empty() }
    } else {
        package_image_step(
            data,
            rels,
            base_file,
            max,
            keep_files,
            package_images(data, rels, base_file, max, keep_files, (n - 1) as nat),
            n - 1,
        )
    }
}

/// Once the budget is used up the scan no longer changes.
proof fn lemma_package_images_spent(
    data: Seq<u8>,
    rels: Seq<(Seq<char>, Seq<char>, Seq<char>)>,
    base_file: Seq<char>,
    max: nat,
    keep_files: bool,
    j: nat,
    n: nat,
)
    requires
        j <= n,
        package_images(data, rels, base_file, max, keep_files, j).total >= max,
    ensures
        package_images(data, rels, base_file, max, keep_files, n) == package_images(
            data,
            rels,
            base_file,
            max,
            keep_files,
            j,
        ),
    decreases n - j,
{
    if n > j {
        lemma_package_images_spent(data, rels, base_file, max, keep_files, j, (n - 1) as nat);
    }
}

/// Reads the image parts that `rels` point to (relationship types
/// containing `image`, targets resolved against `base_file`), until
/// `max_bytes` is used up. Each image read within the budget is kept by
/// relationship id and, when `keep_files`, as `(file name, bytes)`; one that
/// overflows the budget gets a `ResourceLimitReached` warning. The kept
/// files never exceed the budget in total.
pub fn extract_package_images(
    archive: &mut zip::ZipArchive<Cursor<&[u8]>>,
    rels: &Vec<(String, Relationship)>,
    base_file: &str,
    max_bytes: usize,
    keep_files: bool,
    warnings: &mut Vec<ConversionWarning>,
) -> (r: (Vec<(String, Vec<u8>)>, Vec<(String, Vec<u8>)>))
    ensures
        named_bytes_view(r.0@) == package_images(
            crate::zip_io::archive_source(*old(archive)),
            rels_view(rels@),
            base_file@,
            max_bytes as nat,
            keep_files,
            rels@.len(),
        ).files,
        named_bytes_view(r.1@) == package_images(
            crate::zip_io::archive_source(*old(archive)),
            rels_view(rels@),
            base_file@,
            max_bytes as nat,
            keep_files,
            rels@.len(),
        ).bytes,
        warns_view(final(warnings)@) == warns_view(old(warnings)@) + package_images(
            crate::zip_io::archive_source(*old(archive)),
            rels_view(rels@),
            base_file@,
            max_bytes as nat,
            keep_files,
            rels@.len(),
        ).warns,
        total_len(r.0@) <= max_bytes,
        !keep_files ==> r.0@.len() == 0,
        final(warnings)@.len() >= old(warnings)@.len(),
        final(warnings)@.subrange(0, old(warnings)@.len() as int) == old(warnings)@,
        crate::zip_io::archive_source(*final(archive)) == crate::zip_io::archive_source(
            *old(archive),
        ),
{
    let ghost src = crate::zip_io::archive_source(*archive);
    let ghost rv = rels_view(rels@);
    let ghost mx = max_bytes as nat;
    let mut images: Vec<(String, Vec<u8>)> = Vec::new();
    let mut bytes: Vec<(String, Vec<u8>)> = Vec::new();
    let mut total: usize = 0;
    let mut j: usize = 0;
    proof {
        reveal_strlit("image");
        assert(named_bytes_view(images@) =~= Seq::<(Seq<char>, Seq<u8>)>::empty());
        assert(named_bytes_view(bytes@) =~= Seq::<(Seq<char>, Seq<u8>)>::empty());
        assert(warns_view(warnings@) + Seq::<(WarningCode, Seq<char>, Option<Seq<char>>)>::empty()
            =~= warns_view(old(warnings)@));
    }
    while j < rels.len()
        invariant
            j <= rels.len(),
            src == crate::zip_io::archive_source(*old(archive)),
            rv == rels_view(rels@),
            mx == max_bytes as nat,
            "image"@ == seq!['i', 'm', 'a', 'g', 'e'],
            named_bytes_view(images@) == package_images(src, rv, base_file@, mx, keep_files, j as nat).files,
            named_bytes_view(bytes@) == package_images(src, rv, base_file@, mx, keep_files, j as nat).bytes,
            total as nat == package_images(src, rv, base_file@, mx, keep_files, j as nat).total,
            warns_view(warnings@) == warns_view(old(warnings)@) + package_images(
                src,
                rv,
                base_file@,
                mx,
                keep_files,
                j as nat,
            ).warns,
            total_len(images@) <= max_bytes,
            total_len(images@) <= total,
            !keep_files ==> images@.len() == 0,
            warnings@.len() >= old(warnings)@.len(),
            warnings@.subrange(0, old(warnings)@.len() as int) == old(warnings)@,
            crate::zip_io::archive_source(*archive) == crate::zip_io::archive_source(
                *old(archive),
            ),
        ensures
            named_bytes_view(images@) == package_images(src, rv, base_file@, mx, keep_files, rels@.len()).files,
            named_bytes_view(bytes@) == package_images(src, rv, base_file@, mx, keep_files, rels@.len()).bytes,
            warns_view(warnings@) == warns_view(old(warnings)@) + package_images(
                src,
                rv,
                base_file@,
                mx,
                keep_files,
                rels@.len(),
            ).warns,
        decreases rels.len() - j,
    {
        let ghost s0 = package_images(src, rv, base_file@, mx, keep_files, j as nat);
        assert(package_images(src, rv, base_file@, mx, keep_files, (j + 1) as nat)
            == package_image_step(src, rv, base_file@, mx, keep_files, s0, j as int));
        if !in_force(rels, j) {
            j = j + 1;
            continue;
        }
        let ty = chars_of(rels[j].1.rel_type.as_str());
        let image_word: Vec<char> = vec!['i', 'm', 'a', 'g', 'e'];
        if crate::text::find(ty.as_slice(), image_word.as_slice()).is_none() {
            j = j + 1;
            continue;
        }
        if total >= max_bytes {
            proof {
                lemma_package_images_spent(src, rv, base_file@, mx, keep_files, j as nat, rels@.len());
            }
            break;
        }
        let path = resolve_relative_to_file(base_file, rels[j].1.target.as_str());
        let read = read_zip_bytes(archive, path.as_str());
        match read {
            Ok(Some(data)) => {
                let fits = data.len() <= usize::MAX - total;
                total = if fits {
                    total + data.len()
                } else {
                    usize::MAX
                };
                if fits && total <= max_bytes {
                    let name = last_segment(path.as_str());
                    if keep_files {
                        let ghost before = images@;
                        let copy = crate::text::bytes_slice(data.as_slice(), 0, data.len());
                        assert(data@.subrange(0, data.len() as int) =~= data@);
                        images.push((string_from_chars(name.as_slice()), copy));
                        assert(images@.drop_last() =~= before);
                        assert(total_len(images@) == total_len(before) + data@.len());
                        assert(named_bytes_view(images@) =~= named_bytes_view(before).push(
                            (target_file_name(path@), data@),
                        ));
                    }
                    let ghost bbefore = bytes@;
                    bytes.push((rels[j].0.clone(), data));
                    assert(named_bytes_view(bytes@) =~= named_bytes_view(bbefore).push(
                        (rv[j as int].0, data@),
                    ));
                } else {
                    let mut m: Vec<char> = Vec::new();
                    push_str(&mut m, "total image bytes exceeded limit (");
                    let d = decimal_chars(max_bytes);
                    push_all(&mut m, d.as_slice());
                    push_str(&mut m, ")");
                    assert(m@ =~= image_budget_message(mx));
                    let ghost wb = warnings@;
                    let ghost pv = path@;
                    warnings.push(warning(WarningCode::ResourceLimitReached, m, Some(path)));
                    assert(warnings@.subrange(0, old(warnings)@.len() as int) =~= wb.subrange(
                        0,
                        old(warnings)@.len() as int,
                    ));
                    assert(warns_view(warnings@) =~= warns_view(wb).push(
                        (WarningCode::ResourceLimitReached, image_budget_message(mx), Some(pv)),
                    ));
                }
            },
            _ => {},
        }
        j = j + 1;
    }
    (images, bytes)
}

// ---------------------------------------------------------------------------
// The converter
// ---------------------------------------------------------------------------

/// Converts DOCX files to Markdown.
pub struct DocxConverter;

/// The error a package decides on its own: not a ZIP archive, or over the
/// uncompressed-size budget.
pub open spec fn package_error(data: Seq<u8>, limit: usize) -> Option<ConvertError> {
    match zip_entry_names(data) {
        None => Some(ConvertError::ZipError),
        Some(names) => match budget_outcome(data, names.len(), limit) {
            Err(e) => Some(e),
            Ok(_) => None,
        },
    }
}

/// Whether an optional text part reads without error: missing, or UTF-8.
pub open spec fn optional_part_ok(data: Seq<u8>, name: Seq<char>) -> bool {
    match zip_entry_read(data, name) {
        Ok(None) => true,
        Ok(Some(b)) => vstd::utf8::valid_utf8(b),
        Err(_) => false,
    }
}

/// The error for a package without `word/document.xml`.
fn missing_document() -> (e: ConvertError)
    ensures
        is_missing_document(e),
{
    let mut m: Vec<char> = Vec::new();
    push_str(&mut m, "missing word/document.xml");
    ConvertError::MalformedDocument { reason: string_from_chars(m.as_slice()) }
}

/// Reads an optional text part: `None` when it is missing.
fn optional_part(archive: &mut zip::ZipArchive<Cursor<&[u8]>>, name: &str) -> (r: Result<
    Option<String>,
    ConvertError,
>)
    ensures
        crate::zip_io::archive_source(*final(archive)) == crate::zip_io::archive_source(
            *old(archive),
        ),
        crate::zip_utils::text_outcome(crate::zip_io::archive_source(*old(archive)), name@, r),
        r is Ok <==> optional_part_ok(crate::zip_io::archive_source(*old(archive)), name@),
{
    read_zip_text(archive, name)
}

/// A converted document with its images still to be resolved, or the error.
pub type InnerResult = Result<(ConversionResult, PendingImageResolution, Vec<Comment>), ConvertError>;

/// Whether `e` is the error for a package without `word/document.xml`.
pub open spec fn is_missing_document(e: ConvertError) -> bool {
    e matches ConvertError::MalformedDocument { reason } && reason@ == "missing word/document.xml"@
}

/// Whether every part read before `word/document.xml` reads without error.
pub open spec fn optional_parts_ok(data: Seq<u8>) -> bool {
    &&& optional_part_ok(data, "word/styles.xml"@)
    &&& optional_part_ok(data, "word/_rels/document.xml.rels"@)
    &&& optional_part_ok(data, "word/numbering.xml"@)
}

/// The errors of a DOCX conversion: the package's own error first; a
/// package whose optional parts read but that lacks `word/document.xml`
/// fails with a missing-document error; success needs a sound package and
/// a UTF-8 `word/document.xml`.
pub open spec fn inner_errors_ok(data: Seq<u8>, limit: usize, r: InnerResult) -> bool {
    &&& package_error(data, limit) matches Some(e) ==> (r matches Err(e2) && e2 == e)
    &&& r is Ok ==> package_error(data, limit) is None
    &&& r is Ok ==> (zip_entry_read(data, "word/document.xml"@) matches Ok(Some(b))
        && vstd::utf8::valid_utf8(b))
    &&& (package_error(data, limit) is None && optional_parts_ok(data) && zip_entry_read(
        data,
        "word/document.xml"@,
    ) is Ok && zip_entry_read(data, "word/document.xml"@)->Ok_0 is None) ==> (r matches Err(e)
        && is_missing_document(e))
}

/// Whether a DOCX package converts: a sound package (see
/// [`package_error`]) whose optional parts read and whose
/// `word/document.xml` is present and UTF-8.
pub open spec fn docx_opens(data: Seq<u8>, limit: usize) -> bool {
    &&& package_error(data, limit) is None
    &&& optional_parts_ok(data)
    &&& zip_entry_read(data, "word/document.xml"@) matches Ok(Some(b)) && vstd::utf8::valid_utf8(b)
}

/// The body scan of a package's `word/document.xml` with the styles,
/// relationships and numbering of its parts (each part that is missing or
/// unreadable counts as empty).
pub open spec fn document_body(data: Seq<u8>) -> BodyV {
    let styles = match part_text(data, "word/styles.xml"@) {
        Ok(Some(x)) => styles_fold(xml_tokens(x)).0,
        _ => Seq::empty(),
    };
    let rels = match part_text(data, "word/_rels/document.xml.rels"@) {
        Ok(Some(x)) => rels_from_tokens(xml_tokens(x)),
        _ => Seq::empty(),
    };
    let instances = match part_text(data, "word/numbering.xml"@) {
        Ok(Some(x)) => numbering_fold(xml_tokens(x)).6,
        _ => Seq::empty(),
    };
    let levels = match part_text(data, "word/numbering.xml"@) {
        Ok(Some(x)) => numbering_fold(xml_tokens(x)).7,
        _ => Seq::empty(),
    };
    let doc = match part_text(data, "word/document.xml"@) {
        Ok(Some(x)) => x,
        _ => Seq::empty(),
    };
    body_fold(xml_tokens(doc), styles, rels, instances, levels)
}

/// Whether a converted document holds what its body scan gives: the
/// Markdown and plain text with one final newline, the title, the images
/// placed, and the scan's warnings first.
pub open spec fn converted_body(data: Seq<u8>, res: ConversionResult, infos: Seq<ImageInfo>) -> bool {
    let b = document_body(data);
    &&& res.markdown@ == single_newline(b.output)
    &&& res.plain_text@ == single_newline(b.plain_output)
    &&& opt_str(res.title) == b.title
    &&& imgs_view(infos) == b.images
    &&& warns_view(res.warnings@).len() >= b.warnings.len()
    &&& warns_view(res.warnings@).subrange(0, b.warnings.len() as int) == b.warnings
}

impl DocxConverter {
    /// Parses the document and reads its images (when `need_bytes`),
    /// leaving the image placeholders unresolved. Fails when the data is
    /// not a ZIP archive or is over budget (see [`package_error`]), when a
    /// part cannot be read, and when `word/document.xml` is missing.
    pub fn convert_inner(&self, data: &[u8], options: &ConversionOptions, need_bytes: bool) -> (r:
        InnerResult)
        ensures
            inner_errors_ok(data@, options.max_uncompressed_zip_bytes, r),
            r is Ok ==> docx_opens(data@, options.max_uncompressed_zip_bytes),
            docx_opens(data@, options.max_uncompressed_zip_bytes) && (!options.extract_comments
                || zip_entry_read(data@, "word/comments.xml"@) matches Ok(None)) ==> r is Ok,
            r matches Ok(p) ==> converted_body(data@, p.0, p.1.infos@),
            r matches Ok(p) ==> (!options.extract_comments ==> p.2@.len() == 0),
            r matches Ok(p) ==> total_len(p.0.images@) <= options.max_total_image_bytes,
            r matches Ok(p) ==> (!options.extract_images ==> p.0.images@.len() == 0),
    {
        let mut archive = match open_archive(data) {
            Some(a) => a,
            None => {
                return Err(ConvertError::ZipError);
            },
        };
        match validate_zip_budget(&mut archive, options.max_uncompressed_zip_bytes) {
            Ok(()) => {},
            Err(e) => {
                return Err(e);
            },
        }
        let styles = match optional_part(&mut archive, "word/styles.xml") {
            Ok(Some(x)) => parse_styles(x.as_str()),
            Ok(None) => Vec::new(),
            Err(e) => {
                return Err(e);
            },
        };
        let rels = match optional_part(&mut archive, "word/_rels/document.xml.rels") {
            Ok(Some(x)) => parse_relationships(x.as_str()),
            Ok(None) => Vec::new(),
            Err(e) => {
                return Err(e);
            },
        };
        let numbering = match optional_part(&mut archive, "word/numbering.xml") {
            Ok(Some(x)) => parse_numbering(x.as_str()),
            Ok(None) => NumberingDefs { instances: Vec::new(), levels: Vec::new() },
            Err(e) => {
                return Err(e);
            },
        };
        let document = match read_zip_text(&mut archive, "word/document.xml") {
            Ok(Some(x)) => x,
            Ok(None) => {
                return Err(missing_document());
            },
            Err(e) => {
                return Err(e);
            },
        };
        assert(styles_view(styles@) == match part_text(data@, "word/styles.xml"@) {
            Ok(Some(x)) => styles_fold(xml_tokens(x)).0,
            _ => Seq::empty(),
        }) by {
            if !(part_text(data@, "word/styles.xml"@) matches Ok(Some(_))) {
                assert(styles_view(styles@) =~= Seq::empty());
            }
        }
        assert(rels_view(rels@) == match part_text(data@, "word/_rels/document.xml.rels"@) {
            Ok(Some(x)) => rels_from_tokens(xml_tokens(x)),
            _ => Seq::empty(),
        }) by {
            if !(part_text(data@, "word/_rels/document.xml.rels"@) matches Ok(Some(_))) {
                assert(rels_view(rels@) =~= Seq::empty());
            }
        }
        assert(instances_view(numbering.instances@) == match part_text(data@, "word/numbering.xml"@) {
            Ok(Some(x)) => numbering_fold(xml_tokens(x)).6,
            _ => Seq::empty(),
        }) by {
            if !(part_text(data@, "word/numbering.xml"@) matches Ok(Some(_))) {
                assert(instances_view(numbering.instances@) =~= Seq::empty());
            }
        }
        assert(levels_view(numbering.levels@) == match part_text(data@, "word/numbering.xml"@) {
            Ok(Some(x)) => numbering_fold(xml_tokens(x)).7,
            _ => Seq::empty(),
        }) by {
            if !(part_text(data@, "word/numbering.xml"@) matches Ok(Some(_))) {
                assert(levels_view(numbering.levels@) =~= Seq::empty());
            }
        }
        let body = parse_document(document.as_str(), &styles, &rels, &numbering);
        let ghost bw = body.warnings@;
        let mut warnings = body.warnings;
        let (images, bytes) = if need_bytes {
            extract_package_images(
                &mut archive,
                &rels,
                "word/document.xml",
                options.max_total_image_bytes,
                options.extract_images,
                &mut warnings,
            )
        } else {
            (Vec::new(), Vec::new())
        };
        let comments = if options.extract_comments {
            match extract_docx_comments(&mut archive, document.as_str(), &mut warnings) {
                Ok(c) => c,
                Err(e) => {
                    return Err(e);
                },
            }
        } else {
            Vec::new()
        };
        let result = ConversionResult {
            markdown: body.markdown,
            plain_text: body.plain_text,
            title: body.title,
            images,
            warnings,
        };
        assert(warns_view(result.warnings@).subrange(0, bw.len() as int) =~= warns_view(bw)) by {
            assert forall|j: int| 0 <= j < bw.len() implies warns_view(result.warnings@)[j]
                == warns_view(bw)[j] by {
                assert(result.warnings@.subrange(0, bw.len() as int)[j] == bw[j]);
            }
        }
        Ok((result, PendingImageResolution { infos: body.images, bytes }, comments))
    }

    /// Converts a DOCX file, describing its images with `describer` when
    /// one is given (see [`resolve_image_placeholders`]).
    pub fn convert_with_describer<D: ImageDescriber>(
        &self,
        data: &[u8],
        options: &ConversionOptions,
        describer: Option<&D>,
    ) -> (r: Result<ConversionResult, ConvertError>)
        ensures
            package_error(data@, options.max_uncompressed_zip_bytes) matches Some(e) ==> (r matches Err(
                e2,
            ) && e2 == e),
            r is Ok ==> package_error(data@, options.max_uncompressed_zip_bytes) is None,
            r is Ok ==> docx_opens(data@, options.max_uncompressed_zip_bytes),
            docx_opens(data@, options.max_uncompressed_zip_bytes) && (!options.extract_comments
                || zip_entry_read(data@, "word/comments.xml"@) matches Ok(None)) ==> r is Ok,
            r matches Ok(res) ==> opt_str(res.title) == document_body(data@).title,
            r matches Ok(res) ==> (describer is None && !options.extract_comments ==> {
                let b = document_body(data@);
                &&& res.markdown@ == resolve_without_describer(single_newline(b.output), b.images)
                &&& res.plain_text@ == resolve_plain_without_describer(
                    single_newline(b.plain_output),
                    b.images,
                )
            }),
            r matches Ok(res) ==> total_len(res.images@) <= options.max_total_image_bytes,
            r matches Ok(res) ==> (!options.extract_images ==> res.images@.len() == 0),
    {
        let need = options.extract_images || describer.is_some();
        let (mut result, pending, comments) = match self.convert_inner(data, options, need) {
            Ok(p) => p,
            Err(e) => {
                return Err(e);
            },
        };
        resolve_image_placeholders(
            &mut result.markdown,
            &mut result.plain_text,
            &pending.infos,
            &pending.bytes,
            describer,
            &mut result.warnings,
        );
        append_comments(&mut result.markdown, &mut result.plain_text, &comments);
        Ok(result)
    }
}

/// What converting a DOCX package without a describer gives (see
/// [`DocxConverter::convert_with_describer`]).
pub open spec fn docx_convert_outcome(
    data: Seq<u8>,
    options: ConversionOptions,
    r: Result<ConversionResult, ConvertError>,
) -> bool {
    &&& package_error(data, options.max_uncompressed_zip_bytes) matches Some(e) ==> (r matches Err(
        e2,
    ) && e2 == e)
    &&& r is Ok ==> package_error(data, options.max_uncompressed_zip_bytes) is None
    &&& r is Ok ==> docx_opens(data, options.max_uncompressed_zip_bytes)
    &&& docx_opens(data, options.max_uncompressed_zip_bytes) && (!options.extract_comments
        || zip_entry_read(data, "word/comments.xml"@) matches Ok(None)) ==> r is Ok
    &&& r matches Ok(res) ==> opt_str(res.title) == document_body(data).title
    &&& r matches Ok(res) ==> (!options.extract_comments ==> {
        let b = document_body(data);
        &&& res.markdown@ == resolve_without_describer(single_newline(b.output), b.images)
        &&& res.plain_text@ == resolve_plain_without_describer(
            single_newline(b.plain_output),
            b.images,
        )
    })
    &&& r matches Ok(res) ==> total_len(res.images@) <= options.max_total_image_bytes
    &&& r matches Ok(res) ==> (!options.extract_images ==> res.images@.len() == 0)
}

impl Converter for DocxConverter {
    open spec fn extensions(&self) -> Seq<&'static str> {
        seq!["docx"]
    }

    fn supported_extensions(&self) -> (r: Vec<&'static str>) {
        let v = vec!["docx"];
        assert(v@ =~= seq!["docx"]);
        v
    }

    fn convert(&self, data: &[u8], options: &ConversionOptions) -> (r: Result<
        ConversionResult,
        ConvertError,
    >)
        ensures
            docx_convert_outcome(data@, *options, r),
    {
        self.convert_with_describer::<NoDescriber>(data, options, None)
    }
}

} // verus!
