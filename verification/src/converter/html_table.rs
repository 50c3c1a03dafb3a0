//! HTML tables: cells with spans and ordered content, vertical spans made
//! explicit, and the rendering of a whole table as one GFM grid (or, when a
//! cell holds a nested table, as a sequence of blocks).

use vstd::prelude::*;

use crate::converter::docx::warnings_appended;
use crate::converter::{warning, ConversionWarning, WarningCode};
use crate::markdown::{build_table, build_table_plain, md_table, pad_row, plain_table};
use crate::text::{
    chars_of, ends_with, is_whitespace, is_ws, lemma_deep_view_chars, push_all, push_str,
    string_from_chars, trim, trim_end, trim_end_ws, trim_ws,
};

verus! {

broadcast use vstd::string::group_string_axioms;

/// Upper bound on table columns and on a cell's `colspan`.
pub const MAX_TABLE_COLS: usize = 4096;

/// Upper bound on a cell's `rowspan`.
pub const MAX_TABLE_ROWS: usize = 4096;

/// Upper bound on the cells one table materializes and renders.
pub const MAX_TABLE_CELLS: usize = 100000;

// ---------------------------------------------------------------------------
// Cells and rows
// ---------------------------------------------------------------------------

/// One ordered piece of a table cell's content.
#[derive(Debug)]
pub enum CellSegment {
    /// Accumulated text.
    Text(String),
    /// A rendered nested table, as Markdown and as plain text.
    Table { md: String, plain: String },
}

/// A buffered table cell: its spans and its content in document order.
#[derive(Debug)]
pub struct HtmlCell {
    /// Columns the cell spans (`colspan`).
    pub colspan: usize,
    /// Rows the cell spans (`rowspan`).
    pub rowspan: usize,
    /// Text runs and nested tables, in document order.
    pub segments: Vec<CellSegment>,
}

/// A buffered table row.
#[derive(Debug)]
pub struct HtmlRow {
    /// Cells in document order.
    pub cells: Vec<HtmlCell>,
    /// Whether the row came from `<thead>`.
    pub is_header_row: bool,
}

/// The view of a cell segment.
pub enum SegView {
    Text(Seq<char>),
    Table(Seq<char>, Seq<char>),
}

/// The view of a cell.
pub struct CellView {
    pub colspan: nat,
    pub rowspan: nat,
    pub segments: Seq<SegView>,
}

/// The view of a row.
pub struct RowView {
    pub cells: Seq<CellView>,
    pub is_header_row: bool,
}

impl View for CellSegment {
    type V = SegView;

    open spec fn view(&self) -> SegView {
        match self {
            CellSegment::Text(t) => SegView::Text(t@),
            CellSegment::Table { md, plain } => SegView::Table(md@, plain@),
        }
    }
}

impl View for HtmlCell {
    type V = CellView;

    open spec fn view(&self) -> CellView {
        CellView {
            colspan: self.colspan as nat,
            rowspan: self.rowspan as nat,
            segments: self.segments@.map_values(|s: CellSegment| s@),
        }
    }
}

impl View for HtmlRow {
    type V = RowView;

    open spec fn view(&self) -> RowView {
        RowView { cells: self.cells@.map_values(|c: HtmlCell| c@), is_header_row: self.is_header_row }
    }
}

/// The view of a list of rows.
pub open spec fn rows_view(rows: Seq<HtmlRow>) -> Seq<RowView> {
    rows.map_values(|r: HtmlRow| r@)
}

/// A cell with no content spanning one row and one column.
pub open spec fn blank_cell() -> CellView {
    CellView { colspan: 1, rowspan: 1, segments: Seq::empty() }
}

/// The columns a cell occupies: its `colspan`, at least one.
pub open spec fn cell_span(c: CellView) -> nat {
    if c.colspan == 0 {
        1
    } else {
        c.colspan
    }
}

/// The text of a cell's text segments, in order (nested tables omitted).
pub open spec fn segments_text(segs: Seq<SegView>) -> Seq<char>
    decreases segs.len(),
{
    if segs.len() == 0 {
        Seq::empty()
    } else {
        segments_text(segs.drop_last()) + match segs.last() {
            SegView::Text(t) => t,
            SegView::Table(_, _) => Seq::empty(),
        }
    }
}

/// The text of a cell as one grid cell: its text segments joined, trimmed.
pub open spec fn joined_text(c: CellView) -> Seq<char> {
    trim_ws(segments_text(c.segments))
}

/// Whether a cell holds a nested table.
pub open spec fn cell_has_table(c: CellView) -> bool {
    exists|i: int| 0 <= i < c.segments.len() && c.segments[i] is Table
}

/// Whether a row holds a nested table.
pub open spec fn row_has_table(r: RowView) -> bool {
    exists|i: int| 0 <= i < r.cells.len() && cell_has_table(r.cells[i])
}

/// The segments of a cell after appending text `s`: the trailing text
/// segment grows, or a new one starts; empty text changes nothing.
pub open spec fn push_text_spec(segs: Seq<SegView>, s: Seq<char>) -> Seq<SegView> {
    if s.len() == 0 {
        segs
    } else if segs.len() > 0 && segs.last() is Text {
        segs.drop_last().push(SegView::Text(segs.last()->Text_0 + s))
    } else {
        segs.push(SegView::Text(s))
    }
}

/// The segments of a cell after a block separator: a space is added to a
/// trailing text segment that is non-empty and does not end in whitespace.
pub open spec fn separator_spec(segs: Seq<SegView>) -> Seq<SegView> {
    if segs.len() > 0 && segs.last() is Text && segs.last()->Text_0.len() > 0 && !is_ws(
        segs.last()->Text_0.last(),
    ) {
        segs.drop_last().push(SegView::Text(segs.last()->Text_0.push(' ')))
    } else {
        segs
    }
}

impl HtmlCell {
    /// An empty cell with the given spans.
    pub fn new(colspan: usize, rowspan: usize) -> (c: HtmlCell)
        ensures
            c@ == (CellView { colspan: colspan as nat, rowspan: rowspan as nat, segments: Seq::empty() }),
    {
        let c = HtmlCell { colspan, rowspan, segments: Vec::new() };
        assert(c@.segments =~= Seq::<SegView>::empty());
        c
    }

    /// Whether the cell holds a nested table (see [`cell_has_table`]).
    pub fn has_nested_table(&self) -> (b: bool)
        ensures
            b == cell_has_table(self@),
    {
        let mut i: usize = 0;
        while i < self.segments.len()
            invariant
                i <= self.segments.len(),
                forall|k: int| 0 <= k < i ==> !(self@.segments[k] is Table),
            decreases self.segments.len() - i,
        {
            match &self.segments[i] {
                CellSegment::Table { .. } => {
                    assert(self@.segments[i as int] is Table);
                    return true;
                },
                _ => {},
            }
            i = i + 1;
        }
        false
    }

    /// Appends text (see [`push_text_spec`]).
    pub fn push_text(&mut self, s: &str)
        ensures
            final(self)@ == (CellView { segments: push_text_spec(old(self)@.segments, s@), ..old(self)@ }),
    {
        let ghost old_segs = self@.segments;
        let sc = chars_of(s);
        if sc.len() == 0 {
            return;
        }
        let n = self.segments.len();
        let extend = n > 0 && match &self.segments[n - 1] {
            CellSegment::Text(_) => true,
            _ => false,
        };
        if extend {
            let last = self.segments.pop().unwrap();
            let t = match last {
                CellSegment::Text(t) => t,
                CellSegment::Table { md, plain } => md,
            };
            let mut tc = chars_of(t.as_str());
            push_all(&mut tc, sc.as_slice());
            self.segments.push(CellSegment::Text(string_from_chars(tc.as_slice())));
            proof {
                assert(self@.segments =~= push_text_spec(old_segs, s@));
            }
        } else {
            self.segments.push(CellSegment::Text(s.to_string()));
            proof {
                assert(self@.segments =~= push_text_spec(old_segs, s@));
            }
        }
    }

    /// Adds a separating space to trailing text (see [`separator_spec`]).
    pub fn push_separator_space(&mut self)
        ensures
            final(self)@ == (CellView { segments: separator_spec(old(self)@.segments), ..old(self)@ }),
    {
        let ghost old_segs = self@.segments;
        let n = self.segments.len();
        if n == 0 {
            return;
        }
        let wants = match &self.segments[n - 1] {
            CellSegment::Text(t) => {
                let tc = chars_of(t.as_str());
                tc.len() > 0 && !is_whitespace(tc[tc.len() - 1])
            },
            _ => false,
        };
        if wants {
            let last = self.segments.pop().unwrap();
            let t = match last {
                CellSegment::Text(t) => t,
                CellSegment::Table { md, plain } => md,
            };
            let mut tc = chars_of(t.as_str());
            tc.push(' ');
            self.segments.push(CellSegment::Text(string_from_chars(tc.as_slice())));
            proof {
                assert(self@.segments =~= separator_spec(old_segs));
            }
        }
    }

    /// The cell's text as one grid cell (see [`joined_text`]).
    pub fn joined_text(&self) -> (v: Vec<char>)
        ensures
            v@ == joined_text(self@),
    {
        let mut s: Vec<char> = Vec::new();
        let mut i: usize = 0;
        while i < self.segments.len()
            invariant
                i <= self.segments.len(),
                s@ == segments_text(self@.segments.subrange(0, i as int)),
            decreases self.segments.len() - i,
        {
            assert(self@.segments.subrange(0, i + 1).drop_last() =~= self@.segments.subrange(
                0,
                i as int,
            ));
            match &self.segments[i] {
                CellSegment::Text(t) => {
                    let tc = chars_of(t.as_str());
                    push_all(&mut s, tc.as_slice());
                },
                _ => {},
            }
            i = i + 1;
        }
        assert(self@.segments.subrange(0, self.segments.len() as int) =~= self@.segments);
        trim(s.as_slice())
    }
}

/// A copy of a segment.
fn copy_segment(s: &CellSegment) -> (r: CellSegment)
    ensures
        r@ == s@,
{
    match s {
        CellSegment::Text(t) => CellSegment::Text(t.clone()),
        CellSegment::Table { md, plain } => CellSegment::Table { md: md.clone(), plain: plain.clone() },
    }
}

/// A copy of a cell with its `rowspan` set to one.
fn copy_cell_one_row(c: &HtmlCell) -> (r: HtmlCell)
    ensures
        r@ == (CellView { rowspan: 1, ..c@ }),
{
    let mut segs: Vec<CellSegment> = Vec::new();
    let mut i: usize = 0;
    while i < c.segments.len()
        invariant
            i <= c.segments.len(),
            segs@.map_values(|s: CellSegment| s@) == c@.segments.subrange(0, i as int),
        decreases c.segments.len() - i,
    {
        let ghost before = segs@;
        let x = copy_segment(&c.segments[i]);
        segs.push(x);
        assert(segs@.map_values(|s: CellSegment| s@) =~= before.map_values(|s: CellSegment| s@).push(
            x@,
        ));
        assert(c@.segments.subrange(0, i + 1) =~= c@.segments.subrange(0, i as int).push(
            c@.segments[i as int],
        ));
        i = i + 1;
    }
    assert(c@.segments.subrange(0, c.segments.len() as int) =~= c@.segments);
    HtmlCell { colspan: c.colspan, rowspan: 1, segments: segs }
}

/// Whether a row holds a nested table (see [`row_has_table`]).
pub fn html_row_has_nested_table(row: &HtmlRow) -> (b: bool)
    ensures
        b == row_has_table(row@),
{
    let mut i: usize = 0;
    while i < row.cells.len()
        invariant
            i <= row.cells.len(),
            forall|k: int| 0 <= k < i ==> !cell_has_table(row@.cells[k]),
        decreases row.cells.len() - i,
    {
        if row.cells[i].has_nested_table() {
            assert(cell_has_table(row@.cells[i as int]));
            return true;
        }
        i = i + 1;
    }
    false
}

// ---------------------------------------------------------------------------
// Widths
// ---------------------------------------------------------------------------

/// The columns a row's cells span in total.
pub open spec fn raw_sum(cells: Seq<CellView>) -> nat
    decreases cells.len(),
{
    if cells.len() == 0 {
        0
    } else {
        raw_sum(cells.drop_last()) + cell_span(cells.last())
    }
}

/// `n`, capped at `limit`.
pub open spec fn cap(n: nat, limit: nat) -> nat {
    if n > limit {
        limit
    } else {
        n
    }
}

/// The widest row's span total, each row's total capped at the column
/// limit: the grid width of a table.
pub open spec fn grid_width(rows: Seq<RowView>) -> nat
    decreases rows.len(),
{
    if rows.len() == 0 {
        0
    } else {
        let a = grid_width(rows.drop_last());
        let b = cap(raw_sum(rows.last().cells), MAX_TABLE_COLS as nat);
        if a >= b {
            a
        } else {
            b
        }
    }
}

/// Whether some row's cells span more than `w` columns.
pub open spec fn some_row_wider(rows: Seq<RowView>, w: nat) -> bool {
    exists|i: int| 0 <= i < rows.len() && raw_sum(#[trigger] rows[i].cells) > w
}

/// The span total of a row's cells, capped at `limit`.
fn capped_span_sum(cells: &Vec<HtmlCell>, limit: usize) -> (n: usize)
    ensures
        n == cap(raw_sum(cells@.map_values(|c: HtmlCell| c@)), limit as nat),
{
    let ghost cv = cells@.map_values(|c: HtmlCell| c@);
    let mut acc: usize = 0;
    let mut i: usize = 0;
    while i < cells.len()
        invariant
            i <= cells.len(),
            cv == cells@.map_values(|c: HtmlCell| c@),
            acc == cap(raw_sum(cv.subrange(0, i as int)), limit as nat),
        decreases cells.len() - i,
    {
        assert(cv.subrange(0, i + 1).drop_last() =~= cv.subrange(0, i as int));
        let span = if cells[i].colspan == 0 {
            1
        } else {
            cells[i].colspan
        };
        acc = if acc >= limit || span >= limit - acc {
            limit
        } else {
            acc + span
        };
        i = i + 1;
    }
    assert(cv.subrange(0, cells.len() as int) =~= cv);
    acc
}

/// The grid width of a table (see [`grid_width`]).
pub fn html_grid_width(rows: &Vec<HtmlRow>) -> (w: usize)
    ensures
        w == grid_width(rows_view(rows@)),
        w <= MAX_TABLE_COLS,
{
    let ghost rv = rows_view(rows@);
    let mut w: usize = 0;
    let mut i: usize = 0;
    while i < rows.len()
        invariant
            i <= rows.len(),
            rv == rows_view(rows@),
            w == grid_width(rv.subrange(0, i as int)),
            w <= MAX_TABLE_COLS,
        decreases rows.len() - i,
    {
        assert(rv.subrange(0, i + 1).drop_last() =~= rv.subrange(0, i as int));
        let s = capped_span_sum(&rows[i].cells, MAX_TABLE_COLS);
        if s > w {
            w = s;
        }
        i = i + 1;
    }
    assert(rv.subrange(0, rows.len() as int) =~= rv);
    w
}

/// A total capped at `limit + 1` exceeds `w <= limit` exactly when the
/// total does.
proof fn lemma_cap_above(n: nat, limit: nat, w: nat)
    requires
        w <= limit,
    ensures
        cap(n, limit + 1) > w <==> n > w,
{
}

/// Whether some row's cells span more than `w` columns (see
/// [`some_row_wider`]).
fn any_row_wider(rows: &Vec<HtmlRow>, w: usize) -> (b: bool)
    requires
        w <= MAX_TABLE_COLS,
    ensures
        b == some_row_wider(rows_view(rows@), w as nat),
{
    let ghost rv = rows_view(rows@);
    let mut i: usize = 0;
    while i < rows.len()
        invariant
            i <= rows.len(),
            w <= MAX_TABLE_COLS,
            rv == rows_view(rows@),
            forall|k: int| 0 <= k < i ==> raw_sum(#[trigger] rv[k].cells) <= w,
        decreases rows.len() - i,
    {
        let s = capped_span_sum(&rows[i].cells, MAX_TABLE_COLS + 1);
        proof {
            lemma_cap_above(raw_sum(rv[i as int].cells), MAX_TABLE_COLS as nat, w as nat);
        }
        if s > w {
            return true;
        }
        i = i + 1;
    }
    false
}

// ---------------------------------------------------------------------------
// Vertical spans
// ---------------------------------------------------------------------------

/// What materializing one row yields: its cells, the vertical spans it
/// starts (rows still to cover, by column) and the running cell total.
pub struct FillOut {
    pub cells: Seq<CellView>,
    pub spans: Seq<usize>,
    pub total: nat,
}

/// Materializes a row's columns left to right from column `col`, source
/// cell `next` on: a column covered by a span from above gets a blank
/// cell, otherwise the next source cell is placed (with `rowspan` one,
/// recording the rows its span still covers); this stops at the grid
/// width, when the source cells run out, or at the cell limit.
pub open spec fn fill_row(
    src: Seq<CellView>,
    pending: Seq<usize>,
    width: nat,
    cells: Seq<CellView>,
    spans: Seq<usize>,
    total: nat,
    col: nat,
    next: nat,
) -> FillOut
    decreases if col < width {
        (width - col) as nat
    } else {
        0nat
    },
{
    if col >= width || total >= MAX_TABLE_CELLS {
        FillOut { cells, spans, total }
    } else if pending[col as int] > 0 {
        fill_row(src, pending, width, cells.push(blank_cell()), spans, total + 1, col + 1, next)
    } else if next < src.len() {
        let c = src[next as int];
        let span = cell_span(c);
        let new_spans = if c.rowspan > 1 {
            Seq::new(
                spans.len(),
                |j: int|
                    if col <= j < col + span {
                        (c.rowspan - 1) as usize
                    } else {
                        spans[j]
                    },
            )
        } else {
            spans
        };
        fill_row(
            src,
            pending,
            width,
            cells.push(CellView { rowspan: 1, ..c }),
            new_spans,
            total + 1,
            col + span,
            next + 1,
        )
    } else {
        FillOut { cells, spans, total }
    }
}

/// The spans carried into the next row: each carried span covers one row
/// less, and the spans the row started take over where they are longer.
pub open spec fn next_pending(pending: Seq<usize>, spans: Seq<usize>) -> Seq<usize> {
    Seq::new(
        pending.len(),
        |j: int|
            {
                let p: usize = if pending[j] > 0 {
                    (pending[j] - 1) as usize
                } else {
                    0
                };
                if p >= spans[j] {
                    p
                } else {
                    spans[j]
                }
            },
    )
}

/// Rows without cells, keeping their header flags.
pub open spec fn emptied(rows: Seq<RowView>) -> Seq<RowView> {
    rows.map_values(|r: RowView| RowView { cells: Seq::empty(), is_header_row: r.is_header_row })
}

/// `width` zeros.
pub open spec fn zeros(width: nat) -> Seq<usize> {
    Seq::new(width, |j: int| 0usize)
}

/// Materializes rows `i..` (see [`fill_row`]); once the cell limit is
/// reached, the remaining rows are kept empty and the result is marked as
/// truncated.
pub open spec fn norm_from(rows: Seq<RowView>, i: nat, width: nat, pending: Seq<usize>, total: nat) -> (
    Seq<RowView>,
    bool,
)
    decreases if i < rows.len() {
        (rows.len() - i) as nat
    } else {
        0nat
    },
{
    if i >= rows.len() {
        (Seq::empty(), false)
    } else {
        let f = fill_row(rows[i as int].cells, pending, width, Seq::empty(), zeros(width), total, 0, 0);
        let row = RowView { cells: f.cells, is_header_row: rows[i as int].is_header_row };
        if f.total >= MAX_TABLE_CELLS {
            (seq![row] + emptied(rows.subrange(i + 1 as int, rows.len() as int)), true)
        } else {
            let rest = norm_from(rows, i + 1, width, next_pending(pending, f.spans), f.total);
            (seq![row] + rest.0, rest.1)
        }
    }
}

/// A table with its vertical spans made explicit: every column a `rowspan`
/// covers below its cell gets a blank cell, rows are held to the grid
/// width, and at most [`MAX_TABLE_CELLS`] cells are materialized (the flag
/// says whether that limit cut the table).
pub open spec fn normalize_spec(rows: Seq<RowView>) -> (Seq<RowView>, bool) {
    let width = grid_width(rows);
    if width == 0 {
        (emptied(rows), false)
    } else {
        norm_from(rows, 0, width, zeros(width), 0)
    }
}

/// The view of a list of cells.
pub open spec fn cells_view(cells: Seq<HtmlCell>) -> Seq<CellView> {
    cells.map_values(|c: HtmlCell| c@)
}

/// `width` zeros.
fn zero_vec(width: usize) -> (v: Vec<usize>)
    ensures
        v@ == zeros(width as nat),
{
    let mut v: Vec<usize> = Vec::new();
    while v.len() < width
        invariant
            v.len() <= width,
            forall|j: int| 0 <= j < v.len() ==> v@[j] == 0,
        decreases width - v.len(),
    {
        v.push(0);
    }
    assert(v@ =~= zeros(width as nat));
    v
}

/// Materializes one row (see [`fill_row`]).
fn fill_one_row(src: &Vec<HtmlCell>, pending: &Vec<usize>, width: usize, total: usize) -> (r: (
    Vec<HtmlCell>,
    Vec<usize>,
    usize,
))
    requires
        pending.len() == width,
        total <= MAX_TABLE_CELLS,
    ensures
        cells_view(r.0@) == fill_row(cells_view(src@), pending@, width as nat, Seq::empty(), zeros(width as nat), total as nat, 0, 0).cells,
        r.1@ == fill_row(cells_view(src@), pending@, width as nat, Seq::empty(), zeros(width as nat), total as nat, 0, 0).spans,
        r.2 == fill_row(cells_view(src@), pending@, width as nat, Seq::empty(), zeros(width as nat), total as nat, 0, 0).total,
        r.1.len() == width,
        r.2 <= MAX_TABLE_CELLS,
{
    let ghost sv = cells_view(src@);
    let ghost target = fill_row(sv, pending@, width as nat, Seq::empty(), zeros(width as nat), total as nat, 0, 0);
    let mut cells: Vec<HtmlCell> = Vec::new();
    let mut spans = zero_vec(width);
    let mut t = total;
    let mut col: usize = 0;
    let mut next: usize = 0;
    assert(cells_view(cells@) =~= Seq::<CellView>::empty());
    loop
        invariant
            sv == cells_view(src@),
            pending.len() == width,
            spans.len() == width,
            col <= width,
            t <= MAX_TABLE_CELLS,
            next <= src.len(),
            fill_row(sv, pending@, width as nat, cells_view(cells@), spans@, t as nat, col as nat, next as nat) == target,
        ensures
            target == (FillOut { cells: cells_view(cells@), spans: spans@, total: t as nat }),
            spans.len() == width,
            t <= MAX_TABLE_CELLS,
        decreases width - col,
    {
        if col >= width || t >= MAX_TABLE_CELLS {
            break;
        }
        if pending[col] > 0 {
            let ghost before = cells_view(cells@);
            cells.push(HtmlCell::new(1, 1));
            assert(cells_view(cells@) =~= before.push(blank_cell()));
            t = t + 1;
            col = col + 1;
            continue;
        }
        if next >= src.len() {
            break;
        }
        let c = &src[next];
        let span = if c.colspan == 0 {
            1
        } else {
            c.colspan
        };
        let ghost old_spans = spans@;
        if c.rowspan > 1 {
            let end = if span >= width - col {
                width
            } else {
                col + span
            };
            let mut j = col;
            while j < end
                invariant
                    col <= j <= end <= width,
                    spans.len() == width,
                    c.rowspan > 1,
                    spans@ == Seq::new(
                        width as nat,
                        |x: int|
                            if col <= x < j {
                                (c.rowspan - 1) as usize
                            } else {
                                old_spans[x]
                            },
                    ),
                decreases end - j,
            {
                spans.set(j, c.rowspan - 1);
                j = j + 1;
                assert(spans@ =~= Seq::new(
                    width as nat,
                    |x: int|
                        if col <= x < j {
                            (c.rowspan - 1) as usize
                        } else {
                            old_spans[x]
                        },
                ));
            }
            assert(spans@ =~= Seq::new(
                old_spans.len(),
                |x: int|
                    if col <= x < col + span {
                        (c.rowspan - 1) as usize
                    } else {
                        old_spans[x]
                    },
            ));
        }
        let ghost before = cells_view(cells@);
        let copy = copy_cell_one_row(c);
        cells.push(copy);
        assert(cells_view(cells@) =~= before.push(CellView { rowspan: 1, ..sv[next as int] }));
        t = t + 1;
        next = next + 1;
        if span >= width - col {
            proof {
                assert(fill_row(sv, pending@, width as nat, cells_view(cells@), spans@, t as nat, (col + span) as nat, next as nat)
                    == fill_row(sv, pending@, width as nat, cells_view(cells@), spans@, t as nat, width as nat, next as nat));
            }
            col = width;
        } else {
            col = col + span;
        }
    }
    (cells, spans, t)
}

/// The spans carried into the next row (see [`next_pending`]).
fn advance_pending(pending: &mut Vec<usize>, spans: &Vec<usize>)
    requires
        old(pending).len() == spans.len(),
    ensures
        final(pending)@ == next_pending(old(pending)@, spans@),
{
    let ghost p0 = pending@;
    let mut j: usize = 0;
    while j < pending.len()
        invariant
            j <= pending.len(),
            pending.len() == spans.len(),
            p0.len() == spans.len(),
            forall|x: int| 0 <= x < j ==> pending@[x] == next_pending(p0, spans@)[x],
            forall|x: int| j <= x < pending.len() ==> pending@[x] == p0[x],
        decreases pending.len() - j,
    {
        let p = if pending[j] > 0 {
            pending[j] - 1
        } else {
            0
        };
        let v = if p >= spans[j] {
            p
        } else {
            spans[j]
        };
        pending.set(j, v);
        j = j + 1;
    }
    assert(pending@ =~= next_pending(p0, spans@));
}

/// The empty forms of rows `from..` (see [`emptied`]), appended to `out`.
fn push_emptied(out: &mut Vec<HtmlRow>, rows: &Vec<HtmlRow>, from: usize)
    requires
        from <= rows.len(),
    ensures
        rows_view(final(out)@) == rows_view(old(out)@) + emptied(
            rows_view(rows@).subrange(from as int, rows.len() as int),
        ),
{
    let ghost rv = rows_view(rows@);
    let mut i = from;
    while i < rows.len()
        invariant
            from <= i <= rows.len(),
            rv == rows_view(rows@),
            rows_view(out@) == rows_view(old(out)@) + emptied(rv.subrange(from as int, i as int)),
        decreases rows.len() - i,
    {
        let ghost before = rows_view(out@);
        let r = HtmlRow { cells: Vec::new(), is_header_row: rows[i].is_header_row };
        assert(r@.cells =~= Seq::<CellView>::empty());
        out.push(r);
        assert(rows_view(out@) =~= before.push(r@));
        assert(emptied(rv.subrange(from as int, i + 1)) =~= emptied(
            rv.subrange(from as int, i as int),
        ).push(r@));
        i = i + 1;
    }
}

/// Makes the vertical spans of a table explicit (see [`normalize_spec`]).
pub fn normalize_html_rowspans(rows: &Vec<HtmlRow>) -> (r: (Vec<HtmlRow>, bool))
    ensures
        rows_view(r.0@) == normalize_spec(rows_view(rows@)).0,
        r.1 == normalize_spec(rows_view(rows@)).1,
{
    let ghost rv = rows_view(rows@);
    let width = html_grid_width(rows);
    let mut out: Vec<HtmlRow> = Vec::new();
    if width == 0 {
        push_emptied(&mut out, rows, 0);
        assert(rv.subrange(0, rows.len() as int) =~= rv);
        assert(rows_view(out@) =~= emptied(rv));
        return (out, false);
    }
    let ghost target = normalize_spec(rv);
    let mut pending = zero_vec(width);
    let mut total: usize = 0;
    let mut i: usize = 0;
    assert(rows_view(out@) =~= Seq::<RowView>::empty());
    while i < rows.len()
        invariant
            i <= rows.len(),
            rv == rows_view(rows@),
            width == grid_width(rv),
            width > 0,
            target == normalize_spec(rv),
            pending.len() == width,
            total < MAX_TABLE_CELLS,
            rows_view(out@) + norm_from(rv, i as nat, width as nat, pending@, total as nat).0 == target.0,
            norm_from(rv, i as nat, width as nat, pending@, total as nat).1 == target.1,
        decreases rows.len() - i,
    {
        let ghost before = rows_view(out@);
        let ghost p0 = pending@;
        let (cells, spans, t) = fill_one_row(&rows[i].cells, &pending, width, total);
        let row = HtmlRow { cells, is_header_row: rows[i].is_header_row };
        assert(rv[i as int].cells == cells_view(rows@[i as int].cells@));
        advance_pending(&mut pending, &spans);
        out.push(row);
        assert(rows_view(out@) =~= before.push(row@));
        if t >= MAX_TABLE_CELLS {
            push_emptied(&mut out, rows, i + 1);
            assert(rows_view(out@) =~= before + (seq![row@] + emptied(
                rv.subrange(i + 1 as int, rv.len() as int),
            )));
            return (out, true);
        }
        total = t;
        i = i + 1;
        assert(rows_view(out@) + norm_from(rv, i as nat, width as nat, pending@, total as nat).0
            =~= before + (seq![row@] + norm_from(rv, i as nat, width as nat, pending@, total as nat).0));
    }
    assert(rows_view(out@) =~= rows_view(out@) + Seq::<RowView>::empty());
    (out, false)
}

// ---------------------------------------------------------------------------
// Rendering
// ---------------------------------------------------------------------------

/// A row's cells as grid columns: each cell's text, then an empty column
/// for every further column it spans.
pub open spec fn expand_cells(cells: Seq<CellView>) -> Seq<Seq<char>>
    decreases cells.len(),
{
    if cells.len() == 0 {
        Seq::empty()
    } else {
        expand_cells(cells.drop_last()) + seq![joined_text(cells.last())] + Seq::new(
            (cell_span(cells.last()) - 1) as nat,
            |i: int| Seq::<char>::empty(),
        )
    }
}

/// A row spread over `w` grid columns (cut or padded with empty columns).
pub open spec fn expand_row(r: RowView, w: nat) -> Seq<Seq<char>> {
    pad_row(expand_cells(r.cells), w)
}

/// Rows rendered as one table of `w` columns, the first row as header.
pub open spec fn grid_spec(rows: Seq<RowView>, w: nat, plain: bool) -> Seq<char> {
    let header = expand_row(rows[0], w);
    let body = Seq::new((rows.len() - 1) as nat, |i: int| expand_row(rows[i + 1], w));
    if plain {
        plain_table(header, body)
    } else {
        md_table(header, body)
    }
}

/// The segments of cells, in order.
pub open spec fn cells_segments(cells: Seq<CellView>) -> Seq<SegView>
    decreases cells.len(),
{
    if cells.len() == 0 {
        Seq::empty()
    } else {
        cells_segments(cells.drop_last()) + cells.last().segments
    }
}

/// The segments of all cells of rows, in document order.
pub open spec fn rows_segments(rows: Seq<RowView>) -> Seq<SegView>
    decreases rows.len(),
{
    if rows.len() == 0 {
        Seq::empty()
    } else {
        rows_segments(rows.drop_last()) + cells_segments(rows.last().cells)
    }
}

/// `out` after one segment of a linearized table: non-blank text, trimmed,
/// on its own line (a paragraph in Markdown); a nested table as its own
/// block, separated from what precedes it by a blank line in Markdown.
pub open spec fn lin_seg(out: Seq<char>, seg: SegView, plain: bool) -> Seq<char> {
    match seg {
        SegView::Text(t) => {
            let text = trim_ws(t);
            if text.len() == 0 {
                out
            } else if plain {
                out + text + seq!['\n']
            } else {
                out + text + seq!['\n', '\n']
            }
        },
        SegView::Table(md, tp) => if plain {
            out + trim_end_ws(tp) + seq!['\n']
        } else {
            let gap: Seq<char> = if out.len() > 0 && !(out.len() >= 2 && out[out.len() - 1] == '\n'
                && out[out.len() - 2] == '\n') {
                if out.last() == '\n' {
                    seq!['\n']
                } else {
                    seq!['\n', '\n']
                }
            } else {
                Seq::empty()
            };
            out + gap + trim_end_ws(md) + seq!['\n', '\n']
        },
    }
}

/// `out` after the segments `segs` (see [`lin_seg`]).
pub open spec fn lin_segs(out: Seq<char>, segs: Seq<SegView>, plain: bool) -> Seq<char>
    decreases segs.len(),
{
    if segs.len() == 0 {
        out
    } else {
        lin_seg(lin_segs(out, segs.drop_last(), plain), segs.last(), plain)
    }
}

/// A table that holds a nested table, as a sequence of blocks: every
/// segment of every cell in document order (see [`lin_seg`]), the plain
/// form ending in an extra newline.
pub open spec fn linearized(rows: Seq<RowView>, plain: bool) -> Seq<char> {
    let o = lin_segs(Seq::empty(), rows_segments(rows), plain);
    if plain {
        o.push('\n')
    } else {
        o
    }
}

/// Whether row `i` is the first `<thead>` row.
pub open spec fn first_header_at(rows: Seq<RowView>, i: int) -> bool {
    &&& 0 <= i < rows.len()
    &&& rows[i].is_header_row
    &&& forall|j: int| 0 <= j < i ==> !(#[trigger] rows[j]).is_header_row
}

/// The index of the first `<thead>` row, or 0 when there is none.
pub open spec fn header_index(rows: Seq<RowView>) -> nat {
    if exists|i: int| first_header_at(rows, i) {
        (choose|i: int| first_header_at(rows, i)) as nat
    } else {
        0
    }
}

/// The rows in rendering order: the header row, then every other row in
/// source order.
pub open spec fn ordered_rows(rows: Seq<RowView>, h: int) -> Seq<RowView> {
    seq![rows[h]] + rows.subrange(0, h) + rows.subrange(h + 1, rows.len() as int)
}

/// The most rows a grid of `w` columns renders: the cell limit divided by
/// the width, at least one.
pub open spec fn max_grid_rows(w: nat) -> nat {
    if MAX_TABLE_CELLS as nat / w >= 1 {
        MAX_TABLE_CELLS as nat / w
    } else {
        1
    }
}

/// A table as text: empty when it has no rows or no columns; linearized
/// when a cell holds a nested table; otherwise one grid of the table's
/// width with the header row first, cut to [`max_grid_rows`] rows.
pub open spec fn table_render_spec(raw: Seq<RowView>, plain: bool) -> Seq<char> {
    let rows = normalize_spec(raw).0;
    let w = grid_width(rows);
    if rows.len() == 0 || w == 0 {
        Seq::empty()
    } else if exists|i: int| 0 <= i < rows.len() && row_has_table(#[trigger] rows[i]) {
        linearized(rows, plain)
    } else {
        let n = if rows.len() <= max_grid_rows(w) {
            rows.len()
        } else {
            max_grid_rows(w)
        };
        grid_spec(ordered_rows(rows, header_index(rows) as int).take(n as int), w, plain)
    }
}

/// The warning for cells dropped while spans are made explicit.
pub open spec fn cells_truncated_message() -> Seq<char> {
    "table exceeded the 100000-cell limit; trailing rows were truncated"@
}

/// The warning for columns beyond the column limit.
pub open spec fn cols_capped_message() -> Seq<char> {
    "table row exceeded the 4096-column limit; extra columns were dropped"@
}

/// The warning for rows beyond the render limit.
pub open spec fn rows_dropped_message() -> Seq<char> {
    "table exceeded the 100000-cell render limit; excess rows were dropped"@
}

/// The messages of the warnings a table's Markdown rendering adds, in
/// order: cells cut while making spans explicit, columns beyond the limit,
/// and (on the grid path) rows beyond the render limit.
pub open spec fn table_warnings_spec(raw: Seq<RowView>) -> Seq<Seq<char>> {
    let rows = normalize_spec(raw).0;
    let w = grid_width(rows);
    if rows.len() == 0 || w == 0 {
        Seq::empty()
    } else {
        let nested = exists|i: int| 0 <= i < rows.len() && row_has_table(#[trigger] rows[i]);
        (if normalize_spec(raw).1 {
            seq![cells_truncated_message()]
        } else {
            Seq::empty()
        }) + (if some_row_wider(raw, w) {
            seq![cols_capped_message()]
        } else {
            Seq::empty()
        }) + (if !nested && rows.len() > max_grid_rows(w) {
            seq![rows_dropped_message()]
        } else {
            Seq::empty()
        })
    }
}

/// A row spread over `w` grid columns (see [`expand_row`]).
pub fn expand_html_row(row: &HtmlRow, grid_width: usize) -> (v: Vec<Vec<char>>)
    ensures
        v.deep_view() == expand_row(row@, grid_width as nat),
{
    let ghost cv = row@.cells;
    let mut cols: Vec<Vec<char>> = Vec::new();
    let mut i: usize = 0;
    while i < row.cells.len()
        invariant
            i <= row.cells.len(),
            cv == row@.cells,
            cols.deep_view() == expand_cells(cv.subrange(0, i as int)),
        decreases row.cells.len() - i,
    {
        let c = &row.cells[i];
        let span = if c.colspan == 0 {
            1
        } else {
            c.colspan
        };
        let t = c.joined_text();
        proof {
            lemma_deep_view_chars(t);
        }
        let ghost before = cols.deep_view();
        cols.push(t);
        assert(cols.deep_view() =~= before.push(t@));
        let mut k: usize = 1;
        while k < span
            invariant
                1 <= k <= span,
                cols.deep_view() == before.push(joined_text(cv[i as int])) + Seq::new(
                    (k - 1) as nat,
                    |x: int| Seq::<char>::empty(),
                ),
            decreases span - k,
        {
            let ghost b2 = cols.deep_view();
            let e: Vec<char> = Vec::new();
            proof {
                lemma_deep_view_chars(e);
            }
            cols.push(e);
            assert(cols.deep_view() =~= b2.push(Seq::<char>::empty()));
            k = k + 1;
            assert(cols.deep_view() =~= before.push(joined_text(cv[i as int])) + Seq::new(
                (k - 1) as nat,
                |x: int| Seq::<char>::empty(),
            ));
        }
        assert(cv.subrange(0, i + 1).drop_last() =~= cv.subrange(0, i as int));
        assert(cols.deep_view() =~= expand_cells(cv.subrange(0, i + 1)));
        i = i + 1;
    }
    assert(cv.subrange(0, row.cells.len() as int) =~= cv);
    crate::markdown::fit_row(cols.as_slice(), grid_width)
}

/// Appends one segment of a linearized table (see [`lin_seg`]).
fn push_lin_seg(out: &mut Vec<char>, seg: &CellSegment, plain: bool)
    ensures
        final(out)@ == lin_seg(old(out)@, seg@, plain),
{
    match seg {
        CellSegment::Text(t) => {
            let tc = chars_of(t.as_str());
            let text = trim(tc.as_slice());
            if text.len() > 0 {
                push_all(out, text.as_slice());
                out.push('\n');
                if !plain {
                    out.push('\n');
                }
            }
        },
        CellSegment::Table { md, plain: tp } => {
            if plain {
                let c = chars_of(tp.as_str());
                let e = trim_end(c.as_slice());
                push_all(out, e.as_slice());
                out.push('\n');
            } else {
                let n = out.len();
                if n > 0 && !(n >= 2 && out[n - 1] == '\n' && out[n - 2] == '\n') {
                    if out[n - 1] == '\n' {
                        out.push('\n');
                    } else {
                        out.push('\n');
                        out.push('\n');
                    }
                }
                let c = chars_of(md.as_str());
                let e = trim_end(c.as_slice());
                push_all(out, e.as_slice());
                out.push('\n');
                out.push('\n');
            }
        },
    }
}

/// A table holding a nested table, as blocks (see [`linearized`]).
fn linearize_rows(rows: &Vec<HtmlRow>, plain: bool) -> (v: Vec<char>)
    ensures
        v@ == linearized(rows_view(rows@), plain),
{
    let ghost rv = rows_view(rows@);
    let mut out: Vec<char> = Vec::new();
    let ghost mut done: Seq<SegView> = Seq::empty();
    let mut r: usize = 0;
    while r < rows.len()
        invariant
            r <= rows.len(),
            rv == rows_view(rows@),
            done == rows_segments(rv.subrange(0, r as int)),
            out@ == lin_segs(Seq::empty(), done, plain),
        decreases rows.len() - r,
    {
        let row = &rows[r];
        let ghost cv = rv[r as int].cells;
        assert(cv == row@.cells);
        let ghost start = done;
        let mut c: usize = 0;
        while c < row.cells.len()
            invariant
                c <= row.cells.len(),
                cv == row@.cells,
                done == start + cells_segments(cv.subrange(0, c as int)),
                out@ == lin_segs(Seq::empty(), done, plain),
            decreases row.cells.len() - c,
        {
            let cell = &row.cells[c];
            let ghost sv = cv[c as int].segments;
            assert(sv == cell@.segments);
            let ghost mid = done;
            let mut k: usize = 0;
            while k < cell.segments.len()
                invariant
                    k <= cell.segments.len(),
                    sv == cell@.segments,
                    done == mid + sv.subrange(0, k as int),
                    out@ == lin_segs(Seq::empty(), done, plain),
                decreases cell.segments.len() - k,
            {
                push_lin_seg(&mut out, &cell.segments[k], plain);
                proof {
                    let nd = done.push(sv[k as int]);
                    assert(nd.drop_last() =~= done);
                    done = nd;
                    assert(done =~= mid + sv.subrange(0, k + 1));
                }
                k = k + 1;
            }
            proof {
                assert(sv.subrange(0, cell.segments.len() as int) =~= sv);
                assert(cv.subrange(0, c + 1).drop_last() =~= cv.subrange(0, c as int));
                assert(done =~= start + cells_segments(cv.subrange(0, c + 1)));
            }
            c = c + 1;
        }
        proof {
            assert(cv.subrange(0, row.cells.len() as int) =~= cv);
            assert(rv.subrange(0, r + 1).drop_last() =~= rv.subrange(0, r as int));
            assert(done =~= rows_segments(rv.subrange(0, r + 1)));
        }
        r = r + 1;
    }
    assert(rv.subrange(0, rows.len() as int) =~= rv);
    if plain {
        out.push('\n');
    }
    out
}

/// The index of the first `<thead>` row, or 0 (see [`header_index`]).
fn find_header_index(rows: &Vec<HtmlRow>) -> (h: usize)
    ensures
        h == header_index(rows_view(rows@)),
        rows.len() > 0 ==> h < rows.len(),
{
    let ghost rv = rows_view(rows@);
    let mut i: usize = 0;
    while i < rows.len()
        invariant
            i <= rows.len(),
            rv == rows_view(rows@),
            forall|j: int| 0 <= j < i ==> !(#[trigger] rv[j]).is_header_row,
        decreases rows.len() - i,
    {
        if rows[i].is_header_row {
            proof {
                assert(first_header_at(rv, i as int));
                let c = choose|x: int| first_header_at(rv, x);
                assert(first_header_at(rv, c));
                if c < i {
                    assert(!rv[c].is_header_row);
                } else if c > i {
                    assert(!rv[i as int].is_header_row);
                }
            }
            return i;
        }
        i = i + 1;
    }
    proof {
        assert forall|x: int| !first_header_at(rv, x) by {
            if 0 <= x < rv.len() {
                assert(!rv[x].is_header_row);
            }
        }
    }
    0
}

/// Rows rendered as one grid: the header row `h` first, then the others in
/// order, `n` rows in all (see [`grid_spec`]).
fn render_grid(rows: &Vec<HtmlRow>, h: usize, n: usize, w: usize, plain: bool) -> (v: Vec<char>)
    requires
        h < rows.len(),
        1 <= n <= rows.len(),
    ensures
        v@ == grid_spec(ordered_rows(rows_view(rows@), h as int).take(n as int), w as nat, plain),
{
    let ghost rv = rows_view(rows@);
    let ghost ord = ordered_rows(rv, h as int).take(n as int);
    let header = expand_html_row(&rows[h], w);
    let mut body: Vec<Vec<Vec<char>>> = Vec::new();
    let mut i: usize = 0;
    let mut cnt: usize = 1;
    while i < rows.len() && cnt < n
        invariant
            i <= rows.len(),
            h < rows.len(),
            1 <= cnt <= n <= rows.len(),
            rv == rows_view(rows@),
            ord == ordered_rows(rv, h as int).take(n as int),
            cnt as int == (if i > h {
                i as int
            } else {
                i + 1
            }),
            body.deep_view() == Seq::new((cnt - 1) as nat, |k: int| expand_row(ord[k + 1], w as nat)),
        decreases rows.len() - i,
    {
        if i != h {
            let e = expand_html_row(&rows[i], w);
            let ghost before = body.deep_view();
            body.push(e);
            proof {
                assert(ord[cnt as int] == rv[i as int]);
                assert(rv[i as int] == rows@[i as int]@);
                assert(body.deep_view() =~= before.push(e.deep_view()));
                assert(body.deep_view() =~= Seq::new(
                    cnt as nat,
                    |k: int| expand_row(ord[k + 1], w as nat),
                ));
            }
            cnt = cnt + 1;
        }
        i = i + 1;
    }
    proof {
        assert(cnt == n) by {
            if cnt < n {
                assert(i == rows.len());
            }
        }
        assert(ord.len() == n);
        assert(ord[0] == rv[h as int]);
    }
    if plain {
        build_table_plain(header.as_slice(), body.as_slice())
    } else {
        build_table(header.as_slice(), body.as_slice())
    }
}

/// A resource-limit warning without a location.
fn limit_warning(message: &str) -> (w: ConversionWarning)
    ensures
        w.code == WarningCode::ResourceLimitReached,
        w.message@ == message@,
        w.location is None,
{
    let m = chars_of(message);
    warning(WarningCode::ResourceLimitReached, m, None)
}

/// Whether some row holds a nested table.
fn any_nested(rows: &Vec<HtmlRow>) -> (b: bool)
    ensures
        b == exists|i: int| 0 <= i < rows.len() && row_has_table(#[trigger] rows_view(rows@)[i]),
{
    let ghost rv = rows_view(rows@);
    let mut i: usize = 0;
    while i < rows.len()
        invariant
            i <= rows.len(),
            rv == rows_view(rows@),
            forall|k: int| 0 <= k < i ==> !row_has_table(#[trigger] rv[k]),
        decreases rows.len() - i,
    {
        if html_row_has_nested_table(&rows[i]) {
            assert(row_has_table(rv[i as int]));
            return true;
        }
        i = i + 1;
    }
    false
}

/// Renders a buffered table as `(markdown, plain text)` (see
/// [`table_render_spec`]) and appends a resource-limit warning for each
/// kind of content the limits dropped (see [`table_warnings_spec`]).
pub fn render_table(raw: &Vec<HtmlRow>, warnings: &mut Vec<ConversionWarning>) -> (r: (
    Vec<char>,
    Vec<char>,
))
    ensures
        r.0@ == table_render_spec(rows_view(raw@), false),
        r.1@ == table_render_spec(rows_view(raw@), true),
        warnings_appended(old(warnings)@, final(warnings)@, table_warnings_spec(rows_view(raw@))),
{
    let ghost before = warnings@;
    assert(warnings@.subrange(0, before.len() as int) =~= before);
    let (rows, cells_truncated) = normalize_html_rowspans(raw);
    if rows.len() == 0 {
        return (Vec::new(), Vec::new());
    }
    let w = html_grid_width(&rows);
    if w == 0 {
        return (Vec::new(), Vec::new());
    }
    let width_capped = any_row_wider(raw, w);
    let nested = any_nested(&rows);
    let ghost m1: Seq<Seq<char>> = if cells_truncated {
        seq![cells_truncated_message()]
    } else {
        Seq::empty()
    };
    let ghost m2: Seq<Seq<char>> = if width_capped {
        seq![cols_capped_message()]
    } else {
        Seq::empty()
    };
    if cells_truncated {
        warnings.push(
            limit_warning("table exceeded the 100000-cell limit; trailing rows were truncated"),
        );
        assert(warnings@.subrange(0, before.len() as int) =~= before);
        assert(warnings@[before.len() + 0int] == warnings@[before.len() as int]);
    }
    assert(warnings_appended(before, warnings@, m1));
    let ghost mid = warnings@;
    if width_capped {
        warnings.push(
            limit_warning("table row exceeded the 4096-column limit; extra columns were dropped"),
        );
        assert(warnings@.subrange(0, before.len() as int) =~= before);
    }
    assert(warnings_appended(before, warnings@, m1 + m2)) by {
        if width_capped {
            assert(warnings@[(before.len() + m1.len()) as int] == warnings@[mid.len() as int]);
        }
    }
    if nested {
        let md = linearize_rows(&rows, false);
        let plain = linearize_rows(&rows, true);
        assert(m1 + m2 + Seq::<Seq<char>>::empty() =~= m1 + m2);
        return (md, plain);
    }
    let h = find_header_index(&rows);
    let q = MAX_TABLE_CELLS / w;
    let max_rows: usize = if q >= 1 {
        q
    } else {
        1
    };
    let ghost m3: Seq<Seq<char>> = if rows.len() > max_rows {
        seq![rows_dropped_message()]
    } else {
        Seq::empty()
    };
    let ghost mid2 = warnings@;
    if rows.len() > max_rows {
        warnings.push(
            limit_warning("table exceeded the 100000-cell render limit; excess rows were dropped"),
        );
        assert(warnings@.subrange(0, before.len() as int) =~= before);
    }
    assert(warnings_appended(before, warnings@, m1 + m2 + m3)) by {
        if rows.len() > max_rows {
            assert(warnings@[(before.len() + (m1 + m2).len()) as int] == warnings@[mid2.len() as int]);
        }
    }
    let n: usize = if rows.len() <= max_rows {
        rows.len()
    } else {
        max_rows
    };
    let ghost rv = rows_view(rows@);
    assert(max_rows == max_grid_rows(w as nat));
    let md = render_grid(&rows, h, n, w, false);
    let plain = render_grid(&rows, h, n, w, true);
    (md, plain)
}

// ---------------------------------------------------------------------------
// Laws
// ---------------------------------------------------------------------------

/// Materializing a row from column `col` on adds at most one cell per
/// remaining grid column.
pub proof fn lemma_fill_row_width(
    src: Seq<CellView>,
    pending: Seq<usize>,
    width: nat,
    cells: Seq<CellView>,
    spans: Seq<usize>,
    total: nat,
    col: nat,
    next: nat,
)
    requires
        col <= width,
    ensures
        fill_row(src, pending, width, cells, spans, total, col, next).cells.len() <= cells.len() + (
        width - col),
    decreases width - col,
{
    if col >= width || total >= MAX_TABLE_CELLS {
    } else if pending[col as int] > 0 {
        lemma_fill_row_width(src, pending, width, cells.push(blank_cell()), spans, total + 1, col + 1, next);
    } else if next < src.len() {
        let c = src[next as int];
        let span = cell_span(c);
        let new_spans = if c.rowspan > 1 {
            Seq::new(
                spans.len(),
                |j: int|
                    if col <= j < col + span {
                        (c.rowspan - 1) as usize
                    } else {
                        spans[j]
                    },
            )
        } else {
            spans
        };
        let cells2 = cells.push(CellView { rowspan: 1, ..c });
        if col + span <= width {
            lemma_fill_row_width(src, pending, width, cells2, new_spans, total + 1, col + span, next + 1);
        } else {
            assert(fill_row(src, pending, width, cells2, new_spans, total + 1, col + span, next + 1).cells
                == cells2);
        }
    }
}

/// Rows `i..` keep their number and header marks, and each is held to the
/// grid width.
proof fn lemma_norm_from_shape(rows: Seq<RowView>, i: nat, width: nat, pending: Seq<usize>, total: nat)
    requires
        i <= rows.len(),
    ensures
        norm_from(rows, i, width, pending, total).0.len() == rows.len() - i,
        forall|k: int|
            0 <= k < rows.len() - i ==> (#[trigger] norm_from(rows, i, width, pending, total).0[k]).is_header_row
                == rows[i + k].is_header_row && norm_from(rows, i, width, pending, total).0[k].cells.len()
                <= width,
    decreases rows.len() - i,
{
    if i < rows.len() {
        let f = fill_row(rows[i as int].cells, pending, width, Seq::empty(), zeros(width), total, 0, 0);
        lemma_fill_row_width(rows[i as int].cells, pending, width, Seq::empty(), zeros(width), total, 0, 0);
        if f.total < MAX_TABLE_CELLS {
            lemma_norm_from_shape(rows, i + 1, width, next_pending(pending, f.spans), f.total);
        }
    }
}

/// Making vertical spans explicit keeps every row, in order and with its
/// header mark, and never puts more cells in a row than the grid has
/// columns.
pub proof fn lemma_normalize_shape(rows: Seq<RowView>)
    ensures
        normalize_spec(rows).0.len() == rows.len(),
        forall|k: int|
            0 <= k < rows.len() ==> (#[trigger] normalize_spec(rows).0[k]).is_header_row
                == rows[k].is_header_row && normalize_spec(rows).0[k].cells.len() <= grid_width(rows),
{
    let w = grid_width(rows);
    if w > 0 {
        lemma_norm_from_shape(rows, 0, w, zeros(w), 0);
    }
}

/// The number of cells in a list of rows.
pub open spec fn cell_count(rows: Seq<RowView>) -> nat
    decreases rows.len(),
{
    if rows.len() == 0 {
        0
    } else {
        rows[0].cells.len() + cell_count(rows.drop_first())
    }
}

/// Whether every cell of `rows` spans a single row.
pub open spec fn single_row_cells(rows: Seq<RowView>) -> bool {
    forall|k: int, j: int|
        0 <= k < rows.len() && 0 <= j < rows[k].cells.len() ==> (#[trigger] rows[k].cells[j]).rowspan
            == 1
}

/// Materializing a row adds one to the running total per cell placed,
/// stays within the cell limit, and places only single-row cells.
proof fn lemma_fill_row_budget(
    src: Seq<CellView>,
    pending: Seq<usize>,
    width: nat,
    cells: Seq<CellView>,
    spans: Seq<usize>,
    total: nat,
    col: nat,
    next: nat,
)
    requires
        total <= MAX_TABLE_CELLS,
        forall|j: int| 0 <= j < cells.len() ==> (#[trigger] cells[j]).rowspan == 1,
    ensures
        ({
            let f = fill_row(src, pending, width, cells, spans, total, col, next);
            &&& f.total <= MAX_TABLE_CELLS
            &&& f.total >= total
            &&& f.cells.len() + total == cells.len() + f.total
            &&& forall|j: int| 0 <= j < f.cells.len() ==> (#[trigger] f.cells[j]).rowspan == 1
        }),
    decreases if col < width {
        (width - col) as nat
    } else {
        0nat
    },
{
    if col >= width || total >= MAX_TABLE_CELLS {
    } else if pending[col as int] > 0 {
        let c2 = cells.push(blank_cell());
        assert forall|j: int| 0 <= j < c2.len() implies (#[trigger] c2[j]).rowspan == 1 by {
            if j < cells.len() {
                assert(c2[j] == cells[j]);
            }
        }
        lemma_fill_row_budget(src, pending, width, c2, spans, total + 1, col + 1, next);
    } else if next < src.len() {
        let c = src[next as int];
        let span = cell_span(c);
        let new_spans = if c.rowspan > 1 {
            Seq::new(
                spans.len(),
                |j: int|
                    if col <= j < col + span {
                        (c.rowspan - 1) as usize
                    } else {
                        spans[j]
                    },
            )
        } else {
            spans
        };
        let c2 = cells.push(CellView { rowspan: 1, ..c });
        assert forall|j: int| 0 <= j < c2.len() implies (#[trigger] c2[j]).rowspan == 1 by {
            if j < cells.len() {
                assert(c2[j] == cells[j]);
            }
        }
        lemma_fill_row_budget(src, pending, width, c2, new_spans, total + 1, col + span, next + 1);
    }
}

/// Rows emptied of their cells hold none.
proof fn lemma_emptied_count(rows: Seq<RowView>)
    ensures
        cell_count(emptied(rows)) == 0,
        single_row_cells(emptied(rows)),
    decreases rows.len(),
{
    if rows.len() > 0 {
        lemma_emptied_count(rows.drop_first());
        assert(emptied(rows).drop_first() =~= emptied(rows.drop_first()));
    }
}

/// A row put in front adds its cells to the count.
proof fn lemma_cell_count_cons(row: RowView, rest: Seq<RowView>)
    ensures
        cell_count(seq![row] + rest) == row.cells.len() + cell_count(rest),
{
    assert((seq![row] + rest).drop_first() =~= rest);
}

/// Rows `i..` materialized from the running total `total` hold at most the
/// cells left under the limit, each spanning a single row.
proof fn lemma_norm_from_budget(rows: Seq<RowView>, i: nat, width: nat, pending: Seq<usize>, total: nat)
    requires
        total <= MAX_TABLE_CELLS,
    ensures
        total + cell_count(norm_from(rows, i, width, pending, total).0) <= MAX_TABLE_CELLS,
        single_row_cells(norm_from(rows, i, width, pending, total).0),
    decreases if i < rows.len() {
        (rows.len() - i) as nat
    } else {
        0nat
    },
{
    if i >= rows.len() {
        assert(cell_count(Seq::<RowView>::empty()) == 0);
    } else {
        let f = fill_row(rows[i as int].cells, pending, width, Seq::empty(), zeros(width), total, 0, 0);
        lemma_fill_row_budget(rows[i as int].cells, pending, width, Seq::empty(), zeros(width), total, 0, 0);
        let row = RowView { cells: f.cells, is_header_row: rows[i as int].is_header_row };
        let rest = if f.total >= MAX_TABLE_CELLS {
            lemma_emptied_count(rows.subrange(i + 1 as int, rows.len() as int));
            emptied(rows.subrange(i + 1 as int, rows.len() as int))
        } else {
            lemma_norm_from_budget(rows, i + 1, width, next_pending(pending, f.spans), f.total);
            norm_from(rows, i + 1, width, next_pending(pending, f.spans), f.total).0
        };
        lemma_cell_count_cons(row, rest);
        let out = seq![row] + rest;
        assert(out == norm_from(rows, i, width, pending, total).0);
        assert forall|k: int, j: int| 0 <= k < out.len() && 0 <= j < out[k].cells.len() implies (
        #[trigger] out[k].cells[j]).rowspan == 1 by {
            if k > 0 {
                assert(out[k] == rest[k - 1]);
            }
        }
    }
}

/// Making vertical spans explicit leaves only cells that span a single row,
/// and at most [`MAX_TABLE_CELLS`] of them in the whole table.
pub proof fn lemma_normalize_budget(rows: Seq<RowView>)
    ensures
        cell_count(normalize_spec(rows).0) <= MAX_TABLE_CELLS,
        single_row_cells(normalize_spec(rows).0),
{
    let w = grid_width(rows);
    if w == 0 {
        lemma_emptied_count(rows);
    } else {
        lemma_norm_from_budget(rows, 0, w, zeros(w), 0);
    }
}

/// The truncation mark of rows `i..` is set exactly when the cells placed
/// reach the limit.
proof fn lemma_norm_from_flag(rows: Seq<RowView>, i: nat, width: nat, pending: Seq<usize>, total: nat)
    requires
        total < MAX_TABLE_CELLS,
    ensures
        norm_from(rows, i, width, pending, total).1 <==> total + cell_count(
            norm_from(rows, i, width, pending, total).0,
        ) == MAX_TABLE_CELLS,
    decreases if i < rows.len() {
        (rows.len() - i) as nat
    } else {
        0nat
    },
{
    if i >= rows.len() {
        assert(cell_count(Seq::<RowView>::empty()) == 0);
    } else {
        let f = fill_row(rows[i as int].cells, pending, width, Seq::empty(), zeros(width), total, 0, 0);
        lemma_fill_row_budget(rows[i as int].cells, pending, width, Seq::empty(), zeros(width), total, 0, 0);
        let row = RowView { cells: f.cells, is_header_row: rows[i as int].is_header_row };
        if f.total >= MAX_TABLE_CELLS {
            let rest = emptied(rows.subrange(i + 1 as int, rows.len() as int));
            lemma_emptied_count(rows.subrange(i + 1 as int, rows.len() as int));
            lemma_cell_count_cons(row, rest);
        } else {
            let rest = norm_from(rows, i + 1, width, next_pending(pending, f.spans), f.total).0;
            lemma_norm_from_flag(rows, i + 1, width, next_pending(pending, f.spans), f.total);
            lemma_cell_count_cons(row, rest);
        }
    }
}

/// Making vertical spans explicit marks the result as truncated exactly
/// when it holds [`MAX_TABLE_CELLS`] cells, the most it may hold.
pub proof fn lemma_normalize_truncated(rows: Seq<RowView>)
    ensures
        normalize_spec(rows).1 <==> cell_count(normalize_spec(rows).0) == MAX_TABLE_CELLS,
{
    let w = grid_width(rows);
    if w == 0 {
        lemma_emptied_count(rows);
    } else {
        lemma_norm_from_flag(rows, 0, w, zeros(w), 0);
    }
}

/// A cell of a row, with the spans before it, fits in the row's span sum.
proof fn lemma_raw_sum_prefix(src: Seq<CellView>, n: int)
    requires
        0 <= n < src.len(),
    ensures
        raw_sum(src.take(n)) + cell_span(src[n]) <= raw_sum(src),
        raw_sum(src.take(n + 1)) == raw_sum(src.take(n)) + cell_span(src[n]),
    decreases src.len(),
{
    assert(src.take(n + 1).drop_last() =~= src.take(n));
    if n < src.len() - 1 {
        lemma_raw_sum_prefix(src.drop_last(), n);
        assert(src.drop_last().take(n) =~= src.take(n));
        assert(src.drop_last()[n] == src[n]);
    } else {
        assert(src.drop_last() =~= src.take(n));
    }
}

/// Materializing a row without carried spans, whose cells all span one row
/// and fit the grid and the cell limit, places its cells unchanged.
proof fn lemma_fill_row_flat(
    src: Seq<CellView>,
    width: nat,
    cells: Seq<CellView>,
    total: nat,
    col: nat,
    next: nat,
)
    requires
        next <= src.len(),
        col == raw_sum(src.take(next as int)),
        raw_sum(src) <= width,
        total + (src.len() - next) < MAX_TABLE_CELLS,
        forall|j: int| 0 <= j < src.len() ==> (#[trigger] src[j]).rowspan == 1,
    ensures
        ({
            let f = fill_row(src, zeros(width), width, cells, zeros(width), total, col, next);
            &&& f.cells == cells + src.subrange(next as int, src.len() as int)
            &&& f.spans == zeros(width)
            &&& f.total == total + (src.len() - next)
        }),
    decreases src.len() - next,
{
    if next == src.len() {
        assert(cells + src.subrange(next as int, src.len() as int) =~= cells);
    } else {
        lemma_raw_sum_prefix(src, next as int);
        let c = src[next as int];
        assert(c.rowspan == 1);
        assert(CellView { rowspan: 1, ..c } == c);
        assert(col < width);
        assert(zeros(width)[col as int] == 0);
        lemma_fill_row_flat(src, width, cells.push(c), total + 1, col + cell_span(c), next + 1);
        assert(cells.push(c) + src.subrange(next + 1 as int, src.len() as int) =~= cells + src.subrange(
            next as int,
            src.len() as int,
        ));
    }
}

/// Each row's span sum, when within [`MAX_TABLE_COLS`], is within the grid
/// width.
proof fn lemma_grid_width_covers(rows: Seq<RowView>, k: int)
    requires
        0 <= k < rows.len(),
        raw_sum(rows[k].cells) <= MAX_TABLE_COLS,
    ensures
        raw_sum(rows[k].cells) <= grid_width(rows),
    decreases rows.len(),
{
    if k < rows.len() - 1 {
        lemma_grid_width_covers(rows.drop_last(), k);
    }
}

/// Rows `i..` of a table whose cells all span one row, fit the grid and
/// stay under the cell limit come out unchanged and untruncated.
proof fn lemma_norm_from_flat(rows: Seq<RowView>, i: nat, width: nat, total: nat)
    requires
        i <= rows.len(),
        single_row_cells(rows),
        forall|k: int| 0 <= k < rows.len() ==> raw_sum(#[trigger] rows[k].cells) <= width,
        total + cell_count(rows.subrange(i as int, rows.len() as int)) < MAX_TABLE_CELLS,
    ensures
        norm_from(rows, i, width, zeros(width), total) == (rows.subrange(i as int, rows.len() as int), false),
    decreases rows.len() - i,
{
    if i < rows.len() {
        let src = rows[i as int].cells;
        let sub = rows.subrange(i as int, rows.len() as int);
        let rest = rows.subrange(i + 1 as int, rows.len() as int);
        assert(sub.drop_first() =~= rest);
        assert(sub[0] == rows[i as int]);
        assert(src.take(0) =~= Seq::<CellView>::empty());
        assert forall|j: int| 0 <= j < src.len() implies (#[trigger] src[j]).rowspan == 1 by {
            assert(rows[i as int].cells[j].rowspan == 1);
        }
        lemma_fill_row_flat(src, width, Seq::empty(), total, 0, 0);
        let f = fill_row(src, zeros(width), width, Seq::empty(), zeros(width), total, 0, 0);
        assert(f.cells =~= src);
        assert(next_pending(zeros(width), zeros(width)) =~= zeros(width));
        lemma_norm_from_flat(rows, i + 1, width, f.total);
        let row = RowView { cells: f.cells, is_header_row: rows[i as int].is_header_row };
        assert(row == rows[i as int]);
        assert(seq![row] + rest =~= sub);
    } else {
        assert(rows.subrange(i as int, rows.len() as int) =~= Seq::<RowView>::empty());
    }
}

/// A table that needs no normalizing comes back unchanged and untruncated:
/// every cell spans one row, no row spans more than [`MAX_TABLE_COLS`]
/// columns, and it holds fewer than [`MAX_TABLE_CELLS`] cells.
pub proof fn lemma_normalize_flat(rows: Seq<RowView>)
    requires
        single_row_cells(rows),
        forall|k: int| 0 <= k < rows.len() ==> raw_sum(#[trigger] rows[k].cells) <= MAX_TABLE_COLS,
        cell_count(rows) < MAX_TABLE_CELLS,
    ensures
        normalize_spec(rows) == (rows, false),
{
    let w = grid_width(rows);
    assert forall|k: int| 0 <= k < rows.len() implies raw_sum(#[trigger] rows[k].cells) <= w by {
        lemma_grid_width_covers(rows, k);
    }
    if w == 0 {
        assert forall|k: int| 0 <= k < rows.len() implies rows[k].cells.len() == 0 by {
            if rows[k].cells.len() > 0 {
                lemma_raw_sum_prefix(rows[k].cells, 0);
            }
        }
        assert(emptied(rows) =~= rows) by {
            assert forall|k: int| 0 <= k < rows.len() implies emptied(rows)[k] == rows[k] by {
                assert(emptied(rows)[k].cells =~= rows[k].cells);
            }
        }
    } else {
        assert(rows.subrange(0, rows.len() as int) =~= rows);
        lemma_norm_from_flat(rows, 0, w, 0);
    }
}

/// A table without nested tables, with rows and columns, renders as one
/// grid of its width: the first `<thead>` row, then every other row in
/// source order, cut to [`max_grid_rows`] rows.
pub proof fn lemma_table_grid_path(raw: Seq<RowView>, plain: bool)
    requires
        normalize_spec(raw).0.len() > 0,
        grid_width(normalize_spec(raw).0) > 0,
        forall|i: int|
            0 <= i < normalize_spec(raw).0.len() ==> !row_has_table(#[trigger] normalize_spec(raw).0[i]),
    ensures
        ({
            let rows = normalize_spec(raw).0;
            let w = grid_width(rows);
            let ord = ordered_rows(rows, header_index(rows) as int);
            let n = if rows.len() <= max_grid_rows(w) {
                rows.len()
            } else {
                max_grid_rows(w)
            };
            table_render_spec(raw, plain) == grid_spec(ord.take(n as int), w, plain)
        }),
{
}

/// The warnings rendering a table's Markdown adds, each a resource-limit
/// warning (see `render_table`): none for a table without rows or columns;
/// otherwise one when making spans explicit cut cells, one when a row
/// spans more columns than the grid, and one when the grid path drops rows
/// beyond [`max_grid_rows`].
pub proof fn lemma_table_warning_causes(raw: Seq<RowView>)
    ensures
        ({
            let rows = normalize_spec(raw).0;
            let w = grid_width(rows);
            let ws = table_warnings_spec(raw);
            let nested = exists|i: int| 0 <= i < rows.len() && row_has_table(#[trigger] rows[i]);
            &&& (rows.len() == 0 || w == 0) ==> ws.len() == 0
            &&& (rows.len() > 0 && w > 0) ==> {
                &&& ws.contains(cells_truncated_message()) <==> normalize_spec(raw).1
                &&& ws.contains(cols_capped_message()) <==> some_row_wider(raw, w)
                &&& ws.contains(rows_dropped_message()) <==> (!nested && rows.len() > max_grid_rows(w))
            }
        }),
{
    reveal_strlit("table exceeded the 100000-cell limit; trailing rows were truncated");
    reveal_strlit("table row exceeded the 4096-column limit; extra columns were dropped");
    reveal_strlit("table exceeded the 100000-cell render limit; excess rows were dropped");
    let rows = normalize_spec(raw).0;
    let w = grid_width(rows);
    let ws = table_warnings_spec(raw);
    if rows.len() > 0 && w > 0 {
        let a = cells_truncated_message();
        let b = cols_capped_message();
        let c = rows_dropped_message();
        assert(a.len() == 66 && b.len() == 68 && c.len() == 69);
        assert forall|i: int| 0 <= i < ws.len() implies (#[trigger] ws[i]) == a || ws[i] == b || ws[i]
            == c by {}
        if normalize_spec(raw).1 {
            assert(ws[0] == a);
        }
        if some_row_wider(raw, w) {
            let k: int = if normalize_spec(raw).1 { 1 } else { 0 };
            assert(ws[k] == b);
        }
        let nested = exists|i: int| 0 <= i < rows.len() && row_has_table(#[trigger] rows[i]);
        if !nested && rows.len() > max_grid_rows(w) {
            assert(ws[ws.len() - 1] == c);
        }
        assert(ws.contains(a) ==> normalize_spec(raw).1);
        assert(ws.contains(b) ==> some_row_wider(raw, w));
        assert(ws.contains(c) ==> (!nested && rows.len() > max_grid_rows(w)));
    }
}

} // verus!
