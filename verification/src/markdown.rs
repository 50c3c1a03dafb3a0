//! Markdown building blocks: GFM tables (with a tab-separated plain-text
//! twin), ATX headings, list items and inline bold/italic markers.

use vstd::prelude::*;

use crate::text::{
    decimal, decimal_chars, lemma_trim_end_prefix, lemma_trim_start_suffix, push_all, push_repeat,
    repeat, slice_chars, trim, trim_end_len, trim_end_ws, trim_start_len, trim_start_ws, trim_ws,
};

verus! {

broadcast use vstd::string::group_string_axioms;

// ---------------------------------------------------------------------------
// Specifications
// ---------------------------------------------------------------------------

/// A table cell's text made safe for a single GFM cell: backslashes and pipes
/// are escaped, and each line break (`\r\n`, `\n` or `\r`) becomes `<br>`.
pub open spec fn esc_cell(s: Seq<char>) -> Seq<char>
    decreases s.len(),
{
    if s.len() == 0 {
        Seq::empty()
    } else if s[0] == '\r' && s.len() > 1 && s[1] == '\n' {
        seq!['<', 'b', 'r', '>'] + esc_cell(s.subrange(2, s.len() as int))
    } else if s[0] == '\r' || s[0] == '\n' {
        seq!['<', 'b', 'r', '>'] + esc_cell(s.drop_first())
    } else if s[0] == '|' {
        seq!['\\', '|'] + esc_cell(s.drop_first())
    } else if s[0] == '\\' {
        seq!['\\', '\\'] + esc_cell(s.drop_first())
    } else {
        seq![s[0]] + esc_cell(s.drop_first())
    }
}

/// The cells of a markdown row between the leading `|` and the newline:
/// `" cell |"` for each cell.
pub open spec fn md_cells(cells: Seq<Seq<char>>) -> Seq<char>
    decreases cells.len(),
{
    if cells.len() == 0 {
        Seq::empty()
    } else {
        md_cells(cells.drop_last()) + seq![' '] + esc_cell(cells.last()) + seq![' ', '|']
    }
}

/// One markdown table line: `| a | b |` followed by a newline.
pub open spec fn md_row(cells: Seq<Seq<char>>) -> Seq<char> {
    seq!['|'] + md_cells(cells) + seq!['\n']
}

/// The header separator line for `n` columns: `|---|---|` and a newline.
pub open spec fn md_separator(n: nat) -> Seq<char> {
    seq!['|'] + repeat(seq!['-', '-', '-', '|'], n) + seq!['\n']
}

/// `row` cut or padded with empty cells to exactly `n` cells.
pub open spec fn pad_row(row: Seq<Seq<char>>, n: nat) -> Seq<Seq<char>> {
    Seq::new(n, |i: int| if i < row.len() { row[i] } else { Seq::<char>::empty() })
}

/// Markdown lines for the data rows, each fitted to `n` columns.
pub open spec fn md_rows(rows: Seq<Seq<Seq<char>>>, n: nat) -> Seq<char>
    decreases rows.len(),
{
    if rows.len() == 0 {
        Seq::empty()
    } else {
        md_rows(rows.drop_last(), n) + md_row(pad_row(rows.last(), n))
    }
}

/// A GFM table: the header line, the separator, then one line per data row,
/// every row fitted to the header's width.
pub open spec fn md_table(headers: Seq<Seq<char>>, rows: Seq<Seq<Seq<char>>>) -> Seq<char> {
    md_row(headers) + md_separator(headers.len()) + md_rows(rows, headers.len())
}

/// Cells joined by tab characters.
pub open spec fn tab_join(cells: Seq<Seq<char>>) -> Seq<char>
    decreases cells.len(),
{
    if cells.len() == 0 {
        Seq::empty()
    } else if cells.len() == 1 {
        cells[0]
    } else {
        tab_join(cells.drop_last()) + seq!['\t'] + cells.last()
    }
}

/// Plain-text lines for the data rows, each fitted to `n` columns.
pub open spec fn plain_rows(rows: Seq<Seq<Seq<char>>>, n: nat) -> Seq<char>
    decreases rows.len(),
{
    if rows.len() == 0 {
        Seq::empty()
    } else {
        plain_rows(rows.drop_last(), n) + tab_join(pad_row(rows.last(), n)) + seq!['\n']
    }
}

/// The plain-text form of a table: tab-separated cells, one line per row,
/// no escaping and no separator line.
pub open spec fn plain_table(headers: Seq<Seq<char>>, rows: Seq<Seq<Seq<char>>>) -> Seq<char> {
    tab_join(headers) + seq!['\n'] + plain_rows(rows, headers.len())
}

/// An ATX heading line: `level` hashes, a space, the text and a newline.
pub open spec fn heading(level: nat, text: Seq<char>) -> Seq<char> {
    repeat(seq!['#'], level) + seq![' '] + text + seq!['\n']
}

/// A list item: two spaces of indent per level, then `N. ` for ordered items
/// or `- ` for bullets, then the text.
pub open spec fn list_item(level: nat, ordered: bool, counter: nat, text: Seq<char>) -> Seq<char> {
    repeat(seq![' ', ' '], level) + (if ordered {
        decimal(counter) + seq!['.', ' ']
    } else {
        seq!['-', ' ']
    }) + text
}

/// The plain-text list item: the indentation followed by the text.
pub open spec fn list_item_plain(level: nat, text: Seq<char>) -> Seq<char> {
    repeat(seq![' ', ' '], level) + text
}

/// The markdown emphasis marker for a bold/italic combination.
pub open spec fn emphasis_marker(bold: bool, italic: bool) -> Seq<char> {
    if bold && italic {
        seq!['*', '*', '*']
    } else if bold {
        seq!['*', '*']
    } else if italic {
        seq!['*']
    } else {
        Seq::empty()
    }
}

/// Text wrapped in emphasis markers. Surrounding whitespace stays outside the
/// markers, and text that is empty or only whitespace is left untouched, so
/// no bare `****` is ever produced.
pub open spec fn wrapped(text: Seq<char>, bold: bool, italic: bool) -> Seq<char> {
    if (!bold && !italic) || trim_ws(text).len() == 0 {
        text
    } else {
        let lead = text.subrange(0, text.len() - trim_start_ws(text).len());
        let trail = text.subrange(trim_end_ws(text).len() as int, text.len() as int);
        lead + emphasis_marker(bold, italic) + trim_ws(text) + emphasis_marker(bold, italic)
            + trail
    }
}

// ---------------------------------------------------------------------------
// Executable builders
// ---------------------------------------------------------------------------

/// Escapes one table cell (see [`esc_cell`]).
pub fn escape_cell(s: &[char]) -> (v: Vec<char>)
    ensures
        v@ == esc_cell(s@),
{
    let mut v: Vec<char> = Vec::new();
    let mut i: usize = 0;
    assert(s@.subrange(0, s.len() as int) =~= s@);
    while i < s.len()
        invariant
            i <= s.len(),
            v@ + esc_cell(s@.subrange(i as int, s.len() as int)) == esc_cell(s@),
        decreases s.len() - i,
    {
        let ghost rest = s@.subrange(i as int, s.len() as int);
        let c = s[i];
        if c == '\r' && i + 1 < s.len() && s[i + 1] == '\n' {
            assert(rest.subrange(2, rest.len() as int) =~= s@.subrange(i + 2, s.len() as int));
            v.push('<');
            v.push('b');
            v.push('r');
            v.push('>');
            i = i + 2;
        } else {
            assert(rest.drop_first() =~= s@.subrange(i + 1, s.len() as int));
            if c == '\r' || c == '\n' {
                v.push('<');
                v.push('b');
                v.push('r');
                v.push('>');
            } else if c == '|' {
                v.push('\\');
                v.push('|');
            } else if c == '\\' {
                v.push('\\');
                v.push('\\');
            } else {
                v.push(c);
            }
            i = i + 1;
        }
        assert(v@ + esc_cell(s@.subrange(i as int, s.len() as int)) =~= esc_cell(s@));
    }
    assert(s@.subrange(i as int, s.len() as int) =~= Seq::<char>::empty());
    assert(v@ + Seq::<char>::empty() =~= v@);
    v
}

/// Appends one markdown table line for `cells` to `out`.
pub fn push_md_row(out: &mut Vec<char>, cells: &[Vec<char>])
    ensures
        final(out)@ == old(out)@ + md_row(cells.deep_view()),
{
    out.push('|');
    let ghost start = out@;
    let mut i: usize = 0;
    while i < cells.len()
        invariant
            i <= cells.len(),
            start == old(out)@ + seq!['|'],
            out@ == start + md_cells(cells.deep_view().subrange(0, i as int)),
        decreases cells.len() - i,
    {
        out.push(' ');
        let e = escape_cell(cells[i].as_slice());
        push_all(out, e.as_slice());
        out.push(' ');
        out.push('|');
        i = i + 1;
        let ghost sub = cells.deep_view().subrange(0, i as int);
        assert(sub.drop_last() =~= cells.deep_view().subrange(0, i - 1));
        assert(sub.last() == cells@[i - 1]@);
        assert(out@ =~= start + md_cells(sub));
    }
    assert(cells.deep_view().subrange(0, cells.len() as int) =~= cells.deep_view());
    out.push('\n');
    assert(out@ =~= old(out)@ + md_row(cells.deep_view()));
}

/// `row` fitted to `n` cells: extra cells dropped, missing ones empty.
pub fn fit_row(row: &[Vec<char>], n: usize) -> (v: Vec<Vec<char>>)
    ensures
        v.deep_view() == pad_row(row.deep_view(), n as nat),
{
    let mut v: Vec<Vec<char>> = Vec::new();
    let mut i: usize = 0;
    while i < n
        invariant
            i <= n,
            v.deep_view() == pad_row(row.deep_view(), n as nat).subrange(0, i as int),
        decreases n - i,
    {
        let ghost before = v.deep_view();
        if i < row.len() {
            let c = slice_chars(row[i].as_slice(), 0, row[i].len());
            assert(c.deep_view() =~= row@[i as int].deep_view());
            v.push(c);
        } else {
            let c: Vec<char> = Vec::new();
            assert(c.deep_view() =~= Seq::<char>::empty());
            v.push(c);
        }
        assert(v.deep_view() =~= before.push(pad_row(row.deep_view(), n as nat)[i as int]));
        i = i + 1;
        assert(v.deep_view() =~= pad_row(row.deep_view(), n as nat).subrange(0, i as int));
    }
    assert(pad_row(row.deep_view(), n as nat).subrange(0, n as int) =~= pad_row(
        row.deep_view(),
        n as nat,
    ));
    v
}

/// Builds a GFM table from a header row and data rows (see [`md_table`]).
pub fn build_table(headers: &[Vec<char>], rows: &[Vec<Vec<char>>]) -> (v: Vec<char>)
    ensures
        v@ == md_table(headers.deep_view(), rows.deep_view()),
{
    let n = headers.len();
    let mut out: Vec<char> = Vec::new();
    push_md_row(&mut out, headers);
    out.push('|');
    let dashes: Vec<char> = vec!['-', '-', '-', '|'];
    push_repeat(&mut out, dashes.as_slice(), n);
    out.push('\n');
    assert(dashes@ =~= seq!['-', '-', '-', '|']);
    let ghost head = out@;
    assert(head =~= md_row(headers.deep_view()) + md_separator(n as nat));
    let mut r: usize = 0;
    while r < rows.len()
        invariant
            r <= rows.len(),
            n == headers.len(),
            out@ == head + md_rows(rows.deep_view().subrange(0, r as int), n as nat),
        decreases rows.len() - r,
    {
        let fitted = fit_row(rows[r].as_slice(), n);
        push_md_row(&mut out, fitted.as_slice());
        r = r + 1;
        let ghost sub = rows.deep_view().subrange(0, r as int);
        assert(sub.drop_last() =~= rows.deep_view().subrange(0, r - 1));
        assert(sub.last() == rows@[r - 1].deep_view());
        assert(out@ =~= head + md_rows(sub, n as nat));
    }
    assert(rows.deep_view().subrange(0, rows.len() as int) =~= rows.deep_view());
    out
}

/// Appends `cells` joined by tabs to `out`.
pub fn push_tab_joined(out: &mut Vec<char>, cells: &[Vec<char>])
    ensures
        final(out)@ == old(out)@ + tab_join(cells.deep_view()),
{
    let mut i: usize = 0;
    while i < cells.len()
        invariant
            i <= cells.len(),
            out@ == old(out)@ + tab_join(cells.deep_view().subrange(0, i as int)),
        decreases cells.len() - i,
    {
        if i > 0 {
            out.push('\t');
        }
        push_all(out, cells[i].as_slice());
        i = i + 1;
        let ghost sub = cells.deep_view().subrange(0, i as int);
        assert(sub.drop_last() =~= cells.deep_view().subrange(0, i - 1));
        assert(sub.last() == cells@[i - 1]@);
        if i == 1 {
            assert(sub.len() == 1 && sub[0] == cells@[0]@);
        }
        assert(out@ =~= old(out)@ + tab_join(sub));
    }
    assert(cells.deep_view().subrange(0, cells.len() as int) =~= cells.deep_view());
}

/// Builds the plain-text (tab-separated) form of a table (see [`plain_table`]).
pub fn build_table_plain(headers: &[Vec<char>], rows: &[Vec<Vec<char>>]) -> (v: Vec<char>)
    ensures
        v@ == plain_table(headers.deep_view(), rows.deep_view()),
{
    let n = headers.len();
    let mut out: Vec<char> = Vec::new();
    push_tab_joined(&mut out, headers);
    out.push('\n');
    let ghost head = out@;
    let mut r: usize = 0;
    while r < rows.len()
        invariant
            r <= rows.len(),
            n == headers.len(),
            head == tab_join(headers.deep_view()) + seq!['\n'],
            out@ == head + plain_rows(rows.deep_view().subrange(0, r as int), n as nat),
        decreases rows.len() - r,
    {
        let fitted = fit_row(rows[r].as_slice(), n);
        push_tab_joined(&mut out, fitted.as_slice());
        out.push('\n');
        r = r + 1;
        let ghost sub = rows.deep_view().subrange(0, r as int);
        assert(sub.drop_last() =~= rows.deep_view().subrange(0, r - 1));
        assert(sub.last() == rows@[r - 1].deep_view());
        assert(out@ =~= head + plain_rows(sub, n as nat));
    }
    assert(rows.deep_view().subrange(0, rows.len() as int) =~= rows.deep_view());
    out
}

/// An ATX heading line (see [`heading`]).
pub fn format_heading(level: u8, text: &[char]) -> (v: Vec<char>)
    ensures
        v@ == heading(level as nat, text@),
{
    let mut out: Vec<char> = Vec::new();
    let hash: Vec<char> = vec!['#'];
    push_repeat(&mut out, hash.as_slice(), level as usize);
    out.push(' ');
    push_all(&mut out, text);
    out.push('\n');
    assert(hash@ =~= seq!['#']);
    assert(out@ =~= heading(level as nat, text@));
    out
}

/// A markdown list item (see [`list_item`]).
pub fn format_list_item(level: u8, ordered: bool, counter: usize, text: &[char]) -> (v: Vec<char>)
    ensures
        v@ == list_item(level as nat, ordered, counter as nat, text@),
{
    let mut out: Vec<char> = Vec::new();
    let indent: Vec<char> = vec![' ', ' '];
    push_repeat(&mut out, indent.as_slice(), level as usize);
    assert(indent@ =~= seq![' ', ' ']);
    let ghost pre = out@;
    if ordered {
        let d = decimal_chars(counter);
        push_all(&mut out, d.as_slice());
        out.push('.');
        out.push(' ');
    } else {
        out.push('-');
        out.push(' ');
    }
    push_all(&mut out, text);
    assert(out@ =~= list_item(level as nat, ordered, counter as nat, text@));
    out
}

/// The plain-text list item: indentation and text.
pub fn format_list_item_plain(level: u8, text: &[char]) -> (v: Vec<char>)
    ensures
        v@ == list_item_plain(level as nat, text@),
{
    let mut out: Vec<char> = Vec::new();
    let indent: Vec<char> = vec![' ', ' '];
    push_repeat(&mut out, indent.as_slice(), level as usize);
    assert(indent@ =~= seq![' ', ' ']);
    push_all(&mut out, text);
    out
}

/// Appends the emphasis marker for `bold`/`italic` to `out`.
fn push_marker(out: &mut Vec<char>, bold: bool, italic: bool)
    ensures
        final(out)@ == old(out)@ + emphasis_marker(bold, italic),
{
    if bold {
        out.push('*');
        out.push('*');
    }
    if italic {
        out.push('*');
    }
    assert(out@ =~= old(out)@ + emphasis_marker(bold, italic));
}

/// Wraps text in bold/italic markers (see [`wrapped`]).
pub fn wrap_formatting(text: &[char], bold: bool, italic: bool) -> (v: Vec<char>)
    ensures
        v@ == wrapped(text@, bold, italic),
{
    let t = trim(text);
    if (!bold && !italic) || t.len() == 0 {
        return slice_chars(text, 0, text.len());
    }
    let lead = trim_start_len(text);
    let end = trim_end_len(text);
    proof {
        lemma_trim_start_suffix(text@);
        lemma_trim_end_prefix(text@);
    }
    let mut out = slice_chars(text, 0, lead);
    push_marker(&mut out, bold, italic);
    push_all(&mut out, t.as_slice());
    push_marker(&mut out, bold, italic);
    let tail = slice_chars(text, end, text.len());
    push_all(&mut out, tail.as_slice());
    assert(out@ =~= wrapped(text@, bold, italic));
    out
}

/// Text that neither starts nor ends with whitespace is wrapped in one
/// asterisk when italic, two when bold, three when both, and left as is
/// when neither.
pub proof fn lemma_emphasis_wrapping(text: Seq<char>, bold: bool, italic: bool)
    requires
        text.len() > 0,
        !crate::text::is_ws(text[0]),
        !crate::text::is_ws(text.last()),
    ensures
        (italic && !bold) ==> wrapped(text, bold, italic) == seq!['*'] + text + seq!['*'],
        (bold && !italic) ==> wrapped(text, bold, italic) == seq!['*', '*'] + text + seq!['*', '*'],
        (bold && italic) ==> wrapped(text, bold, italic) == seq!['*', '*', '*'] + text + seq![
            '*',
            '*',
            '*',
        ],
        (!bold && !italic) ==> wrapped(text, bold, italic) == text,
{
    assert(trim_end_ws(text) == text);
    assert(trim_start_ws(text) == text);
    assert(trim_ws(text) == text);
    assert(text.subrange(0, 0) =~= Seq::<char>::empty());
    assert(text.subrange(text.len() as int, text.len() as int) =~= Seq::<char>::empty());
    let m = emphasis_marker(bold, italic);
    assert(Seq::<char>::empty() + m + text + m + Seq::<char>::empty() =~= m + text + m);
}

} // verus!
