//! XLSX/XLS workbooks to Markdown: one section per non-empty sheet, its
//! name as a heading and its cells as a table (first row as header),
//! followed by the sheet's embedded images.

use std::io::Cursor;

use calamine::Reader as CalamineReader;
use chrono::{Datelike, Timelike};

use vstd::prelude::*;

use crate::converter::docx::{image_budget_message, in_force, named_bytes_view, rel_in_force, total_len};
use crate::converter::docx_body::{placeholder, placeholder_name};
use crate::converter::ooxml_utils::{
    derive_rels_path, find_relationship, parse_relationships, rel_lookup, rels_from_tokens,
    rels_path_spec, rels_view, resolve_dir_spec, resolve_relative_path,
    Relationship,
};
use crate::converter::{
    resolve_image_placeholders, warning, ConversionOptions, ConversionResult, ConversionWarning,
    Converter, ImageDescriber, ImageInfo, build_image_md, NoDescriber, PendingImageResolution, WarningCode,
    warns_view, image_md, imgs_view, resolve_without_describer,
};
use crate::error::ConvertError;
use crate::markdown::{build_table, format_heading, heading, md_table};
use crate::detection::last_index_of;
use crate::text::{
    chars_of, contains_seq, has_prefix, join_with, last_index, decimal, decimal_chars, eq_str, find, lemma_deep_view_chars, push_all, push_joined,
    push_str, slice_chars, starts_with_str, string_from_chars,
};
use crate::xml_io::{tokenize, xml_tokens, XmlAttr, XmlElement, XmlToken};
use crate::zip_io::{open_archive, zip_entry_names, zip_entry_read};
use crate::zip_utils::{budget_outcome, part_text, read_zip_bytes, read_zip_text, validate_zip_budget};

verus! {

broadcast use vstd::string::group_string_axioms;

/// Converts XLSX/XLS workbooks to Markdown.
pub struct XlsxConverter;

/// A cell value as a workbook holds it: numbers already in their decimal
/// text form (as Rust prints them), dates and times by their fields, cell
/// errors by their text.
#[derive(Debug)]
pub enum CellValue {
    Empty,
    Text(String),
    Number(String),
    Bool(bool),
    DateTime { year: i32, month: u32, day: u32, hour: u32, minute: u32, second: u32 },
    Error(String),
}

/// `calamine`'s workbook reader.
#[verifier::external_type_specification]
#[verifier::external_body]
#[verifier::reject_recursive_types(RS)]
pub struct ExSheets<RS>(calamine::Sheets<RS>);

/// `calamine`'s cell value, converted to [`CellValue`] on reading.
#[verifier::external_type_specification]
#[verifier::external_body]
pub struct ExCalamineData(calamine::Data);

/// The workbook in `data` opens (`open_workbook_auto_from_rs`).
pub uninterp spec fn workbook_opens(data: Seq<u8>) -> bool;

/// The sheet names of the workbook in `data`, in workbook order.
pub uninterp spec fn workbook_sheet_names(data: Seq<u8>) -> Seq<Seq<char>>;

/// The cells of sheet `name` of the workbook in `data` (rows of cells), or
/// the message of the error reading it.
pub uninterp spec fn workbook_sheet(data: Seq<u8>, name: Seq<char>) -> Result<Seq<Seq<CellValue>>, Seq<char>>;

/// The bytes a workbook reader was opened from.
pub uninterp spec fn sheets_source(wb: calamine::Sheets<Cursor<&[u8]>>) -> Seq<u8>;

/// `calamine`'s date-time cell value.
#[verifier::external_type_specification]
#[verifier::external_body]
pub struct ExExcelDateTime(calamine::ExcelDateTime);

/// Converts a `calamine` cell.
#[verifier::external_body]
fn cell_value(d: &calamine::Data) -> CellValue {
    match d {
        calamine::Data::Empty => CellValue::Empty,
        calamine::Data::String(s) => CellValue::Text(s.clone()),
        calamine::Data::Float(f) => CellValue::Number(f.to_string()),
        calamine::Data::Int(i) => CellValue::Number(i.to_string()),
        calamine::Data::Bool(b) => CellValue::Bool(*b),
        calamine::Data::DateTime(dt) => datetime_value(dt),
        calamine::Data::DateTimeIso(s) => CellValue::Text(s.clone()),
        calamine::Data::DurationIso(s) => CellValue::Text(s.clone()),
        calamine::Data::Error(e) => CellValue::Error(format!("{e}")),
    }
}

/// Converts a `calamine` date-time (`ExcelDateTime::as_datetime`): its
/// calendar fields, or its displayed text when it is no calendar date.
#[verifier::external_body]
fn datetime_value(dt: &calamine::ExcelDateTime) -> CellValue {
    match dt.as_datetime() {
        Some(n) => CellValue::DateTime {
            year: n.year(),
            month: n.month(),
            day: n.day(),
            hour: n.hour(),
            minute: n.minute(),
            second: n.second(),
        },
        None => CellValue::Text(format!("{dt}")),
    }
}

/// Opens a workbook of any supported format from memory
/// (`calamine::open_workbook_auto_from_rs`).
#[verifier::external_body]
fn open_workbook(data: &[u8]) -> (r: Option<calamine::Sheets<Cursor<&[u8]>>>)
    ensures
        r is Some <==> workbook_opens(data@),
        r matches Some(wb) ==> sheets_source(wb) == data@,
{
    calamine::open_workbook_auto_from_rs(Cursor::new(data)).ok()
}

/// The sheet names of a workbook (`Reader::sheet_names`).
#[verifier::external_body]
fn sheet_names(wb: &calamine::Sheets<Cursor<&[u8]>>) -> (v: Vec<String>)
    ensures
        v@.map_values(|s: String| s@) == workbook_sheet_names(sheets_source(*wb)),
{
    wb.sheet_names()
}

/// The view of read rows.
pub open spec fn rows_result(r: Result<Vec<Vec<CellValue>>, String>) -> Result<Seq<Seq<CellValue>>, Seq<char>> {
    match r {
        Ok(rows) => Ok(rows@.map_values(|row: Vec<CellValue>| row@)),
        Err(m) => Err(m@),
    }
}

/// The cells of a sheet, row by row (`Reader::worksheet_range` and
/// `Range::rows`), or the error's message.
#[verifier::external_body]
fn sheet_rows(wb: &mut calamine::Sheets<Cursor<&[u8]>>, name: &str) -> (r: Result<Vec<Vec<CellValue>>, String>)
    ensures
        sheets_source(*final(wb)) == sheets_source(*old(wb)),
        rows_result(r) == workbook_sheet(sheets_source(*old(wb)), name@),
{
    match wb.worksheet_range(name) {
        Ok(range) => Ok(range.rows().map(|row| row.iter().map(cell_value).collect()).collect()),
        Err(e) => Err(e.to_string()),
    }
}

// ---------------------------------------------------------------------------
// Cells
// ---------------------------------------------------------------------------

/// The Excel column name of a 0-based column: `A`..`Z`, `AA`, ...
pub open spec fn col_name(n: nat) -> Seq<char>
    decreases n,
{
    if n < 26 {
        seq![(65 + n) as char]
    } else {
        col_name((n / 26 - 1) as nat) + seq![(65 + n % 26) as char]
    }
}

/// The Excel column name of a 0-based column (see [`col_name`]).
pub fn col_letter(col: usize) -> (r: String)
    ensures
        r@ == col_name(col as nat),
{
    let v = col_chars(col);
    string_from_chars(v.as_slice())
}

/// A column name is never empty.
pub proof fn lemma_col_name_nonempty(n: nat)
    ensures
        col_name(n).len() >= 1,
    decreases n,
{
    if n >= 26 {
        lemma_col_name_nonempty((n / 26 - 1) as nat);
    }
}

/// Distinct columns have distinct names: a column name determines its
/// column.
pub proof fn lemma_col_name_injective(a: nat, b: nat)
    requires
        col_name(a) == col_name(b),
    ensures
        a == b,
    decreases a + b,
{
    if a < 26 && b < 26 {
        assert(col_name(a) =~= seq![(65 + a) as char]);
        assert(col_name(b) =~= seq![(65 + b) as char]);
        let ca = (65 + a) as char;
        let cb = (65 + b) as char;
        assert(ca == col_name(a)[0]);
        assert(cb == col_name(b)[0]);
        assert(ca == cb);
        assert(((65 + a) as char) as int == 65 + a);
        assert(((65 + b) as char) as int == 65 + b);
    } else if a < 26 {
        lemma_col_name_nonempty((b / 26 - 1) as nat);
        assert(col_name(b).len() >= 2);
    } else if b < 26 {
        lemma_col_name_nonempty((a / 26 - 1) as nat);
        assert(col_name(a).len() >= 2);
    } else {
        let pa = col_name((a / 26 - 1) as nat);
        let pb = col_name((b / 26 - 1) as nat);
        assert(col_name(a).drop_last() =~= pa);
        assert(col_name(b).drop_last() =~= pb);
        lemma_col_name_injective((a / 26 - 1) as nat, (b / 26 - 1) as nat);
        assert(col_name(a).last() == col_name(b).last());
        let ca = (65 + a % 26) as char;
        let cb = (65 + b % 26) as char;
        assert(col_name(a).last() == ca);
        assert(col_name(b).last() == cb);
        assert(((65 + a % 26) as char) as int == 65 + a % 26);
        assert(((65 + b % 26) as char) as int == 65 + b % 26);
        assert(a % 26 == b % 26);
        assert(a == 26 * (a / 26) + a % 26);
        assert(b == 26 * (b / 26) + b % 26);
    }
}

/// The column name as characters.
fn col_chars(col: usize) -> (v: Vec<char>)
    ensures
        v@ == col_name(col as nat),
    decreases col,
{
    let c = ((col % 26) as u8 + 65) as char;
    if col < 26 {
        let mut v: Vec<char> = Vec::new();
        v.push(c);
        assert(v@ =~= col_name(col as nat));
        v
    } else {
        let mut v = col_chars(col / 26 - 1);
        v.push(c);
        assert(v@ =~= col_name(col as nat));
        v
    }
}

/// `n` in decimal, zero-padded to `width` digits.
pub open spec fn padded(n: nat, width: nat) -> Seq<char> {
    let d = decimal(n);
    if d.len() >= width {
        d
    } else {
        Seq::new((width - d.len()) as nat, |i: int| '0') + d
    }
}

/// A year as `{:04}` prints it: zero-padded to four characters, sign
/// included.
pub open spec fn year_text(y: i32) -> Seq<char> {
    if y >= 0 {
        padded(y as nat, 4)
    } else {
        seq!['-'] + padded((-y) as nat, 3)
    }
}

/// The text of a cell: text as is, numbers in their decimal form, booleans
/// as `TRUE`/`FALSE`, date-times as `YYYY-MM-DD` (with ` HH:MM:SS` unless
/// the time is midnight), errors as their text.
pub open spec fn cell_text(c: CellValue) -> Seq<char> {
    match c {
        CellValue::Empty => Seq::empty(),
        CellValue::Text(s) => s@,
        CellValue::Number(s) => s@,
        CellValue::Bool(b) => if b {
            "TRUE"@
        } else {
            "FALSE"@
        },
        CellValue::DateTime { year, month, day, hour, minute, second } => datetime_text(
            year,
            month,
            day,
            hour,
            minute,
            second,
        ),
        CellValue::Error(e) => e@,
    }
}

/// A date as `YYYY-MM-DD`.
pub open spec fn date_text(year: i32, month: u32, day: u32) -> Seq<char> {
    year_text(year) + seq!['-'] + padded(month as nat, 2) + seq!['-'] + padded(day as nat, 2)
}

/// A time as `HH:MM:SS`.
pub open spec fn time_text(hour: u32, minute: u32, second: u32) -> Seq<char> {
    padded(hour as nat, 2) + seq![':'] + padded(minute as nat, 2) + seq![':'] + padded(
        second as nat,
        2,
    )
}

/// A date-time as `YYYY-MM-DD`, with ` HH:MM:SS` unless it is midnight.
pub open spec fn datetime_text(
    year: i32,
    month: u32,
    day: u32,
    hour: u32,
    minute: u32,
    second: u32,
) -> Seq<char> {
    if hour == 0 && minute == 0 && second == 0 {
        date_text(year, month, day)
    } else {
        date_text(year, month, day) + seq![' '] + time_text(hour, minute, second)
    }
}

/// `n` zero-padded to `width` digits.
fn push_padded(out: &mut Vec<char>, n: usize, width: usize)
    ensures
        final(out)@ == old(out)@ + padded(n as nat, width as nat),
{
    let d = decimal_chars(n);
    let mut k = d.len();
    while k < width
        invariant
            d.len() <= k <= width || (k == d.len() && d.len() >= width),
            out@ == old(out)@ + Seq::new((k - d.len()) as nat, |i: int| '0'),
        decreases width - k,
    {
        out.push('0');
        k = k + 1;
        assert(out@ =~= old(out)@ + Seq::new((k - d.len()) as nat, |i: int| '0'));
    }
    push_all(out, d.as_slice());
    assert(out@ =~= old(out)@ + padded(n as nat, width as nat));
}

/// A date (see [`date_text`]).
fn format_date(year: i32, month: u32, day: u32) -> (v: Vec<char>)
    ensures
        v@ == date_text(year, month, day),
{
    let mut v: Vec<char> = Vec::new();
    if year >= 0 {
        push_padded(&mut v, year as usize, 4);
    } else {
        v.push('-');
        let a: i64 = -(year as i64);
        push_padded(&mut v, a as usize, 3);
    }
    let ghost y = v@;
    assert(y =~= year_text(year));
    v.push('-');
    push_padded(&mut v, month as usize, 2);
    v.push('-');
    push_padded(&mut v, day as usize, 2);
    assert(v@ =~= date_text(year, month, day));
    v
}

/// A time (see [`time_text`]).
fn format_time(hour: u32, minute: u32, second: u32) -> (v: Vec<char>)
    ensures
        v@ == time_text(hour, minute, second),
{
    let mut v: Vec<char> = Vec::new();
    push_padded(&mut v, hour as usize, 2);
    v.push(':');
    push_padded(&mut v, minute as usize, 2);
    v.push(':');
    push_padded(&mut v, second as usize, 2);
    assert(v@ =~= time_text(hour, minute, second));
    v
}

/// A date-time (see [`datetime_text`]).
fn format_datetime(year: i32, month: u32, day: u32, hour: u32, minute: u32, second: u32) -> (v: Vec<
    char,
>)
    ensures
        v@ == datetime_text(year, month, day, hour, minute, second),
{
    let mut v = format_date(year, month, day);
    if !(hour == 0 && minute == 0 && second == 0) {
        v.push(' ');
        let tm = format_time(hour, minute, second);
        push_all(&mut v, tm.as_slice());
    }
    v
}

/// The text of a cell (see [`cell_text`]); an error cell also adds a
/// `MalformedSegment` warning at `location`.
pub fn format_cell(cell: &CellValue, location: &[char], warnings: &mut Vec<ConversionWarning>) -> (r:
    Vec<char>)
    ensures
        r@ == cell_text(*cell),
        cell is Error ==> final(warnings)@.len() == old(warnings)@.len() + 1
            && final(warnings)@.last().code == WarningCode::MalformedSegment
            && final(warnings)@.last().message@ == "cell contains error: "@ + cell_text(*cell)
            && (final(warnings)@.last().location matches Some(l) && l@ == location@)
            && final(warnings)@.drop_last() == old(warnings)@,
        !(cell is Error) ==> final(warnings)@ == old(warnings)@,
{
    match cell {
        CellValue::Empty => Vec::new(),
        CellValue::Text(s) => chars_of(s.as_str()),
        CellValue::Number(s) => chars_of(s.as_str()),
        CellValue::Bool(b) => if *b {
            chars_of("TRUE")
        } else {
            chars_of("FALSE")
        },
        CellValue::DateTime { year, month, day, hour, minute, second } => format_datetime(
            *year,
            *month,
            *day,
            *hour,
            *minute,
            *second,
        ),
        CellValue::Error(e) => {
            let mut m: Vec<char> = Vec::new();
            push_str(&mut m, "cell contains error: ");
            push_str(&mut m, e.as_str());
            let ghost before = warnings@;
            warnings.push(warning(WarningCode::MalformedSegment, m, Some(string_from_chars(location))));
            assert(warnings@.drop_last() =~= before);
            chars_of(e.as_str())
        },
    }
}

/// The location of a cell: `sheet!` followed by its column name and
/// 1-based row.
pub open spec fn cell_location(sheet: Seq<char>, col: nat, row: nat) -> Seq<char> {
    sheet + seq!['!'] + col_name(col) + decimal(row)
}

/// The texts of a row's cells (see [`cell_text`]).
pub open spec fn row_texts(row: Seq<CellValue>) -> Seq<Seq<char>> {
    row.map_values(|c: CellValue| cell_text(c))
}

/// The warning for an error cell.
pub open spec fn cell_warning(sheet: Seq<char>, col: nat, row: nat, c: CellValue) -> (
    WarningCode,
    Seq<char>,
    Option<Seq<char>>,
) {
    (WarningCode::MalformedSegment, "cell contains error: "@ + cell_text(c), Some(cell_location(sheet, col, row)))
}

/// The warnings of a row's error cells, in column order.
pub open spec fn row_warnings(sheet: Seq<char>, row_number: nat, row: Seq<CellValue>) -> Seq<
    (WarningCode, Seq<char>, Option<Seq<char>>),
>
    decreases row.len(),
{
    if row.len() == 0 {
        Seq::empty()
    } else {
        let prev = row_warnings(sheet, row_number, row.drop_last());
        if row.last() is Error {
            prev.push(cell_warning(sheet, (row.len() - 1) as nat, row_number, row.last()))
        } else {
            prev
        }
    }
}

/// The warnings of a sheet's error cells, row by row (rows numbered from 1).
pub open spec fn sheet_warnings(sheet: Seq<char>, rows: Seq<Seq<CellValue>>) -> Seq<
    (WarningCode, Seq<char>, Option<Seq<char>>),
>
    decreases rows.len(),
{
    if rows.len() == 0 {
        Seq::empty()
    } else {
        sheet_warnings(sheet, rows.drop_last()) + row_warnings(sheet, rows.len() as nat, rows.last())
    }
}

/// The texts of a row, with warnings for error cells.
fn format_row(
    row: &Vec<CellValue>,
    sheet: &[char],
    row_number: usize,
    warnings: &mut Vec<ConversionWarning>,
) -> (v: Vec<Vec<char>>)
    ensures
        v.deep_view() == row_texts(row@),
        warns_view(final(warnings)@) == warns_view(old(warnings)@) + row_warnings(
            sheet@,
            row_number as nat,
            row@,
        ),
{
    let mut v: Vec<Vec<char>> = Vec::new();
    let mut ci: usize = 0;
    assert(warns_view(old(warnings)@) + row_warnings(sheet@, row_number as nat, row@.subrange(0, 0))
        =~= warns_view(warnings@));
    while ci < row.len()
        invariant
            ci <= row.len(),
            v.deep_view() == row_texts(row@.subrange(0, ci as int)),
            warns_view(warnings@) == warns_view(old(warnings)@) + row_warnings(
                sheet@,
                row_number as nat,
                row@.subrange(0, ci as int),
            ),
        decreases row.len() - ci,
    {
        assert(row@.subrange(0, ci + 1).drop_last() =~= row@.subrange(0, ci as int));
        assert(row@.subrange(0, ci + 1).last() == row@[ci as int]);
        let ghost wb = warnings@;
        let mut loc: Vec<char> = Vec::new();
        push_all(&mut loc, sheet);
        loc.push('!');
        let col = col_chars(ci);
        push_all(&mut loc, col.as_slice());
        let d = decimal_chars(row_number);
        push_all(&mut loc, d.as_slice());
        let t = format_cell(&row[ci], loc.as_slice(), warnings);
        proof {
            lemma_deep_view_chars(t);
            assert(loc@ =~= cell_location(sheet@, ci as nat, row_number as nat));
            if row@[ci as int] is Error {
                assert(warns_view(warnings@) =~= warns_view(wb).push(
                    cell_warning(sheet@, ci as nat, row_number as nat, row@[ci as int]),
                )) by {
                    assert(warnings@.drop_last() == wb);
                    assert forall|j: int| 0 <= j < wb.len() implies warns_view(warnings@)[j]
                        == warns_view(wb)[j] by {
                        assert(warnings@[j] == wb[j]);
                    }
                }
            }
        }
        let ghost before = v.deep_view();
        v.push(t);
        assert(v.deep_view() =~= before.push(t@));
        ci = ci + 1;
        assert(v.deep_view() =~= row_texts(row@.subrange(0, ci as int)));
    }
    assert(row@.subrange(0, row.len() as int) =~= row@);
    v
}

/// The section of a sheet with rows: its name as a level-2 heading, then
/// its cells as a table whose header is the first row.
pub open spec fn sheet_section(name: Seq<char>, rows: Seq<Seq<CellValue>>) -> Seq<char> {
    heading(2, name) + md_table(
        row_texts(rows[0]),
        Seq::new((rows.len() - 1) as nat, |i: int| row_texts(rows[i + 1])),
    )
}

/// Renders the section of a sheet (see [`sheet_section`]); error cells add
/// warnings located at their sheet, column and row.
pub fn render_sheet(name: &str, rows: &Vec<Vec<CellValue>>, warnings: &mut Vec<ConversionWarning>) -> (r:
    Vec<char>)
    requires
        rows.len() > 0,
    ensures
        r@ == sheet_section(name@, rows@.map_values(|row: Vec<CellValue>| row@)),
        warns_view(final(warnings)@) == warns_view(old(warnings)@) + sheet_warnings(
            name@,
            rows@.map_values(|row: Vec<CellValue>| row@),
        ),
{
    let n = chars_of(name);
    let ghost rv = rows@.map_values(|row: Vec<CellValue>| row@);
    assert(rv.subrange(0, 1).drop_last() =~= Seq::<Seq<CellValue>>::empty());
    assert(rv.subrange(0, 1).last() == rv[0]);
    let header = format_row(&rows[0], n.as_slice(), 1, warnings);
    assert(rows@[0]@ == rv[0]);
    assert(sheet_warnings(name@, rv.subrange(0, 1)) =~= row_warnings(name@, 1, rv[0])) by {
        assert(sheet_warnings(name@, rv.subrange(0, 1).drop_last()) =~= Seq::empty());
    }
    assert(warns_view(warnings@) =~= warns_view(old(warnings)@) + sheet_warnings(name@, rv.subrange(0, 1)));
    let mut data: Vec<Vec<Vec<char>>> = Vec::new();
    let mut ri: usize = 1;
    while ri < rows.len()
        invariant
            1 <= ri <= rows.len(),
            rv == rows@.map_values(|row: Vec<CellValue>| row@),
            n@ == name@,
            data.deep_view() == Seq::new((ri - 1) as nat, |i: int| row_texts(rv[i + 1])),
            warns_view(warnings@) == warns_view(old(warnings)@) + sheet_warnings(
                name@,
                rv.subrange(0, ri as int),
            ),
        decreases rows.len() - ri,
    {
        assert(rv.subrange(0, ri + 1).drop_last() =~= rv.subrange(0, ri as int));
        assert(rv.subrange(0, ri + 1).last() == rv[ri as int]);
        let ghost wb = warnings@;
        assert(rows@[ri as int]@ == rv[ri as int]);
        let r = format_row(&rows[ri], n.as_slice(), ri + 1, warnings);
        assert(warns_view(warnings@) =~= warns_view(old(warnings)@) + sheet_warnings(
            name@,
            rv.subrange(0, ri + 1),
        ));
        let ghost before = data.deep_view();
        data.push(r);
        assert(data.deep_view() =~= before.push(r.deep_view()));
        ri = ri + 1;
        assert(data.deep_view() =~= Seq::new((ri - 1) as nat, |i: int| row_texts(rv[i + 1])));
    }
    assert(rv.subrange(0, rows.len() as int) =~= rv);
    let h = format_heading(2, n.as_slice());
    let t = build_table(header.as_slice(), data.as_slice());
    let mut out = h;
    push_all(&mut out, t.as_slice());
    out
}

// ---------------------------------------------------------------------------
// Drawings and their images
// ---------------------------------------------------------------------------

/// The values of the attributes whose local name is `embed`, in order.
pub open spec fn embed_values(attrs: Seq<Option<XmlAttr>>) -> Seq<Seq<char>>
    decreases attrs.len(),
{
    if attrs.len() == 0 {
        Seq::empty()
    } else {
        let prev = embed_values(attrs.drop_last());
        match attrs.last() {
            Some(a) => if a.local@ == "embed"@ {
                prev.push(a.value@)
            } else {
                prev
            },
            None => prev,
        }
    }
}

/// The image relationship ids an element carries: the `embed` attributes
/// of a `blip` element.
pub open spec fn element_blips(e: XmlElement) -> Seq<Seq<char>> {
    if e.name@ == "blip"@ {
        embed_values(e.attrs@)
    } else {
        Seq::empty()
    }
}

/// The image relationship ids of a drawing's tokens, in document order.
pub open spec fn blips_from_tokens(tokens: Seq<XmlToken>) -> Seq<Seq<char>>
    decreases tokens.len(),
{
    if tokens.len() == 0 {
        Seq::empty()
    } else {
        blips_from_tokens(tokens.drop_last()) + match tokens.last() {
            XmlToken::Start(e) => element_blips(e),
            XmlToken::Empty(e) => element_blips(e),
            _ => Seq::empty(),
        }
    }
}

/// The view of a list of strings.
pub open spec fn strings_view(v: Seq<String>) -> Seq<Seq<char>> {
    v.map_values(|s: String| s@)
}

/// Appends the `embed` values of a `blip` element.
fn push_blips(e: &XmlElement, out: &mut Vec<String>)
    ensures
        strings_view(final(out)@) == strings_view(old(out)@) + element_blips(*e),
{
    let n = chars_of(e.name.as_str());
    if !eq_str(n.as_slice(), "blip") {
        assert(strings_view(out@) =~= strings_view(old(out)@) + element_blips(*e));
        return;
    }
    let mut j: usize = 0;
    while j < e.attrs.len()
        invariant
            j <= e.attrs.len(),
            e.name@ == "blip"@,
            strings_view(out@) == strings_view(old(out)@) + embed_values(e.attrs@.subrange(0, j as int)),
        decreases e.attrs.len() - j,
    {
        assert(e.attrs@.subrange(0, j + 1).drop_last() =~= e.attrs@.subrange(0, j as int));
        let ghost before = out@;
        match &e.attrs[j] {
            Some(a) => {
                let l = chars_of(a.local.as_str());
                if eq_str(l.as_slice(), "embed") {
                    out.push(a.value.clone());
                    assert(strings_view(out@) =~= strings_view(before).push(a.value@));
                }
            },
            None => {},
        }
        j = j + 1;
        assert(strings_view(out@) =~= strings_view(old(out)@) + embed_values(
            e.attrs@.subrange(0, j as int),
        ));
    }
    assert(e.attrs@.subrange(0, e.attrs.len() as int) =~= e.attrs@);
}

/// The image relationship ids of a drawing part (see [`blips_from_tokens`]).
pub fn parse_drawing_blips(xml: &str) -> (r: Vec<String>)
    ensures
        strings_view(r@) == blips_from_tokens(xml_tokens(xml@)),
{
    let tokens = tokenize(xml);
    let mut out: Vec<String> = Vec::new();
    let mut i: usize = 0;
    while i < tokens.len()
        invariant
            i <= tokens.len(),
            tokens@ == xml_tokens(xml@),
            strings_view(out@) == blips_from_tokens(tokens@.subrange(0, i as int)),
        decreases tokens.len() - i,
    {
        assert(tokens@.subrange(0, i + 1).drop_last() =~= tokens@.subrange(0, i as int));
        match &tokens[i] {
            XmlToken::Start(e) => push_blips(e, &mut out),
            XmlToken::Empty(e) => push_blips(e, &mut out),
            _ => {
                assert(strings_view(out@) =~= blips_from_tokens(tokens@.subrange(0, i + 1)));
            },
        }
        i = i + 1;
    }
    assert(tokens@.subrange(0, tokens.len() as int) =~= tokens@);
    out
}

/// The part a sheet's drawing relationship points to: an absolute target
/// without its leading `/`, a `../` target under `xl/`, any other under
/// `xl/worksheets/`.
pub open spec fn drawing_path_spec(t: Seq<char>) -> Seq<char> {
    if has_prefix(t, "/"@) {
        t.subrange(1, t.len() as int)
    } else if has_prefix(t, "../"@) {
        "xl/"@ + t.subrange(3, t.len() as int)
    } else {
        "xl/worksheets/"@ + t
    }
}

/// The part of a sheet's drawing (see [`drawing_path_spec`]).
pub fn drawing_path(target: &str) -> (r: String)
    ensures
        r@ == drawing_path_spec(target@),
{
    proof {
        reveal_strlit("/");
        reveal_strlit("../");
    }
    let t = chars_of(target);
    if starts_with_str(t.as_slice(), "/") {
        let rest = slice_chars(t.as_slice(), 1, t.len());
        return string_from_chars(rest.as_slice());
    }
    let mut out: Vec<char> = Vec::new();
    if starts_with_str(t.as_slice(), "../") {
        push_str(&mut out, "xl/");
        let rest = slice_chars(t.as_slice(), 3, t.len());
        push_all(&mut out, rest.as_slice());
    } else {
        push_str(&mut out, "xl/worksheets/");
        push_all(&mut out, t.as_slice());
    }
    string_from_chars(out.as_slice())
}

/// The directory of a part: what comes before its last `/` (empty when
/// there is none).
pub open spec fn dir_of(p: Seq<char>) -> Seq<char> {
    match last_index_of(p, '/') {
        Some(i) => p.subrange(0, i),
        None => Seq::empty(),
    }
}

/// The file name of a part: what comes after its last `/`.
pub open spec fn file_name_of(p: Seq<char>) -> Seq<char> {
    match last_index_of(p, '/') {
        Some(i) => p.subrange(i + 1, p.len() as int),
        None => p,
    }
}

/// The part an image relationship of a drawing points to: a `../` target
/// resolved against the drawing's directory, an absolute target without
/// its leading `/`, any other appended to the drawing's directory.
pub open spec fn image_path_spec(drawing: Seq<char>, t: Seq<char>) -> Seq<char> {
    if has_prefix(t, "../"@) {
        resolve_dir_spec(dir_of(drawing), t)
    } else if has_prefix(t, "/"@) {
        t.subrange(1, t.len() as int)
    } else {
        dir_of(drawing) + "/"@ + t
    }
}

/// The directory of a part (see [`dir_of`]).
fn dir_chars(path: &[char]) -> (v: Vec<char>)
    ensures
        v@ == dir_of(path@),
{
    match last_index(path, '/') {
        Some(i) => slice_chars(path, 0, i),
        None => Vec::new(),
    }
}

/// The file name of a part (see [`file_name_of`]).
fn file_name_chars(path: &[char]) -> (v: Vec<char>)
    ensures
        v@ == file_name_of(path@),
{
    match last_index(path, '/') {
        Some(i) => slice_chars(path, i + 1, path.len()),
        None => slice_chars(path, 0, path.len()),
    }
}

/// The part of a drawing's image (see [`image_path_spec`]).
pub fn image_path(drawing: &str, target: &str) -> (r: String)
    ensures
        r@ == image_path_spec(drawing@, target@),
{
    proof {
        reveal_strlit("/");
        reveal_strlit("../");
    }
    let d = chars_of(drawing);
    let dir = dir_chars(d.as_slice());
    let t = chars_of(target);
    if starts_with_str(t.as_slice(), "../") {
        let ds = string_from_chars(dir.as_slice());
        return resolve_relative_path(ds.as_str(), target);
    }
    if starts_with_str(t.as_slice(), "/") {
        let rest = slice_chars(t.as_slice(), 1, t.len());
        return string_from_chars(rest.as_slice());
    }
    let mut out = dir;
    out.push('/');
    push_all(&mut out, t.as_slice());
    string_from_chars(out.as_slice())
}

/// The relationships part of the `n`-th sheet (1-based).
pub open spec fn sheet_rels_path(n: nat) -> Seq<char> {
    "xl/worksheets/_rels/sheet"@ + decimal(n) + ".xml.rels"@
}

/// The images that the pictures `blips` (relationship ids, in order) of
/// the drawing part `drawing` point to through the drawing's relationships
/// `drels`, as `(file name, bytes)`; an id without a relationship, or an
/// image part that is missing or unreadable, is skipped.
pub open spec fn blip_images(
    data: Seq<u8>,
    drawing: Seq<char>,
    drels: Seq<(Seq<char>, Seq<char>, Seq<char>)>,
    blips: Seq<Seq<char>>,
) -> Seq<(Seq<char>, Seq<u8>)>
    decreases blips.len(),
{
    if blips.len() == 0 {
        Seq::empty()
    } else {
        let prev = blip_images(data, drawing, drels, blips.drop_last());
        match rel_lookup(drels, blips.last()) {
            Some(rel) => {
                let ip = image_path_spec(drawing, rel.0);
                match zip_entry_read(data, ip) {
                    Ok(Some(b)) => prev.push((file_name_of(ip), b)),
                    _ => prev,
                }
            },
            None => prev,
        }
    }
}

/// The images of the drawing part `drawing` of the package `data`: those
/// of its pictures (see [`blip_images`]) when the drawing and its
/// relationships part read as text, else none.
pub open spec fn drawing_images(data: Seq<u8>, drawing: Seq<char>) -> Seq<(Seq<char>, Seq<u8>)> {
    match part_text(data, drawing) {
        Ok(Some(dx)) => match part_text(data, rels_path_spec(drawing)) {
            Ok(Some(rx)) => blip_images(
                data,
                drawing,
                rels_from_tokens(xml_tokens(rx)),
                blips_from_tokens(xml_tokens(dx)),
            ),
            _ => Seq::empty(),
        },
        _ => Seq::empty(),
    }
}

/// The images of the drawings that the first `n` relationships of a sheet
/// point to: each relationship in force whose target contains `drawing`
/// adds the images of its drawing part (see [`drawing_path_spec`]).
pub open spec fn drawings_images(
    data: Seq<u8>,
    rels: Seq<(Seq<char>, Seq<char>, Seq<char>)>,
    n: nat,
) -> Seq<(Seq<char>, Seq<u8>)>
    decreases n,
{
    if n == 0 {
        Seq::empty()
    } else {
        let prev = drawings_images(data, rels, (n - 1) as nat);
        if rel_in_force(rels, n - 1) && contains_seq(rels[n - 1].1, "drawing"@) {
            prev + drawing_images(data, drawing_path_spec(rels[n - 1].1))
        } else {
            prev
        }
    }
}

/// The images of the sheet at `sheet_index` (0-based): those of the
/// drawings its relationships part points to, or none when that part does
/// not read as text.
pub open spec fn sheet_images(data: Seq<u8>, sheet_index: nat) -> Seq<(Seq<char>, Seq<u8>)> {
    match part_text(data, sheet_rels_path(sheet_index + 1)) {
        Ok(Some(x)) => drawings_images(
            data,
            rels_from_tokens(xml_tokens(x)),
            rels_from_tokens(xml_tokens(x)).len(),
        ),
        _ => Seq::empty(),
    }
}

/// The images embedded in the drawings of the sheet at `sheet_index`
/// (0-based), as `(file name, bytes)` in the order their drawings and
/// pictures are declared (see [`sheet_images`]). The chain runs from the
/// sheet's relationships (targets containing `drawing`) through each
/// drawing's `blip` references and the drawing's own relationships to the
/// image parts; a link that is missing or unreadable is skipped.
fn extract_sheet_images(archive: &mut zip::ZipArchive<Cursor<&[u8]>>, sheet_index: usize) -> (r:
    Vec<(String, Vec<u8>)>)
    requires
        sheet_index < usize::MAX,
    ensures
        crate::zip_io::archive_source(*final(archive)) == crate::zip_io::archive_source(
            *old(archive),
        ),
        named_bytes_view(r@) == sheet_images(
            crate::zip_io::archive_source(*old(archive)),
            sheet_index as nat,
        ),
{
    let ghost src = crate::zip_io::archive_source(*archive);
    let mut images: Vec<(String, Vec<u8>)> = Vec::new();
    assert(named_bytes_view(images@) =~= Seq::<(Seq<char>, Seq<u8>)>::empty());
    let mut p: Vec<char> = Vec::new();
    push_str(&mut p, "xl/worksheets/_rels/sheet");
    let num = decimal_chars(sheet_index + 1);
    push_all(&mut p, num.as_slice());
    push_str(&mut p, ".xml.rels");
    assert(p@ =~= sheet_rels_path((sheet_index + 1) as nat));
    let rels_path = string_from_chars(p.as_slice());
    let rels_xml = match read_zip_text(archive, rels_path.as_str()) {
        Ok(Some(x)) => x,
        _ => {
            return images;
        },
    };
    let rels = parse_relationships(rels_xml.as_str());
    let ghost rv = rels_view(rels@);
    let drawing_word: Vec<char> = vec!['d', 'r', 'a', 'w', 'i', 'n', 'g'];
    proof {
        reveal_strlit("drawing");
        assert(drawing_word@ =~= "drawing"@);
    }
    let mut j: usize = 0;
    while j < rels.len()
        invariant
            j <= rels.len(),
            rv == rels_view(rels@),
            drawing_word@ == "drawing"@,
            src == crate::zip_io::archive_source(*old(archive)),
            crate::zip_io::archive_source(*archive) == crate::zip_io::archive_source(
                *old(archive),
            ),
            named_bytes_view(images@) == drawings_images(src, rv, j as nat),
        decreases rels.len() - j,
    {
        let ghost prev = named_bytes_view(images@);
        let target = chars_of(rels[j].1.target.as_str());
        if in_force(&rels, j) && find(target.as_slice(), drawing_word.as_slice()).is_some() {
            let dpath = drawing_path(rels[j].1.target.as_str());
            match read_zip_text(archive, dpath.as_str()) {
                Ok(Some(dx)) => {
                    let blips = parse_drawing_blips(dx.as_str());
                    let ghost bv = strings_view(blips@);
                    if blips.len() > 0 {
                        let drels_path = derive_rels_path(dpath.as_str());
                        match read_zip_text(archive, drels_path.as_str()) {
                            Ok(Some(rx)) => {
                                let drels = parse_relationships(rx.as_str());
                                let ghost drv = rels_view(drels@);
                                let mut b: usize = 0;
                                assert(bv.subrange(0, 0) =~= Seq::<Seq<char>>::empty());
                                assert(prev + Seq::<(Seq<char>, Seq<u8>)>::empty() =~= prev);
                                while b < blips.len()
                                    invariant
                                        b <= blips.len(),
                                        bv == strings_view(blips@),
                                        drv == rels_view(drels@),
                                        src == crate::zip_io::archive_source(*old(archive)),
                                        crate::zip_io::archive_source(*archive)
                                            == crate::zip_io::archive_source(*old(archive)),
                                        named_bytes_view(images@) == prev + blip_images(
                                            src,
                                            dpath@,
                                            drv,
                                            bv.subrange(0, b as int),
                                        ),
                                    decreases blips.len() - b,
                                {
                                    assert(bv.subrange(0, b + 1).drop_last() =~= bv.subrange(
                                        0,
                                        b as int,
                                    ));
                                    let ghost before = images@;
                                    match find_relationship(&drels, blips[b].as_str()) {
                                        Some(rel) => {
                                            let ip = image_path(dpath.as_str(), rel.target.as_str());
                                            let ipc = chars_of(ip.as_str());
                                            let name = file_name_chars(ipc.as_slice());
                                            match read_zip_bytes(archive, ip.as_str()) {
                                                Ok(Some(data)) => {
                                                    images.push(
                                                        (string_from_chars(name.as_slice()), data),
                                                    );
                                                    assert(named_bytes_view(images@)
                                                        =~= named_bytes_view(before).push(
                                                        (file_name_of(ip@), data@),
                                                    ));
                                                },
                                                _ => {},
                                            }
                                        },
                                        None => {},
                                    }
                                    b = b + 1;
                                }
                                assert(bv.subrange(0, blips.len() as int) =~= bv);
                            },
                            _ => {
                                assert(prev + Seq::<(Seq<char>, Seq<u8>)>::empty() =~= prev);
                            },
                        }
                    } else {
                        assert(prev + Seq::<(Seq<char>, Seq<u8>)>::empty() =~= prev);
                    }
                },
                _ => {
                    assert(prev + Seq::<(Seq<char>, Seq<u8>)>::empty() =~= prev);
                },
            }
        }
        j = j + 1;
    }
    images
}

// ---------------------------------------------------------------------------
// The converter
// ---------------------------------------------------------------------------

/// The sections of the sheets `names` of the workbook in `data`: one per
/// sheet that reads and has rows (see [`sheet_section`]).
pub open spec fn sheet_sections(data: Seq<u8>, names: Seq<Seq<char>>) -> Seq<Seq<char>>
    decreases names.len(),
{
    if names.len() == 0 {
        Seq::empty()
    } else {
        let prev = sheet_sections(data, names.drop_last());
        match workbook_sheet(data, names.last()) {
            Ok(rows) => if rows.len() > 0 {
                prev.push(sheet_section(names.last(), rows))
            } else {
                prev
            },
            Err(_) => prev,
        }
    }
}

/// The warnings of rendering a workbook's sheets: those of each sheet's
/// error cells, and one for each sheet that cannot be read.
pub open spec fn workbook_warnings(data: Seq<u8>, names: Seq<Seq<char>>) -> Seq<
    (WarningCode, Seq<char>, Option<Seq<char>>),
>
    decreases names.len(),
{
    if names.len() == 0 {
        Seq::empty()
    } else {
        let prev = workbook_warnings(data, names.drop_last());
        let name = names.last();
        match workbook_sheet(data, name) {
            Ok(rows) => if rows.len() > 0 {
                prev + sheet_warnings(name, rows)
            } else {
                prev
            },
            Err(m) => prev.push(
                (WarningCode::SkippedElement, "failed to read sheet '"@ + name + "': "@ + m, Some(name)),
            ),
        }
    }
}

/// The Markdown of a workbook without its images: the sections of its
/// sheets, in workbook order, separated by newlines.
pub open spec fn workbook_markdown(data: Seq<u8>) -> Seq<char> {
    join_with(sheet_sections(data, workbook_sheet_names(data)), "\n"@)
}

/// The error of the size check a workbook gets before it is read: data
/// that is no ZIP archive (an XLS file) is not checked; an archive is held
/// to the uncompressed-size budget (see [`budget_outcome`]).
pub open spec fn xlsx_budget_error(data: Seq<u8>, limit: usize) -> Option<ConvertError> {
    match zip_entry_names(data) {
        None => None,
        Some(names) => match budget_outcome(data, names.len(), limit) {
            Err(e) => Some(e),
            Ok(_) => None,
        },
    }
}

/// Whether a workbook conversion that needs the image bytes (or not) can
/// succeed: the size check passes, the workbook opens and, when images are
/// needed, the data is a ZIP archive.
pub open spec fn xlsx_succeeds(data: Seq<u8>, limit: usize, need_bytes: bool) -> bool {
    &&& xlsx_budget_error(data, limit) is None
    &&& workbook_opens(data)
    &&& (need_bytes ==> zip_entry_names(data) is Some)
}

/// The indices of the sheets among `names` that give a section: those
/// that read and have rows (see [`sheet_sections`]).
pub open spec fn section_sheets(data: Seq<u8>, names: Seq<Seq<char>>) -> Seq<nat>
    decreases names.len(),
{
    if names.len() == 0 {
        Seq::empty()
    } else {
        let prev = section_sheets(data, names.drop_last());
        match workbook_sheet(data, names.last()) {
            Ok(rows) => if rows.len() > 0 {
                prev.push((names.len() - 1) as nat)
            } else {
                prev
            },
            Err(_) => prev,
        }
    }
}

/// Indices as plain values.
pub open spec fn indices_view(v: Seq<usize>) -> Seq<nat> {
    v.map_values(|k: usize| k as nat)
}

/// Renders the sheets of an open workbook; also returns, for each section,
/// the index of its sheet.
fn render_sheets(
    wb: &mut calamine::Sheets<Cursor<&[u8]>>,
    names: &Vec<String>,
    warnings: &mut Vec<ConversionWarning>,
) -> (r: (Vec<Vec<char>>, Vec<usize>))
    ensures
        sheets_source(*final(wb)) == sheets_source(*old(wb)),
        r.0.deep_view() == sheet_sections(sheets_source(*old(wb)), strings_view(names@)),
        r.1.len() == r.0.len(),
        forall|k: int| 0 <= k < r.1.len() ==> #[trigger] r.1@[k] < names.len(),
        indices_view(r.1@) == section_sheets(sheets_source(*old(wb)), strings_view(names@)),
        warns_view(final(warnings)@) == warns_view(old(warnings)@) + workbook_warnings(
            sheets_source(*old(wb)),
            strings_view(names@),
        ),
{
    let ghost src = sheets_source(*wb);
    let mut sections: Vec<Vec<char>> = Vec::new();
    let mut indices: Vec<usize> = Vec::new();
    let mut i: usize = 0;
    while i < names.len()
        invariant
            i <= names.len(),
            sheets_source(*wb) == src,
            src == sheets_source(*old(wb)),
            sections.deep_view() == sheet_sections(src, strings_view(names@).subrange(0, i as int)),
            indices.len() == sections.len(),
            forall|k: int| 0 <= k < indices.len() ==> #[trigger] indices@[k] < i,
            indices_view(indices@) == section_sheets(src, strings_view(names@).subrange(0, i as int)),
            warns_view(warnings@) == warns_view(old(warnings)@) + workbook_warnings(
                src,
                strings_view(names@).subrange(0, i as int),
            ),
        decreases names.len() - i,
    {
        let ghost nv = strings_view(names@);
        assert(nv.subrange(0, i + 1).drop_last() =~= nv.subrange(0, i as int));
        assert(nv.subrange(0, i + 1).last() == names@[i as int]@);
        let name = &names[i];
        match sheet_rows(wb, name.as_str()) {
            Err(m) => {
                let mut msg: Vec<char> = Vec::new();
                push_str(&mut msg, "failed to read sheet '");
                push_str(&mut msg, name.as_str());
                push_str(&mut msg, "': ");
                push_str(&mut msg, m.as_str());
                let loc = string_from_chars(chars_of(name.as_str()).as_slice());
                let ghost wb = warnings@;
                let w = warning(WarningCode::SkippedElement, msg, Some(loc));
                let ghost wv = crate::converter::warn_view(w);
                warnings.push(w);
                assert(warns_view(warnings@) =~= warns_view(wb).push(wv));
            },
            Ok(rows) => {
                if rows.len() > 0 {
                    let sec = render_sheet(name.as_str(), &rows, warnings);
                    proof {
                        lemma_deep_view_chars(sec);
                    }
                    let ghost before = sections.deep_view();
                    sections.push(sec);
                    assert(sections.deep_view() =~= before.push(sec@));
                    let ghost ib = indices@;
                    indices.push(i);
                    assert(indices_view(indices@) =~= indices_view(ib).push(i as nat));
                } else {
                    assert(rows@.map_values(|row: Vec<CellValue>| row@).len() == 0);
                }
            },
        }
        i = i + 1;
    }
    assert(strings_view(names@).subrange(0, names.len() as int) =~= strings_view(names@));
    (sections, indices)
}

/// The state of placing a workbook's images: the bytes used, the image
/// lines of the current section, the images placed (placeholder, alt text,
/// file name, key of the bytes), their bytes, the files extracted and the
/// warnings given.
pub struct PlacedImagesV {
    pub total: nat,
    pub lines: Seq<Seq<char>>,
    pub infos: Seq<(Seq<char>, Seq<char>, Seq<char>, Seq<char>)>,
    pub bytes: Seq<(Seq<char>, Seq<u8>)>,
    pub files: Seq<(Seq<char>, Seq<u8>)>,
    pub warns: Seq<(WarningCode, Seq<char>, Option<Seq<char>>)>,
}

/// Placing the image `img` (file name, bytes) within the budget `max`:
/// one that fits gets the next placeholder, an image line, its bytes kept
/// and, when `keep`, its file extracted; one that does not fit uses up the
/// budget and gives a `ResourceLimitReached` warning located at its name.
pub open spec fn place_image(
    s: PlacedImagesV,
    max: nat,
    keep: bool,
    img: (Seq<char>, Seq<u8>),
) -> PlacedImagesV {
    let sum = s.total + img.1.len();
    if sum <= max {
        let ph = placeholder_name(s.infos.len());
        PlacedImagesV {
            total: sum,
            lines: s.lines.push(image_md(ph, img.0)),
            infos: s.infos.push((ph, Seq::empty(), img.0, img.0)),
            bytes: s.bytes.push(img),
            files: if keep {
                s.files.push(img)
            } else {
                s.files
            },
            warns: s.warns,
        }
    } else {
        PlacedImagesV {
            total: if sum <= usize::MAX {
                sum
            } else {
                usize::MAX as nat
            },
            lines: s.lines,
            infos: s.infos,
            bytes: s.bytes,
            files: s.files,
            warns: s.warns.push(
                (WarningCode::ResourceLimitReached, image_budget_message(max), Some(img.0)),
            ),
        }
    }
}

/// Placing the images `imgs` in order (see [`place_image`]).
pub open spec fn place_images(
    s: PlacedImagesV,
    max: nat,
    keep: bool,
    imgs: Seq<(Seq<char>, Seq<u8>)>,
) -> PlacedImagesV
    decreases imgs.len(),
{
    if imgs.len() == 0 {
        s
    } else {
        place_image(place_images(s, max, keep, imgs.drop_last()), max, keep, imgs.last())
    }
}

/// A section followed by its image lines, one per line.
pub open spec fn with_image_lines(sec: Seq<char>, lines: Seq<Seq<char>>) -> Seq<char> {
    if lines.len() > 0 {
        sec + "\n"@ + join_with(lines, "\n"@)
    } else {
        sec
    }
}

/// The placing of the images of the first `n` sections `secs` (each from
/// the sheet with index `sheets[i]`, see [`sheet_images`]), and the
/// sections with their image lines.
pub open spec fn place_sections(
    data: Seq<u8>,
    max: nat,
    keep: bool,
    secs: Seq<Seq<char>>,
    sheets: Seq<nat>,
    n: nat,
) -> (PlacedImagesV, Seq<Seq<char>>)
    decreases n,
{
    if n == 0 {
        (
            PlacedImagesV {
                total: 0,
                lines: Seq::empty(),
                infos: Seq::empty(),
                bytes: Seq::empty(),
                files: Seq::empty(),
                warns: Seq::empty(),
            },
            Seq::empty(),
        )
    } else {
        let (st, out) = place_sections(data, max, keep, secs, sheets, (n - 1) as nat);
        let st2 = place_images(
            PlacedImagesV { lines: Seq::empty(), ..st },
            max,
            keep,
            sheet_images(data, sheets[n - 1]),
        );
        (st2, out.push(with_image_lines(secs[n - 1], st2.lines)))
    }
}

/// The images of a workbook placed under its sections (see
/// [`place_sections`]), with the budget `max`, extracting the files when
/// `keep`.
pub open spec fn workbook_images(data: Seq<u8>, max: nat, keep: bool) -> (
    PlacedImagesV,
    Seq<Seq<char>>,
) {
    let names = workbook_sheet_names(data);
    let secs = sheet_sections(data, names);
    place_sections(data, max, keep, secs, section_sheets(data, names), secs.len())
}

/// The Markdown of a workbook whose images are placed: each section
/// followed by its image lines, sections separated by newlines.
pub open spec fn workbook_image_markdown(data: Seq<u8>, max: nat, keep: bool) -> Seq<char> {
    join_with(workbook_images(data, max, keep).1, "\n"@)
}

impl XlsxConverter {
    /// Reads the workbook and, when `need_bytes`, its sheets' embedded
    /// images, leaving image placeholders unresolved. Each sheet that reads
    /// and has rows gives a section (see [`sheet_section`]); a sheet that
    /// cannot be read is skipped with a `SkippedElement` warning. The
    /// images of a section's sheet follow it as `![__img_n__](file)` lines,
    /// within the image budget. Sections are separated by newlines.
    pub fn convert_inner(&self, data: &[u8], options: &ConversionOptions, need_bytes: bool) -> (r:
        Result<(ConversionResult, PendingImageResolution), ConvertError>)
        ensures
            xlsx_budget_error(data@, options.max_uncompressed_zip_bytes) matches Some(e) ==> (r matches Err(
                e2,
            ) && e2 == e),
            xlsx_budget_error(data@, options.max_uncompressed_zip_bytes) is None && !workbook_opens(
                data@,
            ) ==> (r matches Err(e) && e is SpreadsheetError),
            xlsx_budget_error(data@, options.max_uncompressed_zip_bytes) is None && workbook_opens(
                data@,
            ) && need_bytes && zip_entry_names(data@) is None ==> (r matches Err(e) && e is ZipError),
            r is Ok <==> xlsx_succeeds(data@, options.max_uncompressed_zip_bytes, need_bytes),
            r matches Ok(p) ==> (!need_bytes ==> p.0.markdown@ == workbook_markdown(data@)
                && p.1.infos@.len() == 0),
            r matches Ok(p) ==> (need_bytes ==> {
                let placed = workbook_images(
                    data@,
                    options.max_total_image_bytes as nat,
                    options.extract_images,
                );
                &&& p.0.markdown@ == join_with(placed.1, "\n"@)
                &&& imgs_view(p.1.infos@) == placed.0.infos
                &&& named_bytes_view(p.1.bytes@) == placed.0.bytes
                &&& named_bytes_view(p.0.images@) == placed.0.files
                &&& warns_view(p.0.warnings@) == workbook_warnings(
                    data@,
                    workbook_sheet_names(data@),
                ) + placed.0.warns
            }),
            r matches Ok(p) ==> ({
                let w = workbook_warnings(data@, workbook_sheet_names(data@));
                &&& warns_view(p.0.warnings@).len() >= w.len()
                &&& warns_view(p.0.warnings@).subrange(0, w.len() as int) == w
                &&& !need_bytes ==> warns_view(p.0.warnings@) == w
            }),
            r matches Ok(p) ==> p.0.plain_text@.len() == 0 && p.0.title is None,
            r matches Ok(p) ==> total_len(p.0.images@) <= options.max_total_image_bytes,
            r matches Ok(p) ==> (!options.extract_images ==> p.0.images@.len() == 0),
    {
        match open_archive(data) {
            Some(mut archive) => {
                match validate_zip_budget(&mut archive, options.max_uncompressed_zip_bytes) {
                    Ok(()) => {},
                    Err(e) => {
                        return Err(e);
                    },
                }
            },
            None => {},
        }
        let mut wb = match open_workbook(data) {
            Some(w) => w,
            None => {
                return Err(ConvertError::SpreadsheetError);
            },
        };
        let names = sheet_names(&wb);
        let mut warnings: Vec<ConversionWarning> = Vec::new();
        let (sections, indices) = render_sheets(&mut wb, &names, &mut warnings);
        let ghost w0 = warnings@;
        assert(warns_view(w0) =~= workbook_warnings(data@, workbook_sheet_names(data@)));
        let mut images: Vec<(String, Vec<u8>)> = Vec::new();
        let mut bytes: Vec<(String, Vec<u8>)> = Vec::new();
        let mut infos: Vec<ImageInfo> = Vec::new();
        let ghost secs = sections.deep_view();
        let ghost shs = indices_view(indices@);
        let ghost mx = options.max_total_image_bytes as nat;
        let ghost keep = options.extract_images;
        proof {
            reveal_strlit("\n");
            assert(imgs_view(infos@) =~= Seq::<(Seq<char>, Seq<char>, Seq<char>, Seq<char>)>::empty());
            assert(named_bytes_view(bytes@) =~= Seq::<(Seq<char>, Seq<u8>)>::empty());
            assert(named_bytes_view(images@) =~= Seq::<(Seq<char>, Seq<u8>)>::empty());
            assert(warns_view(w0) + Seq::<(WarningCode, Seq<char>, Option<Seq<char>>)>::empty()
                =~= warns_view(warnings@));
        }
        let final_sections = if need_bytes {
            let mut archive = match open_archive(data) {
                Some(a) => a,
                None => {
                    return Err(ConvertError::ZipError);
                },
            };
            let mut out: Vec<Vec<char>> = Vec::new();
            let mut total: usize = 0;
            let mut s: usize = 0;
            assert(out.deep_view() =~= Seq::<Seq<char>>::empty());
            while s < sections.len()
                invariant
                    s <= sections.len(),
                    indices.len() == sections.len(),
                    forall|k: int| 0 <= k < indices.len() ==> #[trigger] indices@[k] < names.len(),
                    secs == sections.deep_view(),
                    shs == indices_view(indices@),
                    mx == options.max_total_image_bytes as nat,
                    keep == options.extract_images,
                    "\n"@ == seq!['\n'],
                    crate::zip_io::archive_source(archive) == data@,
                    total_len(images@) <= total,
                    total_len(images@) <= options.max_total_image_bytes,
                    !options.extract_images ==> images@.len() == 0,
                    warnings@.len() >= w0.len(),
                    warnings@.subrange(0, w0.len() as int) == w0,
                    place_sections(data@, mx, keep, secs, shs, s as nat).1 == out.deep_view(),
                    place_sections(data@, mx, keep, secs, shs, s as nat).0.total == total as nat,
                    place_sections(data@, mx, keep, secs, shs, s as nat).0.infos == imgs_view(infos@),
                    place_sections(data@, mx, keep, secs, shs, s as nat).0.bytes == named_bytes_view(
                        bytes@,
                    ),
                    place_sections(data@, mx, keep, secs, shs, s as nat).0.files == named_bytes_view(
                        images@,
                    ),
                    warns_view(warnings@) == warns_view(w0) + place_sections(
                        data@,
                        mx,
                        keep,
                        secs,
                        shs,
                        s as nat,
                    ).0.warns,
                decreases sections.len() - s,
            {
                assert(indices@[s as int] < names.len());
                let ghost st = place_sections(data@, mx, keep, secs, shs, s as nat).0;
                let ghost st0 = PlacedImagesV { lines: Seq::empty(), ..st };
                let found = extract_sheet_images(&mut archive, indices[s]);
                let ghost simgs = named_bytes_view(found@);
                assert(simgs == sheet_images(data@, shs[s as int]));
                let mut lines: Vec<Vec<char>> = Vec::new();
                let mut k: usize = 0;
                assert(simgs.subrange(0, 0) =~= Seq::<(Seq<char>, Seq<u8>)>::empty());
                assert(lines.deep_view() =~= Seq::<Seq<char>>::empty());
                while k < found.len()
                    invariant
                        k <= found.len(),
                        simgs == named_bytes_view(found@),
                        mx == options.max_total_image_bytes as nat,
                        keep == options.extract_images,
                        total_len(images@) <= total,
                        total_len(images@) <= options.max_total_image_bytes,
                        !options.extract_images ==> images@.len() == 0,
                        warnings@.len() >= w0.len(),
                        warnings@.subrange(0, w0.len() as int) == w0,
                        place_images(st0, mx, keep, simgs.subrange(0, k as int)).lines
                            == lines.deep_view(),
                        place_images(st0, mx, keep, simgs.subrange(0, k as int)).total
                            == total as nat,
                        place_images(st0, mx, keep, simgs.subrange(0, k as int)).infos == imgs_view(
                            infos@,
                        ),
                        place_images(st0, mx, keep, simgs.subrange(0, k as int)).bytes
                            == named_bytes_view(bytes@),
                        place_images(st0, mx, keep, simgs.subrange(0, k as int)).files
                            == named_bytes_view(images@),
                        warns_view(warnings@) == warns_view(w0) + place_images(
                            st0,
                            mx,
                            keep,
                            simgs.subrange(0, k as int),
                        ).warns,
                    decreases found.len() - k,
                {
                    assert(simgs.subrange(0, k + 1).drop_last() =~= simgs.subrange(0, k as int));
                    let ghost cur = place_images(st0, mx, keep, simgs.subrange(0, k as int));
                    assert(simgs.subrange(0, k + 1).last() == simgs[k as int]);
                    let name = &found[k].0;
                    let img = &found[k].1;
                    let fits = img.len() <= usize::MAX - total;
                    total = if fits {
                        total + img.len()
                    } else {
                        usize::MAX
                    };
                    if fits && total <= options.max_total_image_bytes {
                        let ph = placeholder(infos.len());
                        let nc = chars_of(name.as_str());
                        let line = build_image_md(ph.as_slice(), nc.as_slice());
                        let ghost lb = lines.deep_view();
                        proof {
                            lemma_deep_view_chars(line);
                        }
                        lines.push(line);
                        assert(lines.deep_view() =~= lb.push(line@));
                        let ghost ib = infos@;
                        infos.push(
                            ImageInfo {
                                placeholder: string_from_chars(ph.as_slice()),
                                original_alt: String::new(),
                                filename: name.clone(),
                                bytes_key: name.clone(),
                            },
                        );
                        assert(imgs_view(infos@) =~= imgs_view(ib).push(
                            (placeholder_name(ib.len()), Seq::empty(), name@, name@),
                        ));
                        if options.extract_images {
                            let ghost before = images@;
                            let copy = crate::text::bytes_slice(img.as_slice(), 0, img.len());
                            assert(img@.subrange(0, img.len() as int) =~= img@);
                            images.push((name.clone(), copy));
                            assert(images@.drop_last() =~= before);
                            assert(total_len(images@) == total_len(before) + img@.len());
                            assert(named_bytes_view(images@) =~= named_bytes_view(before).push(
                                (name@, img@),
                            ));
                        }
                        let copy = crate::text::bytes_slice(img.as_slice(), 0, img.len());
                        assert(img@.subrange(0, img.len() as int) =~= img@);
                        let ghost bb = bytes@;
                        bytes.push((name.clone(), copy));
                        assert(named_bytes_view(bytes@) =~= named_bytes_view(bb).push(
                            (name@, img@),
                        ));
                    } else {
                        let mut m: Vec<char> = Vec::new();
                        push_str(&mut m, "total image bytes exceeded limit (");
                        let d = decimal_chars(options.max_total_image_bytes);
                        push_all(&mut m, d.as_slice());
                        push_str(&mut m, ")");
                        assert(m@ =~= image_budget_message(mx));
                        let ghost wb = warnings@;
                        warnings.push(
                            warning(WarningCode::ResourceLimitReached, m, Some(name.clone())),
                        );
                        assert(warnings@.subrange(0, w0.len() as int) =~= wb.subrange(
                            0,
                            w0.len() as int,
                        ));
                        assert(warns_view(warnings@) =~= warns_view(wb).push(
                            (WarningCode::ResourceLimitReached, image_budget_message(mx), Some(name@)),
                        ));
                    }
                    k = k + 1;
                }
                assert(simgs.subrange(0, found.len() as int) =~= simgs);
                let ghost st2 = place_images(st0, mx, keep, simgs);
                let mut sec = slice_chars(sections[s].as_slice(), 0, sections[s].len());
                assert(sections@[s as int]@.subrange(0, sections@[s as int]@.len() as int) =~= sections@[s as int]@);
                assert(secs[s as int] == sections@[s as int]@);
                assert(st2.lines == lines.deep_view());
                if lines.len() > 0 {
                    sec.push('\n');
                    let nl: Vec<char> = vec!['\n'];
                    assert(nl@ =~= "\n"@);
                    push_joined(&mut sec, lines.as_slice(), nl.as_slice());
                    assert(sec@ =~= secs[s as int] + "\n"@ + join_with(st2.lines, "\n"@));
                } else {
                    assert(st2.lines.len() == 0);
                }
                assert(sec@ =~= with_image_lines(secs[s as int], st2.lines));
                let ghost ob = out.deep_view();
                proof {
                    lemma_deep_view_chars(sec);
                }
                out.push(sec);
                assert(out.deep_view() =~= ob.push(with_image_lines(secs[s as int], st2.lines)));
                s = s + 1;
            }
            out
        } else {
            sections
        };
        let mut md: Vec<char> = Vec::new();
        let nl: Vec<char> = vec!['\n'];
        push_joined(&mut md, final_sections.as_slice(), nl.as_slice());
        proof {
            reveal_strlit("\n");
            assert(nl@ =~= "\n"@);
            assert(md@ =~= join_with(final_sections.deep_view(), "\n"@));
        }
        assert(warns_view(warnings@).subrange(0, w0.len() as int) =~= warns_view(w0)) by {
            assert forall|j: int| 0 <= j < w0.len() implies warns_view(warnings@)[j]
                == warns_view(w0)[j] by {
                assert(warnings@.subrange(0, w0.len() as int)[j] == w0[j]);
            }
        }
        let result = ConversionResult {
            markdown: string_from_chars(md.as_slice()),
            plain_text: String::new(),
            title: None,
            images,
            warnings,
        };
        Ok((result, PendingImageResolution { infos, bytes }))
    }

    /// Converts a workbook, describing its images with `describer` when
    /// one is given (see [`resolve_image_placeholders`]).
    pub fn convert_with_describer<D: ImageDescriber>(
        &self,
        data: &[u8],
        options: &ConversionOptions,
        describer: Option<&D>,
    ) -> (r: Result<ConversionResult, ConvertError>)
        ensures
            r is Ok <==> xlsx_succeeds(
                data@,
                options.max_uncompressed_zip_bytes,
                options.extract_images || describer is Some,
            ),
            xlsx_budget_error(data@, options.max_uncompressed_zip_bytes) matches Some(e) ==> (r matches Err(
                e2,
            ) && e2 == e),
            xlsx_budget_error(data@, options.max_uncompressed_zip_bytes) is None && !workbook_opens(
                data@,
            ) ==> (r matches Err(e) && e is SpreadsheetError),
            r matches Ok(res) ==> (!options.extract_images && describer is None ==> res.markdown@
                == workbook_markdown(data@)),
            r matches Ok(res) ==> (!options.extract_images && describer is None ==> warns_view(
                res.warnings@,
            ) == workbook_warnings(data@, workbook_sheet_names(data@))),
            r matches Ok(res) ==> (options.extract_images || describer is Some ==> named_bytes_view(
                res.images@,
            ) == workbook_images(
                data@,
                options.max_total_image_bytes as nat,
                options.extract_images,
            ).0.files),
            r matches Ok(res) ==> (options.extract_images && describer is None ==> {
                let placed = workbook_images(data@, options.max_total_image_bytes as nat, true);
                &&& res.markdown@ == resolve_without_describer(
                    join_with(placed.1, "\n"@),
                    placed.0.infos,
                )
                &&& warns_view(res.warnings@) == workbook_warnings(
                    data@,
                    workbook_sheet_names(data@),
                ) + placed.0.warns
            }),
            r matches Ok(res) ==> total_len(res.images@) <= options.max_total_image_bytes,
            r matches Ok(res) ==> (!options.extract_images ==> res.images@.len() == 0),
    {
        let need = options.extract_images || describer.is_some();
        let (mut result, pending) = match self.convert_inner(data, options, need) {
            Ok(p) => p,
            Err(e) => {
                return Err(e);
            },
        };
        resolve_image_placeholders(
            &mut result.markdown,
            &mut result.plain_text,
            &pending.infos,
            &pending.bytes,
            describer,
            &mut result.warnings,
        );
        Ok(result)
    }
}

/// What converting a workbook without a describer gives (see
/// [`XlsxConverter::convert_with_describer`]).
pub open spec fn xlsx_convert_outcome(
    data: Seq<u8>,
    options: ConversionOptions,
    r: Result<ConversionResult, ConvertError>,
) -> bool {
    &&& r is Ok <==> xlsx_succeeds(
        data,
        options.max_uncompressed_zip_bytes,
        options.extract_images,
    )
    &&& xlsx_budget_error(data, options.max_uncompressed_zip_bytes) matches Some(e) ==> (r matches Err(
        e2,
    ) && e2 == e)
    &&& xlsx_budget_error(data, options.max_uncompressed_zip_bytes) is None && !workbook_opens(
        data,
    ) ==> (r matches Err(e) && e is SpreadsheetError)
    &&& r matches Ok(res) ==> (!options.extract_images ==> res.markdown@ == workbook_markdown(
        data,
    ))
    &&& r matches Ok(res) ==> (!options.extract_images ==> warns_view(res.warnings@)
        == workbook_warnings(data, workbook_sheet_names(data)))
    &&& r matches Ok(res) ==> (options.extract_images ==> {
        let placed = workbook_images(data, options.max_total_image_bytes as nat, true);
        &&& res.markdown@ == resolve_without_describer(join_with(placed.1, "\n"@), placed.0.infos)
        &&& named_bytes_view(res.images@) == placed.0.files
        &&& warns_view(res.warnings@) == workbook_warnings(data, workbook_sheet_names(data))
            + placed.0.warns
    })
    &&& r matches Ok(res) ==> total_len(res.images@) <= options.max_total_image_bytes
    &&& r matches Ok(res) ==> (!options.extract_images ==> res.images@.len() == 0)
}

impl Converter for XlsxConverter {
    open spec fn extensions(&self) -> Seq<&'static str> {
        seq!["xlsx", "xls"]
    }

    fn supported_extensions(&self) -> (r: Vec<&'static str>) {
        let v = vec!["xlsx", "xls"];
        assert(v@ =~= seq!["xlsx", "xls"]);
        v
    }

    fn convert(&self, data: &[u8], options: &ConversionOptions) -> (r: Result<
        ConversionResult,
        ConvertError,
    >)
        ensures
            xlsx_convert_outcome(data@, *options, r),
    {
        self.convert_with_describer::<NoDescriber>(data, options, None)
    }
}

} // verus!
