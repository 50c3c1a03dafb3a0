//! Reading CSV records through the `csv` crate.

use vstd::prelude::*;

use crate::text::{chars_of, lemma_deep_view_chars};

verus! {

broadcast use vstd::string::group_string_axioms;

/// The records the `csv` crate reads from `text` (every row a record, rows
/// of any length), up to its first error, and that error's message.
pub uninterp spec fn csv_read(text: Seq<char>) -> (Seq<Seq<Seq<char>>>, Option<Seq<char>>);

/// The view of read records.
pub open spec fn records_view(rows: Seq<Vec<String>>) -> Seq<Seq<Seq<char>>> {
    rows.map_values(|row: Vec<String>| row@.map_values(|s: String| s@))
}

/// The view of an optional message.
pub open spec fn message_view(m: Option<String>) -> Option<Seq<char>> {
    match m {
        Some(s) => Some(s@),
        None => None,
    }
}

/// Reads CSV records (`csv::ReaderBuilder` without headers, flexible;
/// `StringRecord`s as strings) until the end or the first error.
#[verifier::external_body]
pub fn read_csv_records(text: &str) -> (r: (Vec<Vec<String>>, Option<String>))
    ensures
        (records_view(r.0@), message_view(r.1)) == csv_read(text@),
{
    let mut reader = ::csv::ReaderBuilder::new().has_headers(false).flexible(true).from_reader(
        text.as_bytes(),
    );
    let mut rows = Vec::new();
    for rec in reader.records() {
        match rec {
            Ok(r) => rows.push(r.iter().map(|s| s.to_string()).collect()),
            Err(e) => return (rows, Some(e.to_string())),
        }
    }
    (rows, None)
}

/// The cells of a record as character vectors.
pub fn record_chars(row: &Vec<String>) -> (v: Vec<Vec<char>>)
    ensures
        v.deep_view() == row@.map_values(|s: String| s@),
{
    let mut v: Vec<Vec<char>> = Vec::new();
    let mut i: usize = 0;
    while i < row.len()
        invariant
            i <= row.len(),
            v.deep_view() == row@.subrange(0, i as int).map_values(|s: String| s@),
        decreases row.len() - i,
    {
        let c = chars_of(row[i].as_str());
        proof {
            lemma_deep_view_chars(c);
        }
        let ghost before = v.deep_view();
        v.push(c);
        assert(v.deep_view() =~= before.push(c@));
        i = i + 1;
        assert(v.deep_view() =~= row@.subrange(0, i as int).map_values(|s: String| s@));
    }
    assert(row@.subrange(0, row.len() as int) =~= row@);
    v
}

/// Records `from..` as character vectors.
pub fn records_chars(rows: &Vec<Vec<String>>, from: usize) -> (v: Vec<Vec<Vec<char>>>)
    requires
        from <= rows.len(),
    ensures
        v.deep_view() == records_view(rows@).subrange(from as int, rows.len() as int),
{
    let mut v: Vec<Vec<Vec<char>>> = Vec::new();
    let mut i: usize = from;
    while i < rows.len()
        invariant
            from <= i <= rows.len(),
            v.deep_view() == records_view(rows@).subrange(from as int, i as int),
        decreases rows.len() - i,
    {
        let r = record_chars(&rows[i]);
        let ghost before = v.deep_view();
        v.push(r);
        assert(v.deep_view() =~= before.push(r.deep_view()));
        i = i + 1;
        assert(v.deep_view() =~= records_view(rows@).subrange(from as int, i as int));
    }
    v
}

} // verus!
