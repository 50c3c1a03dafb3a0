//! CSV files as a Markdown table (with a tab-separated plain-text
//! twin); the first record is the header.

use vstd::prelude::*;

use crate::converter::{
    decode_text, decode_text_spec, ConversionOptions, ConversionResult, ConversionWarning,
    Converter,
};
use crate::csv_io::{csv_read, read_csv_records, record_chars, records_chars};
use crate::error::{is_malformed, malformed, ConvertError};
use crate::markdown::{build_table, build_table_plain, md_table, plain_table};
use crate::text::{chars_of, string_from_chars};

verus! {

broadcast use vstd::string::group_string_axioms;

/// Converts CSV files to Markdown tables.
pub struct CsvConverter;

/// The outcome of converting the decoded CSV text `text`: a read error in
/// the first record or a later one is a malformed-document error; no
/// records give an empty result; otherwise a table whose header is the
/// first record, in Markdown and tab-separated plain text.
pub open spec fn csv_outcome(text: Seq<char>, r: Result<ConversionResult, ConvertError>) -> bool {
    let (recs, err) = csv_read(text);
    match err {
        Some(m) => if recs.len() == 0 {
            r matches Err(e) && is_malformed(e, "failed to parse CSV header: "@ + m)
        } else {
            r matches Err(e) && is_malformed(e, "failed to parse CSV row: "@ + m)
        },
        None => if recs.len() == 0 {
            r matches Ok(res) && res.markdown@.len() == 0 && res.plain_text@.len() == 0
                && res.warnings@.len() == 0
        } else {
            r matches Ok(res) && res.markdown@ == md_table(recs[0], recs.drop_first())
                && res.plain_text@ == plain_table(recs[0], recs.drop_first())
        },
    }
}

impl CsvConverter {
    /// Converts CSV bytes decoded with encoding fallback (see
    /// [`csv_outcome`]); a decoding warning is kept with a table.
    pub fn convert_csv(&self, data: &[u8]) -> (r: Result<ConversionResult, ConvertError>)
        ensures
            csv_outcome(decode_text_spec(data@).0, r),
            r matches Ok(res) ==> (res.markdown@.len() > 0 ==> match decode_text_spec(data@).1 {
                Some(w) => res.warnings@.len() == 1 && res.warnings@[0].code == w.0
                    && res.warnings@[0].message@ == w.1 && res.warnings@[0].location is None,
                None => res.warnings@.len() == 0,
            }),
    {
        let (text, w) = decode_text(data);
        let (records, err) = read_csv_records(text.as_str());
        match err {
            Some(m) => {
                if records.len() == 0 {
                    return Err(malformed("failed to parse CSV header: ", m.as_str()));
                } else {
                    return Err(malformed("failed to parse CSV row: ", m.as_str()));
                }
            },
            None => {},
        }
        let mut result = ConversionResult::default();
        if records.len() == 0 {
            return Ok(result);
        }
        let header = record_chars(&records[0]);
        let rows = records_chars(&records, 1);
        proof {
            let rv = crate::csv_io::records_view(records@);
            assert(rv.subrange(1, records.len() as int) =~= rv.drop_first());
        }
        let md = build_table(header.as_slice(), rows.as_slice());
        let plain = build_table_plain(header.as_slice(), rows.as_slice());
        let mut warnings: Vec<ConversionWarning> = Vec::new();
        match w {
            Some(w) => {
                warnings.push(w);
            },
            None => {},
        }
        result.markdown = string_from_chars(md.as_slice());
        result.plain_text = string_from_chars(plain.as_slice());
        result.warnings = warnings;
        Ok(result)
    }
}

impl Converter for CsvConverter {
    open spec fn extensions(&self) -> Seq<&'static str> {
        seq!["csv"]
    }

    fn supported_extensions(&self) -> (r: Vec<&'static str>) {
        let v = vec!["csv"];
        assert(v@ =~= seq!["csv"]);
        v
    }

    fn convert(&self, data: &[u8], _options: &ConversionOptions) -> (r: Result<
        ConversionResult,
        ConvertError,
    >)
        ensures
            csv_outcome(decode_text_spec(data@).0, r),
            r matches Ok(res) ==> (res.markdown@.len() > 0 ==> match decode_text_spec(data@).1 {
                Some(w) => res.warnings@.len() == 1 && res.warnings@[0].code == w.0
                    && res.warnings@[0].message@ == w.1 && res.warnings@[0].location is None,
                None => res.warnings@.len() == 0,
            }),
    {
        self.convert_csv(data)
    }
}

} // verus!
