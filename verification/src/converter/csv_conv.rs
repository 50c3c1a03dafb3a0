//! CSV files (strict UTF-8) as a Markdown table.

use vstd::prelude::*;

use crate::converter::{strip_bom, strip_bom_spec, ConversionOptions, ConversionResult, Converter};
use crate::csv_io::{csv_read, read_csv_records, record_chars, records_chars};
use crate::error::{is_malformed, malformed, ConvertError};
use crate::markdown::{build_table, md_table};
use crate::text::{chars_of, string_from_chars};
use crate::zip_io::utf8_to_string;

verus! {

broadcast use vstd::string::group_string_axioms;

/// Converts CSV files to Markdown tables.
pub struct CsvConverter;

/// The outcome of converting CSV bytes that must be UTF-8: invalid UTF-8
/// is an error; a read error in the first record or a later one is a
/// malformed-document error; no records give empty Markdown; otherwise a
/// table whose header is the first record.
pub open spec fn strict_csv_outcome(data: Seq<u8>, r: Result<ConversionResult, ConvertError>) -> bool {
    if !vstd::utf8::valid_utf8(data) {
        r matches Err(e) && e == ConvertError::Utf8Error
    } else {
        let (recs, err) = csv_read(strip_bom_spec(vstd::utf8::decode_utf8(data)));
        match err {
            Some(m) => if recs.len() == 0 {
                r matches Err(e) && is_malformed(e, "failed to parse CSV header: "@ + m)
            } else {
                r matches Err(e) && is_malformed(e, "failed to parse CSV row: "@ + m)
            },
            None => r matches Ok(res) && res.plain_text@.len() == 0 && res.warnings@.len() == 0
                && res.markdown@ == (if recs.len() == 0 {
                Seq::empty()
            } else {
                md_table(recs[0], recs.drop_first())
            }),
        }
    }
}

impl CsvConverter {
    /// Converts UTF-8 CSV bytes (see [`strict_csv_outcome`]).
    pub fn convert_csv(&self, data: &[u8]) -> (r: Result<ConversionResult, ConvertError>)
        ensures
            strict_csv_outcome(data@, r),
    {
        let text = match utf8_to_string(data) {
            Some(t) => t,
            None => {
                return Err(ConvertError::Utf8Error);
            },
        };
        let c = chars_of(text.as_str());
        let s = strip_bom(c.as_slice());
        let stripped = string_from_chars(s.as_slice());
        let (records, err) = read_csv_records(stripped.as_str());
        match err {
            Some(m) => {
                if records.len() == 0 {
                    return Err(malformed("failed to parse CSV header: ", m.as_str()));
                } else {
                    return Err(malformed("failed to parse CSV row: ", m.as_str()));
                }
            },
            None => {},
        }
        let mut result = ConversionResult::default();
        if records.len() == 0 {
            assert(result.markdown@ =~= Seq::<char>::empty());
            return Ok(result);
        }
        let header = record_chars(&records[0]);
        let rows = records_chars(&records, 1);
        proof {
            let rv = crate::csv_io::records_view(records@);
            assert(rv.subrange(1, records.len() as int) =~= rv.drop_first());
        }
        let md = build_table(header.as_slice(), rows.as_slice());
        result.markdown = string_from_chars(md.as_slice());
        Ok(result)
    }
}

impl Converter for CsvConverter {
    open spec fn extensions(&self) -> Seq<&'static str> {
        seq!["csv"]
    }

    fn supported_extensions(&self) -> (r: Vec<&'static str>) {
        let v = vec!["csv"];
        assert(v@ =~= seq!["csv"]);
        v
    }

    fn convert(&self, data: &[u8], _options: &ConversionOptions) -> (r: Result<
        ConversionResult,
        ConvertError,
    >)
        ensures
            strict_csv_outcome(data@, r),
    {
        self.convert_csv(data)
    }
}

} // verus!
