//! The error type of conversions.

use vstd::prelude::*;

use crate::text::{decimal_chars, push_all, push_str, string_from_chars};

verus! {

broadcast use vstd::string::group_string_axioms;

/// Errors that can occur during document conversion.
#[derive(Debug)]
pub enum ConvertError {
    /// No converter handles the extension.
    UnsupportedFormat { extension: String },
    /// The input exceeds a size limit.
    InputTooLarge { size: usize, limit: usize },
    /// The ZIP container could not be read.
    ZipError,
    /// An XML part could not be parsed.
    XmlError,
    /// A spreadsheet could not be read.
    SpreadsheetError,
    /// Reading data failed.
    Io,
    /// The content is not valid UTF-8.
    Utf8Error,
    /// The document is malformed.
    MalformedDocument { reason: String },
    /// An image description could not be produced.
    ImageDescriptionError { reason: String },
}

/// Whether `e` is a malformed-document error with the given reason.
pub open spec fn is_malformed(e: ConvertError, reason: Seq<char>) -> bool {
    e matches ConvertError::MalformedDocument { reason: r } && r@ == reason
}

/// A malformed-document error whose reason is `prefix` followed by `detail`.
pub fn malformed(prefix: &str, detail: &str) -> (e: ConvertError)
    ensures
        is_malformed(e, prefix@ + detail@),
{
    let mut m: Vec<char> = Vec::new();
    push_str(&mut m, prefix);
    push_str(&mut m, detail);
    ConvertError::MalformedDocument { reason: string_from_chars(m.as_slice()) }
}

/// A malformed-document error with the reason `reason`.
pub fn malformed_because(reason: &str) -> (e: ConvertError)
    ensures
        is_malformed(e, reason@),
{
    let m = crate::text::chars_of(reason);
    ConvertError::MalformedDocument { reason: string_from_chars(m.as_slice()) }
}

impl ConvertError {
    /// The human-readable message of an error.
    pub open spec fn message_spec(&self) -> Seq<char> {
        match self {
            ConvertError::UnsupportedFormat { extension } => "unsupported format: "@ + extension@,
            ConvertError::InputTooLarge { size, limit } => "input too large: "@ + crate::text::decimal(
                *size as nat,
            ) + " bytes exceeds limit of "@ + crate::text::decimal(*limit as nat) + " bytes"@,
            ConvertError::ZipError => "failed to read ZIP archive"@,
            ConvertError::XmlError => "failed to parse XML"@,
            ConvertError::SpreadsheetError => "failed to read spreadsheet"@,
            ConvertError::Io => "I/O error"@,
            ConvertError::Utf8Error => "invalid UTF-8 content"@,
            ConvertError::MalformedDocument { reason } => "malformed document: "@ + reason@,
            ConvertError::ImageDescriptionError { reason } => "image description failed: "@
                + reason@,
        }
    }

    /// The human-readable message of an error (what `Display` shows).
    pub fn message(&self) -> (s: String)
        ensures
            s@ == self.message_spec(),
    {
        let mut v: Vec<char> = Vec::new();
        match self {
            ConvertError::UnsupportedFormat { extension } => {
                push_str(&mut v, "unsupported format: ");
                push_str(&mut v, extension.as_str());
            },
            ConvertError::InputTooLarge { size, limit } => {
                push_str(&mut v, "input too large: ");
                let a = decimal_chars(*size);
                push_all(&mut v, a.as_slice());
                push_str(&mut v, " bytes exceeds limit of ");
                let b = decimal_chars(*limit);
                push_all(&mut v, b.as_slice());
                push_str(&mut v, " bytes");
            },
            ConvertError::ZipError => push_str(&mut v, "failed to read ZIP archive"),
            ConvertError::XmlError => push_str(&mut v, "failed to parse XML"),
            ConvertError::SpreadsheetError => push_str(&mut v, "failed to read spreadsheet"),
            ConvertError::Io => push_str(&mut v, "I/O error"),
            ConvertError::Utf8Error => push_str(&mut v, "invalid UTF-8 content"),
            ConvertError::MalformedDocument { reason } => {
                push_str(&mut v, "malformed document: ");
                push_str(&mut v, reason.as_str());
            },
            ConvertError::ImageDescriptionError { reason } => {
                push_str(&mut v, "image description failed: ");
                push_str(&mut v, reason.as_str());
            },
        }
        proof {
            assert(v@ =~= self.message_spec());
        }
        string_from_chars(v.as_slice())
    }
}

} // verus!
