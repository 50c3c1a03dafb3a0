//! Reading parts of a ZIP-based document, with the errors of a conversion,
//! and the budget on their total uncompressed size.

use std::io::Cursor;

use vstd::prelude::*;

use crate::error::ConvertError;
use crate::zip_io::{
    archive_len, archive_source, entry_size, lossy_utf8, read_entry, utf8_lossy, utf8_to_string,
    zip_entry_read, zip_entry_size, ZipFailure,
};

verus! {

broadcast use vstd::string::group_string_axioms;

/// The error a failed entry read becomes.
pub open spec fn failure_error(f: ZipFailure) -> ConvertError {
    match f {
        ZipFailure::Zip => ConvertError::ZipError,
        ZipFailure::Io => ConvertError::Io,
    }
}

/// Whether `r` is the conversion-level outcome of reading raw bytes from
/// the archive in `data`: the entry's bytes, `None` when it is missing, or
/// the read failure.
pub open spec fn bytes_outcome(
    data: Seq<u8>,
    name: Seq<char>,
    r: Result<Option<Vec<u8>>, ConvertError>,
) -> bool {
    match zip_entry_read(data, name) {
        Ok(Some(b)) => r matches Ok(Some(v)) && v@ == b,
        Ok(None) => r matches Ok(None),
        Err(f) => r matches Err(e) && e == failure_error(f),
    }
}

/// A text part of the package: its text, `None` when it is missing, or
/// the error reading it gives (see [`read_zip_text`]).
pub open spec fn part_text(data: Seq<u8>, name: Seq<char>) -> Result<Option<Seq<char>>, ConvertError> {
    match zip_entry_read(data, name) {
        Ok(Some(b)) => if vstd::utf8::valid_utf8(b) {
            Ok(Some(vstd::utf8::decode_utf8(b)))
        } else {
            Err(ConvertError::Io)
        },
        Ok(None) => Ok(None),
        Err(f) => Err(failure_error(f)),
    }
}

/// Whether `r` is the outcome of reading a UTF-8 text part: the decoded
/// text, `None` when it is missing, an I/O error when the bytes are not
/// UTF-8, or the read failure.
pub open spec fn text_outcome(
    data: Seq<u8>,
    name: Seq<char>,
    r: Result<Option<String>, ConvertError>,
) -> bool {
    match zip_entry_read(data, name) {
        Ok(Some(b)) => if vstd::utf8::valid_utf8(b) {
            r matches Ok(Some(s)) && s@ == vstd::utf8::decode_utf8(b)
        } else {
            r matches Err(e) && e == ConvertError::Io
        },
        Ok(None) => r matches Ok(None),
        Err(f) => r matches Err(e) && e == failure_error(f),
    }
}

/// Maps a read failure to the conversion error.
fn failure_to_error(f: ZipFailure) -> (e: ConvertError)
    ensures
        e == failure_error(f),
{
    match f {
        ZipFailure::Zip => ConvertError::ZipError,
        ZipFailure::Io => ConvertError::Io,
    }
}

/// Reads an entry's raw bytes; `Ok(None)` when there is no such entry.
pub fn read_zip_bytes(archive: &mut zip::ZipArchive<Cursor<&[u8]>>, path: &str) -> (r: Result<
    Option<Vec<u8>>,
    ConvertError,
>)
    ensures
        archive_source(*final(archive)) == archive_source(*old(archive)),
        bytes_outcome(archive_source(*old(archive)), path@, r),
{
    match read_entry(archive, path) {
        Ok(Some(b)) => Ok(Some(b)),
        Ok(None) => Ok(None),
        Err(f) => Err(failure_to_error(f)),
    }
}

/// Reads a UTF-8 text entry; `Ok(None)` when there is no such entry.
pub fn read_zip_text(archive: &mut zip::ZipArchive<Cursor<&[u8]>>, path: &str) -> (r: Result<
    Option<String>,
    ConvertError,
>)
    ensures
        archive_source(*final(archive)) == archive_source(*old(archive)),
        text_outcome(archive_source(*old(archive)), path@, r),
{
    match read_entry(archive, path) {
        Ok(Some(b)) => match utf8_to_string(b.as_slice()) {
            Some(s) => Ok(Some(s)),
            None => Err(ConvertError::Io),
        },
        Ok(None) => Ok(None),
        Err(f) => Err(failure_to_error(f)),
    }
}

/// Reads a text entry, replacing invalid UTF-8 sequences with U+FFFD;
/// `Ok(None)` when there is no such entry.
pub fn read_zip_text_lossy(archive: &mut zip::ZipArchive<Cursor<&[u8]>>, path: &str) -> (r:
    Result<Option<String>, ConvertError>)
    ensures
        archive_source(*final(archive)) == archive_source(*old(archive)),
        match zip_entry_read(archive_source(*old(archive)), path@) {
            Ok(Some(b)) => r matches Ok(Some(s)) && s@ == lossy_utf8(b),
            Ok(None) => r matches Ok(None),
            Err(f) => r matches Err(e) && e == failure_error(f),
        },
{
    match read_entry(archive, path) {
        Ok(Some(b)) => Ok(Some(utf8_lossy(b.as_slice()))),
        Ok(None) => Ok(None),
        Err(f) => Err(failure_to_error(f)),
    }
}

/// The declared uncompressed sizes of the first `n` entries, added up and
/// saturated at `u64::MAX`; `None` when one of them cannot be read.
pub open spec fn declared_total(data: Seq<u8>, n: nat) -> Option<u64>
    decreases n,
{
    if n == 0 {
        Some(0)
    } else {
        match (declared_total(data, (n - 1) as nat), zip_entry_size(data, (n - 1) as nat)) {
            (Some(t), Some(s)) => Some(
                if t + s > u64::MAX {
                    u64::MAX
                } else {
                    (t + s) as u64
                },
            ),
            _ => None,
        }
    }
}

/// The outcome of checking an archive of `n` entries against `limit`: a ZIP
/// error when a size cannot be read, `InputTooLarge` (with the total,
/// saturated at `usize::MAX`) when the total exceeds the limit.
pub open spec fn budget_outcome(data: Seq<u8>, n: nat, limit: usize) -> Result<(), ConvertError> {
    match declared_total(data, n) {
        None => Err(ConvertError::ZipError),
        Some(t) => if t > limit {
            Err(
                ConvertError::InputTooLarge {
                    size: if t > usize::MAX {
                        usize::MAX
                    } else {
                        t as usize
                    },
                    limit,
                },
            )
        } else {
            Ok(())
        },
    }
}

/// Once one size cannot be read, no longer prefix has a total.
pub proof fn lemma_declared_total_none(data: Seq<u8>, k: nat, n: nat)
    requires
        declared_total(data, k) is None,
        k <= n,
    ensures
        declared_total(data, n) is None,
    decreases n - k,
{
    if k < n {
        lemma_declared_total_none(data, k, (n - 1) as nat);
    }
}

/// Rejects an archive whose entries declare more than `limit` uncompressed
/// bytes in total (see [`budget_outcome`]).
pub fn validate_zip_budget(archive: &mut zip::ZipArchive<Cursor<&[u8]>>, limit: usize) -> (r:
    Result<(), ConvertError>)
    ensures
        archive_source(*final(archive)) == archive_source(*old(archive)),
        crate::zip_io::zip_entry_names(archive_source(*old(archive))) matches Some(names)
            ==> r == budget_outcome(archive_source(*old(archive)), names.len(), limit),
{
    let n = archive_len(archive);
    let ghost data = archive_source(*archive);
    let mut total: u64 = 0;
    let mut i: usize = 0;
    while i < n
        invariant
            i <= n,
            archive_source(*archive) == data,
            data == archive_source(*old(archive)),
            crate::zip_io::zip_entry_names(data) matches Some(names) ==> n == names.len(),
            declared_total(data, i as nat) == Some(total),
        decreases n - i,
    {
        match entry_size(archive, i) {
            Some(s) => {
                total = total.saturating_add(s);
            },
            None => {
                proof {
                    if let Some(names) = crate::zip_io::zip_entry_names(data) {
                        lemma_declared_total_none(data, (i + 1) as nat, names.len());
                    }
                }
                return Err(ConvertError::ZipError);
            },
        }
        i = i + 1;
    }
    if total > limit as u64 {
        let size: usize = if total > usize::MAX as u64 {
            usize::MAX
        } else {
            total as usize
        };
        Err(ConvertError::InputTooLarge { size, limit })
    } else {
        Ok(())
    }
}

} // verus!
