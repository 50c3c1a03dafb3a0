//! Access to ZIP containers (OOXML packages) through the `zip` crate, and
//! UTF-8 decoding of their parts.
//!
//! An archive is opened once from the document bytes; the specifications
//! speak of the bytes it was opened from, so every read is tied to the input.

use std::io::Cursor;
use std::io::Read;

use vstd::prelude::*;

verus! {

/// `std::io::Cursor`, used to read an archive from memory.
#[verifier::external_type_specification]
#[verifier::external_body]
#[verifier::reject_recursive_types(T)]
pub struct ExCursor<T>(Cursor<T>);

/// The `zip` crate's archive reader.
#[verifier::external_type_specification]
#[verifier::external_body]
#[verifier::reject_recursive_types(R)]
pub struct ExZipArchive<R>(zip::ZipArchive<R>);

/// Why reading an archive entry failed.
#[derive(Debug, Clone, Copy, PartialEq, Eq)]
pub enum ZipFailure {
    /// The archive structure is invalid or unsupported.
    Zip,
    /// Decompressing the entry failed.
    Io,
}

/// The entry names of the ZIP archive encoded in `data`, in central-directory
/// order, or `None` when `data` is not a readable ZIP archive.
pub uninterp spec fn zip_entry_names(data: Seq<u8>) -> Option<Seq<Seq<char>>>;

/// The outcome of reading the entry called `name` from the archive in `data`:
/// its decompressed bytes, `None` when there is no such entry, or a failure.
pub uninterp spec fn zip_entry_read(data: Seq<u8>, name: Seq<char>) -> ReadView;

/// The outcome of reading an archive entry.
pub type ZipRead = Result<Option<Vec<u8>>, ZipFailure>;

/// The specification-level outcome of reading an archive entry.
pub type ReadView = Result<Option<Seq<u8>>, ZipFailure>;

/// The view of a read outcome.
pub open spec fn read_view(r: ZipRead) -> ReadView {
    match r {
        Ok(Some(b)) => Ok(Some(b@)),
        Ok(None) => Ok(None),
        Err(f) => Err(f),
    }
}

/// The declared uncompressed size of the entry at `index` of the archive in
/// `data`, or `None` when that entry cannot be accessed.
pub uninterp spec fn zip_entry_size(data: Seq<u8>, index: nat) -> Option<u64>;

/// The bytes an archive reader was opened from.
pub uninterp spec fn archive_source(a: zip::ZipArchive<Cursor<&[u8]>>) -> Seq<u8>;

/// Opens the archive in `data` (`zip::ZipArchive::new`): `Some` exactly when
/// the data is a readable ZIP archive.
#[verifier::external_body]
pub fn open_archive<'a>(data: &'a [u8]) -> (r: Option<zip::ZipArchive<Cursor<&'a [u8]>>>)
    ensures
        r is Some <==> zip_entry_names(data@) is Some,
        r matches Some(a) ==> archive_source(a) == data@,
{
    zip::ZipArchive::new(Cursor::new(data)).ok()
}

/// The number of entries of an open archive (`ZipArchive::len`).
#[verifier::external_body]
pub fn archive_len(a: &zip::ZipArchive<Cursor<&[u8]>>) -> (n: usize)
    ensures
        zip_entry_names(archive_source(*a)) matches Some(names) ==> n == names.len(),
{
    a.len()
}

/// The entry names of an open archive in central-directory order
/// (`ZipArchive::file_names`; names that do not decode become empty).
#[verifier::external_body]
pub fn archive_names(a: &zip::ZipArchive<Cursor<&[u8]>>) -> (v: Vec<String>)
    ensures
        zip_entry_names(archive_source(*a)) matches Some(names) ==> v@.map_values(
            |s: String| s@,
        ) == names,
{
    a.file_names().map(|n| n.map(|n| n.into_owned()).unwrap_or_default()).collect()
}

/// The declared uncompressed size of the entry at `index`
/// (`ZipArchive::by_index_raw` and `ZipFile::size`).
#[verifier::external_body]
pub fn entry_size(a: &mut zip::ZipArchive<Cursor<&[u8]>>, index: usize) -> (r: Option<u64>)
    ensures
        archive_source(*final(a)) == archive_source(*old(a)),
        r == zip_entry_size(archive_source(*old(a)), index as nat),
{
    a.by_index_raw(index).ok().map(|f| f.size())
}

/// Reads and decompresses the entry called `name` (`ZipArchive::by_name`
/// followed by `Read::read_to_end`).
#[verifier::external_body]
pub fn read_entry(a: &mut zip::ZipArchive<Cursor<&[u8]>>, name: &str) -> (r: ZipRead)
    ensures
        archive_source(*final(a)) == archive_source(*old(a)),
        read_view(r) == zip_entry_read(archive_source(*old(a)), name@),
{
    let mut file = match a.by_name(name) {
        Ok(f) => f,
        Err(zip::result::ZipError::FileNotFound) => return Ok(None),
        Err(_) => return Err(ZipFailure::Zip),
    };
    let mut buf = Vec::new();
    file.read_to_end(&mut buf).map(|_| Some(buf)).map_err(|_| ZipFailure::Io)
}

/// The entry names of the ZIP archive in `data`, or `None` when `data` is not
/// a readable archive.
pub fn entry_names(data: &[u8]) -> (r: Option<Vec<String>>)
    ensures
        r is Some <==> zip_entry_names(data@) is Some,
        r matches Some(v) ==> zip_entry_names(data@) == Some(v@.map_values(|s: String| s@)),
{
    match open_archive(data) {
        Some(a) => Some(archive_names(&a)),
        None => None,
    }
}

/// Decodes UTF-8 (`std::str::from_utf8`): `Some` exactly for valid UTF-8.
#[verifier::external_body]
pub fn utf8_to_string(b: &[u8]) -> (r: Option<String>)
    ensures
        r is Some <==> vstd::utf8::valid_utf8(b@),
        r matches Some(s) ==> s@ == vstd::utf8::decode_utf8(b@),
{
    std::str::from_utf8(b).ok().map(|s| s.to_owned())
}

/// The message of `std::str::Utf8Error` for invalid UTF-8 `b`.
pub uninterp spec fn utf8_error_message(b: Seq<u8>) -> Seq<char>;

/// Decodes UTF-8 (`std::str::from_utf8`), giving the error's message for
/// invalid input.
#[verifier::external_body]
pub fn utf8_or_message(b: &[u8]) -> (r: Result<String, String>)
    ensures
        r is Ok <==> vstd::utf8::valid_utf8(b@),
        r matches Ok(s) ==> s@ == vstd::utf8::decode_utf8(b@),
        r matches Err(m) ==> m@ == utf8_error_message(b@),
{
    std::str::from_utf8(b).map(|s| s.to_owned()).map_err(|e| e.to_string())
}

/// The lossy UTF-8 decoding of `b`, invalid sequences replaced by U+FFFD.
pub uninterp spec fn lossy_utf8(b: Seq<u8>) -> Seq<char>;

/// Decodes UTF-8, replacing invalid sequences (`String::from_utf8_lossy`).
#[verifier::external_body]
pub fn utf8_lossy(b: &[u8]) -> (s: String)
    ensures
        s@ == lossy_utf8(b@),
        vstd::utf8::valid_utf8(b@) ==> s@ == vstd::utf8::decode_utf8(b@),
{
    String::from_utf8_lossy(b).into_owned()
}

} // verus!
