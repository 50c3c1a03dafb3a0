//! Format detection from magic bytes, a JSON heuristic, file extensions and
//! the entry names of a ZIP container.

use vstd::prelude::*;

use crate::text::{chars_of, eq_str, lower_ascii, to_ascii_lower};
use crate::zip_io;

verus! {

broadcast use vstd::string::group_string_axioms;

// ---------------------------------------------------------------------------
// Specifications
// ---------------------------------------------------------------------------

/// Whether the byte sequence `s` starts with `p`.
pub open spec fn bytes_prefix(s: Seq<u8>, p: Seq<u8>) -> bool {
    p.len() <= s.len() && s.subrange(0, p.len() as int) == p
}

/// The ZIP local-file-header signature `PK\x03\x04`.
pub open spec fn zip_magic() -> Seq<u8> {
    seq![0x50u8, 0x4Bu8, 0x03u8, 0x04u8]
}

/// The PDF signature `%PDF`.
pub open spec fn pdf_magic() -> Seq<u8> {
    seq![0x25u8, 0x50u8, 0x44u8, 0x46u8]
}

/// ASCII whitespace bytes (`u8::is_ascii_whitespace`).
pub open spec fn is_ascii_ws_byte(b: u8) -> bool {
    b == 0x20 || b == 0x09 || b == 0x0A || b == 0x0C || b == 0x0D
}

/// The first byte of `s` that is not ASCII whitespace.
pub open spec fn first_non_ws_byte(s: Seq<u8>) -> Option<u8>
    decreases s.len(),
{
    if s.len() == 0 {
        None
    } else if is_ascii_ws_byte(s[0]) {
        first_non_ws_byte(s.drop_first())
    } else {
        Some(s[0])
    }
}

/// Index of the last occurrence of `c` in `s`, if any.
pub open spec fn last_index_of(s: Seq<char>, c: char) -> Option<int>
    decreases s.len(),
{
    if s.len() == 0 {
        None
    } else if s.last() == c {
        Some(s.len() - 1)
    } else {
        last_index_of(s.drop_last(), c)
    }
}

/// `s` without trailing `/` characters.
pub open spec fn strip_trailing_slashes(s: Seq<char>) -> Seq<char>
    decreases s.len(),
{
    if s.len() > 0 && s.last() == '/' {
        strip_trailing_slashes(s.drop_last())
    } else {
        s
    }
}

/// The last component of a `/`-separated path (`Path::file_name`), absent
/// for an empty path or a final `..` component.
pub open spec fn file_name(path: Seq<char>) -> Option<Seq<char>> {
    let p = strip_trailing_slashes(path);
    let name = match last_index_of(p, '/') {
        Some(i) => p.subrange(i + 1, p.len() as int),
        None => p,
    };
    if name.len() == 0 || name == seq!['.', '.'] {
        None
    } else {
        Some(name)
    }
}

/// The extension of a path (`Path::extension`): the text after the last `.`
/// of the file name, absent when the name has no `.` or its only `.` leads.
pub open spec fn path_extension(path: Seq<char>) -> Option<Seq<char>> {
    match file_name(path) {
        Some(name) => match last_index_of(name, '.') {
            Some(i) => if i == 0 {
                None
            } else {
                Some(name.subrange(i + 1, name.len() as int))
            },
            None => None,
        },
        None => None,
    }
}

/// The format implied by a (lower-cased) file extension.
pub open spec fn format_for_extension(e: Seq<char>) -> Option<&'static str> {
    if e == "docx"@ {
        Some("docx")
    } else if e == "pptx"@ {
        Some("pptx")
    } else if e == "xlsx"@ {
        Some("xlsx")
    } else if e == "xls"@ {
        Some("xls")
    } else if e == "csv"@ {
        Some("csv")
    } else if e == "json"@ {
        Some("json")
    } else if e == "pdf"@ {
        Some("pdf")
    } else if e == "html"@ || e == "htm"@ {
        Some("html")
    } else if e == "xml"@ {
        Some("xml")
    } else if e == "txt"@ || e == "text"@ || e == "log"@ || e == "md"@ || e == "markdown"@ || e
        == "rst"@ || e == "ini"@ || e == "cfg"@ || e == "conf"@ || e == "toml"@ || e == "yaml"@
        || e == "yml"@ {
        Some("txt")
    } else if e == "png"@ || e == "jpg"@ || e == "jpeg"@ || e == "gif"@ || e == "webp"@ || e
        == "bmp"@ || e == "tiff"@ || e == "tif"@ || e == "svg"@ || e == "heic"@ || e == "heif"@
        || e == "avif"@ {
        Some("image")
    } else {
        None
    }
}

/// Format detection by file extension alone (case-insensitive).
pub open spec fn detect_by_extension_spec(path: Seq<char>) -> Option<&'static str> {
    match path_extension(path) {
        Some(e) => format_for_extension(lower_ascii(e)),
        None => None,
    }
}

/// Format detection: magic bytes first (`zip`, `pdf`), then the JSON
/// heuristic (first non-whitespace byte `{` or `[`), then the extension.
pub open spec fn detect_format_spec(path: Seq<char>, header: Seq<u8>) -> Option<&'static str> {
    if header.len() >= 4 && bytes_prefix(header, zip_magic()) {
        Some("zip")
    } else if header.len() >= 4 && bytes_prefix(header, pdf_magic()) {
        Some("pdf")
    } else if first_non_ws_byte(header) == Some(0x7Bu8) || first_non_ws_byte(header) == Some(
        0x5Bu8,
    ) {
        Some("json")
    } else {
        detect_by_extension_spec(path)
    }
}

/// Whether a ZIP entry name marks an OOXML flavour, and which one.
pub open spec fn zip_entry_format(name: Seq<char>) -> Option<&'static str> {
    if crate::text::has_prefix(name, "word/"@) {
        Some("docx")
    } else if crate::text::has_prefix(name, "ppt/"@) {
        Some("pptx")
    } else if crate::text::has_prefix(name, "xl/"@) {
        Some("xlsx")
    } else {
        None
    }
}

/// The OOXML flavour given by the first entry name (in archive order) that
/// starts with `word/`, `ppt/` or `xl/`.
pub open spec fn zip_format_from_names(names: Seq<Seq<char>>) -> Option<&'static str>
    decreases names.len(),
{
    if names.len() == 0 {
        None
    } else if zip_entry_format(names[0]) is Some {
        zip_entry_format(names[0])
    } else {
        zip_format_from_names(names.drop_first())
    }
}

// ---------------------------------------------------------------------------
// Executable functions
// ---------------------------------------------------------------------------

fn bytes_start_with(s: &[u8], p: &[u8]) -> (r: bool)
    ensures
        r == bytes_prefix(s@, p@),
{
    if p.len() > s.len() {
        return false;
    }
    let mut i: usize = 0;
    while i < p.len()
        invariant
            p.len() <= s.len(),
            i <= p.len(),
            forall|k: int| 0 <= k < i ==> s@[k] == p@[k],
        decreases p.len() - i,
    {
        if s[i] != p[i] {
            assert(s@.subrange(0, p.len() as int)[i as int] != p@[i as int]);
            return false;
        }
        i = i + 1;
    }
    assert(s@.subrange(0, p.len() as int) =~= p@);
    true
}

fn first_non_ws(s: &[u8]) -> (r: Option<u8>)
    ensures
        r == first_non_ws_byte(s@),
{
    let mut i: usize = 0;
    assert(s@.subrange(0, s.len() as int) =~= s@);
    while i < s.len()
        invariant
            i <= s.len(),
            first_non_ws_byte(s@.subrange(i as int, s.len() as int)) == first_non_ws_byte(s@),
        decreases s.len() - i,
    {
        let b = s[i];
        assert(s@.subrange(i as int, s.len() as int).drop_first() =~= s@.subrange(
            i + 1,
            s.len() as int,
        ));
        if !(b == 0x20 || b == 0x09 || b == 0x0A || b == 0x0C || b == 0x0D) {
            return Some(b);
        }
        i = i + 1;
    }
    None
}

/// The extension of a path, as characters (see [`path_extension`]).
pub fn extension_of(path: &str) -> (r: Option<Vec<char>>)
    ensures
        r matches Some(v) ==> path_extension(path@) == Some(v@),
        r is None ==> path_extension(path@) is None,
{
    let p = chars_of(path);
    let mut end = p.len();
    assert(p@.subrange(0, p.len() as int) =~= p@);
    while end > 0 && p[end - 1] == '/'
        invariant
            end <= p.len(),
            strip_trailing_slashes(p@.subrange(0, end as int)) == strip_trailing_slashes(p@),
        decreases end,
    {
        assert(p@.subrange(0, end as int).drop_last() =~= p@.subrange(0, end - 1));
        end = end - 1;
    }
    let stripped = crate::text::slice_chars(p.as_slice(), 0, end);
    let name = match crate::text::last_index(stripped.as_slice(), '/') {
        Some(i) => crate::text::slice_chars(stripped.as_slice(), i + 1, stripped.len()),
        None => stripped,
    };
    if name.len() == 0 || (name.len() == 2 && name[0] == '.' && name[1] == '.') {
        proof {
            if name.len() == 2 {
                assert(name@ =~= seq!['.', '.']);
            }
        }
        return None;
    }
    proof {
        assert(!(name@ == seq!['.', '.']));
    }
    match crate::text::last_index(name.as_slice(), '.') {
        Some(i) => {
            if i == 0 {
                None
            } else {
                Some(crate::text::slice_chars(name.as_slice(), i + 1, name.len()))
            }
        },
        None => None,
    }
}

/// The format implied by an already lower-cased extension.
pub fn format_for_ext(e: &[char]) -> (r: Option<&'static str>)
    ensures
        r == format_for_extension(e@),
{
    if eq_str(e, "docx") {
        Some("docx")
    } else if eq_str(e, "pptx") {
        Some("pptx")
    } else if eq_str(e, "xlsx") {
        Some("xlsx")
    } else if eq_str(e, "xls") {
        Some("xls")
    } else if eq_str(e, "csv") {
        Some("csv")
    } else if eq_str(e, "json") {
        Some("json")
    } else if eq_str(e, "pdf") {
        Some("pdf")
    } else if eq_str(e, "html") || eq_str(e, "htm") {
        Some("html")
    } else if eq_str(e, "xml") {
        Some("xml")
    } else if eq_str(e, "txt") || eq_str(e, "text") || eq_str(e, "log") || eq_str(e, "md")
        || eq_str(e, "markdown") || eq_str(e, "rst") || eq_str(e, "ini") || eq_str(e, "cfg")
        || eq_str(e, "conf") || eq_str(e, "toml") || eq_str(e, "yaml") || eq_str(e, "yml") {
        Some("txt")
    } else if eq_str(e, "png") || eq_str(e, "jpg") || eq_str(e, "jpeg") || eq_str(e, "gif")
        || eq_str(e, "webp") || eq_str(e, "bmp") || eq_str(e, "tiff") || eq_str(e, "tif")
        || eq_str(e, "svg") || eq_str(e, "heic") || eq_str(e, "heif") || eq_str(e, "avif") {
        Some("image")
    } else {
        None
    }
}

/// Detect the format by file extension alone.
pub fn detect_by_extension(path: &str) -> (r: Option<&'static str>)
    ensures
        r == detect_by_extension_spec(path@),
{
    match extension_of(path) {
        Some(e) => {
            let lower = to_ascii_lower(e.as_slice());
            format_for_ext(lower.as_slice())
        },
        None => None,
    }
}

/// Detect the document format from a file path and optional header bytes.
///
/// Priority: magic bytes, then the JSON heuristic, then the file extension.
/// For ZIP-based formats the caller should use [`detect_zip_format`] on the
/// full file data.
pub fn detect_format(path: &str, header_bytes: &[u8]) -> (r: Option<&'static str>)
    ensures
        r == detect_format_spec(path@, header_bytes@),
{
    let zip: [u8; 4] = [0x50, 0x4B, 0x03, 0x04];
    let pdf: [u8; 4] = [0x25, 0x50, 0x44, 0x46];
    assert(zip@ =~= zip_magic());
    assert(pdf@ =~= pdf_magic());
    if header_bytes.len() >= 4 {
        if bytes_start_with(header_bytes, zip.as_slice()) {
            return Some("zip");
        }
        if bytes_start_with(header_bytes, pdf.as_slice()) {
            return Some("pdf");
        }
    }
    match first_non_ws(header_bytes) {
        Some(b) => {
            if b == 0x7B || b == 0x5B {
                return Some("json");
            }
        },
        None => {},
    }
    detect_by_extension(path)
}

/// The OOXML flavour given by a list of ZIP entry names (see
/// [`zip_format_from_names`]).
pub fn zip_format_from_entry_names(names: &[String]) -> (r: Option<&'static str>)
    ensures
        r == zip_format_from_names(names@.map_values(|s: String| s@)),
{
    let ghost all = names@.map_values(|s: String| s@);
    let mut i: usize = 0;
    assert(all.subrange(0, all.len() as int) =~= all);
    while i < names.len()
        invariant
            i <= names.len(),
            all == names@.map_values(|s: String| s@),
            zip_format_from_names(all.subrange(i as int, all.len() as int)) == zip_format_from_names(all),
        decreases names.len() - i,
    {
        assert(all.subrange(i as int, all.len() as int).drop_first() =~= all.subrange(
            i + 1,
            all.len() as int,
        ));
        assert(all.subrange(i as int, all.len() as int)[0] == names@[i as int]@);
        let n = chars_of(names[i].as_str());
        if crate::text::starts_with_str(n.as_slice(), "word/") {
            return Some("docx");
        }
        if crate::text::starts_with_str(n.as_slice(), "ppt/") {
            return Some("pptx");
        }
        if crate::text::starts_with_str(n.as_slice(), "xl/") {
            return Some("xlsx");
        }
        i = i + 1;
    }
    None
}

/// Detect the specific format of a ZIP-based file from its internal paths:
/// `docx`, `pptx` or `xlsx`, or `None` when the data is not a readable ZIP
/// archive or no entry marks a known format.
pub fn detect_zip_format(data: &[u8]) -> (r: Option<&'static str>)
    ensures
        zip_io::zip_entry_names(data@) matches Some(names) ==> r == zip_format_from_names(
            names,
        ),
        zip_io::zip_entry_names(data@) is None ==> r is None,
{
    match zip_io::entry_names(data) {
        Some(names) => zip_format_from_entry_names(names.as_slice()),
        None => None,
    }
}


proof fn lemma_extension_rows_0(path: Seq<char>)
    ensures
        (path_extension(path) matches Some(x) && lower_ascii(x) == "docx"@) ==> (detect_by_extension_spec(path) matches Some(f) && f@ == "docx"@),
        (path_extension(path) matches Some(x) && lower_ascii(x) == "pptx"@) ==> (detect_by_extension_spec(path) matches Some(f) && f@ == "pptx"@),
        (path_extension(path) matches Some(x) && lower_ascii(x) == "xlsx"@) ==> (detect_by_extension_spec(path) matches Some(f) && f@ == "xlsx"@),
        (path_extension(path) matches Some(x) && lower_ascii(x) == "xls"@) ==> (detect_by_extension_spec(path) matches Some(f) && f@ == "xls"@),
        (path_extension(path) matches Some(x) && lower_ascii(x) == "csv"@) ==> (detect_by_extension_spec(path) matches Some(f) && f@ == "csv"@),
        (path_extension(path) matches Some(x) && lower_ascii(x) == "json"@) ==> (detect_by_extension_spec(path) matches Some(f) && f@ == "json"@),
        (path_extension(path) matches Some(x) && lower_ascii(x) == "pdf"@) ==> (detect_by_extension_spec(path) matches Some(f) && f@ == "pdf"@),
        (path_extension(path) matches Some(x) && lower_ascii(x) == "html"@) ==> (detect_by_extension_spec(path) matches Some(f) && f@ == "html"@),
        (path_extension(path) matches Some(x) && lower_ascii(x) == "htm"@) ==> (detect_by_extension_spec(path) matches Some(f) && f@ == "html"@),
        (path_extension(path) matches Some(x) && lower_ascii(x) == "xml"@) ==> (detect_by_extension_spec(path) matches Some(f) && f@ == "xml"@),
        (path_extension(path) matches Some(x) && lower_ascii(x) == "txt"@) ==> (detect_by_extension_spec(path) matches Some(f) && f@ == "txt"@),
        (path_extension(path) matches Some(x) && lower_ascii(x) == "text"@) ==> (detect_by_extension_spec(path) matches Some(f) && f@ == "txt"@),
{
    reveal_strlit("csv");
    assert("csv"@.len() == 3);
    reveal_strlit("docx");
    assert("docx"@.len() == 4);
    reveal_strlit("htm");
    assert("htm"@.len() == 3);
    reveal_strlit("html");
    assert("html"@.len() == 4);
    reveal_strlit("json");
    assert("json"@.len() == 4);
    reveal_strlit("pdf");
    assert("pdf"@.len() == 3);
    reveal_strlit("pptx");
    assert("pptx"@.len() == 4);
    reveal_strlit("text");
    assert("text"@.len() == 4);
    reveal_strlit("txt");
    assert("txt"@.len() == 3);
    reveal_strlit("xls");
    assert("xls"@.len() == 3);
    reveal_strlit("xlsx");
    assert("xlsx"@.len() == 4);
    reveal_strlit("xml");
    assert("xml"@.len() == 3);
    assert("pptx"@[0] != "docx"@[0]);
    assert("xlsx"@[0] != "docx"@[0]);
    assert("xlsx"@[0] != "pptx"@[0]);
    assert("csv"@[0] != "xls"@[0]);
    assert("json"@[0] != "docx"@[0]);
    assert("json"@[0] != "pptx"@[0]);
    assert("json"@[0] != "xlsx"@[0]);
    assert("pdf"@[0] != "xls"@[0]);
    assert("pdf"@[0] != "csv"@[0]);
    assert("html"@[0] != "docx"@[0]);
    assert("html"@[0] != "pptx"@[0]);
    assert("html"@[0] != "xlsx"@[0]);
    assert("html"@[0] != "json"@[0]);
    assert("htm"@[0] != "xls"@[0]);
    assert("htm"@[0] != "csv"@[0]);
    assert("htm"@[0] != "pdf"@[0]);
    assert("xml"@[1] != "xls"@[1]);
    assert("xml"@[0] != "csv"@[0]);
    assert("xml"@[0] != "pdf"@[0]);
    assert("xml"@[0] != "htm"@[0]);
    assert("txt"@[0] != "xls"@[0]);
    assert("txt"@[0] != "csv"@[0]);
    assert("txt"@[0] != "pdf"@[0]);
    assert("txt"@[0] != "htm"@[0]);
    assert("txt"@[0] != "xml"@[0]);
    assert("text"@[0] != "docx"@[0]);
    assert("text"@[0] != "pptx"@[0]);
    assert("text"@[0] != "xlsx"@[0]);
    assert("text"@[0] != "json"@[0]);
    assert("text"@[0] != "html"@[0]);
}

proof fn lemma_extension_rows_1(path: Seq<char>)
    ensures
        (path_extension(path) matches Some(x) && lower_ascii(x) == "log"@) ==> (detect_by_extension_spec(path) matches Some(f) && f@ == "txt"@),
        (path_extension(path) matches Some(x) && lower_ascii(x) == "md"@) ==> (detect_by_extension_spec(path) matches Some(f) && f@ == "txt"@),
        (path_extension(path) matches Some(x) && lower_ascii(x) == "markdown"@) ==> (detect_by_extension_spec(path) matches Some(f) && f@ == "txt"@),
        (path_extension(path) matches Some(x) && lower_ascii(x) == "rst"@) ==> (detect_by_extension_spec(path) matches Some(f) && f@ == "txt"@),
        (path_extension(path) matches Some(x) && lower_ascii(x) == "ini"@) ==> (detect_by_extension_spec(path) matches Some(f) && f@ == "txt"@),
        (path_extension(path) matches Some(x) && lower_ascii(x) == "cfg"@) ==> (detect_by_extension_spec(path) matches Some(f) && f@ == "txt"@),
        (path_extension(path) matches Some(x) && lower_ascii(x) == "conf"@) ==> (detect_by_extension_spec(path) matches Some(f) && f@ == "txt"@),
        (path_extension(path) matches Some(x) && lower_ascii(x) == "toml"@) ==> (detect_by_extension_spec(path) matches Some(f) && f@ == "txt"@),
        (path_extension(path) matches Some(x) && lower_ascii(x) == "yaml"@) ==> (detect_by_extension_spec(path) matches Some(f) && f@ == "txt"@),
        (path_extension(path) matches Some(x) && lower_ascii(x) == "yml"@) ==> (detect_by_extension_spec(path) matches Some(f) && f@ == "txt"@),
        (path_extension(path) matches Some(x) && lower_ascii(x) == "png"@) ==> (detect_by_extension_spec(path) matches Some(f) && f@ == "image"@),
        (path_extension(path) matches Some(x) && lower_ascii(x) == "jpg"@) ==> (detect_by_extension_spec(path) matches Some(f) && f@ == "image"@),
{
    reveal_strlit("cfg");
    assert("cfg"@.len() == 3);
    reveal_strlit("conf");
    assert("conf"@.len() == 4);
    reveal_strlit("csv");
    assert("csv"@.len() == 3);
    reveal_strlit("docx");
    assert("docx"@.len() == 4);
    reveal_strlit("htm");
    assert("htm"@.len() == 3);
    reveal_strlit("html");
    assert("html"@.len() == 4);
    reveal_strlit("image");
    assert("image"@.len() == 5);
    reveal_strlit("ini");
    assert("ini"@.len() == 3);
    reveal_strlit("jpg");
    assert("jpg"@.len() == 3);
    reveal_strlit("json");
    assert("json"@.len() == 4);
    reveal_strlit("log");
    assert("log"@.len() == 3);
    reveal_strlit("markdown");
    assert("markdown"@.len() == 8);
    reveal_strlit("md");
    assert("md"@.len() == 2);
    reveal_strlit("pdf");
    assert("pdf"@.len() == 3);
    reveal_strlit("png");
    assert("png"@.len() == 3);
    reveal_strlit("pptx");
    assert("pptx"@.len() == 4);
    reveal_strlit("rst");
    assert("rst"@.len() == 3);
    reveal_strlit("text");
    assert("text"@.len() == 4);
    reveal_strlit("toml");
    assert("toml"@.len() == 4);
    reveal_strlit("txt");
    assert("txt"@.len() == 3);
    reveal_strlit("xls");
    assert("xls"@.len() == 3);
    reveal_strlit("xlsx");
    assert("xlsx"@.len() == 4);
    reveal_strlit("xml");
    assert("xml"@.len() == 3);
    reveal_strlit("yaml");
    assert("yaml"@.len() == 4);
    reveal_strlit("yml");
    assert("yml"@.len() == 3);
    assert("log"@[0] != "xls"@[0]);
    assert("log"@[0] != "csv"@[0]);
    assert("log"@[0] != "pdf"@[0]);
    assert("log"@[0] != "htm"@[0]);
    assert("log"@[0] != "xml"@[0]);
    assert("log"@[0] != "txt"@[0]);
    assert("rst"@[0] != "xls"@[0]);
    assert("rst"@[0] != "csv"@[0]);
    assert("rst"@[0] != "pdf"@[0]);
    assert("rst"@[0] != "htm"@[0]);
    assert("rst"@[0] != "xml"@[0]);
    assert("rst"@[0] != "txt"@[0]);
    assert("rst"@[0] != "log"@[0]);
    assert("ini"@[0] != "xls"@[0]);
    assert("ini"@[0] != "csv"@[0]);
    assert("ini"@[0] != "pdf"@[0]);
    assert("ini"@[0] != "htm"@[0]);
    assert("ini"@[0] != "xml"@[0]);
    assert("ini"@[0] != "txt"@[0]);
    assert("ini"@[0] != "log"@[0]);
    assert("ini"@[0] != "rst"@[0]);
    assert("cfg"@[0] != "xls"@[0]);
    assert("cfg"@[1] != "csv"@[1]);
    assert("cfg"@[0] != "pdf"@[0]);
    assert("cfg"@[0] != "htm"@[0]);
    assert("cfg"@[0] != "xml"@[0]);
    assert("cfg"@[0] != "txt"@[0]);
    assert("cfg"@[0] != "log"@[0]);
    assert("cfg"@[0] != "rst"@[0]);
    assert("cfg"@[0] != "ini"@[0]);
    assert("conf"@[0] != "docx"@[0]);
    assert("conf"@[0] != "pptx"@[0]);
    assert("conf"@[0] != "xlsx"@[0]);
    assert("conf"@[0] != "json"@[0]);
    assert("conf"@[0] != "html"@[0]);
    assert("conf"@[0] != "text"@[0]);
    assert("toml"@[0] != "docx"@[0]);
    assert("toml"@[0] != "pptx"@[0]);
    assert("toml"@[0] != "xlsx"@[0]);
    assert("toml"@[0] != "json"@[0]);
    assert("toml"@[0] != "html"@[0]);
    assert("toml"@[1] != "text"@[1]);
    assert("toml"@[0] != "conf"@[0]);
    assert("yaml"@[0] != "docx"@[0]);
    assert("yaml"@[0] != "pptx"@[0]);
    assert("yaml"@[0] != "xlsx"@[0]);
    assert("yaml"@[0] != "json"@[0]);
    assert("yaml"@[0] != "html"@[0]);
    assert("yaml"@[0] != "text"@[0]);
    assert("yaml"@[0] != "conf"@[0]);
    assert("yaml"@[0] != "toml"@[0]);
    assert("yml"@[0] != "xls"@[0]);
    assert("yml"@[0] != "csv"@[0]);
    assert("yml"@[0] != "pdf"@[0]);
    assert("yml"@[0] != "htm"@[0]);
    assert("yml"@[0] != "xml"@[0]);
    assert("yml"@[0] != "txt"@[0]);
    assert("yml"@[0] != "log"@[0]);
    assert("yml"@[0] != "rst"@[0]);
    assert("yml"@[0] != "ini"@[0]);
    assert("yml"@[0] != "cfg"@[0]);
    assert("png"@[0] != "xls"@[0]);
    assert("png"@[0] != "csv"@[0]);
    assert("png"@[1] != "pdf"@[1]);
    assert("png"@[0] != "htm"@[0]);
    assert("png"@[0] != "xml"@[0]);
    assert("png"@[0] != "txt"@[0]);
    assert("png"@[0] != "log"@[0]);
    assert("png"@[0] != "rst"@[0]);
    assert("png"@[0] != "ini"@[0]);
    assert("png"@[0] != "cfg"@[0]);
    assert("png"@[0] != "yml"@[0]);
    assert("jpg"@[0] != "xls"@[0]);
    assert("jpg"@[0] != "csv"@[0]);
    assert("jpg"@[0] != "pdf"@[0]);
    assert("jpg"@[0] != "htm"@[0]);
    assert("jpg"@[0] != "xml"@[0]);
    assert("jpg"@[0] != "txt"@[0]);
    assert("jpg"@[0] != "log"@[0]);
    assert("jpg"@[0] != "rst"@[0]);
    assert("jpg"@[0] != "ini"@[0]);
    assert("jpg"@[0] != "cfg"@[0]);
    assert("jpg"@[0] != "yml"@[0]);
    assert("jpg"@[0] != "png"@[0]);
}

proof fn lemma_extension_rows_2(path: Seq<char>)
    ensures
        (path_extension(path) matches Some(x) && lower_ascii(x) == "jpeg"@) ==> (detect_by_extension_spec(path) matches Some(f) && f@ == "image"@),
        (path_extension(path) matches Some(x) && lower_ascii(x) == "gif"@) ==> (detect_by_extension_spec(path) matches Some(f) && f@ == "image"@),
        (path_extension(path) matches Some(x) && lower_ascii(x) == "webp"@) ==> (detect_by_extension_spec(path) matches Some(f) && f@ == "image"@),
        (path_extension(path) matches Some(x) && lower_ascii(x) == "bmp"@) ==> (detect_by_extension_spec(path) matches Some(f) && f@ == "image"@),
        (path_extension(path) matches Some(x) && lower_ascii(x) == "tiff"@) ==> (detect_by_extension_spec(path) matches Some(f) && f@ == "image"@),
        (path_extension(path) matches Some(x) && lower_ascii(x) == "tif"@) ==> (detect_by_extension_spec(path) matches Some(f) && f@ == "image"@),
        (path_extension(path) matches Some(x) && lower_ascii(x) == "svg"@) ==> (detect_by_extension_spec(path) matches Some(f) && f@ == "image"@),
        (path_extension(path) matches Some(x) && lower_ascii(x) == "heic"@) ==> (detect_by_extension_spec(path) matches Some(f) && f@ == "image"@),
        (path_extension(path) matches Some(x) && lower_ascii(x) == "heif"@) ==> (detect_by_extension_spec(path) matches Some(f) && f@ == "image"@),
        (path_extension(path) matches Some(x) && lower_ascii(x) == "avif"@) ==> (detect_by_extension_spec(path) matches Some(f) && f@ == "image"@),
{
    reveal_strlit("avif");
    assert("avif"@.len() == 4);
    reveal_strlit("bmp");
    assert("bmp"@.len() == 3);
    reveal_strlit("cfg");
    assert("cfg"@.len() == 3);
    reveal_strlit("conf");
    assert("conf"@.len() == 4);
    reveal_strlit("csv");
    assert("csv"@.len() == 3);
    reveal_strlit("docx");
    assert("docx"@.len() == 4);
    reveal_strlit("gif");
    assert("gif"@.len() == 3);
    reveal_strlit("heic");
    assert("heic"@.len() == 4);
    reveal_strlit("heif");
    assert("heif"@.len() == 4);
    reveal_strlit("htm");
    assert("htm"@.len() == 3);
    reveal_strlit("html");
    assert("html"@.len() == 4);
    reveal_strlit("image");
    assert("image"@.len() == 5);
    reveal_strlit("ini");
    assert("ini"@.len() == 3);
    reveal_strlit("jpeg");
    assert("jpeg"@.len() == 4);
    reveal_strlit("jpg");
    assert("jpg"@.len() == 3);
    reveal_strlit("json");
    assert("json"@.len() == 4);
    reveal_strlit("log");
    assert("log"@.len() == 3);
    reveal_strlit("markdown");
    assert("markdown"@.len() == 8);
    reveal_strlit("md");
    assert("md"@.len() == 2);
    reveal_strlit("pdf");
    assert("pdf"@.len() == 3);
    reveal_strlit("png");
    assert("png"@.len() == 3);
    reveal_strlit("pptx");
    assert("pptx"@.len() == 4);
    reveal_strlit("rst");
    assert("rst"@.len() == 3);
    reveal_strlit("svg");
    assert("svg"@.len() == 3);
    reveal_strlit("text");
    assert("text"@.len() == 4);
    reveal_strlit("tif");
    assert("tif"@.len() == 3);
    reveal_strlit("tiff");
    assert("tiff"@.len() == 4);
    reveal_strlit("toml");
    assert("toml"@.len() == 4);
    reveal_strlit("txt");
    assert("txt"@.len() == 3);
    reveal_strlit("webp");
    assert("webp"@.len() == 4);
    reveal_strlit("xls");
    assert("xls"@.len() == 3);
    reveal_strlit("xlsx");
    assert("xlsx"@.len() == 4);
    reveal_strlit("xml");
    assert("xml"@.len() == 3);
    reveal_strlit("yaml");
    assert("yaml"@.len() == 4);
    reveal_strlit("yml");
    assert("yml"@.len() == 3);
    assert("jpeg"@[0] != "docx"@[0]);
    assert("jpeg"@[0] != "pptx"@[0]);
    assert("jpeg"@[0] != "xlsx"@[0]);
    assert("jpeg"@[1] != "json"@[1]);
    assert("jpeg"@[0] != "html"@[0]);
    assert("jpeg"@[0] != "text"@[0]);
    assert("jpeg"@[0] != "conf"@[0]);
    assert("jpeg"@[0] != "toml"@[0]);
    assert("jpeg"@[0] != "yaml"@[0]);
    assert("gif"@[0] != "xls"@[0]);
    assert("gif"@[0] != "csv"@[0]);
    assert("gif"@[0] != "pdf"@[0]);
    assert("gif"@[0] != "htm"@[0]);
    assert("gif"@[0] != "xml"@[0]);
    assert("gif"@[0] != "txt"@[0]);
    assert("gif"@[0] != "log"@[0]);
    assert("gif"@[0] != "rst"@[0]);
    assert("gif"@[0] != "ini"@[0]);
    assert("gif"@[0] != "cfg"@[0]);
    assert("gif"@[0] != "yml"@[0]);
    assert("gif"@[0] != "png"@[0]);
    assert("gif"@[0] != "jpg"@[0]);
    assert("webp"@[0] != "docx"@[0]);
    assert("webp"@[0] != "pptx"@[0]);
    assert("webp"@[0] != "xlsx"@[0]);
    assert("webp"@[0] != "json"@[0]);
    assert("webp"@[0] != "html"@[0]);
    assert("webp"@[0] != "text"@[0]);
    assert("webp"@[0] != "conf"@[0]);
    assert("webp"@[0] != "toml"@[0]);
    assert("webp"@[0] != "yaml"@[0]);
    assert("webp"@[0] != "jpeg"@[0]);
    assert("bmp"@[0] != "xls"@[0]);
    assert("bmp"@[0] != "csv"@[0]);
    assert("bmp"@[0] != "pdf"@[0]);
    assert("bmp"@[0] != "htm"@[0]);
    assert("bmp"@[0] != "xml"@[0]);
    assert("bmp"@[0] != "txt"@[0]);
    assert("bmp"@[0] != "log"@[0]);
    assert("bmp"@[0] != "rst"@[0]);
    assert("bmp"@[0] != "ini"@[0]);
    assert("bmp"@[0] != "cfg"@[0]);
    assert("bmp"@[0] != "yml"@[0]);
    assert("bmp"@[0] != "png"@[0]);
    assert("bmp"@[0] != "jpg"@[0]);
    assert("bmp"@[0] != "gif"@[0]);
    assert("tiff"@[0] != "docx"@[0]);
    assert("tiff"@[0] != "pptx"@[0]);
    assert("tiff"@[0] != "xlsx"@[0]);
    assert("tiff"@[0] != "json"@[0]);
    assert("tiff"@[0] != "html"@[0]);
    assert("tiff"@[1] != "text"@[1]);
    assert("tiff"@[0] != "conf"@[0]);
    assert("tiff"@[1] != "toml"@[1]);
    assert("tiff"@[0] != "yaml"@[0]);
    assert("tiff"@[0] != "jpeg"@[0]);
    assert("tiff"@[0] != "webp"@[0]);
    assert("tif"@[0] != "xls"@[0]);
    assert("tif"@[0] != "csv"@[0]);
    assert("tif"@[0] != "pdf"@[0]);
    assert("tif"@[0] != "htm"@[0]);
    assert("tif"@[0] != "xml"@[0]);
    assert("tif"@[1] != "txt"@[1]);
    assert("tif"@[0] != "log"@[0]);
    assert("tif"@[0] != "rst"@[0]);
    assert("tif"@[0] != "ini"@[0]);
    assert("tif"@[0] != "cfg"@[0]);
    assert("tif"@[0] != "yml"@[0]);
    assert("tif"@[0] != "png"@[0]);
    assert("tif"@[0] != "jpg"@[0]);
    assert("tif"@[0] != "gif"@[0]);
    assert("tif"@[0] != "bmp"@[0]);
    assert("svg"@[0] != "xls"@[0]);
    assert("svg"@[0] != "csv"@[0]);
    assert("svg"@[0] != "pdf"@[0]);
    assert("svg"@[0] != "htm"@[0]);
    assert("svg"@[0] != "xml"@[0]);
    assert("svg"@[0] != "txt"@[0]);
    assert("svg"@[0] != "log"@[0]);
    assert("svg"@[0] != "rst"@[0]);
    assert("svg"@[0] != "ini"@[0]);
    assert("svg"@[0] != "cfg"@[0]);
    assert("svg"@[0] != "yml"@[0]);
    assert("svg"@[0] != "png"@[0]);
    assert("svg"@[0] != "jpg"@[0]);
    assert("svg"@[0] != "gif"@[0]);
    assert("svg"@[0] != "bmp"@[0]);
    assert("svg"@[0] != "tif"@[0]);
    assert("heic"@[0] != "docx"@[0]);
    assert("heic"@[0] != "pptx"@[0]);
    assert("heic"@[0] != "xlsx"@[0]);
    assert("heic"@[0] != "json"@[0]);
    assert("heic"@[1] != "html"@[1]);
    assert("heic"@[0] != "text"@[0]);
    assert("heic"@[0] != "conf"@[0]);
    assert("heic"@[0] != "toml"@[0]);
    assert("heic"@[0] != "yaml"@[0]);
    assert("heic"@[0] != "jpeg"@[0]);
    assert("heic"@[0] != "webp"@[0]);
    assert("heic"@[0] != "tiff"@[0]);
    assert("heif"@[0] != "docx"@[0]);
    assert("heif"@[0] != "pptx"@[0]);
    assert("heif"@[0] != "xlsx"@[0]);
    assert("heif"@[0] != "json"@[0]);
    assert("heif"@[1] != "html"@[1]);
    assert("heif"@[0] != "text"@[0]);
    assert("heif"@[0] != "conf"@[0]);
    assert("heif"@[0] != "toml"@[0]);
    assert("heif"@[0] != "yaml"@[0]);
    assert("heif"@[0] != "jpeg"@[0]);
    assert("heif"@[0] != "webp"@[0]);
    assert("heif"@[0] != "tiff"@[0]);
    assert("heif"@[3] != "heic"@[3]);
    assert("avif"@[0] != "docx"@[0]);
    assert("avif"@[0] != "pptx"@[0]);
    assert("avif"@[0] != "xlsx"@[0]);
    assert("avif"@[0] != "json"@[0]);
    assert("avif"@[0] != "html"@[0]);
    assert("avif"@[0] != "text"@[0]);
    assert("avif"@[0] != "conf"@[0]);
    assert("avif"@[0] != "toml"@[0]);
    assert("avif"@[0] != "yaml"@[0]);
    assert("avif"@[0] != "jpeg"@[0]);
    assert("avif"@[0] != "webp"@[0]);
    assert("avif"@[0] != "tiff"@[0]);
    assert("avif"@[0] != "heic"@[0]);
    assert("avif"@[0] != "heif"@[0]);
}

/// The format a path's extension selects, as a table: the extension
/// (compared lower-cased) `docx`, `pptx`, `xlsx`, `xls`, `csv`, `json`,
/// `pdf` and `xml` each name their own format, `html`/`htm` name HTML, the
/// text and configuration extensions name plain text and the picture
/// extensions name an image.
pub proof fn lemma_extension_formats(path: Seq<char>)
    ensures
        (path_extension(path) matches Some(x) && lower_ascii(x) == "docx"@) ==> (detect_by_extension_spec(path) matches Some(f) && f@ == "docx"@),
        (path_extension(path) matches Some(x) && lower_ascii(x) == "pptx"@) ==> (detect_by_extension_spec(path) matches Some(f) && f@ == "pptx"@),
        (path_extension(path) matches Some(x) && lower_ascii(x) == "xlsx"@) ==> (detect_by_extension_spec(path) matches Some(f) && f@ == "xlsx"@),
        (path_extension(path) matches Some(x) && lower_ascii(x) == "xls"@) ==> (detect_by_extension_spec(path) matches Some(f) && f@ == "xls"@),
        (path_extension(path) matches Some(x) && lower_ascii(x) == "csv"@) ==> (detect_by_extension_spec(path) matches Some(f) && f@ == "csv"@),
        (path_extension(path) matches Some(x) && lower_ascii(x) == "json"@) ==> (detect_by_extension_spec(path) matches Some(f) && f@ == "json"@),
        (path_extension(path) matches Some(x) && lower_ascii(x) == "pdf"@) ==> (detect_by_extension_spec(path) matches Some(f) && f@ == "pdf"@),
        (path_extension(path) matches Some(x) && lower_ascii(x) == "html"@) ==> (detect_by_extension_spec(path) matches Some(f) && f@ == "html"@),
        (path_extension(path) matches Some(x) && lower_ascii(x) == "htm"@) ==> (detect_by_extension_spec(path) matches Some(f) && f@ == "html"@),
        (path_extension(path) matches Some(x) && lower_ascii(x) == "xml"@) ==> (detect_by_extension_spec(path) matches Some(f) && f@ == "xml"@),
        (path_extension(path) matches Some(x) && lower_ascii(x) == "txt"@) ==> (detect_by_extension_spec(path) matches Some(f) && f@ == "txt"@),
        (path_extension(path) matches Some(x) && lower_ascii(x) == "text"@) ==> (detect_by_extension_spec(path) matches Some(f) && f@ == "txt"@),
        (path_extension(path) matches Some(x) && lower_ascii(x) == "log"@) ==> (detect_by_extension_spec(path) matches Some(f) && f@ == "txt"@),
        (path_extension(path) matches Some(x) && lower_ascii(x) == "md"@) ==> (detect_by_extension_spec(path) matches Some(f) && f@ == "txt"@),
        (path_extension(path) matches Some(x) && lower_ascii(x) == "markdown"@) ==> (detect_by_extension_spec(path) matches Some(f) && f@ == "txt"@),
        (path_extension(path) matches Some(x) && lower_ascii(x) == "rst"@) ==> (detect_by_extension_spec(path) matches Some(f) && f@ == "txt"@),
        (path_extension(path) matches Some(x) && lower_ascii(x) == "ini"@) ==> (detect_by_extension_spec(path) matches Some(f) && f@ == "txt"@),
        (path_extension(path) matches Some(x) && lower_ascii(x) == "cfg"@) ==> (detect_by_extension_spec(path) matches Some(f) && f@ == "txt"@),
        (path_extension(path) matches Some(x) && lower_ascii(x) == "conf"@) ==> (detect_by_extension_spec(path) matches Some(f) && f@ == "txt"@),
        (path_extension(path) matches Some(x) && lower_ascii(x) == "toml"@) ==> (detect_by_extension_spec(path) matches Some(f) && f@ == "txt"@),
        (path_extension(path) matches Some(x) && lower_ascii(x) == "yaml"@) ==> (detect_by_extension_spec(path) matches Some(f) && f@ == "txt"@),
        (path_extension(path) matches Some(x) && lower_ascii(x) == "yml"@) ==> (detect_by_extension_spec(path) matches Some(f) && f@ == "txt"@),
        (path_extension(path) matches Some(x) && lower_ascii(x) == "png"@) ==> (detect_by_extension_spec(path) matches Some(f) && f@ == "image"@),
        (path_extension(path) matches Some(x) && lower_ascii(x) == "jpg"@) ==> (detect_by_extension_spec(path) matches Some(f) && f@ == "image"@),
        (path_extension(path) matches Some(x) && lower_ascii(x) == "jpeg"@) ==> (detect_by_extension_spec(path) matches Some(f) && f@ == "image"@),
        (path_extension(path) matches Some(x) && lower_ascii(x) == "gif"@) ==> (detect_by_extension_spec(path) matches Some(f) && f@ == "image"@),
        (path_extension(path) matches Some(x) && lower_ascii(x) == "webp"@) ==> (detect_by_extension_spec(path) matches Some(f) && f@ == "image"@),
        (path_extension(path) matches Some(x) && lower_ascii(x) == "bmp"@) ==> (detect_by_extension_spec(path) matches Some(f) && f@ == "image"@),
        (path_extension(path) matches Some(x) && lower_ascii(x) == "tiff"@) ==> (detect_by_extension_spec(path) matches Some(f) && f@ == "image"@),
        (path_extension(path) matches Some(x) && lower_ascii(x) == "tif"@) ==> (detect_by_extension_spec(path) matches Some(f) && f@ == "image"@),
        (path_extension(path) matches Some(x) && lower_ascii(x) == "svg"@) ==> (detect_by_extension_spec(path) matches Some(f) && f@ == "image"@),
        (path_extension(path) matches Some(x) && lower_ascii(x) == "heic"@) ==> (detect_by_extension_spec(path) matches Some(f) && f@ == "image"@),
        (path_extension(path) matches Some(x) && lower_ascii(x) == "heif"@) ==> (detect_by_extension_spec(path) matches Some(f) && f@ == "image"@),
        (path_extension(path) matches Some(x) && lower_ascii(x) == "avif"@) ==> (detect_by_extension_spec(path) matches Some(f) && f@ == "image"@),
{
    lemma_extension_rows_0(path);
    lemma_extension_rows_1(path);
    lemma_extension_rows_2(path);
}

/// Without header bytes the format is the one the path's extension
/// selects.
pub proof fn lemma_no_header_by_extension(path: Seq<char>, header: Seq<u8>)
    requires
        header.len() == 0,
    ensures
        detect_format_spec(path, header) == detect_by_extension_spec(path),
{
}

/// Magic bytes decide before the name: data starting `PK\x03\x04` is a
/// ZIP archive and data starting `%PDF` a PDF, whatever the path; data whose
/// first byte other than ASCII whitespace is `{` or `[` is JSON.
pub proof fn lemma_magic_bytes(path: Seq<char>, header: Seq<u8>)
    ensures
        (header.len() >= 4 && header[0] == 0x50 && header[1] == 0x4B && header[2] == 0x03
            && header[3] == 0x04) ==> (detect_format_spec(path, header) matches Some(f) && f@
            == "zip"@),
        (header.len() >= 4 && header[0] == 0x25 && header[1] == 0x50 && header[2] == 0x44
            && header[3] == 0x46) ==> (detect_format_spec(path, header) matches Some(f) && f@
            == "pdf"@),
        (header.len() >= 1 && header[0] == 0x7B) ==> (detect_format_spec(path, header) matches Some(
            f,
        ) && f@ == "json"@),
        (header.len() >= 1 && header[0] == 0x5B) ==> (detect_format_spec(path, header) matches Some(
            f,
        ) && f@ == "json"@),
        (header.len() >= 2 && (header[0] == 0x20 || header[0] == 0x0A) && header[1] == 0x7B) ==> (
        detect_format_spec(path, header) matches Some(f) && f@ == "json"@),
{
    if header.len() >= 4 {
        assert(header.subrange(0, 4) =~= seq![header[0], header[1], header[2], header[3]]);
    }
    if header.len() >= 2 && (header[0] == 0x20 || header[0] == 0x0A) && header[1] == 0x7B {
        assert(header.drop_first()[0] == header[1]);
        assert(first_non_ws_byte(header.drop_first()) == Some(0x7Bu8));
        assert(first_non_ws_byte(header) == Some(0x7Bu8));
    }
}

/// The OOXML flavour of a ZIP archive comes from the first entry under
/// `word/` (DOCX), `ppt/` (PPTX) or `xl/` (XLSX).
pub proof fn lemma_zip_entry_flavour(name: Seq<char>)
    ensures
        (name.len() >= 5 && name.subrange(0, 5) == seq!['w', 'o', 'r', 'd', '/']) ==> (
        zip_entry_format(name) matches Some(f) && f@ == "docx"@),
        (name.len() >= 4 && name.subrange(0, 4) == seq!['p', 'p', 't', '/']) ==> (zip_entry_format(
            name,
        ) matches Some(f) && f@ == "pptx"@),
        (name.len() >= 3 && name.subrange(0, 3) == seq!['x', 'l', '/']) ==> (zip_entry_format(name) matches Some(
            f,
        ) && f@ == "xlsx"@),
{
    reveal_strlit("word/");
    reveal_strlit("ppt/");
    reveal_strlit("xl/");
    reveal_strlit("docx");
    reveal_strlit("pptx");
    reveal_strlit("xlsx");
    assert("word/"@ =~= seq!['w', 'o', 'r', 'd', '/']);
    assert("ppt/"@ =~= seq!['p', 'p', 't', '/']);
    assert("xl/"@ =~= seq!['x', 'l', '/']);
    if name.len() >= 4 && name.subrange(0, 4) == seq!['p', 'p', 't', '/'] {
        assert(name[0] == 'p');
        assert(!crate::text::has_prefix(name, "word/"@)) by {
            if name.len() >= 5 {
                assert(name.subrange(0, 5)[0] == 'p');
            }
        }
    }
    if name.len() >= 3 && name.subrange(0, 3) == seq!['x', 'l', '/'] {
        assert(name[0] == 'x');
        assert(!crate::text::has_prefix(name, "word/"@)) by {
            if name.len() >= 5 {
                assert(name.subrange(0, 5)[0] == 'x');
            }
        }
        assert(!crate::text::has_prefix(name, "ppt/"@)) by {
            if name.len() >= 4 {
                assert(name.subrange(0, 4)[0] == 'x');
            }
        }
    }
}

} // verus!
