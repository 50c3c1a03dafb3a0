//! Jupyter notebooks: Markdown cells as they are, code and raw cells as
//! fenced blocks, in order.

use vstd::prelude::*;

use crate::converter::{warning, ConversionOptions, ConversionResult, ConversionWarning, Converter, WarningCode};
use crate::error::{is_malformed, malformed, malformed_because, ConvertError};
use crate::json_value::{as_str, get, get_member, json_parse, member, parse_json, JsonValue};
use crate::text::{
    chars_of, decimal_chars, eq_str, has_prefix, push_all, push_joined, push_str, slice_chars,
    split_chars, split_on, string_from_chars, trim, trim_ws, join_with, lemma_deep_view_chars,
};
use crate::zip_io::{utf8_error_message, utf8_or_message};

verus! {

broadcast use vstd::string::group_string_axioms;

/// Converts Jupyter notebooks to Markdown.
pub struct IpynbConverter;

// ---------------------------------------------------------------------------
// Specifications
// ---------------------------------------------------------------------------

/// A non-empty string held by `v`.
pub open spec fn nonempty_str(v: Option<JsonValue>) -> Option<Seq<char>> {
    match as_str(v) {
        Some(s) => if s.len() > 0 {
            Some(s)
        } else {
            None
        },
        None => None,
    }
}

/// The notebook language: `metadata.kernelspec.language`, else
/// `metadata.language_info.name` (each when a non-empty string), else
/// `python`.
pub open spec fn notebook_language(root: JsonValue) -> Seq<char> {
    let md = member(root, "metadata"@);
    let md_obj = match md {
        Some(JsonValue::Object(m)) => md,
        _ => None,
    };
    match nonempty_str(get(get(md_obj, "kernelspec"@), "language"@)) {
        Some(l) => l,
        None => match nonempty_str(get(get(md_obj, "language_info"@), "name"@)) {
            Some(l) => l,
            None => "python"@,
        },
    }
}

/// The strings among an array's elements, concatenated.
pub open spec fn joined_strings(a: Seq<JsonValue>) -> Seq<char>
    decreases a.len(),
{
    if a.len() == 0 {
        Seq::empty()
    } else {
        joined_strings(a.drop_last()) + match a.last() {
            JsonValue::Str(s) => s@,
            _ => Seq::empty(),
        }
    }
}

/// A cell's source: a string, or the strings of an array concatenated.
pub open spec fn cell_source(src: Option<JsonValue>) -> Seq<char> {
    match src {
        Some(JsonValue::Array(a)) => joined_strings(a@),
        Some(JsonValue::Str(s)) => s@,
        _ => Seq::empty(),
    }
}

/// A cell's type, empty when it has none.
pub open spec fn cell_type(cell: JsonValue) -> Seq<char> {
    match as_str(member(cell, "cell_type"@)) {
        Some(t) => t,
        None => Seq::empty(),
    }
}

/// What a cell contributes: its source (Markdown), a fenced block tagged
/// with the language (code) or untagged (raw); nothing when the source is
/// empty or the type unknown.
pub open spec fn cell_section(cell: JsonValue, language: Seq<char>) -> Option<Seq<char>> {
    let t = cell_type(cell);
    let src = cell_source(member(cell, "source"@));
    if src.len() == 0 {
        None
    } else if t == "markdown"@ {
        Some(src)
    } else if t == "code"@ {
        Some("```"@ + language + seq!['\n'] + src + "\n```"@)
    } else if t == "raw"@ {
        Some("```\n"@ + src + "\n```"@)
    } else {
        None
    }
}

/// The sections of the cells, in order.
pub open spec fn sections(cells: Seq<JsonValue>, language: Seq<char>) -> Seq<Seq<char>>
    decreases cells.len(),
{
    if cells.len() == 0 {
        Seq::empty()
    } else {
        let prev = sections(cells.drop_last(), language);
        match cell_section(cells.last(), language) {
            Some(s) => prev.push(s),
            None => prev,
        }
    }
}

/// Whether a cell type is one the converter knows.
pub open spec fn known_type(t: Seq<char>) -> bool {
    t == "markdown"@ || t == "code"@ || t == "raw"@
}

/// The title a line gives: the text after `# ` of a trimmed line, trimmed,
/// when non-empty.
pub open spec fn line_title(line: Seq<char>) -> Option<Seq<char>> {
    let t = trim_ws(line);
    if has_prefix(t, "# "@) && trim_ws(t.subrange(2, t.len() as int)).len() > 0 {
        Some(trim_ws(t.subrange(2, t.len() as int)))
    } else {
        None
    }
}

/// The first title among lines.
pub open spec fn first_title(lines: Seq<Seq<char>>) -> Option<Seq<char>>
    decreases lines.len(),
{
    if lines.len() == 0 {
        None
    } else {
        match line_title(lines[0]) {
            Some(t) => Some(t),
            None => first_title(lines.drop_first()),
        }
    }
}

/// The first `# Heading` of Markdown text.
pub open spec fn heading_title(md: Seq<char>) -> Option<Seq<char>> {
    first_title(split_on(md, '\n'))
}

/// The title from the cells: the first heading of the first Markdown cell
/// that has one.
pub open spec fn cells_title(cells: Seq<JsonValue>) -> Option<Seq<char>>
    decreases cells.len(),
{
    if cells.len() == 0 {
        None
    } else {
        match cells_title(cells.drop_last()) {
            Some(t) => Some(t),
            None => if cell_type(cells.last()) == "markdown"@ {
                heading_title(cell_source(member(cells.last(), "source"@)))
            } else {
                None
            },
        }
    }
}

/// The notebook title: a non-empty `metadata.title`, else the cells'.
pub open spec fn notebook_title(root: JsonValue, cells: Seq<JsonValue>) -> Option<Seq<char>> {
    match nonempty_str(get(member(root, "metadata"@), "title"@)) {
        Some(t) => Some(t),
        None => cells_title(cells),
    }
}

/// The outcome of converting notebook bytes: invalid UTF-8, invalid JSON,
/// a root that is not an object, or a missing `cells` array are
/// malformed-document errors; otherwise the cell sections joined by blank
/// lines, the notebook title, and one `SkippedElement` warning per cell of
/// unknown type.
pub open spec fn notebook_outcome(data: Seq<u8>, r: Result<ConversionResult, ConvertError>) -> bool {
    if !vstd::utf8::valid_utf8(data) {
        r matches Err(e) && is_malformed(e, "invalid UTF-8: "@ + utf8_error_message(data))
    } else {
        match json_parse(vstd::utf8::decode_utf8(data)) {
            Err(m) => r matches Err(e) && is_malformed(e, "invalid JSON: "@ + m),
            Ok(root) => if !(root is Object) {
                r matches Err(e) && is_malformed(e, "notebook root is not a JSON object"@)
            } else {
                match member(root, "cells"@) {
                    Some(JsonValue::Array(cells)) => r matches Ok(res) && res.markdown@
                        == join_with(sections(cells@, notebook_language(root)), "\n\n"@)
                        && (match res.title {
                        Some(t) => Some(t@),
                        None => None,
                    }) == notebook_title(root, cells@) && res.warnings@.len() == unknown_cells(
                        cells@,
                    ) && res.plain_text@.len() == 0,
                    _ => r matches Err(e) && is_malformed(e, "notebook missing \"cells\" array"@),
                }
            },
        }
    }
}

/// The number of cells of unknown type.
pub open spec fn unknown_cells(cells: Seq<JsonValue>) -> nat
    decreases cells.len(),
{
    if cells.len() == 0 {
        0
    } else {
        unknown_cells(cells.drop_last()) + if known_type(cell_type(cells.last())) {
            0nat
        } else {
            1nat
        }
    }
}

// ---------------------------------------------------------------------------
// Executable parts
// ---------------------------------------------------------------------------

/// A non-empty string held by `v`.
fn nonempty_string(v: Option<&JsonValue>) -> (r: Option<Vec<char>>)
    ensures
        match r {
            Some(s) => nonempty_str(match v {
                Some(x) => Some(*x),
                None => None,
            }) == Some(s@),
            None => nonempty_str(match v {
                Some(x) => Some(*x),
                None => None,
            }) is None,
        },
{
    match v {
        Some(JsonValue::Str(s)) => {
            let c = chars_of(s.as_str());
            if c.len() > 0 {
                Some(c)
            } else {
                None
            }
        },
        _ => None,
    }
}

/// The member `key` of an optional value.
fn get_opt<'a>(v: Option<&'a JsonValue>, key: &str) -> (r: Option<&'a JsonValue>)
    ensures
        match r {
            Some(x) => get(
                match v {
                    Some(y) => Some(*y),
                    None => None,
                },
                key@,
            ) == Some(*x),
            None => get(
                match v {
                    Some(y) => Some(*y),
                    None => None,
                },
                key@,
            ) is None,
        },
{
    match v {
        Some(x) => get_member(x, key),
        None => None,
    }
}

/// The notebook language (see [`notebook_language`]).
pub fn detect_language(root: &JsonValue) -> (r: Vec<char>)
    ensures
        r@ == notebook_language(*root),
{
    let md = get_member(root, "metadata");
    let md_obj = match md {
        Some(JsonValue::Object(_)) => md,
        _ => None,
    };
    match nonempty_string(get_opt(get_opt(md_obj, "kernelspec"), "language")) {
        Some(l) => l,
        None => match nonempty_string(get_opt(get_opt(md_obj, "language_info"), "name")) {
            Some(l) => l,
            None => chars_of("python"),
        },
    }
}

/// A cell's source (see [`cell_source`]).
pub fn join_source(src: Option<&JsonValue>) -> (r: Vec<char>)
    ensures
        r@ == cell_source(
            match src {
                Some(x) => Some(*x),
                None => None,
            },
        ),
{
    match src {
        Some(JsonValue::Array(a)) => {
            let mut out: Vec<char> = Vec::new();
            let mut i: usize = 0;
            while i < a.len()
                invariant
                    i <= a.len(),
                    out@ == joined_strings(a@.subrange(0, i as int)),
                decreases a.len() - i,
            {
                match &a[i] {
                    JsonValue::Str(s) => {
                        push_str(&mut out, s.as_str());
                    },
                    _ => {},
                }
                proof {
                    let sub = a@.subrange(0, i + 1);
                    assert(sub.drop_last() =~= a@.subrange(0, i as int));
                    assert(sub.last() == a@[i as int]);
                }
                i = i + 1;
            }
            assert(a@.subrange(0, a.len() as int) =~= a@);
            out
        },
        Some(JsonValue::Str(s)) => chars_of(s.as_str()),
        _ => Vec::new(),
    }
}

/// The title a line gives (see [`line_title`]).
fn title_of_line(line: &[char]) -> (r: Option<Vec<char>>)
    ensures
        match r {
            Some(t) => line_title(line@) == Some(t@),
            None => line_title(line@) is None,
        },
{
    let t = trim(line);
    if crate::text::starts_with_str(t.as_slice(), "# ") {
        proof {
            reveal_strlit("# ");
        }
        let rest = slice_chars(t.as_slice(), 2, t.len());
        let h = trim(rest.as_slice());
        if h.len() > 0 {
            return Some(h);
        }
    }
    None
}

/// The first `# Heading` of Markdown text (see [`heading_title`]).
pub fn extract_heading_title(md: &[char]) -> (r: Option<Vec<char>>)
    ensures
        match r {
            Some(t) => heading_title(md@) == Some(t@),
            None => heading_title(md@) is None,
        },
{
    let lines = split_chars(md, '\n');
    let ghost ls = lines.deep_view();
    let mut i: usize = 0;
    assert(ls.subrange(0, ls.len() as int) =~= ls);
    while i < lines.len()
        invariant
            i <= lines.len(),
            ls == lines.deep_view(),
            ls == split_on(md@, '\n'),
            first_title(ls.subrange(i as int, ls.len() as int)) == first_title(ls),
        decreases lines.len() - i,
    {
        proof {
            lemma_deep_view_chars(lines@[i as int]);
            assert(ls.subrange(i as int, ls.len() as int).drop_first() =~= ls.subrange(
                i + 1,
                ls.len() as int,
            ));
            assert(ls.subrange(i as int, ls.len() as int)[0] == ls[i as int]);
        }
        match title_of_line(lines[i].as_slice()) {
            Some(t) => {
                return Some(t);
            },
            None => {},
        }
        i = i + 1;
    }
    assert(ls.subrange(ls.len() as int, ls.len() as int) =~= Seq::<Seq<char>>::empty());
    None
}

/// A cell's type.
fn type_of_cell(cell: &JsonValue) -> (r: Vec<char>)
    ensures
        r@ == cell_type(*cell),
{
    match get_member(cell, "cell_type") {
        Some(JsonValue::Str(s)) => chars_of(s.as_str()),
        _ => Vec::new(),
    }
}

/// What a cell contributes (see [`cell_section`]).
fn section_of_cell(cell: &JsonValue, language: &[char]) -> (r: Option<Vec<char>>)
    ensures
        match r {
            Some(s) => cell_section(*cell, language@) == Some(s@),
            None => cell_section(*cell, language@) is None,
        },
{
    let t = type_of_cell(cell);
    let src = join_source(get_member(cell, "source"));
    if src.len() == 0 {
        return None;
    }
    if eq_str(t.as_slice(), "markdown") {
        Some(src)
    } else if eq_str(t.as_slice(), "code") {
        let mut s: Vec<char> = Vec::new();
        push_str(&mut s, "```");
        push_all(&mut s, language);
        s.push('\n');
        push_all(&mut s, src.as_slice());
        push_str(&mut s, "\n```");
        Some(s)
    } else if eq_str(t.as_slice(), "raw") {
        let mut s: Vec<char> = Vec::new();
        push_str(&mut s, "```\n");
        push_all(&mut s, src.as_slice());
        push_str(&mut s, "\n```");
        Some(s)
    } else {
        None
    }
}

impl IpynbConverter {
    /// Converts a notebook (see [`notebook_outcome`]).
    pub fn convert_notebook(&self, data: &[u8]) -> (r: Result<ConversionResult, ConvertError>)
        ensures
            notebook_outcome(data@, r),
    {
        let text = match utf8_or_message(data) {
            Ok(t) => t,
            Err(m) => {
                return Err(malformed("invalid UTF-8: ", m.as_str()));
            },
        };
        let root = match parse_json(text.as_str()) {
            Ok(v) => v,
            Err(m) => {
                return Err(malformed("invalid JSON: ", m.as_str()));
            },
        };
        match &root {
            JsonValue::Object(_) => {},
            _ => {
                return Err(malformed_because("notebook root is not a JSON object"));
            },
        }
        let cells = match get_member(&root, "cells") {
            Some(JsonValue::Array(a)) => a,
            _ => {
                return Err(malformed_because("notebook missing \"cells\" array"));
            },
        };
        let language = detect_language(&root);
        let mut sections_v: Vec<Vec<char>> = Vec::new();
        let mut title: Option<Vec<char>> = None;
        let mut warnings: Vec<ConversionWarning> = Vec::new();
        let mut i: usize = 0;
        while i < cells.len()
            invariant
                i <= cells.len(),
                sections_v.deep_view() == sections(cells@.subrange(0, i as int), language@),
                match title {
                    Some(t) => Some(t@),
                    None => None,
                } == cells_title(cells@.subrange(0, i as int)),
                warnings@.len() == unknown_cells(cells@.subrange(0, i as int)),
            decreases cells.len() - i,
        {
            let cell = &cells[i];
            proof {
                let sub = cells@.subrange(0, i + 1);
                assert(sub.drop_last() =~= cells@.subrange(0, i as int));
                assert(sub.last() == cells@[i as int]);
            }
            let t = type_of_cell(cell);
            if eq_str(t.as_slice(), "markdown") && title.is_none() {
                let src = join_source(get_member(cell, "source"));
                title = extract_heading_title(src.as_slice());
            }
            match section_of_cell(cell, language.as_slice()) {
                Some(s) => {
                    proof {
                        lemma_deep_view_chars(s);
                    }
                    let ghost before = sections_v.deep_view();
                    sections_v.push(s);
                    assert(sections_v.deep_view() =~= before.push(s@));
                },
                None => {},
            }
            if !(eq_str(t.as_slice(), "markdown") || eq_str(t.as_slice(), "code") || eq_str(
                t.as_slice(),
                "raw",
            )) {
                let mut m: Vec<char> = Vec::new();
                push_str(&mut m, "unknown cell type: \"");
                push_all(&mut m, t.as_slice());
                push_str(&mut m, "\"");
                let mut loc: Vec<char> = Vec::new();
                push_str(&mut loc, "cell ");
                let d = decimal_chars(i);
                push_all(&mut loc, d.as_slice());
                warnings.push(
                    warning(WarningCode::SkippedElement, m, Some(string_from_chars(loc.as_slice()))),
                );
            }
            i = i + 1;
        }
        assert(cells@.subrange(0, cells.len() as int) =~= cells@);
        let meta_title = nonempty_string(get_opt(get_member(&root, "metadata"), "title"));
        match meta_title {
            Some(t) => {
                title = Some(t);
            },
            None => {},
        }
        let mut md: Vec<char> = Vec::new();
        let sep: Vec<char> = vec!['\n', '\n'];
        push_joined(&mut md, sections_v.as_slice(), sep.as_slice());
        proof {
            reveal_strlit("\n\n");
            assert(sep@ =~= "\n\n"@);
            assert(md@ =~= join_with(sections(cells@, language@), "\n\n"@));
        }
        let mut result = ConversionResult::default();
        result.markdown = string_from_chars(md.as_slice());
        result.title = match title {
            Some(t) => Some(string_from_chars(t.as_slice())),
            None => None,
        };
        result.warnings = warnings;
        Ok(result)
    }
}

impl Converter for IpynbConverter {
    open spec fn extensions(&self) -> Seq<&'static str> {
        seq!["ipynb"]
    }

    fn supported_extensions(&self) -> (r: Vec<&'static str>) {
        let v = vec!["ipynb"];
        assert(v@ =~= seq!["ipynb"]);
        v
    }

    fn convert(&self, data: &[u8], _options: &ConversionOptions) -> (r: Result<
        ConversionResult,
        ConvertError,
    >)
        ensures
            notebook_outcome(data@, r),
    {
        self.convert_notebook(data)
    }
}

} // verus!
