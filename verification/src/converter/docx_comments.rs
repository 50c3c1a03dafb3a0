//! DOCX comments: the comments part, the reply marks of its extension, the
//! commented-on text of each content part, and their assembly into a
//! trailing "Comments" section.

use vstd::prelude::*;

use std::io::Cursor;

use crate::converter::{warning, ConversionWarning, WarningCode};
use crate::error::ConvertError;
use crate::zip_io::{archive_names, archive_source, zip_entry_read};
use crate::zip_utils::{failure_error, read_zip_text_lossy};
use crate::text::{
    chars_of, decimal, decimal_chars, eq_str, first_index_of, is_whitespace, is_ws, push_all,
    push_str, slice_chars, string_from_chars,
};
use crate::xml_io::{
    attr_by_local, find_attr_local, resolve_ref, resolve_reference, text_of_token, token_text,
    tokenize, unescape_value, xml_tokens, XmlAttr, XmlToken,
};

verus! {

broadcast use vstd::string::group_string_axioms;

/// The most characters of commented-on text a comment shows.
pub const SOURCE_CAP: usize = 200;

/// The most bytes of commented-on text collected for one range.
pub const RANGE_CAP_BYTES: usize = 800;

// ---------------------------------------------------------------------------
// Text helpers
// ---------------------------------------------------------------------------

/// Expands the references in an attribute value (see
/// [`crate::xml_io::unescape_value`]).
pub fn unescape_attr(s: &[char]) -> (v: Vec<char>)
    ensures
        v@ == crate::xml_io::unescape_value(s@),
{
    let mut out: Vec<char> = Vec::new();
    let mut i: usize = 0;
    assert(s@.subrange(0, s.len() as int) =~= s@);
    while i < s.len()
        invariant
            i <= s.len(),
            out@ + crate::xml_io::unescape_value(s@.subrange(i as int, s.len() as int))
                == crate::xml_io::unescape_value(s@),
        decreases s.len() - i,
    {
        let ghost rest = s@.subrange(i as int, s.len() as int);
        let ghost before = out@;
        if s[i] == '&' {
            let tail = slice_chars(s, i, s.len());
            assert(tail@ == rest);
            match crate::text::first_index(tail.as_slice(), ';') {
                Some(j) => {
                    if 0 < j && j < tail.len() {
                        let name = slice_chars(tail.as_slice(), 1, j);
                        let r = resolve_reference(name.as_slice());
                        push_all(&mut out, r.as_slice());
                        assert(rest.subrange(j + 1, rest.len() as int) =~= s@.subrange(
                            i + j + 1,
                            s.len() as int,
                        ));
                        assert(out@ + crate::xml_io::unescape_value(s@.subrange(i + j + 1, s.len() as int)) =~= before + crate::xml_io::unescape_value(rest));
                        i = i + j + 1;
                        continue;
                    }
                },
                None => {},
            }
        }
        out.push(s[i]);
        assert(rest.drop_first() =~= s@.subrange(i + 1, s.len() as int));
        assert(out@ + crate::xml_io::unescape_value(s@.subrange(i + 1, s.len() as int)) =~= before
            + crate::xml_io::unescape_value(rest));
        i = i + 1;
    }
    assert(out@ + crate::xml_io::unescape_value(s@.subrange(i as int, s.len() as int)) =~= out@);
    out
}

/// The number of bytes `c` takes in UTF-8.
pub open spec fn utf8_width(c: char) -> nat {
    if (c as u32) < 0x80 {
        1
    } else if (c as u32) < 0x800 {
        2
    } else if (c as u32) < 0x10000 {
        3
    } else {
        4
    }
}

/// The number of bytes `s` takes in UTF-8.
pub open spec fn utf8_bytes(s: Seq<char>) -> nat
    decreases s.len(),
{
    if s.len() == 0 {
        0
    } else {
        utf8_bytes(s.drop_last()) + utf8_width(s.last())
    }
}

/// The longest prefix of `s` that takes at most `room` bytes.
pub open spec fn fit_prefix(s: Seq<char>, room: nat) -> Seq<char>
    decreases s.len(),
{
    if s.len() == 0 || utf8_width(s[0]) > room {
        Seq::empty()
    } else {
        seq![s[0]] + fit_prefix(s.drop_first(), (room - utf8_width(s[0])) as nat)
    }
}

/// `buf` with `s` appended, holding it to [`RANGE_CAP_BYTES`] bytes: once
/// full nothing is added, and an addition that does not fit is cut at a
/// character boundary.
pub open spec fn push_capped_spec(buf: Seq<char>, s: Seq<char>) -> Seq<char> {
    if utf8_bytes(buf) >= RANGE_CAP_BYTES {
        buf
    } else {
        let room = (RANGE_CAP_BYTES - utf8_bytes(buf)) as nat;
        if room >= utf8_bytes(s) {
            buf + s
        } else {
            buf + fit_prefix(s, room)
        }
    }
}

/// The UTF-8 width of a character (see [`utf8_width`]).
fn char_width(c: char) -> (n: usize)
    ensures
        n == utf8_width(c),
{
    let v = c as u32;
    if v < 0x80 {
        1
    } else if v < 0x800 {
        2
    } else if v < 0x10000 {
        3
    } else {
        4
    }
}

/// The UTF-8 length of `s`, capped at `cap + 1`.
fn bytes_capped(s: &[char], cap: usize) -> (n: usize)
    requires
        cap <= 1000000,
    ensures
        n == (if utf8_bytes(s@) > cap {
            (cap + 1) as nat
        } else {
            utf8_bytes(s@)
        }),
{
    let mut n: usize = 0;
    let mut i: usize = 0;
    while i < s.len()
        invariant
            i <= s.len(),
            cap <= 1000000,
            n == (if utf8_bytes(s@.subrange(0, i as int)) > cap {
                (cap + 1) as nat
            } else {
                utf8_bytes(s@.subrange(0, i as int))
            }),
        decreases s.len() - i,
    {
        assert(s@.subrange(0, i + 1).drop_last() =~= s@.subrange(0, i as int));
        let w = char_width(s[i]);
        n = if n + w > cap {
            cap + 1
        } else {
            n + w
        };
        i = i + 1;
    }
    assert(s@.subrange(0, s.len() as int) =~= s@);
    n
}

/// The longest prefix of `s` within `room` bytes (see [`fit_prefix`]).
fn fitting_prefix(s: &[char], room: usize) -> (v: Vec<char>)
    ensures
        v@ == fit_prefix(s@, room as nat),
{
    let mut v: Vec<char> = Vec::new();
    let mut left = room;
    let mut i: usize = 0;
    assert(s@.subrange(0, s.len() as int) =~= s@);
    while i < s.len()
        invariant
            i <= s.len(),
            left <= room,
            v@ + fit_prefix(s@.subrange(i as int, s.len() as int), left as nat) == fit_prefix(s@, room as nat),
        decreases s.len() - i,
    {
        let w = char_width(s[i]);
        let ghost rest = s@.subrange(i as int, s.len() as int);
        if w > left {
            assert(v@ + fit_prefix(rest, left as nat) =~= v@);
            return v;
        }
        let ghost before = v@;
        v.push(s[i]);
        assert(rest.drop_first() =~= s@.subrange(i + 1, s.len() as int));
        assert(v@ + fit_prefix(s@.subrange(i + 1, s.len() as int), (left - w) as nat) =~= before
            + fit_prefix(rest, left as nat));
        left = left - w;
        i = i + 1;
    }
    assert(v@ + fit_prefix(s@.subrange(i as int, s.len() as int), left as nat) =~= v@);
    v
}

/// Appends `s` to a range buffer within the byte cap (see
/// [`push_capped_spec`]).
pub fn push_capped(buf: &Vec<char>, s: &[char]) -> (v: Vec<char>)
    ensures
        v@ == push_capped_spec(buf@, s@),
{
    let used = bytes_capped(buf.as_slice(), RANGE_CAP_BYTES);
    let mut out = slice_chars(buf.as_slice(), 0, buf.len());
    if used >= RANGE_CAP_BYTES {
        return out;
    }
    let room = RANGE_CAP_BYTES - used;
    let need = bytes_capped(s, RANGE_CAP_BYTES);
    if room >= need {
        push_all(&mut out, s);
    } else {
        let p = fitting_prefix(s, room);
        push_all(&mut out, p.as_slice());
    }
    out
}

/// The state of collapsing whitespace: the text so far and whether a space
/// is owed before the next word.
pub open spec fn collapse_step(st: (Seq<char>, bool), c: char) -> (Seq<char>, bool) {
    if is_ws(c) {
        (st.0, st.0.len() > 0)
    } else if st.1 {
        (st.0.push(' ').push(c), false)
    } else {
        (st.0.push(c), false)
    }
}

/// The collapsing state after `s`.
pub open spec fn collapse_fold(s: Seq<char>) -> (Seq<char>, bool)
    decreases s.len(),
{
    if s.len() == 0 {
        (Seq::empty(), false)
    } else {
        collapse_step(collapse_fold(s.drop_last()), s.last())
    }
}

/// `s` as its words joined by single spaces (whitespace runs collapsed,
/// ends trimmed).
pub open spec fn collapse_words(s: Seq<char>) -> Seq<char> {
    collapse_fold(s).0
}

/// Collapses whitespace into single spaces between words (see
/// [`collapse_words`]).
pub fn collapse_ws(s: &[char]) -> (v: Vec<char>)
    ensures
        v@ == collapse_words(s@),
{
    let mut out: Vec<char> = Vec::new();
    let mut pending = false;
    let mut i: usize = 0;
    while i < s.len()
        invariant
            i <= s.len(),
            (out@, pending) == collapse_fold(s@.subrange(0, i as int)),
        decreases s.len() - i,
    {
        assert(s@.subrange(0, i + 1).drop_last() =~= s@.subrange(0, i as int));
        let c = s[i];
        if is_whitespace(c) {
            pending = out.len() > 0;
        } else {
            if pending {
                out.push(' ');
            }
            out.push(c);
            pending = false;
        }
        i = i + 1;
    }
    assert(s@.subrange(0, s.len() as int) =~= s@);
    out
}

/// `s` cut to `cap` characters, with `…` when it was longer.
pub open spec fn cap_text_spec(s: Seq<char>, cap: nat) -> Seq<char> {
    if s.len() > cap {
        s.take(cap as int).push('…')
    } else {
        s
    }
}

/// Cuts text to `cap` characters (see [`cap_text_spec`]).
pub fn cap_text(s: &[char], cap: usize) -> (v: Vec<char>)
    ensures
        v@ == cap_text_spec(s@, cap as nat),
{
    if s.len() > cap {
        let mut v = slice_chars(s, 0, cap);
        v.push('…');
        v
    } else {
        slice_chars(s, 0, s.len())
    }
}

/// The author line of a comment: the author (`Unknown` when empty),
/// followed by the date in parentheses when there is one.
pub open spec fn author_line(author: Seq<char>, date: Seq<char>) -> Seq<char> {
    let a = if author.len() == 0 {
        "Unknown"@
    } else {
        author
    };
    if date.len() == 0 {
        a
    } else {
        a + " ("@ + date + ")"@
    }
}

/// The author line of a comment (see [`author_line`]).
pub fn format_author(author: &[char], date: &[char]) -> (v: Vec<char>)
    ensures
        v@ == author_line(author@, date@),
{
    let mut v: Vec<char> = Vec::new();
    if author.len() == 0 {
        push_str(&mut v, "Unknown");
    } else {
        push_all(&mut v, author);
    }
    if date.len() > 0 {
        push_str(&mut v, " (");
        push_all(&mut v, date);
        push_str(&mut v, ")");
    }
    v
}

// ---------------------------------------------------------------------------
// The comments part
// ---------------------------------------------------------------------------

/// A comment as `word/comments.xml` holds it.
#[derive(Debug)]
pub struct RawComment {
    pub author: String,
    pub date: String,
    /// The text, paragraphs separated by newlines.
    pub body: String,
    /// The `paraId` of the comment's last top-level paragraph.
    pub para_id: Option<String>,
}

/// The view of a raw comment.
pub struct RawView {
    pub author: Seq<char>,
    pub date: Seq<char>,
    pub body: Seq<char>,
    pub para_id: Option<Seq<char>>,
}

impl View for RawComment {
    type V = RawView;

    open spec fn view(&self) -> RawView {
        RawView {
            author: self.author@,
            date: self.date@,
            body: self.body@,
            para_id: match self.para_id {
                Some(p) => Some(p@),
                None => None,
            },
        }
    }
}

/// The view of a list of comments by id.
pub open spec fn raws_view(v: Seq<(String, RawComment)>) -> Seq<(Seq<char>, RawView)> {
    v.map_values(|p: (String, RawComment)| (p.0@, p.1@))
}

/// `n + 1`, held at `usize::MAX`.
pub open spec fn bump(n: nat) -> nat {
    if n < usize::MAX {
        n + 1
    } else {
        n
    }
}

/// The unescaped value of the first attribute with local name `local`.
pub open spec fn attr_value(attrs: Seq<Option<XmlAttr>>, local: Seq<char>) -> Option<Seq<char>> {
    match attr_by_local(attrs, local) {
        Some(v) => Some(unescape_value(v)),
        None => None,
    }
}

/// The state of reading the comments part.
pub struct CxState {
    /// Completed comments by id, in document order.
    pub comments: Seq<(Seq<char>, RawView)>,
    /// The id of the comment being read.
    pub id: Option<Seq<char>>,
    pub author: Seq<char>,
    pub date: Seq<char>,
    pub body: Seq<char>,
    pub para_id: Option<Seq<char>>,
    /// Paragraphs seen in the current comment.
    pub paras: nat,
    /// Whether inside a `t` element.
    pub in_text: bool,
    /// Table nesting inside the current comment.
    pub depth: nat,
}

/// The state before the part.
pub open spec fn cx_start() -> CxState {
    CxState {
        comments: Seq::empty(),
        id: None,
        author: Seq::empty(),
        date: Seq::empty(),
        body: Seq::empty(),
        para_id: None,
        paras: 0,
        in_text: false,
        depth: 0,
    }
}

/// The state after one token: a `comment` element starts a comment (its
/// id, author and date from its attributes, unescaped); inside one,
/// paragraphs are separated by newlines and a top-level paragraph's
/// `paraId` is kept; text inside `t` elements is collected; the end of a
/// comment with an id completes it.
pub open spec fn cx_step(s: CxState, t: XmlToken) -> CxState {
    match t {
        XmlToken::Start(e) => {
            let n = e.name@;
            if n == "comment"@ {
                CxState {
                    id: attr_value(e.attrs@, "id"@),
                    author: match attr_value(e.attrs@, "author"@) {
                        Some(v) => v,
                        None => Seq::empty(),
                    },
                    date: match attr_value(e.attrs@, "date"@) {
                        Some(v) => v,
                        None => Seq::empty(),
                    },
                    body: Seq::empty(),
                    para_id: None,
                    paras: 0,
                    depth: 0,
                    ..s
                }
            } else if n == "tbl"@ && s.id is Some {
                CxState { depth: bump(s.depth), ..s }
            } else if n == "p"@ && s.id is Some {
                CxState {
                    body: if s.paras > 0 {
                        s.body.push('\n')
                    } else {
                        s.body
                    },
                    paras: bump(s.paras),
                    para_id: if s.depth == 0 && attr_value(e.attrs@, "paraId"@) is Some {
                        attr_value(e.attrs@, "paraId"@)
                    } else {
                        s.para_id
                    },
                    ..s
                }
            } else if n == "t"@ && s.id is Some {
                CxState { in_text: true, ..s }
            } else {
                s
            }
        },
        XmlToken::Empty(e) => if e.name@ == "p"@ && s.id is Some && s.depth == 0 && attr_value(
            e.attrs@,
            "paraId"@,
        ) is Some {
            CxState { para_id: attr_value(e.attrs@, "paraId"@), ..s }
        } else {
            s
        },
        XmlToken::End(n) => if n@ == "t"@ {
            CxState { in_text: false, ..s }
        } else if n@ == "tbl"@ && s.depth > 0 {
            CxState { depth: (s.depth - 1) as nat, ..s }
        } else if n@ == "comment"@ {
            match s.id {
                Some(id) => CxState {
                    comments: s.comments.push(
                        (id, RawView { author: s.author, date: s.date, body: s.body, para_id: s.para_id }),
                    ),
                    id: None,
                    author: Seq::empty(),
                    date: Seq::empty(),
                    body: Seq::empty(),
                    para_id: None,
                    ..s
                },
                None => s,
            }
        } else {
            s
        },
        _ => match token_text(t) {
            Some(x) => if s.in_text {
                CxState { body: s.body + x, ..s }
            } else {
                s
            },
            None => s,
        },
    }
}

/// The state after the tokens.
pub open spec fn cx_fold(tokens: Seq<XmlToken>) -> CxState
    decreases tokens.len(),
{
    if tokens.len() == 0 {
        cx_start()
    } else {
        cx_step(cx_fold(tokens.drop_last()), tokens.last())
    }
}

/// The unescaped value of an attribute (see [`attr_value`]).
fn attr_unescaped(attrs: &Vec<Option<XmlAttr>>, local: &str) -> (r: Option<Vec<char>>)
    ensures
        r matches Some(v) ==> attr_value(attrs@, local@) == Some(v@),
        r is None ==> attr_value(attrs@, local@) is None,
{
    match find_attr_local(attrs, local) {
        Some(v) => {
            let c = chars_of(v.as_str());
            Some(unescape_attr(c.as_slice()))
        },
        None => None,
    }
}

/// The view of an optional character vector.
pub open spec fn opt_view(o: Option<Vec<char>>) -> Option<Seq<char>> {
    match o {
        Some(v) => Some(v@),
        None => None,
    }
}

/// A string from an optional character vector.
fn opt_string(o: &Option<Vec<char>>) -> (r: Option<String>)
    ensures
        match r {
            Some(s) => opt_view(*o) == Some(s@),
            None => o is None,
        },
{
    match o {
        Some(v) => Some(string_from_chars(v.as_slice())),
        None => None,
    }
}

/// Reads `word/comments.xml` into its comments by id, in document order
/// (see [`cx_step`]); a later comment with the same id supersedes an
/// earlier one.
pub fn parse_comments_xml(xml: &str) -> (r: Vec<(String, RawComment)>)
    ensures
        raws_view(r@) == cx_fold(xml_tokens(xml@)).comments,
{
    let tokens = tokenize(xml);
    let mut comments: Vec<(String, RawComment)> = Vec::new();
    let mut id: Option<Vec<char>> = None;
    let mut author: Vec<char> = Vec::new();
    let mut date: Vec<char> = Vec::new();
    let mut body: Vec<char> = Vec::new();
    let mut para_id: Option<Vec<char>> = None;
    let mut paras: usize = 0;
    let mut in_text = false;
    let mut depth: usize = 0;
    let mut i: usize = 0;
    assert(raws_view(comments@) =~= Seq::<(Seq<char>, RawView)>::empty());
    while i < tokens.len()
        invariant
            i <= tokens.len(),
            tokens@ == xml_tokens(xml@),
            cx_fold(tokens@.subrange(0, i as int)) == (CxState {
                comments: raws_view(comments@),
                id: opt_view(id),
                author: author@,
                date: date@,
                body: body@,
                para_id: opt_view(para_id),
                paras: paras as nat,
                in_text,
                depth: depth as nat,
            }),
        decreases tokens.len() - i,
    {
        assert(tokens@.subrange(0, i + 1).drop_last() =~= tokens@.subrange(0, i as int));
        let ghost cs = raws_view(comments@);
        match &tokens[i] {
            XmlToken::Start(e) => {
                let n = chars_of(e.name.as_str());
                if eq_str(n.as_slice(), "comment") {
                    id = attr_unescaped(&e.attrs, "id");
                    author = match attr_unescaped(&e.attrs, "author") {
                        Some(v) => v,
                        None => Vec::new(),
                    };
                    date = match attr_unescaped(&e.attrs, "date") {
                        Some(v) => v,
                        None => Vec::new(),
                    };
                    body = Vec::new();
                    para_id = None;
                    paras = 0;
                    depth = 0;
                } else if eq_str(n.as_slice(), "tbl") && id.is_some() {
                    if depth < usize::MAX {
                        depth = depth + 1;
                    }
                } else if eq_str(n.as_slice(), "p") && id.is_some() {
                    if paras > 0 {
                        body.push('\n');
                    }
                    if paras < usize::MAX {
                        paras = paras + 1;
                    }
                    if depth == 0 {
                        match attr_unescaped(&e.attrs, "paraId") {
                            Some(v) => {
                                para_id = Some(v);
                            },
                            None => {},
                        }
                    }
                } else if eq_str(n.as_slice(), "t") && id.is_some() {
                    in_text = true;
                }
            },
            XmlToken::Empty(e) => {
                let n = chars_of(e.name.as_str());
                if eq_str(n.as_slice(), "p") && id.is_some() && depth == 0 {
                    match attr_unescaped(&e.attrs, "paraId") {
                        Some(v) => {
                            para_id = Some(v);
                        },
                        None => {},
                    }
                }
            },
            XmlToken::End(nm) => {
                let n = chars_of(nm.as_str());
                if eq_str(n.as_slice(), "t") {
                    in_text = false;
                } else if eq_str(n.as_slice(), "tbl") && depth > 0 {
                    depth = depth - 1;
                } else if eq_str(n.as_slice(), "comment") {
                    match &id {
                        Some(cid) => {
                            let rc = RawComment {
                                author: string_from_chars(author.as_slice()),
                                date: string_from_chars(date.as_slice()),
                                body: string_from_chars(body.as_slice()),
                                para_id: opt_string(&para_id),
                            };
                            let key = string_from_chars(cid.as_slice());
                            comments.push((key, rc));
                            assert(raws_view(comments@) =~= cs.push((cid@, rc@)));
                            id = None;
                            author = Vec::new();
                            date = Vec::new();
                            body = Vec::new();
                            para_id = None;
                        },
                        None => {},
                    }
                }
            },
            other => {
                match text_of_token(other) {
                    Some(x) => {
                        if in_text {
                            push_all(&mut body, x.as_slice());
                        }
                    },
                    None => {},
                }
            },
        }
        i = i + 1;
    }
    assert(tokens@.subrange(0, tokens.len() as int) =~= tokens@);
    comments
}

// ---------------------------------------------------------------------------
// Small collections of strings
// ---------------------------------------------------------------------------

/// The view of a list of character vectors.
pub open spec fn chars_list_view(v: Seq<Vec<char>>) -> Seq<Seq<char>> {
    v.map_values(|x: Vec<char>| x@)
}

/// `s` with `x` added unless it is already there.
pub open spec fn set_insert(s: Seq<Seq<char>>, x: Seq<char>) -> Seq<Seq<char>> {
    if s.contains(x) {
        s
    } else {
        s.push(x)
    }
}

/// `s` without any occurrence of `x`.
pub open spec fn remove_all(s: Seq<Seq<char>>, x: Seq<char>) -> Seq<Seq<char>>
    decreases s.len(),
{
    if s.len() == 0 {
        s
    } else if s.last() == x {
        remove_all(s.drop_last(), x)
    } else {
        remove_all(s.drop_last(), x).push(s.last())
    }
}

/// Whether `x` is in the list (see [`Seq::contains`]).
fn list_contains(v: &Vec<Vec<char>>, x: &Vec<char>) -> (b: bool)
    ensures
        b == chars_list_view(v@).contains(x@),
{
    let mut i: usize = 0;
    while i < v.len()
        invariant
            i <= v.len(),
            forall|k: int| 0 <= k < i ==> chars_list_view(v@)[k] != x@,
        decreases v.len() - i,
    {
        if crate::text::eq_chars(v[i].as_slice(), x.as_slice()) {
            assert(chars_list_view(v@)[i as int] == x@);
            return true;
        }
        i = i + 1;
    }
    false
}

/// Adds `x` unless present (see [`set_insert`]).
fn list_insert(v: &mut Vec<Vec<char>>, x: &Vec<char>)
    ensures
        chars_list_view(final(v)@) == set_insert(chars_list_view(old(v)@), x@),
{
    if !list_contains(v, x) {
        let ghost before = chars_list_view(v@);
        let c = slice_chars(x.as_slice(), 0, x.len());
        assert(c@ =~= x@);
        v.push(c);
        assert(chars_list_view(v@) =~= before.push(x@));
    }
}

/// Removes every occurrence of `x` (see [`remove_all`]).
fn list_remove(v: &Vec<Vec<char>>, x: &Vec<char>) -> (r: Vec<Vec<char>>)
    ensures
        chars_list_view(r@) == remove_all(chars_list_view(v@), x@),
{
    let ghost lv = chars_list_view(v@);
    let mut r: Vec<Vec<char>> = Vec::new();
    let mut i: usize = 0;
    while i < v.len()
        invariant
            i <= v.len(),
            lv == chars_list_view(v@),
            chars_list_view(r@) == remove_all(lv.subrange(0, i as int), x@),
        decreases v.len() - i,
    {
        assert(lv.subrange(0, i + 1).drop_last() =~= lv.subrange(0, i as int));
        if !crate::text::eq_chars(v[i].as_slice(), x.as_slice()) {
            let ghost before = chars_list_view(r@);
            let c = slice_chars(v[i].as_slice(), 0, v[i].len());
            assert(c@ =~= lv[i as int]);
            r.push(c);
            assert(chars_list_view(r@) =~= before.push(lv[i as int]));
        }
        i = i + 1;
    }
    assert(lv.subrange(0, v.len() as int) =~= lv);
    r
}

/// The index of the first entry with key `k`, from entry `j` on.
pub open spec fn find_key(s: Seq<(Seq<char>, Seq<char>)>, k: Seq<char>, j: int) -> Option<int>
    decreases s.len() - j,
{
    if j < 0 || j >= s.len() {
        None
    } else if s[j].0 == k {
        Some(j)
    } else {
        find_key(s, k, j + 1)
    }
}

/// The value under key `k`, empty when there is none.
pub open spec fn assoc_get(s: Seq<(Seq<char>, Seq<char>)>, k: Seq<char>) -> Seq<char> {
    match find_key(s, k, 0) {
        Some(i) => s[i].1,
        None => Seq::empty(),
    }
}

/// `s` with the value under key `k` set to `v` (a new entry at the end when
/// the key is new).
pub open spec fn assoc_set(s: Seq<(Seq<char>, Seq<char>)>, k: Seq<char>, v: Seq<char>) -> Seq<
    (Seq<char>, Seq<char>),
> {
    match find_key(s, k, 0) {
        Some(i) => s.update(i, (k, v)),
        None => s.push((k, v)),
    }
}

/// The view of a list of key-value entries.
pub open spec fn assoc_view(v: Seq<(Vec<char>, Vec<char>)>) -> Seq<(Seq<char>, Seq<char>)> {
    v.map_values(|p: (Vec<char>, Vec<char>)| (p.0@, p.1@))
}

/// The index of the first entry with key `k` (see [`find_key`]).
fn assoc_find(v: &Vec<(Vec<char>, Vec<char>)>, k: &[char]) -> (r: Option<usize>)
    ensures
        r matches Some(i) ==> find_key(assoc_view(v@), k@, 0) == Some(i as int) && i < v.len(),
        r is None ==> find_key(assoc_view(v@), k@, 0) is None,
{
    let mut i: usize = 0;
    while i < v.len()
        invariant
            i <= v.len(),
            find_key(assoc_view(v@), k@, 0) == find_key(assoc_view(v@), k@, i as int),
        decreases v.len() - i,
    {
        if crate::text::eq_chars(v[i].0.as_slice(), k) {
            return Some(i);
        }
        i = i + 1;
    }
    None
}

/// The value under key `k` (see [`assoc_get`]).
fn assoc_lookup(v: &Vec<(Vec<char>, Vec<char>)>, k: &[char]) -> (r: Vec<char>)
    ensures
        r@ == assoc_get(assoc_view(v@), k@),
{
    match assoc_find(v, k) {
        Some(i) => slice_chars(v[i].1.as_slice(), 0, v[i].1.len()),
        None => Vec::new(),
    }
}

/// Sets the value under key `k` (see [`assoc_set`]).
fn assoc_store(v: &mut Vec<(Vec<char>, Vec<char>)>, k: &[char], val: Vec<char>)
    ensures
        assoc_view(final(v)@) == assoc_set(assoc_view(old(v)@), k@, val@),
{
    let ghost before = assoc_view(v@);
    let key = slice_chars(k, 0, k.len());
    assert(key@ =~= k@);
    match assoc_find(v, k) {
        Some(i) => {
            v.set(i, (key, val));
            assert(assoc_view(v@) =~= before.update(i as int, (k@, val@)));
        },
        None => {
            v.push((key, val));
            assert(assoc_view(v@) =~= before.push((k@, val@)));
        },
    }
}

// ---------------------------------------------------------------------------
// Reply marks
// ---------------------------------------------------------------------------

/// What a `commentEx` element's attributes say: its `paraId` (the last
/// one) and whether it has a `paraIdParent`.
pub open spec fn ex_attrs(attrs: Seq<Option<XmlAttr>>) -> (Option<Seq<char>>, bool)
    decreases attrs.len(),
{
    if attrs.len() == 0 {
        (None, false)
    } else {
        let (p, h) = ex_attrs(attrs.drop_last());
        match attrs.last() {
            Some(a) => if a.local@ == "paraId"@ {
                (Some(a.value@), h)
            } else if a.local@ == "paraIdParent"@ {
                (p, true)
            } else {
                (p, h)
            },
            None => (p, h),
        }
    }
}

/// The `paraId`s marked as replies by the tokens of
/// `word/commentsExtended.xml`: those of `commentEx` elements that have a
/// parent.
pub open spec fn replies_from_tokens(tokens: Seq<XmlToken>) -> Seq<Seq<char>>
    decreases tokens.len(),
{
    if tokens.len() == 0 {
        Seq::empty()
    } else {
        let prev = replies_from_tokens(tokens.drop_last());
        match tokens.last() {
            XmlToken::Start(e) => reply_of(prev, e.name@, e.attrs@),
            XmlToken::Empty(e) => reply_of(prev, e.name@, e.attrs@),
            _ => prev,
        }
    }
}

/// `set` with the reply an element marks.
pub open spec fn reply_of(set: Seq<Seq<char>>, name: Seq<char>, attrs: Seq<Option<XmlAttr>>) -> Seq<
    Seq<char>,
> {
    if name == "commentEx"@ {
        let (p, h) = ex_attrs(attrs);
        if h && p is Some {
            set_insert(set, p->0)
        } else {
            set
        }
    } else {
        set
    }
}

/// What a `commentEx` element's attributes say (see [`ex_attrs`]).
fn read_ex_attrs(attrs: &Vec<Option<XmlAttr>>) -> (r: (Option<Vec<char>>, bool))
    ensures
        (opt_view(r.0), r.1) == ex_attrs(attrs@),
{
    let mut p: Option<Vec<char>> = None;
    let mut h = false;
    let mut i: usize = 0;
    while i < attrs.len()
        invariant
            i <= attrs.len(),
            (opt_view(p), h) == ex_attrs(attrs@.subrange(0, i as int)),
        decreases attrs.len() - i,
    {
        assert(attrs@.subrange(0, i + 1).drop_last() =~= attrs@.subrange(0, i as int));
        match &attrs[i] {
            Some(a) => {
                let l = chars_of(a.local.as_str());
                if eq_str(l.as_slice(), "paraId") {
                    p = Some(chars_of(a.value.as_str()));
                } else if eq_str(l.as_slice(), "paraIdParent") {
                    h = true;
                }
            },
            None => {},
        }
        i = i + 1;
    }
    assert(attrs@.subrange(0, attrs.len() as int) =~= attrs@);
    (p, h)
}

/// Reads the reply marks of `word/commentsExtended.xml` (see
/// [`replies_from_tokens`]).
pub fn parse_comments_extended(xml: &str) -> (r: Vec<Vec<char>>)
    ensures
        chars_list_view(r@) == replies_from_tokens(xml_tokens(xml@)),
{
    let tokens = tokenize(xml);
    let mut set: Vec<Vec<char>> = Vec::new();
    let mut i: usize = 0;
    assert(chars_list_view(set@) =~= Seq::<Seq<char>>::empty());
    while i < tokens.len()
        invariant
            i <= tokens.len(),
            tokens@ == xml_tokens(xml@),
            chars_list_view(set@) == replies_from_tokens(tokens@.subrange(0, i as int)),
        decreases tokens.len() - i,
    {
        assert(tokens@.subrange(0, i + 1).drop_last() =~= tokens@.subrange(0, i as int));
        let e = match &tokens[i] {
            XmlToken::Start(e) => Some(e),
            XmlToken::Empty(e) => Some(e),
            _ => None,
        };
        match e {
            Some(e) => {
                let n = chars_of(e.name.as_str());
                if eq_str(n.as_slice(), "commentEx") {
                    let (p, h) = read_ex_attrs(&e.attrs);
                    if h {
                        match &p {
                            Some(pid) => list_insert(&mut set, pid),
                            None => {},
                        }
                    }
                }
            },
            None => {},
        }
        i = i + 1;
    }
    assert(tokens@.subrange(0, tokens.len() as int) =~= tokens@);
    set
}

// ---------------------------------------------------------------------------
// Commented-on ranges
// ---------------------------------------------------------------------------

/// The state of scanning a content part for comment ranges.
pub struct RgState {
    /// Comment ids in order of first appearance.
    pub order: Seq<Seq<char>>,
    /// The text collected for each id.
    pub text: Seq<(Seq<char>, Seq<char>)>,
    /// The ids of the ranges currently open.
    pub open: Seq<Seq<char>>,
    /// Whether inside a skipped `mc:Choice` branch, and how deep.
    pub in_choice: bool,
    pub choice_depth: nat,
    /// Whether inside a run, and inside its text.
    pub in_run: bool,
    pub in_text: bool,
}

/// The state before a part.
pub open spec fn rg_start() -> RgState {
    RgState {
        order: Seq::empty(),
        text: Seq::empty(),
        open: Seq::empty(),
        in_choice: false,
        choice_depth: 0,
        in_run: false,
        in_text: false,
    }
}

/// Whether an element is a comment range marker.
pub open spec fn is_marker(name: Seq<char>) -> bool {
    name == "commentRangeStart"@ || name == "commentRangeEnd"@ || name == "commentReference"@
}

/// The state after a range marker: a range start notes its id and opens
/// its range, a range end closes it, a reference notes the id.
pub open spec fn rg_marker(s: RgState, name: Seq<char>, attrs: Seq<Option<XmlAttr>>) -> RgState {
    match attr_by_local(attrs, "id"@) {
        Some(id) => if name == "commentRangeStart"@ {
            RgState { order: set_insert(s.order, id), open: set_insert(s.open, id), ..s }
        } else if name == "commentRangeEnd"@ {
            RgState { open: remove_all(s.open, id), ..s }
        } else {
            RgState { order: set_insert(s.order, id), ..s }
        },
        None => s,
    }
}

/// `text` with `t` added (within the byte cap) to the text of each id in
/// `ids`.
pub open spec fn add_to_all(text: Seq<(Seq<char>, Seq<char>)>, ids: Seq<Seq<char>>, t: Seq<char>) -> Seq<
    (Seq<char>, Seq<char>),
>
    decreases ids.len(),
{
    if ids.len() == 0 {
        text
    } else {
        let prev = add_to_all(text, ids.drop_last(), t);
        assoc_set(prev, ids.last(), push_capped_spec(assoc_get(prev, ids.last()), t))
    }
}

/// The state after one token of a content part: markers are honored
/// everywhere; inside a skipped `mc:Choice` branch other elements only
/// track depth; run text (and a run's line break, as a space) is added to
/// every open range.
pub open spec fn rg_step(s: RgState, t: XmlToken) -> RgState {
    match t {
        XmlToken::Start(e) => if is_marker(e.name@) {
            rg_marker(s, e.name@, e.attrs@)
        } else if s.in_choice {
            RgState { choice_depth: bump(s.choice_depth), ..s }
        } else if e.name@ == "Choice"@ {
            RgState { in_choice: true, choice_depth: 1, ..s }
        } else if e.name@ == "r"@ {
            RgState { in_run: true, ..s }
        } else if e.name@ == "t"@ {
            RgState { in_text: true, ..s }
        } else {
            s
        },
        XmlToken::Empty(e) => if is_marker(e.name@) {
            rg_marker(s, e.name@, e.attrs@)
        } else if s.in_choice {
            s
        } else if e.name@ == "br"@ && s.in_run && s.open.len() > 0 {
            RgState { text: add_to_all(s.text, s.open, seq![' ']), ..s }
        } else {
            s
        },
        XmlToken::End(n) => if s.in_choice {
            let d: nat = if s.choice_depth > 0 {
                (s.choice_depth - 1) as nat
            } else {
                0
            };
            RgState { choice_depth: d, in_choice: d != 0, ..s }
        } else if n@ == "t"@ {
            RgState { in_text: false, ..s }
        } else if n@ == "r"@ {
            RgState { in_run: false, in_text: false, ..s }
        } else {
            s
        },
        _ => match token_text(t) {
            Some(x) => if s.in_text && s.in_run && s.open.len() > 0 {
                RgState { text: add_to_all(s.text, s.open, x), ..s }
            } else {
                s
            },
            None => s,
        },
    }
}

/// The state after the tokens of a part.
pub open spec fn rg_fold(tokens: Seq<XmlToken>) -> RgState
    decreases tokens.len(),
{
    if tokens.len() == 0 {
        rg_start()
    } else {
        rg_step(rg_fold(tokens.drop_last()), tokens.last())
    }
}

/// A range scan state that keeps its promises: each id is noted once, the
/// open ranges and the collected texts belong to noted ids, and no text
/// exceeds [`RANGE_CAP_BYTES`] bytes.
pub open spec fn rg_wf(s: RgState) -> bool {
    &&& s.order.no_duplicates()
    &&& forall|i: int| 0 <= i < s.open.len() ==> s.order.contains(#[trigger] s.open[i])
    &&& forall|i: int| 0 <= i < s.text.len() ==> s.order.contains(#[trigger] s.text[i].0)
    &&& forall|i: int| 0 <= i < s.text.len() ==> utf8_bytes(#[trigger] s.text[i].1) <= RANGE_CAP_BYTES
}

/// The UTF-8 size of a concatenation is the sum of the sizes.
proof fn lemma_utf8_bytes_concat(a: Seq<char>, b: Seq<char>)
    ensures
        utf8_bytes(a + b) == utf8_bytes(a) + utf8_bytes(b),
    decreases b.len(),
{
    if b.len() == 0 {
        assert(a + b =~= a);
    } else {
        lemma_utf8_bytes_concat(a, b.drop_last());
        assert((a + b).drop_last() =~= a + b.drop_last());
        assert((a + b).last() == b.last());
    }
}

/// The prefix that fits in `room` bytes takes at most `room` bytes.
proof fn lemma_fit_prefix_bytes(s: Seq<char>, room: nat)
    ensures
        utf8_bytes(fit_prefix(s, room)) <= room,
    decreases s.len(),
{
    if s.len() == 0 || utf8_width(s[0]) > room {
        assert(utf8_bytes(Seq::<char>::empty()) == 0);
    } else {
        let rest = fit_prefix(s.drop_first(), (room - utf8_width(s[0])) as nat);
        lemma_fit_prefix_bytes(s.drop_first(), (room - utf8_width(s[0])) as nat);
        lemma_utf8_bytes_concat(seq![s[0]], rest);
        assert(seq![s[0]].drop_last() =~= Seq::<char>::empty());
        assert(seq![s[0]].last() == s[0]);
        assert(utf8_bytes(Seq::<char>::empty()) == 0);
        assert(utf8_bytes(seq![s[0]]) == utf8_width(s[0]));
        assert(fit_prefix(s, room) == seq![s[0]] + rest);
    }
}

/// Appending within the cap keeps a text within [`RANGE_CAP_BYTES`] bytes.
proof fn lemma_push_capped_bound(buf: Seq<char>, t: Seq<char>)
    requires
        utf8_bytes(buf) <= RANGE_CAP_BYTES,
    ensures
        utf8_bytes(push_capped_spec(buf, t)) <= RANGE_CAP_BYTES,
{
    if utf8_bytes(buf) < RANGE_CAP_BYTES {
        let room = (RANGE_CAP_BYTES - utf8_bytes(buf)) as nat;
        if room >= utf8_bytes(t) {
            lemma_utf8_bytes_concat(buf, t);
        } else {
            lemma_fit_prefix_bytes(t, room);
            lemma_utf8_bytes_concat(buf, fit_prefix(t, room));
        }
    }
}

/// The index [`find_key`] finds holds the key.
proof fn lemma_find_key(s: Seq<(Seq<char>, Seq<char>)>, k: Seq<char>, j: int)
    ensures
        find_key(s, k, j) matches Some(i) ==> j <= i < s.len() && s[i].0 == k,
    decreases s.len() - j,
{
    if 0 <= j < s.len() && s[j].0 != k {
        lemma_find_key(s, k, j + 1);
    }
}

/// Setting a value under a noted key, within the cap, keeps the texts
/// within the noted ids and the cap.
proof fn lemma_assoc_set_wf(
    text: Seq<(Seq<char>, Seq<char>)>,
    order: Seq<Seq<char>>,
    k: Seq<char>,
    v: Seq<char>,
)
    requires
        order.contains(k),
        utf8_bytes(v) <= RANGE_CAP_BYTES,
        forall|i: int| 0 <= i < text.len() ==> order.contains(#[trigger] text[i].0),
        forall|i: int| 0 <= i < text.len() ==> utf8_bytes(#[trigger] text[i].1) <= RANGE_CAP_BYTES,
    ensures
        forall|i: int|
            0 <= i < assoc_set(text, k, v).len() ==> order.contains(
                #[trigger] assoc_set(text, k, v)[i].0,
            ),
        forall|i: int|
            0 <= i < assoc_set(text, k, v).len() ==> utf8_bytes(
                #[trigger] assoc_set(text, k, v)[i].1,
            ) <= RANGE_CAP_BYTES,
{
    lemma_find_key(text, k, 0);
}

/// The value under a key is within the cap when every value is.
proof fn lemma_assoc_get_bound(text: Seq<(Seq<char>, Seq<char>)>, k: Seq<char>)
    requires
        forall|i: int| 0 <= i < text.len() ==> utf8_bytes(#[trigger] text[i].1) <= RANGE_CAP_BYTES,
    ensures
        utf8_bytes(assoc_get(text, k)) <= RANGE_CAP_BYTES,
{
    lemma_find_key(text, k, 0);
}

/// Adding text to noted ids keeps the texts within the noted ids and the
/// cap.
proof fn lemma_add_to_all_wf(
    text: Seq<(Seq<char>, Seq<char>)>,
    order: Seq<Seq<char>>,
    ids: Seq<Seq<char>>,
    t: Seq<char>,
)
    requires
        forall|i: int| 0 <= i < ids.len() ==> order.contains(#[trigger] ids[i]),
        forall|i: int| 0 <= i < text.len() ==> order.contains(#[trigger] text[i].0),
        forall|i: int| 0 <= i < text.len() ==> utf8_bytes(#[trigger] text[i].1) <= RANGE_CAP_BYTES,
    ensures
        forall|i: int|
            0 <= i < add_to_all(text, ids, t).len() ==> order.contains(
                #[trigger] add_to_all(text, ids, t)[i].0,
            ),
        forall|i: int|
            0 <= i < add_to_all(text, ids, t).len() ==> utf8_bytes(
                #[trigger] add_to_all(text, ids, t)[i].1,
            ) <= RANGE_CAP_BYTES,
    decreases ids.len(),
{
    if ids.len() > 0 {
        let pre = ids.drop_last();
        assert forall|i: int| 0 <= i < pre.len() implies order.contains(#[trigger] pre[i]) by {
            assert(pre[i] == ids[i]);
        }
        lemma_add_to_all_wf(text, order, pre, t);
        let prev = add_to_all(text, pre, t);
        lemma_assoc_get_bound(prev, ids.last());
        lemma_push_capped_bound(assoc_get(prev, ids.last()), t);
        assert(order.contains(ids[ids.len() - 1]));
        lemma_assoc_set_wf(prev, order, ids.last(), push_capped_spec(assoc_get(prev, ids.last()), t));
    }
}

/// What stays after removing an id was there before.
proof fn lemma_remove_all_subset(s: Seq<Seq<char>>, x: Seq<char>)
    ensures
        forall|i: int|
            0 <= i < remove_all(s, x).len() ==> s.contains(#[trigger] remove_all(s, x)[i]),
    decreases s.len(),
{
    if s.len() > 0 {
        lemma_remove_all_subset(s.drop_last(), x);
        let r = remove_all(s.drop_last(), x);
        assert forall|i: int| 0 <= i < remove_all(s, x).len() implies s.contains(
            #[trigger] remove_all(s, x)[i],
        ) by {
            if i < r.len() {
                assert(s.drop_last().contains(r[i]));
                let j = choose|j: int| 0 <= j < s.drop_last().len() && s.drop_last()[j] == r[i];
                assert(s[j] == r[i]);
            } else {
                assert(s[s.len() - 1] == s.last());
            }
        }
    }
}

/// A marker keeps a range scan state's promises.
proof fn lemma_rg_marker_wf(s: RgState, name: Seq<char>, attrs: Seq<Option<XmlAttr>>)
    requires
        rg_wf(s),
    ensures
        rg_wf(rg_marker(s, name, attrs)),
{
    match attr_by_local(attrs, "id"@) {
        Some(id) => {
            let o2 = set_insert(s.order, id);
            assert(o2.no_duplicates()) by {
                if !s.order.contains(id) {
                    assert forall|i: int, j: int| 0 <= i < o2.len() && 0 <= j < o2.len() && i != j
                        implies o2[i] != o2[j] by {
                        if i == s.order.len() as int {
                            assert(!s.order.contains(o2[j]) || o2[j] != id);
                        } else if j == s.order.len() as int {
                            assert(s.order.contains(o2[i]));
                        }
                    }
                }
            }
            assert(o2.contains(id)) by {
                if !s.order.contains(id) {
                    assert(o2[o2.len() - 1] == id);
                }
            }
            assert forall|x: Seq<char>| s.order.contains(x) implies o2.contains(x) by {
                if !s.order.contains(id) {
                    let j = choose|j: int| 0 <= j < s.order.len() && s.order[j] == x;
                    assert(o2[j] == x);
                }
            }
            if name == "commentRangeStart"@ {
                let p2 = set_insert(s.open, id);
                assert forall|i: int| 0 <= i < p2.len() implies o2.contains(#[trigger] p2[i]) by {
                    if i < s.open.len() {
                        assert(s.order.contains(s.open[i]));
                    }
                }
            } else if name == "commentRangeEnd"@ {
                lemma_remove_all_subset(s.open, id);
                let p2 = remove_all(s.open, id);
                assert forall|i: int| 0 <= i < p2.len() implies s.order.contains(#[trigger] p2[i]) by {
                    assert(s.open.contains(p2[i]));
                    let j = choose|j: int| 0 <= j < s.open.len() && s.open[j] == p2[i];
                    assert(s.order.contains(s.open[j]));
                }
            }
        },
        None => {},
    }
}

/// One token keeps a range scan state's promises.
proof fn lemma_rg_step_wf(s: RgState, t: XmlToken)
    requires
        rg_wf(s),
    ensures
        rg_wf(rg_step(s, t)),
{
    match t {
        XmlToken::Start(e) => {
            if is_marker(e.name@) {
                lemma_rg_marker_wf(s, e.name@, e.attrs@);
            }
        },
        XmlToken::Empty(e) => {
            if is_marker(e.name@) {
                lemma_rg_marker_wf(s, e.name@, e.attrs@);
            } else if !s.in_choice && e.name@ == "br"@ && s.in_run && s.open.len() > 0 {
                lemma_add_to_all_wf(s.text, s.order, s.open, seq![' ']);
            }
        },
        XmlToken::End(_) => {},
        _ => {
            match token_text(t) {
                Some(x) => {
                    lemma_add_to_all_wf(s.text, s.order, s.open, x);
                },
                None => {},
            }
        },
    }
}

/// The comment ranges collected from a part (see
/// [`collect_ranges_in_part`]) name each id once, collect text only for
/// ids they name, and hold at most [`RANGE_CAP_BYTES`] bytes of text per
/// id, also when a range is never closed.
pub proof fn lemma_ranges_well_formed(tokens: Seq<XmlToken>)
    ensures
        rg_wf(rg_fold(tokens)),
    decreases tokens.len(),
{
    if tokens.len() == 0 {
        assert(rg_start().order.no_duplicates());
    } else {
        lemma_ranges_well_formed(tokens.drop_last());
        lemma_rg_step_wf(rg_fold(tokens.drop_last()), tokens.last());
    }
}

/// Adds `t` to the text of every open id (see [`add_to_all`]).
fn add_text_to_open(text: &mut Vec<(Vec<char>, Vec<char>)>, open: &Vec<Vec<char>>, t: &[char])
    ensures
        assoc_view(final(text)@) == add_to_all(assoc_view(old(text)@), chars_list_view(open@), t@),
{
    let ghost ov = chars_list_view(open@);
    let mut i: usize = 0;
    while i < open.len()
        invariant
            i <= open.len(),
            ov == chars_list_view(open@),
            assoc_view(text@) == add_to_all(assoc_view(old(text)@), ov.subrange(0, i as int), t@),
        decreases open.len() - i,
    {
        assert(ov.subrange(0, i + 1).drop_last() =~= ov.subrange(0, i as int));
        let cur = assoc_lookup(text, open[i].as_slice());
        let next = push_capped(&cur, t);
        assoc_store(text, open[i].as_slice(), next);
        i = i + 1;
    }
    assert(ov.subrange(0, open.len() as int) =~= ov);
}

/// Applies a range marker (see [`rg_marker`]).
fn apply_marker(
    name: &Vec<char>,
    attrs: &Vec<Option<XmlAttr>>,
    order: &mut Vec<Vec<char>>,
    open: &mut Vec<Vec<char>>,
)
    ensures
        ({
            let r = rg_marker(
                RgState { order: chars_list_view(old(order)@), open: chars_list_view(old(open)@), ..rg_start() },
                name@,
                attrs@,
            );
            chars_list_view(final(order)@) == r.order && chars_list_view(final(open)@) == r.open
        }),
{
    match find_attr_local(attrs, "id") {
        Some(v) => {
            let id = chars_of(v.as_str());
            if eq_str(name.as_slice(), "commentRangeStart") {
                list_insert(order, &id);
                list_insert(open, &id);
            } else if eq_str(name.as_slice(), "commentRangeEnd") {
                let r = list_remove(open, &id);
                *open = r;
            } else {
                list_insert(order, &id);
            }
        },
        None => {},
    }
}

/// The commented-on text of one content part: the comment ids in order of
/// first appearance and the text collected for each (see [`rg_step`]).
pub fn collect_ranges_in_part(xml: &str) -> (r: (Vec<Vec<char>>, Vec<(Vec<char>, Vec<char>)>))
    ensures
        chars_list_view(r.0@) == rg_fold(xml_tokens(xml@)).order,
        assoc_view(r.1@) == rg_fold(xml_tokens(xml@)).text,
{
    let tokens = tokenize(xml);
    let mut order: Vec<Vec<char>> = Vec::new();
    let mut text: Vec<(Vec<char>, Vec<char>)> = Vec::new();
    let mut open: Vec<Vec<char>> = Vec::new();
    let mut in_choice = false;
    let mut depth: usize = 0;
    let mut in_run = false;
    let mut in_text = false;
    let mut i: usize = 0;
    assert(chars_list_view(order@) =~= Seq::<Seq<char>>::empty());
    assert(chars_list_view(open@) =~= Seq::<Seq<char>>::empty());
    assert(assoc_view(text@) =~= Seq::<(Seq<char>, Seq<char>)>::empty());
    while i < tokens.len()
        invariant
            i <= tokens.len(),
            tokens@ == xml_tokens(xml@),
            rg_fold(tokens@.subrange(0, i as int)) == (RgState {
                order: chars_list_view(order@),
                text: assoc_view(text@),
                open: chars_list_view(open@),
                in_choice,
                choice_depth: depth as nat,
                in_run,
                in_text,
            }),
        decreases tokens.len() - i,
    {
        assert(tokens@.subrange(0, i + 1).drop_last() =~= tokens@.subrange(0, i as int));
        match &tokens[i] {
            XmlToken::Start(e) => {
                let n = chars_of(e.name.as_str());
                if eq_str(n.as_slice(), "commentRangeStart") || eq_str(n.as_slice(), "commentRangeEnd")
                    || eq_str(n.as_slice(), "commentReference") {
                    apply_marker(&n, &e.attrs, &mut order, &mut open);
                } else if in_choice {
                    if depth < usize::MAX {
                        depth = depth + 1;
                    }
                } else if eq_str(n.as_slice(), "Choice") {
                    in_choice = true;
                    depth = 1;
                } else if eq_str(n.as_slice(), "r") {
                    in_run = true;
                } else if eq_str(n.as_slice(), "t") {
                    in_text = true;
                }
            },
            XmlToken::Empty(e) => {
                let n = chars_of(e.name.as_str());
                if eq_str(n.as_slice(), "commentRangeStart") || eq_str(n.as_slice(), "commentRangeEnd")
                    || eq_str(n.as_slice(), "commentReference") {
                    apply_marker(&n, &e.attrs, &mut order, &mut open);
                } else if in_choice {
                } else if eq_str(n.as_slice(), "br") && in_run && open.len() > 0 {
                    let sp: Vec<char> = vec![' '];
                    add_text_to_open(&mut text, &open, sp.as_slice());
                    assert(sp@ =~= seq![' ']);
                }
            },
            XmlToken::End(nm) => {
                let n = chars_of(nm.as_str());
                if in_choice {
                    if depth > 0 {
                        depth = depth - 1;
                    }
                    in_choice = depth != 0;
                } else if eq_str(n.as_slice(), "t") {
                    in_text = false;
                } else if eq_str(n.as_slice(), "r") {
                    in_run = false;
                    in_text = false;
                }
            },
            other => {
                match text_of_token(other) {
                    Some(x) => {
                        if in_text && in_run && open.len() > 0 {
                            add_text_to_open(&mut text, &open, x.as_slice());
                        }
                    },
                    None => {},
                }
            },
        }
        i = i + 1;
    }
    assert(tokens@.subrange(0, tokens.len() as int) =~= tokens@);
    (order, text)
}

// ---------------------------------------------------------------------------
// Orders
// ---------------------------------------------------------------------------

/// Lexicographic order of texts by character (for UTF-8 text, the order
/// of `String`'s `Ord`).
pub open spec fn lex_le(a: Seq<char>, b: Seq<char>) -> bool
    decreases a.len(),
{
    if a.len() == 0 {
        true
    } else if b.len() == 0 {
        false
    } else if a[0] != b[0] {
        a[0] < b[0]
    } else {
        lex_le(a.drop_first(), b.drop_first())
    }
}

/// Any two texts are ordered one way or the other.
pub proof fn lemma_lex_total(a: Seq<char>, b: Seq<char>)
    ensures
        lex_le(a, b) || lex_le(b, a),
    decreases a.len(),
{
    if a.len() > 0 && b.len() > 0 && a[0] == b[0] {
        lemma_lex_total(a.drop_first(), b.drop_first());
    }
}

/// The lexicographic order is transitive.
pub proof fn lemma_lex_trans(a: Seq<char>, b: Seq<char>, c: Seq<char>)
    requires
        lex_le(a, b),
        lex_le(b, c),
    ensures
        lex_le(a, c),
    decreases a.len(),
{
    if a.len() > 0 && b.len() > 0 && c.len() > 0 && a[0] == b[0] && b[0] == c[0] {
        lemma_lex_trans(a.drop_first(), b.drop_first(), c.drop_first());
    }
}

/// Texts ordered both ways are equal.
pub proof fn lemma_lex_antisym(a: Seq<char>, b: Seq<char>)
    requires
        lex_le(a, b),
        lex_le(b, a),
    ensures
        a == b,
    decreases a.len(),
{
    if a.len() > 0 && b.len() > 0 {
        lemma_lex_antisym(a.drop_first(), b.drop_first());
        assert(a =~= seq![a[0]] + a.drop_first());
        assert(b =~= seq![b[0]] + b.drop_first());
    }
}

/// Whether `a` comes no later than `b` lexicographically (see
/// [`lex_le`]).
fn lex_le_exec(a: &[char], b: &[char]) -> (r: bool)
    ensures
        r == lex_le(a@, b@),
{
    let mut i: usize = 0;
    assert(a@.subrange(0, a.len() as int) =~= a@);
    assert(b@.subrange(0, b.len() as int) =~= b@);
    while i < a.len() && i < b.len() && a[i] == b[i]
        invariant
            i <= a.len(),
            i <= b.len(),
            lex_le(a@, b@) == lex_le(
                a@.subrange(i as int, a.len() as int),
                b@.subrange(i as int, b.len() as int),
            ),
        decreases a.len() - i,
    {
        assert(a@.subrange(i as int, a.len() as int).drop_first() =~= a@.subrange(i + 1, a.len() as int));
        assert(b@.subrange(i as int, b.len() as int).drop_first() =~= b@.subrange(i + 1, b.len() as int));
        i = i + 1;
    }
    if i == a.len() {
        true
    } else if i == b.len() {
        false
    } else {
        a[i] < b[i]
    }
}

/// The number an id denotes when it parses as a `u64`.
pub open spec fn id_number(id: Seq<char>) -> Option<nat> {
    crate::text::parse_uint_spec(id, u64::MAX as nat)
}

/// The order of comments without an anchor: ids that parse as numbers
/// first, by value, then the others; ties by text.
pub open spec fn orphan_le(a: Seq<char>, b: Seq<char>) -> bool {
    match (id_number(a), id_number(b)) {
        (Some(x), Some(y)) => x < y || (x == y && lex_le(a, b)),
        (Some(_), None) => true,
        (None, Some(_)) => false,
        (None, None) => lex_le(a, b),
    }
}

/// Any two ids are ordered one way or the other.
pub proof fn lemma_orphan_total(a: Seq<char>, b: Seq<char>)
    ensures
        orphan_le(a, b) || orphan_le(b, a),
{
    lemma_lex_total(a, b);
}

/// The order of ids is transitive.
pub proof fn lemma_orphan_trans(a: Seq<char>, b: Seq<char>, c: Seq<char>)
    requires
        orphan_le(a, b),
        orphan_le(b, c),
    ensures
        orphan_le(a, c),
{
    if lex_le(a, b) && lex_le(b, c) {
        lemma_lex_trans(a, b, c);
    }
}

/// Ids ordered both ways are equal.
pub proof fn lemma_orphan_antisym(a: Seq<char>, b: Seq<char>)
    requires
        orphan_le(a, b),
        orphan_le(b, a),
    ensures
        a == b,
{
    lemma_lex_total(a, b);
    if lex_le(a, b) && lex_le(b, a) {
        lemma_lex_antisym(a, b);
    }
}

/// The order of comments without an anchor is determined: two orderings
/// of the same ids that both follow [`orphan_le`] are the same.
pub proof fn lemma_orphan_order_unique(a: Seq<Seq<char>>, b: Seq<Seq<char>>)
    requires
        sorted_orphans(a),
        sorted_orphans(b),
        a.to_multiset() == b.to_multiset(),
    ensures
        a == b,
    decreases a.len(),
{
    broadcast use vstd::seq_lib::group_to_multiset_ensures;

    vstd::seq_lib::to_multiset_len(a);
    vstd::seq_lib::to_multiset_len(b);
    if a.len() == 0 {
        assert(a =~= b);
    } else {
        vstd::seq_lib::to_multiset_contains(a, b[0]);
        vstd::seq_lib::to_multiset_contains(b, b[0]);
        vstd::seq_lib::to_multiset_contains(a, a[0]);
        vstd::seq_lib::to_multiset_contains(b, a[0]);
        assert(b.contains(b[0]));
        assert(a.contains(a[0]));
        let i = choose|i: int| 0 <= i < a.len() && a[i] == b[0];
        let j = choose|j: int| 0 <= j < b.len() && b[j] == a[0];
        if i > 0 {
            assert(orphan_le(a[0], a[i]));
        } else {
            lemma_orphan_total(a[0], b[0]);
        }
        if j > 0 {
            assert(orphan_le(b[0], b[j]));
        } else {
            lemma_orphan_total(a[0], b[0]);
        }
        lemma_orphan_antisym(a[0], b[0]);
        vstd::seq_lib::to_multiset_remove(a, 0);
        vstd::seq_lib::to_multiset_remove(b, 0);
        assert(a.remove(0) =~= a.drop_first());
        assert(b.remove(0) =~= b.drop_first());
        assert(sorted_orphans(a.drop_first())) by {
            assert forall|x: int, y: int| 0 <= x < y < a.drop_first().len() implies orphan_le(
                #[trigger] a.drop_first()[x],
                #[trigger] a.drop_first()[y],
            ) by {
                assert(a.drop_first()[x] == a[x + 1]);
                assert(a.drop_first()[y] == a[y + 1]);
            }
        }
        assert(sorted_orphans(b.drop_first())) by {
            assert forall|x: int, y: int| 0 <= x < y < b.drop_first().len() implies orphan_le(
                #[trigger] b.drop_first()[x],
                #[trigger] b.drop_first()[y],
            ) by {
                assert(b.drop_first()[x] == b[x + 1]);
                assert(b.drop_first()[y] == b[y + 1]);
            }
        }
        lemma_orphan_order_unique(a.drop_first(), b.drop_first());
        assert(a =~= seq![a[0]] + a.drop_first());
        assert(b =~= seq![b[0]] + b.drop_first());
    }
}

/// Whether `a` comes no later than `b` (see [`orphan_le`]).
fn orphan_le_exec(a: &[char], b: &[char]) -> (r: bool)
    ensures
        r == orphan_le(a@, b@),
{
    let x = crate::text::parse_uint(a, u64::MAX);
    let y = crate::text::parse_uint(b, u64::MAX);
    match (x, y) {
        (Some(x), Some(y)) => x < y || (x == y && lex_le_exec(a, b)),
        (Some(_), None) => true,
        (None, Some(_)) => false,
        (None, None) => lex_le_exec(a, b),
    }
}

/// Whether `s` is in lexicographic order.
pub open spec fn sorted_lex(s: Seq<Seq<char>>) -> bool {
    forall|i: int, j: int| 0 <= i < j < s.len() ==> lex_le(#[trigger] s[i], #[trigger] s[j])
}

/// Whether `s` is in the order of ids without anchors.
pub open spec fn sorted_orphans(s: Seq<Seq<char>>) -> bool {
    forall|i: int, j: int| 0 <= i < j < s.len() ==> orphan_le(#[trigger] s[i], #[trigger] s[j])
}

/// Sorts texts lexicographically (a stable insertion sort).
pub fn sort_lex(v: &Vec<Vec<char>>) -> (r: Vec<Vec<char>>)
    ensures
        sorted_lex(chars_list_view(r@)),
        chars_list_view(r@).to_multiset() == chars_list_view(v@).to_multiset(),
{
    broadcast use vstd::seq_lib::group_to_multiset_ensures;

    let ghost vv = chars_list_view(v@);
    let mut r: Vec<Vec<char>> = Vec::new();
    let mut i: usize = 0;
    assert(chars_list_view(r@) =~= vv.subrange(0, 0));
    while i < v.len()
        invariant
            i <= v.len(),
            vv == chars_list_view(v@),
            sorted_lex(chars_list_view(r@)),
            chars_list_view(r@).to_multiset() == vv.subrange(0, i as int).to_multiset(),
        decreases v.len() - i,
    {
        let x = slice_chars(v[i].as_slice(), 0, v[i].len());
        assert(x@ =~= vv[i as int]);
        let ghost rv = chars_list_view(r@);
        let mut p: usize = 0;
        while p < r.len() && lex_le_exec(r[p].as_slice(), x.as_slice())
            invariant
                p <= r.len(),
                rv == chars_list_view(r@),
                forall|k: int| 0 <= k < p ==> lex_le(#[trigger] rv[k], x@),
            decreases r.len() - p,
        {
            p = p + 1;
        }
        proof {
            if p < r.len() {
                lemma_lex_total(rv[p as int], x@);
                assert forall|k: int| p <= k < rv.len() implies lex_le(x@, #[trigger] rv[k]) by {
                    if k > p {
                        lemma_lex_trans(x@, rv[p as int], rv[k]);
                    }
                }
            }
        }
        r.insert(p, x);
        proof {
            let nv = chars_list_view(r@);
            assert(nv =~= rv.insert(p as int, x@));
            assert forall|a: int, b: int| 0 <= a < b < nv.len() implies lex_le(#[trigger] nv[a], #[trigger] nv[b]) by {
                if b < p {
                } else if b == p {
                    assert(nv[a] == rv[a]);
                } else if a < p {
                    assert(nv[a] == rv[a]);
                    assert(nv[b] == rv[b - 1]);
                } else if a == p {
                    assert(nv[b] == rv[b - 1]);
                } else {
                    assert(nv[a] == rv[a - 1]);
                    assert(nv[b] == rv[b - 1]);
                }
            }
            assert(vv.subrange(0, i + 1) =~= vv.subrange(0, i as int).push(vv[i as int]));
            vstd::seq_lib::to_multiset_insert(rv, p as int, x@);
            vstd::seq_lib::to_multiset_build(vv.subrange(0, i as int), vv[i as int]);
        }
        i = i + 1;
    }
    assert(vv.subrange(0, v.len() as int) =~= vv);
    r
}

/// Sorts ids in the order of comments without anchors (see
/// [`orphan_le`]; a stable insertion sort).
pub fn sort_orphans(v: &Vec<Vec<char>>) -> (r: Vec<Vec<char>>)
    ensures
        sorted_orphans(chars_list_view(r@)),
        chars_list_view(r@).to_multiset() == chars_list_view(v@).to_multiset(),
{
    broadcast use vstd::seq_lib::group_to_multiset_ensures;

    let ghost vv = chars_list_view(v@);
    let mut r: Vec<Vec<char>> = Vec::new();
    let mut i: usize = 0;
    assert(chars_list_view(r@) =~= vv.subrange(0, 0));
    while i < v.len()
        invariant
            i <= v.len(),
            vv == chars_list_view(v@),
            sorted_orphans(chars_list_view(r@)),
            chars_list_view(r@).to_multiset() == vv.subrange(0, i as int).to_multiset(),
        decreases v.len() - i,
    {
        let x = slice_chars(v[i].as_slice(), 0, v[i].len());
        assert(x@ =~= vv[i as int]);
        let ghost rv = chars_list_view(r@);
        let mut p: usize = 0;
        while p < r.len() && orphan_le_exec(r[p].as_slice(), x.as_slice())
            invariant
                p <= r.len(),
                rv == chars_list_view(r@),
                forall|k: int| 0 <= k < p ==> orphan_le(#[trigger] rv[k], x@),
            decreases r.len() - p,
        {
            p = p + 1;
        }
        proof {
            if p < r.len() {
                lemma_orphan_total(rv[p as int], x@);
                assert forall|k: int| p <= k < rv.len() implies orphan_le(x@, #[trigger] rv[k]) by {
                    if k > p {
                        lemma_orphan_trans(x@, rv[p as int], rv[k]);
                    }
                }
            }
        }
        r.insert(p, x);
        proof {
            let nv = chars_list_view(r@);
            assert(nv =~= rv.insert(p as int, x@));
            assert forall|a: int, b: int| 0 <= a < b < nv.len() implies orphan_le(#[trigger] nv[a], #[trigger] nv[b]) by {
                if b < p {
                } else if b == p {
                    assert(nv[a] == rv[a]);
                } else if a < p {
                    assert(nv[a] == rv[a]);
                    assert(nv[b] == rv[b - 1]);
                } else if a == p {
                    assert(nv[b] == rv[b - 1]);
                } else {
                    assert(nv[a] == rv[a - 1]);
                    assert(nv[b] == rv[b - 1]);
                }
            }
            assert(vv.subrange(0, i + 1) =~= vv.subrange(0, i as int).push(vv[i as int]));
            vstd::seq_lib::to_multiset_insert(rv, p as int, x@);
            vstd::seq_lib::to_multiset_build(vv.subrange(0, i as int), vv[i as int]);
        }
        i = i + 1;
    }
    assert(vv.subrange(0, v.len() as int) =~= vv);
    r
}

// ---------------------------------------------------------------------------
// Assembly
// ---------------------------------------------------------------------------

/// A comment ready to be shown.
#[derive(Debug)]
pub struct Comment {
    /// The author line (see [`author_line`]).
    pub author: String,
    /// The text, whitespace collapsed.
    pub body: String,
    /// The commented-on text, whitespace collapsed and capped.
    pub source: String,
    /// Whether the comment replies to another.
    pub is_reply: bool,
}

/// The view of a comment.
pub struct CommentView {
    pub author: Seq<char>,
    pub body: Seq<char>,
    pub source: Seq<char>,
    pub is_reply: bool,
}

impl View for Comment {
    type V = CommentView;

    open spec fn view(&self) -> CommentView {
        CommentView {
            author: self.author@,
            body: self.body@,
            source: self.source@,
            is_reply: self.is_reply,
        }
    }
}

/// The view of a list of comments.
pub open spec fn comments_view(v: Seq<Comment>) -> Seq<CommentView> {
    v.map_values(|c: Comment| c@)
}

/// The comment with id `id`: the last one with that id.
pub open spec fn raw_lookup(raws: Seq<(Seq<char>, RawView)>, id: Seq<char>) -> Option<RawView>
    decreases raws.len(),
{
    if raws.len() == 0 {
        None
    } else if raws.last().0 == id {
        Some(raws.last().1)
    } else {
        raw_lookup(raws.drop_last(), id)
    }
}

/// A comment as shown: author line, collapsed text, collapsed and capped
/// source (empty without one), and whether its last paragraph is marked as
/// a reply.
pub open spec fn build_comment_spec(rc: RawView, replies: Seq<Seq<char>>, source: Option<Seq<char>>) -> CommentView {
    CommentView {
        author: author_line(rc.author, rc.date),
        body: collapse_words(rc.body),
        source: match source {
            Some(s) => cap_text_spec(collapse_words(s), SOURCE_CAP as nat),
            None => Seq::empty(),
        },
        is_reply: rc.para_id matches Some(p) && replies.contains(p),
    }
}

/// The anchors of all parts in scan order: each id with the text its
/// range collected in that part.
pub open spec fn flat_anchors(parts: Seq<(Seq<Seq<char>>, Seq<(Seq<char>, Seq<char>)>)>) -> Seq<
    (Seq<char>, Seq<char>),
>
    decreases parts.len(),
{
    if parts.len() == 0 {
        Seq::empty()
    } else {
        flat_anchors(parts.drop_last()) + parts.last().0.map_values(
            |id: Seq<char>| (id, assoc_get(parts.last().1, id)),
        )
    }
}

/// The anchored ids in order of first appearance across parts.
pub open spec fn anchored_ids(flat: Seq<(Seq<char>, Seq<char>)>) -> Seq<Seq<char>>
    decreases flat.len(),
{
    if flat.len() == 0 {
        Seq::empty()
    } else {
        set_insert(anchored_ids(flat.drop_last()), flat.last().0)
    }
}

/// The commented-on text of each id: the non-empty texts of its ranges
/// across parts, joined by ` … `.
pub open spec fn merged_sources(flat: Seq<(Seq<char>, Seq<char>)>) -> Seq<(Seq<char>, Seq<char>)>
    decreases flat.len(),
{
    if flat.len() == 0 {
        Seq::empty()
    } else {
        let prev = merged_sources(flat.drop_last());
        let (id, t) = flat.last();
        if t.len() == 0 {
            prev
        } else {
            match find_key(prev, id, 0) {
                Some(i) => assoc_set(prev, id, prev[i].1 + " … "@ + t),
                None => assoc_set(prev, id, t),
            }
        }
    }
}

/// The merged source of `id`, when it has one.
pub open spec fn source_of(src: Seq<(Seq<char>, Seq<char>)>, id: Seq<char>) -> Option<Seq<char>> {
    match find_key(src, id, 0) {
        Some(i) => Some(src[i].1),
        None => None,
    }
}

/// The comments of anchored ids in order, and the ids no comment has.
pub open spec fn anchored_comments(
    ids: Seq<Seq<char>>,
    raws: Seq<(Seq<char>, RawView)>,
    replies: Seq<Seq<char>>,
    src: Seq<(Seq<char>, Seq<char>)>,
) -> (Seq<CommentView>, Seq<Seq<char>>)
    decreases ids.len(),
{
    if ids.len() == 0 {
        (Seq::empty(), Seq::empty())
    } else {
        let (cs, unknown) = anchored_comments(ids.drop_last(), raws, replies, src);
        match raw_lookup(raws, ids.last()) {
            Some(rc) => (cs.push(build_comment_spec(rc, replies, source_of(src, ids.last()))), unknown),
            None => (cs, unknown.push(ids.last())),
        }
    }
}

/// The distinct ids of the comments, in order of first appearance.
pub open spec fn distinct_ids(raws: Seq<(Seq<char>, RawView)>) -> Seq<Seq<char>>
    decreases raws.len(),
{
    if raws.len() == 0 {
        Seq::empty()
    } else {
        set_insert(distinct_ids(raws.drop_last()), raws.last().0)
    }
}

/// Every distinct id has a comment.
pub proof fn lemma_distinct_lookup(raws: Seq<(Seq<char>, RawView)>, id: Seq<char>)
    requires
        distinct_ids(raws).contains(id),
    ensures
        raw_lookup(raws, id) is Some,
    decreases raws.len(),
{
    if raws.len() > 0 && raws.last().0 != id {
        let prev = distinct_ids(raws.drop_last());
        if !prev.contains(id) {
            assert(set_insert(prev, raws.last().0) =~= prev.push(raws.last().0));
            let i = choose|i: int| 0 <= i < prev.push(raws.last().0).len() && prev.push(raws.last().0)[i] == id;
            if i < prev.len() {
                assert(prev.contains(id));
            }
        }
        lemma_distinct_lookup(raws.drop_last(), id);
    }
}

/// The ids of comments without an anchor.
pub open spec fn orphan_ids(raws: Seq<(Seq<char>, RawView)>, anchored: Seq<Seq<char>>) -> Seq<Seq<char>> {
    distinct_ids(raws).filter(|id: Seq<char>| !anchored.contains(id))
}

/// The message of the warning for an anchor without a comment.
pub open spec fn unknown_id_message(id: Seq<char>) -> Seq<char> {
    "comment range references unknown comment id '"@ + id + "'"@
}

/// The view of raw comments by id, as built.
fn build_comment(rc: &RawComment, replies: &Vec<Vec<char>>, source: &Option<Vec<char>>) -> (c: Comment)
    ensures
        c@ == build_comment_spec(rc@, chars_list_view(replies@), opt_view(*source)),
{
    let is_reply = match &rc.para_id {
        Some(p) => {
            let pc = chars_of(p.as_str());
            list_contains(replies, &pc)
        },
        None => false,
    };
    let src = match source {
        Some(s) => {
            let c = collapse_ws(s.as_slice());
            cap_text(c.as_slice(), SOURCE_CAP)
        },
        None => Vec::new(),
    };
    let a = chars_of(rc.author.as_str());
    let d = chars_of(rc.date.as_str());
    let author = format_author(a.as_slice(), d.as_slice());
    let b = chars_of(rc.body.as_str());
    let body = collapse_ws(b.as_slice());
    Comment {
        author: string_from_chars(author.as_slice()),
        body: string_from_chars(body.as_slice()),
        source: string_from_chars(src.as_slice()),
        is_reply,
    }
}

/// The comment with id `id` (see [`raw_lookup`]).
fn find_raw<'a>(raws: &'a Vec<(String, RawComment)>, id: &[char]) -> (r: Option<&'a RawComment>)
    ensures
        r matches Some(rc) ==> raw_lookup(raws_view(raws@), id@) == Some(rc@),
        r is None ==> raw_lookup(raws_view(raws@), id@) is None,
{
    let ghost rv = raws_view(raws@);
    let mut j = raws.len();
    assert(rv.subrange(0, raws.len() as int) =~= rv);
    while j > 0
        invariant
            j <= raws.len(),
            rv == raws_view(raws@),
            raw_lookup(rv.subrange(0, j as int), id@) == raw_lookup(rv, id@),
        decreases j,
    {
        assert(rv.subrange(0, j as int).drop_last() =~= rv.subrange(0, j - 1));
        let k = chars_of(raws[j - 1].0.as_str());
        if crate::text::eq_chars(k.as_slice(), id) {
            return Some(&raws[j - 1].1);
        }
        j = j - 1;
    }
    None
}

/// The comments of a document in the order shown: the comments of
/// anchored ids in order of first appearance across the parts (body,
/// headers, footers, footnotes, endnotes), then the comments without an
/// anchor in id order (see [`orphan_le`]). An anchor whose id has no
/// comment adds a `MalformedSegment` warning.
pub fn assemble_docx_comments(
    raws: &Vec<(String, RawComment)>,
    replies: &Vec<Vec<char>>,
    parts: &Vec<(Vec<Vec<char>>, Vec<(Vec<char>, Vec<char>)>)>,
    warnings: &mut Vec<ConversionWarning>,
) -> (r: Vec<Comment>)
    ensures
        ({
            let pv = parts@.map_values(
                |p: (Vec<Vec<char>>, Vec<(Vec<char>, Vec<char>)>)| (chars_list_view(p.0@), assoc_view(p.1@)),
            );
            let flat = flat_anchors(pv);
            let ids = anchored_ids(flat);
            let (cs, unknown) = anchored_comments(
                ids,
                raws_view(raws@),
                chars_list_view(replies@),
                merged_sources(flat),
            );
            let orphans = orphan_ids(raws_view(raws@), ids);
            &&& exists|o: Seq<Seq<char>>|
                {
                    &&& sorted_orphans(o)
                    &&& o.to_multiset() == orphans.to_multiset()
                    &&& comments_view(r@) == cs + o.map_values(
                        |id: Seq<char>|
                            build_comment_spec(
                                raw_lookup(raws_view(raws@), id)->0,
                                chars_list_view(replies@),
                                None,
                            ),
                    )
                }
            &&& final(warnings)@.len() == old(warnings)@.len() + unknown.len()
            &&& final(warnings)@.subrange(0, old(warnings)@.len() as int) == old(warnings)@
            &&& forall|k: int|
                0 <= k < unknown.len() ==> {
                    let w = #[trigger] final(warnings)@[old(warnings)@.len() + k];
                    &&& w.code == WarningCode::MalformedSegment
                    &&& w.message@ == unknown_id_message(unknown[k])
                    &&& w.location matches Some(l) && l@ == unknown[k]
                }
        }),
{
    let ghost pv = parts@.map_values(
        |p: (Vec<Vec<char>>, Vec<(Vec<char>, Vec<char>)>)| (chars_list_view(p.0@), assoc_view(p.1@)),
    );
    let ghost rv = raws_view(raws@);
    let ghost rp = chars_list_view(replies@);
    // Anchored ids and merged sources, part by part.
    let mut ids: Vec<Vec<char>> = Vec::new();
    let mut src: Vec<(Vec<char>, Vec<char>)> = Vec::new();
    let ghost mut done: Seq<(Seq<char>, Seq<char>)> = Seq::empty();
    let mut pi: usize = 0;
    assert(chars_list_view(ids@) =~= Seq::<Seq<char>>::empty());
    assert(assoc_view(src@) =~= Seq::<(Seq<char>, Seq<char>)>::empty());
    while pi < parts.len()
        invariant
            pi <= parts.len(),
            pv == parts@.map_values(
                |p: (Vec<Vec<char>>, Vec<(Vec<char>, Vec<char>)>)| (chars_list_view(p.0@), assoc_view(p.1@)),
            ),
            done == flat_anchors(pv.subrange(0, pi as int)),
            chars_list_view(ids@) == anchored_ids(done),
            assoc_view(src@) == merged_sources(done),
        decreases parts.len() - pi,
    {
        let order = &parts[pi].0;
        let text = &parts[pi].1;
        let ghost ov = chars_list_view(order@);
        let ghost tv = assoc_view(text@);
        assert(pv[pi as int] == (ov, tv));
        let ghost start = done;
        let mut k: usize = 0;
        while k < order.len()
            invariant
                k <= order.len(),
                ov == chars_list_view(order@),
                tv == assoc_view(text@),
                done == start + ov.subrange(0, k as int).map_values(|id: Seq<char>| (id, assoc_get(tv, id))),
                chars_list_view(ids@) == anchored_ids(done),
                assoc_view(src@) == merged_sources(done),
            decreases order.len() - k,
        {
            let id = &order[k];
            list_insert(&mut ids, id);
            let t = assoc_lookup(text, id.as_slice());
            if t.len() > 0 {
                match assoc_find(&src, id.as_slice()) {
                    Some(i) => {
                        let mut merged = slice_chars(src[i].1.as_slice(), 0, src[i].1.len());
                        assert(merged@ =~= assoc_view(src@)[i as int].1);
                        push_str(&mut merged, " … ");
                        push_all(&mut merged, t.as_slice());
                        assoc_store(&mut src, id.as_slice(), merged);
                    },
                    None => {
                        assoc_store(&mut src, id.as_slice(), t);
                    },
                }
            }
            proof {
                let nd = done.push((ov[k as int], assoc_get(tv, ov[k as int])));
                assert(nd.drop_last() =~= done);
                assert(nd.last() == (id@, t@));
                assert(assoc_view(src@) == merged_sources(nd));
                done = nd;
                assert(done =~= start + ov.subrange(0, k + 1).map_values(
                    |id: Seq<char>| (id, assoc_get(tv, id)),
                ));
            }
            k = k + 1;
        }
        proof {
            assert(ov.subrange(0, order.len() as int) =~= ov);
            assert(pv.subrange(0, pi + 1).drop_last() =~= pv.subrange(0, pi as int));
            assert(done =~= flat_anchors(pv.subrange(0, pi + 1)));
        }
        pi = pi + 1;
    }
    assert(pv.subrange(0, parts.len() as int) =~= pv);
    let ghost iv = chars_list_view(ids@);
    let ghost sv = assoc_view(src@);
    // Anchored comments.
    let mut result: Vec<Comment> = Vec::new();
    let ghost w0 = warnings@;
    let ghost mut unknown: Seq<Seq<char>> = Seq::empty();
    let mut a: usize = 0;
    assert(comments_view(result@) =~= Seq::<CommentView>::empty());
    while a < ids.len()
        invariant
            a <= ids.len(),
            iv == chars_list_view(ids@),
            sv == assoc_view(src@),
            rv == raws_view(raws@),
            rp == chars_list_view(replies@),
            (comments_view(result@), unknown) == anchored_comments(iv.subrange(0, a as int), rv, rp, sv),
            warnings@.len() == w0.len() + unknown.len(),
            warnings@.subrange(0, w0.len() as int) == w0,
            forall|k: int|
                0 <= k < unknown.len() ==> {
                    let w = #[trigger] warnings@[w0.len() + k];
                    &&& w.code == WarningCode::MalformedSegment
                    &&& w.message@ == unknown_id_message(unknown[k])
                    &&& w.location matches Some(l) && l@ == unknown[k]
                },
        decreases ids.len() - a,
    {
        assert(iv.subrange(0, a + 1).drop_last() =~= iv.subrange(0, a as int));
        let id = &ids[a];
        match find_raw(raws, id.as_slice()) {
            Some(rc) => {
                let source = match assoc_find(&src, id.as_slice()) {
                    Some(i) => Some(slice_chars(src[i].1.as_slice(), 0, src[i].1.len())),
                    None => None,
                };
                proof {
                    if source is Some {
                        assert(source->0@ =~= sv[find_key(sv, id@, 0)->0].1);
                    }
                }
                let c = build_comment(rc, replies, &source);
                let ghost before = comments_view(result@);
                result.push(c);
                assert(comments_view(result@) =~= before.push(c@));
            },
            None => {
                let mut m: Vec<char> = Vec::new();
                push_str(&mut m, "comment range references unknown comment id '");
                push_all(&mut m, id.as_slice());
                push_str(&mut m, "'");
                let ghost wb = warnings@;
                warnings.push(
                    warning(WarningCode::MalformedSegment, m, Some(string_from_chars(id.as_slice()))),
                );
                proof {
                    unknown = unknown.push(id@);
                    assert(warnings@.subrange(0, w0.len() as int) =~= wb.subrange(0, w0.len() as int));
                    assert forall|k: int| 0 <= k < unknown.len() implies {
                        let w = #[trigger] warnings@[w0.len() + k];
                        &&& w.code == WarningCode::MalformedSegment
                        &&& w.message@ == unknown_id_message(unknown[k])
                        &&& w.location matches Some(l) && l@ == unknown[k]
                    } by {
                        if k < unknown.len() - 1 {
                            assert(warnings@[w0.len() + k] == wb[w0.len() + k]);
                        }
                    }
                }
            },
        }
        a = a + 1;
    }
    assert(iv.subrange(0, ids.len() as int) =~= iv);
    // Comments without an anchor, in id order.
    let mut candidates: Vec<Vec<char>> = Vec::new();
    let mut seen: Vec<Vec<char>> = Vec::new();
    let mut q: usize = 0;
    assert(chars_list_view(seen@) =~= Seq::<Seq<char>>::empty());
    assert(chars_list_view(candidates@) =~= Seq::<Seq<char>>::empty());
    while q < raws.len()
        invariant
            q <= raws.len(),
            rv == raws_view(raws@),
            iv == chars_list_view(ids@),
            chars_list_view(seen@) == distinct_ids(rv.subrange(0, q as int)),
            chars_list_view(candidates@) == distinct_ids(rv.subrange(0, q as int)).filter(
                |id: Seq<char>| !iv.contains(id),
            ),
        decreases raws.len() - q,
    {
        assert(rv.subrange(0, q + 1).drop_last() =~= rv.subrange(0, q as int));
        let k = chars_of(raws[q].0.as_str());
        let ghost sd = chars_list_view(seen@);
        let ghost cd = chars_list_view(candidates@);
        if !list_contains(&seen, &k) {
            list_insert(&mut seen, &k);
            assert(chars_list_view(seen@) =~= sd.push(k@));
            if !list_contains(&ids, &k) {
                let kc = slice_chars(k.as_slice(), 0, k.len());
                assert(kc@ =~= k@);
                candidates.push(kc);
                assert(chars_list_view(candidates@) =~= cd.push(k@));
            }
            proof {
                sd.lemma_filter_push(k@, |id: Seq<char>| !iv.contains(id));
            }
        }
        q = q + 1;
    }
    assert(rv.subrange(0, raws.len() as int) =~= rv);
    let sorted = sort_orphans(&candidates);
    let ghost ov = chars_list_view(sorted@);
    let ghost base = comments_view(result@);
    let mut s: usize = 0;
    while s < sorted.len()
        invariant
            s <= sorted.len(),
            ov == chars_list_view(sorted@),
            rv == raws_view(raws@),
            rp == chars_list_view(replies@),
            ov.to_multiset() == chars_list_view(candidates@).to_multiset(),
            chars_list_view(candidates@) == orphan_ids(rv, iv),
            comments_view(result@) == base + ov.subrange(0, s as int).map_values(
                |id: Seq<char>| build_comment_spec(raw_lookup(rv, id)->0, rp, None),
            ),
        decreases sorted.len() - s,
    {
        let id = &sorted[s];
        let ghost before = comments_view(result@);
        match find_raw(raws, id.as_slice()) {
            Some(rc) => {
                let c = build_comment(rc, replies, &None);
                result.push(c);
                assert(opt_view(None::<Vec<char>>) == None::<Seq<char>>);
                assert(comments_view(result@) =~= before.push(c@));
            },
            None => {
                proof {
                    broadcast use vstd::seq_lib::group_to_multiset_ensures;

                    let x = ov[s as int];
                    assert(ov.contains(x));
                    vstd::seq_lib::to_multiset_contains(ov, x);
                    vstd::seq_lib::to_multiset_contains(chars_list_view(candidates@), x);
                    assert(orphan_ids(rv, iv).contains(x));
                    distinct_ids(rv).lemma_filter_contains_rev(|id: Seq<char>| !iv.contains(id), x);
                    lemma_distinct_lookup(rv, x);
                }
            },
        }
        assert(comments_view(result@) =~= base + ov.subrange(0, s + 1).map_values(
            |id: Seq<char>| build_comment_spec(raw_lookup(rv, id)->0, rp, None),
        ));
        s = s + 1;
    }
    assert(ov.subrange(0, sorted.len() as int) =~= ov);
    result
}

// ---------------------------------------------------------------------------
// The comments section
// ---------------------------------------------------------------------------

/// The reply mark of a comment's text.
pub open spec fn reply_mark(c: CommentView) -> Seq<char> {
    if c.is_reply {
        "(reply) "@
    } else {
        Seq::empty()
    }
}

/// The Markdown of the `n`-th comment (1-based).
pub open spec fn comment_md(n: nat, c: CommentView) -> Seq<char> {
    "\n## "@ + decimal(n) + "\n- **author**: "@ + c.author + "\n- **comment**: "@ + reply_mark(c)
        + c.body + "\n- **source**: "@ + c.source + "\n"@
}

/// The plain text of the `n`-th comment (1-based).
pub open spec fn comment_plain(n: nat, c: CommentView) -> Seq<char> {
    "\n"@ + decimal(n) + "\nauthor: "@ + c.author + "\ncomment: "@ + reply_mark(c) + c.body
        + "\nsource: "@ + c.source + "\n"@
}

/// The comments, numbered from 1, in Markdown or plain text.
pub open spec fn comments_text(cs: Seq<CommentView>, plain: bool) -> Seq<char>
    decreases cs.len(),
{
    if cs.len() == 0 {
        Seq::empty()
    } else {
        comments_text(cs.drop_last(), plain) + if plain {
            comment_plain(cs.len(), cs.last())
        } else {
            comment_md(cs.len(), cs.last())
        }
    }
}

/// The comments section: a `Comments` heading (a level-1 heading in
/// Markdown), then the comments.
pub open spec fn section_text(cs: Seq<CommentView>, plain: bool) -> Seq<char> {
    (if plain {
        "Comments\n"@
    } else {
        "# Comments\n"@
    }) + comments_text(cs, plain)
}

/// `base` followed by `section`, separated by a blank line.
pub open spec fn after_blank_line(base: Seq<char>, section: Seq<char>) -> Seq<char> {
    if base.len() == 0 {
        section
    } else if base.len() >= 2 && base[base.len() - 1] == '\n' && base[base.len() - 2] == '\n' {
        base + section
    } else if base.last() == '\n' {
        base + seq!['\n'] + section
    } else {
        base + seq!['\n', '\n'] + section
    }
}

/// The text of the `n`-th comment in one stream.
fn comment_piece(n: usize, c: &Comment, plain: bool) -> (v: Vec<char>)
    ensures
        v@ == (if plain {
            comment_plain(n as nat, c@)
        } else {
            comment_md(n as nat, c@)
        }),
{
    let mut out: Vec<char> = Vec::new();
    let d = decimal_chars(n);
    if plain {
        push_str(&mut out, "\n");
        push_all(&mut out, d.as_slice());
        push_str(&mut out, "\nauthor: ");
        push_str(&mut out, c.author.as_str());
        push_str(&mut out, "\ncomment: ");
    } else {
        push_str(&mut out, "\n## ");
        push_all(&mut out, d.as_slice());
        push_str(&mut out, "\n- **author**: ");
        push_str(&mut out, c.author.as_str());
        push_str(&mut out, "\n- **comment**: ");
    }
    if c.is_reply {
        push_str(&mut out, "(reply) ");
    }
    push_str(&mut out, c.body.as_str());
    if plain {
        push_str(&mut out, "\nsource: ");
    } else {
        push_str(&mut out, "\n- **source**: ");
    }
    push_str(&mut out, c.source.as_str());
    push_str(&mut out, "\n");
    assert(out@ =~= (if plain {
        comment_plain(n as nat, c@)
    } else {
        comment_md(n as nat, c@)
    }));
    out
}

/// The comments in one stream (see [`comments_text`]).
fn push_comments(out: &mut Vec<char>, cs: &Vec<Comment>, plain: bool)
    ensures
        final(out)@ == old(out)@ + comments_text(comments_view(cs@), plain),
{
    let ghost cv = comments_view(cs@);
    let mut i: usize = 0;
    while i < cs.len()
        invariant
            i <= cs.len(),
            cv == comments_view(cs@),
            out@ == old(out)@ + comments_text(cv.subrange(0, i as int), plain),
        decreases cs.len() - i,
    {
        assert(cv.subrange(0, i + 1).drop_last() =~= cv.subrange(0, i as int));
        let piece = comment_piece(i + 1, &cs[i], plain);
        push_all(out, piece.as_slice());
        i = i + 1;
        proof {
            assert(out@ =~= old(out)@ + comments_text(cv.subrange(0, i as int), plain));
        }
    }
    assert(cv.subrange(0, cs.len() as int) =~= cv);
}

/// `base` followed by the comments section (see [`after_blank_line`] and
/// [`section_text`]).
fn with_section(base: &str, cs: &Vec<Comment>, plain: bool) -> (r: String)
    ensures
        r@ == after_blank_line(base@, section_text(comments_view(cs@), plain)),
{
    let mut out = chars_of(base);
    let n = out.len();
    if n == 0 {
    } else if n >= 2 && out[n - 1] == '\n' && out[n - 2] == '\n' {
    } else if out[n - 1] == '\n' {
        out.push('\n');
    } else {
        out.push('\n');
        out.push('\n');
    }
    let ghost sep = out@;
    if plain {
        push_str(&mut out, "Comments\n");
    } else {
        push_str(&mut out, "# Comments\n");
    }
    push_comments(&mut out, cs, plain);
    proof {
        let sec = section_text(comments_view(cs@), plain);
        assert(out@ =~= sep + sec);
        if n == 0 {
            assert(sep =~= base@);
        }
    }
    string_from_chars(out.as_slice())
}

/// Appends the comments section to both outputs after a blank line; with
/// no comments nothing changes.
pub fn append_comments(markdown: &mut String, plain: &mut String, cs: &Vec<Comment>)
    ensures
        cs.len() == 0 ==> final(markdown)@ == old(markdown)@ && final(plain)@ == old(plain)@,
        cs.len() > 0 ==> final(markdown)@ == after_blank_line(
            old(markdown)@,
            section_text(comments_view(cs@), false),
        ),
        cs.len() > 0 ==> final(plain)@ == after_blank_line(
            old(plain)@,
            section_text(comments_view(cs@), true),
        ),
{
    if cs.len() == 0 {
        return;
    }
    let m = with_section(markdown.as_str(), cs, false);
    let p = with_section(plain.as_str(), cs, true);
    *markdown = m;
    *plain = p;
}

// ---------------------------------------------------------------------------
// Reading a document's comments
// ---------------------------------------------------------------------------

/// The names among `names`, in their order, that start with `prefix` and
/// end in `.xml`.
pub open spec fn xml_parts_with(names: Seq<Seq<char>>, prefix: Seq<char>) -> Seq<Seq<char>>
    decreases names.len(),
{
    if names.len() == 0 {
        Seq::empty()
    } else {
        let rest = xml_parts_with(names.drop_last(), prefix);
        if crate::text::has_prefix(names.last(), prefix) && crate::text::has_suffix(
            names.last(),
            ".xml"@,
        ) {
            rest.push(names.last())
        } else {
            rest
        }
    }
}

/// The names that start with `prefix` and end in `.xml`, in their order.
fn parts_named(names: &Vec<String>, prefix: &str) -> (v: Vec<Vec<char>>)
    ensures
        chars_list_view(v@) == xml_parts_with(names@.map_values(|s: String| s@), prefix@),
        forall|k: int|
            0 <= k < v.len() ==> crate::text::has_prefix(#[trigger] v@[k]@, prefix@)
                && crate::text::has_suffix(v@[k]@, ".xml"@),
{
    let ghost nv = names@.map_values(|s: String| s@);
    let mut v: Vec<Vec<char>> = Vec::new();
    let mut i: usize = 0;
    assert(chars_list_view(v@) =~= xml_parts_with(nv.subrange(0, 0), prefix@));
    while i < names.len()
        invariant
            i <= names.len(),
            nv == names@.map_values(|s: String| s@),
            chars_list_view(v@) == xml_parts_with(nv.subrange(0, i as int), prefix@),
            forall|k: int|
                0 <= k < v.len() ==> crate::text::has_prefix(#[trigger] v@[k]@, prefix@)
                    && crate::text::has_suffix(v@[k]@, ".xml"@),
        decreases names.len() - i,
    {
        assert(nv.subrange(0, i + 1).drop_last() =~= nv.subrange(0, i as int));
        let n = chars_of(names[i].as_str());
        if crate::text::starts_with_str(n.as_slice(), prefix) && crate::text::ends_with_str(
            n.as_slice(),
            ".xml",
        ) {
            let ghost before = v@;
            v.push(n);
            assert(chars_list_view(v@) =~= chars_list_view(before).push(n@));
        }
        i = i + 1;
    }
    assert(nv.subrange(0, names.len() as int) =~= nv);
    v
}

/// Scans a content part for comment ranges when it exists; read errors
/// are passed on.
fn scan_part(
    archive: &mut zip::ZipArchive<Cursor<&[u8]>>,
    path: &str,
    parts: &mut Vec<(Vec<Vec<char>>, Vec<(Vec<char>, Vec<char>)>)>,
) -> (r: Result<(), ConvertError>)
    ensures
        archive_source(*final(archive)) == archive_source(*old(archive)),
        match zip_entry_read(archive_source(*old(archive)), path@) {
            Ok(Some(b)) => r is Ok && final(parts)@.len() == old(parts)@.len() + 1
                && final(parts)@.drop_last() == old(parts)@ && chars_list_view(
                final(parts)@.last().0@,
            ) == rg_fold(xml_tokens(crate::zip_io::lossy_utf8(b))).order && assoc_view(
                final(parts)@.last().1@,
            ) == rg_fold(xml_tokens(crate::zip_io::lossy_utf8(b))).text,
            Ok(None) => r is Ok && final(parts)@ == old(parts)@,
            Err(f) => r matches Err(e) && e == failure_error(f) && final(parts)@ == old(parts)@,
        },
{
    match read_zip_text_lossy(archive, path) {
        Ok(Some(x)) => {
            let ghost before = parts@;
            parts.push(collect_ranges_in_part(x.as_str()));
            assert(parts@.drop_last() =~= before);
            Ok(())
        },
        Ok(None) => Ok(()),
        Err(e) => Err(e),
    }
}

/// Reads the comments of a DOCX package whose body is `body_xml`: none
/// without a comments part; otherwise the comments are assembled (see
/// [`assemble_docx_comments`]) from the comments part, its reply marks,
/// and the ranges of the body, the headers and footers (each group in name
/// order), the footnotes and the endnotes. Parts are read leniently
/// (invalid UTF-8 replaced); an unreadable part is an error.
pub fn extract_docx_comments(
    archive: &mut zip::ZipArchive<Cursor<&[u8]>>,
    body_xml: &str,
    warnings: &mut Vec<ConversionWarning>,
) -> (r: Result<Vec<Comment>, ConvertError>)
    ensures
        archive_source(*final(archive)) == archive_source(*old(archive)),
        zip_entry_read(archive_source(*old(archive)), "word/comments.xml"@) matches Ok(None) ==> (r matches Ok(
            v,
        ) && v.len() == 0),
        zip_entry_read(archive_source(*old(archive)), "word/comments.xml"@) matches Err(f) ==> (r matches Err(
            e,
        ) && e == failure_error(f)),
        final(warnings)@.len() >= old(warnings)@.len(),
        final(warnings)@.subrange(0, old(warnings)@.len() as int) == old(warnings)@,
{
    let comments_xml = match read_zip_text_lossy(archive, "word/comments.xml") {
        Ok(Some(x)) => x,
        Ok(None) => {
            return Ok(Vec::new());
        },
        Err(e) => {
            return Err(e);
        },
    };
    let raws = parse_comments_xml(comments_xml.as_str());
    if raws.len() == 0 {
        return Ok(Vec::new());
    }
    let replies = match read_zip_text_lossy(archive, "word/commentsExtended.xml") {
        Ok(Some(x)) => parse_comments_extended(x.as_str()),
        Ok(None) => Vec::new(),
        Err(e) => {
            return Err(e);
        },
    };
    let names = archive_names(archive);
    let headers = sort_lex(&parts_named(&names, "word/header"));
    let footers = sort_lex(&parts_named(&names, "word/footer"));
    let mut parts: Vec<(Vec<Vec<char>>, Vec<(Vec<char>, Vec<char>)>)> = Vec::new();
    parts.push(collect_ranges_in_part(body_xml));
    let mut i: usize = 0;
    while i < headers.len()
        invariant
            i <= headers.len(),
            archive_source(*archive) == archive_source(*old(archive)),
            zip_entry_read(archive_source(*old(archive)), "word/comments.xml"@) is Ok,
            zip_entry_read(archive_source(*old(archive)), "word/comments.xml"@)->Ok_0 is Some,
        decreases headers.len() - i,
    {
        let path = string_from_chars(headers[i].as_slice());
        match scan_part(archive, path.as_str(), &mut parts) {
            Ok(()) => {},
            Err(e) => {
                return Err(e);
            },
        }
        i = i + 1;
    }
    let mut j: usize = 0;
    while j < footers.len()
        invariant
            j <= footers.len(),
            archive_source(*archive) == archive_source(*old(archive)),
            zip_entry_read(archive_source(*old(archive)), "word/comments.xml"@) is Ok,
            zip_entry_read(archive_source(*old(archive)), "word/comments.xml"@)->Ok_0 is Some,
        decreases footers.len() - j,
    {
        let path = string_from_chars(footers[j].as_slice());
        match scan_part(archive, path.as_str(), &mut parts) {
            Ok(()) => {},
            Err(e) => {
                return Err(e);
            },
        }
        j = j + 1;
    }
    match scan_part(archive, "word/footnotes.xml", &mut parts) {
        Ok(()) => {},
        Err(e) => {
            return Err(e);
        },
    }
    match scan_part(archive, "word/endnotes.xml", &mut parts) {
        Ok(()) => {},
        Err(e) => {
            return Err(e);
        },
    }
    Ok(assemble_docx_comments(&raws, &replies, &parts, warnings))
}

} // verus!
