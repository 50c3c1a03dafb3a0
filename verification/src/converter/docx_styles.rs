//! The style and numbering parts of a DOCX package: which paragraph styles
//! are headings (`word/styles.xml`) and which list levels are numbered
//! (`word/numbering.xml`).

use vstd::prelude::*;

use crate::text::{
    chars_of, eq_str, has_prefix, lower_ascii, parse_uint, parse_uint_spec, slice_chars,
    starts_with_str, to_ascii_lower, trim, trim_ws,
};
use crate::xml_io::{tokenize, xml_tokens, XmlAttr, XmlElement, XmlToken};

verus! {

broadcast use vstd::string::group_string_axioms;

// ---------------------------------------------------------------------------
// Heading levels from style ids and names
// ---------------------------------------------------------------------------

/// A heading level 1 to 9 parsed from text, if it is one.
pub open spec fn heading_number(s: Seq<char>) -> Option<u8> {
    match parse_uint_spec(s, 255) {
        Some(v) => if 1 <= v <= 9 {
            Some(v as u8)
        } else {
            None
        },
        None => None,
    }
}

/// The heading level of a style id such as `Heading1` (case-insensitive):
/// the number after `heading`, if it is 1 to 9.
pub open spec fn level_from_id(id: Seq<char>) -> Option<u8> {
    let lower = lower_ascii(id);
    if has_prefix(lower, "heading"@) {
        heading_number(lower.subrange(7, lower.len() as int))
    } else {
        None
    }
}

/// The heading level of a style name such as `heading 1`
/// (case-insensitive, surrounding whitespace ignored).
pub open spec fn level_from_name(name: Seq<char>) -> Option<u8> {
    let t = trim_ws(lower_ascii(name));
    if has_prefix(t, "heading"@) {
        heading_number(trim_ws(t.subrange(7, t.len() as int)))
    } else {
        None
    }
}

/// A heading level 1 to 9 parsed from `s`.
fn parse_heading_number(s: &[char]) -> (r: Option<u8>)
    ensures
        r == heading_number(s@),
{
    match parse_uint(s, 255) {
        Some(v) => if 1 <= v && v <= 9 {
            Some(v as u8)
        } else {
            None
        },
        None => None,
    }
}

/// The heading level of a style id (see [`level_from_id`]).
pub fn extract_heading_level_from_id(style_id: &str) -> (r: Option<u8>)
    ensures
        r == level_from_id(style_id@),
{
    let c = chars_of(style_id);
    let lower = to_ascii_lower(c.as_slice());
    proof {
        reveal_strlit("heading");
    }
    if starts_with_str(lower.as_slice(), "heading") {
        let rest = slice_chars(lower.as_slice(), 7, lower.len());
        parse_heading_number(rest.as_slice())
    } else {
        None
    }
}

/// The heading level of a style name (see [`level_from_name`]).
pub fn extract_heading_level_from_name(name: &str) -> (r: Option<u8>)
    ensures
        r == level_from_name(name@),
{
    let c = chars_of(name);
    let lower = to_ascii_lower(c.as_slice());
    let t = trim(lower.as_slice());
    proof {
        reveal_strlit("heading");
    }
    if starts_with_str(t.as_slice(), "heading") {
        let rest = slice_chars(t.as_slice(), 7, t.len());
        let rt = trim(rest.as_slice());
        parse_heading_number(rt.as_slice())
    } else {
        None
    }
}

// ---------------------------------------------------------------------------
// styles.xml
// ---------------------------------------------------------------------------

/// The style ids known to be headings, with their levels; a later entry for
/// the same id supersedes earlier ones.
pub type StyleTable = Vec<(String, u8)>;

/// The level of style `id` (the last entry for it).
pub open spec fn style_level(styles: Seq<(Seq<char>, u8)>, id: Seq<char>) -> Option<u8>
    decreases styles.len(),
{
    if styles.len() == 0 {
        None
    } else if styles.last().0 == id {
        Some(styles.last().1)
    } else {
        style_level(styles.drop_last(), id)
    }
}

/// The id and level a `<w:style>` tag's attributes give: each `styleId`
/// attribute sets the id, and sets the level when the id names a heading.
pub open spec fn style_attrs(attrs: Seq<Option<XmlAttr>>) -> (Option<Seq<char>>, Option<u8>)
    decreases attrs.len(),
{
    if attrs.len() == 0 {
        (None, None)
    } else {
        let prev = style_attrs(attrs.drop_last());
        match attrs.last() {
            Some(a) => if a.local@ == "styleId"@ {
                (
                    Some(a.value@),
                    match level_from_id(a.value@) {
                        Some(l) => Some(l),
                        None => prev.1,
                    },
                )
            } else {
                prev
            },
            None => prev,
        }
    }
}

/// The level a `<w:name>` tag's attributes give: each `val` attribute
/// naming a heading sets it.
pub open spec fn name_attrs(attrs: Seq<Option<XmlAttr>>, level: Option<u8>) -> Option<u8>
    decreases attrs.len(),
{
    if attrs.len() == 0 {
        level
    } else {
        let prev = name_attrs(attrs.drop_last(), level);
        match attrs.last() {
            Some(a) => if a.local@ == "val"@ {
                match level_from_name(a.value@) {
                    Some(l) => Some(l),
                    None => prev,
                }
            } else {
                prev
            },
            None => prev,
        }
    }
}

/// The state of the styles scan: the table so far, and the id and level of
/// the style being read.
pub type StylesScan = (Seq<(Seq<char>, u8)>, Option<Seq<char>>, Option<u8>);

/// One token of `styles.xml`: a `style` tag starts a style, a `name` tag
/// inside one may make it a heading, and the end of a style records it when
/// it has both an id and a level.
pub open spec fn styles_step(s: StylesScan, t: XmlToken) -> StylesScan {
    match t {
        XmlToken::Start(e) => style_tag(s, e),
        XmlToken::Empty(e) => style_tag(s, e),
        XmlToken::End(n) => if n@ == "style"@ {
            match (s.1, s.2) {
                (Some(id), Some(l)) => (s.0.push((id, l)), None, None),
                _ => (s.0, None, None),
            }
        } else {
            s
        },
        _ => s,
    }
}

/// A start or empty tag of `styles.xml`.
pub open spec fn style_tag(s: StylesScan, e: XmlElement) -> StylesScan {
    if e.name@ == "style"@ {
        let r = style_attrs(e.attrs@);
        (s.0, r.0, r.1)
    } else if e.name@ == "name"@ && s.1 is Some {
        (s.0, s.1, name_attrs(e.attrs@, s.2))
    } else {
        s
    }
}

/// The styles scan over a token sequence.
pub open spec fn styles_fold(tokens: Seq<XmlToken>) -> StylesScan
    decreases tokens.len(),
{
    if tokens.len() == 0 {
        (Seq::empty(), None, None)
    } else {
        styles_step(styles_fold(tokens.drop_last()), tokens.last())
    }
}

/// The view of a style table.
pub open spec fn styles_view(v: Seq<(String, u8)>) -> Seq<(Seq<char>, u8)> {
    v.map_values(|p: (String, u8)| (p.0@, p.1))
}

/// The id and level of a `<w:style>` tag (see [`style_attrs`]).
fn read_style_attrs(attrs: &Vec<Option<XmlAttr>>) -> (r: (Option<String>, Option<u8>))
    ensures
        (match r.0 {
            Some(s) => Some(s@),
            None => None,
        }) == style_attrs(attrs@).0,
        r.1 == style_attrs(attrs@).1,
{
    let mut id: Option<String> = None;
    let mut level: Option<u8> = None;
    let mut i: usize = 0;
    while i < attrs.len()
        invariant
            i <= attrs.len(),
            (match id {
                Some(s) => Some(s@),
                None => None,
            }) == style_attrs(attrs@.subrange(0, i as int)).0,
            level == style_attrs(attrs@.subrange(0, i as int)).1,
        decreases attrs.len() - i,
    {
        proof {
            let sub = attrs@.subrange(0, i + 1);
            assert(sub.drop_last() =~= attrs@.subrange(0, i as int));
            assert(sub.last() == attrs@[i as int]);
        }
        match &attrs[i] {
            Some(a) => {
                let k = chars_of(a.local.as_str());
                if eq_str(k.as_slice(), "styleId") {
                    match extract_heading_level_from_id(a.value.as_str()) {
                        Some(l) => {
                            level = Some(l);
                        },
                        None => {},
                    }
                    id = Some(a.value.clone());
                }
            },
            None => {},
        }
        i = i + 1;
    }
    assert(attrs@.subrange(0, attrs.len() as int) =~= attrs@);
    (id, level)
}

/// The level a `<w:name>` tag gives (see [`name_attrs`]).
fn read_name_attrs(attrs: &Vec<Option<XmlAttr>>, level: Option<u8>) -> (r: Option<u8>)
    ensures
        r == name_attrs(attrs@, level),
{
    let mut cur = level;
    let mut i: usize = 0;
    while i < attrs.len()
        invariant
            i <= attrs.len(),
            cur == name_attrs(attrs@.subrange(0, i as int), level),
        decreases attrs.len() - i,
    {
        proof {
            let sub = attrs@.subrange(0, i + 1);
            assert(sub.drop_last() =~= attrs@.subrange(0, i as int));
            assert(sub.last() == attrs@[i as int]);
        }
        match &attrs[i] {
            Some(a) => {
                let k = chars_of(a.local.as_str());
                if eq_str(k.as_slice(), "val") {
                    match extract_heading_level_from_name(a.value.as_str()) {
                        Some(l) => {
                            cur = Some(l);
                        },
                        None => {},
                    }
                }
            },
            None => {},
        }
        i = i + 1;
    }
    assert(attrs@.subrange(0, attrs.len() as int) =~= attrs@);
    cur
}

/// Parses `styles.xml` into the heading styles it defines (see
/// [`styles_fold`]).
pub fn parse_styles(xml: &str) -> (r: StyleTable)
    ensures
        styles_view(r@) == styles_fold(xml_tokens(xml@)).0,
{
    let tokens = tokenize(xml);
    let mut styles: StyleTable = Vec::new();
    let mut cur_id: Option<String> = None;
    let mut cur_level: Option<u8> = None;
    let mut i: usize = 0;
    while i < tokens.len()
        invariant
            i <= tokens.len(),
            tokens@ == xml_tokens(xml@),
            (styles_view(styles@), match cur_id {
                Some(s) => Some(s@),
                None => None,
            }, cur_level) == styles_fold(tokens@.subrange(0, i as int)),
        decreases tokens.len() - i,
    {
        proof {
            let sub = tokens@.subrange(0, i + 1);
            assert(sub.drop_last() =~= tokens@.subrange(0, i as int));
            assert(sub.last() == tokens@[i as int]);
        }
        match &tokens[i] {
            XmlToken::Start(e) | XmlToken::Empty(e) => {
                let n = chars_of(e.name.as_str());
                if eq_str(n.as_slice(), "style") {
                    let (id, l) = read_style_attrs(&e.attrs);
                    cur_id = id;
                    cur_level = l;
                } else if eq_str(n.as_slice(), "name") && cur_id.is_some() {
                    cur_level = read_name_attrs(&e.attrs, cur_level);
                }
            },
            XmlToken::End(name) => {
                let n = chars_of(name.as_str());
                if eq_str(n.as_slice(), "style") {
                    match (cur_id, cur_level) {
                        (Some(id), Some(l)) => {
                            let ghost before = styles@;
                            styles.push((id, l));
                            assert(styles_view(styles@) =~= styles_view(before).push((id@, l)));
                        },
                        _ => {},
                    }
                    cur_id = None;
                    cur_level = None;
                }
            },
            _ => {},
        }
        i = i + 1;
    }
    assert(tokens@.subrange(0, tokens.len() as int) =~= tokens@);
    styles
}

/// The heading level recorded for style `id`.
pub fn style_level_of(styles: &StyleTable, id: &str) -> (r: Option<u8>)
    ensures
        r == style_level(styles_view(styles@), id@),
{
    let k = chars_of(id);
    let mut j = styles.len();
    let ghost sv = styles_view(styles@);
    assert(sv.subrange(0, styles.len() as int) =~= sv);
    while j > 0
        invariant
            j <= styles.len(),
            k@ == id@,
            sv == styles_view(styles@),
            style_level(sv.subrange(0, j as int), id@) == style_level(sv, id@),
        decreases j,
    {
        assert(sv.subrange(0, j as int).drop_last() =~= sv.subrange(0, j - 1));
        assert(sv.subrange(0, j as int).last() == sv[j - 1]);
        let n = chars_of(styles[j - 1].0.as_str());
        if crate::text::eq_chars(n.as_slice(), k.as_slice()) {
            return Some(styles[j - 1].1);
        }
        j = j - 1;
    }
    None
}

// ---------------------------------------------------------------------------
// numbering.xml
// ---------------------------------------------------------------------------

/// Whether a `numFmt` value is a numbered (ordered) list format.
pub open spec fn ordered_format(fmt: Seq<char>) -> bool {
    fmt == "decimal"@ || fmt == "upperRoman"@ || fmt == "lowerRoman"@ || fmt == "upperLetter"@
        || fmt == "lowerLetter"@ || fmt == "decimalZero"@
}

/// Whether a `numFmt` value is a numbered (ordered) list format.
pub fn is_ordered_format(fmt: &str) -> (r: bool)
    ensures
        r == ordered_format(fmt@),
{
    let f = chars_of(fmt);
    eq_str(f.as_slice(), "decimal") || eq_str(f.as_slice(), "upperRoman") || eq_str(
        f.as_slice(),
        "lowerRoman",
    ) || eq_str(f.as_slice(), "upperLetter") || eq_str(f.as_slice(), "lowerLetter") || eq_str(
        f.as_slice(),
        "decimalZero",
    )
}

/// The list definitions of `numbering.xml`: which abstract definition each
/// numbering instance uses, and whether each level of an abstract
/// definition is ordered. Later entries supersede earlier ones.
#[derive(Debug)]
pub struct NumberingDefs {
    /// `(numId, abstractNumId)` pairs.
    pub instances: Vec<(String, String)>,
    /// `(abstractNumId, level, ordered)` triples.
    pub levels: Vec<(String, u8, bool)>,
}

/// The abstract definition of instance `num` (the last entry for it).
pub open spec fn instance_of(instances: Seq<(Seq<char>, Seq<char>)>, num: Seq<char>) -> Option<
    Seq<char>,
>
    decreases instances.len(),
{
    if instances.len() == 0 {
        None
    } else if instances.last().0 == num {
        Some(instances.last().1)
    } else {
        instance_of(instances.drop_last(), num)
    }
}

/// Whether level `lvl` of abstract definition `abs` is ordered (the last
/// entry for it).
pub open spec fn level_ordered(levels: Seq<(Seq<char>, u8, bool)>, abs: Seq<char>, lvl: u8) -> Option<
    bool,
>
    decreases levels.len(),
{
    if levels.len() == 0 {
        None
    } else if levels.last().0 == abs && levels.last().1 == lvl {
        Some(levels.last().2)
    } else {
        level_ordered(levels.drop_last(), abs, lvl)
    }
}

/// Whether level `lvl` of numbering instance `num` is ordered, if it is
/// defined.
pub open spec fn numbering_ordered(
    instances: Seq<(Seq<char>, Seq<char>)>,
    levels: Seq<(Seq<char>, u8, bool)>,
    num: Seq<char>,
    lvl: u8,
) -> Option<bool> {
    match instance_of(instances, num) {
        Some(abs) => level_ordered(levels, abs, lvl),
        None => None,
    }
}

/// The state of the numbering scan: inside `abstractNum`, inside `lvl`,
/// inside `num`; the current abstract id, level and instance id; and the
/// instance and level entries so far.
pub type NumberingScan = (
    bool,
    bool,
    bool,
    Option<Seq<char>>,
    Option<u8>,
    Option<Seq<char>>,
    Seq<(Seq<char>, Seq<char>)>,
    Seq<(Seq<char>, u8, bool)>,
);

/// The value of an attribute parsed as a level number (`u8`), as the last
/// matching attribute gives it.
pub open spec fn parsed_level(v: Option<Seq<char>>) -> Option<u8> {
    match v {
        Some(s) => match parse_uint_spec(s, 255) {
            Some(n) => Some(n as u8),
            None => None,
        },
        None => None,
    }
}

/// A start or empty tag of `numbering.xml`.
pub open spec fn numbering_tag(s: NumberingScan, e: XmlElement) -> NumberingScan {
    let n = e.name@;
    if n == "abstractNum"@ {
        let abs = match crate::xml_io::last_attr_by_local(e.attrs@, "abstractNumId"@) {
            Some(v) => Some(v),
            None => s.3,
        };
        (true, s.1, s.2, abs, s.4, s.5, s.6, s.7)
    } else if n == "lvl"@ && s.0 {
        let lvl = match crate::xml_io::last_attr_by_local(e.attrs@, "ilvl"@) {
            Some(v) => parsed_level(Some(v)),
            None => s.4,
        };
        (s.0, true, s.2, s.3, lvl, s.5, s.6, s.7)
    } else if n == "numFmt"@ && s.1 {
        match (s.3, s.4, crate::xml_io::last_attr_by_local(e.attrs@, "val"@)) {
            (Some(abs), Some(lvl), Some(fmt)) => (
                s.0,
                s.1,
                s.2,
                s.3,
                s.4,
                s.5,
                s.6,
                s.7.push((abs, lvl, ordered_format(fmt))),
            ),
            _ => s,
        }
    } else if n == "num"@ {
        let num = match crate::xml_io::last_attr_by_local(e.attrs@, "numId"@) {
            Some(v) => Some(v),
            None => s.5,
        };
        (s.0, s.1, true, s.3, s.4, num, s.6, s.7)
    } else if n == "abstractNumId"@ && s.2 {
        match (s.5, crate::xml_io::last_attr_by_local(e.attrs@, "val"@)) {
            (Some(num), Some(abs)) => (s.0, s.1, s.2, s.3, s.4, s.5, s.6.push((num, abs)), s.7),
            _ => s,
        }
    } else {
        s
    }
}

/// Reading a `numFmt` element inside a level of an abstract definition
/// records that level as ordered exactly when its format is a numbered one:
/// `decimal`, `upperRoman`, `lowerRoman`, `upperLetter`, `lowerLetter` or
/// `decimalZero`; any other format (`bullet`, `none`, ...) makes it a
/// bulleted level.
pub proof fn lemma_numfmt_records_order(s: NumberingScan, e: XmlElement, fmt: Seq<char>)
    requires
        e.name@ == "numFmt"@,
        s.1,
        s.3 is Some,
        s.4 is Some,
        crate::xml_io::last_attr_by_local(e.attrs@, "val"@) == Some(fmt),
    ensures
        numbering_tag(s, e).7 == s.7.push(
            (s.3->0, s.4->0, (fmt == "decimal"@ || fmt == "upperRoman"@ || fmt == "lowerRoman"@
            || fmt == "upperLetter"@ || fmt == "lowerLetter"@ || fmt == "decimalZero"@)),
        ),
        numbering_tag(s, e).6 == s.6,
{
    reveal_strlit("numFmt");
    reveal_strlit("abstractNum");
    reveal_strlit("lvl");
    assert("numFmt"@.len() == 6);
    assert("abstractNum"@.len() == 11);
    assert("lvl"@.len() == 3);
}

/// One token of `numbering.xml`.
pub open spec fn numbering_step(s: NumberingScan, t: XmlToken) -> NumberingScan {
    match t {
        XmlToken::Start(e) => numbering_tag(s, e),
        XmlToken::Empty(e) => numbering_tag(s, e),
        XmlToken::End(n) => if n@ == "abstractNum"@ {
            (false, s.1, s.2, None, s.4, s.5, s.6, s.7)
        } else if n@ == "lvl"@ {
            (s.0, false, s.2, s.3, None, s.5, s.6, s.7)
        } else if n@ == "num"@ {
            (s.0, s.1, false, s.3, s.4, None, s.6, s.7)
        } else {
            s
        },
        _ => s,
    }
}

/// The numbering scan over a token sequence.
pub open spec fn numbering_fold(tokens: Seq<XmlToken>) -> NumberingScan
    decreases tokens.len(),
{
    if tokens.len() == 0 {
        (false, false, false, None, None, None, Seq::empty(), Seq::empty())
    } else {
        numbering_step(numbering_fold(tokens.drop_last()), tokens.last())
    }
}

/// The view of the instance entries.
pub open spec fn instances_view(v: Seq<(String, String)>) -> Seq<(Seq<char>, Seq<char>)> {
    v.map_values(|p: (String, String)| (p.0@, p.1@))
}

/// The view of the level entries.
pub open spec fn levels_view(v: Seq<(String, u8, bool)>) -> Seq<(Seq<char>, u8, bool)> {
    v.map_values(|p: (String, u8, bool)| (p.0@, p.1, p.2))
}

/// The view of an optional string.
pub open spec fn opt_view(o: Option<String>) -> Option<Seq<char>> {
    match o {
        Some(s) => Some(s@),
        None => None,
    }
}

/// A level number parsed from an attribute value.
fn parse_level(v: &str) -> (r: Option<u8>)
    ensures
        r == parsed_level(Some(v@)),
{
    let c = chars_of(v);
    match parse_uint(c.as_slice(), 255) {
        Some(n) => Some(n as u8),
        None => None,
    }
}

/// Parses `numbering.xml` into its list definitions (see
/// [`numbering_fold`]).
pub fn parse_numbering(xml: &str) -> (r: NumberingDefs)
    ensures
        instances_view(r.instances@) == numbering_fold(xml_tokens(xml@)).6,
        levels_view(r.levels@) == numbering_fold(xml_tokens(xml@)).7,
{
    let tokens = tokenize(xml);
    let mut in_abs = false;
    let mut in_lvl = false;
    let mut in_num = false;
    let mut cur_abs: Option<String> = None;
    let mut cur_lvl: Option<u8> = None;
    let mut cur_num: Option<String> = None;
    let mut instances: Vec<(String, String)> = Vec::new();
    let mut levels: Vec<(String, u8, bool)> = Vec::new();
    let mut i: usize = 0;
    while i < tokens.len()
        invariant
            i <= tokens.len(),
            tokens@ == xml_tokens(xml@),
            (
                in_abs,
                in_lvl,
                in_num,
                opt_view(cur_abs),
                cur_lvl,
                opt_view(cur_num),
                instances_view(instances@),
                levels_view(levels@),
            ) == numbering_fold(tokens@.subrange(0, i as int)),
        decreases tokens.len() - i,
    {
        proof {
            let sub = tokens@.subrange(0, i + 1);
            assert(sub.drop_last() =~= tokens@.subrange(0, i as int));
            assert(sub.last() == tokens@[i as int]);
        }
        match &tokens[i] {
            XmlToken::Start(e) | XmlToken::Empty(e) => {
                let n = chars_of(e.name.as_str());
                if eq_str(n.as_slice(), "abstractNum") {
                    in_abs = true;
                    match crate::xml_io::find_last_attr_local(&e.attrs, "abstractNumId") {
                        Some(v) => {
                            cur_abs = Some(v);
                        },
                        None => {},
                    }
                } else if eq_str(n.as_slice(), "lvl") && in_abs {
                    in_lvl = true;
                    match crate::xml_io::find_last_attr_local(&e.attrs, "ilvl") {
                        Some(v) => {
                            cur_lvl = parse_level(v.as_str());
                        },
                        None => {},
                    }
                } else if eq_str(n.as_slice(), "numFmt") && in_lvl {
                    match (&cur_abs, cur_lvl, crate::xml_io::find_last_attr_local(&e.attrs, "val")) {
                        (Some(abs), Some(lvl), Some(fmt)) => {
                            let ordered = is_ordered_format(fmt.as_str());
                            let ghost before = levels@;
                            levels.push((abs.clone(), lvl, ordered));
                            assert(levels_view(levels@) =~= levels_view(before).push(
                                (abs@, lvl, ordered),
                            ));
                        },
                        _ => {},
                    }
                } else if eq_str(n.as_slice(), "num") {
                    in_num = true;
                    match crate::xml_io::find_last_attr_local(&e.attrs, "numId") {
                        Some(v) => {
                            cur_num = Some(v);
                        },
                        None => {},
                    }
                } else if eq_str(n.as_slice(), "abstractNumId") && in_num {
                    match (&cur_num, crate::xml_io::find_last_attr_local(&e.attrs, "val")) {
                        (Some(num), Some(abs)) => {
                            let ghost before = instances@;
                            instances.push((num.clone(), abs));
                            assert(instances_view(instances@) =~= instances_view(before).push(
                                (num@, abs@),
                            ));
                        },
                        _ => {},
                    }
                }
            },
            XmlToken::End(name) => {
                let n = chars_of(name.as_str());
                if eq_str(n.as_slice(), "abstractNum") {
                    in_abs = false;
                    cur_abs = None;
                } else if eq_str(n.as_slice(), "lvl") {
                    in_lvl = false;
                    cur_lvl = None;
                } else if eq_str(n.as_slice(), "num") {
                    in_num = false;
                    cur_num = None;
                }
            },
            _ => {},
        }
        i = i + 1;
    }
    assert(tokens@.subrange(0, tokens.len() as int) =~= tokens@);
    NumberingDefs { instances, levels }
}

/// The abstract definition numbering instance `num` uses.
fn find_instance<'a>(defs: &'a NumberingDefs, num: &str) -> (r: Option<&'a String>)
    ensures
        r matches Some(a) ==> instance_of(instances_view(defs.instances@), num@) == Some(a@),
        r is None ==> instance_of(instances_view(defs.instances@), num@) is None,
{
    let k = chars_of(num);
    let ghost iv = instances_view(defs.instances@);
    let mut j = defs.instances.len();
    assert(iv.subrange(0, j as int) =~= iv);
    while j > 0
        invariant
            j <= defs.instances.len(),
            iv == instances_view(defs.instances@),
            k@ == num@,
            instance_of(iv.subrange(0, j as int), num@) == instance_of(iv, num@),
        decreases j,
    {
        assert(iv.subrange(0, j as int).drop_last() =~= iv.subrange(0, j - 1));
        let n = chars_of(defs.instances[j - 1].0.as_str());
        if crate::text::eq_chars(n.as_slice(), k.as_slice()) {
            return Some(&defs.instances[j - 1].1);
        }
        j = j - 1;
    }
    None
}

/// Whether level `lvl` of abstract definition `abs` is ordered.
fn find_level(defs: &NumberingDefs, abs: &str, lvl: u8) -> (r: Option<bool>)
    ensures
        r == level_ordered(levels_view(defs.levels@), abs@, lvl),
{
    let ac = chars_of(abs);
    let ghost lv = levels_view(defs.levels@);
    let mut m = defs.levels.len();
    assert(lv.subrange(0, m as int) =~= lv);
    while m > 0
        invariant
            m <= defs.levels.len(),
            lv == levels_view(defs.levels@),
            ac@ == abs@,
            level_ordered(lv.subrange(0, m as int), abs@, lvl) == level_ordered(lv, abs@, lvl),
        decreases m,
    {
        assert(lv.subrange(0, m as int).drop_last() =~= lv.subrange(0, m - 1));
        let n = chars_of(defs.levels[m - 1].0.as_str());
        if crate::text::eq_chars(n.as_slice(), ac.as_slice()) && defs.levels[m - 1].1 == lvl {
            return Some(defs.levels[m - 1].2);
        }
        m = m - 1;
    }
    None
}

/// Whether level `lvl` of numbering instance `num` is ordered (see
/// [`numbering_ordered`]).
pub fn numbering_lookup(defs: &NumberingDefs, num: &str, lvl: u8) -> (r: Option<bool>)
    ensures
        r == numbering_ordered(instances_view(defs.instances@), levels_view(defs.levels@), num@, lvl),
{
    match find_instance(defs, num) {
        Some(a) => find_level(defs, a.as_str(), lvl),
        None => None,
    }
}

} // verus!
