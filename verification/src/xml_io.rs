//! XML tokenization through `quick_xml`, into a token model of plain values
//! that the document parsers of this crate walk.

use quick_xml::events::Event;
use quick_xml::Reader;

use vstd::prelude::*;

use crate::text::{chars_of, eq_str, number_value, string_from_chars};

verus! {

broadcast use vstd::string::group_string_axioms;

/// The `quick_xml` pull reader.
#[verifier::external_type_specification]
#[verifier::external_body]
#[verifier::reject_recursive_types(R)]
pub struct ExXmlReader<R>(Reader<R>);

/// A `quick_xml` start tag, converted to [`XmlElement`] on reading.
#[verifier::external_type_specification]
#[verifier::external_body]
pub struct ExBytesStart<'a>(quick_xml::events::BytesStart<'a>);

/// One attribute of an element, as written in the source.
#[derive(Debug)]
pub struct XmlAttr {
    /// The qualified name, e.g. `r:id`.
    pub key: String,
    /// The local name, e.g. `id`.
    pub local: String,
    /// The raw (still escaped) value.
    pub value: String,
}

/// A start or empty-element tag.
#[derive(Debug)]
pub struct XmlElement {
    /// The local name of the element, e.g. `p` for `<w:p>`.
    pub name: String,
    /// The attributes in source order; `None` marks a malformed attribute.
    pub attrs: Vec<Option<XmlAttr>>,
}

/// One event of an XML document.
#[derive(Debug)]
pub enum XmlToken {
    /// `<tag ...>`
    Start(XmlElement),
    /// `<tag .../>`
    Empty(XmlElement),
    /// `</tag>`, carrying the local name.
    End(String),
    /// Character data between markup (without entity references).
    Text(String),
    /// An entity or character reference such as `amp` or `#x41`.
    Ref(String),
    /// A `CDATA` section.
    CData(String),
    /// A comment, declaration, processing instruction or doctype.
    Other,
    /// The end of the document.
    Eof,
    /// A syntax error, with its message; reading stops here.
    Error(String),
}

/// Whether a token ends the token stream.
pub open spec fn is_terminal(t: XmlToken) -> bool {
    t is Eof || t is Error
}

/// The tokens `quick_xml` produces for `xml`, up to and including the first
/// `Eof` or `Error`.
pub uninterp spec fn xml_tokens(xml: Seq<char>) -> Seq<XmlToken>;

/// The tokens a reader has not yet produced.
pub uninterp spec fn reader_pending(r: Reader<&[u8]>) -> Seq<XmlToken>;

/// A well-formed token stream: non-empty, ending in its only terminal token.
pub open spec fn well_terminated(s: Seq<XmlToken>) -> bool {
    &&& s.len() > 0
    &&& is_terminal(s.last())
    &&& forall|i: int| 0 <= i < s.len() - 1 ==> !is_terminal(#[trigger] s[i])
}

/// A reader over `xml` (`quick_xml::Reader::from_str`). Reading stops at the
/// end of the input or at the first error, so the token stream is finite and
/// ends in one terminal token.
#[verifier::external_body]
pub fn reader_from_str<'a>(xml: &'a str) -> (r: Reader<&'a [u8]>)
    ensures
        reader_pending(r) == xml_tokens(xml@),
        well_terminated(reader_pending(r)),
{
    Reader::from_str(xml)
}

/// Converts a start tag into the token model.
#[verifier::external_body]
fn element_of(e: &quick_xml::events::BytesStart) -> XmlElement {
    XmlElement {
        name: e.local_name().as_ref().to_string(),
        attrs: e.attributes().map(|a| a.ok().map(|a| XmlAttr {
            key: a.key.as_ref().to_string(),
            local: a.key.local_name().as_ref().to_string(),
            value: a.value.into_owned(),
        })).collect(),
    }
}

/// Reads the next token (`Reader::read_event`).
#[verifier::external_body]
pub fn read_token(r: &mut Reader<&[u8]>) -> (t: XmlToken)
    requires
        reader_pending(*old(r)).len() > 0,
    ensures
        t == reader_pending(*old(r))[0],
        reader_pending(*final(r)) == reader_pending(*old(r)).drop_first(),
{
    match r.read_event() {
        Ok(Event::Start(e)) => XmlToken::Start(element_of(&e)),
        Ok(Event::Empty(e)) => XmlToken::Empty(element_of(&e)),
        Ok(Event::End(e)) => XmlToken::End(e.local_name().as_ref().to_string()),
        Ok(Event::Text(e)) => XmlToken::Text(e.into_inner().into_owned()),
        Ok(Event::GeneralRef(e)) => XmlToken::Ref(e.into_inner().into_owned()),
        Ok(Event::CData(e)) => XmlToken::CData(e.into_inner().into_owned()),
        Ok(Event::Eof) => XmlToken::Eof,
        Ok(_) => XmlToken::Other,
        Err(e) => XmlToken::Error(e.to_string()),
    }
}

/// All tokens of `xml`, up to and including the terminal one.
pub fn tokenize(xml: &str) -> (v: Vec<XmlToken>)
    ensures
        v@ == xml_tokens(xml@),
        well_terminated(v@),
{
    let mut r = reader_from_str(xml);
    let ghost all = xml_tokens(xml@);
    let mut v: Vec<XmlToken> = Vec::new();
    loop
        invariant_except_break
            v.len() == 0 || !is_terminal(v@.last()),
        invariant
            all == xml_tokens(xml@),
            well_terminated(all),
            v@ + reader_pending(r) == all,
        ensures
            v@ == all,
        decreases reader_pending(r).len(),
    {
        proof {
            if reader_pending(r).len() == 0 {
                assert(v@ =~= all);
                assert(!is_terminal(all.last()));
            }
        }
        let t = read_token(&mut r);
        let terminal = match &t {
            XmlToken::Eof => true,
            XmlToken::Error(_) => true,
            _ => false,
        };
        assert(terminal == is_terminal(t));
        let ghost before = v@;
        v.push(t);
        proof {
            assert(v@ + reader_pending(r) =~= all);
            if !terminal {
                assert(!is_terminal(v@.last()));
            }
        }
        if terminal {
            proof {
                let k = before.len() as int;
                assert(all[k] == v@.last());
                if k < all.len() - 1 {
                    assert(!is_terminal(all[k]));
                }
                assert(v@ =~= all);
            }
            break;
        }
    }
    v
}

// ---------------------------------------------------------------------------
// Entity and character references
// ---------------------------------------------------------------------------

/// The code point named by a character reference body (`x41` or `65`).
pub open spec fn char_ref_code(body: Seq<char>) -> Option<nat> {
    if body.len() > 0 && body[0] == 'x' {
        number_value(body.drop_first(), 16)
    } else {
        number_value(body, 10)
    }
}

/// The character a predefined XML entity stands for.
pub open spec fn xml_entity(name: Seq<char>) -> Option<char> {
    if name == "lt"@ {
        Some('<')
    } else if name == "gt"@ {
        Some('>')
    } else if name == "amp"@ {
        Some('&')
    } else if name == "apos"@ {
        Some('\'')
    } else if name == "quot"@ {
        Some('"')
    } else {
        None
    }
}

/// The character a character reference body (`x41` or `65`) names: a
/// non-zero Unicode scalar value.
pub open spec fn char_ref_char(body: Seq<char>) -> Option<char> {
    match char_ref_code(body) {
        Some(v) => if 0 < v <= 0x10FFFF && vstd::utf8::is_scalar(v as u32) {
            Some((v as u32) as char)
        } else {
            None
        },
        None => None,
    }
}

/// The text a reference stands for: a character reference (`#...`) its
/// character, a predefined entity its character; nothing when it names
/// neither.
pub open spec fn resolve_ref(name: Seq<char>) -> Seq<char> {
    if name.len() > 0 && name[0] == '#' {
        match char_ref_char(name.drop_first()) {
            Some(c) => seq![c],
            None => Seq::empty(),
        }
    } else {
        match xml_entity(name) {
            Some(c) => seq![c],
            None => Seq::empty(),
        }
    }
}

/// The character text a token contributes: character data, or the expansion
/// of a reference.
pub open spec fn token_text(t: XmlToken) -> Option<Seq<char>> {
    match t {
        XmlToken::Text(s) => Some(s@),
        XmlToken::Ref(r) => Some(resolve_ref(r@)),
        _ => None,
    }
}

/// The character of a predefined XML entity
/// (`quick_xml::escape::resolve_xml_entity`): one of the five `lt`, `gt`,
/// `amp`, `apos`, `quot`; `None` for any other name.
#[verifier::external_body]
fn predefined_entity(name: &str) -> (r: Option<&'static str>)
    ensures
        match xml_entity(name@) {
            Some(c) => r matches Some(t) && t@ == seq![c],
            None => r is None,
        },
{
    quick_xml::escape::resolve_xml_entity(name)
}

/// Resolves a character reference (`BytesRef::resolve_char_ref`), `None`
/// standing for its error: a name that does not start with `#` is no
/// character reference; otherwise the digits after `#` (hexadecimal after
/// `x`, else decimal, no sign) must give a non-zero Unicode scalar value,
/// else the reference is an error.
#[verifier::external_body]
fn char_reference(name: &str) -> (r: Option<Option<char>>)
    ensures
        !(name@.len() > 0 && name@[0] == '#') ==> r == Some(Option::<char>::None),
        name@.len() > 0 && name@[0] == '#' ==> match char_ref_char(name@.drop_first()) {
            Some(c) => r == Some(Some(c)),
            None => r is None,
        },
{
    quick_xml::events::BytesRef::new(name).resolve_char_ref().ok()
}

/// The text a reference stands for (see [`resolve_ref`]).
pub fn resolve_reference(name: &[char]) -> (v: Vec<char>)
    ensures
        v@ == resolve_ref(name@),
{
    let n = string_from_chars(name);
    let mut v: Vec<char> = Vec::new();
    match char_reference(n.as_str()) {
        Some(Some(c)) => {
            v.push(c);
        },
        Some(None) => match predefined_entity(n.as_str()) {
            Some(t) => {
                v = chars_of(t);
            },
            None => {},
        },
        None => {},
    }
    assert(v@ =~= resolve_ref(name@));
    v
}

/// The character text of a token (see [`token_text`]).
pub fn text_of_token(t: &XmlToken) -> (r: Option<Vec<char>>)
    ensures
        r matches Some(v) ==> token_text(*t) == Some(v@),
        r is None ==> token_text(*t) is None,
{
    match t {
        XmlToken::Text(s) => Some(chars_of(s.as_str())),
        XmlToken::Ref(r) => {
            let n = chars_of(r.as_str());
            Some(resolve_reference(n.as_slice()))
        },
        _ => None,
    }
}

/// Expands the references in an attribute value: each `&name;` is replaced
/// by [`resolve_ref`]; a `&` without a closing `;` is kept as is.
pub open spec fn unescape_value(s: Seq<char>) -> Seq<char>
    decreases s.len(),
{
    if s.len() == 0 {
        Seq::empty()
    } else if s[0] == '&' {
        match crate::text::first_index_of(s, ';') {
            Some(j) => if 0 < j < s.len() {
                resolve_ref(s.subrange(1, j)) + unescape_value(s.subrange(j + 1, s.len() as int))
            } else {
                seq![s[0]] + unescape_value(s.drop_first())
            },
            None => seq![s[0]] + unescape_value(s.drop_first()),
        }
    } else {
        seq![s[0]] + unescape_value(s.drop_first())
    }
}

// ---------------------------------------------------------------------------
// Attribute lookup
// ---------------------------------------------------------------------------

/// The value of the first attribute whose local name is `local`.
pub open spec fn attr_by_local(attrs: Seq<Option<XmlAttr>>, local: Seq<char>) -> Option<Seq<char>>
    decreases attrs.len(),
{
    if attrs.len() == 0 {
        None
    } else if attrs[0] matches Some(a) && a.local@ == local {
        Some(attrs[0]->0.value@)
    } else {
        attr_by_local(attrs.drop_first(), local)
    }
}

/// The value of the last attribute whose local name is `local` (later
/// duplicates override earlier ones).
pub open spec fn last_attr_by_local(attrs: Seq<Option<XmlAttr>>, local: Seq<char>) -> Option<
    Seq<char>,
>
    decreases attrs.len(),
{
    if attrs.len() == 0 {
        None
    } else if attrs.last() matches Some(a) && a.local@ == local {
        Some(attrs.last()->0.value@)
    } else {
        last_attr_by_local(attrs.drop_last(), local)
    }
}

/// Whether a qualified attribute key names `local`: it is exactly `key` or
/// ends in `:local` (e.g. `r:id` for `id`).
pub open spec fn key_matches(key: Seq<char>, exact: Seq<char>, suffix: Seq<char>) -> bool {
    key == exact || crate::text::has_suffix(key, suffix)
}

/// The value of the last attribute whose qualified key is `exact` or ends in
/// `suffix`.
pub open spec fn last_attr_by_key(
    attrs: Seq<Option<XmlAttr>>,
    exact: Seq<char>,
    suffix: Seq<char>,
) -> Option<Seq<char>>
    decreases attrs.len(),
{
    if attrs.len() == 0 {
        None
    } else if attrs.last() matches Some(a) && key_matches(a.key@, exact, suffix) {
        Some(attrs.last()->0.value@)
    } else {
        last_attr_by_key(attrs.drop_last(), exact, suffix)
    }
}

/// The first attribute with local name `local`.
pub fn find_attr_local(attrs: &Vec<Option<XmlAttr>>, local: &str) -> (r: Option<String>)
    ensures
        r matches Some(v) ==> attr_by_local(attrs@, local@) == Some(v@),
        r is None ==> attr_by_local(attrs@, local@) is None,
{
    let mut i: usize = 0;
    assert(attrs@.subrange(0, attrs.len() as int) =~= attrs@);
    while i < attrs.len()
        invariant
            i <= attrs.len(),
            attr_by_local(attrs@.subrange(i as int, attrs.len() as int), local@) == attr_by_local(
                attrs@,
                local@,
            ),
        decreases attrs.len() - i,
    {
        assert(attrs@.subrange(i as int, attrs.len() as int).drop_first() =~= attrs@.subrange(
            i + 1,
            attrs.len() as int,
        ));
        match &attrs[i] {
            Some(a) => {
                let k = chars_of(a.local.as_str());
                if eq_str(k.as_slice(), local) {
                    return Some(a.value.clone());
                }
            },
            None => {},
        }
        i = i + 1;
    }
    None
}

/// The last attribute with local name `local`.
pub fn find_last_attr_local(attrs: &Vec<Option<XmlAttr>>, local: &str) -> (r: Option<String>)
    ensures
        r matches Some(v) ==> last_attr_by_local(attrs@, local@) == Some(v@),
        r is None ==> last_attr_by_local(attrs@, local@) is None,
{
    let mut j = attrs.len();
    assert(attrs@.subrange(0, attrs.len() as int) =~= attrs@);
    while j > 0
        invariant
            j <= attrs.len(),
            last_attr_by_local(attrs@.subrange(0, j as int), local@) == last_attr_by_local(
                attrs@,
                local@,
            ),
        decreases j,
    {
        assert(attrs@.subrange(0, j as int).drop_last() =~= attrs@.subrange(0, j - 1));
        match &attrs[j - 1] {
            Some(a) => {
                let k = chars_of(a.local.as_str());
                if eq_str(k.as_slice(), local) {
                    return Some(a.value.clone());
                }
            },
            None => {},
        }
        j = j - 1;
    }
    None
}

/// The last attribute whose qualified key is `exact` or ends in `suffix`.
pub fn find_last_attr_key(attrs: &Vec<Option<XmlAttr>>, exact: &str, suffix: &str) -> (r: Option<
    String,
>)
    ensures
        r matches Some(v) ==> last_attr_by_key(attrs@, exact@, suffix@) == Some(v@),
        r is None ==> last_attr_by_key(attrs@, exact@, suffix@) is None,
{
    let mut j = attrs.len();
    assert(attrs@.subrange(0, attrs.len() as int) =~= attrs@);
    while j > 0
        invariant
            j <= attrs.len(),
            last_attr_by_key(attrs@.subrange(0, j as int), exact@, suffix@) == last_attr_by_key(
                attrs@,
                exact@,
                suffix@,
            ),
        decreases j,
    {
        assert(attrs@.subrange(0, j as int).drop_last() =~= attrs@.subrange(0, j - 1));
        match &attrs[j - 1] {
            Some(a) => {
                let k = chars_of(a.key.as_str());
                if eq_str(k.as_slice(), exact) || crate::text::ends_with_str(k.as_slice(), suffix) {
                    return Some(a.value.clone());
                }
            },
            None => {},
        }
        j = j - 1;
    }
    None
}

} // verus!
