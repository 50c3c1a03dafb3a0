//! PPTX (Office Open XML presentations) to Markdown: slides in
//! presentation order, each with its title as a heading, its text, tables
//! and pictures, and its speaker notes as a quote.

use std::io::Cursor;

use vstd::prelude::*;

use crate::converter::docx::{in_force, rel_in_force, total_len};
use crate::converter::ooxml_utils::{
    find_relationship, parse_relationships, rel_lookup, rels_view, resolve_file_spec,
    resolve_relative_to_file, rels_path_spec, Relationship,
};
use crate::converter::{
    warn_view, warning, warns_view, ConversionOptions, ConversionResult, ConversionWarning,
    Converter, WarningCode,
};
use crate::detection::last_index_of;
use crate::error::ConvertError;
use crate::markdown::{build_table, md_table};
use crate::text::{
    chars_of, decimal, decimal_chars, eq_str, find, has_prefix, join_with, lemma_deep_view_chars,
    push_all, push_joined, push_str, slice_chars, split_chars, split_on, starts_with_str,
    string_from_chars, trim, trim_end, trim_end_ws, trim_ws, contains_seq,
};
use crate::xml_io::{
    find_last_attr_key, find_last_attr_local, last_attr_by_key, last_attr_by_local, text_of_token,
    token_text,
    tokenize, xml_tokens, XmlAttr, XmlElement, XmlToken,
};
use crate::zip_io::{open_archive, zip_entry_names, zip_entry_read};
use crate::zip_utils::{failure_error, part_text, read_zip_bytes, read_zip_text, validate_zip_budget};
use crate::converter::docx_body::target_file_name;
use crate::converter::ooxml_utils::rels_from_tokens;

verus! {

broadcast use vstd::string::group_string_axioms;

/// Converts PPTX files to Markdown.
pub struct PptxConverter;

/// A slide in presentation order: its number and its part path.
#[derive(Debug)]
pub struct SlideInfo {
    pub number: usize,
    pub path: String,
}

/// The kind of placeholder a shape fills.
#[derive(Debug, Clone, Copy, PartialEq, Eq, Structural)]
pub enum PlaceholderType {
    Title,
    CenterTitle,
    SubTitle,
    Body,
    Other,
}

/// What a shape of a slide contributes.
#[derive(Debug)]
pub enum ShapeContent {
    Title(Vec<char>),
    Body(Vec<char>),
    Table { headers: Vec<Vec<char>>, rows: Vec<Vec<Vec<char>>> },
    Image { rel_id: String },
}

// ---------------------------------------------------------------------------
// Paths
// ---------------------------------------------------------------------------

/// The `.rels` part of a part, e.g. `ppt/slides/_rels/slide1.xml.rels`.
pub fn derive_rels_path(file_path: &str) -> (r: String)
    ensures
        r@ == rels_path_spec(file_path@),
{
    crate::converter::ooxml_utils::derive_rels_path(file_path)
}

/// Resolves a relationship target against the part that declares it, e.g.
/// `ppt/slides/slide1.xml` and `../media/image1.png` give
/// `ppt/media/image1.png`.
pub fn resolve_relative_path(base: &str, target: &str) -> (r: String)
    ensures
        r@ == resolve_file_spec(base@, target@),
{
    resolve_relative_to_file(base, target)
}

// ---------------------------------------------------------------------------
// Slide order
// ---------------------------------------------------------------------------

/// Whether an attribute key names a relationship id (`r:id`, `*:id`).
pub open spec fn is_id_key(k: Seq<char>) -> bool {
    k == "r:id"@ || crate::text::has_suffix(k, ":id"@)
}

/// The relationship ids of an `sldId` tag's attributes, in order.
pub open spec fn id_attrs(attrs: Seq<Option<XmlAttr>>) -> Seq<Seq<char>>
    decreases attrs.len(),
{
    if attrs.len() == 0 {
        Seq::empty()
    } else {
        let prev = id_attrs(attrs.drop_last());
        match attrs.last() {
            Some(a) => if is_id_key(a.key@) {
                prev.push(a.value@)
            } else {
                prev
            },
            None => prev,
        }
    }
}

/// The relationship ids of the `sldId` tags of `presentation.xml`, in
/// order.
pub open spec fn slide_rel_ids(tokens: Seq<XmlToken>) -> Seq<Seq<char>>
    decreases tokens.len(),
{
    if tokens.len() == 0 {
        Seq::empty()
    } else {
        let prev = slide_rel_ids(tokens.drop_last());
        match tokens.last() {
            XmlToken::Start(e) => if e.name@ == "sldId"@ {
                prev + id_attrs(e.attrs@)
            } else {
                prev
            },
            XmlToken::Empty(e) => if e.name@ == "sldId"@ {
                prev + id_attrs(e.attrs@)
            } else {
                prev
            },
            _ => prev,
        }
    }
}

/// The part path of a slide target: under `ppt/` unless it already is.
pub open spec fn slide_path(target: Seq<char>) -> Seq<char> {
    if has_prefix(target, "ppt/"@) {
        target
    } else {
        "ppt/"@ + target
    }
}

/// The slides of a presentation: each id (numbered from 1 by position)
/// whose relationship is known, with its part path.
pub open spec fn slides_of(ids: Seq<Seq<char>>, rels: Seq<(Seq<char>, Seq<char>, Seq<char>)>) -> Seq<(nat, Seq<char>)>
    decreases ids.len(),
{
    if ids.len() == 0 {
        Seq::empty()
    } else {
        let prev = slides_of(ids.drop_last(), rels);
        match rel_lookup(rels, ids.last()) {
            Some(p) => prev.push((ids.len(), slide_path(p.0))),
            None => prev,
        }
    }
}

/// The view of slide infos.
pub open spec fn slides_view(v: Seq<SlideInfo>) -> Seq<(nat, Seq<char>)> {
    v.map_values(|s: SlideInfo| (s.number as nat, s.path@))
}

/// The relationship ids of an `sldId` tag (see [`id_attrs`]).
fn push_id_attrs(attrs: &Vec<Option<XmlAttr>>, ids: &mut Vec<String>)
    ensures
        final(ids)@.map_values(|s: String| s@) == old(ids)@.map_values(|s: String| s@) + id_attrs(
            attrs@,
        ),
{
    let mut i: usize = 0;
    assert(old(ids)@.map_values(|s: String| s@) + id_attrs(attrs@.subrange(0, 0)) =~= old(
        ids,
    )@.map_values(|s: String| s@));
    while i < attrs.len()
        invariant
            i <= attrs.len(),
            ids@.map_values(|s: String| s@) == old(ids)@.map_values(|s: String| s@) + id_attrs(
                attrs@.subrange(0, i as int),
            ),
        decreases attrs.len() - i,
    {
        proof {
            let sub = attrs@.subrange(0, i + 1);
            assert(sub.drop_last() =~= attrs@.subrange(0, i as int));
            assert(sub.last() == attrs@[i as int]);
        }
        match &attrs[i] {
            Some(a) => {
                let k = chars_of(a.key.as_str());
                if eq_str(k.as_slice(), "r:id") || crate::text::ends_with_str(k.as_slice(), ":id") {
                    let ghost before = ids@;
                    ids.push(a.value.clone());
                    assert(ids@.map_values(|s: String| s@) =~= before.map_values(|s: String| s@).push(a.value@));
                }
            },
            None => {},
        }
        i = i + 1;
        assert(ids@.map_values(|s: String| s@) =~= old(ids)@.map_values(|s: String| s@) + id_attrs(
            attrs@.subrange(0, i as int),
        ));
    }
    assert(attrs@.subrange(0, attrs.len() as int) =~= attrs@);
}

/// The slides of a presentation in order (see [`slides_of`]).
pub fn resolve_slide_order(pres_xml: &str, pres_rels: &Vec<(String, Relationship)>) -> (r: Vec<SlideInfo>)
    ensures
        slides_view(r@) == slides_of(slide_rel_ids(xml_tokens(pres_xml@)), rels_view(pres_rels@)),
{
    let tokens = tokenize(pres_xml);
    let mut ids: Vec<String> = Vec::new();
    let mut t: usize = 0;
    while t < tokens.len()
        invariant
            t <= tokens.len(),
            tokens@ == xml_tokens(pres_xml@),
            ids@.map_values(|s: String| s@) == slide_rel_ids(tokens@.subrange(0, t as int)),
        decreases tokens.len() - t,
    {
        proof {
            let sub = tokens@.subrange(0, t + 1);
            assert(sub.drop_last() =~= tokens@.subrange(0, t as int));
            assert(sub.last() == tokens@[t as int]);
        }
        match &tokens[t] {
            XmlToken::Start(e) | XmlToken::Empty(e) => {
                let n = chars_of(e.name.as_str());
                if eq_str(n.as_slice(), "sldId") {
                    push_id_attrs(&e.attrs, &mut ids);
                }
            },
            _ => {},
        }
        t = t + 1;
    }
    assert(tokens@.subrange(0, tokens.len() as int) =~= tokens@);
    let ghost idv = ids@.map_values(|s: String| s@);
    let mut slides: Vec<SlideInfo> = Vec::new();
    let mut i: usize = 0;
    while i < ids.len()
        invariant
            i <= ids.len(),
            idv == ids@.map_values(|s: String| s@),
            slides_view(slides@) == slides_of(idv.subrange(0, i as int), rels_view(pres_rels@)),
        decreases ids.len() - i,
    {
        proof {
            let sub = idv.subrange(0, i + 1);
            assert(sub.drop_last() =~= idv.subrange(0, i as int));
            assert(sub.last() == ids@[i as int]@);
        }
        match find_relationship(pres_rels, ids[i].as_str()) {
            Some(rel) => {
                let tc = chars_of(rel.target.as_str());
                let path = if starts_with_str(tc.as_slice(), "ppt/") {
                    string_from_chars(tc.as_slice())
                } else {
                    let mut p: Vec<char> = Vec::new();
                    push_str(&mut p, "ppt/");
                    push_all(&mut p, tc.as_slice());
                    string_from_chars(p.as_slice())
                };
                let ghost before = slides@;
                slides.push(SlideInfo { number: i + 1, path });
                assert(slides_view(slides@) =~= slides_view(before).push(((i + 1) as nat, slide_path(rel.target@))));
            },
            None => {},
        }
        i = i + 1;
    }
    assert(idv.subrange(0, ids.len() as int) =~= idv);
    slides
}

// ---------------------------------------------------------------------------
// Shapes
// ---------------------------------------------------------------------------

/// The placeholder kind a `type` attribute value names.
pub open spec fn placeholder_of(v: Option<Seq<char>>) -> PlaceholderType {
    match v {
        Some(s) => if s == "title"@ {
            PlaceholderType::Title
        } else if s == "ctrTitle"@ {
            PlaceholderType::CenterTitle
        } else if s == "subTitle"@ {
            PlaceholderType::SubTitle
        } else if s == "body"@ {
            PlaceholderType::Body
        } else {
            PlaceholderType::Other
        },
        None => PlaceholderType::Other,
    }
}

/// The placeholder kind of a `<p:ph>` tag: from its last `type` attribute.
fn placeholder_type(attrs: &Vec<Option<XmlAttr>>) -> (r: PlaceholderType)
    ensures
        r == placeholder_of(crate::xml_io::last_attr_by_local(attrs@, "type"@)),
{
    match find_last_attr_local(attrs, "type") {
        Some(v) => {
            let c = chars_of(v.as_str());
            let s = c.as_slice();
            if eq_str(s, "title") {
                PlaceholderType::Title
            } else if eq_str(s, "ctrTitle") {
                PlaceholderType::CenterTitle
            } else if eq_str(s, "subTitle") {
                PlaceholderType::SubTitle
            } else if eq_str(s, "body") {
                PlaceholderType::Body
            } else {
                PlaceholderType::Other
            }
        },
        None => PlaceholderType::Other,
    }
}

/// The text of a shape: its paragraphs joined by newlines and trimmed;
/// `None` when that is empty.
pub open spec fn shape_text(paragraphs: Seq<Seq<char>>) -> Option<Seq<char>> {
    let t = trim_ws(join_with(paragraphs, seq!['\n']));
    if paragraphs.len() == 0 || t.len() == 0 {
        None
    } else {
        Some(t)
    }
}

/// What a finished shape contributes: a title for title placeholders, body
/// text otherwise (see [`shape_text`]).
pub fn finalize_shape(ph: Option<PlaceholderType>, paragraphs: &Vec<Vec<char>>) -> (r: Option<
    ShapeContent,
>)
    ensures
        match shape_text(paragraphs.deep_view()) {
            None => r is None,
            Some(t) => match r {
                Some(ShapeContent::Title(x)) => x@ == t && (ph == Some(PlaceholderType::Title)
                    || ph == Some(PlaceholderType::CenterTitle)),
                Some(ShapeContent::Body(x)) => x@ == t && !(ph == Some(PlaceholderType::Title)
                    || ph == Some(PlaceholderType::CenterTitle)),
                _ => false,
            },
        },
{
    if paragraphs.len() == 0 {
        return None;
    }
    let mut joined: Vec<char> = Vec::new();
    let nl: Vec<char> = vec!['\n'];
    push_joined(&mut joined, paragraphs.as_slice(), nl.as_slice());
    assert(nl@ =~= seq!['\n']);
    assert(joined@ =~= join_with(paragraphs.deep_view(), seq!['\n']));
    let t = trim(joined.as_slice());
    if t.len() == 0 {
        return None;
    }
    match ph {
        Some(PlaceholderType::Title) | Some(PlaceholderType::CenterTitle) => Some(
            ShapeContent::Title(t),
        ),
        _ => Some(ShapeContent::Body(t)),
    }
}

// ---------------------------------------------------------------------------
// Slide scanning
// ---------------------------------------------------------------------------

/// A shape's contribution as plain values.
#[verifier::ext_equal]
pub enum ShapeView {
    Title(Seq<char>),
    Body(Seq<char>),
    Table { headers: Seq<Seq<char>>, rows: Seq<Seq<Seq<char>>> },
    Image { rel_id: Seq<char> },
}

impl View for ShapeContent {
    type V = ShapeView;

    open spec fn view(&self) -> ShapeView {
        match self {
            ShapeContent::Title(t) => ShapeView::Title(t@),
            ShapeContent::Body(t) => ShapeView::Body(t@),
            ShapeContent::Table { headers, rows } => ShapeView::Table {
                headers: headers.deep_view(),
                rows: rows.deep_view(),
            },
            ShapeContent::Image { rel_id } => ShapeView::Image { rel_id: rel_id@ },
        }
    }
}

/// The views of a list of shapes.
pub open spec fn shapes_view(v: Seq<ShapeContent>) -> Seq<ShapeView> {
    v.map_values(|c: ShapeContent| c@)
}

/// What a finished text shape contributes (see [`finalize_shape`]).
pub open spec fn shape_of(ph: Option<PlaceholderType>, paragraphs: Seq<Seq<char>>) -> Option<
    ShapeView,
> {
    match shape_text(paragraphs) {
        None => None,
        Some(t) => if ph == Some(PlaceholderType::Title) || ph == Some(
            PlaceholderType::CenterTitle,
        ) {
            Some(ShapeView::Title(t))
        } else {
            Some(ShapeView::Body(t))
        },
    }
}

/// The text shape being read, as plain values.
#[verifier::ext_equal]
pub struct TextView {
    pub placeholder: Option<PlaceholderType>,
    pub in_text_body: bool,
    pub in_paragraph: bool,
    pub in_run: bool,
    pub in_text: bool,
    /// The text of the open paragraph.
    pub paragraph: Seq<char>,
    /// The non-empty paragraphs read so far.
    pub paragraphs: Seq<Seq<char>>,
    /// How many tags deep the shape is open.
    pub depth: u32,
}

/// A start tag inside a text shape.
pub open spec fn text_open(a: TextView, e: XmlElement) -> TextView {
    let n = e.name@;
    let a1 = TextView { depth: sat_inc(a.depth), ..a };
    if n == "ph"@ {
        TextView {
            placeholder: Some(placeholder_of(last_attr_by_local(e.attrs@, "type"@))),
            ..a1
        }
    } else if n == "txBody"@ {
        TextView { in_text_body: true, ..a1 }
    } else if n == "p"@ && a.in_text_body {
        TextView { in_paragraph: true, paragraph: Seq::empty(), ..a1 }
    } else if n == "r"@ && a.in_paragraph {
        TextView { in_run: true, ..a1 }
    } else if n == "t"@ && a.in_run {
        TextView { in_text: true, ..a1 }
    } else {
        a1
    }
}

/// An empty-element tag inside a text shape.
pub open spec fn text_empty(a: TextView, e: XmlElement) -> TextView {
    let n = e.name@;
    if n == "ph"@ {
        TextView { placeholder: Some(placeholder_of(last_attr_by_local(e.attrs@, "type"@))), ..a }
    } else if n == "br"@ && a.in_run {
        TextView { paragraph: a.paragraph.push('\n'), ..a }
    } else {
        a
    }
}

/// An end tag inside a text shape (the shape closes when `depth` reaches
/// zero).
pub open spec fn text_close(a: TextView, n: Seq<char>) -> TextView {
    let a0 = TextView { depth: (a.depth - 1) as u32, ..a };
    if n == "t"@ {
        TextView { in_text: false, ..a0 }
    } else if n == "r"@ {
        TextView { in_run: false, in_text: false, ..a0 }
    } else if n == "p"@ && a.in_paragraph {
        TextView {
            paragraphs: if a.paragraph.len() > 0 {
                a.paragraphs.push(a.paragraph)
            } else {
                a.paragraphs
            },
            paragraph: Seq::empty(),
            in_paragraph: false,
            ..a0
        }
    } else if n == "txBody"@ {
        TextView { in_text_body: false, ..a0 }
    } else {
        a0
    }
}

/// The text shape state once a shape has closed.
pub open spec fn text_reset(a: TextView) -> TextView {
    TextView {
        placeholder: None,
        paragraphs: Seq::empty(),
        in_text_body: false,
        in_paragraph: false,
        in_run: false,
        in_text: false,
        ..a
    }
}

/// The graphic frame being read, as plain values.
#[verifier::ext_equal]
pub struct FrameView {
    pub in_table: bool,
    pub in_table_row: bool,
    pub in_table_cell: bool,
    /// The finished rows of the open table.
    pub table_rows: Seq<Seq<Seq<char>>>,
    /// The finished cells of the open row.
    pub row: Seq<Seq<char>>,
    /// The text of the open cell.
    pub cell: Seq<char>,
    pub in_cell_paragraph: bool,
    pub in_cell_run: bool,
    pub in_cell_text: bool,
    /// How many tags deep the frame is open.
    pub depth: u32,
}

/// A start tag inside a graphic frame.
pub open spec fn frame_open(f: FrameView, n: Seq<char>) -> FrameView {
    let f1 = FrameView { depth: sat_inc(f.depth), ..f };
    if n == "tbl"@ {
        FrameView { in_table: true, table_rows: Seq::empty(), ..f1 }
    } else if n == "tr"@ && f.in_table {
        FrameView { in_table_row: true, row: Seq::empty(), ..f1 }
    } else if n == "tc"@ && f.in_table_row {
        FrameView { in_table_cell: true, cell: Seq::empty(), ..f1 }
    } else if n == "p"@ && f.in_table_cell {
        FrameView {
            cell: if f.cell.len() > 0 {
                f.cell.push(' ')
            } else {
                f.cell
            },
            in_cell_paragraph: true,
            ..f1
        }
    } else if n == "r"@ && f.in_cell_paragraph {
        FrameView { in_cell_run: true, ..f1 }
    } else if n == "t"@ && f.in_cell_run {
        FrameView { in_cell_text: true, ..f1 }
    } else {
        f1
    }
}

/// The table a closing `tbl` yields: its first row is the header.
pub open spec fn table_of(rows: Seq<Seq<Seq<char>>>) -> Option<ShapeView> {
    if rows.len() > 0 {
        Some(ShapeView::Table { headers: rows[0], rows: rows.drop_first() })
    } else {
        None
    }
}

/// An end tag inside a graphic frame (the frame closes when `depth`
/// reaches zero).
pub open spec fn frame_close(f: FrameView, n: Seq<char>) -> FrameView {
    let f0 = FrameView { depth: (f.depth - 1) as u32, ..f };
    if n == "t"@ && f.in_table_cell {
        FrameView { in_cell_text: false, ..f0 }
    } else if n == "r"@ && f.in_table_cell {
        FrameView { in_cell_run: false, in_cell_text: false, ..f0 }
    } else if n == "p"@ && f.in_cell_paragraph {
        FrameView { in_cell_paragraph: false, ..f0 }
    } else if n == "tc"@ && f.in_table_cell {
        FrameView {
            row: f.row.push(trim_ws(f.cell)),
            cell: Seq::empty(),
            in_table_cell: false,
            in_cell_paragraph: false,
            in_cell_run: false,
            in_cell_text: false,
            ..f0
        }
    } else if n == "tr"@ && f.in_table_row {
        FrameView { table_rows: f.table_rows.push(f.row), row: Seq::empty(), in_table_row: false, ..f0 }
    } else if n == "tbl"@ && f.in_table {
        FrameView { table_rows: Seq::empty(), in_table: false, ..f0 }
    } else {
        f0
    }
}

/// The table an end tag inside a graphic frame finishes, if any.
pub open spec fn frame_table(f: FrameView, n: Seq<char>) -> Option<ShapeView> {
    if n == "t"@ && f.in_table_cell {
        None
    } else if n == "r"@ && f.in_table_cell {
        None
    } else if n == "p"@ && f.in_cell_paragraph {
        None
    } else if n == "tc"@ && f.in_table_cell {
        None
    } else if n == "tr"@ && f.in_table_row {
        None
    } else if n == "tbl"@ && f.in_table {
        table_of(f.table_rows)
    } else {
        None
    }
}

/// The frame state once a frame has closed.
pub open spec fn frame_reset(f: FrameView) -> FrameView {
    FrameView {
        in_table: false,
        in_table_row: false,
        in_table_cell: false,
        in_cell_paragraph: false,
        in_cell_run: false,
        in_cell_text: false,
        ..f
    }
}

/// `shapes` with `c` appended when there is one.
pub open spec fn push_some(shapes: Seq<ShapeView>, c: Option<ShapeView>) -> Seq<ShapeView> {
    match c {
        Some(x) => shapes.push(x),
        None => shapes,
    }
}

/// The state of a slide scan, as plain values.
#[verifier::ext_equal]
pub struct ScanView {
    /// The shapes finished so far.
    pub shapes: Seq<ShapeView>,
    pub in_shape: bool,
    pub in_graphic_frame: bool,
    pub in_picture: bool,
    pub text: TextView,
    pub frame: FrameView,
    /// The image reference of the open picture.
    pub blip: Option<Seq<char>>,
    pub picture_depth: u32,
}

/// Nothing scanned yet.
pub open spec fn scan_start() -> ScanView {
    ScanView {
        shapes: Seq::empty(),
        in_shape: false,
        in_graphic_frame: false,
        in_picture: false,
        text: TextView {
            placeholder: None,
            in_text_body: false,
            in_paragraph: false,
            in_run: false,
            in_text: false,
            paragraph: Seq::empty(),
            paragraphs: Seq::empty(),
            depth: 0,
        },
        frame: FrameView {
            in_table: false,
            in_table_row: false,
            in_table_cell: false,
            table_rows: Seq::empty(),
            row: Seq::empty(),
            cell: Seq::empty(),
            in_cell_paragraph: false,
            in_cell_run: false,
            in_cell_text: false,
            depth: 0,
        },
        blip: None,
        picture_depth: 0,
    }
}

/// A tag inside a picture: a `blip` records its image reference.
pub open spec fn picture_seen(
    blip: Option<Seq<char>>,
    n: Seq<char>,
    attrs: Seq<Option<XmlAttr>>,
) -> Option<Seq<char>> {
    if n == "blip"@ {
        match last_attr_by_key(attrs, "r:embed"@, ":embed"@) {
            Some(v) => Some(v),
            None => blip,
        }
    } else {
        blip
    }
}

/// A start tag: outside any container, `sp`, `graphicFrame` and `pic`
/// open one.
pub open spec fn scan_open(s: ScanView, e: XmlElement) -> ScanView {
    let n = e.name@;
    let outside = !s.in_shape && !s.in_graphic_frame && !s.in_picture;
    if outside && n == "sp"@ {
        ScanView {
            in_shape: true,
            text: TextView { depth: 1, placeholder: None, paragraphs: Seq::empty(), ..s.text },
            ..s
        }
    } else if outside && n == "graphicFrame"@ {
        ScanView { in_graphic_frame: true, frame: FrameView { depth: 1, ..s.frame }, ..s }
    } else if outside && n == "pic"@ {
        ScanView { in_picture: true, picture_depth: 1, blip: None, ..s }
    } else if s.in_shape {
        ScanView { text: text_open(s.text, e), ..s }
    } else if s.in_graphic_frame {
        ScanView { frame: frame_open(s.frame, n), ..s }
    } else if s.in_picture {
        ScanView {
            picture_depth: sat_inc(s.picture_depth),
            blip: picture_seen(s.blip, n, e.attrs@),
            ..s
        }
    } else {
        s
    }
}

/// An empty-element tag.
pub open spec fn scan_empty(s: ScanView, e: XmlElement) -> ScanView {
    let n = e.name@;
    if s.in_shape {
        ScanView { text: text_empty(s.text, e), ..s }
    } else if s.in_graphic_frame {
        if n == "br"@ && s.frame.in_cell_run {
            ScanView { frame: FrameView { cell: s.frame.cell.push(' '), ..s.frame }, ..s }
        } else {
            s
        }
    } else if s.in_picture {
        ScanView { blip: picture_seen(s.blip, n, e.attrs@), ..s }
    } else {
        s
    }
}

/// Character data: it goes to the open run of a shape or of a table cell.
pub open spec fn scan_chars(s: ScanView, x: Seq<char>) -> ScanView {
    if s.in_shape && s.text.in_text && s.text.in_run {
        ScanView { text: TextView { paragraph: s.text.paragraph + x, ..s.text }, ..s }
    } else if s.in_graphic_frame && s.frame.in_cell_text && s.frame.in_cell_run {
        ScanView { frame: FrameView { cell: s.frame.cell + x, ..s.frame }, ..s }
    } else {
        s
    }
}

/// An end tag inside a shape; when the shape closes, what it contributes
/// is recorded.
pub open spec fn close_in_shape(s: ScanView, n: Seq<char>) -> ScanView {
    let a = text_close(s.text, n);
    if a.depth == 0 {
        ScanView {
            shapes: push_some(s.shapes, shape_of(a.placeholder, a.paragraphs)),
            in_shape: false,
            text: text_reset(a),
            ..s
        }
    } else {
        ScanView { text: a, ..s }
    }
}

/// An end tag inside a graphic frame; a closing table is recorded.
pub open spec fn close_in_frame(s: ScanView, n: Seq<char>) -> ScanView {
    let f = frame_close(s.frame, n);
    let shapes = push_some(s.shapes, frame_table(s.frame, n));
    if f.depth == 0 {
        ScanView { shapes, in_graphic_frame: false, frame: frame_reset(f), ..s }
    } else {
        ScanView { shapes, frame: f, ..s }
    }
}

/// An end tag inside a picture: once it closes, its image reference.
pub open spec fn close_in_picture(s: ScanView) -> ScanView {
    let d = (s.picture_depth - 1) as u32;
    if d == 0 {
        ScanView {
            shapes: match s.blip {
                Some(b) => s.shapes.push(ShapeView::Image { rel_id: b }),
                None => s.shapes,
            },
            blip: None,
            in_picture: false,
            picture_depth: d,
            ..s
        }
    } else {
        ScanView { picture_depth: d, ..s }
    }
}

/// An end tag.
pub open spec fn scan_close(s: ScanView, n: Seq<char>) -> ScanView {
    if s.in_shape {
        close_in_shape(s, n)
    } else if s.in_graphic_frame {
        close_in_frame(s, n)
    } else if s.in_picture {
        close_in_picture(s)
    } else {
        s
    }
}

/// One token of a slide.
pub open spec fn scan_step(s: ScanView, t: XmlToken) -> ScanView {
    match t {
        XmlToken::Start(e) => scan_open(s, e),
        XmlToken::Empty(e) => scan_empty(s, e),
        XmlToken::End(n) => scan_close(s, n@),
        XmlToken::Error(_) => s,
        _ => match token_text(t) {
            Some(x) => scan_chars(s, x),
            None => s,
        },
    }
}

/// The scan after reading `tokens`.
pub open spec fn scan_fold(tokens: Seq<XmlToken>) -> ScanView
    decreases tokens.len(),
{
    if tokens.len() == 0 {
        scan_start()
    } else {
        scan_step(scan_fold(tokens.drop_last()), tokens.last())
    }
}

/// `d + 1`, held at `u32::MAX`.
fn inc_depth(d: u32) -> (r: u32)
    ensures
        r == sat_inc(d),
{
    if d < u32::MAX {
        d + 1
    } else {
        d
    }
}

/// The text shape being read.
pub struct TextShape {
    pub placeholder: Option<PlaceholderType>,
    pub in_text_body: bool,
    pub in_paragraph: bool,
    pub in_run: bool,
    pub in_text: bool,
    pub paragraph: Vec<char>,
    pub paragraphs: Vec<Vec<char>>,
    pub depth: u32,
}

impl View for TextShape {
    type V = TextView;

    open spec fn view(&self) -> TextView {
        TextView {
            placeholder: self.placeholder,
            in_text_body: self.in_text_body,
            in_paragraph: self.in_paragraph,
            in_run: self.in_run,
            in_text: self.in_text,
            paragraph: self.paragraph@,
            paragraphs: self.paragraphs.deep_view(),
            depth: self.depth,
        }
    }
}

impl TextShape {
    /// A start tag inside the shape.
    fn open(&mut self, e: &XmlElement)
        ensures
            final(self)@ == text_open(old(self)@, *e),
    {
        let n = chars_of(e.name.as_str());
        let name = n.as_slice();
        self.depth = inc_depth(self.depth);
        if eq_str(name, "ph") {
            self.placeholder = Some(placeholder_type(&e.attrs));
        } else if eq_str(name, "txBody") {
            self.in_text_body = true;
        } else if eq_str(name, "p") && self.in_text_body {
            self.in_paragraph = true;
            self.paragraph.clear();
        } else if eq_str(name, "r") && self.in_paragraph {
            self.in_run = true;
        } else if eq_str(name, "t") && self.in_run {
            self.in_text = true;
        }
    }

    /// An empty-element tag inside the shape.
    fn empty(&mut self, e: &XmlElement)
        ensures
            final(self)@ == text_empty(old(self)@, *e),
    {
        let n = chars_of(e.name.as_str());
        let name = n.as_slice();
        if eq_str(name, "ph") {
            self.placeholder = Some(placeholder_type(&e.attrs));
        } else if eq_str(name, "br") && self.in_run {
            self.paragraph.push('\n');
        }
    }

    /// An end tag inside the shape.
    fn close(&mut self, name: &[char])
        requires
            old(self).depth >= 1,
        ensures
            final(self)@ == text_close(old(self)@, name@),
    {
        self.depth = self.depth - 1;
        if eq_str(name, "t") {
            self.in_text = false;
        } else if eq_str(name, "r") {
            self.in_run = false;
            self.in_text = false;
        } else if eq_str(name, "p") && self.in_paragraph {
            if self.paragraph.len() > 0 {
                let ghost before = self.paragraphs.deep_view();
                let para = slice_chars(self.paragraph.as_slice(), 0, self.paragraph.len());
                proof {
                    lemma_deep_view_chars(para);
                    assert(para@ =~= self.paragraph@);
                }
                self.paragraphs.push(para);
                assert(self.paragraphs.deep_view() =~= before.push(old(self).paragraph@));
            }
            self.paragraph.clear();
            self.in_paragraph = false;
        } else if eq_str(name, "txBody") {
            self.in_text_body = false;
        }
    }

    /// Clears the shape state once the shape has closed.
    fn reset(&mut self)
        ensures
            final(self)@ == text_reset(old(self)@),
    {
        self.placeholder = None;
        self.paragraphs.clear();
        assert(self.paragraphs.deep_view() =~= Seq::<Seq<char>>::empty());
        self.in_text_body = false;
        self.in_paragraph = false;
        self.in_run = false;
        self.in_text = false;
    }
}

/// The graphic frame being read.
pub struct FrameScan {
    pub in_table: bool,
    pub in_table_row: bool,
    pub in_table_cell: bool,
    pub table_rows: Vec<Vec<Vec<char>>>,
    pub row: Vec<Vec<char>>,
    pub cell: Vec<char>,
    pub in_cell_paragraph: bool,
    pub in_cell_run: bool,
    pub in_cell_text: bool,
    pub depth: u32,
}

impl View for FrameScan {
    type V = FrameView;

    open spec fn view(&self) -> FrameView {
        FrameView {
            in_table: self.in_table,
            in_table_row: self.in_table_row,
            in_table_cell: self.in_table_cell,
            table_rows: self.table_rows.deep_view(),
            row: self.row.deep_view(),
            cell: self.cell@,
            in_cell_paragraph: self.in_cell_paragraph,
            in_cell_run: self.in_cell_run,
            in_cell_text: self.in_cell_text,
            depth: self.depth,
        }
    }
}

impl FrameScan {
    /// A start tag inside the frame.
    fn open(&mut self, name: &[char])
        ensures
            final(self)@ == frame_open(old(self)@, name@),
    {
        self.depth = inc_depth(self.depth);
        if eq_str(name, "tbl") {
            self.in_table = true;
            self.table_rows.clear();
            assert(self.table_rows.deep_view() =~= Seq::<Seq<Seq<char>>>::empty());
        } else if eq_str(name, "tr") && self.in_table {
            self.in_table_row = true;
            self.row.clear();
            assert(self.row.deep_view() =~= Seq::<Seq<char>>::empty());
        } else if eq_str(name, "tc") && self.in_table_row {
            self.in_table_cell = true;
            self.cell.clear();
        } else if eq_str(name, "p") && self.in_table_cell {
            if self.cell.len() > 0 {
                self.cell.push(' ');
            }
            self.in_cell_paragraph = true;
        } else if eq_str(name, "r") && self.in_cell_paragraph {
            self.in_cell_run = true;
        } else if eq_str(name, "t") && self.in_cell_run {
            self.in_cell_text = true;
        }
    }

    /// The table of the rows read: the first row is the header.
    fn take_table(&mut self) -> (r: Option<ShapeContent>)
        ensures
            final(self)@ == (FrameView { table_rows: Seq::empty(), ..old(self)@ }),
            match r {
                Some(c) => table_of(old(self)@.table_rows) == Some(c@),
                None => table_of(old(self)@.table_rows) is None,
            },
    {
        let mut rows: Vec<Vec<Vec<char>>> = Vec::new();
        std::mem::swap(&mut rows, &mut self.table_rows);
        assert(self.table_rows.deep_view() =~= Seq::<Seq<Seq<char>>>::empty());
        if rows.len() > 0 {
            let ghost all = rows.deep_view();
            let headers = rows.remove(0);
            assert(rows.deep_view() =~= all.drop_first());
            assert(headers.deep_view() =~= all[0]);
            Some(ShapeContent::Table { headers, rows })
        } else {
            None
        }
    }

    /// An end tag inside the frame, with the table it finishes, if any.
    fn close(&mut self, name: &[char]) -> (r: Option<ShapeContent>)
        requires
            old(self).depth >= 1,
        ensures
            final(self)@ == frame_close(old(self)@, name@),
            match r {
                Some(c) => frame_table(old(self)@, name@) == Some(c@),
                None => frame_table(old(self)@, name@) is None,
            },
    {
        self.depth = self.depth - 1;
        if eq_str(name, "t") && self.in_table_cell {
            self.in_cell_text = false;
        } else if eq_str(name, "r") && self.in_table_cell {
            self.in_cell_run = false;
            self.in_cell_text = false;
        } else if eq_str(name, "p") && self.in_cell_paragraph {
            self.in_cell_paragraph = false;
        } else if eq_str(name, "tc") && self.in_table_cell {
            let ghost before = self.row.deep_view();
            let c = trim(self.cell.as_slice());
            proof {
                lemma_deep_view_chars(c);
            }
            self.row.push(c);
            assert(self.row.deep_view() =~= before.push(trim_ws(old(self).cell@)));
            self.cell.clear();
            self.in_table_cell = false;
            self.in_cell_paragraph = false;
            self.in_cell_run = false;
            self.in_cell_text = false;
        } else if eq_str(name, "tr") && self.in_table_row {
            let ghost before = self.table_rows.deep_view();
            let mut r: Vec<Vec<char>> = Vec::new();
            std::mem::swap(&mut r, &mut self.row);
            let ghost rv = r.deep_view();
            self.table_rows.push(r);
            assert(self.table_rows.deep_view() =~= before.push(rv));
            assert(self.row.deep_view() =~= Seq::<Seq<char>>::empty());
            self.in_table_row = false;
        } else if eq_str(name, "tbl") && self.in_table {
            let t = self.take_table();
            self.in_table = false;
            return t;
        }
        None
    }

    /// Clears the table state once the frame has closed.
    fn reset(&mut self)
        ensures
            final(self)@ == frame_reset(old(self)@),
    {
        self.in_table = false;
        self.in_table_row = false;
        self.in_table_cell = false;
        self.in_cell_paragraph = false;
        self.in_cell_run = false;
        self.in_cell_text = false;
    }
}

/// The state of a slide scan.
pub struct SlideScan {
    pub shapes: Vec<ShapeContent>,
    pub in_shape: bool,
    pub in_graphic_frame: bool,
    pub in_picture: bool,
    pub text: TextShape,
    pub frame: FrameScan,
    pub blip: Option<String>,
    pub picture_depth: u32,
}

impl View for SlideScan {
    type V = ScanView;

    open spec fn view(&self) -> ScanView {
        ScanView {
            shapes: shapes_view(self.shapes@),
            in_shape: self.in_shape,
            in_graphic_frame: self.in_graphic_frame,
            in_picture: self.in_picture,
            text: self.text@,
            frame: self.frame@,
            blip: match self.blip {
                Some(b) => Some(b@),
                None => None,
            },
            picture_depth: self.picture_depth,
        }
    }
}

impl SlideScan {
    /// Whether each open container has a positive depth.
    pub open spec fn depths_ok(&self) -> bool {
        &&& self.in_shape ==> self.text.depth >= 1
        &&& self.in_graphic_frame ==> self.frame.depth >= 1
        &&& self.in_picture ==> self.picture_depth >= 1
    }

    fn new() -> (s: SlideScan)
        ensures
            s.depths_ok(),
            s@ == scan_start(),
    {
        let s = SlideScan {
            shapes: Vec::new(),
            in_shape: false,
            in_graphic_frame: false,
            in_picture: false,
            text: TextShape {
                placeholder: None,
                in_text_body: false,
                in_paragraph: false,
                in_run: false,
                in_text: false,
                paragraph: Vec::new(),
                paragraphs: Vec::new(),
                depth: 0,
            },
            frame: FrameScan {
                in_table: false,
                in_table_row: false,
                in_table_cell: false,
                table_rows: Vec::new(),
                row: Vec::new(),
                cell: Vec::new(),
                in_cell_paragraph: false,
                in_cell_run: false,
                in_cell_text: false,
                depth: 0,
            },
            blip: None,
            picture_depth: 0,
        };
        assert(s.text.paragraphs.deep_view() =~= Seq::<Seq<char>>::empty());
        assert(s.frame.row.deep_view() =~= Seq::<Seq<char>>::empty());
        assert(s.frame.table_rows.deep_view() =~= Seq::<Seq<Seq<char>>>::empty());
        assert(shapes_view(s.shapes@) =~= Seq::<ShapeView>::empty());
        s
    }

    /// Records the image reference of a `blip` tag inside a picture.
    fn picture_tag(&mut self, name: &[char], attrs: &Vec<Option<XmlAttr>>)
        ensures
            final(self)@ == (ScanView { blip: picture_seen(old(self)@.blip, name@, attrs@), ..old(self)@ }),
            final(self).depths_ok() == old(self).depths_ok(),
    {
        if eq_str(name, "blip") {
            match find_last_attr_key(attrs, "r:embed", ":embed") {
                Some(v) => {
                    self.blip = Some(v);
                },
                None => {},
            }
        }
    }

    /// Appends a shape when there is one.
    fn push_shape(&mut self, c: Option<ShapeContent>)
        ensures
            final(self)@ == (ScanView {
                shapes: push_some(old(self)@.shapes, match c {
                    Some(x) => Some(x@),
                    None => None,
                }),
                ..old(self)@
            }),
            final(self).depths_ok() == old(self).depths_ok(),
    {
        match c {
            Some(x) => {
                let ghost before = self.shapes@;
                let ghost xv = x@;
                self.shapes.push(x);
                assert(shapes_view(self.shapes@) =~= shapes_view(before).push(xv));
            },
            None => {},
        }
    }

    /// A start tag.
    fn start_tag(&mut self, e: &XmlElement)
        requires
            old(self).depths_ok(),
        ensures
            final(self).depths_ok(),
            final(self)@ == scan_open(old(self)@, *e),
    {
        let n = chars_of(e.name.as_str());
        let name = n.as_slice();
        let outside = !self.in_shape && !self.in_graphic_frame && !self.in_picture;
        if outside && eq_str(name, "sp") {
            self.in_shape = true;
            self.text.depth = 1;
            self.text.placeholder = None;
            self.text.paragraphs.clear();
            assert(self.text.paragraphs.deep_view() =~= Seq::<Seq<char>>::empty());
        } else if outside && eq_str(name, "graphicFrame") {
            self.in_graphic_frame = true;
            self.frame.depth = 1;
        } else if outside && eq_str(name, "pic") {
            self.in_picture = true;
            self.picture_depth = 1;
            self.blip = None;
        } else if self.in_shape {
            self.text.open(e);
        } else if self.in_graphic_frame {
            self.frame.open(name);
        } else if self.in_picture {
            self.picture_depth = inc_depth(self.picture_depth);
            self.picture_tag(name, &e.attrs);
        }
    }

    /// An empty-element tag.
    fn empty_tag(&mut self, e: &XmlElement)
        requires
            old(self).depths_ok(),
        ensures
            final(self).depths_ok(),
            final(self)@ == scan_empty(old(self)@, *e),
    {
        let n = chars_of(e.name.as_str());
        let name = n.as_slice();
        if self.in_shape {
            self.text.empty(e);
        } else if self.in_graphic_frame {
            if eq_str(name, "br") && self.frame.in_cell_run {
                self.frame.cell.push(' ');
            }
        } else if self.in_picture {
            self.picture_tag(name, &e.attrs);
        }
    }

    /// Character data.
    fn text(&mut self, t: &[char])
        requires
            old(self).depths_ok(),
        ensures
            final(self).depths_ok(),
            final(self)@ == scan_chars(old(self)@, t@),
    {
        if self.in_shape && self.text.in_text && self.text.in_run {
            push_all(&mut self.text.paragraph, t);
        } else if self.in_graphic_frame && self.frame.in_cell_text && self.frame.in_cell_run {
            push_all(&mut self.frame.cell, t);
        }
    }

    /// An end tag inside a shape.
    fn end_in_shape(&mut self, name: &[char])
        requires
            old(self).in_shape,
            old(self).depths_ok(),
        ensures
            final(self).depths_ok(),
            final(self)@ == close_in_shape(old(self)@, name@),
    {
        self.text.close(name);
        if self.text.depth == 0 {
            let content = finalize_shape(self.text.placeholder, &self.text.paragraphs);
            self.push_shape(content);
            self.in_shape = false;
            self.text.reset();
        }
    }

    /// An end tag inside a graphic frame.
    fn end_in_frame(&mut self, name: &[char])
        requires
            !old(self).in_shape,
            old(self).in_graphic_frame,
            old(self).depths_ok(),
        ensures
            final(self).depths_ok(),
            final(self)@ == close_in_frame(old(self)@, name@),
    {
        let t = self.frame.close(name);
        self.push_shape(t);
        if self.frame.depth == 0 {
            self.in_graphic_frame = false;
            self.frame.reset();
        }
    }

    /// An end tag inside a picture: the picture's image reference, once
    /// it closes.
    fn end_in_picture(&mut self)
        requires
            !old(self).in_shape,
            !old(self).in_graphic_frame,
            old(self).in_picture,
            old(self).depths_ok(),
        ensures
            final(self).depths_ok(),
            final(self)@ == close_in_picture(old(self)@),
    {
        self.picture_depth = self.picture_depth - 1;
        if self.picture_depth == 0 {
            let b = self.blip.take();
            match b {
                Some(rel_id) => {
                    self.push_shape(Some(ShapeContent::Image { rel_id }));
                },
                None => {},
            }
            self.in_picture = false;
        }
    }

    /// An end tag.
    fn end_tag(&mut self, name_s: &String)
        requires
            old(self).depths_ok(),
        ensures
            final(self).depths_ok(),
            final(self)@ == scan_close(old(self)@, name_s@),
    {
        let n = chars_of(name_s.as_str());
        if self.in_shape {
            self.end_in_shape(n.as_slice());
        } else if self.in_graphic_frame {
            self.end_in_frame(n.as_slice());
        } else if self.in_picture {
            self.end_in_picture();
        }
    }
}

/// The warning a slide's syntax error gives, if any.
pub open spec fn slide_parse_warnings(tokens: Seq<XmlToken>) -> Seq<
    (WarningCode, Seq<char>, Option<Seq<char>>),
> {
    if tokens.len() > 0 && tokens.last() is Error {
        seq![(WarningCode::MalformedSegment, "XML parse error in slide: "@ + tokens.last()->Error_0@, None)]
    } else {
        Seq::empty()
    }
}

/// The shapes of a slide in document order (see [`scan_fold`]): titles,
/// body text, tables and pictures. A syntax error ends the scan with one
/// `MalformedSegment` warning.
pub fn parse_slide(xml: &str) -> (r: (Vec<ShapeContent>, Vec<ConversionWarning>))
    ensures
        shapes_view(r.0@) == scan_fold(xml_tokens(xml@)).shapes,
        warns_view(r.1@) == slide_parse_warnings(xml_tokens(xml@)),
        r.1@.len() <= 1,
        forall|k: int| 0 <= k < r.1@.len() ==> (#[trigger] r.1@[k]).code == WarningCode::MalformedSegment,
        r.1@.len() == 1 <==> xml_tokens(xml@).last() is Error,
{
    let tokens = tokenize(xml);
    let mut scan = SlideScan::new();
    let mut i: usize = 0;
    assert(tokens@.subrange(0, 0) =~= Seq::<XmlToken>::empty());
    while i < tokens.len()
        invariant
            i <= tokens.len(),
            tokens@ == xml_tokens(xml@),
            crate::xml_io::well_terminated(tokens@),
            scan.depths_ok(),
            scan@ == scan_fold(tokens@.subrange(0, i as int)),
            forall|k: int| 0 <= k < i ==> !(#[trigger] tokens@[k] is Error),
        decreases tokens.len() - i,
    {
        assert(tokens@.subrange(0, i + 1).drop_last() =~= tokens@.subrange(0, i as int));
        match &tokens[i] {
            XmlToken::Start(e) => {
                scan.start_tag(e);
            },
            XmlToken::Empty(e) => {
                scan.empty_tag(e);
            },
            XmlToken::End(n) => {
                scan.end_tag(n);
            },
            XmlToken::Error(m) => {
                let mut msg: Vec<char> = Vec::new();
                push_str(&mut msg, "XML parse error in slide: ");
                push_str(&mut msg, m.as_str());
                let mut warnings: Vec<ConversionWarning> = Vec::new();
                let w = warning(WarningCode::MalformedSegment, msg, None);
                let ghost wv = warn_view(w);
                warnings.push(w);
                assert(warns_view(warnings@) =~= seq![wv]);
                assert(i == tokens.len() - 1) by {
                    if i < tokens.len() - 1 {
                        assert(!crate::xml_io::is_terminal(tokens@[i as int]));
                    }
                }
                assert(tokens@.subrange(0, i + 1) =~= tokens@);
                return (scan.shapes, warnings);
            },
            t => match text_of_token(t) {
                Some(s) => {
                    scan.text(s.as_slice());
                },
                None => {},
            },
        }
        i = i + 1;
    }
    assert(tokens@.subrange(0, tokens@.len() as int) =~= tokens@);
    assert(!(tokens@.last() is Error)) by {
        assert(tokens@.last() == tokens@[tokens.len() - 1]);
    }
    let none: Vec<ConversionWarning> = Vec::new();
    assert(warns_view(none@) =~= Seq::empty());
    (scan.shapes, none)
}

// ---------------------------------------------------------------------------
// Notes
// ---------------------------------------------------------------------------

/// Whether an attribute is `type="body"`.
pub open spec fn is_body_attr(o: Option<XmlAttr>) -> bool {
    match o {
        Some(a) => a.local@ == "type"@ && a.value@ == "body"@,
        None => false,
    }
}

/// Whether some attribute of a `<p:ph>` tag is `type="body"`.
pub open spec fn body_type(attrs: Seq<Option<XmlAttr>>) -> bool {
    exists|k: int| 0 <= k < attrs.len() && #[trigger] is_body_attr(attrs[k])
}

/// `d + 1`, held at `u32::MAX`.
pub open spec fn sat_inc(d: u32) -> u32 {
    if d == u32::MAX {
        d
    } else {
        (d + 1) as u32
    }
}

/// The state of reading a notes slide.
pub struct NotesState {
    /// Inside a shape, `depth` tags deep.
    pub in_shape: bool,
    pub depth: u32,
    /// The shape is a body placeholder.
    pub is_body: bool,
    pub in_text_body: bool,
    pub in_paragraph: bool,
    pub in_run: bool,
    pub in_text: bool,
    /// The text of the open paragraph.
    pub paragraph: Seq<char>,
    /// The non-empty paragraphs of the shape.
    pub paragraphs: Seq<Seq<char>>,
    /// The notes, once a body shape with text has closed.
    pub found: Option<Seq<char>>,
}

/// Nothing read yet.
pub open spec fn notes_start() -> NotesState {
    NotesState {
        in_shape: false,
        depth: 0,
        is_body: false,
        in_text_body: false,
        in_paragraph: false,
        in_run: false,
        in_text: false,
        paragraph: Seq::empty(),
        paragraphs: Seq::empty(),
        found: None,
    }
}

/// The trimmed text of a shape's paragraphs joined by newlines.
pub open spec fn notes_text(paragraphs: Seq<Seq<char>>) -> Seq<char> {
    trim_ws(join_with(paragraphs, seq!['\n']))
}

/// A start tag.
pub open spec fn notes_open(s: NotesState, e: XmlElement) -> NotesState {
    let n = e.name@;
    if n == "sp"@ && !s.in_shape {
        NotesState { in_shape: true, depth: 1, is_body: false, paragraphs: Seq::empty(), ..s }
    } else if s.in_shape {
        let s1 = NotesState { depth: sat_inc(s.depth), ..s };
        if n == "ph"@ {
            if body_type(e.attrs@) {
                NotesState { is_body: true, ..s1 }
            } else {
                s1
            }
        } else if n == "txBody"@ {
            NotesState { in_text_body: true, ..s1 }
        } else if n == "p"@ && s.in_text_body {
            NotesState { in_paragraph: true, paragraph: Seq::empty(), ..s1 }
        } else if n == "r"@ && s.in_paragraph {
            NotesState { in_run: true, ..s1 }
        } else if n == "t"@ && s.in_run {
            NotesState { in_text: true, ..s1 }
        } else {
            s1
        }
    } else {
        s
    }
}

/// An empty tag.
pub open spec fn notes_empty(s: NotesState, e: XmlElement) -> NotesState {
    let n = e.name@;
    if !s.in_shape {
        s
    } else if n == "ph"@ {
        if body_type(e.attrs@) {
            NotesState { is_body: true, ..s }
        } else {
            s
        }
    } else if n == "br"@ && s.in_run {
        NotesState { paragraph: s.paragraph.push('\n'), ..s }
    } else {
        s
    }
}

/// An end tag; closing the shape either yields its notes or resets the
/// shape state.
pub open spec fn notes_close(s: NotesState, n: Seq<char>) -> NotesState {
    if !s.in_shape {
        s
    } else {
        let s0 = NotesState { depth: (s.depth - 1) as u32, ..s };
        let s1 = if n == "t"@ {
            NotesState { in_text: false, ..s0 }
        } else if n == "r"@ {
            NotesState { in_run: false, in_text: false, ..s0 }
        } else if n == "p"@ && s.in_paragraph {
            NotesState {
                paragraphs: if s.paragraph.len() > 0 {
                    s.paragraphs.push(s.paragraph)
                } else {
                    s.paragraphs
                },
                paragraph: Seq::empty(),
                in_paragraph: false,
                ..s0
            }
        } else if n == "txBody"@ {
            NotesState { in_text_body: false, ..s0 }
        } else {
            s0
        };
        if s1.depth != 0 {
            s1
        } else if s1.is_body && s1.paragraphs.len() > 0 && notes_text(s1.paragraphs).len() > 0 {
            NotesState { found: Some(notes_text(s1.paragraphs)), ..s1 }
        } else {
            NotesState {
                in_shape: false,
                is_body: false,
                paragraphs: Seq::empty(),
                in_text_body: false,
                in_paragraph: false,
                in_run: false,
                in_text: false,
                ..s1
            }
        }
    }
}

/// One token; nothing changes once the notes are found.
pub open spec fn notes_step(s: NotesState, t: XmlToken) -> NotesState {
    if s.found is Some {
        s
    } else {
        match t {
            XmlToken::Start(e) => notes_open(s, e),
            XmlToken::Empty(e) => notes_empty(s, e),
            XmlToken::End(n) => notes_close(s, n@),
            _ => if s.in_shape && s.in_text && s.in_run {
                match token_text(t) {
                    Some(x) => NotesState { paragraph: s.paragraph + x, ..s },
                    None => s,
                }
            } else {
                s
            },
        }
    }
}

/// The state after reading `tokens`.
pub open spec fn notes_fold(tokens: Seq<XmlToken>) -> NotesState
    decreases tokens.len(),
{
    if tokens.len() == 0 {
        notes_start()
    } else {
        notes_step(notes_fold(tokens.drop_last()), tokens.last())
    }
}

/// Once found, the notes stay what they are for any further tokens.
proof fn lemma_notes_found_stays(tokens: Seq<XmlToken>, j: int)
    requires
        0 <= j <= tokens.len(),
        notes_fold(tokens.subrange(0, j)).found is Some,
    ensures
        notes_fold(tokens).found == notes_fold(tokens.subrange(0, j)).found,
    decreases tokens.len(),
{
    if tokens.len() == j {
        assert(tokens.subrange(0, j) =~= tokens);
    } else {
        let d = tokens.drop_last();
        assert(d.subrange(0, j) =~= tokens.subrange(0, j));
        lemma_notes_found_stays(d, j);
    }
}

/// The speaker notes of a notes slide: the trimmed text of the first body
/// placeholder whose paragraphs, joined by newlines, are not blank (see
/// [`notes_fold`]).
pub fn parse_notes(xml: &str) -> (r: Option<Vec<char>>)
    ensures
        opt_chars(r) == notes_fold(xml_tokens(xml@)).found,
        r matches Some(t) ==> t@.len() > 0 && t@ == trim_ws(t@),
{
    let tokens = tokenize(xml);
    let mut in_shape = false;
    let mut depth: u32 = 0;
    let mut is_body = false;
    let mut in_text_body = false;
    let mut in_paragraph = false;
    let mut in_run = false;
    let mut in_text = false;
    let mut paragraph: Vec<char> = Vec::new();
    let mut paragraphs: Vec<Vec<char>> = Vec::new();
    let mut i: usize = 0;
    assert(paragraphs.deep_view() =~= Seq::<Seq<char>>::empty());
    assert(tokens@.subrange(0, 0) =~= Seq::<XmlToken>::empty());
    while i < tokens.len()
        invariant
            i <= tokens.len(),
            tokens@ == xml_tokens(xml@),
            in_shape ==> depth >= 1,
            notes_fold(tokens@.subrange(0, i as int)) == (NotesState {
                in_shape,
                depth,
                is_body,
                in_text_body,
                in_paragraph,
                in_run,
                in_text,
                paragraph: paragraph@,
                paragraphs: paragraphs.deep_view(),
                found: None,
            }),
        decreases tokens.len() - i,
    {
        let ghost before = notes_fold(tokens@.subrange(0, i as int));
        assert(tokens@.subrange(0, i + 1).drop_last() =~= tokens@.subrange(0, i as int));
        match &tokens[i] {
            XmlToken::Start(e) => {
                let n = chars_of(e.name.as_str());
                let name = n.as_slice();
                if eq_str(name, "sp") && !in_shape {
                    in_shape = true;
                    depth = 1;
                    is_body = false;
                    paragraphs.clear();
                    assert(paragraphs.deep_view() =~= Seq::<Seq<char>>::empty());
                } else if in_shape {
                    depth = if depth < u32::MAX {
                        depth + 1
                    } else {
                        depth
                    };
                    if eq_str(name, "ph") {
                        if is_body_type(&e.attrs) {
                            is_body = true;
                        }
                    } else if eq_str(name, "txBody") {
                        in_text_body = true;
                    } else if eq_str(name, "p") && in_text_body {
                        in_paragraph = true;
                        paragraph.clear();
                    } else if eq_str(name, "r") && in_paragraph {
                        in_run = true;
                    } else if eq_str(name, "t") && in_run {
                        in_text = true;
                    }
                }
                assert(paragraph@ =~= notes_open(before, *e).paragraph);
            },
            XmlToken::Empty(e) => {
                if in_shape {
                    let n = chars_of(e.name.as_str());
                    let name = n.as_slice();
                    if eq_str(name, "ph") {
                        if is_body_type(&e.attrs) {
                            is_body = true;
                        }
                    } else if eq_str(name, "br") && in_run {
                        paragraph.push('\n');
                    }
                }
            },
            XmlToken::End(name_s) => {
                if in_shape {
                    let n = chars_of(name_s.as_str());
                    let name = n.as_slice();
                    depth = depth - 1;
                    if eq_str(name, "t") {
                        in_text = false;
                    } else if eq_str(name, "r") {
                        in_run = false;
                        in_text = false;
                    } else if eq_str(name, "p") && in_paragraph {
                        if paragraph.len() > 0 {
                            let ghost old_ps = paragraphs.deep_view();
                            let copy = slice_chars(paragraph.as_slice(), 0, paragraph.len());
                            proof {
                                lemma_deep_view_chars(copy);
                                assert(copy@ =~= paragraph@);
                            }
                            paragraphs.push(copy);
                            assert(paragraphs.deep_view() =~= old_ps.push(paragraph@));
                        }
                        paragraph.clear();
                        in_paragraph = false;
                    } else if eq_str(name, "txBody") {
                        in_text_body = false;
                    }
                    if depth == 0 {
                        if is_body && paragraphs.len() > 0 {
                            let mut joined: Vec<char> = Vec::new();
                            let nl: Vec<char> = vec!['\n'];
                            push_joined(&mut joined, paragraphs.as_slice(), nl.as_slice());
                            assert(nl@ =~= seq!['\n']);
                            assert(joined@ =~= join_with(paragraphs.deep_view(), seq!['\n']));
                            let text = trim(joined.as_slice());
                            if text.len() > 0 {
                                proof {
                                    crate::text::lemma_trim_idempotent(joined@);
                                    assert(notes_fold(tokens@.subrange(0, i + 1)).found == Some(
                                        text@,
                                    ));
                                    lemma_notes_found_stays(tokens@, i + 1);
                                    assert(tokens@.subrange(0, tokens@.len() as int) =~= tokens@);
                                }
                                return Some(text);
                            }
                        }
                        in_shape = false;
                        is_body = false;
                        paragraphs.clear();
                        assert(paragraphs.deep_view() =~= Seq::<Seq<char>>::empty());
                        in_text_body = false;
                        in_paragraph = false;
                        in_run = false;
                        in_text = false;
                    }
                }
                assert(paragraph@ =~= notes_close(before, name_s@).paragraph);
            },
            t => {
                if in_shape && in_text && in_run {
                    match text_of_token(t) {
                        Some(s) => {
                            push_all(&mut paragraph, s.as_slice());
                        },
                        None => {},
                    }
                }
            },
        }
        i = i + 1;
    }
    assert(tokens@.subrange(0, tokens@.len() as int) =~= tokens@);
    None
}

/// The view of an optional character vector.
pub open spec fn opt_chars(o: Option<Vec<char>>) -> Option<Seq<char>> {
    match o {
        Some(v) => Some(v@),
        None => None,
    }
}

/// Whether a `<p:ph>` tag is a body placeholder (see [`body_type`]).
fn is_body_type(attrs: &Vec<Option<XmlAttr>>) -> (r: bool)
    ensures
        r == body_type(attrs@),
{
    let mut found = false;
    let mut i: usize = 0;
    while i < attrs.len()
        invariant
            i <= attrs.len(),
            found == exists|k: int| 0 <= k < i && #[trigger] is_body_attr(attrs@[k]),
        decreases attrs.len() - i,
    {
        match &attrs[i] {
            Some(a) => {
                let k = chars_of(a.local.as_str());
                let v = chars_of(a.value.as_str());
                if eq_str(k.as_slice(), "type") && eq_str(v.as_slice(), "body") {
                    found = true;
                }
            },
            None => {},
        }
        assert(is_body_attr(attrs@[i as int]) == (attrs@[i as int] matches Some(a) && a.local@
            == "type"@ && a.value@ == "body"@));
        i = i + 1;
    }
    found
}

/// The target of the first relationship in force whose type names a notes
/// slide.
pub open spec fn notes_target(rels: Seq<(Seq<char>, Seq<char>, Seq<char>)>, from: int) -> Option<
    Seq<char>,
>
    decreases rels.len() - from,
{
    if from >= rels.len() || from < 0 {
        None
    } else if rel_in_force(rels, from) && contains_seq(rels[from].2, "notesSlide"@) {
        Some(rels[from].1)
    } else {
        notes_target(rels, from + 1)
    }
}

/// The notes slide a slide's relationships point to (see
/// [`notes_target`]).
pub fn resolve_notes_path(slide_rels: &Vec<(String, Relationship)>) -> (r: Option<String>)
    ensures
        match r {
            Some(t) => notes_target(rels_view(slide_rels@), 0) == Some(t@),
            None => notes_target(rels_view(slide_rels@), 0) is None,
        },
{
    let word = chars_of("notesSlide");
    let mut j: usize = 0;
    while j < slide_rels.len()
        invariant
            j <= slide_rels.len(),
            word@ == "notesSlide"@,
            notes_target(rels_view(slide_rels@), j as int) == notes_target(rels_view(slide_rels@), 0),
        decreases slide_rels.len() - j,
    {
        let ty = chars_of(slide_rels[j].1.rel_type.as_str());
        if in_force(slide_rels, j) && find(ty.as_slice(), word.as_slice()).is_some() {
            return Some(slide_rels[j].1.target.clone());
        }
        j = j + 1;
    }
    None
}

// ---------------------------------------------------------------------------
// Rendering
// ---------------------------------------------------------------------------

/// The lines of text as `str::lines` yields them: split at line feeds, a
/// trailing line feed ending the last line, each line without a trailing
/// carriage return.
pub open spec fn text_lines(s: Seq<char>) -> Seq<Seq<char>> {
    let parts = split_on(s, '\n');
    let kept = if s.len() == 0 {
        Seq::empty()
    } else if s.last() == '\n' {
        parts.drop_last()
    } else {
        parts
    };
    kept.map_values(|l: Seq<char>| if l.len() > 0 && l.last() == '\r' { l.drop_last() } else { l })
}

/// The file names recorded for image relationships, as plain values.
pub open spec fn files_view(files: Seq<(String, Vec<char>)>) -> Seq<(Seq<char>, Seq<char>)> {
    files.map_values(|p: (String, Vec<char>)| (p.0@, p.1@))
}

/// The file name recorded for image relationship `rel` (the last entry
/// for it).
pub open spec fn file_for(files: Seq<(Seq<char>, Seq<char>)>, rel: Seq<char>) -> Option<Seq<char>>
    decreases files.len(),
{
    if files.len() == 0 {
        None
    } else if files.last().0 == rel {
        Some(files.last().1)
    } else {
        file_for(files.drop_last(), rel)
    }
}

/// The Markdown of one shape: nothing for a title (it heads the slide),
/// body text and a blank line, a table and a newline, or an image
/// reference and a blank line when its file is known.
pub open spec fn shape_md(s: ShapeView, files: Seq<(Seq<char>, Seq<char>)>) -> Seq<char> {
    match s {
        ShapeView::Title(_) => Seq::empty(),
        ShapeView::Body(t) => t + "\n\n"@,
        ShapeView::Table { headers, rows } => md_table(headers, rows) + seq!['\n'],
        ShapeView::Image { rel_id } => match file_for(files, rel_id) {
            Some(f) => "![]("@ + f + ")\n\n"@,
            None => Seq::empty(),
        },
    }
}

/// The Markdown of a slide's shapes, in order.
pub open spec fn shapes_md(shapes: Seq<ShapeView>, files: Seq<(Seq<char>, Seq<char>)>) -> Seq<char>
    decreases shapes.len(),
{
    if shapes.len() == 0 {
        Seq::empty()
    } else {
        shapes_md(shapes.drop_last(), files) + shape_md(shapes.last(), files)
    }
}

/// The text of the first title among shapes.
pub open spec fn first_title(shapes: Seq<ShapeView>) -> Option<Seq<char>>
    decreases shapes.len(),
{
    if shapes.len() == 0 {
        None
    } else {
        match shapes[0] {
            ShapeView::Title(t) => Some(t),
            _ => first_title(shapes.drop_first()),
        }
    }
}

/// The slide heading: `## Slide N` with `: title` when there is one.
pub open spec fn slide_heading(number: nat, title: Option<Seq<char>>) -> Seq<char> {
    "## Slide "@ + decimal(number) + match title {
        Some(t) => ": "@ + t,
        None => Seq::empty(),
    } + "\n\n"@
}

/// Quoted note lines after the first.
pub open spec fn quoted_rest(lines: Seq<Seq<char>>) -> Seq<char>
    decreases lines.len(),
{
    if lines.len() == 0 {
        Seq::empty()
    } else {
        quoted_rest(lines.drop_last()) + "\n> "@ + lines.last()
    }
}

/// The notes as a quote: `> Note: ` and the first line, `> ` and each
/// further line, then a blank line; nothing without notes.
pub open spec fn notes_md(notes: Option<Seq<char>>) -> Seq<char> {
    match notes {
        Some(n) => {
            let ls = text_lines(n);
            if ls.len() == 0 {
                Seq::empty()
            } else {
                "> Note: "@ + ls[0] + quoted_rest(ls.drop_first()) + "\n\n"@
            }
        },
        None => Seq::empty(),
    }
}

/// A rendered slide: heading, shapes and notes, without trailing
/// whitespace.
pub open spec fn slide_md(
    number: nat,
    shapes: Seq<ShapeView>,
    notes: Option<Seq<char>>,
    files: Seq<(Seq<char>, Seq<char>)>,
) -> Seq<char> {
    trim_end_ws(slide_heading(number, first_title(shapes)) + shapes_md(shapes, files) + notes_md(notes))
}

/// The lines of a text (see [`text_lines`]).
fn lines_of(s: &[char]) -> (v: Vec<Vec<char>>)
    ensures
        v.deep_view() == text_lines(s@),
{
    let parts = split_chars(s, '\n');
    let n: usize = if s.len() == 0 {
        0
    } else if s[s.len() - 1] == '\n' {
        parts.len() - 1
    } else {
        parts.len()
    };
    let mut v: Vec<Vec<char>> = Vec::new();
    let mut i: usize = 0;
    let ghost ps = parts.deep_view();
    let ghost kept = if s@.len() == 0 {
        Seq::<Seq<char>>::empty()
    } else if s@.last() == '\n' {
        ps.drop_last()
    } else {
        ps
    };
    assert(kept.len() == n);
    while i < n
        invariant
            i <= n,
            n == kept.len(),
            n <= parts.len(),
            ps == parts.deep_view(),
            forall|k: int| 0 <= k < n ==> kept[k] == ps[k],
            v.deep_view() == kept.subrange(0, i as int).map_values(
                |l: Seq<char>| if l.len() > 0 && l.last() == '\r' { l.drop_last() } else { l },
            ),
        decreases n - i,
    {
        let l = &parts[i];
        proof {
            lemma_deep_view_chars(*l);
        }
        let line = if l.len() > 0 && l[l.len() - 1] == '\r' {
            slice_chars(l.as_slice(), 0, l.len() - 1)
        } else {
            slice_chars(l.as_slice(), 0, l.len())
        };
        proof {
            lemma_deep_view_chars(line);
            assert(ps[i as int] == l@);
            if l@.len() > 0 && l@.last() == '\r' {
                assert(line@ =~= l@.drop_last());
            } else {
                assert(line@ =~= l@);
            }
        }
        let ghost before = v.deep_view();
        v.push(line);
        assert(v.deep_view() =~= before.push(line@));
        i = i + 1;
        assert(v.deep_view() =~= kept.subrange(0, i as int).map_values(
            |l: Seq<char>| if l.len() > 0 && l.last() == '\r' { l.drop_last() } else { l },
        ));
    }
    assert(kept.subrange(0, n as int) =~= kept);
    v
}

/// The file name recorded for an image relationship (see [`file_for`]).
fn find_file<'a>(files: &'a Vec<(String, Vec<char>)>, rel: &str) -> (r: Option<&'a Vec<char>>)
    ensures
        match r {
            Some(f) => file_for(files_view(files@), rel@) == Some(f@),
            None => file_for(files_view(files@), rel@) is None,
        },
{
    let k = chars_of(rel);
    let mut j = files.len();
    let ghost fv = files_view(files@);
    assert(fv.subrange(0, j as int) =~= fv);
    while j > 0
        invariant
            j <= files.len(),
            k@ == rel@,
            fv == files_view(files@),
            file_for(fv.subrange(0, j as int), rel@) == file_for(fv, rel@),
        decreases j,
    {
        assert(fv.subrange(0, j as int).drop_last() =~= fv.subrange(0, j - 1));
        assert(fv.subrange(0, j as int).last() == fv[j - 1]);
        let n = chars_of(files[j - 1].0.as_str());
        if crate::text::eq_chars(n.as_slice(), k.as_slice()) {
            return Some(&files[j - 1].1);
        }
        j = j - 1;
    }
    None
}

/// The title of the first title shape.
pub fn find_title(shapes: &Vec<ShapeContent>) -> (r: Option<Vec<char>>)
    ensures
        match r {
            Some(t) => first_title(shapes_view(shapes@)) == Some(t@),
            None => first_title(shapes_view(shapes@)) is None,
        },
{
    let mut i: usize = 0;
    let ghost sv = shapes_view(shapes@);
    assert(sv.subrange(0, shapes.len() as int) =~= sv);
    while i < shapes.len()
        invariant
            i <= shapes.len(),
            sv == shapes_view(shapes@),
            first_title(sv.subrange(i as int, shapes.len() as int)) == first_title(sv),
        decreases shapes.len() - i,
    {
        assert(sv.subrange(i as int, shapes.len() as int).drop_first() =~= sv.subrange(
            i + 1,
            shapes.len() as int,
        ));
        assert(sv.subrange(i as int, shapes.len() as int)[0] == sv[i as int]);
        match &shapes[i] {
            ShapeContent::Title(t) => {
                return Some(slice_chars(t.as_slice(), 0, t.len()));
            },
            _ => {},
        }
        i = i + 1;
    }
    assert(sv.subrange(shapes.len() as int, shapes.len() as int) =~= Seq::<ShapeView>::empty());
    None
}

/// Renders a slide (see [`slide_md`]).
pub fn render_slide(
    number: usize,
    shapes: &Vec<ShapeContent>,
    notes: &Option<Vec<char>>,
    files: &Vec<(String, Vec<char>)>,
) -> (r: Vec<char>)
    ensures
        r@ == slide_md(
            number as nat,
            shapes_view(shapes@),
            match notes {
                Some(n) => Some(n@),
                None => None,
            },
            files_view(files@),
        ),
{
    let ghost sv = shapes_view(shapes@);
    let ghost fv = files_view(files@);
    let mut out: Vec<char> = Vec::new();
    push_str(&mut out, "## Slide ");
    let d = decimal_chars(number);
    push_all(&mut out, d.as_slice());
    match find_title(shapes) {
        Some(t) => {
            push_str(&mut out, ": ");
            push_all(&mut out, t.as_slice());
        },
        None => {},
    }
    push_str(&mut out, "\n\n");
    let ghost head = out@;
    assert(head =~= slide_heading(number as nat, first_title(sv)));
    let mut i: usize = 0;
    while i < shapes.len()
        invariant
            i <= shapes.len(),
            sv == shapes_view(shapes@),
            fv == files_view(files@),
            out@ == head + shapes_md(sv.subrange(0, i as int), fv),
        decreases shapes.len() - i,
    {
        let ghost before = out@;
        match &shapes[i] {
            ShapeContent::Title(_) => {},
            ShapeContent::Body(t) => {
                push_all(&mut out, t.as_slice());
                push_str(&mut out, "\n\n");
            },
            ShapeContent::Table { headers, rows } => {
                let tbl = build_table(headers.as_slice(), rows.as_slice());
                push_all(&mut out, tbl.as_slice());
                out.push('\n');
            },
            ShapeContent::Image { rel_id } => {
                match find_file(files, rel_id.as_str()) {
                    Some(f) => {
                        push_str(&mut out, "![](");
                        push_all(&mut out, f.as_slice());
                        push_str(&mut out, ")\n\n");
                    },
                    None => {},
                }
            },
        }
        proof {
            let sub = sv.subrange(0, i + 1);
            assert(sub.drop_last() =~= sv.subrange(0, i as int));
            assert(sub.last() == sv[i as int]);
            assert(out@ =~= before + shape_md(sv[i as int], fv));
        }
        i = i + 1;
    }
    assert(sv.subrange(0, shapes.len() as int) =~= sv);
    let ghost body = out@;
    match notes {
        Some(n) => {
            let lines = lines_of(n.as_slice());
            if lines.len() > 0 {
                push_str(&mut out, "> Note: ");
                push_all(&mut out, lines[0].as_slice());
                let ghost mid = out@;
                let ghost ls = lines.deep_view();
                let mut k: usize = 1;
                proof {
                    lemma_deep_view_chars(lines@[0]);
                    assert(ls.drop_first().subrange(0, 0) =~= Seq::<Seq<char>>::empty());
                }
                while k < lines.len()
                    invariant
                        1 <= k <= lines.len(),
                        ls == lines.deep_view(),
                        out@ == mid + quoted_rest(ls.drop_first().subrange(0, k - 1)),
                    decreases lines.len() - k,
                {
                    push_str(&mut out, "\n> ");
                    push_all(&mut out, lines[k].as_slice());
                    proof {
                        lemma_deep_view_chars(lines@[k as int]);
                        let sub = ls.drop_first().subrange(0, k as int);
                        assert(sub.drop_last() =~= ls.drop_first().subrange(0, k - 1));
                        assert(sub.last() == ls[k as int]);
                    }
                    k = k + 1;
                }
                assert(ls.drop_first().subrange(0, lines.len() - 1) =~= ls.drop_first());
                push_str(&mut out, "\n\n");
                assert(out@ =~= body + notes_md(Some(n@)));
            } else {
                assert(out@ =~= body + notes_md(Some(n@)));
            }
        },
        None => {
            assert(out@ =~= body + notes_md(None));
        },
    }
    assert(out@ =~= slide_heading(number as nat, first_title(sv)) + shapes_md(sv, fv)
        + notes_md(
        match notes {
            Some(n) => Some(n@),
            None => None,
        },
    ));
    trim_end(out.as_slice())
}

// ---------------------------------------------------------------------------
// The converter
// ---------------------------------------------------------------------------

/// Whether `e` is the error for a package without `ppt/presentation.xml`.
pub open spec fn is_missing_presentation(e: ConvertError) -> bool {
    e matches ConvertError::MalformedDocument { reason } && reason@ == "missing ppt/presentation.xml"@
}

/// The relationships of the part at `path` (none when its `.rels` part is
/// missing).
pub open spec fn part_rels(data: Seq<u8>, path: Seq<char>) -> Result<
    Seq<(Seq<char>, Seq<char>, Seq<char>)>,
    ConvertError,
> {
    match part_text(data, rels_path_spec(path)) {
        Ok(Some(x)) => Ok(rels_from_tokens(xml_tokens(x))),
        Ok(None) => Ok(Seq::empty()),
        Err(e) => Err(e),
    }
}

/// The speaker notes of the slide at `path` with relationships `rels`.
pub open spec fn slide_notes(
    data: Seq<u8>,
    path: Seq<char>,
    rels: Seq<(Seq<char>, Seq<char>, Seq<char>)>,
) -> Result<Option<Seq<char>>, ConvertError> {
    match notes_target(rels, 0) {
        Some(t) => match part_text(data, resolve_file_spec(path, t)) {
            Ok(Some(x)) => Ok(notes_fold(xml_tokens(x)).found),
            Ok(None) => Ok(None),
            Err(e) => Err(e),
        },
        None => Ok(None),
    }
}

/// The image file names of a slide's pictures: for each picture whose
/// relationship is known, its id and the file name of its resolved target.
pub open spec fn slide_files(
    path: Seq<char>,
    shapes: Seq<ShapeView>,
    rels: Seq<(Seq<char>, Seq<char>, Seq<char>)>,
) -> Seq<(Seq<char>, Seq<char>)>
    decreases shapes.len(),
{
    if shapes.len() == 0 {
        Seq::empty()
    } else {
        let prev = slide_files(path, shapes.drop_last(), rels);
        match shapes.last() {
            ShapeView::Image { rel_id } => match rel_lookup(rels, rel_id) {
                Some(p) => prev.push((rel_id, target_file_name(resolve_file_spec(path, p.0)))),
                None => prev,
            },
            _ => prev,
        }
    }
}

/// What the slide numbered `number` at `path` contributes: its Markdown
/// and title; `None` when its part is missing; or the first read error.
pub open spec fn slide_result(data: Seq<u8>, number: nat, path: Seq<char>) -> Result<
    Option<(Seq<char>, Option<Seq<char>>)>,
    ConvertError,
> {
    match part_text(data, path) {
        Err(e) => Err(e),
        Ok(None) => Ok(None),
        Ok(Some(x)) => {
            let shapes = scan_fold(xml_tokens(x)).shapes;
            match part_rels(data, path) {
                Err(e) => Err(e),
                Ok(rels) => match slide_notes(data, path, rels) {
                    Err(e) => Err(e),
                    Ok(notes) => Ok(
                        Some(
                            (
                                slide_md(number, shapes, notes, slide_files(path, shapes, rels)),
                                first_title(shapes),
                            ),
                        ),
                    ),
                },
            }
        },
    }
}

/// The rendered slides and the deck title (the first slide title) after
/// the given slides, or the first read error.
pub open spec fn deck_fold(data: Seq<u8>, slides: Seq<(nat, Seq<char>)>) -> Result<
    (Seq<Seq<char>>, Option<Seq<char>>),
    ConvertError,
>
    decreases slides.len(),
{
    if slides.len() == 0 {
        Ok((Seq::empty(), None))
    } else {
        match deck_fold(data, slides.drop_last()) {
            Err(e) => Err(e),
            Ok((mds, title)) => match slide_result(data, slides.last().0, slides.last().1) {
                Err(e) => Err(e),
                Ok(None) => Ok((mds, title)),
                Ok(Some((md, t))) => Ok(
                    (
                        mds.push(md),
                        if title is None {
                            t
                        } else {
                            title
                        },
                    ),
                ),
            },
        }
    }
}

/// Once reading a slide fails, the deck fails with that error.
proof fn lemma_deck_error_stays(data: Seq<u8>, slides: Seq<(nat, Seq<char>)>, j: int)
    requires
        0 <= j <= slides.len(),
        deck_fold(data, slides.subrange(0, j)) is Err,
    ensures
        deck_fold(data, slides) == deck_fold(data, slides.subrange(0, j)),
    decreases slides.len(),
{
    if slides.len() == j {
        assert(slides.subrange(0, j) =~= slides);
    } else {
        let d = slides.drop_last();
        assert(d.subrange(0, j) =~= slides.subrange(0, j));
        lemma_deck_error_stays(data, d, j);
    }
}

/// The slides joined by horizontal rules, with a final newline when there
/// is any.
pub open spec fn deck_md(mds: Seq<Seq<char>>) -> Seq<char> {
    let j = join_with(mds, seq!['\n', '\n', '-', '-', '-', '\n', '\n']);
    if j.len() > 0 {
        j.push('\n')
    } else {
        j
    }
}

/// The warnings a slide gives: one when its part is missing, and the one
/// of a syntax error in it.
pub open spec fn slide_warnings(data: Seq<u8>, path: Seq<char>) -> Seq<
    (WarningCode, Seq<char>, Option<Seq<char>>),
> {
    match part_text(data, path) {
        Ok(None) => seq![(WarningCode::SkippedElement, "slide file not found: "@ + path, Some(path))],
        Ok(Some(x)) => slide_parse_warnings(xml_tokens(x)),
        Err(_) => Seq::empty(),
    }
}

/// The warnings of the given slides, in order.
pub open spec fn deck_warnings(data: Seq<u8>, slides: Seq<(nat, Seq<char>)>) -> Seq<
    (WarningCode, Seq<char>, Option<Seq<char>>),
>
    decreases slides.len(),
{
    if slides.len() == 0 {
        Seq::empty()
    } else {
        deck_warnings(data, slides.drop_last()) + slide_warnings(data, slides.last().1)
    }
}

/// The slides of the presentation in `data`, in presentation order.
pub open spec fn pptx_slides(data: Seq<u8>) -> Seq<(nat, Seq<char>)> {
    let rels = match part_text(data, "ppt/_rels/presentation.xml.rels"@) {
        Ok(Some(x)) => rels_from_tokens(xml_tokens(x)),
        _ => Seq::empty(),
    };
    match part_text(data, "ppt/presentation.xml"@) {
        Ok(Some(x)) => slides_of(slide_rel_ids(xml_tokens(x)), rels),
        _ => Seq::empty(),
    }
}

/// How converting a presentation ends.
pub enum DeckOutcome {
    /// With this error.
    Failed(ConvertError),
    /// Without `ppt/presentation.xml`.
    NoPresentation,
    /// With this Markdown and title.
    Converted(Seq<char>, Option<Seq<char>>),
}

/// The outcome of converting `data`: not a ZIP archive is a ZIP error; the
/// presentation's relationships and the presentation part are read, then
/// each slide in presentation order (see [`deck_fold`]).
pub open spec fn pptx_outcome(data: Seq<u8>) -> DeckOutcome {
    if zip_entry_names(data) is None {
        DeckOutcome::Failed(ConvertError::ZipError)
    } else {
        let rels = match part_text(data, "ppt/_rels/presentation.xml.rels"@) {
            Ok(Some(x)) => Ok(rels_from_tokens(xml_tokens(x))),
            Ok(None) => Ok(Seq::empty()),
            Err(e) => Err(e),
        };
        match rels {
            Err(e) => DeckOutcome::Failed(e),
            Ok(rels) => match part_text(data, "ppt/presentation.xml"@) {
                Err(e) => DeckOutcome::Failed(e),
                Ok(None) => DeckOutcome::NoPresentation,
                Ok(Some(x)) => match deck_fold(
                    data,
                    slides_of(slide_rel_ids(xml_tokens(x)), rels),
                ) {
                    Err(e) => DeckOutcome::Failed(e),
                    Ok((mds, title)) => DeckOutcome::Converted(deck_md(mds), title),
                },
            },
        }
    }
}

/// The error for a package without `ppt/presentation.xml`.
fn missing_presentation() -> (e: ConvertError)
    ensures
        is_missing_presentation(e),
{
    let m = chars_of("missing ppt/presentation.xml");
    ConvertError::MalformedDocument { reason: string_from_chars(m.as_slice()) }
}

/// The part after the last `/` of a path.
fn file_part(path: &str) -> (v: Vec<char>)
    ensures
        v@ == target_file_name(path@),
{
    let c = chars_of(path);
    match crate::text::last_index(c.as_slice(), '/') {
        Some(i) => slice_chars(c.as_slice(), i + 1, c.len()),
        None => c,
    }
}

/// The images of a slide: the file name of each picture whose relationship
/// is known, and (when extracting) the image bytes while the budget lasts.
fn slide_images(
    archive: &mut zip::ZipArchive<Cursor<&[u8]>>,
    slide_path: &str,
    shapes: &Vec<ShapeContent>,
    slide_rels: &Vec<(String, Relationship)>,
    options: &ConversionOptions,
    total: &mut usize,
    images: &mut Vec<(String, Vec<u8>)>,
    warnings: &mut Vec<ConversionWarning>,
) -> (files: Vec<(String, Vec<char>)>)
    requires
        total_len(old(images)@) <= *old(total),
        *old(total) <= options.max_total_image_bytes || old(images)@.len() == 0 || total_len(
            old(images)@,
        ) <= options.max_total_image_bytes,
        total_len(old(images)@) <= options.max_total_image_bytes,
        !options.extract_images ==> old(images)@.len() == 0,
    ensures
        total_len(final(images)@) <= *final(total),
        total_len(final(images)@) <= options.max_total_image_bytes,
        !options.extract_images ==> final(images)@.len() == 0,
        final(warnings)@.len() >= old(warnings)@.len(),
        !options.extract_images ==> final(warnings)@ == old(warnings)@,
        crate::zip_io::archive_source(*final(archive)) == crate::zip_io::archive_source(
            *old(archive),
        ),
        files_view(files@) == slide_files(slide_path@, shapes_view(shapes@), rels_view(slide_rels@)),
{
    let mut files: Vec<(String, Vec<char>)> = Vec::new();
    let mut i: usize = 0;
    let ghost sv = shapes_view(shapes@);
    let ghost rv = rels_view(slide_rels@);
    assert(files_view(files@) =~= slide_files(slide_path@, sv.subrange(0, 0), rv));
    while i < shapes.len()
        invariant
            i <= shapes.len(),
            sv == shapes_view(shapes@),
            rv == rels_view(slide_rels@),
            files_view(files@) == slide_files(slide_path@, sv.subrange(0, i as int), rv),
            total_len(images@) <= *total,
            total_len(images@) <= options.max_total_image_bytes,
            !options.extract_images ==> images@.len() == 0,
            warnings@.len() >= old(warnings)@.len(),
            !options.extract_images ==> warnings@ == old(warnings)@,
            crate::zip_io::archive_source(*archive) == crate::zip_io::archive_source(
                *old(archive),
            ),
        decreases shapes.len() - i,
    {
        match &shapes[i] {
            ShapeContent::Image { rel_id } => {
                match find_relationship(slide_rels, rel_id.as_str()) {
                    Some(rel) => {
                        let image_path = resolve_relative_path(slide_path, rel.target.as_str());
                        let name = file_part(image_path.as_str());
                        let ghost fb = files_view(files@);
                        let idc = chars_of(rel_id.as_str());
                        let id = string_from_chars(idc.as_slice());
                        let fname = slice_chars(name.as_slice(), 0, name.len());
                        assert(fname@ =~= name@);
                        assert(id@ == rel_id@);
                        let ghost pair = (id, fname);
                        files.push((id, fname));
                        assert(files@.last() == pair);
                        assert(files_view(files@) =~= fb.push((rel_id@, name@))) by {
                            assert(files_view(files@).last() == (pair.0@, pair.1@));
                        }
                        if options.extract_images && *total < options.max_total_image_bytes {
                            match read_zip_bytes(archive, image_path.as_str()) {
                                Ok(Some(data)) => {
                                    let fits = data.len() <= usize::MAX - *total;
                                    *total = if fits {
                                        *total + data.len()
                                    } else {
                                        usize::MAX
                                    };
                                    if fits && *total <= options.max_total_image_bytes {
                                        let ghost before = images@;
                                        images.push((string_from_chars(name.as_slice()), data));
                                        assert(images@.drop_last() =~= before);
                                    } else {
                                        let mut m: Vec<char> = Vec::new();
                                        push_str(&mut m, "total image bytes exceeded limit (");
                                        let d = decimal_chars(options.max_total_image_bytes);
                                        push_all(&mut m, d.as_slice());
                                        push_str(&mut m, ")");
                                        warnings.push(
                                            warning(WarningCode::ResourceLimitReached, m, Some(image_path)),
                                        );
                                    }
                                },
                                _ => {},
                            }
                        }
                    },
                    None => {},
                }
            },
            _ => {},
        }
        proof {
            let sub = sv.subrange(0, i + 1);
            assert(sub.drop_last() =~= sv.subrange(0, i as int));
            assert(sub.last() == sv[i as int]);
        }
        i = i + 1;
    }
    assert(sv.subrange(0, shapes.len() as int) =~= sv);
    files
}

impl PptxConverter {
    /// Converts a presentation (see [`pptx_outcome`]): each slide in
    /// presentation order (see [`render_slide`]) separated by horizontal
    /// rules, the first slide title as the document title, and (when
    /// extracting) the pictures' bytes within the image budget. A slide
    /// part that is missing is skipped with a `SkippedElement` warning.
    #[verifier::rlimit(40)]
    pub fn convert_pptx(&self, data: &[u8], options: &ConversionOptions) -> (r: Result<
        ConversionResult,
        ConvertError,
    >)
        ensures
            match pptx_outcome(data@) {
                DeckOutcome::Failed(e) => r matches Err(e2) && e2 == e,
                DeckOutcome::NoPresentation => r matches Err(e) && is_missing_presentation(e),
                DeckOutcome::Converted(md, title) => r matches Ok(res) && res.markdown@ == md
                    && match res.title {
                    Some(t) => title == Some(t@),
                    None => title is None,
                },
            },
            r matches Ok(res) ==> total_len(res.images@) <= options.max_total_image_bytes,
            r matches Ok(res) ==> (!options.extract_images ==> res.images@.len() == 0),
            r matches Ok(res) ==> (!options.extract_images ==> warns_view(res.warnings@)
                == deck_warnings(data@, pptx_slides(data@))),
    {
        let mut archive = match open_archive(data) {
            Some(a) => a,
            None => {
                return Err(ConvertError::ZipError);
            },
        };
        let pres_rels = match read_zip_text(&mut archive, "ppt/_rels/presentation.xml.rels") {
            Ok(Some(x)) => parse_relationships(x.as_str()),
            Ok(None) => Vec::new(),
            Err(e) => {
                return Err(e);
            },
        };
        assert(rels_view(pres_rels@) == match part_text(
            data@,
            "ppt/_rels/presentation.xml.rels"@,
        ) {
            Ok(Some(x)) => rels_from_tokens(xml_tokens(x)),
            _ => Seq::empty(),
        });
        let pres_xml = match read_zip_text(&mut archive, "ppt/presentation.xml") {
            Ok(Some(x)) => x,
            Ok(None) => {
                return Err(missing_presentation());
            },
            Err(e) => {
                return Err(e);
            },
        };
        let slides = resolve_slide_order(pres_xml.as_str(), &pres_rels);
        let ghost sl = slides_view(slides@);
        assert(pptx_outcome(data@) == match deck_fold(data@, sl) {
            Err(e) => DeckOutcome::Failed(e),
            Ok((mds, title)) => DeckOutcome::Converted(deck_md(mds), title),
        });
        assert(sl == pptx_slides(data@));
        let mut result = ConversionResult::default();
        if slides.len() == 0 {
            assert(result.markdown@ =~= deck_md(Seq::empty()));
            assert(warns_view(result.warnings@) =~= Seq::empty());
            assert(sl =~= Seq::<(nat, Seq<char>)>::empty());
            return Ok(result);
        }
        let mut warnings: Vec<ConversionWarning> = Vec::new();
        let mut images: Vec<(String, Vec<u8>)> = Vec::new();
        let mut total: usize = 0;
        let mut rendered: Vec<Vec<char>> = Vec::new();
        let mut title: Option<Vec<char>> = None;
        let mut s: usize = 0;
        assert(rendered.deep_view() =~= Seq::<Seq<char>>::empty());
        assert(sl.subrange(0, 0) =~= Seq::<(nat, Seq<char>)>::empty());
        while s < slides.len()
            invariant
                s <= slides.len(),
                sl == slides_view(slides@),
                pptx_outcome(data@) == match deck_fold(data@, sl) {
                    Err(e) => DeckOutcome::Failed(e),
                    Ok((mds, title)) => DeckOutcome::Converted(deck_md(mds), title),
                },
                deck_fold(data@, sl.subrange(0, s as int)) == Ok::<
                    (Seq<Seq<char>>, Option<Seq<char>>),
                    ConvertError,
                >((rendered.deep_view(), opt_chars(title))),
                total_len(images@) <= total,
                total_len(images@) <= options.max_total_image_bytes,
                !options.extract_images ==> images@.len() == 0,
                !options.extract_images ==> warns_view(warnings@) == deck_warnings(
                    data@,
                    sl.subrange(0, s as int),
                ),
                crate::zip_io::archive_source(archive) == data@,
            decreases slides.len() - s,
        {
            let info = &slides[s];
            let ghost number = info.number as nat;
            let ghost path = info.path@;
            assert(sl[s as int] == (number, path));
            assert(sl.subrange(0, s + 1).drop_last() =~= sl.subrange(0, s as int));
            assert(sl.subrange(0, s + 1).last() == sl[s as int]);
            let ghost w_start = warns_view(warnings@);
            assert(deck_warnings(data@, sl.subrange(0, s + 1)) == deck_warnings(
                data@,
                sl.subrange(0, s as int),
            ) + slide_warnings(data@, path));
            let slide_xml = match read_zip_text(&mut archive, info.path.as_str()) {
                Ok(Some(x)) => x,
                Ok(None) => {
                    let mut m: Vec<char> = Vec::new();
                    push_str(&mut m, "slide file not found: ");
                    push_str(&mut m, info.path.as_str());
                    let loc = string_from_chars(chars_of(info.path.as_str()).as_slice());
                    let ghost wb = warnings@;
                    let w = warning(WarningCode::SkippedElement, m, Some(loc));
                    let ghost wv = warn_view(w);
                    warnings.push(w);
                    assert(warns_view(warnings@) =~= warns_view(wb).push(wv));
                    assert(!options.extract_images ==> warns_view(warnings@) =~= deck_warnings(
                        data@,
                        sl.subrange(0, s + 1),
                    ));
                    s = s + 1;
                    continue;
                },
                Err(e) => {
                    proof {
                        lemma_deck_error_stays(data@, sl, s + 1);
                    }
                    return Err(e);
                },
            };
            let (shapes, parse_warnings) = parse_slide(slide_xml.as_str());
            let mut sw = parse_warnings;
            let ghost wb = warnings@;
            let ghost swv = sw@;
            warnings.append(&mut sw);
            assert(warns_view(warnings@) =~= warns_view(wb) + warns_view(swv));
            let ghost w_parsed = warns_view(warnings@);
            assert(!options.extract_images ==> w_parsed =~= deck_warnings(
                data@,
                sl.subrange(0, s + 1),
            ));
            let rels_path = derive_rels_path(info.path.as_str());
            let rels_read = read_zip_text(&mut archive, rels_path.as_str());
            assert(rels_path@ == rels_path_spec(path));
            let slide_rels = match rels_read {
                Ok(Some(x)) => parse_relationships(x.as_str()),
                Ok(None) => {
                    let v: Vec<(String, Relationship)> = Vec::new();
                    assert(rels_view(v@) =~= Seq::<(Seq<char>, Seq<char>, Seq<char>)>::empty());
                    v
                },
                Err(e) => {
                    proof {
                        lemma_deck_error_stays(data@, sl, s + 1);
                    }
                    return Err(e);
                },
            };
            assert(part_rels(data@, path) == Ok::<
                Seq<(Seq<char>, Seq<char>, Seq<char>)>,
                ConvertError,
            >(rels_view(slide_rels@)));
            let notes = match resolve_notes_path(&slide_rels) {
                Some(target) => {
                    let notes_path = resolve_relative_path(info.path.as_str(), target.as_str());
                    match read_zip_text(&mut archive, notes_path.as_str()) {
                        Ok(Some(x)) => parse_notes(x.as_str()),
                        Ok(None) => None,
                        Err(e) => {
                            proof {
                                lemma_deck_error_stays(data@, sl, s + 1);
                            }
                            return Err(e);
                        },
                    }
                },
                None => None,
            };
            assert(slide_notes(data@, path, rels_view(slide_rels@)) == Ok::<
                Option<Seq<char>>,
                ConvertError,
            >(opt_chars(notes)));
            let files = slide_images(
                &mut archive,
                info.path.as_str(),
                &shapes,
                &slide_rels,
                options,
                &mut total,
                &mut images,
                &mut warnings,
            );
            let ghost title_before = opt_chars(title);
            if title.is_none() {
                title = find_title(&shapes);
            }
            let md = render_slide(info.number, &shapes, &notes, &files);
            let ghost before = rendered.deep_view();
            proof {
                lemma_deep_view_chars(md);
            }
            rendered.push(md);
            assert(rendered.deep_view() =~= before.push(md@));
            s = s + 1;
        }
        assert(sl.subrange(0, slides.len() as int) =~= sl);
        let mut out: Vec<char> = Vec::new();
        let sep: Vec<char> = vec!['\n', '\n', '-', '-', '-', '\n', '\n'];
        push_joined(&mut out, rendered.as_slice(), sep.as_slice());
        assert(sep@ =~= seq!['\n', '\n', '-', '-', '-', '\n', '\n']);
        if out.len() > 0 {
            out.push('\n');
        }
        assert(out@ =~= deck_md(rendered.deep_view()));
        result.markdown = string_from_chars(out.as_slice());
        result.title = match title {
            Some(t) => Some(string_from_chars(t.as_slice())),
            None => None,
        };
        result.images = images;
        result.warnings = warnings;
        Ok(result)
    }
}

/// What converting a PPTX package gives (see
/// [`PptxConverter::convert_pptx`]).
pub open spec fn pptx_convert_outcome(
    data: Seq<u8>,
    options: ConversionOptions,
    r: Result<ConversionResult, ConvertError>,
) -> bool {
    &&& match pptx_outcome(data) {
        DeckOutcome::Failed(e) => r matches Err(e2) && e2 == e,
        DeckOutcome::NoPresentation => r matches Err(e) && is_missing_presentation(e),
        DeckOutcome::Converted(md, title) => r matches Ok(res) && res.markdown@ == md
            && match res.title {
            Some(t) => title == Some(t@),
            None => title is None,
        },
    }
    &&& r matches Ok(res) ==> total_len(res.images@) <= options.max_total_image_bytes
    &&& r matches Ok(res) ==> (!options.extract_images ==> res.images@.len() == 0)
    &&& r matches Ok(res) ==> (!options.extract_images ==> warns_view(res.warnings@)
        == deck_warnings(data, pptx_slides(data)))
}

impl Converter for PptxConverter {
    open spec fn extensions(&self) -> Seq<&'static str> {
        seq!["pptx"]
    }

    fn supported_extensions(&self) -> (r: Vec<&'static str>) {
        let v = vec!["pptx"];
        assert(v@ =~= seq!["pptx"]);
        v
    }

    fn convert(&self, data: &[u8], options: &ConversionOptions) -> (r: Result<
        ConversionResult,
        ConvertError,
    >)
        ensures
            pptx_convert_outcome(data@, *options, r),
    {
        self.convert_pptx(data, options)
    }
}

/// The Markdown image line of the file `f`, without its trailing blank
/// line.
pub open spec fn image_line(f: Seq<char>) -> Seq<char> {
    seq!['!', '[', ']', '('] + f + seq![')']
}

/// A pattern found in `a` is found at the same place in `a + b`.
proof fn lemma_occurs_in_prefix(a: Seq<char>, b: Seq<char>, pat: Seq<char>, i: int)
    requires
        crate::text::occurs_at(a, pat, i),
    ensures
        crate::text::occurs_at(a + b, pat, i),
{
    assert((a + b).subrange(i, i + pat.len()) =~= a.subrange(i, i + pat.len()));
}

/// A pattern found in `b` is found `a.len()` further on in `a + b`.
proof fn lemma_occurs_in_suffix(a: Seq<char>, b: Seq<char>, pat: Seq<char>, i: int)
    requires
        crate::text::occurs_at(b, pat, i),
    ensures
        crate::text::occurs_at(a + b, pat, a.len() + i),
{
    assert((a + b).subrange(a.len() + i, a.len() + i + pat.len()) =~= b.subrange(i, i + pat.len()));
}

/// Removing trailing whitespace keeps everything up to the last character
/// that is not whitespace.
proof fn lemma_trim_end_keeps(s: Seq<char>, k: int)
    requires
        0 <= k < s.len(),
        !crate::text::is_ws(s[k]),
    ensures
        trim_end_ws(s).len() > k,
        trim_end_ws(s).len() <= s.len(),
        trim_end_ws(s) == s.subrange(0, trim_end_ws(s).len() as int),
    decreases s.len(),
{
    crate::text::lemma_trim_end_prefix(s);
    if crate::text::is_ws(s.last()) {
        assert(s.drop_last()[k] == s[k]);
        lemma_trim_end_keeps(s.drop_last(), k);
    }
}

/// The Markdown of a slide's shapes holds the image line of every image
/// shape whose file is known.
proof fn lemma_shapes_md_image(
    shapes: Seq<ShapeView>,
    files: Seq<(Seq<char>, Seq<char>)>,
    k: int,
    f: Seq<char>,
) -> (i: int)
    requires
        0 <= k < shapes.len(),
        shapes[k] matches ShapeView::Image { rel_id } && file_for(files, rel_id) == Some(f),
    ensures
        crate::text::occurs_at(shapes_md(shapes, files), image_line(f), i),
    decreases shapes.len(),
{
    let prev = shapes_md(shapes.drop_last(), files);
    if k == shapes.len() - 1 {
        reveal_strlit("![](");
        reveal_strlit(")\n\n");
        let line = shape_md(shapes.last(), files);
        assert(line =~= image_line(f) + seq!['\n', '\n']);
        assert(crate::text::occurs_at(line, image_line(f), 0)) by {
            assert(line.subrange(0, image_line(f).len() as int) =~= image_line(f));
        }
        lemma_occurs_in_suffix(prev, line, image_line(f), 0);
        prev.len() as int
    } else {
        assert(shapes.drop_last()[k] == shapes[k]);
        let i = lemma_shapes_md_image(shapes.drop_last(), files, k, f);
        lemma_occurs_in_prefix(prev, shape_md(shapes.last(), files), image_line(f), i);
        i
    }
}

/// Every picture of a slide whose relationship resolves to a file `f`
/// shows up in the slide's Markdown as the image line `![](f)`.
pub proof fn lemma_slide_shows_images(
    number: nat,
    shapes: Seq<ShapeView>,
    notes: Option<Seq<char>>,
    files: Seq<(Seq<char>, Seq<char>)>,
    k: int,
    f: Seq<char>,
)
    requires
        0 <= k < shapes.len(),
        shapes[k] matches ShapeView::Image { rel_id } && file_for(files, rel_id) == Some(f),
    ensures
        contains_seq(slide_md(number, shapes, notes, files), image_line(f)),
{
    let h = slide_heading(number, first_title(shapes));
    let body = shapes_md(shapes, files);
    let n = notes_md(notes);
    let i = lemma_shapes_md_image(shapes, files, k, f);
    lemma_occurs_in_suffix(h, body, image_line(f), i);
    lemma_occurs_in_prefix(h + body, n, image_line(f), h.len() + i);
    let x = h + body + n;
    let j = h.len() + i;
    let p = image_line(f);
    let last = j + p.len() - 1;
    assert(x.subrange(j, j + p.len()) == p);
    assert(x[last] == p[p.len() - 1]);
    assert(p[p.len() - 1] == ')');
    lemma_trim_end_keeps(x, last);
    let t = trim_end_ws(x);
    assert(t.len() >= j + p.len());
    assert forall|m: int| 0 <= m < t.len() implies t[m] == x[m] by {
        assert(t[m] == x.subrange(0, t.len() as int)[m]);
    }
    assert(t.subrange(j, j + p.len()) =~= x.subrange(j, j + p.len()));
    assert(crate::text::occurs_at(t, p, j));
}

/// The last character of a decimal number is a digit.
proof fn lemma_decimal_last_digit(n: nat)
    ensures
        decimal(n).len() > 0,
        '0' <= decimal(n).last() <= '9',
    decreases n,
{
    if n < 10 {
        assert('0' <= ((n + 48) as u32) as char <= '9');
    } else {
        lemma_decimal_last_digit(n / 10);
        assert(decimal(n).last() == crate::text::digit_char(n % 10));
        assert('0' <= (((n % 10) + 48) as u32) as char <= '9');
    }
}

/// Every slide's Markdown starts with the heading `## Slide N`, `N` the
/// slide's number.
pub proof fn lemma_slide_starts_with_number(
    number: nat,
    shapes: Seq<ShapeView>,
    notes: Option<Seq<char>>,
    files: Seq<(Seq<char>, Seq<char>)>,
)
    ensures
        has_prefix(slide_md(number, shapes, notes, files), "## Slide "@ + decimal(number)),
{
    reveal_strlit("## Slide ");
    lemma_decimal_last_digit(number);
    let p = "## Slide "@ + decimal(number);
    let x = slide_heading(number, first_title(shapes)) + shapes_md(shapes, files) + notes_md(notes);
    assert(x.subrange(0, p.len() as int) =~= p);
    let last = p.len() - 1;
    assert(x[last] == p[last]);
    assert(p[last] == decimal(number).last());
    lemma_trim_end_keeps(x, last);
    let t = trim_end_ws(x);
    assert forall|m: int| 0 <= m < t.len() implies t[m] == x[m] by {
        assert(t[m] == x.subrange(0, t.len() as int)[m]);
    }
    assert(t.subrange(0, p.len() as int) =~= p);
}

/// A slide with speaker notes that have a line shows them as a quote that
/// starts `> Note:`.
pub proof fn lemma_slide_shows_notes(
    number: nat,
    shapes: Seq<ShapeView>,
    n: Seq<char>,
    files: Seq<(Seq<char>, Seq<char>)>,
)
    requires
        text_lines(n).len() > 0,
    ensures
        contains_seq(slide_md(number, shapes, Some(n), files), seq!['>', ' ', 'N', 'o', 't', 'e', ':']),
{
    reveal_strlit("> Note: ");
    let p = seq!['>', ' ', 'N', 'o', 't', 'e', ':'];
    let nm = notes_md(Some(n));
    assert(nm.subrange(0, 7) =~= p);
    assert(crate::text::occurs_at(nm, p, 0));
    let hb = slide_heading(number, first_title(shapes)) + shapes_md(shapes, files);
    lemma_occurs_in_suffix(hb, nm, p, 0);
    let x = hb + nm;
    let j = hb.len() as int;
    assert(x.subrange(j, j + 7) == p);
    assert(x[j + 6] == p[6]);
    lemma_trim_end_keeps(x, j + 6);
    let t = trim_end_ws(x);
    assert forall|m: int| 0 <= m < t.len() implies t[m] == x[m] by {
        assert(t[m] == x.subrange(0, t.len() as int)[m]);
    }
    assert(t.subrange(j, j + 7) =~= p);
    assert(crate::text::occurs_at(t, p, j));
}

} // verus!
