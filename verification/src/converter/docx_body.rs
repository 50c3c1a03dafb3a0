//! The body of a DOCX document (`word/document.xml`): runs merged into
//! formatted paragraph text, paragraphs emitted as headings, list items or
//! plain paragraphs, and the token-driven scan over the whole body.

use vstd::prelude::*;

use crate::converter::docx_styles::{
    extract_heading_level_from_id, level_from_id, numbering_lookup, style_level, style_level_of,
    instances_view, levels_view, styles_view, NumberingDefs, StyleTable,
};
use crate::markdown::{
    format_heading, format_list_item, format_list_item_plain, heading, list_item, list_item_plain,
    wrap_formatting, wrapped,
};
use crate::converter::docx::{
    docx_table_has_content, lemma_table_with_view, render_docx_table, single_newline,
    rows_view, table_has_content, table_render, table_warnings, table_with_view, BlockV, CellV,
    DocxCell,
    DocxCellBlock, DocxRow, DocxTable, RowV, TableV, VMerge, MAX_TABLE_COLS,
};
use crate::converter::docx_styles::numbering_ordered;
use crate::converter::{image_md, img_view, imgs_view, warn_view, warns_view};
use crate::converter::ooxml_utils::{find_relationship, rel_lookup, rels_view, Relationship};
use crate::converter::{build_image_md, warning, ConversionWarning, ImageInfo, WarningCode};
use crate::detection::last_index_of;
use crate::text::{
    chars_of, decimal, decimal_chars, eq_str, has_suffix, is_blank, last_index, lower_ascii,
    parse_uint, parse_uint_spec,
    push_all, push_str, slice_chars, string_from_chars, to_ascii_lower, trim, trim_end, trim_ws,
};
use crate::xml_io::{
    attr_by_local, find_attr_local, find_last_attr_key, find_last_attr_local, last_attr_by_key,
    last_attr_by_local, text_of_token, token_text, tokenize, xml_tokens, XmlAttr, XmlElement,
    XmlToken,
};

verus! {

broadcast use vstd::string::group_string_axioms;

// ---------------------------------------------------------------------------
// Runs
// ---------------------------------------------------------------------------

/// A piece of paragraph text with its formatting.
#[derive(Debug)]
pub struct RunSegment {
    pub text: Vec<char>,
    pub bold: bool,
    pub italic: bool,
}

/// A run segment with a copy of `text`.
pub fn segment(text: &[char], bold: bool, italic: bool) -> (s: RunSegment)
    ensures
        s.text@ == text@,
        s.bold == bold,
        s.italic == italic,
{
    RunSegment { text: slice_chars(text, 0, text.len()), bold, italic }
}

/// A run segment as plain values: its text and whether it is bold and
/// italic.
pub open spec fn run_view(r: RunSegment) -> (Seq<char>, bool, bool) {
    (r.text@, r.bold, r.italic)
}

/// The views of some run segments.
pub open spec fn runs_view(rs: Seq<RunSegment>) -> Seq<(Seq<char>, bool, bool)> {
    rs.map_values(|r: RunSegment| run_view(r))
}

/// Adjacent runs with the same formatting merged into groups of
/// `(text, bold, italic)`.
pub open spec fn merge_groups(runs: Seq<(Seq<char>, bool, bool)>) -> Seq<(Seq<char>, bool, bool)>
    decreases runs.len(),
{
    if runs.len() == 0 {
        Seq::empty()
    } else {
        let g = merge_groups(runs.drop_last());
        let r = runs.last();
        if g.len() > 0 && g.last().1 == r.1 && g.last().2 == r.2 {
            g.drop_last().push((g.last().0 + r.0, r.1, r.2))
        } else {
            g.push(r)
        }
    }
}

/// Each group wrapped in its emphasis markers, concatenated.
pub open spec fn groups_md(g: Seq<(Seq<char>, bool, bool)>) -> Seq<char>
    decreases g.len(),
{
    if g.len() == 0 {
        Seq::empty()
    } else {
        groups_md(g.drop_last()) + wrapped(g.last().0, g.last().1, g.last().2)
    }
}

/// The Markdown text of a paragraph's runs.
pub open spec fn runs_md(runs: Seq<(Seq<char>, bool, bool)>) -> Seq<char> {
    groups_md(merge_groups(runs))
}

/// The plain text of a paragraph's runs: their texts, concatenated.
pub open spec fn runs_plain(runs: Seq<(Seq<char>, bool, bool)>) -> Seq<char>
    decreases runs.len(),
{
    if runs.len() == 0 {
        Seq::empty()
    } else {
        runs_plain(runs.drop_last()) + runs.last().0
    }
}

/// The view of merged groups.
pub open spec fn groups_view(v: Seq<(Vec<char>, bool, bool)>) -> Seq<(Seq<char>, bool, bool)> {
    v.map_values(|g: (Vec<char>, bool, bool)| (g.0@, g.1, g.2))
}

/// Merges adjacent runs of equal formatting, then wraps each group in its
/// emphasis markers once (see [`runs_md`]).
pub fn merge_and_format_runs(runs: &Vec<RunSegment>) -> (v: Vec<char>)
    ensures
        v@ == runs_md(runs_view(runs@)),
{
    let mut groups: Vec<(Vec<char>, bool, bool)> = Vec::new();
    let mut i: usize = 0;
    let ghost rv = runs_view(runs@);
    while i < runs.len()
        invariant
            i <= runs.len(),
            rv == runs_view(runs@),
            groups_view(groups@) == merge_groups(rv.subrange(0, i as int)),
        decreases runs.len() - i,
    {
        let r = &runs[i];
        let ghost g = groups_view(groups@);
        proof {
            let sub = rv.subrange(0, i + 1);
            assert(sub.drop_last() =~= rv.subrange(0, i as int));
            assert(sub.last() == rv[i as int]);
            assert(rv[i as int] == run_view(runs@[i as int]));
        }
        let n = groups.len();
        if n > 0 && groups[n - 1].1 == r.bold && groups[n - 1].2 == r.italic {
            let (mut t, b, it) = groups.pop().unwrap();
            push_all(&mut t, r.text.as_slice());
            groups.push((t, b, it));
            assert(groups_view(groups@) =~= g.drop_last().push((g.last().0 + r.text@, b, it)));
        } else {
            let t = slice_chars(r.text.as_slice(), 0, r.text.len());
            let ghost before = groups@;
            groups.push((t, r.bold, r.italic));
            assert(groups@.last().0@ == r.text@);
            assert(groups@.drop_last() =~= before);
            assert(groups_view(groups@) =~= g.push((r.text@, r.bold, r.italic)));
        }
        i = i + 1;
    }
    assert(rv.subrange(0, runs.len() as int) =~= rv);
    let mut out: Vec<char> = Vec::new();
    let mut k: usize = 0;
    while k < groups.len()
        invariant
            k <= groups.len(),
            groups_view(groups@) == merge_groups(runs_view(runs@)),
            out@ == groups_md(groups_view(groups@).subrange(0, k as int)),
        decreases groups.len() - k,
    {
        let w = wrap_formatting(groups[k].0.as_slice(), groups[k].1, groups[k].2);
        push_all(&mut out, w.as_slice());
        proof {
            let gv = groups_view(groups@);
            let sub = gv.subrange(0, k + 1);
            assert(sub.drop_last() =~= gv.subrange(0, k as int));
            assert(sub.last() == gv[k as int]);
        }
        k = k + 1;
    }
    assert(groups_view(groups@).subrange(0, groups.len() as int) =~= groups_view(groups@));
    out
}

/// The runs' texts, concatenated (see [`runs_plain`]).
pub fn merge_runs_plain(runs: &Vec<RunSegment>) -> (v: Vec<char>)
    ensures
        v@ == runs_plain(runs_view(runs@)),
{
    let mut out: Vec<char> = Vec::new();
    let mut i: usize = 0;
    let ghost rv = runs_view(runs@);
    while i < runs.len()
        invariant
            i <= runs.len(),
            rv == runs_view(runs@),
            out@ == runs_plain(rv.subrange(0, i as int)),
        decreases runs.len() - i,
    {
        push_all(&mut out, runs[i].text.as_slice());
        proof {
            let sub = rv.subrange(0, i + 1);
            assert(sub.drop_last() =~= rv.subrange(0, i as int));
            assert(sub.last() == rv[i as int]);
            assert(rv[i as int] == run_view(runs@[i as int]));
        }
        i = i + 1;
    }
    assert(rv.subrange(0, runs.len() as int) =~= rv);
    out
}

// ---------------------------------------------------------------------------
// Paragraphs
// ---------------------------------------------------------------------------

/// The kind of block a paragraph is.
#[derive(Debug)]
pub enum ParagraphKind {
    Normal,
    /// A heading of level 1 to 6.
    Heading(u8),
    /// A list item of numbering instance `num_id`.
    ListItem { ordered: bool, level: u8, num_id: String },
}

/// `level` clamped to 1..=6.
pub open spec fn clamp_level(level: u8) -> u8 {
    if level < 1 {
        1
    } else if level > 6 {
        6
    } else {
        level
    }
}

/// The heading level a paragraph style gives, if any: the level in the
/// style id itself, else the level recorded for it in `styles.xml`; clamped
/// to 1..=6.
pub open spec fn style_heading(style: Seq<char>, styles: Seq<(Seq<char>, u8)>) -> Option<u8> {
    match level_from_id(style) {
        Some(l) => Some(clamp_level(l)),
        None => match style_level(styles, style) {
            Some(l) => Some(clamp_level(l)),
            None => None,
        },
    }
}

/// The paragraph kind a style value gives (see [`style_heading`]).
pub fn resolve_paragraph_kind(style_val: &str, styles: &StyleTable) -> (k: ParagraphKind)
    ensures
        match style_heading(style_val@, styles_view(styles@)) {
            Some(l) => k == ParagraphKind::Heading(l),
            None => k == ParagraphKind::Normal,
        },
{
    match extract_heading_level_from_id(style_val) {
        Some(l) => ParagraphKind::Heading(clamp(l)),
        None => match style_level_of(styles, style_val) {
            Some(l) => ParagraphKind::Heading(clamp(l)),
            None => ParagraphKind::Normal,
        },
    }
}

/// `level` clamped to 1..=6.
fn clamp(level: u8) -> (r: u8)
    ensures
        r == clamp_level(level),
{
    if level < 1 {
        1
    } else if level > 6 {
        6
    } else {
        level
    }
}

/// The ordered-list counters: `(numId, level, count)`; the last entry for a
/// key is current.
pub type ListCounters = Vec<(String, u8, usize)>;

/// A paragraph kind as plain values.
pub enum KindV {
    Normal,
    Heading(u8),
    ListItem { ordered: bool, level: u8, num_id: Seq<char> },
}

/// The view of a paragraph kind.
pub open spec fn kind_view(k: ParagraphKind) -> KindV {
    match k {
        ParagraphKind::Normal => KindV::Normal,
        ParagraphKind::Heading(l) => KindV::Heading(l),
        ParagraphKind::ListItem { ordered, level, num_id } => KindV::ListItem {
            ordered,
            level,
            num_id: num_id@,
        },
    }
}

/// The view of list counters.
pub open spec fn counters_view(c: Seq<(String, u8, usize)>) -> Seq<(Seq<char>, u8, usize)> {
    c.map_values(|e: (String, u8, usize)| (e.0@, e.1, e.2))
}

/// The current count of list `(num, lvl)`, 0 before its first item.
pub open spec fn counter_of(counters: Seq<(Seq<char>, u8, usize)>, num: Seq<char>, lvl: u8) -> nat
    decreases counters.len(),
{
    if counters.len() == 0 {
        0
    } else if counters.last().0 == num && counters.last().1 == lvl {
        counters.last().2 as nat
    } else {
        counter_of(counters.drop_last(), num, lvl)
    }
}

/// The number an item of kind `kind` gets: the next count of its list for
/// ordered items (saturating at `usize::MAX`), 1 otherwise.
pub open spec fn item_number(kind: KindV, counters: Seq<(Seq<char>, u8, usize)>) -> nat {
    match kind {
        KindV::ListItem { ordered, level, num_id } => if ordered {
            let c = counter_of(counters, num_id, level);
            if c < usize::MAX {
                c + 1
            } else {
                usize::MAX as nat
            }
        } else {
            1
        },
        _ => 1,
    }
}

/// The counters after a paragraph: a non-blank ordered list item records
/// its number for its list and level.
pub open spec fn counters_after(
    kind: KindV,
    text: Seq<char>,
    counters: Seq<(Seq<char>, u8, usize)>,
) -> Seq<(Seq<char>, u8, usize)> {
    match kind {
        KindV::ListItem { ordered, level, num_id } => if trim_ws(text).len() > 0 && ordered {
            counters.push((num_id, level, item_number(kind, counters) as usize))
        } else {
            counters
        },
        _ => counters,
    }
}

/// A newline when the previous block was a list item.
pub open spec fn list_gap(last_was_list: bool) -> Seq<char> {
    if last_was_list {
        seq!['\n']
    } else {
        Seq::empty()
    }
}

/// The Markdown a finished paragraph adds: nothing when its text is blank;
/// a heading line and a blank line; a list item line; or the trimmed text
/// and a blank line. Headings and plain paragraphs after a list item get an
/// extra newline first.
pub open spec fn paragraph_md(
    kind: KindV,
    text: Seq<char>,
    last_was_list: bool,
    number: nat,
) -> Seq<char> {
    let t = trim_ws(text);
    if t.len() == 0 {
        Seq::empty()
    } else {
        match kind {
            KindV::Heading(l) => list_gap(last_was_list) + heading(l as nat, t) + seq![
                '\n',
            ],
            KindV::ListItem { ordered, level, num_id } => list_item(
                level as nat,
                ordered,
                number,
                t,
            ) + seq!['\n'],
            KindV::Normal => list_gap(last_was_list) + t + seq!['\n', '\n'],
        }
    }
}

/// `n` copies of two spaces are `2 * n` spaces.
proof fn lemma_indent_spaces(n: nat)
    ensures
        crate::text::repeat(seq![' ', ' '], n).len() == 2 * n,
        forall|i: int| 0 <= i < 2 * n ==> crate::text::repeat(seq![' ', ' '], n)[i] == ' ',
    decreases n,
{
    if n > 0 {
        lemma_indent_spaces((n - 1) as nat);
    }
}

/// The first character of a decimal number is a digit.
proof fn lemma_decimal_first_digit(n: nat)
    ensures
        decimal(n).len() > 0,
        '0' <= decimal(n)[0] <= '9',
    decreases n,
{
    if n < 10 {
        assert(crate::text::digit_char(n) == ((n + 48) as u32) as char);
        assert('0' <= ((n + 48) as u32) as char <= '9');
    } else {
        lemma_decimal_first_digit(n / 10);
        assert(decimal(n)[0] == decimal(n / 10)[0]);
    }
}

/// A non-blank list item paragraph starts with two spaces per nesting
/// level and then its marker: a number (its first character a digit)
/// followed by `. ` in an ordered list, `- ` in a bulleted one.
pub proof fn lemma_list_item_marker(
    level: u8,
    ordered: bool,
    num_id: Seq<char>,
    text: Seq<char>,
    last_was_list: bool,
    number: nat,
)
    requires
        trim_ws(text).len() > 0,
    ensures
        ({
            let md = paragraph_md(
                KindV::ListItem { ordered, level, num_id },
                text,
                last_was_list,
                number,
            );
            let ind = 2 * level;
            &&& forall|i: int| 0 <= i < ind ==> md[i] == ' '
            &&& ordered ==> {
                &&& '0' <= md[ind] <= '9'
                &&& md.subrange(ind, ind + decimal(number).len() + 2) == decimal(number) + seq![
                    '.',
                    ' ',
                ]
            }
            &&& !ordered ==> md[ind] == '-' && md[ind + 1] == ' '
        }),
{
    lemma_indent_spaces(level as nat);
    lemma_decimal_first_digit(number);
    let ind = 2 * level;
    let rep = crate::text::repeat(seq![' ', ' '], level as nat);
    let t = trim_ws(text);
    let md = paragraph_md(KindV::ListItem { ordered, level, num_id }, text, last_was_list, number);
    if ordered {
        let mk = decimal(number) + seq!['.', ' '];
        assert(md == rep + mk + t + seq!['\n']);
        assert(md.subrange(ind, ind + mk.len()) =~= mk);
        assert(md[ind] == mk[0]);
    } else {
        let mk = seq!['-', ' '];
        assert(md == rep + mk + t + seq!['\n']);
        assert(md[ind] == mk[0]);
        assert(md[ind + 1] == mk[1]);
    }
}

/// A paragraph numbered with instance `num` at level `lvl` becomes a list
/// item at that level whose list is ordered exactly when the numbering
/// defines that level as ordered, the latest definitions counting: the
/// instance's last mapping to an abstract definition, and that
/// definition's last entry for the level. A level the numbering does not
/// define makes a bulleted item.
pub proof fn lemma_list_kind_follows_numbering(
    p: ParaV,
    instances: Seq<(Seq<char>, Seq<char>)>,
    levels: Seq<(Seq<char>, u8, bool)>,
    num: Seq<char>,
    lvl: u8,
    abs: Seq<char>,
    ordered: bool,
)
    requires
        p.num_id == Some(num),
        p.ilvl == Some(lvl),
    ensures
        final_kind(p, instances.push((num, abs)), levels.push((abs, lvl, ordered)))
            == (KindV::ListItem { ordered, level: lvl, num_id: num }),
        final_kind(p, Seq::empty(), levels) == (KindV::ListItem {
            ordered: false,
            level: lvl,
            num_id: num,
        }),
{
    assert(instances.push((num, abs)).last() == (num, abs));
    assert(levels.push((abs, lvl, ordered)).last() == (abs, lvl, ordered));
}

/// The current count of a list after a non-blank ordered item of that list
/// is one more than before: consecutive items of an ordered list are
/// numbered 1, 2, 3, ... (saturating at `usize::MAX`); bulleted and blank
/// items leave the counts alone.
pub proof fn lemma_ordered_items_count_up(
    level: u8,
    ordered: bool,
    num_id: Seq<char>,
    text: Seq<char>,
    counters: Seq<(Seq<char>, u8, usize)>,
)
    ensures
        ({
            let k = KindV::ListItem { ordered, level, num_id };
            let after = counters_after(k, text, counters);
            &&& (ordered && trim_ws(text).len() > 0 && counter_of(counters, num_id, level)
                < usize::MAX) ==> counter_of(after, num_id, level) == counter_of(
                counters,
                num_id,
                level,
            ) + 1
            &&& (ordered && trim_ws(text).len() > 0) ==> item_number(k, counters) == counter_of(
                after,
                num_id,
                level,
            )
            &&& (!ordered || trim_ws(text).len() == 0) ==> after == counters
        }),
{
    let k = KindV::ListItem { ordered, level, num_id };
    let after = counters_after(k, text, counters);
    if ordered && trim_ws(text).len() > 0 {
        assert(after.last() == (num_id, level, item_number(k, counters) as usize));
    }
}

/// The plain text a finished paragraph adds (blank when the Markdown text is
/// blank): headings and paragraphs as their text and a blank line, list
/// items as their indented text.
pub open spec fn paragraph_plain(
    kind: KindV,
    text: Seq<char>,
    plain: Seq<char>,
    last_was_list: bool,
) -> Seq<char> {
    let tp = trim_ws(plain);
    if trim_ws(text).len() == 0 {
        Seq::empty()
    } else {
        match kind {
            KindV::ListItem { ordered, level, num_id } => list_item_plain(level as nat, tp)
                + seq!['\n'],
            _ => list_gap(last_was_list) + tp + seq!['\n', '\n'],
        }
    }
}

/// The document title after a paragraph: the first non-blank level-1
/// heading's plain text.
pub open spec fn title_after(
    title: Option<Seq<char>>,
    kind: KindV,
    text: Seq<char>,
    plain: Seq<char>,
) -> Option<Seq<char>> {
    if trim_ws(text).len() > 0 && kind == KindV::Heading(1) && title is None {
        Some(trim_ws(plain))
    } else {
        title
    }
}

/// The view of an optional character vector.
pub open spec fn opt_chars(o: Option<Vec<char>>) -> Option<Seq<char>> {
    match o {
        Some(v) => Some(v@),
        None => None,
    }
}

/// Emits a finished paragraph (see [`paragraph_md`], [`paragraph_plain`],
/// [`title_after`]); an ordered list item advances its list's counter.
pub fn finalize_paragraph(
    kind: &ParagraphKind,
    text: &[char],
    text_plain: &[char],
    output: &mut Vec<char>,
    plain_output: &mut Vec<char>,
    title: &mut Option<Vec<char>>,
    counters: &mut ListCounters,
    last_was_list: bool,
)
    ensures
        final(output)@ == old(output)@ + paragraph_md(
            kind_view(*kind),
            text@,
            last_was_list,
            item_number(kind_view(*kind), counters_view(old(counters)@)),
        ),
        final(plain_output)@ == old(plain_output)@ + paragraph_plain(
            kind_view(*kind),
            text@,
            text_plain@,
            last_was_list,
        ),
        opt_chars(*final(title)) == title_after(
            opt_chars(*old(title)),
            kind_view(*kind),
            text@,
            text_plain@,
        ),
        counters_view(final(counters)@) == counters_after(
            kind_view(*kind),
            text@,
            counters_view(old(counters)@),
        ),
{
    let t = trim(text);
    let tp = trim(text_plain);
    if t.len() == 0 {
        assert(output@ =~= old(output)@ + paragraph_md(
            kind_view(*kind),
            text@,
            last_was_list,
            item_number(kind_view(*kind), counters_view(old(counters)@)),
        ));
        assert(plain_output@ =~= old(plain_output)@ + paragraph_plain(
            kind_view(*kind),
            text@,
            text_plain@,
            last_was_list,
        ));
        return ;
    }
    match kind {
        ParagraphKind::Heading(level) => {
            if last_was_list {
                output.push('\n');
                plain_output.push('\n');
            }
            let h = format_heading(*level, t.as_slice());
            push_all(output, h.as_slice());
            output.push('\n');
            push_all(plain_output, tp.as_slice());
            plain_output.push('\n');
            plain_output.push('\n');
            if *level == 1 && title.is_none() {
                *title = Some(slice_chars(tp.as_slice(), 0, tp.len()));
            }
        },
        ParagraphKind::ListItem { ordered, level, num_id } => {
            let counter: usize = if *ordered {
                let c = current_counter(counters, num_id.as_str(), *level);
                let next: usize = if c < usize::MAX {
                    c + 1
                } else {
                    usize::MAX
                };
                let ghost before = counters_view(counters@);
                let nc = chars_of(num_id.as_str());
                let key = string_from_chars(nc.as_slice());
                counters.push((key, *level, next));
                assert(counters_view(counters@) =~= before.push((num_id@, *level, next)));
                next
            } else {
                1
            };
            let item = format_list_item(*level, *ordered, counter, t.as_slice());
            push_all(output, item.as_slice());
            output.push('\n');
            let item_plain = format_list_item_plain(*level, tp.as_slice());
            push_all(plain_output, item_plain.as_slice());
            plain_output.push('\n');
        },
        ParagraphKind::Normal => {
            if last_was_list {
                output.push('\n');
                plain_output.push('\n');
            }
            push_all(output, t.as_slice());
            output.push('\n');
            output.push('\n');
            push_all(plain_output, tp.as_slice());
            plain_output.push('\n');
            plain_output.push('\n');
        },
    }
    assert(output@ =~= old(output)@ + paragraph_md(
        kind_view(*kind),
        text@,
        last_was_list,
        item_number(kind_view(*kind), counters_view(old(counters)@)),
    ));
    assert(plain_output@ =~= old(plain_output)@ + paragraph_plain(
        kind_view(*kind),
        text@,
        text_plain@,
        last_was_list,
    ));
}

/// The current count of list `(num, lvl)` (see [`counter_of`]).
fn current_counter(counters: &ListCounters, num: &str, lvl: u8) -> (c: usize)
    ensures
        c == counter_of(counters_view(counters@), num@, lvl),
{
    let k = chars_of(num);
    let mut j = counters.len();
    let ghost cv = counters_view(counters@);
    assert(cv.subrange(0, j as int) =~= cv);
    while j > 0
        invariant
            j <= counters.len(),
            k@ == num@,
            cv == counters_view(counters@),
            counter_of(cv.subrange(0, j as int), num@, lvl) == counter_of(cv, num@, lvl),
        decreases j,
    {
        assert(cv.subrange(0, j as int).drop_last() =~= cv.subrange(0, j - 1));
        assert(cv.subrange(0, j as int).last() == cv[j - 1]);
        let n = chars_of(counters[j - 1].0.as_str());
        if crate::text::eq_chars(n.as_slice(), k.as_slice()) && counters[j - 1].1 == lvl {
            return counters[j - 1].2;
        }
        j = j - 1;
    }
    0
}

// ---------------------------------------------------------------------------
// Table properties
// ---------------------------------------------------------------------------

/// Whether a `w:val` value is explicitly false (`0` or `false`, any case).
pub open spec fn val_false(v: Option<Seq<char>>) -> bool {
    match v {
        Some(s) => s == "0"@ || lower_ascii(s) == "false"@,
        None => false,
    }
}

/// Whether the first `val` attribute is explicitly false.
pub fn is_val_false(attrs: &Vec<Option<XmlAttr>>) -> (r: bool)
    ensures
        r == val_false(attr_by_local(attrs@, "val"@)),
{
    match find_attr_local(attrs, "val") {
        Some(v) => {
            let c = chars_of(v.as_str());
            let l = to_ascii_lower(c.as_slice());
            eq_str(c.as_slice(), "0") || eq_str(l.as_slice(), "false")
        },
        None => false,
    }
}

/// The merge state a `<w:vMerge>` value gives: `restart` starts a merge,
/// an explicit false value means none, anything else (or no value)
/// continues one.
pub open spec fn vmerge_of(v: Option<Seq<char>>) -> VMerge {
    match v {
        Some(s) => if s == "restart"@ {
            VMerge::Restart
        } else if val_false(Some(s)) {
            VMerge::NotMerged
        } else {
            VMerge::Continue
        },
        None => VMerge::Continue,
    }
}

/// The span a `<w:gridSpan>` value gives, clamped to 1..=[`MAX_TABLE_COLS`];
/// `None` when it is not a number.
pub open spec fn grid_span_of(v: Option<Seq<char>>) -> Option<usize> {
    match v {
        Some(s) => match crate::text::parse_uint_spec(s, usize::MAX as nat) {
            Some(n) => Some(
                if n < 1 {
                    1usize
                } else if n > MAX_TABLE_COLS {
                    MAX_TABLE_COLS
                } else {
                    n as usize
                },
            ),
            None => None,
        },
        None => None,
    }
}

/// Applies a table-property tag to the table being read: `gridCol` (outside
/// a row) adds a grid column up to [`MAX_TABLE_COLS`]; `gridSpan` and
/// `vMerge` (inside a cell) set the cell's span and merge state. Returns
/// whether the tag was one of these; other tags change nothing.
pub fn apply_table_property(name: &[char], attrs: &Vec<Option<XmlAttr>>, frame: &mut DocxTable) -> (r:
    bool)
    ensures
        r == ((name@ == "gridCol"@ && !old(frame).in_row) || (name@ == "gridSpan"@
            && old(frame).in_cell) || (name@ == "vMerge"@ && old(frame).in_cell)),
        final(frame).rows == old(frame).rows,
        final(frame).current_row == old(frame).current_row,
        final(frame).current_cell.blocks == old(frame).current_cell.blocks,
        final(frame).in_row == old(frame).in_row,
        final(frame).in_cell == old(frame).in_cell,
        final(frame).grid_width == (if name@ == "gridCol"@ && !old(frame).in_row
            && old(frame).grid_width < MAX_TABLE_COLS {
            old(frame).grid_width + 1
        } else {
            old(frame).grid_width as int
        }),
        final(frame).current_cell.grid_span == (if name@ == "gridSpan"@ && old(frame).in_cell
            && grid_span_of(attr_by_local(attrs@, "val"@)) is Some {
            grid_span_of(attr_by_local(attrs@, "val"@))->0
        } else {
            old(frame).current_cell.grid_span
        }),
        final(frame).current_cell.v_merge == (if name@ == "vMerge"@ && old(frame).in_cell {
            vmerge_of(attr_by_local(attrs@, "val"@))
        } else {
            old(frame).current_cell.v_merge
        }),
{
    proof {
        reveal_strlit("gridCol");
        reveal_strlit("gridSpan");
        reveal_strlit("vMerge");
        assert("gridCol"@.len() == 7 && "gridSpan"@.len() == 8 && "vMerge"@.len() == 6);
    }
    if eq_str(name, "gridCol") && !frame.in_row {
        if frame.grid_width < MAX_TABLE_COLS {
            frame.grid_width = frame.grid_width + 1;
        }
        return true;
    }
    if eq_str(name, "gridSpan") && frame.in_cell {
        match find_attr_local(attrs, "val") {
            Some(v) => {
                let c = chars_of(v.as_str());
                let mx: u64 = usize::MAX as u64;
                assert(mx as nat == usize::MAX as nat);
                match parse_uint(c.as_slice(), mx) {
                    Some(n) => {
                        let span: usize = if n < 1 {
                            1
                        } else if n > MAX_TABLE_COLS as u64 {
                            MAX_TABLE_COLS
                        } else {
                            n as usize
                        };
                        frame.current_cell.grid_span = span;
                    },
                    None => {},
                }
            },
            None => {},
        }
        return true;
    }
    if eq_str(name, "vMerge") && frame.in_cell {
        let v = match find_attr_local(attrs, "val") {
            Some(v) => {
                let c = chars_of(v.as_str());
                let l = to_ascii_lower(c.as_slice());
                proof {
                    reveal_strlit("restart");
                    reveal_strlit("0");
                }
                if eq_str(c.as_slice(), "restart") {
                    VMerge::Restart
                } else if eq_str(c.as_slice(), "0") || eq_str(l.as_slice(), "false") {
                    VMerge::NotMerged
                } else {
                    VMerge::Continue
                }
            },
            None => VMerge::Continue,
        };
        frame.current_cell.v_merge = v;
        return true;
    }
    false
}

// ---------------------------------------------------------------------------
// Images and hyperlinks
// ---------------------------------------------------------------------------

/// The placeholder alt text of the `n`-th image: `__img_n__`.
pub open spec fn placeholder_name(n: nat) -> Seq<char> {
    "__img_"@ + decimal(n) + "__"@
}

/// The file name of a relationship target: what follows its last `/`.
pub open spec fn target_file_name(target: Seq<char>) -> Seq<char> {
    match last_index_of(target, '/') {
        Some(i) => target.subrange(i + 1, target.len() as int),
        None => target,
    }
}

/// The placeholder of the `n`-th image.
pub fn placeholder(n: usize) -> (v: Vec<char>)
    ensures
        v@ == placeholder_name(n as nat),
{
    let mut v: Vec<char> = Vec::new();
    push_str(&mut v, "__img_");
    let d = decimal_chars(n);
    push_all(&mut v, d.as_slice());
    push_str(&mut v, "__");
    v
}

/// The file name of a relationship target (see [`target_file_name`]).
fn file_name_of(target: &str) -> (v: Vec<char>)
    ensures
        v@ == target_file_name(target@),
{
    let t = chars_of(target);
    match last_index(t.as_slice(), '/') {
        Some(i) => slice_chars(t.as_slice(), i + 1, t.len()),
        None => t,
    }
}

/// The URL of hyperlink relationship `rid`; a `SkippedElement` warning when
/// there is no such relationship.
pub fn resolve_hyperlink_url(
    rid: &str,
    relationships: &Vec<(String, Relationship)>,
    warnings: &mut Vec<ConversionWarning>,
) -> (r: Option<String>)
    ensures
        match rel_lookup(rels_view(relationships@), rid@) {
            Some(p) => r matches Some(u) && u@ == p.0 && final(warnings)@ == old(warnings)@,
            None => {
                &&& r is None
                &&& final(warnings)@.len() == old(warnings)@.len() + 1
                &&& final(warnings)@.drop_last() == old(warnings)@
                &&& final(warnings)@.last().code == WarningCode::SkippedElement
                &&& final(warnings)@.last().message@ == "hyperlink relationship '"@ + rid@
                    + "' not found in rels"@
                &&& final(warnings)@.last().location matches Some(l) && l@ == rid@
            },
        },
{
    match find_relationship(relationships, rid) {
        Some(rel) => Some(rel.target.clone()),
        None => {
            let mut m: Vec<char> = Vec::new();
            push_str(&mut m, "hyperlink relationship '");
            push_str(&mut m, rid);
            push_str(&mut m, "' not found in rels");
            let ghost before = warnings@;
            warnings.push(warning(WarningCode::SkippedElement, m, Some(rid.to_string())));
            assert(warnings@.drop_last() =~= before);
            None
        },
    }
}

// ---------------------------------------------------------------------------
// The body scan
// ---------------------------------------------------------------------------

/// Paragraph-level state; saved and reset while a text box is read.
#[derive(Debug)]
pub struct ParaState {
    pub in_paragraph: bool,
    pub in_run: bool,
    pub in_text: bool,
    pub in_run_properties: bool,
    pub kind: ParagraphKind,
    pub runs: Vec<RunSegment>,
    pub runs_plain: Vec<RunSegment>,
    pub bold: bool,
    pub italic: bool,
    pub in_hyperlink: bool,
    pub hyperlink_url: Option<String>,
    pub hyperlink_runs: Vec<RunSegment>,
    pub hyperlink_runs_plain: Vec<RunSegment>,
    pub in_para_properties: bool,
    pub in_num_pr: bool,
    pub num_id: Option<String>,
    pub ilvl: Option<u8>,
}

/// The view of an optional string.
pub open spec fn opt_str(o: Option<String>) -> Option<Seq<char>> {
    match o {
        Some(s) => Some(s@),
        None => None,
    }
}

impl View for ParaState {
    type V = ParaV;

    open spec fn view(&self) -> ParaV {
        ParaV {
            in_paragraph: self.in_paragraph,
            in_run: self.in_run,
            in_text: self.in_text,
            in_run_properties: self.in_run_properties,
            kind: kind_view(self.kind),
            runs: runs_view(self.runs@),
            runs_plain: runs_view(self.runs_plain@),
            bold: self.bold,
            italic: self.italic,
            in_hyperlink: self.in_hyperlink,
            hyperlink_url: opt_str(self.hyperlink_url),
            hyperlink_runs: runs_view(self.hyperlink_runs@),
            hyperlink_runs_plain: runs_view(self.hyperlink_runs_plain@),
            in_para_properties: self.in_para_properties,
            in_num_pr: self.in_num_pr,
            num_id: opt_str(self.num_id),
            ilvl: self.ilvl,
        }
    }
}

impl ParaState {
    /// The state outside any paragraph.
    pub fn new() -> (s: ParaState)
        ensures
            s@ == para_start(),
    {
        let s = ParaState {
            in_paragraph: false,
            in_run: false,
            in_text: false,
            in_run_properties: false,
            kind: ParagraphKind::Normal,
            runs: Vec::new(),
            runs_plain: Vec::new(),
            bold: false,
            italic: false,
            in_hyperlink: false,
            hyperlink_url: None,
            hyperlink_runs: Vec::new(),
            hyperlink_runs_plain: Vec::new(),
            in_para_properties: false,
            in_num_pr: false,
            num_id: None,
            ilvl: None,
        };
        assert(runs_view(s.runs@) =~= Seq::<(Seq<char>, bool, bool)>::empty());
        assert(runs_view(s.runs_plain@) =~= Seq::<(Seq<char>, bool, bool)>::empty());
        assert(runs_view(s.hyperlink_runs@) =~= Seq::<(Seq<char>, bool, bool)>::empty());
        assert(runs_view(s.hyperlink_runs_plain@) =~= Seq::<(Seq<char>, bool, bool)>::empty());
        s
    }

    /// Appends a run segment to the open hyperlink, or else to the paragraph.
    fn push(&mut self, md: &[char], plain: &[char], bold: bool, italic: bool)
        ensures
            final(self)@ == para_push(old(self)@, md@, plain@, bold, italic),
    {
        if self.in_hyperlink {
            let ghost a = runs_view(self.hyperlink_runs@);
            let ghost b = runs_view(self.hyperlink_runs_plain@);
            self.hyperlink_runs.push(segment(md, bold, italic));
            self.hyperlink_runs_plain.push(segment(plain, bold, italic));
            assert(runs_view(self.hyperlink_runs@) =~= a.push((md@, bold, italic)));
            assert(runs_view(self.hyperlink_runs_plain@) =~= b.push((plain@, bold, italic)));
        } else {
            let ghost a = runs_view(self.runs@);
            let ghost b = runs_view(self.runs_plain@);
            self.runs.push(segment(md, bold, italic));
            self.runs_plain.push(segment(plain, bold, italic));
            assert(runs_view(self.runs@) =~= a.push((md@, bold, italic)));
            assert(runs_view(self.runs_plain@) =~= b.push((plain@, bold, italic)));
        }
    }

    /// Clears the runs of the paragraph.
    fn clear_runs(&mut self)
        ensures
            final(self)@ == (ParaV { runs: Seq::empty(), runs_plain: Seq::empty(), ..old(self)@ }),
    {
        self.runs.clear();
        self.runs_plain.clear();
        assert(runs_view(self.runs@) =~= Seq::<(Seq<char>, bool, bool)>::empty());
        assert(runs_view(self.runs_plain@) =~= Seq::<(Seq<char>, bool, bool)>::empty());
    }

    /// Clears the runs of the hyperlink.
    fn clear_link_runs(&mut self)
        ensures
            final(self)@ == (ParaV {
                hyperlink_runs: Seq::empty(),
                hyperlink_runs_plain: Seq::empty(),
                ..old(self)@
            }),
    {
        self.hyperlink_runs.clear();
        self.hyperlink_runs_plain.clear();
        assert(runs_view(self.hyperlink_runs@) =~= Seq::<(Seq<char>, bool, bool)>::empty());
        assert(runs_view(self.hyperlink_runs_plain@) =~= Seq::<(Seq<char>, bool, bool)>::empty());
    }

    /// The end of a hyperlink (see [`hyperlink_ended`]).
    fn end_hyperlink(&mut self)
        ensures
            final(self)@ == hyperlink_ended(old(self)@),
    {
        let link_text = merge_and_format_runs(&self.hyperlink_runs);
        let link_plain = merge_runs_plain(&self.hyperlink_runs_plain);
        let link_md = match &self.hyperlink_url {
            Some(url) => {
                let mut m: Vec<char> = Vec::new();
                m.push('[');
                push_all(&mut m, link_text.as_slice());
                m.push(']');
                m.push('(');
                push_str(&mut m, url.as_str());
                m.push(')');
                m
            },
            None => link_text,
        };
        let ghost md = link_md@;
        let ghost plain = link_plain@;
        assert(md =~= match old(self)@.hyperlink_url {
            Some(u) => seq!['['] + runs_md(old(self)@.hyperlink_runs) + seq![']', '('] + u + seq![')'],
            None => runs_md(old(self)@.hyperlink_runs),
        });
        let ghost a = runs_view(self.runs@);
        let ghost b = runs_view(self.runs_plain@);
        self.runs.push(RunSegment { text: link_md, bold: false, italic: false });
        self.runs_plain.push(RunSegment { text: link_plain, bold: false, italic: false });
        assert(runs_view(self.runs@) =~= a.push((md, false, false)));
        assert(runs_view(self.runs_plain@) =~= b.push((plain, false, false)));
        self.in_hyperlink = false;
        self.clear_link_runs();
        self.hyperlink_url = None;
    }

    /// A paragraph or run property (see [`para_property`]); whether the
    /// tag is one.
    fn property(&mut self, name: &[char], attrs: &Vec<Option<XmlAttr>>, styles: &StyleTable) -> (r:
        bool)
        ensures
            r == para_property_applies(old(self)@, name@),
            final(self)@ == para_property(old(self)@, name@, attrs@, styles_view(styles@)),
    {
        if eq_str(name, "pStyle") && self.in_para_properties {
            match find_last_attr_local(attrs, "val") {
                Some(v) => {
                    self.kind = resolve_paragraph_kind(v.as_str(), styles);
                },
                None => {},
            }
            true
        } else if eq_str(name, "ilvl") && self.in_num_pr {
            match find_last_attr_local(attrs, "val") {
                Some(v) => {
                    let c = chars_of(v.as_str());
                    self.ilvl = match parse_uint(c.as_slice(), 255) {
                        Some(n) => Some(n as u8),
                        None => None,
                    };
                },
                None => {},
            }
            true
        } else if eq_str(name, "numId") && self.in_num_pr {
            let cur = self.num_id.take();
            self.num_id = nonzero_num_id(attrs, cur);
            true
        } else if eq_str(name, "b") && self.in_run_properties {
            self.bold = !is_val_false(attrs);
            true
        } else if eq_str(name, "i") && self.in_run_properties {
            self.italic = !is_val_false(attrs);
            true
        } else {
            false
        }
    }

    /// A start tag of a paragraph part or a run part (see [`para_open`]);
    /// whether the tag is one.
    fn open_tag(&mut self, name: &[char], in_body: bool) -> (r: bool)
        ensures
            r == para_open_applies(old(self)@, name@, in_body),
            final(self)@ == para_open(old(self)@, name@, in_body),
    {
        if eq_str(name, "p") && in_body {
            self.in_paragraph = true;
            self.kind = ParagraphKind::Normal;
            self.clear_runs();
            self.num_id = None;
            self.ilvl = None;
            true
        } else if eq_str(name, "pPr") && self.in_paragraph {
            self.in_para_properties = true;
            true
        } else if eq_str(name, "numPr") && self.in_para_properties {
            self.in_num_pr = true;
            true
        } else if eq_str(name, "r") && self.in_paragraph {
            self.in_run = true;
            self.bold = false;
            self.italic = false;
            true
        } else if eq_str(name, "rPr") && self.in_run {
            self.in_run_properties = true;
            true
        } else if eq_str(name, "t") && self.in_run {
            self.in_text = true;
            true
        } else {
            false
        }
    }

    /// An end tag of a paragraph property, a run part or a hyperlink (see
    /// [`para_close`]); whether the tag is one.
    fn close_tag(&mut self, name: &[char]) -> (r: bool)
        ensures
            r == para_close_applies(old(self)@, name@),
            final(self)@ == para_close(old(self)@, name@),
    {
        if eq_str(name, "pPr") {
            self.in_para_properties = false;
            true
        } else if eq_str(name, "numPr") {
            self.in_num_pr = false;
            true
        } else if eq_str(name, "hyperlink") && self.in_hyperlink {
            self.end_hyperlink();
            true
        } else if eq_str(name, "rPr") {
            self.in_run_properties = false;
            true
        } else if eq_str(name, "r") {
            self.in_run = false;
            self.in_text = false;
            self.bold = false;
            self.italic = false;
            true
        } else if eq_str(name, "t") {
            self.in_text = false;
            true
        } else {
            false
        }
    }

    /// Makes a paragraph with numbering a list item (see [`final_kind`]).
    fn set_list_kind(&mut self, numbering: &NumberingDefs)
        ensures
            final(self)@ == (ParaV {
                kind: final_kind(
                    old(self)@,
                    instances_view(numbering.instances@),
                    levels_view(numbering.levels@),
                ),
                ..old(self)@
            }),
    {
        match (&self.num_id, self.ilvl) {
            (Some(num), Some(lvl)) => {
                let ordered = match numbering_lookup(numbering, num.as_str(), lvl) {
                    Some(o) => o,
                    None => false,
                };
                let key = copy_string(num);
                self.kind = ParagraphKind::ListItem { ordered, level: lvl, num_id: key };
            },
            _ => {},
        }
    }

    /// Resets the paragraph state once a paragraph has ended.
    fn close_paragraph(&mut self)
        ensures
            final(self)@ == para_closed(old(self)@),
    {
        self.in_paragraph = false;
        self.clear_runs();
        self.num_id = None;
        self.ilvl = None;
    }
}

/// The state of the body scan.
#[derive(Debug)]
pub struct BodyScan {
    /// Markdown so far.
    pub output: Vec<char>,
    /// Plain text so far.
    pub plain_output: Vec<char>,
    /// The first level-1 heading's text.
    pub title: Option<Vec<char>>,
    pub warnings: Vec<ConversionWarning>,
    /// The images placed so far, in order.
    pub images: Vec<ImageInfo>,
    pub in_body: bool,
    pub para: ParaState,
    pub counters: ListCounters,
    pub last_was_list: bool,
    /// The tables being read, innermost last.
    pub tables: Vec<DocxTable>,
    pub in_drawing: bool,
    pub image_alt: Option<String>,
    pub image_rel: Option<String>,
    /// Inside an `mc:Choice` branch, which is skipped, and its depth.
    pub in_mc_choice: bool,
    pub mc_depth: u32,
    pub in_pict: bool,
    pub in_textbox: bool,
    /// The paragraph state and the enclosing cell/row flags saved on
    /// entering a text box.
    pub saved: Option<(ParaState, bool, bool)>,
}

/// Whether the images placed so far are well described: the `k`-th has
/// placeholder `__img_k__`, a non-empty file name, and a relationship id
/// whose target ends in that file name.
pub open spec fn images_ok(images: Seq<ImageInfo>, rels: Seq<(String, Relationship)>) -> bool {
    forall|k: int|
        0 <= k < images.len() ==> {
            &&& (#[trigger] images[k]).placeholder@ == placeholder_name(k as nat)
            &&& images[k].filename@.len() > 0
            &&& rel_lookup(rels_view(rels), images[k].bytes_key@) matches Some(p)
                && target_file_name(p.0) == images[k].filename@
        }
}

// ---------------------------------------------------------------------------
// The body scan as plain values
// ---------------------------------------------------------------------------

/// Paragraph-level state as plain values.
pub struct ParaV {
    pub in_paragraph: bool,
    pub in_run: bool,
    pub in_text: bool,
    pub in_run_properties: bool,
    pub kind: KindV,
    pub runs: Seq<(Seq<char>, bool, bool)>,
    pub runs_plain: Seq<(Seq<char>, bool, bool)>,
    pub bold: bool,
    pub italic: bool,
    pub in_hyperlink: bool,
    pub hyperlink_url: Option<Seq<char>>,
    pub hyperlink_runs: Seq<(Seq<char>, bool, bool)>,
    pub hyperlink_runs_plain: Seq<(Seq<char>, bool, bool)>,
    pub in_para_properties: bool,
    pub in_num_pr: bool,
    pub num_id: Option<Seq<char>>,
    pub ilvl: Option<u8>,
}

/// The paragraph state outside any paragraph.
pub open spec fn para_start() -> ParaV {
    ParaV {
        in_paragraph: false,
        in_run: false,
        in_text: false,
        in_run_properties: false,
        kind: KindV::Normal,
        runs: Seq::empty(),
        runs_plain: Seq::empty(),
        bold: false,
        italic: false,
        in_hyperlink: false,
        hyperlink_url: None,
        hyperlink_runs: Seq::empty(),
        hyperlink_runs_plain: Seq::empty(),
        in_para_properties: false,
        in_num_pr: false,
        num_id: None,
        ilvl: None,
    }
}

/// A segment appended to the open hyperlink, or else to the paragraph.
pub open spec fn para_push(p: ParaV, md: Seq<char>, plain: Seq<char>, bold: bool, italic: bool) -> ParaV {
    if p.in_hyperlink {
        ParaV {
            hyperlink_runs: p.hyperlink_runs.push((md, bold, italic)),
            hyperlink_runs_plain: p.hyperlink_runs_plain.push((plain, bold, italic)),
            ..p
        }
    } else {
        ParaV {
            runs: p.runs.push((md, bold, italic)),
            runs_plain: p.runs_plain.push((plain, bold, italic)),
            ..p
        }
    }
}

/// The body scan as plain values.
pub struct BodyV {
    pub output: Seq<char>,
    pub plain_output: Seq<char>,
    pub title: Option<Seq<char>>,
    pub warnings: Seq<(WarningCode, Seq<char>, Option<Seq<char>>)>,
    pub images: Seq<(Seq<char>, Seq<char>, Seq<char>, Seq<char>)>,
    pub in_body: bool,
    pub para: ParaV,
    pub counters: Seq<(Seq<char>, u8, usize)>,
    pub last_was_list: bool,
    pub tables: Seq<TableV>,
    pub in_drawing: bool,
    pub image_alt: Option<Seq<char>>,
    pub image_rel: Option<Seq<char>>,
    pub in_mc_choice: bool,
    pub mc_depth: u32,
    pub in_pict: bool,
    pub in_textbox: bool,
    pub saved: Option<(ParaV, bool, bool)>,
}

/// Nothing scanned yet.
pub open spec fn body_start() -> BodyV {
    BodyV {
        output: Seq::empty(),
        plain_output: Seq::empty(),
        title: None,
        warnings: Seq::empty(),
        images: Seq::empty(),
        in_body: false,
        para: para_start(),
        counters: Seq::empty(),
        last_was_list: false,
        tables: Seq::empty(),
        in_drawing: false,
        image_alt: None,
        image_rel: None,
        in_mc_choice: false,
        mc_depth: 0,
        in_pict: false,
        in_textbox: false,
        saved: None,
    }
}

/// An empty cell: span 1, not merged, no blocks.
pub open spec fn cell_start() -> CellV {
    CellV { grid_span: 1, v_merge: VMerge::NotMerged, blocks: Seq::empty() }
}

/// An empty table.
pub open spec fn table_start() -> TableV {
    TableV {
        rows: Seq::empty(),
        grid_width: 0,
        current_row: RowV { cells: Seq::empty() },
        current_cell: cell_start(),
        in_row: false,
        in_cell: false,
    }
}

/// Whether the innermost table has an open cell.
pub open spec fn top_in_cell(s: BodyV) -> bool {
    s.tables.len() > 0 && s.tables.last().in_cell
}

/// Whether the innermost table has an open row.
pub open spec fn top_in_row(s: BodyV) -> bool {
    s.tables.len() > 0 && s.tables.last().in_row
}

/// The scan with its innermost table replaced by `t`.
pub open spec fn with_top(s: BodyV, t: TableV) -> BodyV {
    BodyV { tables: s.tables.update(s.tables.len() - 1, t), ..s }
}

/// Whether a table-property tag applies to table `t` (see
/// [`apply_table_property`]).
pub open spec fn prop_applies(t: TableV, n: Seq<char>) -> bool {
    (n == "gridCol"@ && !t.in_row) || (n == "gridSpan"@ && t.in_cell) || (n == "vMerge"@ && t.in_cell)
}

/// Table `t` after a table-property tag (see [`apply_table_property`]).
pub open spec fn prop_applied(t: TableV, n: Seq<char>, attrs: Seq<Option<XmlAttr>>) -> TableV {
    let v = attr_by_local(attrs, "val"@);
    TableV {
        grid_width: if n == "gridCol"@ && !t.in_row && t.grid_width < MAX_TABLE_COLS {
            (t.grid_width + 1) as usize
        } else {
            t.grid_width
        },
        current_cell: CellV {
            grid_span: if n == "gridSpan"@ && t.in_cell && grid_span_of(v) is Some {
                grid_span_of(v)->0
            } else {
                t.current_cell.grid_span
            },
            v_merge: if n == "vMerge"@ && t.in_cell {
                vmerge_of(v)
            } else {
                t.current_cell.v_merge
            },
            ..t.current_cell
        },
        ..t
    }
}

/// Whether a table-property tag applies to the innermost table.
pub open spec fn body_prop_applies(s: BodyV, n: Seq<char>) -> bool {
    s.tables.len() > 0 && prop_applies(s.tables.last(), n)
}

/// The last `val` attribute that is not `"0"`, else `cur`.
pub open spec fn last_nonzero_val(attrs: Seq<Option<XmlAttr>>, cur: Option<Seq<char>>) -> Option<
    Seq<char>,
>
    decreases attrs.len(),
{
    if attrs.len() == 0 {
        cur
    } else {
        let prev = last_nonzero_val(attrs.drop_last(), cur);
        match attrs.last() {
            Some(a) => if a.local@ == "val"@ && a.value@ != "0"@ {
                Some(a.value@)
            } else {
                prev
            },
            None => prev,
        }
    }
}

/// The last non-empty `descr` attribute, else `cur`.
pub open spec fn last_descr(attrs: Seq<Option<XmlAttr>>, cur: Option<Seq<char>>) -> Option<Seq<char>>
    decreases attrs.len(),
{
    if attrs.len() == 0 {
        cur
    } else {
        let prev = last_descr(attrs.drop_last(), cur);
        match attrs.last() {
            Some(a) => if a.local@ == "descr"@ && a.value@.len() > 0 {
                Some(a.value@)
            } else {
                prev
            },
            None => prev,
        }
    }
}

/// The paragraph kind a `pStyle` value gives (see [`style_heading`]).
pub open spec fn style_kind(v: Seq<char>, styles: Seq<(Seq<char>, u8)>) -> KindV {
    match style_heading(v, styles) {
        Some(l) => KindV::Heading(l),
        None => KindV::Normal,
    }
}

/// Whether a tag is a paragraph or run property (see [`para_property`]).
pub open spec fn para_property_applies(p: ParaV, n: Seq<char>) -> bool {
    ||| n == "pStyle"@ && p.in_para_properties
    ||| n == "ilvl"@ && p.in_num_pr
    ||| n == "numId"@ && p.in_num_pr
    ||| n == "b"@ && p.in_run_properties
    ||| n == "i"@ && p.in_run_properties
}

/// A paragraph or run property: the paragraph style, list level and
/// numbering, bold and italic.
pub open spec fn para_property(
    p: ParaV,
    n: Seq<char>,
    attrs: Seq<Option<XmlAttr>>,
    styles: Seq<(Seq<char>, u8)>,
) -> ParaV {
    if n == "pStyle"@ && p.in_para_properties {
        match last_attr_by_local(attrs, "val"@) {
            Some(v) => ParaV { kind: style_kind(v, styles), ..p },
            None => p,
        }
    } else if n == "ilvl"@ && p.in_num_pr {
        match last_attr_by_local(attrs, "val"@) {
            Some(v) => ParaV {
                ilvl: match parse_uint_spec(v, 255) {
                    Some(k) => Some(k as u8),
                    None => None,
                },
                ..p
            },
            None => p,
        }
    } else if n == "numId"@ && p.in_num_pr {
        ParaV { num_id: last_nonzero_val(attrs, p.num_id), ..p }
    } else if n == "b"@ && p.in_run_properties {
        ParaV { bold: !val_false(attr_by_local(attrs, "val"@)), ..p }
    } else if n == "i"@ && p.in_run_properties {
        ParaV { italic: !val_false(attr_by_local(attrs, "val"@)), ..p }
    } else {
        p
    }
}

/// A tag that may occur both as a start tag and as an empty tag: a
/// paragraph or run property, or an image's description and
/// relationship.
pub open spec fn property_applied(
    s: BodyV,
    n: Seq<char>,
    attrs: Seq<Option<XmlAttr>>,
    styles: Seq<(Seq<char>, u8)>,
) -> BodyV {
    if para_property_applies(s.para, n) {
        BodyV { para: para_property(s.para, n, attrs, styles), ..s }
    } else if n == "docPr"@ && s.in_drawing {
        BodyV { image_alt: last_descr(attrs, s.image_alt), ..s }
    } else if n == "blip"@ && s.in_drawing {
        match last_attr_by_key(attrs, "r:embed"@, ":embed"@) {
            Some(v) => BodyV { image_rel: Some(v), ..s },
            None => s,
        }
    } else {
        s
    }
}

/// Whether a start tag opens a paragraph, its properties or numbering, a
/// run, its properties or its text (see [`para_open`]).
pub open spec fn para_open_applies(p: ParaV, n: Seq<char>, in_body: bool) -> bool {
    ||| n == "p"@ && in_body
    ||| n == "pPr"@ && p.in_paragraph
    ||| n == "numPr"@ && p.in_para_properties
    ||| n == "r"@ && p.in_paragraph
    ||| n == "rPr"@ && p.in_run
    ||| n == "t"@ && p.in_run
}

/// A start tag of a paragraph part or a run part.
pub open spec fn para_open(p: ParaV, n: Seq<char>, in_body: bool) -> ParaV {
    if n == "p"@ && in_body {
        ParaV {
            in_paragraph: true,
            kind: KindV::Normal,
            runs: Seq::empty(),
            runs_plain: Seq::empty(),
            num_id: None,
            ilvl: None,
            ..p
        }
    } else if n == "pPr"@ && p.in_paragraph {
        ParaV { in_para_properties: true, ..p }
    } else if n == "numPr"@ && p.in_para_properties {
        ParaV { in_num_pr: true, ..p }
    } else if n == "r"@ && p.in_paragraph {
        ParaV { in_run: true, bold: false, italic: false, ..p }
    } else if n == "rPr"@ && p.in_run {
        ParaV { in_run_properties: true, ..p }
    } else if n == "t"@ && p.in_run {
        ParaV { in_text: true, ..p }
    } else {
        p
    }
}

/// Whether an end tag closes a paragraph property, a run part or a
/// hyperlink (see [`para_close`]).
pub open spec fn para_close_applies(p: ParaV, n: Seq<char>) -> bool {
    ||| n == "pPr"@
    ||| n == "numPr"@
    ||| n == "hyperlink"@ && p.in_hyperlink
    ||| n == "rPr"@
    ||| n == "r"@
    ||| n == "t"@
}

/// An end tag of a paragraph property, a run part or a hyperlink.
pub open spec fn para_close(p: ParaV, n: Seq<char>) -> ParaV {
    if n == "pPr"@ {
        ParaV { in_para_properties: false, ..p }
    } else if n == "numPr"@ {
        ParaV { in_num_pr: false, ..p }
    } else if n == "hyperlink"@ && p.in_hyperlink {
        hyperlink_ended(p)
    } else if n == "rPr"@ {
        ParaV { in_run_properties: false, ..p }
    } else if n == "r"@ {
        ParaV { in_run: false, in_text: false, bold: false, italic: false, ..p }
    } else if n == "t"@ {
        ParaV { in_text: false, ..p }
    } else {
        p
    }
}

/// Whether a tag is a VML container inside `w:pict`.
pub open spec fn is_vml(n: Seq<char>) -> bool {
    n == "shape"@ || n == "rect"@ || n == "roundrect"@ || n == "textbox"@ || n == "group"@
}

/// The warning for a hyperlink relationship that is not in the rels.
pub open spec fn link_warning(rid: Seq<char>) -> (WarningCode, Seq<char>, Option<Seq<char>>) {
    (WarningCode::SkippedElement, "hyperlink relationship '"@ + rid + "' not found in rels"@, Some(rid))
}

/// The hyperlink URL and warnings after the `r:id`-like attributes of a
/// `w:hyperlink` tag: each one sets the URL to its relationship's target,
/// or clears it with a warning when there is none.
pub open spec fn link_scan(
    attrs: Seq<Option<XmlAttr>>,
    rels: Seq<(Seq<char>, Seq<char>, Seq<char>)>,
    url: Option<Seq<char>>,
    warnings: Seq<(WarningCode, Seq<char>, Option<Seq<char>>)>,
) -> (Option<Seq<char>>, Seq<(WarningCode, Seq<char>, Option<Seq<char>>)>)
    decreases attrs.len(),
{
    if attrs.len() == 0 {
        (url, warnings)
    } else {
        let prev = link_scan(attrs.drop_last(), rels, url, warnings);
        match attrs.last() {
            Some(a) => if a.key@ == "r:id"@ || has_suffix(a.key@, ":id"@) {
                match rel_lookup(rels, a.value@) {
                    Some(p) => (Some(p.0), prev.1),
                    None => (None, prev.1.push(link_warning(a.value@))),
                }
            } else {
                prev
            },
            None => prev,
        }
    }
}

/// Saving the paragraph state on entering a text box, detached from any
/// enclosing table cell.
pub open spec fn textbox_entered(s: BodyV) -> BodyV {
    let flags = if s.tables.len() > 0 {
        (s.tables.last().in_cell, s.tables.last().in_row)
    } else {
        (false, false)
    };
    let s1 = if s.tables.len() > 0 {
        with_top(s, TableV { in_cell: false, in_row: false, ..s.tables.last() })
    } else {
        s
    };
    BodyV { para: para_start(), saved: Some((s.para, flags.0, flags.1)), in_textbox: true, ..s1 }
}

/// Restoring the paragraph state on leaving a text box.
pub open spec fn textbox_left(s: BodyV) -> BodyV {
    match s.saved {
        Some((p, c, r)) => {
            let s1 = BodyV { in_textbox: false, saved: None, para: p, ..s };
            if s.tables.len() > 0 {
                with_top(s1, TableV { in_cell: c, in_row: r, ..s.tables.last() })
            } else {
                s1
            }
        },
        None => BodyV { in_textbox: false, saved: None, ..s },
    }
}

/// A start tag in the body proper (after markup-compatibility, VML and
/// table-property tags).
pub open spec fn body_open(
    s: BodyV,
    e: XmlElement,
    styles: Seq<(Seq<char>, u8)>,
    rels: Seq<(Seq<char>, Seq<char>, Seq<char>)>,
) -> BodyV {
    let n = e.name@;
    let p = s.para;
    if n == "body"@ {
        BodyV { in_body: true, ..s }
    } else if n == "tbl"@ && s.in_body {
        BodyV { tables: s.tables.push(table_start()), ..s }
    } else if n == "tr"@ && s.tables.len() > 0 {
        with_top(s, TableV { in_row: true, current_row: RowV { cells: Seq::empty() }, ..s.tables.last() })
    } else if n == "tc"@ && top_in_row(s) {
        with_top(s, TableV { in_cell: true, current_cell: cell_start(), ..s.tables.last() })
    } else if para_open_applies(p, n, s.in_body) {
        BodyV { para: para_open(p, n, s.in_body), ..s }
    } else if n == "hyperlink"@ && p.in_paragraph {
        let l = link_scan(e.attrs@, rels, None, s.warnings);
        BodyV {
            para: ParaV {
                in_hyperlink: true,
                hyperlink_runs: Seq::empty(),
                hyperlink_runs_plain: Seq::empty(),
                hyperlink_url: l.0,
                ..p
            },
            warnings: l.1,
            ..s
        }
    } else if n == "drawing"@ && p.in_run {
        BodyV { in_drawing: true, image_alt: None, image_rel: None, ..s }
    } else {
        property_applied(s, n, e.attrs@, styles)
    }
}

/// A start tag: inside an `mc:Choice` branch only the depth changes;
/// `mc:AlternateContent` and `mc:Fallback` are transparent.
pub open spec fn scan_start_tag(
    s: BodyV,
    e: XmlElement,
    styles: Seq<(Seq<char>, u8)>,
    rels: Seq<(Seq<char>, Seq<char>, Seq<char>)>,
) -> BodyV {
    let n = e.name@;
    if s.in_mc_choice {
        BodyV { mc_depth: sat_inc32(s.mc_depth), ..s }
    } else if n == "AlternateContent"@ || n == "Fallback"@ {
        s
    } else if n == "Choice"@ {
        BodyV { in_mc_choice: true, mc_depth: 1, ..s }
    } else if n == "pict"@ && s.para.in_run {
        BodyV { in_pict: true, ..s }
    } else if n == "txbxContent"@ && s.in_pict {
        textbox_entered(s)
    } else if s.in_pict && is_vml(n) {
        s
    } else if body_prop_applies(s, n) {
        with_top(s, prop_applied(s.tables.last(), n, e.attrs@))
    } else {
        body_open(s, e, styles, rels)
    }
}

/// `d + 1`, held at `u32::MAX`.
pub open spec fn sat_inc32(d: u32) -> u32 {
    if d == u32::MAX {
        d
    } else {
        (d + 1) as u32
    }
}

/// An empty-element tag.
pub open spec fn scan_empty_tag(s: BodyV, e: XmlElement, styles: Seq<(Seq<char>, u8)>) -> BodyV {
    let n = e.name@;
    if s.in_mc_choice {
        s
    } else if body_prop_applies(s, n) {
        with_top(s, prop_applied(s.tables.last(), n, e.attrs@))
    } else if n == "br"@ && s.para.in_run {
        BodyV { para: para_push(s.para, seq!['\n'], seq!['\n'], false, false), ..s }
    } else {
        property_applied(s, n, e.attrs@, styles)
    }
}

/// Character data: it goes to the open text of a run, with the run's
/// formatting.
pub open spec fn scan_text(s: BodyV, t: Seq<char>) -> BodyV {
    if s.in_mc_choice {
        s
    } else if s.para.in_text && s.para.in_run {
        BodyV { para: para_push(s.para, t, t, s.para.bold, s.para.italic), ..s }
    } else {
        s
    }
}

/// What a table with view `t` renders to (see [`table_render`]).
pub open spec fn rendered(t: TableV, plain: bool) -> Seq<char> {
    table_render(table_with_view(t), plain)
}

/// The resource-limit warnings rendering a table with view `t` adds.
pub open spec fn table_warns(t: TableV) -> Seq<(WarningCode, Seq<char>, Option<Seq<char>>)> {
    table_warnings(table_with_view(t)).map_values(
        |m: Seq<char>| (WarningCode::ResourceLimitReached, m, None::<Seq<char>>),
    )
}

/// The end of a table: one with content is rendered, into the enclosing
/// cell as a nested-table block or into the document.
pub open spec fn table_ended(s: BodyV) -> BodyV {
    let t = s.tables.last();
    let rest = BodyV { tables: s.tables.drop_last(), last_was_list: false, ..s };
    let has = table_has_content(table_with_view(t));
    let md = if has {
        rendered(t, false)
    } else {
        Seq::empty()
    };
    let plain = if has {
        rendered(t, true)
    } else {
        Seq::empty()
    };
    let s1 = if has {
        BodyV { warnings: rest.warnings + table_warns(t), ..rest }
    } else {
        rest
    };
    if top_in_cell(s1) {
        if has && md.len() > 0 {
            let top = s1.tables.last();
            with_top(
                s1,
                TableV {
                    current_cell: CellV {
                        blocks: top.current_cell.blocks.push(BlockV { md, plain, is_table: true }),
                        ..top.current_cell
                    },
                    ..top
                },
            )
        } else {
            s1
        }
    } else if has && md.len() > 0 {
        BodyV {
            output: s1.output + md + seq!['\n'],
            plain_output: s1.plain_output + plain + seq!['\n'],
            ..s1
        }
    } else {
        s1
    }
}

/// The kind a paragraph ends with: a list item when it has numbering.
pub open spec fn final_kind(p: ParaV, instances: Seq<(Seq<char>, Seq<char>)>, levels: Seq<(Seq<char>, u8, bool)>) -> KindV {
    match (p.num_id, p.ilvl) {
        (Some(num), Some(lvl)) => KindV::ListItem {
            ordered: match numbering_ordered(instances, levels, num, lvl) {
                Some(o) => o,
                None => false,
            },
            level: lvl,
            num_id: num,
        },
        _ => p.kind,
    }
}

/// A finished paragraph of kind `s.para.kind` placed: buffered into the
/// open table cell, or emitted into the document (see [`paragraph_md`]).
pub open spec fn paragraph_placed(s: BodyV) -> BodyV {
    let kind = s.para.kind;
    let text = runs_md(s.para.runs);
    let plain = runs_plain(s.para.runs_plain);
    if top_in_cell(s) {
        let top = s.tables.last();
        with_top(
            s,
            TableV {
                current_cell: CellV {
                    blocks: top.current_cell.blocks.push(BlockV { md: text, plain, is_table: false }),
                    ..top.current_cell
                },
                ..top
            },
        )
    } else {
        BodyV {
            output: s.output + paragraph_md(
                kind,
                text,
                s.last_was_list,
                item_number(kind, s.counters),
            ),
            plain_output: s.plain_output + paragraph_plain(kind, text, plain, s.last_was_list),
            title: title_after(s.title, kind, text, plain),
            counters: counters_after(kind, text, s.counters),
            last_was_list: kind is ListItem,
            ..s
        }
    }
}

/// The paragraph state once a paragraph has ended.
pub open spec fn para_closed(p: ParaV) -> ParaV {
    ParaV {
        in_paragraph: false,
        runs: Seq::empty(),
        runs_plain: Seq::empty(),
        num_id: None,
        ilvl: None,
        ..p
    }
}

/// The end of a paragraph: a list item when it has numbering (see
/// [`final_kind`]), then placed (see [`paragraph_placed`]).
pub open spec fn paragraph_ended(
    s: BodyV,
    instances: Seq<(Seq<char>, Seq<char>)>,
    levels: Seq<(Seq<char>, u8, bool)>,
) -> BodyV {
    let s1 = BodyV { para: ParaV { kind: final_kind(s.para, instances, levels), ..s.para }, ..s };
    let s2 = paragraph_placed(s1);
    BodyV { para: para_closed(s2.para), ..s2 }
}

/// The end of a hyperlink: its text becomes one segment, `[text](url)` in
/// Markdown when the URL is known.
pub open spec fn hyperlink_ended(p: ParaV) -> ParaV {
    let text = runs_md(p.hyperlink_runs);
    let md = match p.hyperlink_url {
        Some(u) => seq!['['] + text + seq![']', '('] + u + seq![')'],
        None => text,
    };
    ParaV {
        runs: p.runs.push((md, false, false)),
        runs_plain: p.runs_plain.push((runs_plain(p.hyperlink_runs_plain), false, false)),
        in_hyperlink: false,
        hyperlink_runs: Seq::empty(),
        hyperlink_runs_plain: Seq::empty(),
        hyperlink_url: None,
        ..p
    }
}

/// The warning for an image relationship that is not in the rels.
pub open spec fn image_warning(rid: Seq<char>) -> (WarningCode, Seq<char>, Option<Seq<char>>) {
    (WarningCode::SkippedElement, "image relationship '"@ + rid + "' not found in rels"@, Some(rid))
}

/// The end of a drawing: an image whose relationship names a file is
/// placed as `![__img_n__](file)`; otherwise a warning.
pub open spec fn drawing_ended(s: BodyV, rels: Seq<(Seq<char>, Seq<char>, Seq<char>)>) -> BodyV {
    let s0 = BodyV { in_drawing: false, image_alt: None, image_rel: None, ..s };
    match s.image_rel {
        Some(rid) => {
            let fname = match rel_lookup(rels, rid) {
                Some(p) => target_file_name(p.0),
                None => Seq::empty(),
            };
            if fname.len() > 0 {
                let alt = match s.image_alt {
                    Some(a) => a,
                    None => Seq::empty(),
                };
                let ph = placeholder_name(s.images.len());
                BodyV {
                    images: s.images.push((ph, alt, fname, rid)),
                    para: para_push(s.para, image_md(ph, fname), ph, false, false),
                    ..s0
                }
            } else {
                BodyV { warnings: s.warnings.push(image_warning(rid)), ..s0 }
            }
        },
        None => s0,
    }
}

/// An end tag in the body proper.
pub open spec fn body_close(
    s: BodyV,
    n: Seq<char>,
    rels: Seq<(Seq<char>, Seq<char>, Seq<char>)>,
    instances: Seq<(Seq<char>, Seq<char>)>,
    levels: Seq<(Seq<char>, u8, bool)>,
) -> BodyV {
    let p = s.para;
    if n == "body"@ {
        BodyV { in_body: false, ..s }
    } else if n == "tbl"@ && s.tables.len() > 0 {
        table_ended(s)
    } else if n == "tr"@ && top_in_row(s) {
        let t = s.tables.last();
        with_top(
            s,
            TableV { rows: t.rows.push(t.current_row), current_row: RowV { cells: Seq::empty() }, in_row: false, ..t },
        )
    } else if n == "tc"@ && top_in_cell(s) {
        let t = s.tables.last();
        with_top(
            s,
            TableV {
                current_row: RowV { cells: t.current_row.cells.push(t.current_cell) },
                current_cell: cell_start(),
                in_cell: false,
                ..t
            },
        )
    } else if n == "p"@ && p.in_paragraph {
        paragraph_ended(s, instances, levels)
    } else if para_close_applies(p, n) {
        BodyV { para: para_close(p, n), ..s }
    } else if n == "drawing"@ && s.in_drawing {
        drawing_ended(s, rels)
    } else {
        s
    }
}

/// An end tag.
pub open spec fn scan_end_tag(
    s: BodyV,
    n: Seq<char>,
    rels: Seq<(Seq<char>, Seq<char>, Seq<char>)>,
    instances: Seq<(Seq<char>, Seq<char>)>,
    levels: Seq<(Seq<char>, u8, bool)>,
) -> BodyV {
    if s.in_mc_choice {
        let d = (s.mc_depth - 1) as u32;
        BodyV { mc_depth: d, in_mc_choice: d != 0, ..s }
    } else if n == "AlternateContent"@ || n == "Fallback"@ {
        s
    } else if n == "txbxContent"@ && s.in_textbox {
        textbox_left(s)
    } else if n == "pict"@ && s.in_pict {
        BodyV { in_pict: false, ..s }
    } else if s.in_pict && is_vml(n) {
        s
    } else {
        body_close(s, n, rels, instances, levels)
    }
}

/// One token of the body.
pub open spec fn body_step(
    s: BodyV,
    t: XmlToken,
    styles: Seq<(Seq<char>, u8)>,
    rels: Seq<(Seq<char>, Seq<char>, Seq<char>)>,
    instances: Seq<(Seq<char>, Seq<char>)>,
    levels: Seq<(Seq<char>, u8, bool)>,
) -> BodyV {
    match t {
        XmlToken::Start(e) => scan_start_tag(s, e, styles, rels),
        XmlToken::Empty(e) => scan_empty_tag(s, e, styles),
        XmlToken::End(n) => scan_end_tag(s, n@, rels, instances, levels),
        _ => match token_text(t) {
            Some(x) => scan_text(s, x),
            None => s,
        },
    }
}

/// The body scan after `tokens`.
pub open spec fn body_fold(
    tokens: Seq<XmlToken>,
    styles: Seq<(Seq<char>, u8)>,
    rels: Seq<(Seq<char>, Seq<char>, Seq<char>)>,
    instances: Seq<(Seq<char>, Seq<char>)>,
    levels: Seq<(Seq<char>, u8, bool)>,
) -> BodyV
    decreases tokens.len(),
{
    if tokens.len() == 0 {
        body_start()
    } else {
        body_step(body_fold(tokens.drop_last(), styles, rels, instances, levels), tokens.last(), styles, rels, instances, levels)
    }
}

/// Whether a tag is one of the VML containers inside `w:pict`.
fn is_vml_container(name: &[char]) -> (r: bool)
    ensures
        r == is_vml(name@),
{
    eq_str(name, "shape") || eq_str(name, "rect") || eq_str(name, "roundrect") || eq_str(
        name,
        "textbox",
    ) || eq_str(name, "group")
}

/// A copy of a string with the same view.
fn copy_string(s: &String) -> (r: String)
    ensures
        r@ == s@,
{
    let c = chars_of(s.as_str());
    string_from_chars(c.as_slice())
}

/// The last `val` attribute that is not `"0"` (see [`last_nonzero_val`]).
fn nonzero_num_id(attrs: &Vec<Option<XmlAttr>>, current: Option<String>) -> (r: Option<String>)
    ensures
        opt_str(r) == last_nonzero_val(attrs@, opt_str(current)),
{
    let mut cur = current;
    let mut i: usize = 0;
    while i < attrs.len()
        invariant
            i <= attrs.len(),
            opt_str(cur) == last_nonzero_val(attrs@.subrange(0, i as int), opt_str(current)),
        decreases attrs.len() - i,
    {
        assert(attrs@.subrange(0, i + 1).drop_last() =~= attrs@.subrange(0, i as int));
        match &attrs[i] {
            Some(a) => {
                let k = chars_of(a.local.as_str());
                if eq_str(k.as_slice(), "val") {
                    let v = chars_of(a.value.as_str());
                    if !eq_str(v.as_slice(), "0") {
                        cur = Some(copy_string(&a.value));
                    }
                }
            },
            None => {},
        }
        i = i + 1;
    }
    assert(attrs@.subrange(0, attrs.len() as int) =~= attrs@);
    cur
}

/// The last non-empty `descr` attribute (see [`last_descr`]).
fn image_description(attrs: &Vec<Option<XmlAttr>>, current: Option<String>) -> (r: Option<String>)
    ensures
        opt_str(r) == last_descr(attrs@, opt_str(current)),
{
    let mut cur = current;
    let mut i: usize = 0;
    while i < attrs.len()
        invariant
            i <= attrs.len(),
            opt_str(cur) == last_descr(attrs@.subrange(0, i as int), opt_str(current)),
        decreases attrs.len() - i,
    {
        assert(attrs@.subrange(0, i + 1).drop_last() =~= attrs@.subrange(0, i as int));
        match &attrs[i] {
            Some(a) => {
                let k = chars_of(a.local.as_str());
                let v = chars_of(a.value.as_str());
                if eq_str(k.as_slice(), "descr") && v.len() > 0 {
                    cur = Some(copy_string(&a.value));
                }
            },
            None => {},
        }
        i = i + 1;
    }
    assert(attrs@.subrange(0, attrs.len() as int) =~= attrs@);
    cur
}

/// The hyperlink URL of a `w:hyperlink` tag's `r:id`-like attributes,
/// with a warning for each one whose relationship is missing (see
/// [`link_scan`]).
fn link_target(
    attrs: &Vec<Option<XmlAttr>>,
    rels: &Vec<(String, Relationship)>,
    warnings: &mut Vec<ConversionWarning>,
) -> (url: Option<String>)
    ensures
        (opt_str(url), warns_view(final(warnings)@)) == link_scan(
            attrs@,
            rels_view(rels@),
            None,
            warns_view(old(warnings)@),
        ),
{
    let mut url: Option<String> = None;
    let mut i: usize = 0;
    while i < attrs.len()
        invariant
            i <= attrs.len(),
            (opt_str(url), warns_view(warnings@)) == link_scan(
                attrs@.subrange(0, i as int),
                rels_view(rels@),
                None,
                warns_view(old(warnings)@),
            ),
        decreases attrs.len() - i,
    {
        assert(attrs@.subrange(0, i + 1).drop_last() =~= attrs@.subrange(0, i as int));
        match &attrs[i] {
            Some(a) => {
                let k = chars_of(a.key.as_str());
                if eq_str(k.as_slice(), "r:id") || crate::text::ends_with_str(k.as_slice(), ":id") {
                    let ghost before = warnings@;
                    url = resolve_hyperlink_url(a.value.as_str(), rels, warnings);
                    proof {
                        if warnings@.len() > before.len() {
                            assert(warns_view(warnings@) =~= warns_view(before).push(
                                link_warning(a.value@),
                            )) by {
                                assert(warnings@.drop_last() == before);
                                assert forall|j: int| 0 <= j < before.len() implies warns_view(
                                    warnings@,
                                )[j] == warns_view(before)[j] by {
                                    assert(warnings@[j] == before[j]);
                                }
                            }
                        }
                    }
                }
            },
            None => {},
        }
        i = i + 1;
    }
    assert(attrs@.subrange(0, attrs.len() as int) =~= attrs@);
    url
}

/// The views of some tables.
pub open spec fn tables_view(v: Seq<DocxTable>) -> Seq<TableV> {
    v.map_values(|t: DocxTable| t@)
}

impl View for BodyScan {
    type V = BodyV;

    open spec fn view(&self) -> BodyV {
        BodyV {
            output: self.output@,
            plain_output: self.plain_output@,
            title: opt_chars(self.title),
            warnings: warns_view(self.warnings@),
            images: imgs_view(self.images@),
            in_body: self.in_body,
            para: self.para@,
            counters: counters_view(self.counters@),
            last_was_list: self.last_was_list,
            tables: tables_view(self.tables@),
            in_drawing: self.in_drawing,
            image_alt: opt_str(self.image_alt),
            image_rel: opt_str(self.image_rel),
            in_mc_choice: self.in_mc_choice,
            mc_depth: self.mc_depth,
            in_pict: self.in_pict,
            in_textbox: self.in_textbox,
            saved: match self.saved {
                Some((p, c, r)) => Some((p@, c, r)),
                None => None,
            },
        }
    }
}

impl BodyScan {
    /// The state before the first token.
    pub fn new() -> (s: BodyScan)
        ensures
            s@ == body_start(),
            s.images@.len() == 0,
            !s.in_mc_choice,
    {
        let s = BodyScan {
            output: Vec::new(),
            plain_output: Vec::new(),
            title: None,
            warnings: Vec::new(),
            images: Vec::new(),
            in_body: false,
            para: ParaState::new(),
            counters: Vec::new(),
            last_was_list: false,
            tables: Vec::new(),
            in_drawing: false,
            image_alt: None,
            image_rel: None,
            in_mc_choice: false,
            mc_depth: 0,
            in_pict: false,
            in_textbox: false,
            saved: None,
        };
        assert(warns_view(s.warnings@) =~= Seq::empty());
        assert(imgs_view(s.images@) =~= Seq::empty());
        assert(counters_view(s.counters@) =~= Seq::empty());
        assert(tables_view(s.tables@) =~= Seq::empty());
        assert(s.output@ =~= Seq::empty());
        assert(s.plain_output@ =~= Seq::empty());
        s
    }

    /// Whether the scan's depth counter covers the open `mc:Choice`.
    pub open spec fn mc_ok(&self) -> bool {
        self.in_mc_choice ==> self.mc_depth >= 1
    }

    /// Whether the innermost table has an open cell.
    fn top_in_cell(&self) -> (r: bool)
        ensures
            r == top_in_cell(self@),
    {
        let n = self.tables.len();
        proof {
            if n > 0 {
                assert(tables_view(self.tables@).last() == self.tables@.last()@);
            }
        }
        n > 0 && self.tables[n - 1].in_cell
    }

    /// Whether the innermost table has an open row.
    fn top_in_row(&self) -> (r: bool)
        ensures
            r == top_in_row(self@),
    {
        let n = self.tables.len();
        proof {
            if n > 0 {
                assert(tables_view(self.tables@).last() == self.tables@.last()@);
            }
        }
        n > 0 && self.tables[n - 1].in_row
    }

    /// Takes the innermost table out.
    fn pop_table(&mut self) -> (t: DocxTable)
        requires
            old(self).tables@.len() > 0,
        ensures
            t@ == old(self)@.tables.last(),
            final(self)@ == (BodyV { tables: old(self)@.tables.drop_last(), ..old(self)@ }),
            final(self).images == old(self).images,
            final(self).in_mc_choice == old(self).in_mc_choice,
            final(self).mc_depth == old(self).mc_depth,
    {
        let ghost tv = tables_view(self.tables@);
        let t = self.tables.pop().unwrap();
        assert(tables_view(self.tables@) =~= tv.drop_last());
        t
    }

    /// Puts a table back as the innermost one.
    fn push_table(&mut self, t: DocxTable)
        ensures
            final(self)@ == (BodyV { tables: old(self)@.tables.push(t@), ..old(self)@ }),
            final(self).images == old(self).images,
            final(self).in_mc_choice == old(self).in_mc_choice,
            final(self).mc_depth == old(self).mc_depth,
    {
        let ghost tv = tables_view(self.tables@);
        let ghost v = t@;
        self.tables.push(t);
        assert(tables_view(self.tables@) =~= tv.push(v));
    }

    /// Applies a table-property tag to the innermost table, if any.
    fn table_property(&mut self, name: &[char], attrs: &Vec<Option<XmlAttr>>) -> (r: bool)
        ensures
            r == body_prop_applies(old(self)@, name@),
            final(self)@ == (if r {
                with_top(old(self)@, prop_applied(old(self)@.tables.last(), name@, attrs@))
            } else {
                old(self)@
            }),
            final(self).images == old(self).images,
            final(self).in_mc_choice == old(self).in_mc_choice,
            final(self).mc_depth == old(self).mc_depth,
    {
        if self.tables.len() == 0 {
            return false;
        }
        let mut f = self.pop_table();
        let ghost fv = f@;
        let r = apply_table_property(name, attrs, &mut f);
        assert(f@.rows == fv.rows);
        assert(f@.current_cell.blocks == fv.current_cell.blocks);
        assert(f@ == (if r {
            prop_applied(fv, name@, attrs@)
        } else {
            fv
        }));
        self.push_table(f);
        assert(old(self)@.tables.drop_last().push(f@) =~= (if r {
            with_top(old(self)@, prop_applied(fv, name@, attrs@))
        } else {
            old(self)@
        }).tables);
        r
    }

    /// Saves and resets the paragraph state on entering a text box, which
    /// is detached from any enclosing table cell.
    fn enter_textbox(&mut self)
        ensures
            final(self)@ == textbox_entered(old(self)@),
            final(self).images == old(self).images,
            final(self).in_mc_choice == old(self).in_mc_choice,
            final(self).mc_depth == old(self).mc_depth,
    {
        let mut fresh = ParaState::new();
        std::mem::swap(&mut fresh, &mut self.para);
        let mut in_cell = false;
        let mut in_row = false;
        if self.tables.len() > 0 {
            let mut f = self.pop_table();
            in_cell = f.in_cell;
            in_row = f.in_row;
            f.in_cell = false;
            f.in_row = false;
            self.push_table(f);
            assert(self@.tables =~= with_top(old(self)@, TableV {
                in_cell: false,
                in_row: false,
                ..old(self)@.tables.last()
            }).tables);
        }
        self.saved = Some((fresh, in_cell, in_row));
        self.in_textbox = true;
    }

    /// Restores the paragraph state on leaving a text box.
    fn leave_textbox(&mut self)
        ensures
            final(self)@ == textbox_left(old(self)@),
            final(self).images == old(self).images,
            final(self).in_mc_choice == old(self).in_mc_choice,
            final(self).mc_depth == old(self).mc_depth,
    {
        self.in_textbox = false;
        let saved = self.saved.take();
        match saved {
            Some((p, in_cell, in_row)) => {
                self.para = p;
                if self.tables.len() > 0 {
                    let mut f = self.pop_table();
                    f.in_cell = in_cell;
                    f.in_row = in_row;
                    self.push_table(f);
                    assert(self@.tables =~= with_top(old(self)@, TableV {
                        in_cell,
                        in_row,
                        ..old(self)@.tables.last()
                    }).tables);
                }
            },
            None => {},
        }
    }

    /// A tag that may occur both as a start tag and as an empty tag (see
    /// [`property_applied`]).
    fn property_tag(&mut self, name: &[char], attrs: &Vec<Option<XmlAttr>>, styles: &StyleTable)
        ensures
            final(self)@ == property_applied(old(self)@, name@, attrs@, styles_view(styles@)),
            final(self).images == old(self).images,
            final(self).in_mc_choice == old(self).in_mc_choice,
            final(self).mc_depth == old(self).mc_depth,
    {
        if self.para.property(name, attrs, styles) {
            return ;
        }
        if eq_str(name, "docPr") && self.in_drawing {
            let cur = self.image_alt.take();
            self.image_alt = image_description(attrs, cur);
        } else if eq_str(name, "blip") && self.in_drawing {
            match find_last_attr_key(attrs, "r:embed", ":embed") {
                Some(v) => {
                    self.image_rel = Some(v);
                },
                None => {},
            }
        }
    }

    /// A start tag for a paragraph part, a run part or a drawing.
    fn open_para_tag(
        &mut self,
        name: &[char],
        e: &XmlElement,
        styles: &StyleTable,
        rels: &Vec<(String, Relationship)>,
    )
        requires
            name@ == e.name@,
            !(name@ == "body"@),
            !(name@ == "tbl"@ && old(self)@.in_body),
            !(name@ == "tr"@ && old(self)@.tables.len() > 0),
            !(name@ == "tc"@ && top_in_row(old(self)@)),
        ensures
            final(self)@ == body_open(old(self)@, *e, styles_view(styles@), rels_view(rels@)),
            final(self).images == old(self).images,
            final(self).in_mc_choice == old(self).in_mc_choice,
            final(self).mc_depth == old(self).mc_depth,
    {
        let ghost s0 = self@;
        if self.para.open_tag(name, self.in_body) {
            assert(self@ == BodyV { para: para_open(s0.para, name@, s0.in_body), ..s0 });
            return ;
        }
        assert(self@ == s0);
        self.open_other_tag(name, e, styles, rels);
    }

    /// A start tag for a hyperlink, a drawing or a property.
    fn open_other_tag(
        &mut self,
        name: &[char],
        e: &XmlElement,
        styles: &StyleTable,
        rels: &Vec<(String, Relationship)>,
    )
        requires
            name@ == e.name@,
            !(name@ == "body"@),
            !(name@ == "tbl"@ && old(self)@.in_body),
            !(name@ == "tr"@ && old(self)@.tables.len() > 0),
            !(name@ == "tc"@ && top_in_row(old(self)@)),
            !para_open_applies(old(self)@.para, name@, old(self)@.in_body),
        ensures
            final(self)@ == body_open(old(self)@, *e, styles_view(styles@), rels_view(rels@)),
            final(self).images == old(self).images,
            final(self).in_mc_choice == old(self).in_mc_choice,
            final(self).mc_depth == old(self).mc_depth,
    {
        if eq_str(name, "hyperlink") && self.para.in_paragraph {
            self.para.in_hyperlink = true;
            self.para.clear_link_runs();
            self.para.hyperlink_url = link_target(&e.attrs, rels, &mut self.warnings);
        } else if eq_str(name, "drawing") && self.para.in_run {
            self.in_drawing = true;
            self.image_alt = None;
            self.image_rel = None;
        } else {
            self.property_tag(name, &e.attrs, styles);
        }
    }

    /// A start tag in the body proper (see [`body_open`]).
    fn open_body_tag(
        &mut self,
        name: &[char],
        e: &XmlElement,
        styles: &StyleTable,
        rels: &Vec<(String, Relationship)>,
    )
        requires
            name@ == e.name@,
        ensures
            final(self)@ == body_open(old(self)@, *e, styles_view(styles@), rels_view(rels@)),
            final(self).images == old(self).images,
            final(self).in_mc_choice == old(self).in_mc_choice,
            final(self).mc_depth == old(self).mc_depth,
    {
        if eq_str(name, "body") {
            self.in_body = true;
        } else if eq_str(name, "tbl") && self.in_body {
            let t = DocxTable::default();
            assert(t@ == table_start()) by {
                assert(rows_view(t.rows@) =~= Seq::empty());
                assert(crate::converter::docx::cells_view(t.current_row.cells@) =~= Seq::empty());
                assert(crate::converter::docx::blocks_view(t.current_cell.blocks@) =~= Seq::empty());
            }
            self.push_table(t);
        } else if eq_str(name, "tr") && self.tables.len() > 0 {
            let mut f = self.pop_table();
            f.in_row = true;
            f.current_row = DocxRow::default();
            assert(crate::converter::docx::cells_view(f.current_row.cells@) =~= Seq::empty());
            self.push_table(f);
            assert(self@.tables =~= with_top(old(self)@, TableV {
                in_row: true,
                current_row: RowV { cells: Seq::empty() },
                ..old(self)@.tables.last()
            }).tables);
        } else if eq_str(name, "tc") && self.top_in_row() {
            let mut f = self.pop_table();
            f.in_cell = true;
            f.current_cell = DocxCell::default();
            assert(crate::converter::docx::blocks_view(f.current_cell.blocks@) =~= Seq::empty());
            self.push_table(f);
            assert(self@.tables =~= with_top(old(self)@, TableV {
                in_cell: true,
                current_cell: cell_start(),
                ..old(self)@.tables.last()
            }).tables);
        } else {
            self.open_para_tag(name, e, styles, rels);
        }
    }

    /// A start tag (see [`scan_start_tag`]).
    fn start_tag(
        &mut self,
        e: &XmlElement,
        styles: &StyleTable,
        rels: &Vec<(String, Relationship)>,
    )
        requires
            old(self).mc_ok(),
        ensures
            final(self).mc_ok(),
            final(self).images == old(self).images,
            final(self)@ == scan_start_tag(old(self)@, *e, styles_view(styles@), rels_view(rels@)),
    {
        if self.in_mc_choice {
            self.mc_depth = if self.mc_depth < u32::MAX {
                self.mc_depth + 1
            } else {
                self.mc_depth
            };
            return ;
        }
        let n = chars_of(e.name.as_str());
        let name = n.as_slice();
        if eq_str(name, "AlternateContent") || eq_str(name, "Fallback") {
            return ;
        }
        if eq_str(name, "Choice") {
            self.in_mc_choice = true;
            self.mc_depth = 1;
            return ;
        }
        if eq_str(name, "pict") && self.para.in_run {
            self.in_pict = true;
            return ;
        }
        if eq_str(name, "txbxContent") && self.in_pict {
            self.enter_textbox();
            return ;
        }
        if self.in_pict && is_vml_container(name) {
            return ;
        }
        if self.table_property(name, &e.attrs) {
            return ;
        }
        self.open_body_tag(name, e, styles, rels);
    }

    /// An empty-element tag (see [`scan_empty_tag`]).
    fn empty_tag(&mut self, e: &XmlElement, styles: &StyleTable)
        requires
            old(self).mc_ok(),
        ensures
            final(self).mc_ok(),
            final(self).images == old(self).images,
            final(self)@ == scan_empty_tag(old(self)@, *e, styles_view(styles@)),
    {
        if self.in_mc_choice {
            return ;
        }
        let n = chars_of(e.name.as_str());
        let name = n.as_slice();
        if self.table_property(name, &e.attrs) {
            return ;
        }
        if eq_str(name, "br") && self.para.in_run {
            let nl: Vec<char> = vec!['\n'];
            assert(nl@ =~= seq!['\n']);
            self.para.push(nl.as_slice(), nl.as_slice(), false, false);
        } else {
            self.property_tag(name, &e.attrs, styles);
        }
    }

    /// Character data (see [`scan_text`]).
    fn text(&mut self, t: &[char])
        requires
            old(self).mc_ok(),
        ensures
            final(self).mc_ok(),
            final(self).images == old(self).images,
            final(self)@ == scan_text(old(self)@, t@),
    {
        if self.in_mc_choice {
            return ;
        }
        if self.para.in_text && self.para.in_run {
            let b = self.para.bold;
            let i = self.para.italic;
            self.para.push(t, t, b, i);
        }
    }

    /// The end of a table (see [`table_ended`]).
    fn end_table(&mut self)
        requires
            old(self).tables@.len() > 0,
        ensures
            final(self)@ == table_ended(old(self)@),
            final(self).images == old(self).images,
            final(self).in_mc_choice == old(self).in_mc_choice,
            final(self).mc_depth == old(self).mc_depth,
    {
        let table = self.pop_table();
        proof {
            lemma_table_with_view(table);
        }
        self.last_was_list = false;
        let ghost s1 = self@;
        let has_content = docx_table_has_content(&table);
        let ghost before = self.warnings@;
        let (md, plain) = if has_content {
            render_docx_table(&table, &mut self.warnings)
        } else {
            (String::new(), String::new())
        };
        proof {
            if has_content {
                let msgs = table_warnings(table);
                assert(warns_view(self.warnings@) =~= warns_view(before) + table_warns(table@)) by {
                    assert forall|j: int| 0 <= j < before.len() implies warns_view(self.warnings@)[j]
                        == warns_view(before)[j] by {
                        assert(self.warnings@.subrange(0, before.len() as int)[j] == before[j]);
                    }
                    assert forall|j: int| 0 <= j < msgs.len() implies warns_view(self.warnings@)[before.len() + j]
                        == table_warns(table@)[j] by {
                        assert(self.warnings@[before.len() + j].message@ == msgs[j]);
                    }
                }
            }
        }
        let ghost s2 = self@;
        let mdc = chars_of(md.as_str());
        if self.top_in_cell() {
            if has_content && mdc.len() > 0 {
                let mut f = self.pop_table();
                let ghost bv = crate::converter::docx::blocks_view(f.current_cell.blocks@);
                f.current_cell.blocks.push(DocxCellBlock { md, plain, is_table: true });
                assert(crate::converter::docx::blocks_view(f.current_cell.blocks@) =~= bv.push(
                    BlockV { md: mdc@, plain: rendered(table@, true), is_table: true },
                ));
                self.push_table(f);
                assert(self@.tables =~= table_ended(old(self)@).tables);
            }
        } else if has_content && mdc.len() > 0 {
            push_all(&mut self.output, mdc.as_slice());
            self.output.push('\n');
            push_str(&mut self.plain_output, plain.as_str());
            self.plain_output.push('\n');
        }
        assert(self@.output =~= table_ended(old(self)@).output);
        assert(self@.plain_output =~= table_ended(old(self)@).plain_output);
    }

    /// A finished paragraph placed (see [`paragraph_placed`]).
    fn place_paragraph(&mut self)
        ensures
            final(self)@ == paragraph_placed(old(self)@),
            final(self).images == old(self).images,
            final(self).in_mc_choice == old(self).in_mc_choice,
            final(self).mc_depth == old(self).mc_depth,
    {
        let text = merge_and_format_runs(&self.para.runs);
        let text_plain = merge_runs_plain(&self.para.runs_plain);
        if self.top_in_cell() {
            let mut f = self.pop_table();
            let ghost bv = crate::converter::docx::blocks_view(f.current_cell.blocks@);
            f.current_cell.blocks.push(
                DocxCellBlock {
                    md: string_from_chars(text.as_slice()),
                    plain: string_from_chars(text_plain.as_slice()),
                    is_table: false,
                },
            );
            assert(crate::converter::docx::blocks_view(f.current_cell.blocks@) =~= bv.push(
                BlockV { md: text@, plain: text_plain@, is_table: false },
            ));
            self.push_table(f);
            assert(self@.tables =~= paragraph_placed(old(self)@).tables);
        } else {
            let is_list = match &self.para.kind {
                ParagraphKind::ListItem { .. } => true,
                _ => false,
            };
            finalize_paragraph(
                &self.para.kind,
                text.as_slice(),
                text_plain.as_slice(),
                &mut self.output,
                &mut self.plain_output,
                &mut self.title,
                &mut self.counters,
                self.last_was_list,
            );
            self.last_was_list = is_list;
        }
    }

    /// The end of a paragraph (see [`paragraph_ended`]).
    fn end_paragraph(&mut self, numbering: &NumberingDefs)
        ensures
            final(self)@ == paragraph_ended(
                old(self)@,
                instances_view(numbering.instances@),
                levels_view(numbering.levels@),
            ),
            final(self).images == old(self).images,
            final(self).in_mc_choice == old(self).in_mc_choice,
            final(self).mc_depth == old(self).mc_depth,
    {
        let ghost s0 = self@;
        self.para.set_list_kind(numbering);
        let ghost s1 = self@;
        assert(s1 == BodyV {
            para: ParaV {
                kind: final_kind(
                    s0.para,
                    instances_view(numbering.instances@),
                    levels_view(numbering.levels@),
                ),
                ..s0.para
            },
            ..s0
        });
        self.place_paragraph();
        let ghost s2 = self@;
        self.para.close_paragraph();
        assert(self@ == BodyV { para: para_closed(s2.para), ..s2 });
    }

    /// The end of a drawing (see [`drawing_ended`]).
    fn end_drawing(&mut self, rels: &Vec<(String, Relationship)>)
        requires
            images_ok(old(self).images@, rels@),
        ensures
            final(self)@ == drawing_ended(old(self)@, rels_view(rels@)),
            images_ok(final(self).images@, rels@),
            final(self).images@.len() <= old(self).images@.len() + 1,
            final(self).in_mc_choice == old(self).in_mc_choice,
            final(self).mc_depth == old(self).mc_depth,
    {
        let rel = self.image_rel.take();
        match rel {
            Some(rel_id) => {
                let filename = match find_relationship(rels, rel_id.as_str()) {
                    Some(r) => file_name_of(r.target.as_str()),
                    None => Vec::new(),
                };
                if filename.len() > 0 {
                    let alt = match &self.image_alt {
                        Some(a) => copy_string(a),
                        None => String::new(),
                    };
                    let ph = placeholder(self.images.len());
                    let key = copy_string(&rel_id);
                    let info = ImageInfo {
                        placeholder: string_from_chars(ph.as_slice()),
                        original_alt: alt,
                        filename: string_from_chars(filename.as_slice()),
                        bytes_key: key,
                    };
                    let ghost before = self.images@;
                    let ghost iv = img_view(info);
                    self.images.push(info);
                    assert(imgs_view(self.images@) =~= imgs_view(before).push(iv));
                    assert(images_ok(self.images@, rels@)) by {
                        assert forall|k: int| 0 <= k < self.images@.len() implies {
                            &&& (#[trigger] self.images@[k]).placeholder@ == placeholder_name(
                                k as nat,
                            )
                            &&& self.images@[k].filename@.len() > 0
                            &&& rel_lookup(rels_view(rels@), self.images@[k].bytes_key@) matches Some(
                                p,
                            ) && target_file_name(p.0) == self.images@[k].filename@
                        } by {
                            if k < before.len() {
                                assert(self.images@[k] == before[k]);
                            }
                        }
                    }
                    let img_md = build_image_md(ph.as_slice(), filename.as_slice());
                    self.para.push(img_md.as_slice(), ph.as_slice(), false, false);
                } else {
                    let mut m: Vec<char> = Vec::new();
                    push_str(&mut m, "image relationship '");
                    push_str(&mut m, rel_id.as_str());
                    push_str(&mut m, "' not found in rels");
                    let loc = copy_string(&rel_id);
                    let ghost before = self.warnings@;
                    let w = warning(WarningCode::SkippedElement, m, Some(loc));
                    let ghost wv = warn_view(w);
                    self.warnings.push(w);
                    assert(warns_view(self.warnings@) =~= warns_view(before).push(wv));
                }
            },
            None => {},
        }
        self.in_drawing = false;
        self.image_alt = None;
    }

    /// An end tag in the body proper, for a paragraph part, a run part or
    /// a drawing.
    fn close_para_tag(
        &mut self,
        name: &[char],
        rels: &Vec<(String, Relationship)>,
        numbering: &NumberingDefs,
    )
        requires
            images_ok(old(self).images@, rels@),
            !(name@ == "body"@),
            !(name@ == "tbl"@ && old(self)@.tables.len() > 0),
            !(name@ == "tr"@ && top_in_row(old(self)@)),
            !(name@ == "tc"@ && top_in_cell(old(self)@)),
        ensures
            final(self)@ == body_close(
                old(self)@,
                name@,
                rels_view(rels@),
                instances_view(numbering.instances@),
                levels_view(numbering.levels@),
            ),
            images_ok(final(self).images@, rels@),
            final(self).images@.len() <= old(self).images@.len() + 1,
            final(self).in_mc_choice == old(self).in_mc_choice,
            final(self).mc_depth == old(self).mc_depth,
    {
        if eq_str(name, "p") && self.para.in_paragraph {
            self.end_paragraph(numbering);
            return ;
        }
        if self.para.close_tag(name) {
            return ;
        }
        if eq_str(name, "drawing") && self.in_drawing {
            self.end_drawing(rels);
        }
    }

    /// An end tag in the body proper (see [`body_close`]).
    fn close_body_tag(
        &mut self,
        name: &[char],
        rels: &Vec<(String, Relationship)>,
        numbering: &NumberingDefs,
    )
        requires
            images_ok(old(self).images@, rels@),
        ensures
            final(self)@ == body_close(
                old(self)@,
                name@,
                rels_view(rels@),
                instances_view(numbering.instances@),
                levels_view(numbering.levels@),
            ),
            images_ok(final(self).images@, rels@),
            final(self).images@.len() <= old(self).images@.len() + 1,
            final(self).in_mc_choice == old(self).in_mc_choice,
            final(self).mc_depth == old(self).mc_depth,
    {
        if eq_str(name, "body") {
            self.in_body = false;
        } else if eq_str(name, "tbl") && self.tables.len() > 0 {
            self.end_table();
        } else if eq_str(name, "tr") && self.top_in_row() {
            let mut f = self.pop_table();
            let ghost t = f@;
            let mut row = DocxRow::default();
            std::mem::swap(&mut row, &mut f.current_row);
            let ghost rv = row@;
            f.rows.push(row);
            f.in_row = false;
            assert(rows_view(f.rows@) =~= t.rows.push(rv));
            assert(crate::converter::docx::cells_view(f.current_row.cells@) =~= Seq::empty());
            self.push_table(f);
            assert(self@.tables =~= body_close(
                old(self)@,
                name@,
                rels_view(rels@),
                instances_view(numbering.instances@),
                levels_view(numbering.levels@),
            ).tables);
        } else if eq_str(name, "tc") && self.top_in_cell() {
            let mut f = self.pop_table();
            let ghost t = f@;
            let mut cell = DocxCell::default();
            std::mem::swap(&mut cell, &mut f.current_cell);
            let ghost cv = cell@;
            f.current_row.cells.push(cell);
            f.in_cell = false;
            assert(crate::converter::docx::cells_view(f.current_row.cells@) =~= t.current_row.cells.push(cv));
            assert(crate::converter::docx::blocks_view(f.current_cell.blocks@) =~= Seq::empty());
            self.push_table(f);
            assert(self@.tables =~= body_close(
                old(self)@,
                name@,
                rels_view(rels@),
                instances_view(numbering.instances@),
                levels_view(numbering.levels@),
            ).tables);
        } else {
            self.close_para_tag(name, rels, numbering);
        }
    }

    /// An end tag (see [`scan_end_tag`]).
    fn end_tag(
        &mut self,
        name_s: &String,
        rels: &Vec<(String, Relationship)>,
        numbering: &NumberingDefs,
    )
        requires
            old(self).mc_ok(),
            images_ok(old(self).images@, rels@),
        ensures
            final(self).mc_ok(),
            images_ok(final(self).images@, rels@),
            final(self).images@.len() <= old(self).images@.len() + 1,
            final(self)@ == scan_end_tag(
                old(self)@,
                name_s@,
                rels_view(rels@),
                instances_view(numbering.instances@),
                levels_view(numbering.levels@),
            ),
    {
        if self.in_mc_choice {
            self.mc_depth = self.mc_depth - 1;
            if self.mc_depth == 0 {
                self.in_mc_choice = false;
            }
            return ;
        }
        let n = chars_of(name_s.as_str());
        let name = n.as_slice();
        if eq_str(name, "AlternateContent") || eq_str(name, "Fallback") {
            return ;
        }
        if eq_str(name, "txbxContent") && self.in_textbox {
            self.leave_textbox();
            return ;
        }
        if eq_str(name, "pict") && self.in_pict {
            self.in_pict = false;
            return ;
        }
        if self.in_pict && is_vml_container(name) {
            return ;
        }
        self.close_body_tag(name, rels, numbering);
    }
}

/// What the body of a document converts to: Markdown and plain text (each
/// empty or ending in exactly one newline), the title, warnings, and the
/// images placed, in order.
pub struct ParsedBody {
    pub markdown: String,
    pub plain_text: String,
    pub title: Option<String>,
    pub warnings: Vec<ConversionWarning>,
    pub images: Vec<ImageInfo>,
}

/// Scans `word/document.xml` (see [`body_fold`]): headings, paragraphs,
/// list items, tables (nested ones rendered in place), hyperlinks,
/// bold/italic, images (as numbered placeholders) and text boxes;
/// `mc:Choice` branches are skipped in favour of their `mc:Fallback`.
pub fn parse_document(
    xml: &str,
    styles: &StyleTable,
    relationships: &Vec<(String, Relationship)>,
    numbering: &NumberingDefs,
) -> (r: ParsedBody)
    ensures
        ({
            let f = body_fold(
                xml_tokens(xml@),
                styles_view(styles@),
                rels_view(relationships@),
                instances_view(numbering.instances@),
                levels_view(numbering.levels@),
            );
            &&& r.markdown@ == single_newline(f.output)
            &&& r.plain_text@ == single_newline(f.plain_output)
            &&& opt_str(r.title) == f.title
            &&& warns_view(r.warnings@) == f.warnings
            &&& imgs_view(r.images@) == f.images
        }),
        images_ok(r.images@, relationships@),
{
    let tokens = tokenize(xml);
    let ghost rv = rels_view(relationships@);
    let ghost iv = instances_view(numbering.instances@);
    let ghost lv = levels_view(numbering.levels@);
    let mut scan = BodyScan::new();
    let mut i: usize = 0;
    assert(tokens@.subrange(0, 0) =~= Seq::<XmlToken>::empty());
    while i < tokens.len()
        invariant
            i <= tokens.len(),
            tokens@ == xml_tokens(xml@),
            rv == rels_view(relationships@),
            iv == instances_view(numbering.instances@),
            lv == levels_view(numbering.levels@),
            scan.mc_ok(),
            images_ok(scan.images@, relationships@),
            scan@ == body_fold(tokens@.subrange(0, i as int), styles_view(styles@), rv, iv, lv),
        decreases tokens.len() - i,
    {
        assert(tokens@.subrange(0, i + 1).drop_last() =~= tokens@.subrange(0, i as int));
        match &tokens[i] {
            XmlToken::Start(e) => {
                scan.start_tag(e, styles, relationships);
            },
            XmlToken::Empty(e) => {
                scan.empty_tag(e, styles);
            },
            XmlToken::End(n) => {
                scan.end_tag(n, relationships, numbering);
            },
            t => match text_of_token(t) {
                Some(s) => {
                    scan.text(s.as_slice());
                },
                None => {},
            },
        }
        i = i + 1;
    }
    assert(tokens@.subrange(0, tokens@.len() as int) =~= tokens@);
    let md = trim_end(scan.output.as_slice());
    let mut markdown = md;
    if markdown.len() > 0 {
        markdown.push('\n');
    }
    let pt = trim_end(scan.plain_output.as_slice());
    let mut plain = pt;
    if plain.len() > 0 {
        plain.push('\n');
    }
    let title = match &scan.title {
        Some(t) => Some(string_from_chars(t.as_slice())),
        None => None,
    };
    assert(markdown@ == single_newline(scan.output@));
    assert(plain@ == single_newline(scan.plain_output@));
    ParsedBody {
        markdown: string_from_chars(markdown.as_slice()),
        plain_text: string_from_chars(plain.as_slice()),
        title,
        warnings: scan.warnings,
        images: scan.images,
    }
}

} // verus!
