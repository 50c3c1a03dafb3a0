//! HTML to Markdown: the document is parsed by `scraper` (html5ever) into
//! a tree whose depth-first walk (element openings, text, element closings)
//! drives a state machine that writes Markdown and plain text side by side.
//! Tables are buffered and rendered whole (see `html_table`).

use vstd::prelude::*;

use ego_tree::iter::Edge;
use scraper::Node;

use crate::converter::html_table::{
    cells_view, render_table, rows_view, separator_spec, push_text_spec, CellSegment, CellView,
    HtmlCell, HtmlRow, RowView, SegView, MAX_TABLE_COLS, MAX_TABLE_ROWS,
};
use crate::converter::{ConversionOptions, ConversionResult, ConversionWarning, Converter, WarningCode};
use crate::error::ConvertError;
use crate::markdown::{format_heading, heading};
use crate::text::{
    chars_of, decimal, decimal_chars, eq_str, is_ascii_ws, lower_ascii, parse_uint, parse_uint_spec,
    push_all, push_repeat, push_str, repeat, string_from_chars, to_ascii_lower, trim, trim_end,
    trim_end_ws, trim_ws,
};

verus! {

broadcast use vstd::string::group_string_axioms;

// ---------------------------------------------------------------------------
// Output buffers
// ---------------------------------------------------------------------------

/// The number of newlines that end `s`.
pub open spec fn trailing_nl(s: Seq<char>) -> nat
    decreases s.len(),
{
    if s.len() > 0 && s.last() == '\n' {
        trailing_nl(s.drop_last()) + 1
    } else {
        0
    }
}

/// An output buffer: its text and the newline count it keeps of its end.
pub struct Buf {
    pub text: Seq<char>,
    pub nl: nat,
}

/// `b` after appending `s`: the newline count becomes that of `s`'s end
/// (nothing changes for empty `s`).
pub open spec fn buf_push_str(b: Buf, s: Seq<char>) -> Buf {
    if s.len() == 0 {
        b
    } else {
        Buf { text: b.text + s, nl: trailing_nl(s) }
    }
}

/// `b` after appending `c`.
pub open spec fn buf_push_char(b: Buf, c: char) -> Buf {
    Buf {
        text: b.text.push(c),
        nl: if c == '\n' {
            b.nl + 1
        } else {
            0
        },
    }
}

/// `b` ending a line: a newline unless it is empty or already ends one.
pub open spec fn buf_newline(b: Buf) -> Buf {
    if b.nl < 1 && b.text.len() > 0 {
        buf_push_char(b, '\n')
    } else {
        b
    }
}

/// `b` ending in a blank line: newlines up to two, unless it is empty.
pub open spec fn buf_blank(b: Buf) -> Buf {
    if b.text.len() == 0 || b.nl >= 2 {
        b
    } else {
        Buf { text: b.text + Seq::new((2 - b.nl) as nat, |i: int| '\n'), nl: 2 }
    }
}

/// The prefix of a line `depth` block quotes deep.
pub open spec fn quote_prefix(depth: nat) -> Seq<char> {
    repeat(seq!['>', ' '], depth)
}

/// `b` ending in a blank line inside `depth` block quotes: the line is
/// ended and, unless a blank line is already there, a quoted empty line
/// follows.
pub open spec fn buf_blank_quoted(b: Buf, depth: nat) -> Buf {
    if b.text.len() == 0 {
        b
    } else if depth > 0 {
        let n = buf_newline(b);
        if n.nl < 2 {
            buf_push_char(buf_push_str(n, quote_prefix(depth)), '\n')
        } else {
            n
        }
    } else {
        buf_blank(b)
    }
}

/// An output buffer.
pub struct Buffer {
    pub text: Vec<char>,
    pub nl: usize,
}

impl View for Buffer {
    type V = Buf;

    open spec fn view(&self) -> Buf {
        Buf { text: self.text@, nl: self.nl as nat }
    }
}

/// The newline count never exceeds the text's length.
pub open spec fn buffer_wf(b: Buf) -> bool {
    b.nl <= b.text.len()
}

/// The newlines that end `s` number at most its length.
proof fn lemma_trailing_nl_len(s: Seq<char>)
    ensures
        trailing_nl(s) <= s.len(),
    decreases s.len(),
{
    if s.len() > 0 && s.last() == '\n' {
        lemma_trailing_nl_len(s.drop_last());
    }
}

/// The newlines that end `s` (see [`trailing_nl`]).
fn count_trailing_nl(s: &[char]) -> (n: usize)
    ensures
        n == trailing_nl(s@),
{
    let mut j = s.len();
    let mut n: usize = 0;
    assert(s@.subrange(0, s.len() as int) =~= s@);
    while j > 0 && s[j - 1] == '\n'
        invariant
            j <= s.len(),
            n + j == s.len(),
            trailing_nl(s@) == trailing_nl(s@.subrange(0, j as int)) + n,
        decreases j,
    {
        assert(s@.subrange(0, j as int).drop_last() =~= s@.subrange(0, j - 1));
        j = j - 1;
        n = n + 1;
    }
    n
}

impl Buffer {
    /// An empty buffer.
    pub fn new() -> (b: Buffer)
        ensures
            b@ == (Buf { text: Seq::empty(), nl: 0 }),
    {
        Buffer { text: Vec::new(), nl: 0 }
    }

    /// Appends `s` (see [`buf_push_str`]).
    pub fn push_str(&mut self, s: &[char])
        requires
            buffer_wf(old(self)@),
        ensures
            final(self)@ == buf_push_str(old(self)@, s@),
            buffer_wf(final(self)@),
    {
        if s.len() == 0 {
            return;
        }
        push_all(&mut self.text, s);
        self.nl = count_trailing_nl(s);
        proof {
            lemma_trailing_nl_len(s@);
        }
    }

    /// Appends `c` (see [`buf_push_char`]).
    pub fn push_char(&mut self, c: char)
        requires
            buffer_wf(old(self)@),
        ensures
            final(self)@ == buf_push_char(old(self)@, c),
            buffer_wf(final(self)@),
    {
        self.text.push(c);
        let n = self.text.len();
        if c == '\n' {
            assert(self.nl < n);
            self.nl = self.nl + 1;
        } else {
            self.nl = 0;
        }
    }

    /// Ends the line (see [`buf_newline`]).
    pub fn ensure_newline(&mut self)
        requires
            buffer_wf(old(self)@),
        ensures
            final(self)@ == buf_newline(old(self)@),
            buffer_wf(final(self)@),
    {
        if self.nl < 1 && self.text.len() > 0 {
            self.push_char('\n');
        }
    }

    /// Ends with a blank line (see [`buf_blank`]).
    pub fn ensure_blank_line(&mut self)
        requires
            buffer_wf(old(self)@),
        ensures
            final(self)@ == buf_blank(old(self)@),
            buffer_wf(final(self)@),
    {
        if self.text.len() == 0 {
            return;
        }
        let ghost b0 = self@;
        while self.nl < 2
            invariant
                buffer_wf(self@),
                b0.text.len() > 0,
                b0.nl < 2 ==> (b0.nl <= self.nl <= 2 && self@.text == b0.text + Seq::new(
                    (self.nl - b0.nl) as nat,
                    |i: int| '\n',
                )),
                b0.nl >= 2 ==> self@ == b0,
            decreases 2 - self.nl,
        {
            let ghost before = self@.text;
            self.push_char('\n');
            assert(self@.text =~= b0.text + Seq::new((self.nl - b0.nl) as nat, |i: int| '\n'));
        }
    }

    /// Ends with a blank line inside `depth` block quotes (see
    /// [`buf_blank_quoted`]).
    pub fn ensure_blank_line_quoted(&mut self, depth: usize)
        requires
            buffer_wf(old(self)@),
        ensures
            final(self)@ == buf_blank_quoted(old(self)@, depth as nat),
            buffer_wf(final(self)@),
    {
        if self.text.len() == 0 {
            return;
        }
        if depth > 0 {
            self.ensure_newline();
            if self.nl < 2 {
                let p = quote_chars(depth);
                self.push_str(p.as_slice());
                self.push_char('\n');
            }
        } else {
            self.ensure_blank_line();
        }
    }
}

/// The prefix of a quoted line (see [`quote_prefix`]).
fn quote_chars(depth: usize) -> (v: Vec<char>)
    ensures
        v@ == quote_prefix(depth as nat),
{
    let mut v: Vec<char> = Vec::new();
    let q: Vec<char> = vec!['>', ' '];
    push_repeat(&mut v, q.as_slice(), depth);
    assert(v@ =~= quote_prefix(depth as nat));
    v
}

// ---------------------------------------------------------------------------
// The document as events
// ---------------------------------------------------------------------------

/// An element with the attributes the conversion reads (each `None` when
/// absent).
#[derive(Debug)]
pub struct HtmlElement {
    /// The element's local name.
    pub name: String,
    pub href: Option<String>,
    pub alt: Option<String>,
    pub src: Option<String>,
    pub colspan: Option<String>,
    pub rowspan: Option<String>,
    /// The `type` attribute.
    pub input_type: Option<String>,
    /// Whether a `checked` attribute is present.
    pub checked: bool,
}

/// One step of a depth-first walk of the document tree.
#[derive(Debug)]
pub enum DomEvent {
    /// Entering an element.
    Open(HtmlElement),
    /// A text node.
    Text(String),
    /// Leaving an element, with its local name.
    Close(String),
    /// Entering or leaving any other node (a comment, a doctype), or
    /// leaving a text node.
    Other,
}

/// `scraper`'s element node.
#[verifier::external_type_specification]
#[verifier::external_body]
pub struct ExScraperElement(scraper::node::Element);

/// The walk of the document `html` parses to (`scraper::Html::parse_document`,
/// then `root_element().traverse()`), in order.
pub uninterp spec fn html_events(html: Seq<char>) -> Seq<DomEvent>;

/// Reads an element's name and attributes (`Element::name`, `Element::attr`).
#[verifier::external_body]
fn element_info(e: &scraper::node::Element) -> HtmlElement {
    HtmlElement {
        name: e.name().to_string(),
        href: e.attr("href").map(String::from),
        alt: e.attr("alt").map(String::from),
        src: e.attr("src").map(String::from),
        colspan: e.attr("colspan").map(String::from),
        rowspan: e.attr("rowspan").map(String::from),
        input_type: e.attr("type").map(String::from),
        checked: e.attr("checked").is_some(),
    }
}

/// Parses `html` into a document tree and walks it from its root element
/// (see [`html_events`]).
#[verifier::external_body]
pub fn parse_html_events(html: &str) -> (v: Vec<DomEvent>)
    ensures
        v@ == html_events(html@),
{
    let doc = scraper::Html::parse_document(html);
    let mut v = Vec::new();
    for edge in doc.root_element().traverse() {
        v.push(match edge {
            Edge::Open(n) => match n.value() {
                Node::Element(e) => DomEvent::Open(element_info(e)),
                Node::Text(t) => DomEvent::Text(t.text.to_string()),
                _ => DomEvent::Other,
            },
            Edge::Close(n) => n.value().as_element().map_or(DomEvent::Other, |e| DomEvent::Close(e.name().to_string())),
        });
    }
    v
}

// ---------------------------------------------------------------------------
// Walker state
// ---------------------------------------------------------------------------

/// An open list.
#[derive(Debug, Clone, Copy)]
pub struct ListContext {
    pub ordered: bool,
    /// Items seen so far.
    pub item_count: usize,
}

/// An open heading: its level and where its text starts in each buffer.
#[derive(Debug, Clone, Copy)]
pub struct PendingHeading {
    pub level: u8,
    pub start_pos: usize,
    pub plain_start_pos: usize,
}

/// An open link: its target and where its text starts.
#[derive(Debug)]
pub struct PendingLink {
    pub href: String,
    pub start_pos: usize,
}

/// A table being walked.
#[derive(Debug)]
pub struct TableCollector {
    /// Completed rows.
    pub rows: Vec<HtmlRow>,
    /// The row being filled.
    pub current_row: HtmlRow,
    /// The cell being filled.
    pub current_cell: HtmlCell,
    /// Whether rows are inside `<thead>`.
    pub in_header: bool,
    /// Whether a cell is open.
    pub in_cell: bool,
}

/// The view of a table being walked.
pub struct TableView {
    pub rows: Seq<RowView>,
    pub row: RowView,
    pub cell: CellView,
    pub in_header: bool,
    pub in_cell: bool,
}

impl View for TableCollector {
    type V = TableView;

    open spec fn view(&self) -> TableView {
        TableView {
            rows: rows_view(self.rows@),
            row: self.current_row@,
            cell: self.current_cell@,
            in_header: self.in_header,
            in_cell: self.in_cell,
        }
    }
}

/// The state of the walk.
pub struct WalkerState {
    pub md: Buffer,
    pub plain: Buffer,
    pub lists: Vec<ListContext>,
    pub in_pre: bool,
    /// Depth inside `script`, `style` and `head`.
    pub skip_depth: usize,
    pub blockquote_depth: usize,
    pub heading: Option<PendingHeading>,
    pub link: Option<PendingLink>,
    /// Open tables, innermost last.
    pub tables: Vec<TableCollector>,
    pub warnings: Vec<ConversionWarning>,
}

/// The view of the walk's state; warnings are kept by message.
pub struct WalkView {
    pub md: Buf,
    pub plain: Buf,
    pub lists: Seq<ListContext>,
    pub in_pre: bool,
    pub skip: nat,
    pub bq: nat,
    pub heading: Option<PendingHeading>,
    pub link: Option<(Seq<char>, nat)>,
    pub tables: Seq<TableView>,
    pub warns: Seq<Seq<char>>,
}

impl View for WalkerState {
    type V = WalkView;

    open spec fn view(&self) -> WalkView {
        WalkView {
            md: self.md@,
            plain: self.plain@,
            lists: self.lists@,
            in_pre: self.in_pre,
            skip: self.skip_depth as nat,
            bq: self.blockquote_depth as nat,
            heading: self.heading,
            link: match self.link {
                Some(l) => Some((l.href@, l.start_pos as nat)),
                None => None,
            },
            tables: self.tables@.map_values(|t: TableCollector| t@),
            warns: self.warnings@.map_values(|w: ConversionWarning| w.message@),
        }
    }
}

/// Every warning is a resource-limit warning without a location.
pub open spec fn limit_warnings_only(ws: Seq<ConversionWarning>) -> bool {
    forall|i: int|
        0 <= i < ws.len() ==> (#[trigger] ws[i]).code == WarningCode::ResourceLimitReached
            && ws[i].location is None
}

impl WalkerState {
    /// The state's invariant: sound buffers, limit warnings only.
    pub open spec fn wf(&self) -> bool {
        &&& buffer_wf(self.md@)
        &&& buffer_wf(self.plain@)
        &&& limit_warnings_only(self.warnings@)
    }
}

/// The state at the start of the walk.
pub open spec fn initial_view() -> WalkView {
    WalkView {
        md: Buf { text: Seq::empty(), nl: 0 },
        plain: Buf { text: Seq::empty(), nl: 0 },
        lists: Seq::empty(),
        in_pre: false,
        skip: 0,
        bq: 0,
        heading: None,
        link: None,
        tables: Seq::empty(),
        warns: Seq::empty(),
    }
}

/// Whether a table cell is open in the innermost table.
pub open spec fn in_cell(s: WalkView) -> bool {
    s.tables.len() > 0 && s.tables.last().in_cell
}

/// `s` with its innermost table replaced.
pub open spec fn set_top(s: WalkView, t: TableView) -> WalkView {
    WalkView { tables: s.tables.update(s.tables.len() - 1, t), ..s }
}

/// Both buffers ended with a blank line (Markdown inside block quotes).
pub open spec fn both_blank(s: WalkView) -> WalkView {
    WalkView { md: buf_blank_quoted(s.md, s.bq), plain: buf_blank(s.plain), ..s }
}

/// Both buffers ended with a line end.
pub open spec fn both_newline(s: WalkView) -> WalkView {
    WalkView { md: buf_newline(s.md), plain: buf_newline(s.plain), ..s }
}

/// `s` with `t` appended to its Markdown.
pub open spec fn md_push(s: WalkView, t: Seq<char>) -> WalkView {
    WalkView { md: buf_push_str(s.md, t), ..s }
}

// ---------------------------------------------------------------------------
// Text
// ---------------------------------------------------------------------------

/// `s` with every run of ASCII whitespace replaced by one space.
pub open spec fn collapse_ws(s: Seq<char>) -> Seq<char>
    decreases s.len(),
{
    if s.len() == 0 {
        Seq::empty()
    } else {
        let p = collapse_ws(s.drop_last());
        if is_ascii_ws(s.last()) {
            if s.len() >= 2 && is_ascii_ws(s[s.len() - 2]) {
                p
            } else {
                p.push(' ')
            }
        } else {
            p.push(s.last())
        }
    }
}

/// `b` after a whitespace-only text: one space, unless the buffer is
/// empty, ends a line, or already ends in a space or tab.
pub open spec fn space_after(b: Buf) -> Buf {
    if b.text.len() > 0 && b.nl == 0 && b.text.last() != ' ' && b.text.last() != '\t' {
        buf_push_char(b, ' ')
    } else {
        b
    }
}

/// Collapsed text `c` without its leading space when `out` already ends
/// in a space or tab.
pub open spec fn drop_lead_space(out: Seq<char>, c: Seq<char>) -> Seq<char> {
    if c.len() > 0 && c[0] == ' ' && out.len() > 0 && (out.last() == ' ' || out.last() == '\t') {
        c.drop_first()
    } else {
        c
    }
}

/// The state after a text node: skipped inside `script`/`style`/`head`;
/// inside a table, added to the open cell (or dropped between cells);
/// inside `pre`, written as is; otherwise its whitespace is collapsed and
/// it is written after the text so far (on a new line inside a block
/// quote, after the quote prefix).
pub open spec fn text_spec(s: WalkView, raw: Seq<char>) -> WalkView {
    if s.skip > 0 {
        s
    } else if s.tables.len() > 0 {
        let tc = s.tables.last();
        if tc.in_cell {
            set_top(
                s,
                TableView { cell: CellView { segments: push_text_spec(tc.cell.segments, raw), ..tc.cell }, ..tc },
            )
        } else {
            s
        }
    } else if s.in_pre {
        WalkView { md: buf_push_str(s.md, raw), plain: buf_push_str(s.plain, raw), ..s }
    } else {
        let c = collapse_ws(raw);
        if c.len() == 0 {
            s
        } else if c == seq![' '] {
            WalkView { md: space_after(s.md), plain: space_after(s.plain), ..s }
        } else {
            let mc = drop_lead_space(s.md.text, c);
            let pc = drop_lead_space(s.plain.text, c);
            let md = if mc.len() == 0 {
                s.md
            } else if s.bq > 0 {
                let m1 = if s.md.nl > 0 || s.md.text.len() == 0 {
                    buf_push_str(s.md, quote_prefix(s.bq))
                } else {
                    s.md
                };
                buf_push_str(m1, mc)
            } else {
                buf_push_str(s.md, mc)
            };
            let plain = if pc.len() == 0 {
                s.plain
            } else {
                buf_push_str(s.plain, pc)
            };
            WalkView { md, plain, ..s }
        }
    }
}

/// Collapses runs of ASCII whitespace (see [`collapse_ws`]).
pub fn collapse_whitespace(s: &[char]) -> (v: Vec<char>)
    ensures
        v@ == collapse_ws(s@),
{
    let mut v: Vec<char> = Vec::new();
    let mut prev_ws = false;
    let mut i: usize = 0;
    while i < s.len()
        invariant
            i <= s.len(),
            v@ == collapse_ws(s@.subrange(0, i as int)),
            prev_ws == (i > 0 && is_ascii_ws(s@[i - 1])),
        decreases s.len() - i,
    {
        let c = s[i];
        let ws = c == ' ' || c == '\t' || c == '\n' || c == '\x0C' || c == '\r';
        if ws {
            if !prev_ws {
                v.push(' ');
            }
        } else {
            v.push(c);
        }
        prev_ws = ws;
        proof {
            let sub = s@.subrange(0, i + 1);
            assert(sub.drop_last() =~= s@.subrange(0, i as int));
            assert(sub.last() == c);
            if i > 0 {
                assert(sub[sub.len() - 2] == s@[i - 1]);
            }
        }
        i = i + 1;
    }
    assert(s@.subrange(0, s.len() as int) =~= s@);
    v
}

/// Collapsed text without its leading space where the buffer already ends
/// in a space or tab (see [`drop_lead_space`]).
fn drop_leading_space(out: &Vec<char>, c: &Vec<char>) -> (v: Vec<char>)
    ensures
        v@ == drop_lead_space(out@, c@),
{
    let n = out.len();
    if c.len() > 0 && c[0] == ' ' && n > 0 && (out[n - 1] == ' ' || out[n - 1] == '\t') {
        crate::text::slice_chars(c.as_slice(), 1, c.len())
    } else {
        crate::text::slice_chars(c.as_slice(), 0, c.len())
    }
}

impl Buffer {
    /// Adds a space after a whitespace-only text (see [`space_after`]).
    pub fn space_after(&mut self)
        requires
            buffer_wf(old(self)@),
        ensures
            final(self)@ == space_after(old(self)@),
            buffer_wf(final(self)@),
    {
        let n = self.text.len();
        if n > 0 && self.nl == 0 && self.text[n - 1] != ' ' && self.text[n - 1] != '\t' {
            self.push_char(' ');
        }
    }
}

impl WalkerState {
    /// An empty state.
    pub fn new() -> (s: WalkerState)
        ensures
            s@ == initial_view(),
            s.wf(),
    {
        let s = WalkerState {
            md: Buffer::new(),
            plain: Buffer::new(),
            lists: Vec::new(),
            in_pre: false,
            skip_depth: 0,
            blockquote_depth: 0,
            heading: None,
            link: None,
            tables: Vec::new(),
            warnings: Vec::new(),
        };
        assert(s@.tables =~= Seq::<TableView>::empty());
        assert(s@.warns =~= Seq::<Seq<char>>::empty());
        assert(s@.lists =~= Seq::<ListContext>::empty());
        s
    }

    /// Whether a table cell is open (see [`in_cell`]).
    pub fn in_table_cell(&self) -> (b: bool)
        ensures
            b == in_cell(self@),
    {
        let n = self.tables.len();
        n > 0 && self.tables[n - 1].in_cell
    }

    /// Adds text to the open cell of the innermost table.
    fn top_push_text(&mut self, raw: &str)
        requires
            old(self).tables.len() > 0,
        ensures
            final(self)@ == set_top(
                old(self)@,
                TableView {
                    cell: CellView {
                        segments: push_text_spec(old(self)@.tables.last().cell.segments, raw@),
                        ..old(self)@.tables.last().cell
                    },
                    ..old(self)@.tables.last()
                },
            ),
            final(self).md == old(self).md,
            final(self).plain == old(self).plain,
            final(self).warnings == old(self).warnings,
    {
        let ghost tv = self.tables@.map_values(|t: TableCollector| t@);
        let mut tc = self.tables.pop().unwrap();
        tc.current_cell.push_text(raw);
        self.tables.push(tc);
        assert(self.tables@.map_values(|t: TableCollector| t@) =~= tv.update(tv.len() - 1, tc@));
    }

    /// Handles a text node (see [`text_spec`]).
    pub fn handle_text(&mut self, raw: &str)
        requires
            old(self).wf(),
        ensures
            final(self)@ == text_spec(old(self)@, raw@),
            final(self).wf(),
    {
        if self.skip_depth > 0 {
            return;
        }
        if self.tables.len() > 0 {
            let n = self.tables.len();
            if self.tables[n - 1].in_cell {
                self.top_push_text(raw);
            }
            return;
        }
        let r = chars_of(raw);
        if self.in_pre {
            self.md.push_str(r.as_slice());
            self.plain.push_str(r.as_slice());
            return;
        }
        let c = collapse_whitespace(r.as_slice());
        if c.len() == 0 {
            return;
        }
        if c.len() == 1 && c[0] == ' ' {
            assert(c@ =~= seq![' ']);
            self.md.space_after();
            self.plain.space_after();
            return;
        }
        assert(c@ != seq![' ']);
        let mc = drop_leading_space(&self.md.text, &c);
        let pc = drop_leading_space(&self.plain.text, &c);
        if mc.len() > 0 {
            if self.blockquote_depth > 0 {
                if self.md.nl > 0 || self.md.text.len() == 0 {
                    let p = quote_chars(self.blockquote_depth);
                    self.md.push_str(p.as_slice());
                }
                self.md.push_str(mc.as_slice());
            } else {
                self.md.push_str(mc.as_slice());
            }
        }
        if pc.len() > 0 {
            self.plain.push_str(pc.as_slice());
        }
    }
}

// ---------------------------------------------------------------------------
// Opening elements
// ---------------------------------------------------------------------------

/// `n + 1`, held at `usize::MAX`.
pub open spec fn inc(n: nat) -> nat {
    if n < usize::MAX {
        n + 1
    } else {
        n
    }
}

/// `n - 1`, held at zero.
pub open spec fn dec(n: nat) -> nat {
    if n > 0 {
        (n - 1) as nat
    } else {
        0
    }
}

/// The text of an optional attribute, empty when it is absent.
pub open spec fn attr_text(a: Option<String>) -> Seq<char> {
    match a {
        Some(v) => v@,
        None => Seq::empty(),
    }
}

/// A span attribute's value: the trimmed attribute parsed as a `usize`,
/// 1 when it is absent or does not parse, held within `1..=max`.
pub open spec fn span_value(a: Option<String>, max: nat) -> nat {
    let n = match a {
        Some(v) => match parse_uint_spec(trim_ws(v@), usize::MAX as nat) {
            Some(n) => n,
            None => 1,
        },
        None => 1,
    };
    if n < 1 {
        1
    } else if n > max {
        max
    } else {
        n
    }
}

/// The level of a heading tag `h1`..`h6`.
pub open spec fn heading_level(tag: Seq<char>) -> Option<u8> {
    if tag.len() == 2 && tag[0] == 'h' && '1' <= tag[1] && tag[1] <= '6' {
        Some((tag[1] as u32 - 48) as u8)
    } else {
        None
    }
}

/// A table with nothing buffered yet.
pub open spec fn new_table_view() -> TableView {
    TableView {
        rows: Seq::empty(),
        row: RowView { cells: Seq::empty(), is_header_row: false },
        cell: CellView { colspan: 0, rowspan: 0, segments: Seq::empty() },
        in_header: false,
        in_cell: false,
    }
}

/// The indentation of a list item at the current nesting.
pub open spec fn li_indent(s: WalkView) -> Seq<char> {
    repeat(
        seq![' ', ' '],
        if s.lists.len() > 0 {
            (s.lists.len() - 1) as nat
        } else {
            0
        },
    )
}

/// The marker of a new list item and the lists with its count taken:
/// `N. ` (the item's number) in an ordered list, `- ` otherwise.
pub open spec fn li_start(s: WalkView) -> (Seq<char>, Seq<ListContext>) {
    if s.lists.len() > 0 {
        let ctx = s.lists.last();
        let n = inc(ctx.item_count as nat);
        let lists = s.lists.update(s.lists.len() - 1, ListContext { item_count: n as usize, ..ctx });
        if ctx.ordered {
            (li_indent(s) + decimal(n) + seq!['.', ' '], lists)
        } else {
            (li_indent(s) + seq!['-', ' '], lists)
        }
    } else {
        (li_indent(s) + seq!['-', ' '], s.lists)
    }
}

/// The state after a heading opens: inside a cell, the cell's text is
/// separated from what follows; elsewhere a blank line is ensured and the
/// heading's text starts.
pub open spec fn open_heading(s: WalkView, level: u8) -> WalkView {
    if in_cell(s) {
        let tc = s.tables.last();
        set_top(s, TableView { cell: CellView { segments: separator_spec(tc.cell.segments), ..tc.cell }, ..tc })
    } else {
        let s1 = both_blank(s);
        WalkView {
            heading: Some(
                PendingHeading {
                    level,
                    start_pos: s1.md.text.len() as usize,
                    plain_start_pos: s1.plain.text.len() as usize,
                },
            ),
            ..s1
        }
    }
}

/// The state after an element in a table's structure opens (`thead`,
/// `tbody`, `tr`, `th`, `td`); outside a table nothing changes.
pub open spec fn open_table_part(s: WalkView, tag: Seq<char>, e: HtmlElement) -> WalkView {
    if s.tables.len() == 0 {
        s
    } else {
        let tc = s.tables.last();
        if tag == "thead"@ {
            set_top(s, TableView { in_header: true, ..tc })
        } else if tag == "tbody"@ {
            set_top(s, TableView { in_header: false, ..tc })
        } else if tag == "tr"@ {
            set_top(s, TableView { row: RowView { cells: Seq::empty(), is_header_row: tc.in_header }, ..tc })
        } else {
            set_top(
                s,
                TableView {
                    cell: CellView {
                        colspan: span_value(e.colspan, MAX_TABLE_COLS as nat),
                        rowspan: span_value(e.rowspan, MAX_TABLE_ROWS as nat),
                        segments: Seq::empty(),
                    },
                    in_cell: true,
                    ..tc
                },
            )
        }
    }
}

/// The state after a line break: a newline (quoted inside a block quote),
/// nothing inside a table cell.
pub open spec fn open_br(s: WalkView) -> WalkView {
    if s.in_pre {
        WalkView { md: buf_push_char(s.md, '\n'), plain: buf_push_char(s.plain, '\n'), ..s }
    } else if in_cell(s) {
        s
    } else {
        let s1 = WalkView { md: buf_push_char(s.md, '\n'), plain: buf_push_char(s.plain, '\n'), ..s };
        if s.bq > 0 {
            md_push(s1, quote_prefix(s.bq))
        } else {
            s1
        }
    }
}

/// The state after an element opens, by its lower-cased tag: `script`,
/// `style` and `head` start skipping; headings, paragraphs, `pre`, lists
/// and tables start blocks; links and headings start capturing text;
/// images, emphasis, code, rules, breaks and checkboxes write markers.
pub open spec fn open_spec(s: WalkView, e: HtmlElement) -> WalkView {
    let tag = lower_ascii(e.name@);
    if tag == "script"@ || tag == "style"@ || tag == "head"@ {
        WalkView { skip: inc(s.skip), ..s }
    } else if s.skip > 0 {
        s
    } else if heading_level(tag) is Some {
        open_heading(s, heading_level(tag)->0)
    } else if tag == "p"@ && !in_cell(s) {
        both_blank(s)
    } else if tag == "a"@ {
        WalkView { link: Some((attr_text(e.href), s.md.text.len())), ..s }
    } else if tag == "img"@ {
        WalkView {
            md: buf_push_str(s.md, "!["@ + attr_text(e.alt) + "]("@ + attr_text(e.src) + ")"@),
            plain: buf_push_str(s.plain, attr_text(e.alt)),
            ..s
        }
    } else if tag == "strong"@ || tag == "b"@ {
        md_push(s, "**"@)
    } else if tag == "em"@ || tag == "i"@ {
        md_push(s, "*"@)
    } else if tag == "code"@ && !s.in_pre {
        md_push(s, "`"@)
    } else if tag == "pre"@ {
        md_push(WalkView { in_pre: true, ..both_blank(s) }, "```\n"@)
    } else if tag == "ul"@ || tag == "ol"@ {
        let s1 = if s.lists.len() > 0 {
            both_newline(s)
        } else {
            both_blank(s)
        };
        WalkView { lists: s1.lists.push(ListContext { ordered: tag == "ol"@, item_count: 0 }), ..s1 }
    } else if tag == "li"@ {
        let (marker, lists) = li_start(s);
        WalkView {
            md: buf_push_str(s.md, marker),
            plain: buf_push_str(s.plain, li_indent(s)),
            lists,
            ..s
        }
    } else if tag == "table"@ {
        let s1 = both_blank(s);
        WalkView { tables: s1.tables.push(new_table_view()), ..s1 }
    } else if tag == "thead"@ || tag == "tbody"@ || tag == "tr"@ || tag == "th"@ || tag == "td"@ {
        open_table_part(s, tag, e)
    } else if tag == "blockquote"@ {
        WalkView { bq: inc(s.bq), md: buf_newline(s.md), plain: buf_newline(s.plain), ..s }
    } else if tag == "hr"@ {
        WalkView {
            md: buf_push_str(buf_blank_quoted(s.md, s.bq), "---\n"@),
            plain: buf_blank(s.plain),
            ..s
        }
    } else if tag == "br"@ {
        open_br(s)
    } else if tag == "input"@ && attr_text(e.input_type) == "checkbox"@ {
        md_push(
            s,
            if e.checked {
                "[x] "@
            } else {
                "[ ] "@
            },
        )
    } else {
        s
    }
}

/// The value of a span attribute (see [`span_value`]).
fn parse_span(a: &Option<String>, max: usize) -> (n: usize)
    requires
        max >= 1,
    ensures
        n as nat == span_value(*a, max as nat),
{
    let n: usize = match a {
        Some(v) => {
            let c = chars_of(v.as_str());
            let t = trim(c.as_slice());
            match parse_uint(t.as_slice(), usize::MAX as u64) {
                Some(x) => x as usize,
                None => 1,
            }
        },
        None => 1,
    };
    if n < 1 {
        1
    } else if n > max {
        max
    } else {
        n
    }
}

/// The text of an optional attribute (see [`attr_text`]).
fn attr_chars(a: &Option<String>) -> (v: Vec<char>)
    ensures
        v@ == attr_text(*a),
{
    match a {
        Some(v) => chars_of(v.as_str()),
        None => Vec::new(),
    }
}

impl WalkerState {
    /// Replaces the innermost table's view-level fields through `f`-like
    /// updates: marks rows as header rows or not.
    fn top_set_header(&mut self, b: bool)
        requires
            old(self).tables.len() > 0,
        ensures
            final(self)@ == set_top(old(self)@, TableView { in_header: b, ..old(self)@.tables.last() }),
            final(self).md == old(self).md,
            final(self).plain == old(self).plain,
            final(self).warnings == old(self).warnings,
    {
        let ghost tv = self.tables@.map_values(|t: TableCollector| t@);
        let mut tc = self.tables.pop().unwrap();
        tc.in_header = b;
        self.tables.push(tc);
        assert(self.tables@.map_values(|t: TableCollector| t@) =~= tv.update(tv.len() - 1, tc@));
    }

    /// Starts a new row in the innermost table.
    fn top_new_row(&mut self)
        requires
            old(self).tables.len() > 0,
        ensures
            final(self)@ == set_top(
                old(self)@,
                TableView {
                    row: RowView { cells: Seq::empty(), is_header_row: old(self)@.tables.last().in_header },
                    ..old(self)@.tables.last()
                },
            ),
            final(self).md == old(self).md,
            final(self).plain == old(self).plain,
            final(self).warnings == old(self).warnings,
    {
        let ghost tv = self.tables@.map_values(|t: TableCollector| t@);
        let mut tc = self.tables.pop().unwrap();
        tc.current_row = HtmlRow { cells: Vec::new(), is_header_row: tc.in_header };
        self.tables.push(tc);
        assert(tc@.row.cells =~= Seq::<CellView>::empty());
        assert(self.tables@.map_values(|t: TableCollector| t@) =~= tv.update(tv.len() - 1, tc@));
    }

    /// Opens a cell with the given spans in the innermost table.
    fn top_open_cell(&mut self, colspan: usize, rowspan: usize)
        requires
            old(self).tables.len() > 0,
        ensures
            final(self)@ == set_top(
                old(self)@,
                TableView {
                    cell: CellView { colspan: colspan as nat, rowspan: rowspan as nat, segments: Seq::empty() },
                    in_cell: true,
                    ..old(self)@.tables.last()
                },
            ),
            final(self).md == old(self).md,
            final(self).plain == old(self).plain,
            final(self).warnings == old(self).warnings,
    {
        let ghost tv = self.tables@.map_values(|t: TableCollector| t@);
        let mut tc = self.tables.pop().unwrap();
        tc.current_cell = HtmlCell::new(colspan, rowspan);
        tc.in_cell = true;
        self.tables.push(tc);
        assert(self.tables@.map_values(|t: TableCollector| t@) =~= tv.update(tv.len() - 1, tc@));
    }

    /// Separates the open cell's text from a following block.
    fn top_separator(&mut self)
        requires
            old(self).tables.len() > 0,
        ensures
            final(self)@ == set_top(
                old(self)@,
                TableView {
                    cell: CellView {
                        segments: separator_spec(old(self)@.tables.last().cell.segments),
                        ..old(self)@.tables.last().cell
                    },
                    ..old(self)@.tables.last()
                },
            ),
            final(self).md == old(self).md,
            final(self).plain == old(self).plain,
            final(self).warnings == old(self).warnings,
    {
        let ghost tv = self.tables@.map_values(|t: TableCollector| t@);
        let mut tc = self.tables.pop().unwrap();
        tc.current_cell.push_separator_space();
        self.tables.push(tc);
        assert(self.tables@.map_values(|t: TableCollector| t@) =~= tv.update(tv.len() - 1, tc@));
    }

    /// Both buffers end with a blank line (see [`both_blank`]).
    fn both_blank(&mut self)
        requires
            old(self).wf(),
        ensures
            final(self)@ == both_blank(old(self)@),
            final(self).wf(),
    {
        self.md.ensure_blank_line_quoted(self.blockquote_depth);
        self.plain.ensure_blank_line();
    }

    /// Both buffers end a line (see [`both_newline`]).
    fn both_newline(&mut self)
        requires
            old(self).wf(),
        ensures
            final(self)@ == both_newline(old(self)@),
            final(self).wf(),
    {
        self.md.ensure_newline();
        self.plain.ensure_newline();
    }

    /// Appends `t` to the Markdown buffer.
    fn md_push(&mut self, t: &str)
        requires
            old(self).wf(),
        ensures
            final(self)@ == md_push(old(self)@, t@),
            final(self).wf(),
    {
        let c = chars_of(t);
        self.md.push_str(c.as_slice());
    }

    /// Handles an opening heading (see [`open_heading`]).
    fn open_heading(&mut self, level: u8)
        requires
            old(self).wf(),
        ensures
            final(self)@ == open_heading(old(self)@, level),
            final(self).wf(),
    {
        if self.in_table_cell() {
            self.top_separator();
        } else {
            self.both_blank();
            self.heading = Some(
                PendingHeading {
                    level,
                    start_pos: self.md.text.len(),
                    plain_start_pos: self.plain.text.len(),
                },
            );
        }
    }

    /// Handles a list item's opening.
    fn open_li(&mut self)
        requires
            old(self).wf(),
        ensures
            final(self)@ == ({
                let (marker, lists) = li_start(old(self)@);
                WalkView {
                    md: buf_push_str(old(self)@.md, marker),
                    plain: buf_push_str(old(self)@.plain, li_indent(old(self)@)),
                    lists,
                    ..old(self)@
                }
            }),
            final(self).wf(),
    {
        let n = self.lists.len();
        let level = if n > 0 {
            n - 1
        } else {
            0
        };
        let mut indent: Vec<char> = Vec::new();
        let two: Vec<char> = vec![' ', ' '];
        push_repeat(&mut indent, two.as_slice(), level);
        assert(indent@ =~= li_indent(self@));
        let mut marker = crate::text::slice_chars(indent.as_slice(), 0, indent.len());
        if n > 0 {
            let mut ctx = self.lists[n - 1];
            let c = if ctx.item_count < usize::MAX {
                ctx.item_count + 1
            } else {
                ctx.item_count
            };
            ctx.item_count = c;
            if ctx.ordered {
                let d = decimal_chars(c);
                push_all(&mut marker, d.as_slice());
                marker.push('.');
                marker.push(' ');
            } else {
                marker.push('-');
                marker.push(' ');
            }
            self.lists.set(n - 1, ctx);
        } else {
            marker.push('-');
            marker.push(' ');
        }
        proof {
            let (m, l) = li_start(old(self)@);
            assert(marker@ =~= m);
            assert(self.lists@ =~= l);
        }
        self.md.push_str(marker.as_slice());
        self.plain.push_str(indent.as_slice());
    }
}

impl WalkerState {
    /// Handles a table-structure element's opening (see
    /// [`open_table_part`]).
    fn open_table_part(&mut self, tag: &Vec<char>, e: &HtmlElement)
        requires
            old(self).wf(),
            tag@ == "thead"@ || tag@ == "tbody"@ || tag@ == "tr"@ || tag@ == "th"@ || tag@ == "td"@,
        ensures
            final(self)@ == open_table_part(old(self)@, tag@, *e),
            final(self).wf(),
    {
        if self.tables.len() == 0 {
            return;
        }
        if eq_str(tag.as_slice(), "thead") {
            self.top_set_header(true);
        } else if eq_str(tag.as_slice(), "tbody") {
            self.top_set_header(false);
        } else if eq_str(tag.as_slice(), "tr") {
            self.top_new_row();
        } else {
            let c = parse_span(&e.colspan, MAX_TABLE_COLS);
            let r = parse_span(&e.rowspan, MAX_TABLE_ROWS);
            self.top_open_cell(c, r);
        }
    }

    /// Handles a line break (see [`open_br`]).
    fn open_br(&mut self)
        requires
            old(self).wf(),
        ensures
            final(self)@ == open_br(old(self)@),
            final(self).wf(),
    {
        if self.in_pre {
            self.md.push_char('\n');
            self.plain.push_char('\n');
        } else if self.in_table_cell() {
        } else {
            self.md.push_char('\n');
            self.plain.push_char('\n');
            if self.blockquote_depth > 0 {
                let p = quote_chars(self.blockquote_depth);
                self.md.push_str(p.as_slice());
            }
        }
    }

    /// Handles an element's opening (see [`open_spec`]).
    pub fn handle_open(&mut self, e: &HtmlElement)
        requires
            old(self).wf(),
        ensures
            final(self)@ == open_spec(old(self)@, *e),
            final(self).wf(),
    {
        let name = chars_of(e.name.as_str());
        let tag = to_ascii_lower(name.as_slice());
        let t = tag.as_slice();
        let input_type = attr_chars(&e.input_type);
        if eq_str(t, "script") || eq_str(t, "style") || eq_str(t, "head") {
            if self.skip_depth < usize::MAX {
                self.skip_depth = self.skip_depth + 1;
            }
        } else if self.skip_depth > 0 {
        } else if t.len() == 2 && t[0] == 'h' && '1' <= t[1] && t[1] <= '6' {
            let level = (t[1] as u32 - 48) as u8;
            self.open_heading(level);
        } else if eq_str(t, "p") && !self.in_table_cell() {
            self.both_blank();
        } else if eq_str(t, "a") {
            let href = match &e.href {
                Some(h) => h.clone(),
                None => String::new(),
            };
            self.link = Some(PendingLink { href, start_pos: self.md.text.len() });
        } else if eq_str(t, "img") {
            let alt = attr_chars(&e.alt);
            let src = attr_chars(&e.src);
            let mut m: Vec<char> = Vec::new();
            push_str(&mut m, "![");
            push_all(&mut m, alt.as_slice());
            push_str(&mut m, "](");
            push_all(&mut m, src.as_slice());
            push_str(&mut m, ")");
            self.md.push_str(m.as_slice());
            self.plain.push_str(alt.as_slice());
        } else if eq_str(t, "strong") || eq_str(t, "b") {
            self.md_push("**");
        } else if eq_str(t, "em") || eq_str(t, "i") {
            self.md_push("*");
        } else if eq_str(t, "code") && !self.in_pre {
            self.md_push("`");
        } else if eq_str(t, "pre") {
            self.in_pre = true;
            self.both_blank();
            self.md_push("```\n");
        } else if eq_str(t, "ul") || eq_str(t, "ol") {
            if self.lists.len() > 0 {
                self.both_newline();
            } else {
                self.both_blank();
            }
            let ordered = eq_str(t, "ol");
            self.lists.push(ListContext { ordered, item_count: 0 });
        } else if eq_str(t, "li") {
            self.open_li();
        } else if eq_str(t, "table") {
            self.both_blank();
            let ghost tv = self@.tables;
            self.tables.push(
                TableCollector {
                    rows: Vec::new(),
                    current_row: HtmlRow { cells: Vec::new(), is_header_row: false },
                    current_cell: HtmlCell::new(0, 0),
                    in_header: false,
                    in_cell: false,
                },
            );
            proof {
                let top = self.tables@.last();
                assert(top@.rows =~= Seq::<RowView>::empty());
                assert(top@.row.cells =~= Seq::<CellView>::empty());
                assert(self@.tables =~= tv.push(new_table_view()));
            }
        } else if eq_str(t, "thead") || eq_str(t, "tbody") || eq_str(t, "tr") || eq_str(t, "th")
            || eq_str(t, "td") {
            self.open_table_part(&tag, e);
        } else if eq_str(t, "blockquote") {
            if self.blockquote_depth < usize::MAX {
                self.blockquote_depth = self.blockquote_depth + 1;
            }
            self.md.ensure_newline();
            self.plain.ensure_newline();
        } else if eq_str(t, "hr") {
            self.md.ensure_blank_line_quoted(self.blockquote_depth);
            self.md_push("---\n");
            self.plain.ensure_blank_line();
        } else if eq_str(t, "br") {
            self.open_br();
        } else if eq_str(t, "input") && eq_str(input_type.as_slice(), "checkbox") {
            if e.checked {
                self.md_push("[x] ");
            } else {
                self.md_push("[ ] ");
            }
        }
    }
}

// ---------------------------------------------------------------------------
// Closing elements
// ---------------------------------------------------------------------------

/// `b` cut back to position `start` (at most its length), with its newline
/// count recomputed, and the text that was cut off.
pub open spec fn cut(b: Buf, start: nat) -> (Buf, Seq<char>) {
    let st = if start <= b.text.len() {
        start
    } else {
        b.text.len()
    };
    (
        Buf { text: b.text.subrange(0, st as int), nl: trailing_nl(b.text.subrange(0, st as int)) },
        b.text.subrange(st as int, b.text.len() as int),
    )
}

/// The state after a heading closes: its Markdown text becomes a heading
/// line; its plain text, trimmed, a line of its own.
pub open spec fn close_heading(s: WalkView) -> WalkView {
    match s.heading {
        Some(p) => {
            let (m, text) = cut(s.md, p.start_pos as nat);
            let (pl, ptext) = cut(s.plain, p.plain_start_pos as nat);
            let trimmed = trim_ws(ptext);
            WalkView {
                md: buf_push_str(m, heading(p.level as nat, trim_ws(text))),
                plain: if trimmed.len() > 0 {
                    buf_push_char(buf_push_str(pl, trimmed), '\n')
                } else {
                    pl
                },
                heading: None,
                ..s
            }
        },
        None => s,
    }
}

/// The state after a link closes: its text, trimmed, becomes `[text](href)`
/// (just the text without a target).
pub open spec fn close_link(s: WalkView) -> WalkView {
    match s.link {
        Some((href, start)) => {
            let (m, text) = cut(s.md, start);
            let t = trim_ws(text);
            WalkView {
                md: buf_push_str(
                    m,
                    if href.len() == 0 {
                        t
                    } else {
                        "["@ + t + "]("@ + href + ")"@
                    },
                ),
                link: None,
                ..s
            }
        },
        None => s,
    }
}

/// The state after a table closes: it is rendered (its warnings kept);
/// inside an open cell of an enclosing table it becomes a nested-table
/// segment of that cell, otherwise it is written out.
pub open spec fn close_table(s: WalkView) -> WalkView {
    if s.tables.len() == 0 {
        s
    } else {
        let tc = s.tables.last();
        let rest = s.tables.drop_last();
        let md = crate::converter::html_table::table_render_spec(tc.rows, false);
        let plain = crate::converter::html_table::table_render_spec(tc.rows, true);
        let s1 = WalkView {
            tables: rest,
            warns: s.warns + crate::converter::html_table::table_warnings_spec(tc.rows),
            ..s
        };
        if rest.len() > 0 && rest.last().in_cell {
            let p = rest.last();
            set_top(
                s1,
                TableView {
                    cell: CellView {
                        segments: p.cell.segments.push(SegView::Table(trim_end_ws(md), trim_end_ws(plain))),
                        ..p.cell
                    },
                    ..p
                },
            )
        } else {
            WalkView { md: buf_push_str(s1.md, md), plain: buf_push_str(s1.plain, plain), ..s1 }
        }
    }
}

/// The state after an element in a table's structure closes: `thead` ends
/// header rows, `tr` completes its row, `th`/`td` complete their cell.
pub open spec fn close_table_part(s: WalkView, tag: Seq<char>) -> WalkView {
    if s.tables.len() == 0 {
        s
    } else {
        let tc = s.tables.last();
        if tag == "thead"@ {
            set_top(s, TableView { in_header: false, ..tc })
        } else if tag == "tr"@ {
            set_top(
                s,
                TableView {
                    rows: tc.rows.push(tc.row),
                    row: RowView { cells: Seq::empty(), is_header_row: false },
                    ..tc
                },
            )
        } else {
            set_top(
                s,
                TableView {
                    row: RowView { cells: tc.row.cells.push(tc.cell), ..tc.row },
                    cell: CellView { colspan: 0, rowspan: 0, segments: Seq::empty() },
                    in_cell: false,
                    ..tc
                },
            )
        }
    }
}

/// The state after an element closes, by its lower-cased tag.
pub open spec fn close_spec(s: WalkView, name: Seq<char>) -> WalkView {
    let tag = lower_ascii(name);
    if tag == "script"@ || tag == "style"@ || tag == "head"@ {
        WalkView { skip: dec(s.skip), ..s }
    } else if s.skip > 0 {
        s
    } else if heading_level(tag) is Some {
        close_heading(s)
    } else if tag == "p"@ && !in_cell(s) {
        both_blank(s)
    } else if tag == "a"@ {
        close_link(s)
    } else if tag == "strong"@ || tag == "b"@ {
        md_push(s, "**"@)
    } else if tag == "em"@ || tag == "i"@ {
        md_push(s, "*"@)
    } else if tag == "code"@ && !s.in_pre {
        md_push(s, "`"@)
    } else if tag == "pre"@ {
        WalkView {
            md: buf_push_str(buf_newline(s.md), "```\n"@),
            plain: buf_newline(s.plain),
            in_pre: false,
            ..s
        }
    } else if tag == "ul"@ || tag == "ol"@ {
        let lists = if s.lists.len() > 0 {
            s.lists.drop_last()
        } else {
            s.lists
        };
        let s1 = WalkView { lists, ..s };
        if lists.len() == 0 {
            both_blank(s1)
        } else {
            s1
        }
    } else if tag == "li"@ {
        both_newline(s)
    } else if tag == "table"@ {
        close_table(s)
    } else if tag == "thead"@ || tag == "tr"@ || tag == "th"@ || tag == "td"@ {
        close_table_part(s, tag)
    } else if tag == "blockquote"@ {
        both_newline(WalkView { bq: dec(s.bq), ..s })
    } else {
        s
    }
}

impl Buffer {
    /// Cuts the buffer back to `start` and returns what was cut off (see
    /// [`cut`]).
    pub fn cut(&mut self, start: usize) -> (t: Vec<char>)
        requires
            buffer_wf(old(self)@),
        ensures
            (final(self)@, t@) == cut(old(self)@, start as nat),
            buffer_wf(final(self)@),
    {
        let n = self.text.len();
        let st = if start <= n {
            start
        } else {
            n
        };
        let tail = crate::text::slice_chars(self.text.as_slice(), st, n);
        let head = crate::text::slice_chars(self.text.as_slice(), 0, st);
        let nl = count_trailing_nl(head.as_slice());
        proof {
            lemma_trailing_nl_len(head@);
        }
        self.text = head;
        self.nl = nl;
        tail
    }
}

impl WalkerState {
    /// Handles a heading's closing (see [`close_heading`]).
    fn close_heading(&mut self)
        requires
            old(self).wf(),
        ensures
            final(self)@ == close_heading(old(self)@),
            final(self).wf(),
    {
        match self.heading {
            Some(p) => {
                let text = self.md.cut(p.start_pos);
                let t = trim(text.as_slice());
                let h = format_heading(p.level, t.as_slice());
                self.md.push_str(h.as_slice());
                let ptext = self.plain.cut(p.plain_start_pos);
                let trimmed = trim(ptext.as_slice());
                if trimmed.len() > 0 {
                    self.plain.push_str(trimmed.as_slice());
                    self.plain.push_char('\n');
                }
                self.heading = None;
            },
            None => {},
        }
    }

    /// Handles a link's closing (see [`close_link`]).
    fn close_link(&mut self)
        requires
            old(self).wf(),
        ensures
            final(self)@ == close_link(old(self)@),
            final(self).wf(),
    {
        let link = self.link.take();
        match link {
            Some(l) => {
                let text = self.md.cut(l.start_pos);
                let t = trim(text.as_slice());
                let href = chars_of(l.href.as_str());
                if href.len() == 0 {
                    self.md.push_str(t.as_slice());
                } else {
                    let mut m: Vec<char> = Vec::new();
                    push_str(&mut m, "[");
                    push_all(&mut m, t.as_slice());
                    push_str(&mut m, "](");
                    push_all(&mut m, href.as_slice());
                    push_str(&mut m, ")");
                    self.md.push_str(m.as_slice());
                }
            },
            None => {},
        }
    }

    /// Handles a table's closing (see [`close_table`]).
    fn close_table(&mut self)
        requires
            old(self).wf(),
        ensures
            final(self)@ == close_table(old(self)@),
            final(self).wf(),
    {
        if self.tables.len() == 0 {
            return;
        }
        let ghost tv = self@.tables;
        let ghost w0 = self.warnings@;
        let tc = self.tables.pop().unwrap();
        assert(self@.tables =~= tv.drop_last());
        let (md, plain) = render_table(&tc.rows, &mut self.warnings);
        proof {
            let msgs = crate::converter::html_table::table_warnings_spec(tc@.rows);
            assert(self.warnings@.subrange(0, w0.len() as int) == w0);
            assert forall|i: int| 0 <= i < self.warnings@.len() implies (#[trigger] self.warnings@[i]).code
                == WarningCode::ResourceLimitReached && self.warnings@[i].location is None by {
                if i < w0.len() {
                    assert(self.warnings@[i] == self.warnings@.subrange(0, w0.len() as int)[i]);
                } else {
                    let j = i - w0.len();
                    assert(self.warnings@[w0.len() + j] == self.warnings@[i]);
                }
            }
            assert(self@.warns =~= old(self)@.warns + msgs) by {
                assert forall|i: int| 0 <= i < self@.warns.len() implies self@.warns[i] == (
                old(self)@.warns + msgs)[i] by {
                    if i < w0.len() {
                        assert(self.warnings@[i] == self.warnings@.subrange(0, w0.len() as int)[i]);
                    } else {
                        let j = i - w0.len();
                        assert(self.warnings@[w0.len() + j] == self.warnings@[i]);
                    }
                }
            }
        }
        let n = self.tables.len();
        if n > 0 && self.tables[n - 1].in_cell {
            let ghost tv2 = self@.tables;
            let mut p = self.tables.pop().unwrap();
            let m1 = trim_end(md.as_slice());
            let p1 = trim_end(plain.as_slice());
            let ghost segs = p@.cell.segments;
            p.current_cell.segments.push(
                CellSegment::Table { md: string_from_chars(m1.as_slice()), plain: string_from_chars(p1.as_slice()) },
            );
            assert(p@.cell.segments =~= segs.push(SegView::Table(m1@, p1@)));
            self.tables.push(p);
            assert(self@.tables =~= tv2.update(tv2.len() - 1, p@));
        } else {
            self.md.push_str(md.as_slice());
            self.plain.push_str(plain.as_slice());
        }
    }

    /// Handles a table-structure element's closing (see
    /// [`close_table_part`]).
    fn close_table_part(&mut self, tag: &Vec<char>)
        requires
            old(self).wf(),
        ensures
            final(self)@ == close_table_part(old(self)@, tag@),
            final(self).wf(),
    {
        if self.tables.len() == 0 {
            return;
        }
        if eq_str(tag.as_slice(), "thead") {
            self.top_set_header(false);
            return;
        }
        let ghost tv = self@.tables;
        let mut tc = self.tables.pop().unwrap();
        if eq_str(tag.as_slice(), "tr") {
            let mut row = HtmlRow { cells: Vec::new(), is_header_row: false };
            std::mem::swap(&mut row, &mut tc.current_row);
            let ghost rows0 = tc@.rows;
            tc.rows.push(row);
            assert(tc@.rows =~= rows0.push(row@));
            assert(tc@.row.cells =~= Seq::<CellView>::empty());
        } else {
            let mut cell = HtmlCell::new(0, 0);
            std::mem::swap(&mut cell, &mut tc.current_cell);
            let ghost cells0 = tc@.row.cells;
            tc.current_row.cells.push(cell);
            assert(tc@.row.cells =~= cells0.push(cell@));
            tc.in_cell = false;
        }
        self.tables.push(tc);
        assert(self@.tables =~= tv.update(tv.len() - 1, tc@));
    }

    /// Handles an element's closing (see [`close_spec`]).
    pub fn handle_close(&mut self, name: &str)
        requires
            old(self).wf(),
        ensures
            final(self)@ == close_spec(old(self)@, name@),
            final(self).wf(),
    {
        let nc = chars_of(name);
        let tag = to_ascii_lower(nc.as_slice());
        let t = tag.as_slice();
        if eq_str(t, "script") || eq_str(t, "style") || eq_str(t, "head") {
            if self.skip_depth > 0 {
                self.skip_depth = self.skip_depth - 1;
            }
        } else if self.skip_depth > 0 {
        } else if t.len() == 2 && t[0] == 'h' && '1' <= t[1] && t[1] <= '6' {
            self.close_heading();
        } else if eq_str(t, "p") && !self.in_table_cell() {
            self.both_blank();
        } else if eq_str(t, "a") {
            self.close_link();
        } else if eq_str(t, "strong") || eq_str(t, "b") {
            self.md_push("**");
        } else if eq_str(t, "em") || eq_str(t, "i") {
            self.md_push("*");
        } else if eq_str(t, "code") && !self.in_pre {
            self.md_push("`");
        } else if eq_str(t, "pre") {
            self.md.ensure_newline();
            self.md_push("```\n");
            self.plain.ensure_newline();
            self.in_pre = false;
        } else if eq_str(t, "ul") || eq_str(t, "ol") {
            let ghost l0 = self.lists@;
            if self.lists.len() > 0 {
                self.lists.pop();
                assert(self.lists@ =~= l0.drop_last());
            }
            if self.lists.len() == 0 {
                self.both_blank();
            }
        } else if eq_str(t, "li") {
            self.both_newline();
        } else if eq_str(t, "table") {
            self.close_table();
        } else if eq_str(t, "thead") || eq_str(t, "tr") || eq_str(t, "th") || eq_str(t, "td") {
            self.close_table_part(&tag);
        } else if eq_str(t, "blockquote") {
            if self.blockquote_depth > 0 {
                self.blockquote_depth = self.blockquote_depth - 1;
            }
            self.both_newline();
        }
    }
}

// ---------------------------------------------------------------------------
// The walk
// ---------------------------------------------------------------------------

/// The state after one event.
pub open spec fn step_spec(s: WalkView, e: DomEvent) -> WalkView {
    match e {
        DomEvent::Open(el) => open_spec(s, el),
        DomEvent::Text(t) => text_spec(s, t@),
        DomEvent::Close(n) => close_spec(s, n@),
        DomEvent::Other => s,
    }
}

/// The state after the events, from the initial state.
pub open spec fn walk_spec(events: Seq<DomEvent>) -> WalkView
    decreases events.len(),
{
    if events.len() == 0 {
        initial_view()
    } else {
        step_spec(walk_spec(events.drop_last()), events.last())
    }
}

/// A finished output: trimmed, with one final newline unless empty.
pub open spec fn finish(t: Seq<char>) -> Seq<char> {
    let x = trim_ws(t);
    if x.len() == 0 {
        x
    } else {
        x.push('\n')
    }
}

/// Whether the warnings are the limit warnings with the given messages.
pub open spec fn limit_warnings_are(ws: Seq<ConversionWarning>, msgs: Seq<Seq<char>>) -> bool {
    &&& limit_warnings_only(ws)
    &&& ws.map_values(|w: ConversionWarning| w.message@) == msgs
}

/// A finished output (see [`finish`]).
fn finish_chars(t: &[char]) -> (v: Vec<char>)
    ensures
        v@ == finish(t@),
{
    let mut x = trim(t);
    if x.len() > 0 {
        x.push('\n');
    }
    x
}

/// Walks the events of a document (see [`walk_spec`]) and returns its
/// Markdown, its plain text (both finished, see [`finish`]) and the
/// warnings of its tables.
pub fn walk_events(events: &Vec<DomEvent>) -> (r: (String, String, Vec<ConversionWarning>))
    ensures
        r.0@ == finish(walk_spec(events@).md.text),
        r.1@ == finish(walk_spec(events@).plain.text),
        limit_warnings_are(r.2@, walk_spec(events@).warns),
{
    let mut state = WalkerState::new();
    let mut i: usize = 0;
    while i < events.len()
        invariant
            i <= events.len(),
            state.wf(),
            state@ == walk_spec(events@.subrange(0, i as int)),
        decreases events.len() - i,
    {
        assert(events@.subrange(0, i + 1).drop_last() =~= events@.subrange(0, i as int));
        match &events[i] {
            DomEvent::Open(e) => state.handle_open(e),
            DomEvent::Text(t) => state.handle_text(t.as_str()),
            DomEvent::Close(n) => state.handle_close(n.as_str()),
            DomEvent::Other => {},
        }
        i = i + 1;
    }
    assert(events@.subrange(0, events.len() as int) =~= events@);
    let md = finish_chars(state.md.text.as_slice());
    let plain = finish_chars(state.plain.text.as_slice());
    (string_from_chars(md.as_slice()), string_from_chars(plain.as_slice()), state.warnings)
}

// ---------------------------------------------------------------------------
// Title
// ---------------------------------------------------------------------------

/// Whether `e` opens an element named `name`.
pub open spec fn opens(e: DomEvent, name: Seq<char>) -> bool {
    e matches DomEvent::Open(el) && el.name@ == name
}

/// The index of the first event from `k` on that opens `name`.
pub open spec fn find_open(events: Seq<DomEvent>, name: Seq<char>, k: int) -> Option<int>
    decreases events.len() - k,
{
    if k < 0 || k >= events.len() {
        None
    } else if opens(events[k], name) {
        Some(k)
    } else {
        find_open(events, name, k + 1)
    }
}

/// The text inside an element named `name`, from event `k` on, `depth`
/// same-named elements deep: text events up to the element's close.
pub open spec fn text_within(events: Seq<DomEvent>, name: Seq<char>, k: int, depth: nat) -> Seq<char>
    decreases events.len() - k,
{
    if k < 0 || k >= events.len() {
        Seq::empty()
    } else {
        match events[k] {
            DomEvent::Close(n) => if n@ == name {
                if depth == 0 {
                    Seq::empty()
                } else {
                    text_within(events, name, k + 1, (depth - 1) as nat)
                }
            } else {
                text_within(events, name, k + 1, depth)
            },
            DomEvent::Open(el) => if el.name@ == name {
                text_within(events, name, k + 1, depth + 1)
            } else {
                text_within(events, name, k + 1, depth)
            },
            DomEvent::Text(t) => t@ + text_within(events, name, k + 1, depth),
            DomEvent::Other => text_within(events, name, k + 1, depth),
        }
    }
}

/// The trimmed text of the first element named `name`, when there is one.
pub open spec fn element_text(events: Seq<DomEvent>, name: Seq<char>) -> Option<Seq<char>> {
    match find_open(events, name, 0) {
        Some(i) => Some(trim_ws(text_within(events, name, i + 1, 0))),
        None => None,
    }
}

/// The document's title: the text of its first `title` element, or else
/// that of its first `h1`, when not blank.
pub open spec fn title_spec(events: Seq<DomEvent>) -> Option<Seq<char>> {
    match element_text(events, "title"@) {
        Some(t) if t.len() > 0 => Some(t),
        _ => match element_text(events, "h1"@) {
            Some(t) if t.len() > 0 => Some(t),
            _ => None,
        },
    }
}

/// The trimmed text of the first element named `name` (see
/// [`element_text`]).
fn first_element_text(events: &Vec<DomEvent>, name: &str) -> (r: Option<Vec<char>>)
    ensures
        r matches Some(t) ==> element_text(events@, name@) == Some(t@),
        r is None ==> element_text(events@, name@) is None,
{
    let mut i: usize = 0;
    while i < events.len()
        invariant
            i <= events.len(),
            find_open(events@, name@, 0) == find_open(events@, name@, i as int),
        ensures
            i < events.len() ==> find_open(events@, name@, 0) == Some(i as int),
            i >= events.len() ==> find_open(events@, name@, 0) is None,
        decreases events.len() - i,
    {
        let found = match &events[i] {
            DomEvent::Open(el) => {
                let n = chars_of(el.name.as_str());
                eq_str(n.as_slice(), name)
            },
            _ => false,
        };
        if found {
            assert(opens(events@[i as int], name@));
            break;
        }
        i = i + 1;
    }
    if i >= events.len() {
        return None;
    }
    let mut text: Vec<char> = Vec::new();
    let mut depth: usize = 0;
    let mut k = i + 1;
    while k < events.len()
        invariant
            i < events.len(),
            i + 1 <= k <= events.len(),
            find_open(events@, name@, 0) == Some(i as int),
            depth <= k,
            text@ + text_within(events@, name@, k as int, depth as nat) == text_within(
                events@,
                name@,
                i + 1,
                0,
            ),
        ensures
            text@ == text_within(events@, name@, i + 1, 0),
        decreases events.len() - k,
    {
        match &events[k] {
            DomEvent::Close(n) => {
                let nc = chars_of(n.as_str());
                if eq_str(nc.as_slice(), name) {
                    if depth == 0 {
                        assert(text_within(events@, name@, k as int, depth as nat) =~= Seq::<char>::empty());
                        assert(text@ =~= text@ + Seq::<char>::empty());
                        break;
                    }
                    depth = depth - 1;
                }
            },
            DomEvent::Open(el) => {
                let nc = chars_of(el.name.as_str());
                if eq_str(nc.as_slice(), name) {
                    depth = depth + 1;
                }
            },
            DomEvent::Text(t) => {
                let tc = chars_of(t.as_str());
                let ghost before = text@;
                push_all(&mut text, tc.as_slice());
                assert(text@ + text_within(events@, name@, k + 1, depth as nat) =~= before + (tc@
                    + text_within(events@, name@, k + 1, depth as nat)));
            },
            DomEvent::Other => {},
        }
        k = k + 1;
    }
    Some(trim(text.as_slice()))
}

/// The document's title (see [`title_spec`]).
pub fn extract_title(events: &Vec<DomEvent>) -> (r: Option<String>)
    ensures
        r matches Some(t) ==> title_spec(events@) == Some(t@),
        r is None ==> title_spec(events@) is None,
{
    match first_element_text(events, "title") {
        Some(t) => {
            if t.len() > 0 {
                return Some(string_from_chars(t.as_slice()));
            }
        },
        None => {},
    }
    match first_element_text(events, "h1") {
        Some(t) => {
            if t.len() > 0 {
                return Some(string_from_chars(t.as_slice()));
            }
        },
        None => {},
    }
    None
}

// ---------------------------------------------------------------------------
// The converter
// ---------------------------------------------------------------------------

/// Converts HTML files to Markdown.
pub struct HtmlConverter;

/// The text an HTML file is read as: its UTF-8 decoding without a leading
/// byte order mark.
pub open spec fn html_text(data: Seq<u8>) -> Seq<char> {
    crate::converter::strip_bom_spec(vstd::utf8::decode_utf8(data))
}

impl HtmlConverter {
    /// Converts an HTML file: data that is not UTF-8 is an error; otherwise
    /// the walk of its document gives the Markdown, the plain text and the
    /// warnings (see [`walk_events`]), and its title (see [`title_spec`]).
    pub fn convert_html(&self, data: &[u8]) -> (r: Result<ConversionResult, ConvertError>)
        ensures
            !vstd::utf8::valid_utf8(data@) ==> (r matches Err(e) && e == ConvertError::Utf8Error),
            vstd::utf8::valid_utf8(data@) ==> r is Ok,
            r matches Ok(res) ==> {
                let ev = html_events(html_text(data@));
                &&& res.markdown@ == finish(walk_spec(ev).md.text)
                &&& res.plain_text@ == finish(walk_spec(ev).plain.text)
                &&& limit_warnings_are(res.warnings@, walk_spec(ev).warns)
                &&& (res.title matches Some(t) ==> title_spec(ev) == Some(t@))
                &&& (res.title is None ==> title_spec(ev) is None)
                &&& res.images@.len() == 0
            },
    {
        let text = match crate::zip_io::utf8_to_string(data) {
            Some(t) => t,
            None => {
                return Err(ConvertError::Utf8Error);
            },
        };
        let c = chars_of(text.as_str());
        let stripped = crate::converter::strip_bom(c.as_slice());
        let s = string_from_chars(stripped.as_slice());
        let events = parse_html_events(s.as_str());
        let title = extract_title(&events);
        let (markdown, plain_text, warnings) = walk_events(&events);
        Ok(ConversionResult { markdown, plain_text, title, images: Vec::new(), warnings })
    }
}

/// What converting an HTML file gives (see [`HtmlConverter::convert_html`]).
pub open spec fn html_convert_outcome(
    data: Seq<u8>,
    options: ConversionOptions,
    r: Result<ConversionResult, ConvertError>,
) -> bool {
    &&& !vstd::utf8::valid_utf8(data) ==> (r matches Err(e) && e == ConvertError::Utf8Error)
    &&& vstd::utf8::valid_utf8(data) ==> r is Ok
    &&& r matches Ok(res) ==> {
        let ev = html_events(html_text(data));
        &&& res.markdown@ == finish(walk_spec(ev).md.text)
        &&& res.plain_text@ == finish(walk_spec(ev).plain.text)
        &&& limit_warnings_are(res.warnings@, walk_spec(ev).warns)
        &&& (res.title matches Some(t) ==> title_spec(ev) == Some(t@))
        &&& (res.title is None ==> title_spec(ev) is None)
        &&& res.images@.len() == 0
    }
}

impl Converter for HtmlConverter {
    open spec fn extensions(&self) -> Seq<&'static str> {
        seq!["html", "htm"]
    }

    fn supported_extensions(&self) -> (r: Vec<&'static str>) {
        let v = vec!["html", "htm"];
        assert(v@ =~= seq!["html", "htm"]);
        v
    }

    fn convert(&self, data: &[u8], options: &ConversionOptions) -> (r: Result<
        ConversionResult,
        ConvertError,
    >)
        ensures
            html_convert_outcome(data@, *options, r),
    {
        self.convert_html(data)
    }
}

/// Emphasis outside skipped content: an `<i>` or `<em>` element writes the
/// single-asterisk italic marker where it opens and where it closes, and a
/// `<b>` or `<strong>` element the double-asterisk bold marker; nothing
/// else changes.
pub proof fn lemma_emphasis_markers(s: WalkView, e: HtmlElement, closing: Seq<char>)
    requires
        s.skip == 0,
    ensures
        (lower_ascii(e.name@) == "i"@ || lower_ascii(e.name@) == "em"@) ==> open_spec(s, e)
            == md_push(s, seq!['*']),
        (lower_ascii(e.name@) == "b"@ || lower_ascii(e.name@) == "strong"@) ==> open_spec(s, e)
            == md_push(s, seq!['*', '*']),
        (lower_ascii(closing) == "i"@ || lower_ascii(closing) == "em"@) ==> close_spec(s, closing)
            == md_push(s, seq!['*']),
        (lower_ascii(closing) == "b"@ || lower_ascii(closing) == "strong"@) ==> close_spec(
            s,
            closing,
        ) == md_push(s, seq!['*', '*']),
{
    reveal_strlit("script");
    assert("script"@.len() == 6);
    reveal_strlit("style");
    assert("style"@.len() == 5);
    reveal_strlit("head");
    assert("head"@.len() == 4);
    reveal_strlit("p");
    assert("p"@.len() == 1);
    reveal_strlit("a");
    assert("a"@.len() == 1);
    reveal_strlit("img");
    assert("img"@.len() == 3);
    reveal_strlit("strong");
    assert("strong"@.len() == 6);
    reveal_strlit("b");
    assert("b"@.len() == 1);
    reveal_strlit("em");
    assert("em"@.len() == 2);
    reveal_strlit("i");
    assert("i"@.len() == 1);
    reveal_strlit("*");
    reveal_strlit("**");
    assert("*"@ =~= seq!['*']);
    assert("**"@ =~= seq!['*', '*']);
    assert("i"@[0] != "p"@[0]);
    assert("i"@[0] != "a"@[0]);
    assert("i"@[0] != "b"@[0]);
    assert("b"@[0] != "p"@[0]);
    assert("b"@[0] != "a"@[0]);
    assert("b"@[0] != "i"@[0]);
    assert("strong"@[1] != "script"@[1]);
}

/// The Markdown buffer after a push holds the old text followed by the
/// pushed marker.
pub proof fn lemma_md_push_appends(s: WalkView, t: Seq<char>)
    ensures
        md_push(s, t).md.text == s.md.text + t,
        md_push(s, t).plain == s.plain,
{
    if t.len() == 0 {
        assert(s.md.text + t =~= s.md.text);
    }
}

/// Inline code outside a preformatted block and outside skipped content:
/// a `<code>` element writes a backtick where it opens and where it closes.
pub proof fn lemma_code_marker(s: WalkView, e: HtmlElement, closing: Seq<char>)
    requires
        s.skip == 0,
        !s.in_pre,
    ensures
        lower_ascii(e.name@) == "code"@ ==> open_spec(s, e) == md_push(s, seq!['`']),
        lower_ascii(closing) == "code"@ ==> close_spec(s, closing) == md_push(s, seq!['`']),
{
    reveal_strlit("script");
    assert("script"@.len() == 6);
    reveal_strlit("style");
    assert("style"@.len() == 5);
    reveal_strlit("head");
    assert("head"@.len() == 4);
    reveal_strlit("p");
    assert("p"@.len() == 1);
    reveal_strlit("a");
    assert("a"@.len() == 1);
    reveal_strlit("img");
    assert("img"@.len() == 3);
    reveal_strlit("strong");
    assert("strong"@.len() == 6);
    reveal_strlit("b");
    assert("b"@.len() == 1);
    reveal_strlit("em");
    assert("em"@.len() == 2);
    reveal_strlit("i");
    assert("i"@.len() == 1);
    reveal_strlit("code");
    assert("code"@.len() == 4);
    reveal_strlit("`");
    assert("`"@ =~= seq!['`']);
    assert("code"@[0] != "head"@[0]);
}

/// Lists outside skipped content: `<ol>` opens an ordered list and `<ul>`
/// a bulleted one, each with no items yet; an `<li>` in an ordered list is
/// marked with the next number and `. ` (1, 2, 3, ...), in a bulleted list
/// with `- `, after the indentation of the current nesting.
pub proof fn lemma_list_markers(s: WalkView, e: HtmlElement)
    requires
        s.skip == 0,
    ensures
        lower_ascii(e.name@) == "ol"@ ==> open_spec(s, e).lists == s.lists.push(
            ListContext { ordered: true, item_count: 0 },
        ),
        lower_ascii(e.name@) == "ul"@ ==> open_spec(s, e).lists == s.lists.push(
            ListContext { ordered: false, item_count: 0 },
        ),
        (lower_ascii(e.name@) == "li"@ && s.lists.len() > 0 && s.lists.last().ordered
            && s.lists.last().item_count < usize::MAX) ==> {
            let n = s.lists.last().item_count + 1;
            &&& open_spec(s, e).md == buf_push_str(
                s.md,
                li_indent(s) + decimal(n as nat) + seq!['.', ' '],
            )
            &&& open_spec(s, e).lists.len() == s.lists.len()
            &&& open_spec(s, e).lists.last() == ListContext { ordered: true, item_count: n as usize }
        },
        (lower_ascii(e.name@) == "li"@ && (s.lists.len() == 0 || !s.lists.last().ordered)) ==> open_spec(
            s,
            e,
        ).md == buf_push_str(s.md, li_indent(s) + seq!['-', ' ']),
{
    reveal_strlit("script");
    assert("script"@.len() == 6);
    reveal_strlit("style");
    assert("style"@.len() == 5);
    reveal_strlit("head");
    assert("head"@.len() == 4);
    reveal_strlit("p");
    assert("p"@.len() == 1);
    reveal_strlit("a");
    assert("a"@.len() == 1);
    reveal_strlit("img");
    assert("img"@.len() == 3);
    reveal_strlit("strong");
    assert("strong"@.len() == 6);
    reveal_strlit("b");
    assert("b"@.len() == 1);
    reveal_strlit("em");
    assert("em"@.len() == 2);
    reveal_strlit("i");
    assert("i"@.len() == 1);
    reveal_strlit("code");
    assert("code"@.len() == 4);
    reveal_strlit("pre");
    assert("pre"@.len() == 3);
    reveal_strlit("ul");
    assert("ul"@.len() == 2);
    reveal_strlit("ol");
    assert("ol"@.len() == 2);
    reveal_strlit("li");
    assert("li"@.len() == 2);
    assert("ul"@[0] != "em"@[0]);
    assert("ul"@[0] != "ol"@[0]);
    assert("ul"@[0] != "li"@[0]);
    assert("ol"@[0] != "em"@[0]);
    assert("ol"@[0] != "ul"@[0]);
    assert("ol"@[0] != "li"@[0]);
    assert("li"@[0] != "em"@[0]);
    assert("li"@[0] != "ul"@[0]);
    assert("li"@[0] != "ol"@[0]);
}

} // verus!
