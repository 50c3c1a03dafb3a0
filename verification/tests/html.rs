use anytomd::converter::html::HtmlConverter;
use anytomd::converter::{ConversionOptions, ConversionResult, Converter, WarningCode};

fn convert_html(html: &str) -> ConversionResult {
    let converter = HtmlConverter;
    converter
        .convert(html.as_bytes(), &ConversionOptions::default())
        .unwrap()
}

#[test]
fn test_html_supported_extensions() {
    let converter = HtmlConverter;
    let exts = converter.supported_extensions();
    assert_eq!(exts, &["html", "htm"]);
}

#[test]
fn test_html_can_convert() {
    let converter = HtmlConverter;
    assert!(converter.can_convert("html", &[]));
    assert!(converter.can_convert("htm", &[]));
    assert!(!converter.can_convert("txt", &[]));
    assert!(!converter.can_convert("docx", &[]));
}

#[test]
fn test_html_empty_document() {
    let result = convert_html("");
    assert!(result.markdown.is_empty());
}

#[test]
fn test_html_headings_h1_through_h6() {
    let html = r#"<h1>H1</h1><h2>H2</h2><h3>H3</h3><h4>H4</h4><h5>H5</h5><h6>H6</h6>"#;
    let result = convert_html(html);
    assert!(result.markdown.contains("# H1"));
    assert!(result.markdown.contains("## H2"));
    assert!(result.markdown.contains("### H3"));
    assert!(result.markdown.contains("#### H4"));
    assert!(result.markdown.contains("##### H5"));
    assert!(result.markdown.contains("###### H6"));
}

#[test]
fn test_html_paragraph_basic() {
    let html = "<p>First paragraph</p><p>Second paragraph</p>";
    let result = convert_html(html);
    assert!(result.markdown.contains("First paragraph"));
    assert!(result.markdown.contains("Second paragraph"));
    // Should have blank line between paragraphs
    assert!(
        result
            .markdown
            .contains("First paragraph\n\nSecond paragraph")
    );
}

#[test]
fn test_html_bold_and_italic() {
    let html = "<p><strong>bold</strong> and <em>italic</em></p>";
    let result = convert_html(html);
    assert!(result.markdown.contains("**bold**"));
    assert!(result.markdown.contains("*italic*"));
}

#[test]
fn test_html_b_and_i_tags() {
    let html = "<p><b>bold</b> and <i>italic</i></p>";
    let result = convert_html(html);
    assert!(result.markdown.contains("**bold**"));
    assert!(result.markdown.contains("*italic*"));
}

#[test]
fn test_html_inline_code() {
    let html = "<p>Use <code>cargo build</code> to compile.</p>";
    let result = convert_html(html);
    assert!(result.markdown.contains("`cargo build`"));
}

#[test]
fn test_html_code_block() {
    let html = "<pre><code>fn main() {\n    println!(\"hello\");\n}</code></pre>";
    let result = convert_html(html);
    assert!(result.markdown.contains("```\n"));
    assert!(result.markdown.contains("fn main()"));
    assert!(result.markdown.contains("println!"));
}

#[test]
fn test_html_link_basic() {
    let html = r#"<a href="https://example.com">Example</a>"#;
    let result = convert_html(html);
    assert!(result.markdown.contains("[Example](https://example.com)"));
}

#[test]
fn test_html_link_no_href() {
    let html = "<a>just text</a>";
    let result = convert_html(html);
    assert!(result.markdown.contains("just text"));
    assert!(!result.markdown.contains("["));
}

#[test]
fn test_html_image_basic() {
    let html = r#"<img src="photo.jpg" alt="A photo">"#;
    let result = convert_html(html);
    assert!(result.markdown.contains("![A photo](photo.jpg)"));
}

#[test]
fn test_html_image_no_alt() {
    let html = r#"<img src="photo.jpg">"#;
    let result = convert_html(html);
    assert!(result.markdown.contains("![](photo.jpg)"));
}

#[test]
fn test_html_unordered_list() {
    let html = "<ul><li>Apple</li><li>Banana</li><li>Cherry</li></ul>";
    let result = convert_html(html);
    assert!(result.markdown.contains("- Apple"));
    assert!(result.markdown.contains("- Banana"));
    assert!(result.markdown.contains("- Cherry"));
}

#[test]
fn test_html_ordered_list() {
    let html = "<ol><li>First</li><li>Second</li><li>Third</li></ol>";
    let result = convert_html(html);
    assert!(result.markdown.contains("1. First"));
    assert!(result.markdown.contains("2. Second"));
    assert!(result.markdown.contains("3. Third"));
}

#[test]
fn test_html_nested_list() {
    let html = r#"<ul>
        <li>Outer
            <ul>
                <li>Inner A</li>
                <li>Inner B</li>
            </ul>
        </li>
        <li>Outer 2</li>
    </ul>"#;
    let result = convert_html(html);
    assert!(result.markdown.contains("- Outer"));
    assert!(result.markdown.contains("  - Inner A"));
    assert!(result.markdown.contains("  - Inner B"));
    assert!(result.markdown.contains("- Outer 2"));
}

#[test]
fn test_html_table_basic() {
    let html = r#"<table>
        <thead><tr><th>Name</th><th>Age</th></tr></thead>
        <tbody>
            <tr><td>Alice</td><td>30</td></tr>
            <tr><td>Bob</td><td>25</td></tr>
        </tbody>
    </table>"#;
    let result = convert_html(html);
    assert!(result.markdown.contains("| Name | Age |"));
    assert!(result.markdown.contains("|---|---|"));
    assert!(result.markdown.contains("| Alice | 30 |"));
    assert!(result.markdown.contains("| Bob | 25 |"));
}

#[test]
fn test_html_table_no_thead() {
    let html = r#"<table>
        <tr><td>Name</td><td>Age</td></tr>
        <tr><td>Alice</td><td>30</td></tr>
    </table>"#;
    let result = convert_html(html);
    assert!(result.markdown.contains("| Name | Age |"));
    assert!(result.markdown.contains("| Alice | 30 |"));
}

#[test]
fn test_html_table_empty_cells() {
    let html = r#"<table>
        <thead><tr><th>A</th><th>B</th><th>C</th></tr></thead>
        <tbody><tr><td>1</td><td></td><td>3</td></tr></tbody>
    </table>"#;
    let result = convert_html(html);
    assert!(result.markdown.contains("| 1 |  | 3 |"));
}

#[test]
fn test_html_table_colspan_preserved() {
    // A full-width colspan banner over a 2-column data grid. Both data
    // columns must survive (previously only the first was kept).
    let html = r#"<table>
        <tr><td colspan="2">Banner</td></tr>
        <tr><td>A</td><td>B</td></tr>
    </table>"#;
    let result = convert_html(html);
    assert!(result.markdown.contains("A"), "md: {}", result.markdown);
    assert!(result.markdown.contains("B"), "md: {}", result.markdown);
    assert!(
        result.markdown.contains("| A | B |"),
        "both columns missing: {}",
        result.markdown
    );
}

#[test]
fn test_html_table_full_width_banner_is_grid_row() {
    // A full-width colspan row stays a grid row (empty-filled), not a heading
    // or bold paragraph.
    let html = r#"<table>
        <tr><td colspan="3">Section</td></tr>
        <tr><td>a</td><td>b</td><td>c</td></tr>
    </table>"#;
    let result = convert_html(html);
    assert!(
        result.markdown.contains("| Section |  |  |"),
        "banner not an empty-filled header: {}",
        result.markdown
    );
    assert!(
        result.markdown.contains("| a | b | c |"),
        "md: {}",
        result.markdown
    );
    assert!(!result.markdown.contains('#'), "md: {}", result.markdown);
    assert!(!result.markdown.contains("**"), "md: {}", result.markdown);
}

#[test]
fn test_html_table_heading_in_banner_inline() {
    // A heading inside a full-width cell keeps its text inline in the grid cell
    // (no `##` promotion).
    let html = r#"<table>
        <tr><td colspan="3"><h2>Section</h2></td></tr>
        <tr><td>a</td><td>b</td><td>c</td></tr>
    </table>"#;
    let result = convert_html(html);
    assert!(
        result.markdown.contains("| Section |  |  |"),
        "md: {}",
        result.markdown
    );
    assert!(
        !result.markdown.contains("## Section"),
        "md: {}",
        result.markdown
    );
}

#[test]
fn test_html_table_label_value_kept_as_grid_row() {
    // A narrow-label + wide-value row stays a grid row (empty-filled), not a
    // `**Label:** value` line.
    let html = r#"<table>
        <tr><td>Date</td><td colspan="2">Monday</td></tr>
        <tr><td>a</td><td>b</td><td>c</td></tr>
    </table>"#;
    let result = convert_html(html);
    assert!(
        result.markdown.contains("| Date | Monday |  |"),
        "md: {}",
        result.markdown
    );
    assert!(
        !result.markdown.contains("**Date:**"),
        "md: {}",
        result.markdown
    );
}

#[test]
fn test_html_table_rowspan_preserved() {
    // rowspan on the first column: the second data row's other columns must
    // not shift left into the spanned column.
    let html = r#"<table>
        <tr><td rowspan="2">Merged</td><td>X1</td><td>Y1</td></tr>
        <tr><td>X2</td><td>Y2</td></tr>
    </table>"#;
    let result = convert_html(html);
    for needle in ["Merged", "X1", "Y1", "X2", "Y2"] {
        assert!(
            result.markdown.contains(needle),
            "missing {needle}: {}",
            result.markdown
        );
    }
    // Second row: spanned column is empty, X2/Y2 stay in columns 2 and 3.
    assert!(
        result.markdown.contains("|  | X2 | Y2 |"),
        "rowspan column not preserved: {}",
        result.markdown
    );
}

#[test]
fn test_html_nested_table() {
    let html = r#"<table>
        <tr><td colspan="2">Outer</td></tr>
        <tr><td>cell<table><tr><td>inner1</td><td>inner2</td></tr></table></td><td>right</td></tr>
    </table>"#;
    let result = convert_html(html);
    for needle in ["Outer", "inner1", "inner2", "right"] {
        assert!(
            result.markdown.contains(needle),
            "missing {needle}: {}",
            result.markdown
        );
    }
    // The inner table renders as a real GFM table, not escaped into a cell.
    assert!(
        result.markdown.contains("| inner1 | inner2 |"),
        "inner table mangled: {}",
        result.markdown
    );
    // No escaped pipes leaking from a crammed nested table.
    assert!(
        !result.markdown.contains("\\|"),
        "escaped pipes leaked: {}",
        result.markdown
    );
    // Plain text must not contain raw GFM pipe rows from the inner table.
    assert!(
        !result.plain_text.contains("|---|"),
        "plain text leaked table syntax: {:?}",
        result.plain_text
    );
}

#[test]
fn test_html_nested_table_in_simple_outer() {
    // A nested table inside an otherwise-uniform (no-span) outer table must
    // still render as a standalone block, not be flattened into one cell.
    let html = r#"<table><tr><td>a<table><tr><td>x</td><td>y</td></tr></table></td><td>b</td></tr></table>"#;
    let result = convert_html(html);
    assert!(
        result.markdown.contains("| x | y |"),
        "inner table mangled: {}",
        result.markdown
    );
    assert!(
        !result.markdown.contains("<br>") && !result.markdown.contains("\\|"),
        "nested table crammed into a cell: {}",
        result.markdown
    );
    assert!(
        !result.plain_text.contains('|'),
        "plain text leaked pipes: {:?}",
        result.plain_text
    );
}

#[test]
fn test_html_rowspan_colspan_no_empty_label() {
    // A rowspan placeholder followed by a colspan value must not be rendered as
    // an empty-label `**:**` line.
    let html = r#"<table><tr><td rowspan="2">R</td><td>a</td></tr><tr><td colspan="2">wide</td></tr></table>"#;
    let result = convert_html(html);
    assert!(
        !result.markdown.contains("**:**"),
        "empty-label artifact: {}",
        result.markdown
    );
    assert!(result.markdown.contains("wide"), "md: {}", result.markdown);
}

#[test]
fn test_html_label_colons_preserved_in_grid_cell() {
    // A label cell keeps its text verbatim (colons included) as a grid cell.
    let html = r#"<table><tr><td>Ratio::</td><td colspan="2">val</td></tr><tr><td>p</td><td>q</td><td>r</td></tr></table>"#;
    let result = convert_html(html);
    assert!(
        result.markdown.contains("| Ratio:: | val |  |"),
        "label not a grid cell: {}",
        result.markdown
    );
}

#[test]
fn test_html_multi_row_thead_preserved() {
    // A two-row <thead> must not silently drop the second header row.
    let html = r#"<table><thead><tr><th>H1a</th><th>H1b</th></tr><tr><th>H2a</th><th>H2b</th></tr></thead><tbody><tr><td>d1</td><td>d2</td></tr></tbody></table>"#;
    let result = convert_html(html);
    for needle in ["H1a", "H1b", "H2a", "H2b", "d1", "d2"] {
        assert!(
            result.markdown.contains(needle),
            "header/data dropped: missing {needle}: {}",
            result.markdown
        );
    }
}

#[test]
fn test_html_multi_heading_banner_separated() {
    // Two headings in one banner cell must not mash into "FirstSecond".
    let html = r#"<table><tr><td colspan="2"><h1>First</h1><h3>Second</h3></td></tr><tr><td>a</td><td>b</td></tr></table>"#;
    let result = convert_html(html);
    assert!(
        !result.markdown.contains("FirstSecond"),
        "headings mashed: {}",
        result.markdown
    );
    assert!(
        result.markdown.contains("First Second"),
        "md: {}",
        result.markdown
    );
}

#[test]
fn test_html_colspan_bounded_no_dos() {
    // A huge colspan in a tiling row must not allocate unbounded output.
    let html = r#"<table><tr><td colspan="1000000">X</td><td>Y</td></tr><tr><td colspan="1000000">P</td><td>Q</td></tr></table>"#;
    let result = convert_html(html);
    assert!(
        result.markdown.len() < 100_000,
        "output not bounded: {} bytes",
        result.markdown.len()
    );
    assert!(result.markdown.contains('X'));
}

#[test]
fn test_html_rowspan_colspan_product_bounded_no_dos() {
    // A single <td rowspan=N colspan=N> followed by N-1 empty <tr> rows would,
    // before the MAX_TABLE_CELLS cap, materialize ~N*N placeholder cells
    // (~16.7M for N=4096) via normalize_html_rowspans. This exercises the
    // ACTUAL normalize/expand path (the colspan-only DoS test hits Fallback and
    // never expands). The result must be produced quickly and stay bounded.
    let n = 4096;
    let mut html = String::from("<table><tr>");
    html.push_str(&format!(r#"<td rowspan="{n}" colspan="{n}">RC</td>"#));
    html.push_str("</tr>");
    for _ in 1..n {
        html.push_str("<tr></tr>");
    }
    html.push_str("</table>");

    let start = std::time::Instant::now();
    let result = convert_html(&html);
    let elapsed = start.elapsed();

    // Without the MAX_TABLE_CELLS cap this would materialize ~16.7M cells
    // (~1.6 GB) and, since every table renders as one GFM grid, escape and
    // join all of them into gigabytes of markdown. The cap bounds the cell
    // count (~MAX_TABLE_CELLS), so both the materialized cells and the rendered
    // grid stay bounded. The speed assertion below is the real DoS guard (no
    // quadratic O(rows*width) scan).
    assert!(
        result.markdown.len() < 8_000_000,
        "output not bounded: {} bytes",
        result.markdown.len()
    );
    assert!(
        elapsed < std::time::Duration::from_secs(5),
        "normalize too slow: {elapsed:?}"
    );
    assert!(
        result.markdown.contains("RC"),
        "content dropped: {}",
        result.markdown
    );
}

#[test]
fn test_html_rowspan_colspan_same_cell_grid() {
    // A cell that spans 2 rows AND 2 columns simultaneously. The header row
    // shows the real cell, one in-cell colspan blank, then the trailing cell;
    // the data row shows two rowspan placeholders, then its own cell.
    let html = r#"<table><tr><td rowspan="2" colspan="2">RC</td><td>X</td></tr><tr><td>Y</td></tr></table>"#;
    let result = convert_html(html);
    assert!(
        result.markdown.contains("| RC |  | X |"),
        "header grid wrong: {}",
        result.markdown
    );
    assert!(
        result.markdown.contains("|  |  | Y |"),
        "data grid wrong: {}",
        result.markdown
    );
}

#[test]
fn test_html_plain_linearized_flattened() {
    let html = r#"<table>
        <tr><td colspan="3">Section</td></tr>
        <tr><td>Field</td><td colspan="2">Value</td></tr>
        <tr><td>A</td><td>B</td><td>C</td></tr>
    </table>"#;
    let result = convert_html(html);
    // Plain text: no markdown markers in linearized parts.
    assert!(
        result.plain_text.contains("Section"),
        "plain: {}",
        result.plain_text
    );
    assert!(
        result.plain_text.contains("Field"),
        "plain: {}",
        result.plain_text
    );
    assert!(
        result.plain_text.contains("Value"),
        "plain: {}",
        result.plain_text
    );
    assert!(
        !result.plain_text.contains("**"),
        "plain has markers: {}",
        result.plain_text
    );
    // Grid region tab-separated.
    assert!(
        result.plain_text.contains("A\tB\tC"),
        "plain grid not tabbed: {}",
        result.plain_text
    );
}

#[test]
fn test_html_simple_table_unchanged_deterministic() {
    // A simple uniform table must use the historical GFM path and be stable.
    let html = r#"<table><tr><td>a</td><td>b</td></tr><tr><td>c</td><td>d</td></tr></table>"#;
    let r1 = convert_html(html);
    let r2 = convert_html(html);
    assert_eq!(r1.markdown, r2.markdown);
    assert!(r1.markdown.contains("| a | b |"));
    assert!(r1.markdown.contains("| c | d |"));
}

#[test]
fn test_html_blockquote() {
    let html = "<blockquote>Quoted text</blockquote>";
    let result = convert_html(html);
    assert!(result.markdown.contains("> Quoted text"));
}

#[test]
fn test_html_nested_blockquote() {
    let html = "<blockquote><blockquote>Deeply quoted</blockquote></blockquote>";
    let result = convert_html(html);
    assert!(result.markdown.contains("> > Deeply quoted"));
}

#[test]
fn test_html_horizontal_rule() {
    let html = "<p>Above</p><hr><p>Below</p>";
    let result = convert_html(html);
    assert!(result.markdown.contains("---"));
    assert!(result.markdown.contains("Above"));
    assert!(result.markdown.contains("Below"));
}

#[test]
fn test_html_line_break() {
    let html = "<p>Line one<br>Line two</p>";
    let result = convert_html(html);
    assert!(result.markdown.contains("Line one\nLine two"));
}

#[test]
fn test_html_script_stripped() {
    let html = "<p>Visible</p><script>alert('xss');</script><p>Also visible</p>";
    let result = convert_html(html);
    assert!(result.markdown.contains("Visible"));
    assert!(result.markdown.contains("Also visible"));
    assert!(!result.markdown.contains("alert"));
    assert!(!result.markdown.contains("script"));
}

#[test]
fn test_html_style_stripped() {
    let html = "<style>body { color: red; }</style><p>Content</p>";
    let result = convert_html(html);
    assert!(result.markdown.contains("Content"));
    assert!(!result.markdown.contains("color"));
    assert!(!result.markdown.contains("red"));
}

#[test]
fn test_html_title_from_title_tag() {
    let html =
        "<html><head><title>My Page Title</title></head><body><p>Content</p></body></html>";
    let result = convert_html(html);
    assert_eq!(result.title, Some("My Page Title".to_string()));
}

#[test]
fn test_html_title_fallback_h1() {
    let html = "<html><body><h1>Main Heading</h1><p>Content</p></body></html>";
    let result = convert_html(html);
    assert_eq!(result.title, Some("Main Heading".to_string()));
}

#[test]
fn test_html_unicode_cjk() {
    let html = "<p>한국어 中文 日本語</p>";
    let result = convert_html(html);
    assert!(result.markdown.contains("한국어"));
    assert!(result.markdown.contains("中文"));
    assert!(result.markdown.contains("日本語"));
}

#[test]
fn test_html_emoji() {
    let html = "<p>Hello 🌍🚀✨ World</p>";
    let result = convert_html(html);
    assert!(result.markdown.contains("🌍"));
    assert!(result.markdown.contains("🚀"));
    assert!(result.markdown.contains("✨"));
}

#[test]
fn test_html_whitespace_collapse() {
    let html = "<p>  Multiple   spaces   here  </p>";
    let result = convert_html(html);
    // Whitespace should be collapsed
    assert!(!result.markdown.contains("  "));
    assert!(result.markdown.contains("Multiple spaces here"));
}

#[test]
fn test_html_pre_whitespace_preserved() {
    let html = "<pre>  indented\n    more indented\n</pre>";
    let result = convert_html(html);
    assert!(result.markdown.contains("  indented"));
    assert!(result.markdown.contains("    more indented"));
}

#[test]
fn test_html_heading_with_inline_formatting() {
    let html = "<h2><em>Italic Title</em></h2>";
    let result = convert_html(html);
    assert!(result.markdown.contains("## *Italic Title*"));
}

#[test]
fn test_html_checkbox_input() {
    let html = r#"<ul>
        <li><input type="checkbox" checked> Done</li>
        <li><input type="checkbox"> Not done</li>
    </ul>"#;
    let result = convert_html(html);
    assert!(result.markdown.contains("[x] Done"));
    assert!(result.markdown.contains("[ ] Not done"));
}

// ---- Plain text output tests ----

#[test]
fn test_html_plain_text_no_heading_markers() {
    let html = "<h1>Title</h1><h2>Subtitle</h2>";
    let result = convert_html(html);
    assert!(result.plain_text.contains("Title"));
    assert!(result.plain_text.contains("Subtitle"));
    assert!(!result.plain_text.contains("# "));
    assert!(!result.plain_text.contains("## "));
}

#[test]
fn test_html_plain_text_no_bold_italic_markers() {
    let html = "<p><strong>bold</strong> and <em>italic</em></p>";
    let result = convert_html(html);
    assert!(result.plain_text.contains("bold"));
    assert!(result.plain_text.contains("italic"));
    assert!(!result.plain_text.contains("**"));
    assert!(!result.plain_text.contains("*italic*"));
}

#[test]
fn test_html_plain_text_link_text_only() {
    let html = r#"<a href="https://example.com">Example</a>"#;
    let result = convert_html(html);
    assert!(result.plain_text.contains("Example"));
    assert!(!result.plain_text.contains("[Example]"));
    assert!(!result.plain_text.contains("https://example.com"));
}

#[test]
fn test_html_plain_text_image_alt_text_only() {
    let html = r#"<img src="photo.jpg" alt="A photo">"#;
    let result = convert_html(html);
    assert!(result.plain_text.contains("A photo"));
    assert!(!result.plain_text.contains("!["));
    assert!(!result.plain_text.contains("photo.jpg"));
}

#[test]
fn test_html_plain_text_no_code_fences() {
    let html = "<pre><code>fn main() {}</code></pre>";
    let result = convert_html(html);
    assert!(result.plain_text.contains("fn main() {}"));
    assert!(!result.plain_text.contains("```"));
}

#[test]
fn test_html_plain_text_no_inline_backtick() {
    let html = "<p>Use <code>cargo</code> to build.</p>";
    let result = convert_html(html);
    assert!(result.plain_text.contains("cargo"));
    assert!(!result.plain_text.contains("`cargo`"));
}

#[test]
fn test_html_plain_text_table_tab_separated() {
    let html = r#"<table>
        <thead><tr><th>Name</th><th>Age</th></tr></thead>
        <tbody><tr><td>Alice</td><td>30</td></tr></tbody>
    </table>"#;
    let result = convert_html(html);
    assert!(result.plain_text.contains("Name\tAge"));
    assert!(result.plain_text.contains("Alice\t30"));
    assert!(!result.plain_text.contains("|"));
}

#[test]
fn test_html_plain_text_list_no_markers() {
    let html = "<ul><li>Apple</li><li>Banana</li></ul>";
    let result = convert_html(html);
    assert!(result.plain_text.contains("Apple"));
    assert!(result.plain_text.contains("Banana"));
    assert!(!result.plain_text.contains("- "));
}

#[test]
fn test_html_plain_text_no_blockquote_prefix() {
    let html = "<blockquote>Quoted text</blockquote>";
    let result = convert_html(html);
    assert!(result.plain_text.contains("Quoted text"));
    assert!(!result.plain_text.contains("> "));
}

#[test]
fn test_html_plain_text_empty_document() {
    let result = convert_html("");
    assert!(result.plain_text.is_empty());
}

#[test]
fn test_html_malformed_html_best_effort() {
    let html = "<p>Unclosed paragraph<p>Another<b>Bold without close";
    let result = convert_html(html);
    assert!(result.markdown.contains("Unclosed paragraph"));
    assert!(result.markdown.contains("Another"));
    assert!(result.markdown.contains("Bold without close"));
}

// ---- Table review-follow-up tests ----

#[test]
fn test_html_thead_after_tbody_is_header() {
    // Legal HTML: a <tbody> row may appear before the <thead> row. The GFM
    // header must be the <thead> row, not whichever row came first.
    let html = r#"<table><tbody><tr><td>d1</td><td>d2</td></tr></tbody><thead><tr><th>H1</th><th>H2</th></tr></thead></table>"#;
    let result = convert_html(html);
    // Header row (with separator immediately after) must be the thead row.
    assert!(
        result.markdown.contains("| H1 | H2 |\n|---|---|"),
        "thead row not used as header: {}",
        result.markdown
    );
    // The tbody row is the body, below the separator.
    assert!(
        result.markdown.contains("| d1 | d2 |"),
        "data row missing: {}",
        result.markdown
    );
    // Header must come before data.
    let h = result.markdown.find("H1").unwrap();
    let d = result.markdown.find("d1").unwrap();
    assert!(h < d, "header not above body: {}", result.markdown);
}

#[test]
fn test_html_multi_row_thead_first_is_header_rest_body() {
    // A two-row <thead>: only the FIRST header row can be the GFM header; the
    // second header row must appear as the first body row (not dropped, not
    // promoted), followed by the tbody row. Nothing is lost.
    let html = r#"<table><thead><tr><th>H1a</th><th>H1b</th></tr><tr><th>H2a</th><th>H2b</th></tr></thead><tbody><tr><td>d1</td><td>d2</td></tr></tbody></table>"#;
    let result = convert_html(html);
    // First thead row is the header.
    assert!(
        result.markdown.contains("| H1a | H1b |\n|---|---|"),
        "first header row not the GFM header: {}",
        result.markdown
    );
    // Nothing lost.
    for needle in ["H1a", "H1b", "H2a", "H2b", "d1", "d2"] {
        assert!(
            result.markdown.contains(needle),
            "missing {needle}: {}",
            result.markdown
        );
    }
    // Body order: second header row, then the tbody row.
    let h2 = result.markdown.find("H2a").unwrap();
    let d1 = result.markdown.find("d1").unwrap();
    assert!(
        h2 < d1,
        "second header row not before tbody row: {}",
        result.markdown
    );
}

#[test]
fn test_html_nested_table_text_order_preserved() {
    // Text before AND after a nested table in one cell must keep document order
    // (outer, then the inner table, then after) and must NOT be glued
    // ("outerafter").
    let html = r#"<table><tr><td>outer<table><tr><td>x</td><td>y</td></tr></table>after</td><td>z</td></tr></table>"#;
    let result = convert_html(html);
    // The inner table is a standalone GFM block.
    assert!(
        result.markdown.contains("| x | y |"),
        "inner table not a standalone block: {}",
        result.markdown
    );
    // Not glued.
    assert!(
        !result.markdown.contains("outerafter"),
        "outer and after were glued: {}",
        result.markdown
    );
    // Source order: outer < inner table < after.
    let outer = result.markdown.find("outer").unwrap();
    let inner = result.markdown.find("| x | y |").unwrap();
    let after = result.markdown.find("after").unwrap();
    assert!(
        outer < inner && inner < after,
        "document order not preserved: {}",
        result.markdown
    );
    // Plain text keeps order too and leaks no pipes.
    let p_outer = result.plain_text.find("outer").unwrap();
    let p_after = result.plain_text.find("after").unwrap();
    assert!(
        p_outer < p_after,
        "plain order wrong: {:?}",
        result.plain_text
    );
    assert!(
        !result.plain_text.contains('|'),
        "plain leaked pipes: {:?}",
        result.plain_text
    );
}

#[test]
fn test_html_sibling_nested_tables_not_fused() {
    // Two nested tables in one cell must render as two separate GFM tables,
    // separated by a blank line so GFM does not fuse them into one.
    let html = r#"<table><tr><td><table><tr><td>a1</td><td>a2</td></tr></table><table><tr><td>b1</td><td>b2</td></tr></table></td><td>z</td></tr></table>"#;
    let result = convert_html(html);
    assert!(
        result.markdown.contains("| a1 | a2 |"),
        "first inner table missing: {}",
        result.markdown
    );
    assert!(
        result.markdown.contains("| b1 | b2 |"),
        "second inner table missing: {}",
        result.markdown
    );
    // A blank line must separate the two tables. Each single-row inner table
    // renders as a header row plus a `|---|---|` separator (no data rows), so
    // the boundary is the first table's separator, a blank line, then the
    // second table's header — they are not fused into one GFM table.
    assert!(
        result.markdown.contains("|---|---|\n\n| b1 | b2 |"),
        "sibling nested tables fused (no blank line between): {}",
        result.markdown
    );
}

#[test]
fn test_html_oversized_table_rows_dropped_warns() {
    // A table with far more cells than MAX_TABLE_CELLS (here: a wide grid with
    // many rows) must drop excess rows AND record a ResourceLimitReached
    // warning so the truncation is observable, not silent.
    let cols = 1000usize;
    let rows = 200usize; // cols * rows = 200_000 > MAX_TABLE_CELLS (100_000)
    let mut html = String::from("<table>");
    for _ in 0..rows {
        html.push_str("<tr>");
        for c in 0..cols {
            html.push_str("<td>");
            html.push_str(&c.to_string());
            html.push_str("</td>");
        }
        html.push_str("</tr>");
    }
    html.push_str("</table>");
    let result = convert_html(&html);
    assert!(
        !result.warnings.is_empty(),
        "no warning for truncated oversized table"
    );
    assert!(
        result
            .warnings
            .iter()
            .any(|w| w.code == WarningCode::ResourceLimitReached),
        "warning code not ResourceLimitReached: {:?}",
        result.warnings
    );
}

#[test]
fn test_html_rowspan_colspan_product_truncation_warns() {
    // The rowspan x colspan product cap in normalize_html_rowspans drops
    // trailing rows' cells; that truncation must surface a warning.
    let n = 4096;
    let mut html = String::from("<table><tr>");
    html.push_str(&format!(r#"<td rowspan="{n}" colspan="{n}">RC</td>"#));
    html.push_str("</tr>");
    for _ in 1..n {
        html.push_str("<tr></tr>");
    }
    html.push_str("</table>");
    let result = convert_html(&html);
    assert!(
        result
            .warnings
            .iter()
            .any(|w| w.code == WarningCode::ResourceLimitReached),
        "no ResourceLimitReached warning for product-capped table: {:?}",
        result.warnings
    );
}

#[test]
fn test_html_overwide_row_columns_dropped_warns() {
    // A row whose real cells sum past MAX_TABLE_COLS (4096) is clipped by the
    // width cap, dropping trailing real cells; that loss must surface a
    // warning (#2). Here the first cell spans the whole cap, so the second
    // real cell ("dropped") is truncated away.
    let cap = 4096;
    let html = format!(
        r#"<table><tr><td colspan="{cap}">wide</td><td>dropped</td></tr><tr><td>a</td><td>b</td></tr></table>"#
    );
    let result = convert_html(&html);
    // The trailing real cell is gone (width-clipped).
    assert!(
        !result.markdown.contains("dropped"),
        "trailing cell unexpectedly survived: {}",
        &result.markdown[..result.markdown.len().min(200)]
    );
    assert!(
        result
            .warnings
            .iter()
            .any(|w| w.code == WarningCode::ResourceLimitReached),
        "no ResourceLimitReached warning for over-width table: {:?}",
        result.warnings
    );
}

#[test]
fn test_html_normal_table_no_warnings() {
    // A realistic table must produce NO warnings (truncation warnings only fire
    // on resource-cap hits).
    let html = r#"<table><thead><tr><th>A</th><th>B</th></tr></thead><tbody><tr><td>1</td><td>2</td></tr></tbody></table>"#;
    let result = convert_html(html);
    assert!(
        result.warnings.is_empty(),
        "unexpected warnings on a normal table: {:?}",
        result.warnings
    );
}
