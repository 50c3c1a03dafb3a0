use anytomd::converter::docx_comments::collect_ranges_in_part;
use anytomd::converter::html_table::{normalize_html_rowspans, HtmlCell, HtmlRow};

fn cell(colspan: usize, rowspan: usize) -> HtmlCell {
    HtmlCell { colspan, rowspan, segments: Vec::new() }
}

fn shape(rows: &[HtmlRow]) -> Vec<Vec<(usize, usize)>> {
    rows.iter().map(|r| r.cells.iter().map(|c| (c.colspan, c.rowspan)).collect()).collect()
}

#[test]
fn test_normalize_flat_table_unchanged() {
    let rows = vec![
        HtmlRow { cells: vec![cell(1, 1), cell(2, 1)], is_header_row: true },
        HtmlRow { cells: vec![cell(1, 1), cell(1, 1), cell(1, 1)], is_header_row: false },
    ];
    let (out, truncated) = normalize_html_rowspans(&rows);
    assert!(!truncated);
    assert_eq!(shape(&out), shape(&rows));
    assert_eq!(out.iter().map(|r| r.is_header_row).collect::<Vec<_>>(), vec![true, false]);
}

#[test]
fn test_normalize_rowspan_leaves_single_row_cells() {
    let rows = vec![
        HtmlRow { cells: vec![cell(1, 3), cell(1, 1)], is_header_row: false },
        HtmlRow { cells: vec![cell(1, 1)], is_header_row: false },
        HtmlRow { cells: vec![cell(1, 1)], is_header_row: false },
    ];
    let (out, truncated) = normalize_html_rowspans(&rows);
    assert!(!truncated);
    assert_eq!(out.len(), 3);
    assert!(out.iter().all(|r| r.cells.iter().all(|c| c.rowspan == 1)));
    assert_eq!(out[1].cells.len(), 2);
    assert_eq!(out[2].cells.len(), 2);
}

#[test]
fn test_normalize_truncation_flag_at_cell_limit() {
    // 25 rows of 4000 single cells hold exactly 100000 cells.
    let row = HtmlRow { cells: (0..4000).map(|_| cell(1, 1)).collect(), is_header_row: false };
    let rows: Vec<HtmlRow> = (0..26).map(|_| HtmlRow { cells: row.cells.iter().map(|_| cell(1, 1)).collect(), is_header_row: false }).collect();
    let (out, truncated) = normalize_html_rowspans(&rows);
    assert!(truncated);
    assert_eq!(out.len(), 26);
    assert_eq!(out.iter().map(|r| r.cells.len()).sum::<usize>(), 100_000);
    assert!(out[25].cells.is_empty());
}

#[test]
fn test_collect_ranges_unclosed_range_is_capped() {
    let long = "x".repeat(2000);
    let xml = format!(
        "<w:body><w:commentRangeStart w:id=\"1\"/><w:commentRangeStart w:id=\"1\"/><w:r><w:t>{long}</w:t></w:r><w:commentReference w:id=\"2\"/></w:body>"
    );
    let (order, text) = collect_ranges_in_part(&xml);
    let ids: Vec<String> = order.iter().map(|v| v.iter().collect()).collect();
    assert_eq!(ids, vec!["1".to_string(), "2".to_string()]);
    assert_eq!(text.len(), 1);
    let key: String = text[0].0.iter().collect();
    assert_eq!(key, "1");
    let value: String = text[0].1.iter().collect();
    assert_eq!(value.len(), 800);
}
