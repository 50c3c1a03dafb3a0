use anytomd::converter::docx::{
    docx_grid_width, expand_row_to_grid, render_docx_table, DocxCell, DocxCellBlock, DocxRow,
    DocxTable, VMerge, MAX_TABLE_CELLS, MAX_TABLE_COLS,
};
use anytomd::converter::WarningCode;

// ---- Table classifier unit tests ----

/// Build a cell with the given markdown text, grid span, and merge state.
fn cell(text: &str, grid_span: usize, v_merge: VMerge) -> DocxCell {
    DocxCell {
        grid_span,
        v_merge,
        blocks: vec![DocxCellBlock {
            md: text.to_string(),
            plain: text.to_string(),
            is_table: false,
        }],
    }
}

/// Build a row from cells.
fn row(cells: Vec<DocxCell>) -> DocxRow {
    DocxRow { cells }
}

#[test]
fn test_docx_grid_width_from_gridcol() {
    let t = DocxTable {
        grid_width: 3,
        rows: vec![row(vec![cell("a", 1, VMerge::NotMerged)])],
        ..Default::default()
    };
    assert_eq!(docx_grid_width(&t), 3);
}

#[test]
fn test_docx_grid_width_fallback_max_span() {
    let t = DocxTable {
        grid_width: 0,
        rows: vec![
            row(vec![cell("a", 2, VMerge::NotMerged)]),
            row(vec![
                cell("a", 1, VMerge::NotMerged),
                cell("b", 1, VMerge::NotMerged),
                cell("c", 1, VMerge::NotMerged),
            ]),
        ],
        ..Default::default()
    };
    assert_eq!(docx_grid_width(&t), 3);
}

#[test]
fn test_docx_grid_width_tblgrid_is_floor_not_ceiling() {
    // tblGrid declares 2 columns but a row actually has 3 single-span cells.
    // The grid width must widen to 3 so no cell is dropped.
    let t = DocxTable {
        grid_width: 2,
        rows: vec![row(vec![
            cell("A", 1, VMerge::NotMerged),
            cell("B", 1, VMerge::NotMerged),
            cell("C", 1, VMerge::NotMerged),
        ])],
        ..Default::default()
    };
    assert_eq!(docx_grid_width(&t), 3);
}

#[test]
fn test_docx_grid_width_uniform_match_unchanged() {
    // When tblGrid equals the widest row, the width is byte-identical (the
    // floor change must not perturb ordinary uniform tables).
    let t = DocxTable {
        grid_width: 3,
        rows: vec![
            row(vec![
                cell("a", 1, VMerge::NotMerged),
                cell("b", 1, VMerge::NotMerged),
                cell("c", 1, VMerge::NotMerged),
            ]),
            row(vec![
                cell("d", 1, VMerge::NotMerged),
                cell("e", 1, VMerge::NotMerged),
                cell("f", 1, VMerge::NotMerged),
            ]),
        ],
        ..Default::default()
    };
    assert_eq!(docx_grid_width(&t), 3);
}

#[test]
fn test_docx_render_three_cells_in_two_col_grid_keeps_all() {
    // 3 single-span cells A,B,C in a 2-col tblGrid: all three survive.
    let t = DocxTable {
        grid_width: 2,
        rows: vec![
            row(vec![
                cell("H1", 1, VMerge::NotMerged),
                cell("H2", 1, VMerge::NotMerged),
            ]),
            row(vec![
                cell("A", 1, VMerge::NotMerged),
                cell("B", 1, VMerge::NotMerged),
                cell("C", 1, VMerge::NotMerged),
            ]),
        ],
        ..Default::default()
    };
    let (md, _plain) = render_docx_table(&t, &mut Vec::new());
    assert!(md.contains("| A | B | C |"), "trailing cell dropped: {md}");
}

#[test]
fn test_docx_render_gridspan_overflow_keeps_trailing_cell() {
    // A [gridSpan=2 X, Y] row in a 2-col grid sums to 3 > grid_width: Y must
    // not be truncated. Grid widens to 3; X empty-fills its second column.
    let t = DocxTable {
        grid_width: 2,
        rows: vec![row(vec![
            cell("X", 2, VMerge::NotMerged),
            cell("Y", 1, VMerge::NotMerged),
        ])],
        ..Default::default()
    };
    let (md, _plain) = render_docx_table(&t, &mut Vec::new());
    // Single row => header only; X spans cols 1-2 (empty-filled), Y in col 3.
    assert!(md.contains("| X |  | Y |"), "Y truncated: {md}");
}

// ---- Grid render unit tests ----

#[test]
fn test_docx_expand_row_to_grid_hspan() {
    let r = row(vec![cell("X", 2, VMerge::NotMerged), cell("Y", 1, VMerge::NotMerged)]);
    assert_eq!(expand_row_to_grid(&r, 3, false), vec!["X", "", "Y"]);
}

#[test]
fn test_docx_expand_row_vmerge_continue_empty() {
    // A genuine vertical-merge continuation cell is empty in the source, so it
    // renders empty.
    let r = row(vec![DocxCell {
        grid_span: 1,
        v_merge: VMerge::Continue,
        blocks: vec![],
    }]);
    assert_eq!(expand_row_to_grid(&r, 1, false), vec![""]);
}

#[test]
fn test_docx_expand_row_vmerge_continue_with_text_preserved() {
    // An orphan continuation cell that carries text (no matching restart, or
    // malformed input) keeps its content rather than silently dropping it.
    let r = row(vec![cell("kept", 1, VMerge::Continue)]);
    assert_eq!(expand_row_to_grid(&r, 1, false), vec!["kept"]);
}

#[test]
fn test_docx_render_full_width_banner_is_grid_row() {
    // A full-width "banner" row is kept as a grid row (empty-filled), not
    // linearized into a heading or bold paragraph.
    let t = DocxTable {
        grid_width: 3,
        rows: vec![
            row(vec![cell("Section Header", 3, VMerge::NotMerged)]),
            row(vec![
                cell("A", 1, VMerge::NotMerged),
                cell("B", 1, VMerge::NotMerged),
                cell("C", 1, VMerge::NotMerged),
            ]),
        ],
        ..Default::default()
    };
    let (md, _plain) = render_docx_table(&t, &mut Vec::new());
    // One GFM table: the banner is the header row, empty-filled.
    assert!(md.contains("| Section Header |  |  |"), "md: {md}");
    assert!(md.contains("| A | B | C |"), "md: {md}");
    // No heading/bold linearization.
    assert!(!md.contains('#'), "md: {md}");
    assert!(!md.contains("**"), "md: {md}");
}

#[test]
fn test_docx_render_label_value_kept_as_grid_row() {
    // A narrow-label + wide-value row stays a grid row (empty-filled), not a
    // `**Label:** value` line.
    let t = DocxTable {
        grid_width: 3,
        rows: vec![row(vec![
            cell("Date", 1, VMerge::NotMerged),
            cell("Monday", 2, VMerge::NotMerged),
        ])],
        ..Default::default()
    };
    let (md, _plain) = render_docx_table(&t, &mut Vec::new());
    assert!(md.contains("| Date | Monday |  |"), "md: {md}");
    assert!(!md.contains("**Date:**"), "md: {md}");
}

#[test]
fn test_docx_render_data_table_spanning_row_keeps_columns() {
    // A data table with a header row and a spanning row keeps all columns as
    // one GFM table (the regression the review flagged).
    let t = DocxTable {
        grid_width: 3,
        rows: vec![
            row(vec![
                cell("A", 1, VMerge::NotMerged),
                cell("B", 1, VMerge::NotMerged),
                cell("C", 1, VMerge::NotMerged),
            ]),
            row(vec![
                cell("x", 1, VMerge::NotMerged),
                cell("spans", 2, VMerge::NotMerged),
            ]),
        ],
        ..Default::default()
    };
    let (md, _plain) = render_docx_table(&t, &mut Vec::new());
    assert!(md.contains("| A | B | C |"), "md: {md}");
    assert!(md.contains("| x | spans |  |"), "md: {md}");
}

#[test]
fn test_docx_render_grid_vmerge_continue_blank() {
    // vMerge restart label + continuation: continuation cell renders empty.
    let t = DocxTable {
        grid_width: 2,
        rows: vec![
            row(vec![
                cell("Label", 1, VMerge::Restart),
                cell("Head", 1, VMerge::NotMerged),
            ]),
            row(vec![
                cell("", 1, VMerge::Continue),
                cell("Val", 1, VMerge::NotMerged),
            ]),
        ],
        ..Default::default()
    };
    let (md, _plain) = render_docx_table(&t, &mut Vec::new());
    assert!(md.contains("| Label | Head |"), "md: {md}");
    // The continuation cell is empty in the data row.
    assert!(md.contains("|  | Val |"), "md: {md}");
}

#[test]
fn test_docx_render_pipe_in_cell_escaped() {
    // A literal pipe inside a grid cell must be escaped by build_table.
    let t = DocxTable {
        grid_width: 2,
        rows: vec![
            row(vec![
                cell("h1", 1, VMerge::NotMerged),
                cell("h2", 1, VMerge::NotMerged),
            ]),
            row(vec![
                cell("a|b", 1, VMerge::NotMerged),
                cell("c", 1, VMerge::NotMerged),
            ]),
        ],
        ..Default::default()
    };
    let (md, _plain) = render_docx_table(&t, &mut Vec::new());
    assert!(md.contains("a\\|b"), "pipe not escaped: {md}");
}

#[test]
fn test_docx_plain_grid_tab_separated() {
    // Plain text for a merged/layout table is tab-separated, empty-filled.
    let t = DocxTable {
        grid_width: 3,
        rows: vec![
            row(vec![cell("Section", 3, VMerge::NotMerged)]),
            row(vec![
                cell("A", 1, VMerge::NotMerged),
                cell("B", 1, VMerge::NotMerged),
                cell("C", 1, VMerge::NotMerged),
            ]),
        ],
        ..Default::default()
    };
    let (_md, plain) = render_docx_table(&t, &mut Vec::new());
    assert!(plain.contains("Section"), "plain: {plain}");
    assert!(!plain.contains("**"), "plain has markers: {plain}");
    assert!(plain.contains("A\tB\tC"), "plain not tabbed: {plain}");
}

#[test]
fn test_docx_render_deterministic() {
    // Byte-stable output: two renders of the same table must be identical.
    let t = DocxTable {
        grid_width: 3,
        rows: vec![
            row(vec![cell("Banner", 3, VMerge::NotMerged)]),
            row(vec![
                cell("Field", 1, VMerge::NotMerged),
                cell("Value", 2, VMerge::NotMerged),
            ]),
            row(vec![
                cell("A", 1, VMerge::NotMerged),
                cell("B", 1, VMerge::NotMerged),
                cell("C", 1, VMerge::NotMerged),
            ]),
        ],
        ..Default::default()
    };
    assert_eq!(
        render_docx_table(&t, &mut Vec::new()),
        render_docx_table(&t, &mut Vec::new())
    );
}

#[test]
fn test_docx_grid_width_bounded() {
    // A pathological gridSpan cannot drive an unbounded grid width.
    let t = DocxTable {
        grid_width: 0,
        rows: vec![row(vec![cell("x", 100_000_000, VMerge::NotMerged)])],
        ..Default::default()
    };
    assert!(docx_grid_width(&t) <= MAX_TABLE_COLS);
    // Expanding the row must not allocate beyond the bound.
    let cols = expand_row_to_grid(&t.rows[0], docx_grid_width(&t), false);
    assert!(cols.len() <= MAX_TABLE_COLS);
}

#[test]
fn test_docx_linearize_path_blocks_capped_with_warning() {
    // A nested table anywhere routes the whole table through the linearize
    // path; the blocks it emits must honor MAX_TABLE_CELLS just like grid
    // cells do, and dropping blocks must be observable.
    let mut rows: Vec<DocxRow> = Vec::with_capacity(MAX_TABLE_CELLS + 2);
    rows.push(row(vec![DocxCell {
        grid_span: 1,
        v_merge: VMerge::NotMerged,
        blocks: vec![DocxCellBlock {
            md: "| i |\n|---|".to_string(),
            plain: "i".to_string(),
            is_table: true,
        }],
    }]));
    for i in 0..=MAX_TABLE_CELLS {
        rows.push(row(vec![cell(&format!("r{i}"), 1, VMerge::NotMerged)]));
    }
    let t = DocxTable {
        grid_width: 1,
        rows,
        ..Default::default()
    };
    let mut warnings = Vec::new();
    let (md, plain) = render_docx_table(&t, &mut warnings);
    assert!(md.contains("r0"), "early block missing");
    let last = format!("r{MAX_TABLE_CELLS}");
    assert!(
        !md.contains(&last),
        "linearized markdown not truncated: {} bytes",
        md.len()
    );
    assert!(
        !plain.contains(&last),
        "linearized plain not truncated: {} bytes",
        plain.len()
    );
    assert!(
        warnings
            .iter()
            .any(|w| w.code == WarningCode::ResourceLimitReached),
        "expected ResourceLimitReached warning, got: {warnings:?}"
    );
}

#[test]
fn test_docx_overwide_row_columns_dropped_with_warning() {
    // A row with more real cells than MAX_TABLE_COLS loses its trailing
    // cells to the width cap; that drop must be observable (mirrors the
    // HTML converter's width-cap warning).
    let cells: Vec<DocxCell> = (0..MAX_TABLE_COLS + 5)
        .map(|i| cell(&format!("c{i}"), 1, VMerge::NotMerged))
        .collect();
    let t = DocxTable {
        grid_width: 0,
        rows: vec![row(cells)],
        ..Default::default()
    };
    let mut warnings = Vec::new();
    let (md, _plain) = render_docx_table(&t, &mut warnings);
    assert!(md.contains("c0"), "leading cell missing");
    assert!(
        !md.contains(&format!("c{MAX_TABLE_COLS}")),
        "trailing cell beyond the width cap must be dropped"
    );
    assert!(
        warnings
            .iter()
            .any(|w| w.code == WarningCode::ResourceLimitReached),
        "expected ResourceLimitReached warning, got: {warnings:?}"
    );

    // A table within the width bound must not warn.
    let t_ok = DocxTable {
        grid_width: 3,
        rows: vec![row(vec![
            cell("a", 1, VMerge::NotMerged),
            cell("b", 1, VMerge::NotMerged),
            cell("c", 1, VMerge::NotMerged),
        ])],
        ..Default::default()
    };
    let mut ok_warnings = Vec::new();
    let _ = render_docx_table(&t_ok, &mut ok_warnings);
    assert!(
        ok_warnings.is_empty(),
        "unexpected warning: {ok_warnings:?}"
    );
}

#[test]
fn test_docx_linearize_skips_block_empty_in_both_streams() {
    // A block empty in BOTH md and plain is skipped entirely; a sibling
    // nested-table block keeps the table on the linearize path.
    let t = DocxTable {
        grid_width: 1,
        rows: vec![row(vec![DocxCell {
            grid_span: 1,
            v_merge: VMerge::NotMerged,
            blocks: vec![
                DocxCellBlock {
                    md: "   ".to_string(),
                    plain: "   ".to_string(),
                    is_table: false,
                },
                DocxCellBlock {
                    md: "| i |\n|---|\n| i |\n".to_string(),
                    plain: "i\n".to_string(),
                    is_table: true,
                },
            ],
        }])],
        ..Default::default()
    };
    let (md, plain) = render_docx_table(&t, &mut Vec::new());
    // Only the nested table content is present; the blank block contributed
    // nothing to either stream.
    assert!(
        md.starts_with("| i |"),
        "leading blank block leaked: {md:?}"
    );
    assert!(
        plain.starts_with("i\n"),
        "leading blank block leaked: {plain:?}"
    );
}

