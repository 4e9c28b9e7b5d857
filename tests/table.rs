use dsv::{
    field_display_width, format_border_row, format_table_row, get_table_row_total_length,
    is_big_file, FieldsSubset, TableRenderer, TableScan, BIG_FILE_LIMIT,
};

fn row(fields: &[&str]) -> Vec<String> {
    fields.iter().map(|s| s.to_string()).collect()
}

fn render(rows: &[Vec<String>], has_header: bool, header_indexes: bool) -> Vec<String> {
    let subset = FieldsSubset::new(&None, &None).ok().unwrap();
    let mut scan = TableScan::new(&subset, true, header_indexes);
    for r in rows {
        assert!(scan.scan_row(&subset, r.clone()).is_ok());
    }
    let mut renderer = TableRenderer::new(scan.col_widths.clone(), has_header, header_indexes);
    let mut lines = Vec::new();
    for r in &scan.rows {
        lines.extend(renderer.render_row(r));
    }
    lines.extend(renderer.finish());
    lines
}

#[test]
fn tab_counts_four_columns() {
    assert_eq!(field_display_width("a\tb"), 6);
    assert_eq!(field_display_width(""), 0);
    assert_eq!(field_display_width("héllo"), 5);
}

#[test]
fn tab_renders_as_four_spaces() {
    assert_eq!(format_table_row(&row(&["a\tb"]), &vec![6], false), "| a    b |");
}

#[test]
fn short_cell_is_padded_and_missing_cell_blank() {
    assert_eq!(format_table_row(&row(&["ab"]), &vec![4, 3], false), "| ab   |     |");
}

#[test]
fn header_indexes_prefix_cells() {
    assert_eq!(format_table_row(&row(&["x", "y"]), &vec![5, 5], true), "| 1. x  | 2. y  |");
}

#[test]
fn border_row_format() {
    assert_eq!(format_border_row(&vec![1, 3]), "+---+-----+");
    assert_eq!(format_border_row(&vec![]), "+");
}

#[test]
fn total_length_matches_border() {
    let w = vec![1, 3, 0];
    assert_eq!(get_table_row_total_length(&w), 14);
    assert_eq!(format_border_row(&w).chars().count(), 14);
}

#[test]
fn empty_input_prints_nothing() {
    assert!(render(&[], true, false).is_empty());
    assert!(render(&[], false, false).is_empty());
}

#[test]
fn single_header_row_prints_three_lines() {
    let lines = render(&[row(&["a", "bb"])], true, false);
    assert_eq!(lines, vec!["+---+----+", "| a | bb |", "+---+----+"]);
}

#[test]
fn single_row_without_header_counts_as_data() {
    let lines = render(&[row(&["a"])], false, false);
    assert_eq!(lines, vec!["+---+", "| a |", "+---+"]);
}

#[test]
fn table_with_header_and_ragged_rows() {
    let lines = render(&[row(&["h1", "h2"]), row(&["x"]), row(&["long", "y", "z"])], true, false);
    assert_eq!(
        lines,
        vec![
            "+------+----+---+",
            "| h1   | h2 |   |",
            "+------+----+---+",
            "| x    |    |   |",
            "| long | y  | z |",
            "+------+----+---+",
        ]
    );
}

#[test]
fn header_indexes_widen_first_row() {
    let lines = render(&[row(&["a"]), row(&["bbbbbb"])], true, true);
    assert_eq!(lines, vec!["+--------+", "| 1. a   |", "+--------+", "| bbbbbb |", "+--------+"]);
}

#[test]
fn widths_same_buffered_or_streamed() {
    let rows = vec![row(&["a", "bb\t"]), row(&["cccc", "d"]), row(&["e", "f"])];
    let subset = FieldsSubset::new(&Some("2".to_string()), &None).ok().unwrap();
    let mut buffered = TableScan::new(&subset, true, false);
    let mut streamed = TableScan::new(&subset, false, false);
    for r in &rows {
        assert!(buffered.scan_row(&subset, r.clone()).is_ok());
        assert!(streamed.scan_row(&subset, r.clone()).is_ok());
    }
    assert_eq!(buffered.col_widths, vec![4, 6]);
    assert_eq!(buffered.col_widths, streamed.col_widths);
    assert_eq!(buffered.file_data.indexes, streamed.file_data.indexes);
    assert_eq!(buffered.rows, rows);
    assert!(streamed.rows.is_empty());
}

#[test]
fn scan_reports_missing_header() {
    let subset = FieldsSubset::new(&None, &Some("z".to_string())).ok().unwrap();
    let mut scan = TableScan::new(&subset, true, false);
    let e = scan.scan_row(&subset, row(&["a"])).err().unwrap();
    assert_eq!(e.message(), "Missing columns in named fields: z");
    assert!(scan.col_widths.is_empty());
}

#[test]
fn big_file_threshold() {
    assert_eq!(BIG_FILE_LIMIT, 100 * 1024 * 1024);
    assert!(!is_big_file(BIG_FILE_LIMIT));
    assert!(is_big_file(BIG_FILE_LIMIT + 1));
    assert!(!is_big_file(0));
}

#[test]
fn render_table_whole_input() {
    let rows = vec![row(&["k", "v"]), row(&["a\tb", "1"])];
    let lines = dsv::render_table(&rows, &vec![6, 1], true, false);
    assert_eq!(
        lines,
        vec!["+--------+---+", "| k      | v |", "+--------+---+", "| a    b | 1 |", "+--------+---+"]
    );
    assert!(dsv::render_table(&vec![], &vec![3], true, false).is_empty());
    assert_eq!(dsv::render_table(&vec![row(&["x"])], &vec![1], true, false).len(), 3);
}
