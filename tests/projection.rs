use dsv::{reemit_row, split_commas, FieldKind, FieldsSubset};

fn row(fields: &[&str]) -> Vec<String> {
    fields.iter().map(|s| s.to_string()).collect()
}

fn numbered(raw: &str) -> FieldsSubset {
    FieldsSubset::new(&Some(raw.to_string()), &None).ok().unwrap()
}

fn named(raw: &str) -> FieldsSubset {
    FieldsSubset::new(&None, &Some(raw.to_string())).ok().unwrap()
}

fn error_message(numbered: Option<&str>, named: Option<&str>) -> String {
    match FieldsSubset::new(&numbered.map(|s| s.to_string()), &named.map(|s| s.to_string())) {
        Ok(_) => panic!("expected an error"),
        Err(e) => e.message(),
    }
}

fn numbered_indexes(subset: &FieldsSubset) -> Vec<usize> {
    match &subset.field_kind {
        FieldKind::Numbered(v) => v.clone(),
        _ => panic!("expected a numbered subset"),
    }
}

#[test]
fn split_commas_keeps_empty_pieces() {
    assert_eq!(split_commas("a,,b"), row(&["a", "", "b"]));
    assert_eq!(split_commas(""), row(&[""]));
    assert_eq!(split_commas("x,"), row(&["x", ""]));
}

#[test]
fn named_projection_reorders_columns() {
    let subset = named("b,a");
    let mut fd = subset.generate_file_data();
    assert!(subset.set_from_row(&mut fd, &row(&["a", "b", "c"]), true).is_ok());
    assert!(fd.complete);
    assert_eq!(fd.indexes, vec![1, 0]);
    assert_eq!(subset.transform_row(&fd, row(&["1", "2", "3"])), row(&["2", "1"]));
}

#[test]
fn named_projection_uses_first_duplicate_header() {
    let subset = named("a");
    let mut fd = subset.generate_file_data();
    assert!(subset.set_from_row(&mut fd, &row(&["x", "a", "a"]), true).is_ok());
    assert_eq!(fd.indexes, vec![1]);
}

#[test]
fn numbered_projection_pads_short_rows() {
    let subset = numbered("2,4-5");
    assert_eq!(numbered_indexes(&subset), vec![1, 3, 4]);
    let mut fd = subset.generate_file_data();
    assert_eq!(fd.max_index_required, 4);
    assert!(!fd.complete);
    assert!(subset.set_from_row(&mut fd, &row(&["a", "b", "c", "d", "e", "f"]), true).is_ok());
    assert!(fd.complete);
    assert_eq!(fd.indexes, vec![1, 3, 4]);
    assert_eq!(subset.transform_row(&fd, row(&["p", "q", "r"])), row(&["q", "", ""]));
}

#[test]
fn numbered_projection_keeps_order_and_repeats() {
    assert_eq!(numbered_indexes(&numbered("3,1,3")), vec![2, 0, 2]);
}

#[test]
fn numbered_projection_skips_malformed_tokens() {
    assert_eq!(numbered_indexes(&numbered("1,x,2-,3")), vec![0, 2]);
    assert_eq!(numbered_indexes(&numbered("")), Vec::<usize>::new());
}

#[test]
fn numbered_projection_drops_unseen_positions() {
    let subset = numbered("1,5");
    let mut fd = subset.generate_file_data();
    assert!(subset.set_from_row(&mut fd, &row(&["a", "b"]), true).is_ok());
    assert!(!fd.complete);
    assert_eq!(fd.max_index_seen, 1);
    assert_eq!(subset.transform_row(&fd, row(&["a", "b"])), row(&["a"]));
    assert_eq!(subset.transform_col_widths(&fd, vec![3, 7]), vec![3]);
}

#[test]
fn projection_widths_follow_rows() {
    let subset = numbered("3,1");
    let mut fd = subset.generate_file_data();
    assert!(subset.set_from_row(&mut fd, &row(&["a", "b", "c"]), true).is_ok());
    assert_eq!(subset.transform_col_widths(&fd, vec![4, 5, 6]), vec![6, 4]);
}

#[test]
fn no_projection_is_identity() {
    let subset = FieldsSubset::new(&None, &None).ok().unwrap();
    assert!(subset.is_none());
    let mut fd = subset.generate_file_data();
    assert!(fd.complete);
    assert!(subset.set_from_row(&mut fd, &row(&["a", "b"]), true).is_ok());
    assert_eq!(subset.transform_row(&fd, row(&["x", "", "z\t"])), row(&["x", "", "z\t"]));
    assert_eq!(subset.transform_col_widths(&fd, vec![1, 2, 3]), vec![1, 2, 3]);
}

#[test]
fn missing_named_columns_are_reported_together() {
    let subset = named("x,a,y");
    let mut fd = subset.generate_file_data();
    match subset.set_from_row(&mut fd, &row(&["a", "b"]), true) {
        Ok(()) => panic!("expected an error"),
        Err(e) => assert_eq!(e.message(), "Missing columns in named fields: x, y"),
    }
    assert!(!fd.complete);
}

#[test]
fn missing_named_columns_x_y() {
    let subset = named("x,y");
    let mut fd = subset.generate_file_data();
    let e = subset.set_from_row(&mut fd, &row(&["a", "b"]), true).err().unwrap();
    assert_eq!(e.message(), "Missing columns in named fields: x, y");
}

#[test]
fn both_subsets_conflict() {
    assert_eq!(
        error_message(Some("1"), Some("a")),
        "Cannot use numbered fields and named fields together"
    );
}

#[test]
fn zero_index_is_refused() {
    assert_eq!(error_message(Some("0"), None), "Fields are 1-indexed.  Cannot provide a 0.");
    assert_eq!(error_message(Some("0-3"), None), "Fields are 1-indexed.  Cannot provide a 0.");
}

#[test]
fn empty_range_is_refused() {
    assert_eq!(
        error_message(Some("1,5-5"), None),
        "Invalid range 5-5, start must be less than end"
    );
    assert_eq!(
        error_message(Some("7-2"), None),
        "Invalid range 7-2, start must be less than end"
    );
}

#[test]
fn huge_range_is_refused() {
    assert_eq!(error_message(Some("1-10002"), None), "Range is too high");
    assert_eq!(numbered_indexes(&numbered("1-10001")).len(), 10001);
}

#[test]
fn number_too_large_is_refused() {
    assert_eq!(
        error_message(Some("99999999999999999999999"), None),
        "number too large to fit in target type"
    );
}

#[test]
fn reemit_without_projection_round_trips() {
    let subset = FieldsSubset::new(&None, &None).ok().unwrap();
    let mut fd = subset.generate_file_data();
    let rows = vec![row(&["a", "b,c"]), row(&["\"q\"", ""]), row(&["x"])];
    let mut first = true;
    for r in &rows {
        let out = reemit_row(&subset, &mut fd, r.clone(), first).ok().unwrap();
        assert_eq!(&out, r);
        first = false;
    }
}

#[test]
fn reemit_resolves_names_on_first_row() {
    let subset = named("c");
    let mut fd = subset.generate_file_data();
    let h = reemit_row(&subset, &mut fd, row(&["a", "b", "c"]), true).ok().unwrap();
    assert_eq!(h, row(&["c"]));
    let d = reemit_row(&subset, &mut fd, row(&["1", "2", "3"]), false).ok().unwrap();
    assert_eq!(d, row(&["3"]));
}
