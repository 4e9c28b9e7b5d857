use dsv::{
    get_delimiter, get_delimiter_from_filename, get_delimiter_from_upper, get_delimiter_u8,
    OutputFormat, RunOptions,
};

#[test]
fn delimiter_from_file_suffix() {
    assert_eq!(get_delimiter_from_filename("data.csv"), Some(','));
    assert_eq!(get_delimiter_from_filename("DATA.Tsv"), Some('\t'));
    assert_eq!(get_delimiter_from_filename("x.psv"), Some('|'));
    assert_eq!(get_delimiter_from_filename("x.txt"), None);
    assert_eq!(get_delimiter_from_upper("X.CSV"), Some(','));
    assert_eq!(get_delimiter_from_upper("x.csv"), None);
}

#[test]
fn delimiter_choice_order() {
    assert_eq!(get_delimiter(&Some("a.csv".to_string()), &Some(';')).ok(), Some(b';'));
    assert_eq!(get_delimiter(&Some("a.csv".to_string()), &None).ok(), Some(b','));
    assert_eq!(get_delimiter(&Some("a.dat".to_string()), &None).ok(), Some(b'\t'));
    assert_eq!(get_delimiter(&None, &None).ok(), Some(b'\t'));
}

#[test]
fn delimiter_must_be_a_byte() {
    assert_eq!(get_delimiter_u8(Some('é')).ok(), Some(0xe9));
    let e = get_delimiter_u8(Some('€')).err().unwrap();
    assert_eq!(e.message(), "Delimiter must be a single-byte character");
    assert_eq!(get_delimiter_u8(None).ok(), Some(b'\t'));
}

#[test]
fn run_options_table_by_default() {
    let o = RunOptions::new(&None, &None, false, None, false, true).ok().unwrap();
    assert_eq!(o.output_format, OutputFormat::Table { has_header: true, include_header_indexes: true });
}

#[test]
fn header_indexes_need_header_and_no_subset() {
    let o = RunOptions::new(&None, &None, false, None, true, true).ok().unwrap();
    assert_eq!(o.output_format, OutputFormat::Table { has_header: false, include_header_indexes: false });
    let o = RunOptions::new(&Some("1".to_string()), &None, false, None, false, true).ok().unwrap();
    assert_eq!(o.output_format, OutputFormat::Table { has_header: true, include_header_indexes: false });
}

#[test]
fn output_delimiter_selects_delimited() {
    let o = RunOptions::new(&None, &None, false, Some(','), false, false).ok().unwrap();
    assert_eq!(o.output_format, OutputFormat::Delimited(','));
    let o = RunOptions::new(&None, &None, true, None, false, false).ok().unwrap();
    assert_eq!(o.output_format, OutputFormat::Delimited('\t'));
}

#[test]
fn run_options_conflicting_subsets() {
    let e = RunOptions::new(&Some("1".to_string()), &Some("a".to_string()), false, None, false, false)
        .err()
        .unwrap();
    assert_eq!(e.message(), "Cannot use numbered fields and named fields together");
}
