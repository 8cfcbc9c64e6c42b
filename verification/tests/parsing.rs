use csvtojson::parser::parse_csv;
use csvtojson::parser::CsvParseError;
use csvtojson::records::build_record;
use csvtojson::records::build_records;

fn chars(s: &str) -> Vec<char> {
    s.chars().collect()
}

fn strings(row: &[&str]) -> Vec<String> {
    row.iter().map(|s| s.to_string()).collect()
}

#[test]
fn parses_rows_and_fields() {
    let rows = parse_csv(&chars("a,b\nc,d")).unwrap();
    assert_eq!(rows, vec![strings(&["a", "b"]), strings(&["c", "d"])]);
}

#[test]
fn parses_quoted_fields() {
    let rows = parse_csv(&chars("\"a,b\",\"c\"\"d\",\"e\nf\"")).unwrap();
    assert_eq!(rows, vec![strings(&["a,b", "c\"d", "e\nf"])]);
}

#[test]
fn quote_inside_plain_field_is_literal() {
    let rows = parse_csv(&chars("ab\"cd,e")).unwrap();
    assert_eq!(rows, vec![strings(&["ab\"cd", "e"])]);
}

#[test]
fn empty_quoted_field_is_kept() {
    let rows = parse_csv(&chars("\"\",x")).unwrap();
    assert_eq!(rows, vec![strings(&["", "x"])]);
}

#[test]
fn lone_carriage_return_terminates_a_record() {
    let rows = parse_csv(&chars("a\rb")).unwrap();
    assert_eq!(rows, vec![strings(&["a"]), strings(&["b"])]);
}

#[test]
fn trailing_newline_adds_no_record() {
    let rows = parse_csv(&chars("a\nb\n")).unwrap();
    assert_eq!(rows, vec![strings(&["a"]), strings(&["b"])]);
}

#[test]
fn empty_input_has_no_records() {
    let rows = parse_csv(&chars("")).unwrap();
    assert_eq!(rows, Vec::<Vec<String>>::new());
}

#[test]
fn unterminated_quote_position_is_the_opening_quote() {
    let err = parse_csv(&chars("ab,\"cd")).unwrap_err();
    assert_eq!(err, CsvParseError::UnterminatedQuote(3));
}

#[test]
fn invalid_quote_end_position_is_the_stray_character() {
    let err = parse_csv(&chars("\"ab\"cd")).unwrap_err();
    assert_eq!(err, CsvParseError::InvalidQuoteEnd(4));
}

#[test]
fn build_record_pairs_by_position() {
    let pairs = build_record(&strings(&["Name", "Age"]), &strings(&["Alice", "30"]));
    assert_eq!(
        pairs,
        vec![
            ("Name".to_string(), "Alice".to_string()),
            ("Age".to_string(), "30".to_string()),
        ]
    );
}

#[test]
fn build_record_stops_at_the_shorter_side() {
    let headers = strings(&["Name", "Age", "Location"]);
    let short = build_record(&headers, &strings(&["Alice", "30"]));
    assert_eq!(
        short,
        vec![
            ("Name".to_string(), "Alice".to_string()),
            ("Age".to_string(), "30".to_string()),
        ]
    );
    let long = build_record(&strings(&["Name"]), &strings(&["Alice", "30"]));
    assert_eq!(long, vec![("Name".to_string(), "Alice".to_string())]);
}

#[test]
fn build_records_pairs_every_data_row_with_the_header() {
    let table = vec![
        strings(&["A", "B"]),
        strings(&["1", "2"]),
        strings(&["3", "4"]),
    ];
    let records = build_records(&table);
    assert_eq!(records.len(), 2);
    assert_eq!(
        records[0],
        vec![
            ("A".to_string(), "1".to_string()),
            ("B".to_string(), "2".to_string()),
        ]
    );
    assert_eq!(
        records[1],
        vec![
            ("A".to_string(), "3".to_string()),
            ("B".to_string(), "4".to_string()),
        ]
    );
}

#[test]
fn build_records_of_empty_table_is_empty() {
    let records = build_records(&Vec::new());
    assert_eq!(records, Vec::<Vec<(String, String)>>::new());
}
