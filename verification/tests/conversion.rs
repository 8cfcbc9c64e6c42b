use csvtojson::csv_to_json;
use csvtojson::CsvToJsonError;
use csvtojson::parser::CsvParseError;

#[test]
fn test_csv_to_json_valid_input() {
    let csv_data = b"Name,Age,Location\nAlice,30,NY\nBob,40,CA";
    let expected_output =
        r#"[{"Age":"30","Location":"NY","Name":"Alice"},{"Age":"40","Location":"CA","Name":"Bob"}]"#;

    let output = csv_to_json(csv_data.to_vec()).unwrap();
    assert_eq!(output, expected_output);
}

#[test]
fn test_csv_to_json_invalid_utf8() {
    let csv_data = vec![0, 255, 254];

    match csv_to_json(csv_data) {
        Ok(_) => panic!("Expected an error due to invalid UTF-8 input"),
        Err(e) => assert!(matches!(e, CsvToJsonError::Utf8Error(_))),
    }
}

#[test]
fn invalid_utf8_reports_valid_prefix_length() {
    // The first two bytes are valid UTF-8; the error carries that much.
    let csv_data = vec![b'a', b'b', 0xFF];
    match csv_to_json(csv_data) {
        Ok(_) => panic!("expected an encoding error"),
        Err(CsvToJsonError::Utf8Error(n)) => assert_eq!(n, 2),
        Err(e) => panic!("wrong error kind: {:?}", e),
    }
}

#[test]
fn short_row_omits_trailing_keys() {
    let out = csv_to_json(b"Name,Age,Location\nAlice,30".to_vec()).unwrap();
    assert_eq!(out, r#"[{"Age":"30","Name":"Alice"}]"#);
}

#[test]
fn long_row_drops_extra_fields() {
    let out = csv_to_json(b"Name,Age\nAlice,30,NY".to_vec()).unwrap();
    assert_eq!(out, r#"[{"Age":"30","Name":"Alice"}]"#);
}

#[test]
fn empty_input_yields_empty_array() {
    let out = csv_to_json(Vec::new()).unwrap();
    assert_eq!(out, "[]");
}

#[test]
fn header_only_input_yields_empty_array() {
    let out = csv_to_json(b"Name,Age".to_vec()).unwrap();
    assert_eq!(out, "[]");
}

#[test]
fn unterminated_quote_is_a_parse_error() {
    match csv_to_json(b"Name,Age\n\"Alice,30".to_vec()) {
        Ok(out) => panic!("expected a parse error, got {}", out),
        Err(CsvToJsonError::CsvError(e)) => {
            assert_eq!(e, CsvParseError::UnterminatedQuote(9));
        },
        Err(e) => panic!("wrong error kind: {:?}", e),
    }
}

#[test]
fn stray_text_after_closing_quote_is_a_parse_error() {
    match csv_to_json(b"Name\n\"Alice\"x".to_vec()) {
        Ok(out) => panic!("expected a parse error, got {}", out),
        Err(CsvToJsonError::CsvError(e)) => {
            assert_eq!(e, CsvParseError::InvalidQuoteEnd(12));
        },
        Err(e) => panic!("wrong error kind: {:?}", e),
    }
}

#[test]
fn quoted_fields_keep_separators_and_escaped_quotes() {
    let out = csv_to_json(b"Name,Note\n\"Smith, John\",\"said \"\"hi\"\"\nbye\"".to_vec()).unwrap();
    assert_eq!(out, "[{\"Name\":\"Smith, John\",\"Note\":\"said \\\"hi\\\"\\nbye\"}]");
}

#[test]
fn crlf_terminates_records() {
    let out = csv_to_json(b"A,B\r\nx,y\r\nz,w".to_vec()).unwrap();
    assert_eq!(out, r#"[{"A":"x","B":"y"},{"A":"z","B":"w"}]"#);
}

#[test]
fn blank_lines_are_skipped() {
    let out = csv_to_json(b"A\n\nx\n\ny\n".to_vec()).unwrap();
    assert_eq!(out, r#"[{"A":"x"},{"A":"y"}]"#);
}

#[test]
fn empty_fields_are_kept() {
    let out = csv_to_json(b"A,B\n,".to_vec()).unwrap();
    assert_eq!(out, r#"[{"A":"","B":""}]"#);
}

#[test]
fn duplicate_header_keeps_last_value() {
    let out = csv_to_json(b"A,A\n1,2".to_vec()).unwrap();
    assert_eq!(out, r#"[{"A":"2"}]"#);
}

#[test]
fn output_is_an_array_of_one_object_per_row_in_order() {
    let out = csv_to_json(b"K\na\nb\nc\nd".to_vec()).unwrap();
    let parsed: serde_json::Value = serde_json::from_str(&out).unwrap();
    let arr = parsed.as_array().unwrap();
    assert_eq!(arr.len(), 4);
    let expect = ["a", "b", "c", "d"];
    for (i, want) in expect.iter().enumerate() {
        let obj = arr[i].as_object().unwrap();
        assert_eq!(obj.len(), 1);
        assert_eq!(obj.get("K").unwrap().as_str().unwrap(), *want);
    }
}

#[test]
fn round_trip_keys_are_headers_and_values_match_rows() {
    let headers = ["Name", "Age", "Location"];
    let rows = [["Alice", "30", "NY"], ["Bob", "40", "CA"]];
    let out = csv_to_json(b"Name,Age,Location\nAlice,30,NY\nBob,40,CA".to_vec()).unwrap();
    let parsed: serde_json::Value = serde_json::from_str(&out).unwrap();
    let arr = parsed.as_array().unwrap();
    assert_eq!(arr.len(), rows.len());
    for (obj, row) in arr.iter().zip(rows.iter()) {
        let obj = obj.as_object().unwrap();
        for key in obj.keys() {
            assert!(headers.contains(&key.as_str()));
        }
        for (k, header) in headers.iter().enumerate() {
            assert_eq!(obj.get(*header).unwrap().as_str().unwrap(), row[k]);
        }
    }
}

#[test]
fn error_messages_name_the_stage() {
    assert_eq!(CsvToJsonError::Utf8Error(0).message(), "UTF-8 encoding error");
    assert_eq!(
        CsvToJsonError::CsvError(CsvParseError::UnterminatedQuote(0)).message(),
        "CSV processing error"
    );
    assert_eq!(
        CsvToJsonError::SerdeJsonError(String::new()).message(),
        "JSON serialization error"
    );
}
