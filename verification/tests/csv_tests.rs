use table_normalizer::csv_table::{export_csv, parse_csv, read_records, table_of_records};
use table_normalizer::error::{ErrorKind, TableError};
use table_normalizer::table::FileType;

fn strings(items: &[&str]) -> Vec<String> {
    items.iter().map(|item| item.to_string()).collect()
}

#[test]
fn parse_csv_reads_headers_and_rows() {
    let table = parse_csv("people.csv", "name,age\nAlice,30\nBob,25\n").unwrap();
    assert_eq!(table.headers, strings(&["name", "age"]));
    assert_eq!(table.rows, vec![strings(&["Alice", "30"]), strings(&["Bob", "25"])]);
    assert_eq!(table.row_count, 2);
    assert_eq!(table.file_name, "people.csv");
    assert_eq!(table.file_type, FileType::Csv);
    assert_eq!(table.file_type.name(), "CSV");
}

#[test]
fn parse_csv_reads_quoted_fields() {
    let table = parse_csv("q.csv", "a,b\r\n\"x,y\",\"say \"\"hi\"\"\"\r\n\"two\nlines\",\n").unwrap();
    assert_eq!(table.headers, strings(&["a", "b"]));
    assert_eq!(
        table.rows,
        vec![strings(&["x,y", "say \"hi\""]), strings(&["two\nlines", ""])]
    );
}

#[test]
fn parse_csv_with_headers_only_has_no_rows() {
    let table = parse_csv("h.csv", "a,b,c\n").unwrap();
    assert_eq!(table.headers, strings(&["a", "b", "c"]));
    assert_eq!(table.rows, Vec::<Vec<String>>::new());
    assert_eq!(table.row_count, 0);
}

#[test]
fn parse_csv_refuses_text_without_a_header_row() {
    for content in ["", "\n\n"] {
        let error = parse_csv("e.csv", content).unwrap_err();
        assert!(matches!(error, TableError::CsvEmpty));
        assert_eq!(error.kind(), ErrorKind::EmptyInput);
        assert_eq!(error.message(), "CSV file is empty");
    }
}

#[test]
fn parse_csv_refuses_a_record_of_another_width() {
    let content = "a,b\n1,2\n3\n4,5\n";
    let error = parse_csv("w.csv", content).unwrap_err();
    let mut reader = csv::ReaderBuilder::new().has_headers(true).from_reader(content.as_bytes());
    let detail = reader.records().nth(1).unwrap().unwrap_err().to_string();
    assert!(matches!(error, TableError::CsvRecord(_)));
    assert_eq!(error.kind(), ErrorKind::ParseFailure);
    assert_eq!(error.message(), format!("Failed to read record: {}", detail));
    assert_eq!(
        error.message(),
        "Failed to read record: CSV error: record 2 (line: 3, byte: 8): found record with 1 fields, but the previous record has 2 fields"
    );
}

#[test]
fn read_records_stops_at_the_first_failure() {
    let records = read_records("a,b\n1,2\n3\n4,5\n");
    assert_eq!(records.len(), 2);
    assert_eq!(records[0], Ok(strings(&["1", "2"])));
    assert!(records[1].is_err());
    let records = read_records("a,b\n1,2\n4,5\n");
    assert_eq!(records, vec![Ok(strings(&["1", "2"])), Ok(strings(&["4", "5"]))]);
}

#[test]
fn table_of_records_makes_the_table() {
    let table = table_of_records(
        "mem.csv",
        &Ok(strings(&["a", "b"])),
        &vec![Ok(strings(&["1", "2"])), Ok(strings(&["3", "4"]))],
    )
    .unwrap();
    assert_eq!(table.headers, strings(&["a", "b"]));
    assert_eq!(table.rows, vec![strings(&["1", "2"]), strings(&["3", "4"])]);
    assert_eq!(table.row_count, 2);
    assert_eq!(table.file_name, "mem.csv");
    assert_eq!(table.file_type, FileType::Csv);
}

#[test]
fn table_of_records_reports_the_first_failure() {
    let error = table_of_records(
        "mem.csv",
        &Ok(strings(&["a"])),
        &vec![Ok(strings(&["1"])), Err("first".to_string()), Err("second".to_string())],
    )
    .unwrap_err();
    assert!(matches!(error, TableError::CsvRecord(_)));
    assert_eq!(error.message(), "Failed to read record: first");
}

#[test]
fn table_of_records_needs_a_header_row() {
    let error = table_of_records("mem.csv", &Err("torn".to_string()), &Vec::new()).unwrap_err();
    assert!(matches!(error, TableError::CsvHeaders(_)));
    assert_eq!(error.kind(), ErrorKind::ParseFailure);
    assert_eq!(error.message(), "Failed to read headers: torn");
    let error = table_of_records("mem.csv", &Ok(Vec::new()), &Vec::new()).unwrap_err();
    assert!(matches!(error, TableError::CsvEmpty));
}

#[test]
fn export_csv_writes_header_row_and_records() {
    let bytes = export_csv(
        &strings(&["a", "b"]),
        &vec![strings(&["1", "2"]), strings(&["x,y", "say \"hi\""]), strings(&["", "two\nlines"])],
    )
    .unwrap();
    assert_eq!(
        String::from_utf8(bytes).unwrap(),
        "a,b\n1,2\n\"x,y\",\"say \"\"hi\"\"\"\n,\"two\nlines\"\n"
    );
}

#[test]
fn export_csv_without_rows_writes_the_header_row() {
    let bytes = export_csv(&strings(&["a", "b"]), &Vec::new()).unwrap();
    assert_eq!(String::from_utf8(bytes).unwrap(), "a,b\n");
}

#[test]
fn export_csv_refuses_the_first_row_of_another_width() {
    let error = export_csv(
        &strings(&["a", "b"]),
        &vec![strings(&["1", "2"]), strings(&["3"]), strings(&["4", "5", "6"])],
    )
    .unwrap_err();
    assert!(matches!(error, TableError::CsvWriteRow(_)));
    assert_eq!(error.kind(), ErrorKind::InvalidShape);
    assert_eq!(
        error.message(),
        "Failed to write row: CSV error: found record with 1 fields, but the previous record has 2 fields"
    );
}

#[test]
fn export_csv_and_parse_csv_give_the_table_back() {
    let headers = strings(&["id", "note"]);
    let rows = vec![strings(&["1", "a,b"]), strings(&["2", "line\nbreak"]), strings(&["3", ""])];
    let bytes = export_csv(&headers, &rows).unwrap();
    let table = parse_csv("again.csv", &String::from_utf8(bytes).unwrap()).unwrap();
    assert_eq!(table.headers, headers);
    assert_eq!(table.rows, rows);
}

#[test]
fn export_csv_writes_every_record_by_itself() {
    let headers = strings(&["a", "b"]);
    let first = strings(&["", "x y"]);
    let second = strings(&["\"", "1,2"]);
    let whole = export_csv(&headers, &vec![strings(&["", "x y"]), strings(&["\"", "1,2"])])
        .unwrap();
    let mut parts = export_csv(&headers, &Vec::new()).unwrap();
    parts.extend(export_csv(&first, &Vec::new()).unwrap());
    parts.extend(export_csv(&second, &Vec::new()).unwrap());
    assert_eq!(whole, parts);
    assert_eq!(String::from_utf8(whole).unwrap(), "a,b\n,x y\n\"\"\"\",\"1,2\"\n");
}

#[test]
fn export_csv_writes_a_single_empty_field_in_quotes() {
    let bytes = export_csv(&strings(&["a"]), &vec![strings(&[""])]).unwrap();
    assert_eq!(String::from_utf8(bytes).unwrap(), "a\n\"\"\n");
}

#[test]
fn read_records_are_as_wide_as_the_header_row() {
    for content in ["a,b\n1,2\n3,4\n", "a\n\n1\n\n2\n", "a,b,c\n1,2\n1,2,3\n", "x\n"] {
        let width = content.lines().next().unwrap().split(',').count();
        for record in read_records(content) {
            if let Ok(fields) = record {
                assert_eq!(fields.len(), width);
            }
        }
    }
}
