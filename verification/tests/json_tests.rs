use table_normalizer::error::{ErrorKind, TableError};
use table_normalizer::export::{export_document, export_json};
use table_normalizer::extract::extract_data_array;
use table_normalizer::flatten::{flatten_object, try_flatten};
use table_normalizer::ingest::{parse_json, table_of_document, table_of_reading};
use table_normalizer::table::{assemble, FileData, FileType};
use table_normalizer::value::GenericValue;

/// Reads a text with `serde_json` and builds the library's value by hand.
fn value(text: &str) -> GenericValue {
    lift(&serde_json::from_str::<serde_json::Value>(text).unwrap())
}

fn lift(tree: &serde_json::Value) -> GenericValue {
    match tree {
        serde_json::Value::Null => GenericValue::Null,
        serde_json::Value::Bool(b) => GenericValue::Bool(*b),
        serde_json::Value::Number(n) => GenericValue::Number(n.to_string()),
        serde_json::Value::String(s) => GenericValue::String(s.clone()),
        serde_json::Value::Array(items) => GenericValue::Array(items.iter().map(lift).collect()),
        serde_json::Value::Object(map) => {
            GenericValue::Object(map.iter().map(|(k, v)| (k.clone(), lift(v))).collect())
        }
    }
}

fn flat(text: &str) -> Vec<(String, String)> {
    let mut out = Vec::new();
    assert!(try_flatten("", &value(text), &mut out));
    out
}

fn pair(key: &str, text: &str) -> (String, String) {
    (key.to_string(), text.to_string())
}

fn strings(items: &[&str]) -> Vec<String> {
    items.iter().map(|item| item.to_string()).collect()
}

fn table(text: &str) -> FileData {
    parse_json("data.json", text).unwrap()
}

fn shown(values: &[GenericValue]) -> String {
    format!("{:?}", values)
}

#[test]
fn flatten_nested_objects_join_keys_with_dots() {
    assert_eq!(flat(r#"{"a":{"b":{"c":1}}}"#), vec![pair("a.b.c", "1")]);
}

#[test]
fn flatten_keeps_member_order_depth_first() {
    assert_eq!(
        flat(r#"{"user":{"name":"Alice","age":28},"id":7,"z":{"y":{"x":true}}}"#),
        vec![
            pair("user.name", "Alice"),
            pair("user.age", "28"),
            pair("id", "7"),
            pair("z.y.x", "true"),
        ]
    );
}

#[test]
fn flatten_joins_short_array_of_strings() {
    assert_eq!(flat(r#"{"tags":["x","y"]}"#), vec![pair("tags", "x, y")]);
}

#[test]
fn flatten_joins_scalars_of_every_kind() {
    assert_eq!(
        flat(r#"{"mix":[1,"a",true,false,null,2.5]}"#),
        vec![pair("mix", "1, a, true, false, null, 2.5")]
    );
}

#[test]
fn flatten_joins_ten_items() {
    assert_eq!(
        flat(r#"{"n":[1,2,3,4,5,6,7,8,9,10]}"#),
        vec![pair("n", "1, 2, 3, 4, 5, 6, 7, 8, 9, 10")]
    );
}

#[test]
fn flatten_writes_eleven_items_as_json() {
    assert_eq!(
        flat(r#"{"n":[1,2,3,4,5,6,7,8,9,10,11]}"#),
        vec![pair("n", "[1,2,3,4,5,6,7,8,9,10,11]")]
    );
}

#[test]
fn flatten_writes_array_with_an_object_as_json() {
    assert_eq!(
        flat(r#"{"a":[{"b":1,"c":"q\"r"},2]}"#),
        vec![pair("a", r#"[{"b":1,"c":"q\"r"},2]"#)]
    );
}

#[test]
fn flatten_writes_array_with_an_array_as_json() {
    assert_eq!(flat(r#"{"a":[[1, 2], 3]}"#), vec![pair("a", "[[1,2],3]")]);
}

#[test]
fn flatten_writes_empty_array_as_empty_text() {
    assert_eq!(flat(r#"{"a":[]}"#), vec![pair("a", "")]);
}

#[test]
fn flatten_writes_leaves() {
    assert_eq!(
        flat(r#"{"s":"x\ny","n":-12,"f":1.0,"e":1e2,"t":true,"u":false,"z":null}"#),
        vec![
            pair("s", "x\ny"),
            pair("n", "-12"),
            pair("f", "1.0"),
            pair("e", "100.0"),
            pair("t", "true"),
            pair("u", "false"),
            pair("z", ""),
        ]
    );
}

#[test]
fn flatten_gives_nothing_for_an_empty_object() {
    assert_eq!(flat(r#"{"a":{},"b":1}"#), vec![pair("b", "1")]);
}

#[test]
fn flatten_of_a_scalar_at_the_root_has_the_empty_key() {
    assert_eq!(flat(r#""x""#), vec![pair("", "x")]);
    assert_eq!(flat("[1,2]"), vec![pair("", "1, 2")]);
}

#[test]
fn flatten_appends_to_what_is_there() {
    let mut out = vec![pair("kept", "1")];
    flatten_object("p", &value(r#"{"a":2,"b":{"c":3}}"#), &mut out);
    assert_eq!(out, vec![pair("kept", "1"), pair("p.a", "2"), pair("p.b.c", "3")]);
}

#[test]
fn try_flatten_leaves_out_alone_where_the_value_is_not_well_formed() {
    let mut out = vec![pair("kept", "1")];
    let value = GenericValue::Object(vec![
        ("a".to_string(), GenericValue::Number("1".to_string())),
        ("b".to_string(), GenericValue::Number("1..2".to_string())),
    ]);
    assert!(!try_flatten("p", &value, &mut out));
    assert_eq!(out, vec![pair("kept", "1")]);
}

#[test]
fn flatten_may_give_a_key_twice() {
    assert_eq!(
        flat(r#"{"a.b":1,"a":{"b":2}}"#),
        vec![pair("a.b", "1"), pair("a.b", "2")]
    );
}

#[test]
fn extract_hands_an_array_back() {
    let rows = extract_data_array(value(r#"[{"a":1},2,"x"]"#)).unwrap();
    assert_eq!(
        shown(&rows),
        shown(&[value(r#"{"a":1}"#), value("2"), value(r#""x""#)])
    );
}

#[test]
fn extract_refuses_an_empty_array() {
    let error = extract_data_array(value("[]")).unwrap_err();
    assert!(matches!(error, TableError::JsonEmptyArray));
    assert_eq!(error.kind(), ErrorKind::EmptyInput);
    assert_eq!(error.message(), "JSON array is empty");
}

#[test]
fn extract_refuses_scalars() {
    for text in ["1", "\"x\"", "true", "null"] {
        let error = extract_data_array(value(text)).unwrap_err();
        assert!(matches!(error, TableError::JsonShape));
        assert_eq!(error.kind(), ErrorKind::InvalidShape);
        assert_eq!(error.message(), "JSON must be an object or an array of objects");
    }
}

#[test]
fn extract_reads_a_dictionary_of_objects() {
    let rows = extract_data_array(value(r#"{"alice":{"age":30},"bob":{"age":25}}"#)).unwrap();
    assert_eq!(
        shown(&rows),
        shown(&[
            value(r#"{"Name":"alice","age":30}"#),
            value(r#"{"Name":"bob","age":25}"#),
        ])
    );
}

#[test]
fn extract_dictionary_needs_half_of_the_members() {
    let rows = extract_data_array(value(r#"{"a":{"x":1},"b":{"x":2},"c":1,"d":2}"#)).unwrap();
    assert_eq!(
        shown(&rows),
        shown(&[value(r#"{"Name":"a","x":1}"#), value(r#"{"Name":"b","x":2}"#)])
    );
    let document = r#"{"a":{"x":1},"b":{"x":2},"c":1,"d":2,"e":3}"#;
    let rows = extract_data_array(value(document)).unwrap();
    assert_eq!(shown(&rows), shown(&[value(document)]));
}

#[test]
fn extract_dictionary_needs_two_objects() {
    let document = r#"{"a":{"x":1}}"#;
    let rows = extract_data_array(value(document)).unwrap();
    assert_eq!(shown(&rows), shown(&[value(document)]));
}

#[test]
fn extract_dictionary_comes_before_arrays() {
    let rows = extract_data_array(value(r#"{"a":{"x":1},"b":{"x":2},"c":[{"y":1}]}"#)).unwrap();
    assert_eq!(
        shown(&rows),
        shown(&[value(r#"{"Name":"a","x":1}"#), value(r#"{"Name":"b","x":2}"#)])
    );
}

#[test]
fn extract_dictionary_row_takes_name_from_its_body() {
    let rows =
        extract_data_array(value(r#"{"alice":{"age":1,"Name":"A"},"bob":{"age":2}}"#)).unwrap();
    assert_eq!(
        shown(&rows),
        shown(&[value(r#"{"Name":"A","age":1}"#), value(r#"{"Name":"bob","age":2}"#)])
    );
}

#[test]
fn extract_takes_the_longest_array_of_objects() {
    let rows =
        extract_data_array(value(r#"{"meta":{"x":1},"items":[{"a":1},{"a":2}]}"#)).unwrap();
    assert_eq!(shown(&rows), shown(&[value(r#"{"a":1}"#), value(r#"{"a":2}"#)]));
    let rows = extract_data_array(value(
        r#"{"a":[{"x":1}],"b":[{"y":2},{"y":3},4],"c":[{"z":5},{"z":6}]}"#,
    ))
    .unwrap();
    assert_eq!(shown(&rows), shown(&[value(r#"{"y":2}"#), value(r#"{"y":3}"#), value("4")]));
}

#[test]
fn extract_takes_the_first_of_equally_long_arrays() {
    let rows = extract_data_array(value(r#"{"b":[{"y":2}],"a":[{"x":1}]}"#)).unwrap();
    assert_eq!(shown(&rows), shown(&[value(r#"{"y":2}"#)]));
}

#[test]
fn extract_passes_over_arrays_that_do_not_start_with_an_object() {
    let rows = extract_data_array(value(r#"{"x":[1,2,3],"e":[],"y":[{"a":1}]}"#)).unwrap();
    assert_eq!(shown(&rows), shown(&[value(r#"{"a":1}"#)]));
}

#[test]
fn extract_falls_back_to_the_object_itself() {
    let document = r#"{"a":1,"b":2,"c":[1,2]}"#;
    let rows = extract_data_array(value(document)).unwrap();
    assert_eq!(shown(&rows), shown(&[value(document)]));
}

#[test]
fn table_of_a_dictionary_of_objects() {
    let table = table(r#"{"alice":{"age":30},"bob":{"age":25}}"#);
    assert_eq!(table.headers, strings(&["Name", "age"]));
    assert_eq!(table.rows, vec![strings(&["alice", "30"]), strings(&["bob", "25"])]);
    assert_eq!(table.row_count, 2);
    assert_eq!(table.file_name, "data.json");
    assert_eq!(table.file_type, FileType::Json);
    assert_eq!(table.file_type.name(), "JSON");
}

#[test]
fn table_unites_the_columns_of_sparse_rows() {
    let table = table(r#"[{"a":1},{"b":2}]"#);
    assert_eq!(table.headers, strings(&["a", "b"]));
    assert_eq!(table.rows, vec![strings(&["1", ""]), strings(&["", "2"])]);
}

#[test]
fn table_of_a_single_object() {
    let table = table(r#"{"a":1,"b":2}"#);
    assert_eq!(table.headers, strings(&["a", "b"]));
    assert_eq!(table.rows, vec![strings(&["1", "2"])]);
    assert_eq!(table.row_count, 1);
}

#[test]
fn table_of_the_longest_nested_array() {
    let table = table(r#"{"meta":{"x":1},"items":[{"a":1},{"a":2}]}"#);
    assert_eq!(table.headers, strings(&["a"]));
    assert_eq!(table.rows, vec![strings(&["1"]), strings(&["2"])]);
}

#[test]
fn table_moves_name_to_the_front() {
    let table = table(r#"[{"id":1,"Name":"x","k":2},{"id":3,"Name":"y","k":4}]"#);
    assert_eq!(table.headers, strings(&["Name", "id", "k"]));
    assert_eq!(table.rows, vec![strings(&["x", "1", "2"]), strings(&["y", "3", "4"])]);
}

#[test]
fn table_keeps_a_name_that_is_in_front() {
    let table = table(r#"[{"Name":"x","id":1}]"#);
    assert_eq!(table.headers, strings(&["Name", "id"]));
    assert_eq!(table.rows, vec![strings(&["x", "1"])]);
}

#[test]
fn table_takes_the_last_of_two_pairs_with_one_key() {
    let table = table(r#"[{"a.b":1,"a":{"b":2}}]"#);
    assert_eq!(table.headers, strings(&["a.b"]));
    assert_eq!(table.rows, vec![strings(&["2"])]);
}

#[test]
fn table_of_scalars_has_one_column_without_a_name() {
    let table = table("[1,\"x\",null]");
    assert_eq!(table.headers, strings(&[""]));
    assert_eq!(table.rows, vec![strings(&["1"]), strings(&["x"]), strings(&[""])]);
}

#[test]
fn table_rows_are_as_wide_as_the_headers() {
    let table = table(r#"[{"a":1,"b":{"c":[1,2],"d":null}},{"e":[{"f":1}]},{},3]"#);
    assert_eq!(table.headers, strings(&["a", "b.c", "b.d", "e", ""]));
    assert_eq!(
        table.rows,
        vec![
            strings(&["1", "1, 2", "", "", ""]),
            strings(&["", "", "", r#"[{"f":1}]"#, ""]),
            strings(&["", "", "", "", ""]),
            strings(&["", "", "", "", "3"]),
        ]
    );
    assert_eq!(table.row_count, table.rows.len());
    for row in &table.rows {
        assert_eq!(row.len(), table.headers.len());
    }
}

#[test]
fn assemble_makes_a_table_of_rows() {
    let rows = vec![value(r#"{"x":{"y":1}}"#), value(r#"{"Name":"n"}"#)];
    let table = assemble(&rows, "rows.json");
    assert_eq!(table.headers, strings(&["Name", "x.y"]));
    assert_eq!(table.rows, vec![strings(&["", "1"]), strings(&["n", ""])]);
    assert_eq!(table.row_count, 2);
    assert_eq!(table.file_name, "rows.json");
    assert_eq!(table.file_type, FileType::Json);
}

#[test]
fn parse_json_keeps_the_order_of_the_members() {
    let table = table(r#"[{"zeta":1,"alpha":2,"mid":3}]"#);
    assert_eq!(table.headers, strings(&["zeta", "alpha", "mid"]));
}

#[test]
fn parse_json_refuses_text_that_is_not_json() {
    let error = parse_json("data.json", "{\"a\": ").unwrap_err();
    let detail = serde_json::from_str::<serde_json::Value>("{\"a\": ").unwrap_err().to_string();
    assert!(matches!(error, TableError::JsonSyntax(_)));
    assert_eq!(error.kind(), ErrorKind::ParseFailure);
    assert_eq!(error.line(), None);
    assert_eq!(error.message(), format!("Failed to parse JSON: {}", detail));
    assert_eq!(
        error.message(),
        "Failed to parse JSON: EOF while parsing a value at line 1 column 6"
    );
}

#[test]
fn parse_json_refuses_an_empty_array() {
    let error = parse_json("data.json", " [ ] ").unwrap_err();
    assert_eq!(error.kind(), ErrorKind::EmptyInput);
    assert_eq!(error.message(), "JSON array is empty");
}

#[test]
fn parse_json_refuses_a_scalar() {
    let error = parse_json("data.json", "42").unwrap_err();
    assert_eq!(error.kind(), ErrorKind::InvalidShape);
    assert_eq!(error.message(), "JSON must be an object or an array of objects");
}

#[test]
fn numbers_keep_the_text_that_the_reader_prints() {
    let table = table(r#"[{"a":1.0,"b":1e2,"c":-0,"d":18446744073709551615,"e":-5,"f":0.1}]"#);
    assert_eq!(
        table.rows,
        vec![strings(&["1.0", "100.0", "-0.0", "18446744073709551615", "-5", "0.1"])]
    );
}

fn rows_with_number(text: &str) -> GenericValue {
    GenericValue::Array(vec![GenericValue::Object(vec![(
        "a".to_string(),
        GenericValue::Array(vec![GenericValue::Number(text.to_string())]),
    )])])
}

#[test]
fn a_number_that_is_not_canonical_is_refused() {
    for text in ["1500.0", "0", "-12", "0.1", "18446744073709551615"] {
        assert!(rows_with_number(text).is_well_formed(), "{}", text);
    }
    for text in ["1e300", "1E-9", "2.50", "-0", "1e2", "123456789012345678901234567890"] {
        let written = serde_json::from_str::<serde_json::Value>(text).unwrap().to_string();
        assert!(rows_with_number(&written).is_well_formed(), "{} as {}", text, written);
    }
    for text in ["one", "1.5e3", "1.50", "01", "+1", "1e2", " 1", ""] {
        let value = rows_with_number(text);
        assert!(!value.is_well_formed(), "{}", text);
        let error = table_of_reading("data.json", Ok(value)).unwrap_err();
        assert!(matches!(error, TableError::JsonMalformed));
        assert_eq!(error.kind(), ErrorKind::ParseFailure);
        assert_eq!(
            error.message(),
            "Failed to parse JSON: a number is not canonical or a key is repeated"
        );
    }
}

#[test]
fn an_object_with_a_key_twice_is_refused() {
    let twice = GenericValue::Array(vec![GenericValue::Object(vec![
        ("a".to_string(), GenericValue::Null),
        ("b".to_string(), GenericValue::Null),
        ("a".to_string(), GenericValue::Bool(true)),
    ])]);
    assert!(!twice.is_well_formed());
    let error = table_of_reading("data.json", Ok(twice)).unwrap_err();
    assert!(matches!(error, TableError::JsonMalformed));
    let once = GenericValue::Object(vec![
        ("a".to_string(), GenericValue::Object(vec![("a".to_string(), GenericValue::Null)])),
        ("b".to_string(), GenericValue::Object(vec![("a".to_string(), GenericValue::Null)])),
    ]);
    assert!(once.is_well_formed());
}

#[test]
fn a_key_twice_in_the_text_holds_the_later_value() {
    let table = table(r#"[{"a":1,"b":2,"a":3}]"#);
    assert_eq!(table.headers, strings(&["a", "b"]));
    assert_eq!(table.rows, vec![strings(&["3", "2"])]);
}

#[test]
fn every_value_that_is_read_is_well_formed() {
    for text in [
        r#"{"a":1.0,"b":1e2,"c":-0,"d":[1.50,2E3,{"e":0.000001,"f":1e-7,"g":123456789012345678901234567890}]}"#,
        r#"[{"x":1,"x":2},{"y":{"z":3,"z":4.0}}]"#,
        r#"[0.1234567890123456789012345, 1.7976931348623157e308, 5e-324, 2.2250738585072011e-308,
            123456789.123456789123456789e-200, 9007199254740993.0, 0.30000000000000004,
            4.35, 8.41e21, 1.00000000000000011102230246251565404236316680908203125,
            7.038531e-26, 1448997445238699.19, 2.4703282292062327e-324, 1e23, 6.1e-7]"#,
    ] {
        assert!(value(text).is_well_formed(), "{}", text);
        assert!(parse_json("data.json", text).is_ok(), "{}", text);
    }
}

#[test]
fn table_of_reading_passes_the_readers_error_on() {
    let error = table_of_reading("data.json", Err("no luck".to_string())).unwrap_err();
    assert!(matches!(error, TableError::JsonSyntax(_)));
    assert_eq!(error.message(), "Failed to parse JSON: no luck");
}

#[test]
fn table_of_document_makes_the_table() {
    let document = value(r#"{"rows":[{"a":[1,{"b":2}]}]}"#);
    assert!(document.is_well_formed());
    let table = table_of_document(document, "doc.json").unwrap();
    assert_eq!(table.headers, strings(&["a"]));
    assert_eq!(table.rows, vec![strings(&[r#"[1,{"b":2}]"#])]);
    assert_eq!(table.file_name, "doc.json");
}

#[test]
fn export_document_zips_headers_and_cells() {
    let document = export_document(
        &strings(&["a", "b"]),
        &vec![strings(&["1", "2"]), strings(&["3"]), strings(&["4", "5", "6"])],
    );
    assert_eq!(
        shown(&[document]),
        shown(&[value(r#"[{"a":"1","b":"2"},{"a":"3"},{"a":"4","b":"5"}]"#)])
    );
}

#[test]
fn export_document_gives_a_repeated_header_the_later_cell() {
    let document = export_document(&strings(&["a", "b", "a"]), &vec![strings(&["1", "2", "3"])]);
    assert_eq!(shown(&[document]), shown(&[value(r#"[{"a":"3","b":"2"}]"#)]));
}

#[test]
fn export_json_writes_indented_text() {
    let text = export_json(&strings(&["a", "b"]), &vec![strings(&["1", "x\"y"])]).unwrap();
    assert_eq!(text, "[\n  {\n    \"a\": \"1\",\n    \"b\": \"x\\\"y\"\n  }\n]");
    let text = export_json(&strings(&["a"]), &Vec::new()).unwrap();
    assert_eq!(text, "[]");
}

#[test]
fn export_and_parse_give_the_table_back() {
    let headers = strings(&["Name", "user.age", "tags", ""]);
    let rows = vec![
        strings(&["alice", "30", "x, y", "1"]),
        strings(&["bob", "", "[1,2]", ""]),
        strings(&["", "", "", ""]),
    ];
    let text = export_json(&headers, &rows).unwrap();
    let table = parse_json("again.json", &text).unwrap();
    assert_eq!(table.headers, headers);
    assert_eq!(table.rows, rows);
    assert_eq!(table.row_count, 3);
}

#[test]
fn export_and_parse_move_name_to_the_front() {
    let text = export_json(&strings(&["id", "Name"]), &vec![strings(&["1", "x"])]).unwrap();
    let table = parse_json("again.json", &text).unwrap();
    assert_eq!(table.headers, strings(&["Name", "id"]));
    assert_eq!(table.rows, vec![strings(&["x", "1"])]);
}

#[test]
fn export_of_no_rows_cannot_be_parsed_back() {
    let text = export_json(&strings(&["a"]), &Vec::new()).unwrap();
    let error = parse_json("again.json", &text).unwrap_err();
    assert_eq!(error.kind(), ErrorKind::EmptyInput);
}
