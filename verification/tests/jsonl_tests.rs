use table_normalizer::error::{ErrorKind, TableError};
use table_normalizer::jsonl::{
    cell_string, keys_of, nonblank_lines, parse_jsonl, read_lines, row_under_headers,
    table_of_readings,
};
use table_normalizer::table::FileType;
use table_normalizer::value::GenericValue;

fn strings(items: &[&str]) -> Vec<String> {
    items.iter().map(|item| item.to_string()).collect()
}

fn numbered(lines: &[(usize, &str)]) -> Vec<(usize, String)> {
    lines.iter().map(|(number, line)| (*number, line.to_string())).collect()
}

fn number(text: &str) -> GenericValue {
    GenericValue::Number(text.to_string())
}

fn text(text: &str) -> GenericValue {
    GenericValue::String(text.to_string())
}

fn object(members: Vec<(&str, GenericValue)>) -> GenericValue {
    GenericValue::Object(members.into_iter().map(|(k, v)| (k.to_string(), v)).collect())
}

#[test]
fn parse_jsonl_aligns_rows_to_the_first_line() {
    let table = parse_jsonl(
        "log.jsonl",
        "{\"a\":1,\"b\":\"x\"}\n{\"b\":true,\"c\":3}\n{\"b\":null,\"a\":2.5}\n",
    )
    .unwrap();
    assert_eq!(table.headers, strings(&["a", "b"]));
    assert_eq!(
        table.rows,
        vec![strings(&["1", "x"]), strings(&["", "true"]), strings(&["2.5", ""])]
    );
    assert_eq!(table.row_count, 3);
    assert_eq!(table.file_name, "log.jsonl");
    assert_eq!(table.file_type, FileType::Jsonl);
    assert_eq!(table.file_type.name(), "JSONL");
}

#[test]
fn parse_jsonl_writes_arrays_and_objects_as_json() {
    let table = parse_jsonl(
        "log.jsonl",
        "{\"a\":[1, \"x\"],\"b\":{\"c\": [true, null]},\"d\":[]}",
    )
    .unwrap();
    assert_eq!(table.headers, strings(&["a", "b", "d"]));
    assert_eq!(table.rows, vec![strings(&["[1,\"x\"]", "{\"c\":[true,null]}", "[]"])]);
}

#[test]
fn parse_jsonl_passes_over_blank_lines() {
    let table = parse_jsonl("log.jsonl", "\n  \t \n{\"a\":1}\r\n\r\n \u{a0}\u{3000}\n{\"a\":2}")
        .unwrap();
    assert_eq!(table.headers, strings(&["a"]));
    assert_eq!(table.rows, vec![strings(&["1"]), strings(&["2"])]);
}

#[test]
fn parse_jsonl_refuses_text_without_lines() {
    for content in ["", "\n", " \n\t\r\n  "] {
        let error = parse_jsonl("log.jsonl", content).unwrap_err();
        assert!(matches!(error, TableError::JsonlEmpty));
        assert_eq!(error.kind(), ErrorKind::EmptyInput);
        assert_eq!(error.message(), "JSONL file is empty");
    }
}

#[test]
fn parse_jsonl_refuses_a_first_line_that_is_not_json() {
    let error = parse_jsonl("log.jsonl", "\n{\"a\":\n{\"a\":1}").unwrap_err();
    let detail = serde_json::from_str::<serde_json::Value>("{\"a\":").unwrap_err().to_string();
    assert!(matches!(error, TableError::JsonlFirstLine(2, _)));
    assert_eq!(error.kind(), ErrorKind::ParseFailure);
    assert_eq!(error.line(), Some(2));
    assert_eq!(error.message(), format!("Failed to parse first line: {}", detail));
}

#[test]
fn parse_jsonl_names_the_number_of_the_line_in_the_text() {
    let error = parse_jsonl("log.jsonl", "{\"a\":1}\n\n{\"a\":2}\n\n\n{\"a\"\n{\"a\":4}")
        .unwrap_err();
    let detail = serde_json::from_str::<serde_json::Value>("{\"a\"").unwrap_err().to_string();
    assert!(matches!(error, TableError::JsonlLine(6, _)));
    assert_eq!(error.kind(), ErrorKind::ParseFailure);
    assert_eq!(error.line(), Some(6));
    assert_eq!(error.message(), format!("Failed to parse line 6: {}", detail));
}

#[test]
fn parse_jsonl_counts_a_blank_line_before_the_bad_one() {
    let error = parse_jsonl("log.jsonl", "{\"a\":1}\n\n{bad\n").unwrap_err();
    assert!(matches!(error, TableError::JsonlLine(3, _)));
    assert_eq!(error.line(), Some(3));
    assert!(error.message().starts_with("Failed to parse line 3: "));
    let error = parse_jsonl("log.jsonl", "{\"a\":1}\r\n \r\n\r\n{\"a\":1.0,\"b\":[}\r\n").unwrap_err();
    assert_eq!(error.line(), Some(4));
}

#[test]
fn parse_jsonl_refuses_a_first_line_that_is_no_object() {
    let error = parse_jsonl("log.jsonl", "[1,2]\n{\"a\":1}").unwrap_err();
    assert!(matches!(error, TableError::JsonlShape));
    assert_eq!(error.kind(), ErrorKind::InvalidShape);
    assert_eq!(error.message(), "JSONL lines must be objects");
}

#[test]
fn parse_jsonl_refuses_a_later_line_that_is_no_object() {
    let error = parse_jsonl("log.jsonl", "{\"a\":1}\n7\n{\"a\"").unwrap_err();
    assert!(matches!(error, TableError::JsonlShape));
    assert_eq!(error.kind(), ErrorKind::InvalidShape);
}

#[test]
fn parse_jsonl_reports_the_first_failure() {
    let error = parse_jsonl("log.jsonl", "{\"a\":1}\n{\"a\"\n7").unwrap_err();
    assert!(matches!(error, TableError::JsonlLine(2, _)));
    let error = parse_jsonl("log.jsonl", "\n\n{\"a\":1}\n\n7\n{\"a\"").unwrap_err();
    assert!(matches!(error, TableError::JsonlShape));
    let error = parse_jsonl("log.jsonl", "\n\n{\"a\":1}\n\n{\"a\"\n7").unwrap_err();
    assert!(matches!(error, TableError::JsonlLine(5, _)));
}

#[test]
fn parse_jsonl_of_an_empty_object_has_no_columns() {
    let table = parse_jsonl("log.jsonl", "{}\n{\"a\":1}").unwrap();
    assert_eq!(table.headers, Vec::<String>::new());
    assert_eq!(table.rows, vec![Vec::<String>::new(), Vec::<String>::new()]);
    assert_eq!(table.row_count, 2);
}

#[test]
fn nonblank_lines_splits_at_line_feeds() {
    assert_eq!(
        nonblank_lines("a\r\nb\n\n \nc\rd\r\r\ne\r"),
        vec![
            (1, "a".to_string()),
            (2, "b".to_string()),
            (5, "c\rd\r".to_string()),
            (6, "e\r".to_string()),
        ]
    );
    assert_eq!(nonblank_lines(""), Vec::<(usize, String)>::new());
    assert_eq!(nonblank_lines("one"), vec![(1, "one".to_string())]);
}

#[test]
fn read_lines_stops_at_the_first_failure() {
    let readings = read_lines(&numbered(&[(1, "1"), (4, "{"), (5, "2"), (9, "}")]));
    assert_eq!(readings.len(), 2);
    assert!(matches!(readings[0], (1, Ok(GenericValue::Number(_)))));
    assert!(matches!(readings[1], (4, Err(_))));
    let readings = read_lines(&numbered(&[(2, "[]"), (3, "{}")]));
    assert_eq!(readings.len(), 2);
    assert!(matches!(readings[0], (2, Ok(_))));
    assert!(matches!(readings[1], (3, Ok(_))));
}

#[test]
fn table_of_readings_makes_the_table() {
    let readings = vec![
        (1, Ok(object(vec![("k", text("v")), ("n", number("1"))]))),
        (2, Ok(object(vec![("n", GenericValue::Array(vec![number("2"), GenericValue::Null]))]))),
    ];
    let table = table_of_readings("mem.jsonl", &readings).unwrap();
    assert_eq!(table.headers, strings(&["k", "n"]));
    assert_eq!(table.rows, vec![strings(&["v", "1"]), strings(&["", "[2,null]"])]);
    assert_eq!(table.file_name, "mem.jsonl");
}

#[test]
fn table_of_readings_refuses_no_readings() {
    let error = table_of_readings("mem.jsonl", &Vec::new()).unwrap_err();
    assert!(matches!(error, TableError::JsonlEmpty));
}

#[test]
fn table_of_readings_names_the_line_of_a_failure() {
    let readings =
        vec![(2, Ok(object(vec![]))), (3, Ok(object(vec![]))), (7, Err("bad".to_string()))];
    let error = table_of_readings("mem.jsonl", &readings).unwrap_err();
    assert!(matches!(error, TableError::JsonlLine(7, _)));
    assert_eq!(error.line(), Some(7));
    assert_eq!(error.message(), "Failed to parse line 7: bad");
    let readings = vec![(5, Err("worse".to_string())), (6, Ok(object(vec![])))];
    let error = table_of_readings("mem.jsonl", &readings).unwrap_err();
    assert!(matches!(error, TableError::JsonlFirstLine(5, _)));
    assert_eq!(error.line(), Some(5));
    assert_eq!(error.message(), "Failed to parse first line: worse");
    let readings = vec![(1, Ok(object(vec![]))), (1, Err("same".to_string()))];
    let error = table_of_readings("mem.jsonl", &readings).unwrap_err();
    assert!(matches!(error, TableError::JsonlLine(1, _)));
}

#[test]
fn table_of_readings_refuses_a_number_that_is_not_canonical() {
    let readings =
        vec![(1, Ok(object(vec![]))), (4, Ok(object(vec![("a", number("1x"))])))];
    let error = table_of_readings("mem.jsonl", &readings).unwrap_err();
    assert!(matches!(error, TableError::JsonlMalformed(4)));
    assert_eq!(error.kind(), ErrorKind::ParseFailure);
    assert_eq!(error.line(), Some(4));
    assert_eq!(
        error.message(),
        "Failed to parse line 4: a number is not canonical or a key is repeated"
    );
}

#[test]
fn parse_jsonl_has_every_header_once() {
    let table = parse_jsonl("log.jsonl", "{\"a\":1,\"b\":2,\"a\":3}\n{\"b\":4}").unwrap();
    assert_eq!(table.headers, strings(&["a", "b"]));
    assert_eq!(table.rows, vec![strings(&["3", "2"]), strings(&["", "4"])]);
}

#[test]
fn table_of_readings_refuses_an_object_with_a_key_twice() {
    let readings = vec![(1, Ok(object(vec![("a", text("1")), ("a", text("2"))])))];
    let error = table_of_readings("mem.jsonl", &readings).unwrap_err();
    assert!(matches!(error, TableError::JsonlMalformed(1)));
    assert_eq!(
        error.message(),
        "Failed to parse line 1: a number is not canonical or a key is repeated"
    );
}

#[test]
fn a_line_is_blank_just_where_it_holds_white_space_only() {
    let white: Vec<u32> = (0x9..=0xD)
        .chain([0x20, 0x85, 0xA0, 0x1680])
        .chain(0x2000..=0x200A)
        .chain([0x2028, 0x2029, 0x202F, 0x205F, 0x3000])
        .collect();
    assert_eq!(white.len(), 25);
    for code in 0..0x11000u32 {
        if let Some(c) = char::from_u32(code) {
            let line = format!("{}{}", c, c);
            assert_eq!(nonblank_lines(&line).is_empty(), white.contains(&code), "{:x}", code);
            let line = format!("{}x{}", c, c);
            assert!(!nonblank_lines(&line).is_empty(), "{:x}", code);
        }
    }
}

#[test]
fn cell_string_writes_every_kind() {
    assert_eq!(cell_string(&text("a\"b")), "a\"b");
    assert_eq!(cell_string(&number("12")), "12");
    assert_eq!(cell_string(&GenericValue::Bool(true)), "true");
    assert_eq!(cell_string(&GenericValue::Bool(false)), "false");
    assert_eq!(cell_string(&GenericValue::Null), "");
    assert_eq!(
        cell_string(&GenericValue::Array(vec![text("a\"b"), GenericValue::Null])),
        "[\"a\\\"b\",null]"
    );
    assert_eq!(
        cell_string(&object(vec![("k", number("1.5")), ("l", object(vec![]))])),
        "{\"k\":1.5,\"l\":{}}"
    );
}

#[test]
fn row_under_headers_takes_the_first_member_with_a_key() {
    let members = vec![
        ("a".to_string(), number("1")),
        ("b".to_string(), text("x")),
        ("a".to_string(), number("2")),
    ];
    assert_eq!(keys_of(&members), strings(&["a", "b", "a"]));
    assert_eq!(
        row_under_headers(&strings(&["b", "missing", "a"]), &members),
        strings(&["x", "", "1"])
    );
}

/// The lines of a text by the rule that the library states: a line ends at
/// a line feed, and loses the line feed and one carriage return before it.
fn lines_by_rule(text: &str) -> Vec<String> {
    let chars: Vec<char> = text.chars().collect();
    let mut lines = Vec::new();
    let mut start = 0;
    while start < chars.len() {
        let mut end = start;
        while end < chars.len() && chars[end] != '\n' {
            end += 1;
        }
        if end == chars.len() {
            lines.push(chars[start..end].iter().collect());
        } else if end > start && chars[end - 1] == '\r' {
            lines.push(chars[start..end - 1].iter().collect());
        } else {
            lines.push(chars[start..end].iter().collect());
        }
        start = end + 1;
    }
    lines
}

#[test]
fn nonblank_lines_follow_the_stated_rule_on_every_short_text() {
    let alphabet = ['a', '\n', '\r', ' ', '\u{e9}'];
    let mut texts = vec![String::new()];
    let mut from = 0;
    for _ in 0..6 {
        let upto = texts.len();
        for index in from..upto {
            for letter in alphabet {
                let mut longer = texts[index].clone();
                longer.push(letter);
                texts.push(longer);
            }
        }
        from = upto;
    }
    assert_eq!(texts.len(), 19531);
    for text in &texts {
        let expected: Vec<(usize, String)> = lines_by_rule(text)
            .into_iter()
            .enumerate()
            .map(|(index, line)| (index + 1, line))
            .filter(|(_, line)| !line.chars().all(|c| c == ' ' || c == '\r'))
            .collect();
        assert_eq!(&nonblank_lines(text), &expected, "{:?}", text);
    }
}
