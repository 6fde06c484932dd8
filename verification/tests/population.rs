use rust_hive::numbers::NumberError;
use rust_hive::parsers::population::{
    clean_text, extract_row, normalize_line, parse_blob, parse_line, InputHandler, ParseError,
    PopulationRow,
};

fn fields(values: &[&str]) -> Vec<String> {
    values.iter().map(|value| value.to_string()).collect()
}

const GOOD_LINE: &str =
    "2023|001|Description|RC01|Region|CCA01|CCAATT|CCAMM01|CCAATTMM|1234|5678|6912|345";

#[test]
fn test_extract_row() {
    let row = "value1|value2|value3";
    let extracted = extract_row(row);
    assert_eq!(extracted, vec!["value1", "value2", "value3"]);
}

#[test]
fn extract_row_of_a_text_without_separator_is_one_field() {
    assert_eq!(extract_row("value"), vec!["value"]);
    assert_eq!(extract_row(""), vec![""]);
}

#[test]
fn clean_text_strips_marks_and_separators_at_the_ends() {
    assert_eq!(clean_text("\u{feff}|a|b|"), "a|b");
    assert_eq!(clean_text("|\u{feff}|"), "");
    assert_eq!(clean_text(" a "), " a ");
}

#[test]
fn parse_reads_a_line_of_thirteen_fields() {
    let row = PopulationRow::parse(GOOD_LINE.to_string()).unwrap();
    assert_eq!(row.yymm, "2023");
    assert_eq!(row.cc_code, 1);
    assert_eq!(row.cc_desc, "Description");
    assert_eq!(row.rcode_code, "RC01");
    assert_eq!(row.rcode_desc, "Region");
    assert_eq!(row.ccaatt_code, "CCA01");
    assert_eq!(row.ccaatt_desc, "CCAATT");
    assert_eq!(row.ccaattmm_code, "CCAMM01");
    assert_eq!(row.ccaattmm_desc, "CCAATTMM");
    assert_eq!(row.male, 1234);
    assert_eq!(row.female, 5678);
    assert_eq!(row.total, 6912);
    assert_eq!(row.house, 345);
}

#[test]
fn parse_line_reads_the_same_record() {
    let row = parse_line(GOOD_LINE).unwrap();
    assert_eq!(row.cc_code, 1);
    assert_eq!(row.male, 1234);
    assert_eq!(row.female, 5678);
    assert_eq!(row.total, 6912);
    assert_eq!(row.house, 345);
}

#[test]
fn parse_reads_a_line_between_separators() {
    let line = "|2023|001|Description|RC01|Region Description|CCA01|CCAATT Desc|CCAMM01|CCAATTMM Desc|1234|5678|6912|345|";
    let row = PopulationRow::parse(line.to_string()).unwrap();
    assert_eq!(row.yymm, "2023");
    assert_eq!(row.cc_code, 1);
    assert_eq!(row.male, 1234);
}

#[test]
fn parse_reads_fields_that_were_split_already() {
    let row = PopulationRow::parse(fields(&[
        "2023", "001", "Description", "RC01", "Region Description", "CCA01", "CCAATT Desc",
        "CCAMM01", "CCAATTMM Desc", "1234", "5678", "6912", "345",
    ]))
    .unwrap();
    assert_eq!(row.yymm, "2023");
    assert_eq!(row.cc_code, 1);
    assert_eq!(row.rcode_desc, "Region Description");
    assert_eq!(row.house, 345);
}

#[test]
fn fields_that_were_split_already_are_not_cleaned() {
    let found = PopulationRow::parse(fields(&[
        "|2023", "001", "a", "b", "c", "d", "e", "f", "g", "1", "2", "3", "4|",
    ]));
    match found {
        Err(ParseError::InvalidNumber(12, value)) => assert_eq!(value, "4|"),
        other => panic!("{:?}", other),
    }
}

#[test]
fn to_vec_of_a_line_cleans_and_splits() {
    assert_eq!("|a|b|".to_string().to_vec(), vec!["a", "b"]);
    assert_eq!(fields(&["|a", "b|"]).to_vec(), vec!["|a", "b|"]);
}

#[test]
fn twelve_fields_are_a_field_count_error() {
    let line = "2023|001|Description|RC01|Region|CCA01|CCAATT|CCAMM01|CCAATTMM|1234|5678|6912";
    match parse_line(line) {
        Err(ParseError::FieldCount(12)) => {}
        other => panic!("{:?}", other),
    }
    match PopulationRow::parse(line.to_string()) {
        Err(ParseError::FieldCount(12)) => {}
        other => panic!("{:?}", other),
    }
}

#[test]
fn fourteen_fields_are_a_field_count_error() {
    let line =
        "2023|001|Description|RC01|Region|CCA01|CCAATT|CCAMM01|CCAATTMM|1234|5678|6912|345|extra";
    match parse_line(line) {
        Err(ParseError::FieldCount(14)) => {}
        other => panic!("{:?}", other),
    }
}

#[test]
fn an_empty_line_is_a_field_count_error() {
    match parse_line("") {
        Err(ParseError::FieldCount(1)) => {}
        other => panic!("{:?}", other),
    }
    match parse_line("||| \r\n") {
        Err(ParseError::FieldCount(1)) => {}
        other => panic!("{:?}", other),
    }
}

#[test]
fn thousands_separators_are_dropped() {
    assert_eq!(PopulationRow::string_to_int("12,345"), Ok(12345));
    assert_eq!(PopulationRow::string_to_int("1,234,567"), Ok(1234567));
    assert_eq!(PopulationRow::string_to_int("1234"), Ok(1234));
    let line = "2023|1,001|d|r|rd|c|cd|m|md|12,345|5,678|18,023|3,450";
    let row = parse_line(line).unwrap();
    assert_eq!(row.cc_code, 1001);
    assert_eq!(row.male, 12345);
    assert_eq!(row.female, 5678);
    assert_eq!(row.total, 18023);
    assert_eq!(row.house, 3450);
}

#[test]
fn a_text_that_is_no_number_is_refused() {
    assert_eq!(PopulationRow::string_to_int("abc"), Err(NumberError::InvalidDigit));
    assert_eq!(PopulationRow::string_to_int(""), Err(NumberError::Empty));
    assert_eq!(PopulationRow::string_to_int(","), Err(NumberError::Empty));
    assert_eq!(PopulationRow::string_to_int("12 345"), Err(NumberError::InvalidDigit));
    assert_eq!(PopulationRow::string_to_int("9,999,999,999"), Err(NumberError::PosOverflow));
}

#[test]
fn a_counter_that_is_no_number_is_an_invalid_number_error() {
    let line = "2023|001|d|r|rd|c|cd|m|md|12x4|5678|6912|345";
    match parse_line(line) {
        Err(ParseError::InvalidNumber(9, value)) => assert_eq!(value, "12x4"),
        other => panic!("{:?}", other),
    }
}

#[test]
fn an_area_code_that_is_no_number_is_an_invalid_number_error() {
    let line = "2023|A01|d|r|rd|c|cd|m|md|1234|5678|6912|345";
    match parse_line(line) {
        Err(ParseError::InvalidNumber(1, value)) => assert_eq!(value, "A01"),
        other => panic!("{:?}", other),
    }
}

#[test]
fn the_first_field_that_is_no_number_is_named() {
    let line = "2023|001|d|r|rd|c|cd|m|md|1234|x|y|z";
    match parse_line(line) {
        Err(ParseError::InvalidNumber(10, value)) => assert_eq!(value, "x"),
        other => panic!("{:?}", other),
    }
    let line = "2023|001|d|r|rd|c|cd|m|md|1234|5678|6912|";
    match PopulationRow::parse(fields(&line.split('|').collect::<Vec<_>>())) {
        Err(ParseError::InvalidNumber(12, value)) => assert_eq!(value, ""),
        other => panic!("{:?}", other),
    }
}

#[test]
fn parse_line_strips_padding_at_both_ends() {
    let line = format!("\u{feff}| {}|\r", GOOD_LINE);
    let row = parse_line(&line).unwrap();
    assert_eq!(row.yymm, "2023");
    assert_eq!(row.house, 345);
}

#[test]
fn padding_inside_a_line_stays() {
    let line = "2023| 001|d|r|rd|c|cd|m|md|1234|5678|6912|345";
    match parse_line(line) {
        Err(ParseError::InvalidNumber(1, value)) => assert_eq!(value, " 001"),
        other => panic!("{:?}", other),
    }
}

#[test]
fn one_bad_line_among_ten_leaves_nine_records() {
    let mut lines: Vec<String> = Vec::new();
    for code in 1..=10 {
        if code == 4 {
            lines.push("2023|oops|too|short".to_string());
        } else {
            lines.push(format!("2023|{:03}|d|r|rd|c|cd|m|md|10|20|30|{}", code, code));
        }
    }
    let blob = lines.join("\n");
    let outcomes = parse_blob(&blob);
    assert_eq!(outcomes.len(), 10);
    assert_eq!(outcomes.iter().filter(|outcome| outcome.is_ok()).count(), 9);
    assert_eq!(outcomes.iter().filter(|outcome| outcome.is_err()).count(), 1);
    for (at, outcome) in outcomes.iter().enumerate() {
        match outcome {
            Ok(row) => {
                assert_ne!(at, 3);
                assert_eq!(row.cc_code as usize, at + 1);
                assert_eq!(row.house as usize, at + 1);
            }
            Err(ParseError::FieldCount(4)) => assert_eq!(at, 3),
            Err(other) => panic!("{:?}", other),
        }
    }
}

#[test]
fn lines_that_end_in_carriage_returns_are_read() {
    let blob = format!("{}\r\n{}\r", GOOD_LINE, GOOD_LINE);
    let outcomes = parse_blob(&blob);
    assert_eq!(outcomes.len(), 2);
    assert!(outcomes.iter().all(|outcome| outcome.is_ok()));
}

#[test]
fn an_empty_blob_is_one_line_that_fails() {
    let outcomes = parse_blob("");
    assert_eq!(outcomes.len(), 1);
    match &outcomes[0] {
        Err(ParseError::FieldCount(1)) => {}
        other => panic!("{:?}", other),
    }
}

#[test]
fn a_copy_of_a_record_holds_the_same_values() {
    let row = parse_line(GOOD_LINE).unwrap();
    let copy = row.clone();
    assert_eq!(copy.yymm, row.yymm);
    assert_eq!(copy.cc_code, row.cc_code);
    assert_eq!(copy.ccaattmm_desc, row.ccaattmm_desc);
    assert_eq!(copy.house, row.house);
}

#[test]
fn a_text_is_stripped_like_a_line_before_it_is_split() {
    assert_eq!("\u{feff}2023|001\r".to_string().to_vec(), vec!["2023", "001"]);
    assert_eq!(" |a| b |\r\n".to_string().to_vec(), vec!["a", " b"]);
    assert_eq!("\r\n".to_string().to_vec(), vec![""]);
}

#[test]
fn parse_reads_a_text_with_a_mark_in_front_and_a_carriage_return_at_its_end() {
    let text = format!("\u{feff}{}\r", GOOD_LINE);
    let row = PopulationRow::parse(text).unwrap();
    assert_eq!(row.yymm, "2023");
    assert_eq!(row.cc_code, 1);
    assert_eq!(row.total, 6912);
    assert_eq!(row.house, 345);
}

#[test]
fn parse_and_parse_line_read_a_text_alike() {
    let samples = [
        GOOD_LINE.to_string(),
        format!("{}\r", GOOD_LINE),
        format!("\u{feff}| {} |\r\n", GOOD_LINE),
        format!("{}|extra", GOOD_LINE),
        "2023|001|d|r|rd|c|cd|m|md|1234|x|6912|345\r".to_string(),
        " \r".to_string(),
        String::new(),
    ];
    for sample in samples {
        let by_line = parse_line(&sample);
        let by_parse = PopulationRow::parse(sample.clone());
        match (by_line, by_parse) {
            (Ok(a), Ok(b)) => {
                assert_eq!(a.yymm, b.yymm);
                assert_eq!(a.cc_code, b.cc_code);
                assert_eq!(a.ccaattmm_desc, b.ccaattmm_desc);
                assert_eq!(a.house, b.house);
            }
            (Err(ParseError::FieldCount(a)), Err(ParseError::FieldCount(b))) => assert_eq!(a, b),
            (Err(ParseError::InvalidNumber(a, x)), Err(ParseError::InvalidNumber(b, y))) => {
                assert_eq!(a, b);
                assert_eq!(x, y);
            }
            (a, b) => panic!("{:?}: {:?} and {:?}", sample, a, b),
        }
    }
}

#[test]
fn normalize_line_strips_both_ends_and_splits() {
    assert_eq!(normalize_line("|a|b|\r"), vec!["a", "b"]);
    assert_eq!(normalize_line("a\r|b"), vec!["a\r", "b"]);
    assert_eq!(normalize_line(""), vec![""]);
}
