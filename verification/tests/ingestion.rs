use rust_hive::databases::duckdb_functions::generate_insert_sql_given_row_struct;
use rust_hive::ingestion::{ingest_blob, update_row, IngestionError, LineCounts};
use rust_hive::parsers::population::{ParseError, PopulationRow};
use rust_hive::store::{DuplicatePolicy, LoadError, Store};

#[test]
fn test_update_row_success() {
    let mut store = Store::new(DuplicatePolicy::Reject);
    let year = 2023;
    let line = "|2024|001|Description|RC01|Region Description|CCA01|CCAATT Desc|CCAMM01|CCAATTMM Desc|1234|5678|6912|345|";

    let row_vec = vec![
        "2023",
        "002",
        "Description",
        "RC01",
        "Region Description",
        "CCA01",
        "CCAATT Desc",
        "CCAMM01",
        "CCAATTMM Desc",
        "1234",
        "5678",
        "6912",
        "345",
    ]
    .into_iter()
    .map(|value| value.to_string())
    .collect::<Vec<String>>();
    let parse_result = PopulationRow::parse(row_vec);
    assert!(parse_result.is_ok());

    let row = parse_result.unwrap();
    let sql = generate_insert_sql_given_row_struct(year, &row);
    assert!(sql.starts_with("INSERT INTO thai_population VALUES ('2023', '2023', '2', "));
    assert!(store.load(year, row).is_ok());

    let result = update_row(&mut store, line, year);

    assert!(result.is_ok());
    assert_eq!(result.unwrap(), "Updated population");
    assert_eq!(store.len(), 2);
    assert_eq!(store.get(2023, 1).unwrap().yymm, "2024");
}

#[test]
fn a_line_that_is_no_record_never_reaches_the_store() {
    let mut store = Store::new(DuplicatePolicy::Reject);
    match update_row(&mut store, "2023|001|too|short", 2023) {
        Err(IngestionError::Parse(ParseError::FieldCount(4))) => {}
        other => panic!("{:?}", other),
    }
    match update_row(&mut store, "2023|001|d|r|rd|c|cd|m|md|1|2|x|4", 2023) {
        Err(IngestionError::Parse(ParseError::InvalidNumber(11, value))) => assert_eq!(value, "x"),
        other => panic!("{:?}", other),
    }
    assert_eq!(store.len(), 0);
}

#[test]
fn a_line_whose_key_is_held_is_refused_under_reject() {
    let mut store = Store::new(DuplicatePolicy::Reject);
    let line = "2023|001|d|r|rd|c|cd|m|md|1|2|3|4";
    assert_eq!(update_row(&mut store, line, 2023).unwrap(), "Updated population");
    match update_row(&mut store, "2023|1|other|r|rd|c|cd|m|md|9|9|9|9", 2023) {
        Err(IngestionError::Load(LoadError::DuplicateKey { data_year: 2023, cc_code: 1 })) => {}
        other => panic!("{:?}", other),
    }
    assert_eq!(store.get(2023, 1).unwrap().male, 1);
    assert_eq!(update_row(&mut store, line, 2024).unwrap(), "Updated population");
    assert_eq!(store.len(), 2);
}

#[test]
fn a_line_whose_key_is_held_replaces_the_row_under_replace() {
    let mut store = Store::new(DuplicatePolicy::Replace);
    let line = "2023|001|d|r|rd|c|cd|m|md|1|2|3|4";
    assert_eq!(update_row(&mut store, line, 2023).unwrap(), "Updated population");
    let again = "2023|1|other|r|rd|c|cd|m|md|9|9|9|9";
    assert_eq!(update_row(&mut store, again, 2023).unwrap(), "Updated population");
    assert_eq!(store.len(), 1);
    assert_eq!(store.get(2023, 1).unwrap().male, 9);
    assert_eq!(store.get(2023, 1).unwrap().cc_desc, "other");
}

#[test]
fn every_line_of_a_blob_is_counted() {
    let mut store = Store::new(DuplicatePolicy::Reject);
    let blob = [
        "6612|001|d|r|rd|c|cd|m|md|1|2|3|4",
        "6612|002|d|r|rd|c|cd|m|md|1|2|3|4",
        "not a record",
        "6612|001|d|r|rd|c|cd|m|md|5|6|7|8",
        "6612|003|d|r|rd|c|cd|m|md|one|2|3|4",
        "|6612|004|d|r|rd|c|cd|m|md|1|2|3|4|\r",
    ]
    .join("\n");
    let counts = ingest_blob(&mut store, 2023, &blob);
    assert_eq!(counts, LineCounts { parsed: 4, failed: 2, loaded: 3, rejected: 1 });
    assert_eq!(store.len(), 3);
    assert_eq!(store.get(2023, 1).unwrap().male, 1);
    assert!(store.contains_key(2023, 4));
    assert!(!store.contains_key(2023, 3));
}

#[test]
fn one_bad_line_among_ten_leaves_nine_rows_in_the_store() {
    let mut lines: Vec<String> = Vec::new();
    for code in 1..=10 {
        if code == 7 {
            lines.push("6612|007|d|r|rd|c|cd|m|md|1|2|3".to_string());
        } else {
            lines.push(format!("6612|{:03}|d|r|rd|c|cd|m|md|1|2|3|4", code));
        }
    }
    let mut store = Store::new(DuplicatePolicy::Reject);
    let counts = ingest_blob(&mut store, 2023, &lines.join("\n"));
    assert_eq!(counts, LineCounts { parsed: 9, failed: 1, loaded: 9, rejected: 0 });
    assert_eq!(store.len(), 9);
    assert!(!store.contains_key(2023, 7));
}

#[test]
fn the_same_blob_loaded_twice_adds_nothing_under_either_policy() {
    let blob = "6612|001|d|r|rd|c|cd|m|md|1|2|3|4\n6612|002|d|r|rd|c|cd|m|md|1|2|3|4";
    let mut rejecting = Store::new(DuplicatePolicy::Reject);
    ingest_blob(&mut rejecting, 2023, blob);
    let counts = ingest_blob(&mut rejecting, 2023, blob);
    assert_eq!(counts, LineCounts { parsed: 2, failed: 0, loaded: 0, rejected: 2 });
    assert_eq!(rejecting.len(), 2);

    let mut replacing = Store::new(DuplicatePolicy::Replace);
    ingest_blob(&mut replacing, 2023, blob);
    let counts = ingest_blob(&mut replacing, 2023, blob);
    assert_eq!(counts, LineCounts { parsed: 2, failed: 0, loaded: 2, rejected: 0 });
    assert_eq!(replacing.len(), 2);
}

#[test]
fn errors_say_in_words_what_went_wrong() {
    assert_eq!(
        ParseError::FieldCount(12).message(),
        "Row does not have the correct number of fields"
    );
    assert_eq!(
        ParseError::InvalidNumber(9, "12x4".to_string()).message(),
        "Field 9 is not a number: 12x4"
    );
    assert_eq!(
        LoadError::DuplicateKey { data_year: 2023, cc_code: -7 }.message(),
        "Row of year 2023 and area -7 is loaded already"
    );
    assert_eq!(
        IngestionError::Parse(ParseError::FieldCount(1)).message(),
        "Parse error: Row does not have the correct number of fields"
    );
    assert_eq!(
        IngestionError::Load(LoadError::DuplicateKey { data_year: 1993, cc_code: 10 }).message(),
        "Load error: Row of year 1993 and area 10 is loaded already"
    );
}
