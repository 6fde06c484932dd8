use rust_hive::databases::duckdb_functions::{
    create_table_sql, describe_row, generate_insert_sql, generate_insert_sql_given_row_struct,
    hive_partition_sql, select_all_sql,
};
use rust_hive::parsers::population::parse_line;

#[test]
fn insert_statement_lists_fourteen_quoted_values() {
    let sql = generate_insert_sql(
        2023, "6612", 1, "Bangkok", "R1", "Central", "C1", "District", "M1", "Village", 1234,
        5678, 6912, 345,
    );
    assert_eq!(
        sql,
        "INSERT INTO thai_population VALUES ('2023', '6612', '1', 'Bangkok', 'R1', 'Central', 'C1', 'District', 'M1', 'Village', '1234', '5678', '6912', '345')"
    );
}

#[test]
fn insert_statement_writes_negative_numbers_and_empty_texts() {
    let sql = generate_insert_sql(-1, "", -20, "", "", "", "", "", "", "", 0, -3, i32::MIN, i32::MAX);
    assert_eq!(
        sql,
        "INSERT INTO thai_population VALUES ('-1', '', '-20', '', '', '', '', '', '', '', '0', '-3', '-2147483648', '2147483647')"
    );
}

#[test]
fn insert_statement_writes_texts_as_they_are() {
    let sql = generate_insert_sql(1, "a'b", 2, "ก", "", "", "", "", "", "", 0, 0, 0, 0);
    assert!(sql.starts_with("INSERT INTO thai_population VALUES ('1', 'a'b', '2', 'ก', "));
}

#[test]
fn insert_statement_of_a_record_is_that_of_its_fields() {
    let row = parse_line("6612|001|d|r|rd|c|cd|m|md|1,234|5678|6912|345").unwrap();
    let sql = generate_insert_sql_given_row_struct(2023, &row);
    assert_eq!(
        sql,
        generate_insert_sql(2023, "6612", 1, "d", "r", "rd", "c", "cd", "m", "md", 1234, 5678, 6912, 345)
    );
    assert_eq!(
        sql,
        "INSERT INTO thai_population VALUES ('2023', '6612', '1', 'd', 'r', 'rd', 'c', 'cd', 'm', 'md', '1234', '5678', '6912', '345')"
    );
}

#[test]
fn table_statement_names_every_column_and_the_key() {
    let sql = create_table_sql();
    assert!(sql.starts_with("CREATE OR REPLACE TABLE thai_population ("));
    for column in [
        "data_year INTEGER", "yymm TEXT", "cc_code INTEGER", "cc_desc TEXT", "rcode_code TEXT",
        "rcode_desc TEXT", "ccaatt_code TEXT", "ccaatt_desc TEXT", "ccaattmm_code TEXT",
        "ccaattmm_desc TEXT", "male INTEGER", "female INTEGER", "total INTEGER", "house INTEGER",
    ] {
        assert!(sql.contains(column), "{}", column);
    }
    assert!(sql.contains("PRIMARY KEY (data_year, cc_code)"));
    assert!(sql.trim_end().ends_with(");"));
}

#[test]
fn export_statement_partitions_by_year() {
    let sql = hive_partition_sql();
    assert!(sql.contains("COPY thai_population TO './datasets/thai_population'"));
    assert!(sql.contains("FORMAT PARQUET"));
    assert!(sql.contains("PARTITION_BY (data_year)"));
    assert!(sql.contains("OVERWRITE_OR_IGNORE"));
    assert!(sql.contains("COMPRESSION GZIP"));
    assert!(sql.contains("FILE_EXTENSION 'parquet.gz'"));
}

#[test]
fn select_statement_reads_the_whole_table() {
    assert_eq!(select_all_sql(), "SELECT * FROM thai_population;");
}

#[test]
fn row_report_names_every_value() {
    let line = describe_row(2023, "6612", 1, "Bangkok", 1234, 5678, 6912, 345);
    assert_eq!(
        line,
        "Year: 2023, YYMM: 6612, Code: 1, Desc: Bangkok, Male: 1234, Female: 5678, Total: 6912, House: 345"
    );
}

#[test]
fn rows_of_different_years_are_written_differently() {
    let row = parse_line("6612|001|d|r|rd|c|cd|m|md|1|2|3|4").unwrap();
    let one = generate_insert_sql_given_row_struct(2023, &row);
    let other = generate_insert_sql_given_row_struct(2024, &row);
    assert_ne!(one, other);
    assert_ne!(
        generate_insert_sql_given_row_struct(1, &row),
        generate_insert_sql_given_row_struct(-1, &row)
    );
}

#[test]
fn rows_without_quotes_are_written_differently() {
    let lines = [
        "6612|001|d|r|rd|c|cd|m|md|1|2|3|4",
        "6612|002|d|r|rd|c|cd|m|md|1|2|3|4",
        "6612|001|d, r||rd|c|cd|m|md|1|2|3|4",
        "6612|001|d|r|rd|c|cd|m|md|1|2|3|5",
        "6613|001|d|r|rd|c|cd|m|md|1|2|3|4",
        "6612|001|d|r|rd|c|cd|m|md|12|2|3|4",
    ];
    let statements: Vec<String> = lines
        .iter()
        .map(|line| generate_insert_sql_given_row_struct(2023, &parse_line(line).unwrap()))
        .collect();
    for (i, one) in statements.iter().enumerate() {
        for other in statements.iter().skip(i + 1) {
            assert_ne!(one, other);
        }
    }
}

#[test]
fn a_quote_in_a_text_can_make_two_rows_read_alike() {
    let one = generate_insert_sql(1, "", 2, "", "a', 'b", "c", "", "", "", "", 0, 0, 0, 0);
    let other = generate_insert_sql(1, "", 2, "", "a", "b', 'c", "", "", "", "", 0, 0, 0, 0);
    assert_eq!(one, other);
}
