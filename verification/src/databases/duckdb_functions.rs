//! The text of every statement that is sent to DuckDB, and of the line that
//! reports a row read back from it.

use vstd::prelude::*;
use vstd::string::StringExecFns;
use crate::numbers::{decimal, to_decimal};
use crate::parsers::population::{PopulationRow, PopulationRowView};
use crate::text::push_char;

verus! {

/// `value` between two single quotes. The text is written as it stands: a
/// quote inside it is not doubled.
pub open spec fn quoted(value: Seq<char>) -> Seq<char> {
    seq!['\''] + value + seq!['\'']
}

/// The values of a row as the engine reads them: each in single quotes, a
/// comma and a space between neighbours.
pub open spec fn value_list(values: Seq<Seq<char>>) -> Seq<char>
    decreases values.len(),
{
    if values.len() == 0 {
        Seq::empty()
    } else if values.len() == 1 {
        quoted(values[0])
    } else {
        value_list(values.drop_last()) + seq![',', ' '] + quoted(values.last())
    }
}

/// The fourteen column values of a row, in the order of the table's columns.
pub open spec fn row_values(data_year: int, row: PopulationRowView) -> Seq<Seq<char>> {
    seq![
        decimal(data_year),
        row.yymm,
        decimal(row.cc_code),
        row.cc_desc,
        row.rcode_code,
        row.rcode_desc,
        row.ccaatt_code,
        row.ccaatt_desc,
        row.ccaattmm_code,
        row.ccaattmm_desc,
        decimal(row.male),
        decimal(row.female),
        decimal(row.total),
        decimal(row.house),
    ]
}

/// The statement that inserts one row.
pub open spec fn insert_statement(data_year: int, row: PopulationRowView) -> Seq<char> {
    "INSERT INTO thai_population VALUES ("@ + value_list(row_values(data_year, row)) + seq![')']
}

/// Appends the next value of a list: a separator unless it is the first, then
/// the value in quotes.
fn append_value(sql: &mut String, value: &str, Ghost(before): Ghost<Seq<Seq<char>>>, first: bool)
    requires
        first <==> before.len() == 0,
    ensures
        forall|head: Seq<char>|
            old(sql)@ == head + value_list(before) ==> final(sql)@ == head + value_list(
                before.push(value@),
            ),
{
    let ghost start = sql@;
    if !first {
        push_char(sql, ',');
        push_char(sql, ' ');
    }
    push_char(sql, '\'');
    sql.append(value);
    push_char(sql, '\'');
    proof {
        let after = before.push(value@);
        assert(after.drop_last() == before);
        assert forall|head: Seq<char>| start == head + value_list(before) implies sql@ == head
            + value_list(after) by {}
    }
}

/// Writes the statement that inserts one row into `thai_population`. Numbers
/// are written in base ten, texts as they are, each value in single quotes.
pub fn generate_insert_sql(
    data_year: i32,
    yymm: &str,
    cc_code: i32,
    cc_desc: &str,
    rcode_code: &str,
    rcode_desc: &str,
    ccaatt_code: &str,
    ccaatt_desc: &str,
    ccaattmm_code: &str,
    ccaattmm_desc: &str,
    male: i32,
    female: i32,
    total: i32,
    house: i32,
) -> (sql: String)
    ensures
        sql@ == insert_statement(
            data_year as int,
            PopulationRowView {
                yymm: yymm@,
                cc_code: cc_code as int,
                cc_desc: cc_desc@,
                rcode_code: rcode_code@,
                rcode_desc: rcode_desc@,
                ccaatt_code: ccaatt_code@,
                ccaatt_desc: ccaatt_desc@,
                ccaattmm_code: ccaattmm_code@,
                ccaattmm_desc: ccaattmm_desc@,
                male: male as int,
                female: female as int,
                total: total as int,
                house: house as int,
            },
        ),
{
    let ghost head = "INSERT INTO thai_population VALUES ("@;
    let mut sql = String::from_str("INSERT INTO thai_population VALUES (");
    let ghost mut values: Seq<Seq<char>> = Seq::empty();
    assert(sql@ == head + value_list(values));
    let year_text = to_decimal(data_year as i64);
    append_value(&mut sql, year_text.as_str(), Ghost(values), true);
    proof {
        values = values.push(year_text@);
    }
    append_value(&mut sql, yymm, Ghost(values), false);
    proof {
        values = values.push(yymm@);
    }
    let code_text = to_decimal(cc_code as i64);
    append_value(&mut sql, code_text.as_str(), Ghost(values), false);
    proof {
        values = values.push(code_text@);
    }
    append_value(&mut sql, cc_desc, Ghost(values), false);
    proof {
        values = values.push(cc_desc@);
    }
    append_value(&mut sql, rcode_code, Ghost(values), false);
    proof {
        values = values.push(rcode_code@);
    }
    append_value(&mut sql, rcode_desc, Ghost(values), false);
    proof {
        values = values.push(rcode_desc@);
    }
    append_value(&mut sql, ccaatt_code, Ghost(values), false);
    proof {
        values = values.push(ccaatt_code@);
    }
    append_value(&mut sql, ccaatt_desc, Ghost(values), false);
    proof {
        values = values.push(ccaatt_desc@);
    }
    append_value(&mut sql, ccaattmm_code, Ghost(values), false);
    proof {
        values = values.push(ccaattmm_code@);
    }
    append_value(&mut sql, ccaattmm_desc, Ghost(values), false);
    proof {
        values = values.push(ccaattmm_desc@);
    }
    let male_text = to_decimal(male as i64);
    append_value(&mut sql, male_text.as_str(), Ghost(values), false);
    proof {
        values = values.push(male_text@);
    }
    let female_text = to_decimal(female as i64);
    append_value(&mut sql, female_text.as_str(), Ghost(values), false);
    proof {
        values = values.push(female_text@);
    }
    let total_text = to_decimal(total as i64);
    append_value(&mut sql, total_text.as_str(), Ghost(values), false);
    proof {
        values = values.push(total_text@);
    }
    let house_text = to_decimal(house as i64);
    append_value(&mut sql, house_text.as_str(), Ghost(values), false);
    proof {
        values = values.push(house_text@);
    }
    push_char(&mut sql, ')');
    proof {
        let row = PopulationRowView {
            yymm: yymm@,
            cc_code: cc_code as int,
            cc_desc: cc_desc@,
            rcode_code: rcode_code@,
            rcode_desc: rcode_desc@,
            ccaatt_code: ccaatt_code@,
            ccaatt_desc: ccaatt_desc@,
            ccaattmm_code: ccaattmm_code@,
            ccaattmm_desc: ccaattmm_desc@,
            male: male as int,
            female: female as int,
            total: total as int,
            house: house as int,
        };
        assert(values == row_values(data_year as int, row));
    }
    sql
}

/// Writes the statement that inserts `row` as a row of the year `data_year`.
pub fn generate_insert_sql_given_row_struct(data_year: i32, row: &PopulationRow) -> (sql: String)
    ensures
        sql@ == insert_statement(data_year as int, row@),
{
    generate_insert_sql(
        data_year,
        row.yymm.as_str(),
        row.cc_code,
        row.cc_desc.as_str(),
        row.rcode_code.as_str(),
        row.rcode_desc.as_str(),
        row.ccaatt_code.as_str(),
        row.ccaatt_desc.as_str(),
        row.ccaattmm_code.as_str(),
        row.ccaattmm_desc.as_str(),
        row.male,
        row.female,
        row.total,
        row.house,
    )
}

/// The statement that creates the table of staged rows, or empties it if it
/// is there already: one column per field of a record after the year, and
/// the year and the area code as the key.
pub const CREATE_TABLE: &'static str =
    "CREATE OR REPLACE TABLE thai_population (
            data_year INTEGER,
            yymm TEXT,
            cc_code INTEGER,
            cc_desc TEXT,
            rcode_code TEXT,
            rcode_desc TEXT,
            ccaatt_code TEXT,
            ccaatt_desc TEXT,
            ccaattmm_code TEXT,
            ccaattmm_desc TEXT,
            male INTEGER,
            female INTEGER,
            total INTEGER,
            house INTEGER,
            PRIMARY KEY (data_year, cc_code)
        );";

/// The statement that writes the table out as compressed Parquet files, one
/// directory per year, over what an earlier run has left there.
pub const COPY_TO_PARTITIONS: &'static str =
    "
        COPY thai_population TO './datasets/thai_population' (
            FORMAT PARQUET,
            PARTITION_BY (data_year),
            OVERWRITE_OR_IGNORE,
            COMPRESSION GZIP,
            FILE_EXTENSION 'parquet.gz'
        );
        ";

/// The statement that reads every staged row.
pub const SELECT_ALL: &'static str = "SELECT * FROM thai_population;";

/// The directory that the partitions are written under.
pub const EXPORT_DIRECTORY: &'static str = "./datasets";

/// The text of the statement that creates the table.
pub fn create_table_sql() -> (sql: String)
    ensures
        sql@ == CREATE_TABLE@,
{
    String::from_str(CREATE_TABLE)
}

/// The text of the statement that exports the table by year.
pub fn hive_partition_sql() -> (sql: String)
    ensures
        sql@ == COPY_TO_PARTITIONS@,
{
    String::from_str(COPY_TO_PARTITIONS)
}

/// The text of the statement that reads every staged row.
pub fn select_all_sql() -> (sql: String)
    ensures
        sql@ == SELECT_ALL@,
{
    String::from_str(SELECT_ALL)
}

/// The line that reports one staged row: the year, the period, the area with
/// its name, and the four counters.
pub open spec fn row_report(
    data_year: int,
    yymm: Seq<char>,
    cc_code: int,
    cc_desc: Seq<char>,
    male: int,
    female: int,
    total: int,
    house: int,
) -> Seq<char> {
    "Year: "@ + decimal(data_year) + ", YYMM: "@ + yymm + ", Code: "@ + decimal(cc_code)
        + ", Desc: "@ + cc_desc + ", Male: "@ + decimal(male) + ", Female: "@ + decimal(female)
        + ", Total: "@ + decimal(total) + ", House: "@ + decimal(house)
}

/// Writes the line that reports one row read back from the table.
pub fn describe_row(
    data_year: i32,
    yymm: &str,
    cc_code: i32,
    cc_desc: &str,
    male: i32,
    female: i32,
    total: i32,
    house: i32,
) -> (line: String)
    ensures
        line@ == row_report(
            data_year as int,
            yymm@,
            cc_code as int,
            cc_desc@,
            male as int,
            female as int,
            total as int,
            house as int,
        ),
{
    let mut line = String::from_str("Year: ");
    line.append(to_decimal(data_year as i64).as_str());
    line.append(", YYMM: ");
    line.append(yymm);
    line.append(", Code: ");
    line.append(to_decimal(cc_code as i64).as_str());
    line.append(", Desc: ");
    line.append(cc_desc);
    line.append(", Male: ");
    line.append(to_decimal(male as i64).as_str());
    line.append(", Female: ");
    line.append(to_decimal(female as i64).as_str());
    line.append(", Total: ");
    line.append(to_decimal(total as i64).as_str());
    line.append(", House: ");
    line.append(to_decimal(house as i64).as_str());
    line
}

} // verus!
