//! The population extract: one record per line, thirteen fields per record,
//! fields separated by `|`.

use vstd::prelude::*;
use vstd::string::StringExecFns;
use crate::numbers::{digits_of, parse_decimal, parse_i32, to_digits, NumberError};
use crate::text::{split, split_on, trim, trim_matches, remove_char, without_char};

verus! {

/// The number of fields of a record.
pub const FIELD_COUNT: usize = 13;

/// The field separator.
pub const FIELD_SEPARATOR: char = '|';

/// The line separator of a whole extract.
pub const LINE_SEPARATOR: char = '\n';

/// What `clean_text` removes from the ends of a text: the byte-order mark and
/// the field separator.
pub open spec fn clean_strip() -> Seq<char> {
    seq!['\u{feff}', '|']
}

/// What is removed from the ends of a line before it is split: the byte-order
/// mark, the field separator, spaces, line feeds and carriage returns.
pub open spec fn line_strip() -> Seq<char> {
    seq!['\u{feff}', '|', ' ', '\n', '\r']
}

/// The fields of a line of text: the line is stripped at both ends of what
/// `line_strip` lists, and what is left is split at every `|`. Every line is
/// brought to its fields in this one way, whoever reads it.
pub open spec fn line_fields(line: Seq<char>) -> Seq<Seq<char>> {
    split(trim(line, line_strip()), '|')
}

/// Removes byte-order marks and field separators from both ends of `text`.
pub fn clean_text(text: &str) -> (cleaned: String)
    ensures
        cleaned@ == trim(text@, clean_strip()),
{
    let strip: [char; 2] = ['\u{feff}', '|'];
    trim_matches(text, &strip)
}

/// Splits a row into its fields at every `|`.
pub fn extract_row(row: &str) -> (fields: Vec<String>)
    ensures
        fields.deep_view() == split(row@, '|'),
{
    split_on(row, FIELD_SEPARATOR)
}

/// Brings a line of text to its fields: strips byte-order marks, separators,
/// spaces, line feeds and carriage returns from both ends, then splits at
/// every `|`.
pub fn normalize_line(line: &str) -> (fields: Vec<String>)
    ensures
        fields.deep_view() == line_fields(line@),
{
    let strip: [char; 5] = ['\u{feff}', '|', ' ', '\n', '\r'];
    let stripped = trim_matches(line, &strip);
    extract_row(stripped.as_str())
}

/// An input that stands for the fields of one record: a line of text, or
/// fields that were split already.
pub trait InputHandler: Sized {
    /// The fields that this input stands for.
    spec fn fields(&self) -> Seq<Seq<char>>;

    /// Hands the fields out, in order.
    fn to_vec(self) -> (fields: Vec<String>)
        ensures
            fields.deep_view() == self.fields(),
    ;
}

impl InputHandler for Vec<String> {
    /// Fields that were split already are taken as they are.
    open spec fn fields(&self) -> Seq<Seq<char>> {
        self.deep_view()
    }

    fn to_vec(self) -> (fields: Vec<String>) {
        self
    }
}

impl InputHandler for String {
    /// A text is read as a line: stripped at both ends, then split at every
    /// `|`.
    open spec fn fields(&self) -> Seq<Seq<char>> {
        line_fields(self@)
    }

    fn to_vec(self) -> (fields: Vec<String>) {
        normalize_line(self.as_str())
    }
}

/// Why a line is not a record.
#[derive(Debug)]
pub enum ParseError {
    /// The line has this many fields, which is not thirteen.
    FieldCount(usize),
    /// The field at this position, counted from zero, is not a number; its
    /// text is given.
    InvalidNumber(usize, String),
}

/// A `ParseError` with its text as a sequence of characters.
pub enum ParseErrorView {
    FieldCount(nat),
    InvalidNumber(nat, Seq<char>),
}

impl View for ParseError {
    type V = ParseErrorView;

    open spec fn view(&self) -> ParseErrorView {
        match *self {
            ParseError::FieldCount(count) => ParseErrorView::FieldCount(count as nat),
            ParseError::InvalidNumber(field, value) => ParseErrorView::InvalidNumber(
                field as nat,
                value@,
            ),
        }
    }
}

/// What is said of a line that has the wrong number of fields.
pub const WRONG_FIELD_COUNT: &'static str = "Row does not have the correct number of fields";

/// What a parse error says in words: a fixed sentence for a wrong number of
/// fields, and for a field that is no number its position and its text.
pub open spec fn parse_error_text(error: ParseErrorView) -> Seq<char> {
    match error {
        ParseErrorView::FieldCount(_) => WRONG_FIELD_COUNT@,
        ParseErrorView::InvalidNumber(field, value) => "Field "@ + digits_of(field)
            + " is not a number: "@ + value,
    }
}

impl ParseError {
    /// The error in words.
    pub fn message(&self) -> (text: String)
        ensures
            text@ == parse_error_text(self@),
    {
        match self {
            ParseError::FieldCount(_) => String::from_str(WRONG_FIELD_COUNT),
            ParseError::InvalidNumber(field, value) => {
                let mut text = String::from_str("Field ");
                text.append(to_digits(*field as u64).as_str());
                text.append(" is not a number: ");
                text.append(value.as_str());
                text
            },
        }
    }
}

/// One record of the population extract. The fields come in the order of the
/// line; `cc_code` and the four counters are numbers, the others are text.
#[derive(Debug)]
pub struct PopulationRow {
    pub yymm: String,
    pub cc_code: i32,
    pub cc_desc: String,
    pub rcode_code: String,
    pub rcode_desc: String,
    pub ccaatt_code: String,
    pub ccaatt_desc: String,
    pub ccaattmm_code: String,
    pub ccaattmm_desc: String,
    pub male: i32,
    pub female: i32,
    pub total: i32,
    pub house: i32,
}

/// A `PopulationRow` with its texts as sequences of characters.
pub struct PopulationRowView {
    pub yymm: Seq<char>,
    pub cc_code: int,
    pub cc_desc: Seq<char>,
    pub rcode_code: Seq<char>,
    pub rcode_desc: Seq<char>,
    pub ccaatt_code: Seq<char>,
    pub ccaatt_desc: Seq<char>,
    pub ccaattmm_code: Seq<char>,
    pub ccaattmm_desc: Seq<char>,
    pub male: int,
    pub female: int,
    pub total: int,
    pub house: int,
}

impl View for PopulationRow {
    type V = PopulationRowView;

    open spec fn view(&self) -> PopulationRowView {
        PopulationRowView {
            yymm: self.yymm@,
            cc_code: self.cc_code as int,
            cc_desc: self.cc_desc@,
            rcode_code: self.rcode_code@,
            rcode_desc: self.rcode_desc@,
            ccaatt_code: self.ccaatt_code@,
            ccaatt_desc: self.ccaatt_desc@,
            ccaattmm_code: self.ccaattmm_code@,
            ccaattmm_desc: self.ccaattmm_desc@,
            male: self.male as int,
            female: self.female as int,
            total: self.total as int,
            house: self.house as int,
        }
    }
}

impl Clone for PopulationRow {
    /// A copy with the same texts and numbers.
    fn clone(&self) -> (copy: Self)
        ensures
            copy@ == self@,
    {
        PopulationRow {
            yymm: self.yymm.clone(),
            cc_code: self.cc_code,
            cc_desc: self.cc_desc.clone(),
            rcode_code: self.rcode_code.clone(),
            rcode_desc: self.rcode_desc.clone(),
            ccaatt_code: self.ccaatt_code.clone(),
            ccaatt_desc: self.ccaatt_desc.clone(),
            ccaattmm_code: self.ccaattmm_code.clone(),
            ccaattmm_desc: self.ccaattmm_desc.clone(),
            male: self.male,
            female: self.female,
            total: self.total,
            house: self.house,
        }
    }
}

/// The number that a numeric field stands for: thousands separators are taken
/// out, what is left is read as a 32-bit signed decimal integer.
pub open spec fn number_of(value: Seq<char>) -> Result<int, NumberError> {
    parse_i32(without_char(value, ','))
}

/// The record that thirteen fields stand for, or the reason why there is none.
/// Of several fields that are no numbers, the first in the line is reported.
pub open spec fn parse_fields(fields: Seq<Seq<char>>) -> Result<PopulationRowView, ParseErrorView> {
    if fields.len() != FIELD_COUNT {
        Err(ParseErrorView::FieldCount(fields.len()))
    } else if number_of(fields[1]) is Err {
        Err(ParseErrorView::InvalidNumber(1, fields[1]))
    } else if number_of(fields[9]) is Err {
        Err(ParseErrorView::InvalidNumber(9, fields[9]))
    } else if number_of(fields[10]) is Err {
        Err(ParseErrorView::InvalidNumber(10, fields[10]))
    } else if number_of(fields[11]) is Err {
        Err(ParseErrorView::InvalidNumber(11, fields[11]))
    } else if number_of(fields[12]) is Err {
        Err(ParseErrorView::InvalidNumber(12, fields[12]))
    } else {
        Ok(
            PopulationRowView {
                yymm: fields[0],
                cc_code: number_of(fields[1])->Ok_0,
                cc_desc: fields[2],
                rcode_code: fields[3],
                rcode_desc: fields[4],
                ccaatt_code: fields[5],
                ccaatt_desc: fields[6],
                ccaattmm_code: fields[7],
                ccaattmm_desc: fields[8],
                male: number_of(fields[9])->Ok_0,
                female: number_of(fields[10])->Ok_0,
                total: number_of(fields[11])->Ok_0,
                house: number_of(fields[12])->Ok_0,
            },
        )
    }
}

/// The record that a line of the extract stands for: the line is stripped at
/// both ends, split at every `|`, and its fields are read.
pub open spec fn parse_line_spec(line: Seq<char>) -> Result<PopulationRowView, ParseErrorView> {
    parse_fields(line_fields(line))
}

/// The outcome of parsing, with texts as sequences of characters.
pub open spec fn outcome_view(outcome: Result<PopulationRow, ParseError>) -> Result<
    PopulationRowView,
    ParseErrorView,
> {
    match outcome {
        Ok(row) => Ok(row@),
        Err(error) => Err(error@),
    }
}

/// The positions of the five numeric fields, in the order of the line.
pub open spec fn numeric_positions() -> Seq<int> {
    seq![1, 9, 10, 11, 12]
}

/// A line with any number of fields but thirteen gives no record, not even a
/// partial one: it is refused with the number of fields that it has.
pub proof fn lemma_wrong_field_count_is_refused(fields: Seq<Seq<char>>)
    requires
        fields.len() != FIELD_COUNT,
    ensures
        parse_fields(fields) == Err::<PopulationRowView, ParseErrorView>(
            ParseErrorView::FieldCount(fields.len()),
        ),
{
}

/// Thirteen fields give a record exactly when each of the five numeric
/// fields is a number; the record then holds the eight texts as they stand
/// and the five numbers as they are read.
pub proof fn lemma_thirteen_fields_give_a_record(fields: Seq<Seq<char>>)
    requires
        fields.len() == FIELD_COUNT,
    ensures
        parse_fields(fields) is Ok <==> forall|k: int|
            0 <= k < 5 ==> number_of(fields[#[trigger] numeric_positions()[k]]) is Ok,
        parse_fields(fields) matches Ok(row) ==> {
            &&& row.yymm == fields[0]
            &&& number_of(fields[1]) == Ok::<int, NumberError>(row.cc_code)
            &&& row.cc_desc == fields[2]
            &&& row.rcode_code == fields[3]
            &&& row.rcode_desc == fields[4]
            &&& row.ccaatt_code == fields[5]
            &&& row.ccaatt_desc == fields[6]
            &&& row.ccaattmm_code == fields[7]
            &&& row.ccaattmm_desc == fields[8]
            &&& number_of(fields[9]) == Ok::<int, NumberError>(row.male)
            &&& number_of(fields[10]) == Ok::<int, NumberError>(row.female)
            &&& number_of(fields[11]) == Ok::<int, NumberError>(row.total)
            &&& number_of(fields[12]) == Ok::<int, NumberError>(row.house)
        },
{
}

/// Thirteen fields of which one is no number are refused with the position
/// and the text of the first such field, whatever the fields after it hold.
pub proof fn lemma_first_bad_number_is_named(fields: Seq<Seq<char>>, k: int)
    requires
        fields.len() == FIELD_COUNT,
        0 <= k < 5,
        number_of(fields[numeric_positions()[k]]) is Err,
        forall|j: int| 0 <= j < k ==> number_of(fields[#[trigger] numeric_positions()[j]]) is Ok,
    ensures
        parse_fields(fields) == Err::<PopulationRowView, ParseErrorView>(
            ParseErrorView::InvalidNumber(
                numeric_positions()[k] as nat,
                fields[numeric_positions()[k]],
            ),
        ),
{
}

/// A text that is handed to `PopulationRow::parse` is read as `parse_line`
/// reads it: the two ways to read a line give the same record or the same
/// error.
pub proof fn lemma_text_is_read_as_a_line(text: String)
    ensures
        parse_fields(text.fields()) == parse_line_spec(text@),
{
}

/// Thousands separators do not count: a numeric field stands for the number
/// that it stands for without them.
pub proof fn lemma_separators_do_not_count(value: Seq<char>)
    ensures
        number_of(value) == number_of(without_char(value, ',')),
        number_of(value) == parse_i32(without_char(value, ',')),
{
    crate::text::lemma_without_char_twice(value, ',');
}

impl PopulationRow {
    /// Reads a numeric field: commas are thousands separators and are dropped,
    /// the rest must be a 32-bit signed decimal integer.
    pub fn string_to_int(value: &str) -> (r: Result<i32, NumberError>)
        ensures
            match r {
                Ok(v) => number_of(value@) == Ok::<int, NumberError>(v as int),
                Err(e) => number_of(value@) == Err::<int, NumberError>(e),
            },
    {
        let plain = remove_char(value, ',');
        parse_decimal(plain.as_str())
    }

    /// Reads the numeric field at position `at`, or names it in the error.
    fn numeric_field(fields: &Vec<String>, at: usize) -> (r: Result<i32, ParseError>)
        requires
            at < fields.len(),
        ensures
            match r {
                Ok(v) => number_of(fields.deep_view()[at as int]) == Ok::<int, NumberError>(
                    v as int,
                ),
                Err(e) => number_of(fields.deep_view()[at as int]) is Err && e@
                    == ParseErrorView::InvalidNumber(at as nat, fields.deep_view()[at as int]),
            },
    {
        match Self::string_to_int(fields[at].as_str()) {
            Ok(v) => Ok(v),
            Err(_) => Err(ParseError::InvalidNumber(at, fields[at].clone())),
        }
    }

    /// Builds a record from a line or from fields that were split already.
    /// There must be exactly thirteen fields, and the second field and the
    /// last four must be numbers; nothing is built from a part of a line.
    pub fn parse<I: InputHandler>(row: I) -> (r: Result<Self, ParseError>)
        ensures
            outcome_view(r) == parse_fields(row.fields()),
    {
        let fields = row.to_vec();
        Self::from_fields(fields)
    }

    /// Builds a record from its fields.
    pub fn from_fields(fields: Vec<String>) -> (r: Result<Self, ParseError>)
        ensures
            outcome_view(r) == parse_fields(fields.deep_view()),
    {
        if fields.len() != FIELD_COUNT {
            return Err(ParseError::FieldCount(fields.len()));
        }
        let ghost views = fields.deep_view();
        assert forall|i: int| 0 <= i < 13 implies views[i] == #[trigger] fields@[i]@ by {}
        let cc_code = match Self::numeric_field(&fields, 1) {
            Ok(v) => v,
            Err(e) => {
                return Err(e);
            },
        };
        let male = match Self::numeric_field(&fields, 9) {
            Ok(v) => v,
            Err(e) => {
                return Err(e);
            },
        };
        let female = match Self::numeric_field(&fields, 10) {
            Ok(v) => v,
            Err(e) => {
                return Err(e);
            },
        };
        let total = match Self::numeric_field(&fields, 11) {
            Ok(v) => v,
            Err(e) => {
                return Err(e);
            },
        };
        let house = match Self::numeric_field(&fields, 12) {
            Ok(v) => v,
            Err(e) => {
                return Err(e);
            },
        };
        Ok(
            PopulationRow {
                yymm: fields[0].clone(),
                cc_code,
                cc_desc: fields[2].clone(),
                rcode_code: fields[3].clone(),
                rcode_desc: fields[4].clone(),
                ccaatt_code: fields[5].clone(),
                ccaatt_desc: fields[6].clone(),
                ccaattmm_code: fields[7].clone(),
                ccaattmm_desc: fields[8].clone(),
                male,
                female,
                total,
                house,
            },
        )
    }
}

/// Parses one line of the extract.
pub fn parse_line(line: &str) -> (r: Result<PopulationRow, ParseError>)
    ensures
        outcome_view(r) == parse_line_spec(line@),
{
    PopulationRow::from_fields(normalize_line(line))
}

/// Parses every line of an extract. There is one outcome per line, in the
/// order of the lines, and a line that fails does not stop the others.
pub fn parse_blob(blob: &str) -> (outcomes: Vec<Result<PopulationRow, ParseError>>)
    ensures
        outcomes.len() == split(blob@, '\n').len(),
        forall|i: int|
            0 <= i < outcomes.len() ==> outcome_view(#[trigger] outcomes[i]) == parse_line_spec(
                split(blob@, '\n')[i],
            ),
{
    let lines = split_on(blob, LINE_SEPARATOR);
    let mut outcomes: Vec<Result<PopulationRow, ParseError>> = Vec::new();
    let mut i: usize = 0;
    while i < lines.len()
        invariant
            i <= lines.len(),
            lines.deep_view() == split(blob@, '\n'),
            outcomes.len() == i,
            forall|j: int|
                0 <= j < i ==> outcome_view(#[trigger] outcomes[j]) == parse_line_spec(
                    split(blob@, '\n')[j],
                ),
        decreases lines.len() - i,
    {
        let outcome = parse_line(lines[i].as_str());
        outcomes.push(outcome);
        i += 1;
    }
    outcomes
}

} // verus!
