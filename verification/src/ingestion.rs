//! Loading the lines of one year's extract into the store.

use vstd::prelude::*;
use vstd::string::StringExecFns;
use crate::parsers::population::{
    parse_error_text, parse_line, parse_line_spec, ParseError, ParseErrorView,
};
use crate::store::{
    load_error_text, load_is_refused, table_after_load, DuplicatePolicy, LoadError, Store, Table,
};
use crate::text::{split, split_on};

verus! {

/// What `update_row` answers when the line was loaded.
pub const UPDATED: &'static str = "Updated population";

/// Why a line did not become a row of the store.
#[derive(Debug)]
pub enum IngestionError {
    /// The line is not a record.
    Parse(ParseError),
    /// The record was refused by the store.
    Load(LoadError),
}

/// An `IngestionError` with its texts as sequences of characters.
pub enum IngestionErrorView {
    Parse(ParseErrorView),
    Load(LoadError),
}

impl View for IngestionError {
    type V = IngestionErrorView;

    open spec fn view(&self) -> IngestionErrorView {
        match *self {
            IngestionError::Parse(error) => IngestionErrorView::Parse(error@),
            IngestionError::Load(error) => IngestionErrorView::Load(error),
        }
    }
}

/// What an ingestion error says in words: the kind of the error, then what
/// the error itself says.
pub open spec fn ingestion_error_text(error: IngestionErrorView) -> Seq<char> {
    match error {
        IngestionErrorView::Parse(inner) => "Parse error: "@ + parse_error_text(inner),
        IngestionErrorView::Load(inner) => "Load error: "@ + load_error_text(inner),
    }
}

impl IngestionError {
    /// The error in words.
    pub fn message(&self) -> (text: String)
        ensures
            text@ == ingestion_error_text(self@),
    {
        match self {
            IngestionError::Parse(inner) => {
                let mut text = String::from_str("Parse error: ");
                text.append(inner.message().as_str());
                text
            },
            IngestionError::Load(inner) => {
                let mut text = String::from_str("Load error: ");
                text.append(inner.message().as_str());
                text
            },
        }
    }
}

/// The table after one line of the year `data_year` was handed to
/// `update_row`: a line that is a record is loaded under the year and its
/// area code, as the policy says; any other line changes nothing.
pub open spec fn table_after_line(
    policy: DuplicatePolicy,
    table: Table,
    data_year: int,
    line: Seq<char>,
) -> Table {
    match parse_line_spec(line) {
        Ok(row) => table_after_load(policy, table, (data_year, row.cc_code), row),
        Err(_) => table,
    }
}

/// What `update_row` answers for one line: the parse error of a line that is
/// no record, the store's refusal of a record whose key is held under
/// `Reject`, and else success.
pub open spec fn answer_to_line(
    policy: DuplicatePolicy,
    table: Table,
    data_year: int,
    line: Seq<char>,
) -> Result<Seq<char>, IngestionErrorView> {
    match parse_line_spec(line) {
        Err(error) => Err(IngestionErrorView::Parse(error)),
        Ok(row) => if load_is_refused(policy, table, (data_year, row.cc_code)) {
            Err(
                IngestionErrorView::Load(
                    LoadError::DuplicateKey {
                        data_year: data_year as i32,
                        cc_code: row.cc_code as i32,
                    },
                ),
            )
        } else {
            Ok(UPDATED@)
        },
    }
}

/// The answer of `update_row`, with texts as sequences of characters.
pub open spec fn answer_view(answer: Result<String, IngestionError>) -> Result<
    Seq<char>,
    IngestionErrorView,
> {
    match answer {
        Ok(text) => Ok(text@),
        Err(error) => Err(error@),
    }
}

/// Parses one line of the extract of `year` and loads the record into the
/// store. A line that is no record never reaches the store.
pub fn update_row(store: &mut Store, line: &str, year: i32) -> (answer: Result<
    String,
    IngestionError,
>)
    requires
        old(store).wf(),
    ensures
        final(store).wf(),
        final(store).policy_spec() == old(store).policy_spec(),
        final(store)@ == table_after_line(
            old(store).policy_spec(),
            old(store)@,
            year as int,
            line@,
        ),
        answer_view(answer) == answer_to_line(
            old(store).policy_spec(),
            old(store)@,
            year as int,
            line@,
        ),
{
    let row = match parse_line(line) {
        Ok(row) => row,
        Err(error) => {
            return Err(IngestionError::Parse(error));
        },
    };
    match store.load(year, row) {
        Ok(()) => Ok(String::from_str(UPDATED)),
        Err(error) => Err(IngestionError::Load(error)),
    }
}

/// How the lines of one extract fared.
#[derive(Clone, Copy, Debug, PartialEq, Eq, Structural)]
pub struct LineCounts {
    /// Lines that are records.
    pub parsed: usize,
    /// Lines that are no records.
    pub failed: usize,
    /// Records that the store took.
    pub loaded: usize,
    /// Records that the store refused.
    pub rejected: usize,
}

/// `LineCounts` as mathematical numbers.
pub struct LineCountsView {
    pub parsed: nat,
    pub failed: nat,
    pub loaded: nat,
    pub rejected: nat,
}

impl View for LineCounts {
    type V = LineCountsView;

    open spec fn view(&self) -> LineCountsView {
        LineCountsView {
            parsed: self.parsed as nat,
            failed: self.failed as nat,
            loaded: self.loaded as nat,
            rejected: self.rejected as nat,
        }
    }
}

/// The table after the lines of one extract were handed to `update_row` one
/// after the other.
pub open spec fn table_after_lines(
    policy: DuplicatePolicy,
    table: Table,
    data_year: int,
    lines: Seq<Seq<char>>,
) -> Table
    decreases lines.len(),
{
    if lines.len() == 0 {
        table
    } else {
        table_after_line(
            policy,
            table_after_lines(policy, table, data_year, lines.drop_last()),
            data_year,
            lines.last(),
        )
    }
}

/// How the lines of one extract fare, counted: each line is either parsed or
/// failed, and each parsed line is either loaded or rejected.
pub open spec fn counts_of_lines(
    policy: DuplicatePolicy,
    table: Table,
    data_year: int,
    lines: Seq<Seq<char>>,
) -> LineCountsView
    decreases lines.len(),
{
    if lines.len() == 0 {
        LineCountsView { parsed: 0, failed: 0, loaded: 0, rejected: 0 }
    } else {
        let before = counts_of_lines(policy, table, data_year, lines.drop_last());
        let held = table_after_lines(policy, table, data_year, lines.drop_last());
        match answer_to_line(policy, held, data_year, lines.last()) {
            Ok(_) => LineCountsView {
                parsed: before.parsed + 1,
                loaded: before.loaded + 1,
                ..before
            },
            Err(IngestionErrorView::Parse(_)) => LineCountsView {
                failed: before.failed + 1,
                ..before
            },
            Err(IngestionErrorView::Load(_)) => LineCountsView {
                parsed: before.parsed + 1,
                rejected: before.rejected + 1,
                ..before
            },
        }
    }
}

/// Every line is counted once: as parsed or as failed; and every parsed line
/// once more: as loaded or as rejected.
pub proof fn lemma_every_line_is_counted(
    policy: DuplicatePolicy,
    table: Table,
    data_year: int,
    lines: Seq<Seq<char>>,
)
    ensures
        ({
            let counts = counts_of_lines(policy, table, data_year, lines);
            &&& counts.parsed + counts.failed == lines.len()
            &&& counts.loaded + counts.rejected == counts.parsed
        }),
    decreases lines.len(),
{
    if lines.len() > 0 {
        lemma_every_line_is_counted(policy, table, data_year, lines.drop_last());
    }
}

/// The lines that are records, in their order.
pub open spec fn records_of(lines: Seq<Seq<char>>) -> Seq<Seq<char>>
    decreases lines.len(),
{
    if lines.len() == 0 {
        lines
    } else if parse_line_spec(lines.last()) is Ok {
        records_of(lines.drop_last()).push(lines.last())
    } else {
        records_of(lines.drop_last())
    }
}

/// Lines that are no records leave no trace: the store ends as if they had
/// not been there, and they are counted as failed and as nothing else.
pub proof fn lemma_bad_lines_leave_no_trace(
    policy: DuplicatePolicy,
    table: Table,
    data_year: int,
    lines: Seq<Seq<char>>,
)
    ensures
        table_after_lines(policy, table, data_year, lines) == table_after_lines(
            policy,
            table,
            data_year,
            records_of(lines),
        ),
        counts_of_lines(policy, table, data_year, lines).parsed == records_of(lines).len(),
        counts_of_lines(policy, table, data_year, lines).failed == lines.len() - records_of(
            lines,
        ).len(),
        counts_of_lines(policy, table, data_year, lines).loaded == counts_of_lines(
            policy,
            table,
            data_year,
            records_of(lines),
        ).loaded,
    decreases lines.len(),
{
    if lines.len() > 0 {
        let init = lines.drop_last();
        lemma_bad_lines_leave_no_trace(policy, table, data_year, init);
        if parse_line_spec(lines.last()) is Ok {
            let kept = records_of(init).push(lines.last());
            assert(kept.drop_last() == records_of(init));
        }
    }
}

/// Loads an extract of the year `year` line by line. A line that fails is
/// counted and the next line is tried; nothing stops the run.
pub fn ingest_blob(store: &mut Store, year: i32, blob: &str) -> (counts: LineCounts)
    requires
        old(store).wf(),
    ensures
        final(store).wf(),
        final(store).policy_spec() == old(store).policy_spec(),
        final(store)@ == table_after_lines(
            old(store).policy_spec(),
            old(store)@,
            year as int,
            split(blob@, '\n'),
        ),
        counts@ == counts_of_lines(
            old(store).policy_spec(),
            old(store)@,
            year as int,
            split(blob@, '\n'),
        ),
{
    let lines = split_on(blob, '\n');
    let ghost texts = lines.deep_view();
    let ghost policy = store.policy_spec();
    let ghost table = store@;
    let mut counts = LineCounts { parsed: 0, failed: 0, loaded: 0, rejected: 0 };
    let mut i: usize = 0;
    while i < lines.len()
        invariant
            i <= lines.len(),
            texts == lines.deep_view(),
            store.wf(),
            store.policy_spec() == policy,
            store@ == table_after_lines(policy, table, year as int, texts.take(i as int)),
            counts@ == counts_of_lines(policy, table, year as int, texts.take(i as int)),
            counts.parsed + counts.failed == i,
            counts.loaded + counts.rejected == counts.parsed,
        decreases lines.len() - i,
    {
        proof {
            assert(texts.take(i + 1).drop_last() == texts.take(i as int));
        }
        match update_row(store, lines[i].as_str(), year) {
            Ok(_) => {
                counts.parsed = counts.parsed + 1;
                counts.loaded = counts.loaded + 1;
            },
            Err(IngestionError::Parse(_)) => {
                counts.failed = counts.failed + 1;
            },
            Err(IngestionError::Load(_)) => {
                counts.parsed = counts.parsed + 1;
                counts.rejected = counts.rejected + 1;
            },
        }
        i += 1;
    }
    proof {
        assert(texts.take(lines.len() as int) == texts);
    }
    counts
}

} // verus!
