//! Where a year's extract is fetched from, and what to make of the answer.

use vstd::prelude::*;
use vstd::string::StringExecFns;
use crate::calendar::{source_year, BUDDHIST_ERA_OFFSET, SOURCE_YEAR_BASE};
use crate::numbers::{decimal, to_decimal};
use crate::text::{trim, trim_matches};

verus! {

/// What stands before the registry's year in the address of an extract.
pub const URL_HEAD: &'static str = "https://stat.bora.dopa.go.th/new_stat/file/";

/// What stands between the two occurrences of the registry's year.
pub const URL_MIDDLE: &'static str = "/stat_c";

/// What stands after the registry's year.
pub const URL_TAIL: &'static str = ".txt";

/// The address of the extract of a calendar year: the registry's own year is
/// written twice into a fixed pattern.
pub open spec fn url_of(year: int) -> Seq<char> {
    URL_HEAD@ + decimal(source_year(year)) + URL_MIDDLE@ + decimal(source_year(year)) + URL_TAIL@
}

/// Builds the address that the extract of `year` is fetched from.
pub fn source_url(year: i32) -> (url: String)
    ensures
        url@ == url_of(year as int),
{
    let thai_year: i64 = year as i64 + BUDDHIST_ERA_OFFSET as i64 - SOURCE_YEAR_BASE as i64;
    let mut url = String::from_str(URL_HEAD);
    url.append(to_decimal(thai_year).as_str());
    url.append(URL_MIDDLE);
    url.append(to_decimal(thai_year).as_str());
    url.append(URL_TAIL);
    url
}

/// What came back from one request.
#[derive(Debug)]
pub enum HttpReply {
    /// The server answered with this status and this body.
    Answer { status: u16, body: String },
    /// No answer came, or its body could not be read; the reason is given.
    Broken { reason: String },
}

/// An `HttpReply` with its texts as sequences of characters.
pub enum HttpReplyView {
    Answer { status: int, body: Seq<char> },
    Broken { reason: Seq<char> },
}

impl View for HttpReply {
    type V = HttpReplyView;

    open spec fn view(&self) -> HttpReplyView {
        match *self {
            HttpReply::Answer { status, body } => HttpReplyView::Answer {
                status: status as int,
                body: body@,
            },
            HttpReply::Broken { reason } => HttpReplyView::Broken { reason: reason@ },
        }
    }
}

/// What fetching one year came to.
#[derive(Debug)]
pub enum FetchOutcome {
    /// The extract, without the spaces and line feeds at its ends.
    Success(String),
    /// The registry has no extract for the year.
    NotFound,
    /// The request failed on the way; the reason is given.
    TransientFailure(String),
}

/// A `FetchOutcome` with its texts as sequences of characters.
pub enum FetchOutcomeView {
    Success(Seq<char>),
    NotFound,
    TransientFailure(Seq<char>),
}

impl View for FetchOutcome {
    type V = FetchOutcomeView;

    open spec fn view(&self) -> FetchOutcomeView {
        match *self {
            FetchOutcome::Success(blob) => FetchOutcomeView::Success(blob@),
            FetchOutcome::NotFound => FetchOutcomeView::NotFound,
            FetchOutcome::TransientFailure(reason) => FetchOutcomeView::TransientFailure(reason@),
        }
    }
}

/// Whether a status is one of the 2xx family.
pub open spec fn is_success(status: int) -> bool {
    200 <= status <= 299
}

/// What is removed from both ends of a body: spaces and line feeds.
pub open spec fn body_strip() -> Seq<char> {
    seq![' ', '\n']
}

/// What a reply means: a 2xx answer is the extract, trimmed; any other status
/// says that the year is not there; a request that broke is a failure that
/// may pass.
pub open spec fn classify(reply: HttpReplyView) -> FetchOutcomeView {
    match reply {
        HttpReplyView::Answer { status, body } => if is_success(status) {
            FetchOutcomeView::Success(trim(body, body_strip()))
        } else {
            FetchOutcomeView::NotFound
        },
        HttpReplyView::Broken { reason } => FetchOutcomeView::TransientFailure(reason),
    }
}

/// Whether `status` is one of the 2xx family.
pub fn status_is_success(status: u16) -> (yes: bool)
    ensures
        yes == is_success(status as int),
{
    status / 100 == 2
}

/// Removes spaces and line feeds from both ends of a body.
pub fn trim_body(body: &str) -> (blob: String)
    ensures
        blob@ == trim(body@, body_strip()),
{
    let strip: [char; 2] = [' ', '\n'];
    trim_matches(body, &strip)
}

/// Turns what one request came to into the outcome of the fetch.
pub fn classify_reply(reply: HttpReply) -> (outcome: FetchOutcome)
    ensures
        outcome@ == classify(reply@),
{
    match reply {
        HttpReply::Answer { status, body } => {
            if status_is_success(status) {
                FetchOutcome::Success(trim_body(body.as_str()))
            } else {
                FetchOutcome::NotFound
            }
        },
        HttpReply::Broken { reason } => FetchOutcome::TransientFailure(reason),
    }
}

} // verus!
