//! The run as a whole: which years are fetched, when the export may begin,
//! and what the run reports at its end. The pipeline decides and keeps the
//! books; fetching and writing files is done by its caller, who hands back
//! what happened as events.

pub mod laws;

use vstd::prelude::*;
use vstd::string::StringExecFns;
use crate::fetch::{FetchOutcome, FetchOutcomeView};
use crate::ingestion::{
    counts_of_lines, ingest_blob, table_after_lines, LineCounts, LineCountsView,
};
use crate::store::{
    is_export_of, partition_views, DuplicatePolicy, Partition, RowKey, Store, Table,
};
use crate::text::split;

verus! {

/// Which years a run asks for.
#[derive(Clone, Copy, Debug, PartialEq, Eq, Structural)]
pub enum ScanPlan {
    /// Every year from `start_year` to `end_year`, both included. The years
    /// do not depend on each other and may be fetched side by side.
    Bounded { start_year: i32, end_year: i32 },
    /// `start_year`, then the year after it, and so on, one at a time, until
    /// the registry has no extract for a year.
    SequentialProbe { start_year: i32 },
}

/// How far a run has come.
#[derive(Clone, Copy, Debug, PartialEq, Eq, Structural)]
pub enum Phase {
    /// Nothing has been asked for yet.
    Idle,
    /// Years are being fetched, parsed and loaded.
    Scanning,
    /// Every year that was asked for has been dealt with, and the store is
    /// being written out.
    Exporting,
    /// The export is complete.
    Done,
    /// The run was given up.
    Fatal,
}

/// Why a run stopped asking for years.
#[derive(Clone, Copy, Debug, PartialEq, Eq, Structural)]
pub enum StopReason {
    /// Every year of the plan was asked for.
    RangeExhausted,
    /// The registry had nothing for a year, so none is expected after it.
    UpstreamEnded,
    /// An error that the run cannot recover from.
    Fatal,
}

/// How one year ended.
#[derive(Clone, Copy, Debug, PartialEq, Eq, Structural)]
pub enum YearOutcome {
    /// The extract was fetched and its lines were handed to the store.
    Ingested,
    /// The registry has no extract for the year.
    NotFound,
    /// The request failed on the way.
    FetchFailed,
}

/// What the run reports of one year.
#[derive(Clone, Copy, Debug, PartialEq, Eq, Structural)]
pub struct YearReport {
    pub data_year: i32,
    pub outcome: YearOutcome,
    pub counts: LineCounts,
}

/// A `YearReport` as mathematical values.
pub struct YearReportView {
    pub data_year: int,
    pub outcome: YearOutcome,
    pub counts: LineCountsView,
}

impl View for YearReport {
    type V = YearReportView;

    open spec fn view(&self) -> YearReportView {
        YearReportView {
            data_year: self.data_year as int,
            outcome: self.outcome,
            counts: self.counts@,
        }
    }
}

/// What a run reports: one entry for each year that was dealt with, in the
/// order in which the years came back; why the scan stopped, once it has; what
/// the run was given up for, if it was; how many records the export could not
/// write; and how the partitions of the export fared.
#[derive(Debug)]
pub struct RunReport {
    pub years: Vec<YearReport>,
    pub stop: Option<StopReason>,
    pub cause: Option<String>,
    pub records_refused: usize,
    pub partitions_written: usize,
    pub partitions_skipped: usize,
}

/// A `RunReport` as mathematical values.
pub struct RunReportView {
    pub years: Seq<YearReportView>,
    pub stop: Option<StopReason>,
    pub cause: Option<Seq<char>>,
    pub records_refused: nat,
    pub partitions_written: nat,
    pub partitions_skipped: nat,
}

impl View for RunReport {
    type V = RunReportView;

    open spec fn view(&self) -> RunReportView {
        RunReportView {
            years: self.years@.map_values(|year: YearReport| year@),
            stop: self.stop,
            cause: match self.cause {
                Some(text) => Some(text@),
                None => None,
            },
            records_refused: self.records_refused as nat,
            partitions_written: self.partitions_written as nat,
            partitions_skipped: self.partitions_skipped as nat,
        }
    }
}

/// How the writing of the partitions ended.
#[derive(Clone, Copy, Debug, PartialEq, Eq, Structural)]
pub enum ExportOutcome {
    /// Every partition was dealt with: `written` were written, `skipped` were
    /// left out because what stands in their place cannot be read.
    Completed { written: usize, skipped: usize },
    /// Writing failed for another reason.
    Failed,
}

/// How the writing of one partition ended.
#[derive(Clone, Copy, Debug, PartialEq, Eq, Structural)]
pub enum PartitionWrite {
    /// The partition was written, over what stood in its place if need be.
    Written,
    /// The partition was left out: what stands in its place cannot be read.
    Skipped,
    /// Writing failed for another reason.
    Failed,
}

/// How many of the writes ended as `kind`.
pub open spec fn writes_of(writes: Seq<PartitionWrite>, kind: PartitionWrite) -> nat
    decreases writes.len(),
{
    if writes.len() == 0 {
        0
    } else if writes.last() == kind {
        writes_of(writes.drop_last(), kind) + 1
    } else {
        writes_of(writes.drop_last(), kind)
    }
}

/// What the writes of an export come to: one write that failed fails the
/// export; else the export is complete, with its written and its skipped
/// partitions counted.
pub open spec fn summary_of(writes: Seq<PartitionWrite>) -> ExportOutcome {
    if writes_of(writes, PartitionWrite::Failed) > 0 {
        ExportOutcome::Failed
    } else {
        ExportOutcome::Completed {
            written: writes_of(writes, PartitionWrite::Written) as usize,
            skipped: writes_of(writes, PartitionWrite::Skipped) as usize,
        }
    }
}

/// Every write is of one kind, so the three counts add up to the number of
/// writes.
pub proof fn lemma_writes_add_up(writes: Seq<PartitionWrite>)
    ensures
        writes_of(writes, PartitionWrite::Written) + writes_of(writes, PartitionWrite::Skipped)
            + writes_of(writes, PartitionWrite::Failed) == writes.len(),
    decreases writes.len(),
{
    if writes.len() > 0 {
        lemma_writes_add_up(writes.drop_last());
    }
}

/// Sums up the writes of an export, one for each partition. A partition that
/// was skipped does not fail the export; a write that failed does.
pub fn summarise_writes(writes: &Vec<PartitionWrite>) -> (outcome: ExportOutcome)
    ensures
        outcome == summary_of(writes@),
        outcome matches ExportOutcome::Completed { written, skipped } ==> written + skipped
            == writes@.len(),
{
    let mut written: usize = 0;
    let mut skipped: usize = 0;
    let mut failed: bool = false;
    let mut i: usize = 0;
    while i < writes.len()
        invariant
            i <= writes.len(),
            written == writes_of(writes@.take(i as int), PartitionWrite::Written),
            skipped == writes_of(writes@.take(i as int), PartitionWrite::Skipped),
            failed <==> writes_of(writes@.take(i as int), PartitionWrite::Failed) > 0,
            written + skipped <= i,
        decreases writes.len() - i,
    {
        proof {
            assert(writes@.take(i + 1).drop_last() == writes@.take(i as int));
        }
        match writes[i] {
            PartitionWrite::Written => {
                written = written + 1;
            },
            PartitionWrite::Skipped => {
                skipped = skipped + 1;
            },
            PartitionWrite::Failed => {
                failed = true;
            },
        }
        i += 1;
    }
    proof {
        assert(writes@.take(writes.len() as int) == writes@);
        lemma_writes_add_up(writes@);
    }
    if failed {
        ExportOutcome::Failed
    } else {
        ExportOutcome::Completed { written, skipped }
    }
}

/// What happened outside the pipeline.
#[derive(Debug)]
pub enum Event {
    /// The run begins.
    Start,
    /// The fetch of `year` came to `outcome`.
    Fetched { year: i32, outcome: FetchOutcome },
    /// One record of the export could not be written and was left out.
    RowRefused,
    /// The writing of the partitions came to an end.
    Exported(ExportOutcome),
    /// An error that the run cannot recover from; the cause is given.
    Abort { cause: String },
}

/// An `Event` with its texts as sequences of characters.
pub enum EventView {
    Start,
    Fetched { year: int, outcome: FetchOutcomeView },
    RowRefused,
    Exported(ExportOutcome),
    Abort { cause: Seq<char> },
}

impl View for Event {
    type V = EventView;

    open spec fn view(&self) -> EventView {
        match *self {
            Event::Start => EventView::Start,
            Event::Fetched { year, outcome } => EventView::Fetched {
                year: year as int,
                outcome: outcome@,
            },
            Event::RowRefused => EventView::RowRefused,
            Event::Exported(outcome) => EventView::Exported(outcome),
            Event::Abort { cause } => EventView::Abort { cause: cause@ },
        }
    }
}

/// What the caller is to do next.
#[derive(Debug)]
pub enum Action {
    /// Fetch every year from `first` to `last`, both included, and hand back
    /// one `Fetched` event for each.
    Fetch { first: i32, last: i32 },
    /// Nothing new; hand back the events that are still due.
    Wait,
    /// Write these partitions out, then hand back one `Exported` event.
    Export(Vec<Partition>),
    /// The run is over; leave with this exit code.
    Finish(i32),
    /// The event does not fit the phase of the run; nothing has changed.
    Ignored,
}

/// What the pipeline decides, without the partitions of an export.
pub enum Decision {
    Fetch { first: int, last: int },
    Wait,
    Export,
    Finish(int),
    Ignored,
}

/// The state of a run as the contracts see it.
pub struct PipelineView {
    pub plan: ScanPlan,
    pub policy: DuplicatePolicy,
    pub phase: Phase,
    /// The year after the last one that was asked for.
    pub next_year: int,
    pub table: Table,
    pub report: RunReportView,
    /// How many partitions the export was given.
    pub partitions_due: nat,
}

/// The first year of a plan.
pub open spec fn first_year(plan: ScanPlan) -> int {
    match plan {
        ScanPlan::Bounded { start_year, .. } => start_year as int,
        ScanPlan::SequentialProbe { start_year } => start_year as int,
    }
}

/// The last year that a plan can ask for: the end of a bounded plan, and for
/// a probe the last year there is.
pub open spec fn last_year(plan: ScanPlan) -> int {
    match plan {
        ScanPlan::Bounded { end_year, .. } => end_year as int,
        ScanPlan::SequentialProbe { .. } => i32::MAX as int,
    }
}

/// Whether a plan probes year by year.
pub open spec fn is_probe(plan: ScanPlan) -> bool {
    plan is SequentialProbe
}

/// Whether a year has been reported.
pub open spec fn completed(state: PipelineView, year: int) -> bool {
    exists|i: int|
        0 <= i < state.report.years.len() && (#[trigger] state.report.years[i]).data_year == year
}

/// Whether the run waits for the fetch of `year`: the year was asked for and
/// has not been reported.
pub open spec fn awaited(state: PipelineView, year: int) -> bool {
    &&& state.phase == Phase::Scanning
    &&& first_year(state.plan) <= year < state.next_year
    &&& !completed(state, year)
}

/// Whether as many years have been reported as were asked for.
pub open spec fn drained(state: PipelineView) -> bool {
    state.report.years.len() == state.next_year - first_year(state.plan)
}

/// The counts of a year that brought no lines.
pub open spec fn no_lines() -> LineCountsView {
    LineCountsView { parsed: 0, failed: 0, loaded: 0, rejected: 0 }
}

/// The state with the outcome of `year` on the books: an extract is loaded
/// line by line and counted, a year that is missing or failed is noted.
pub open spec fn recorded(
    state: PipelineView,
    year: int,
    outcome: FetchOutcomeView,
) -> PipelineView {
    match outcome {
        FetchOutcomeView::Success(blob) => PipelineView {
            table: table_after_lines(state.policy, state.table, year, split(blob, '\n')),
            report: RunReportView {
                years: state.report.years.push(
                    YearReportView {
                        data_year: year,
                        outcome: YearOutcome::Ingested,
                        counts: counts_of_lines(
                            state.policy,
                            state.table,
                            year,
                            split(blob, '\n'),
                        ),
                    },
                ),
                ..state.report
            },
            ..state
        },
        FetchOutcomeView::NotFound => PipelineView {
            report: RunReportView {
                years: state.report.years.push(
                    YearReportView {
                        data_year: year,
                        outcome: YearOutcome::NotFound,
                        counts: no_lines(),
                    },
                ),
                ..state.report
            },
            ..state
        },
        FetchOutcomeView::TransientFailure(_) => PipelineView {
            report: RunReportView {
                years: state.report.years.push(
                    YearReportView {
                        data_year: year,
                        outcome: YearOutcome::FetchFailed,
                        counts: no_lines(),
                    },
                ),
                ..state.report
            },
            ..state
        },
    }
}

/// The years that a table holds records of.
pub open spec fn years_held(table: Table) -> Set<int> {
    table.dom().map(|key: RowKey| key.0)
}

/// The state at the barrier: the scan has stopped for `reason`, and the
/// export begins, with one partition due for each year that the table holds.
pub open spec fn at_barrier(state: PipelineView, reason: StopReason) -> PipelineView {
    PipelineView {
        phase: Phase::Exporting,
        report: RunReportView { stop: Some(reason), ..state.report },
        partitions_due: years_held(state.table).len(),
        ..state
    }
}

/// What is reported as the cause when the export failed.
pub const EXPORT_FAILED: &'static str = "The export failed";

/// The state given up for `cause`.
pub open spec fn given_up(state: PipelineView, cause: Seq<char>) -> PipelineView {
    PipelineView {
        phase: Phase::Fatal,
        report: RunReportView {
            stop: Some(StopReason::Fatal),
            cause: Some(cause),
            ..state.report
        },
        ..state
    }
}

/// Whether a probe goes on to the next year after `year` came to `outcome`:
/// only after an extract, and only if there is a next year.
pub open spec fn probe_goes_on(year: int, outcome: FetchOutcomeView) -> bool {
    outcome is Success && year < i32::MAX
}

/// Why a probe stops after `year` came to `outcome`.
pub open spec fn probe_stop_reason(outcome: FetchOutcomeView) -> StopReason {
    if outcome is Success {
        StopReason::RangeExhausted
    } else {
        StopReason::UpstreamEnded
    }
}

/// What the pipeline decides on an event.
///
/// * `Start`, while idle: a bounded plan asks for all its years at once, or
///   goes straight to the export when it has none; a probe asks for its
///   first year.
/// * `Fetched`, for a year that is awaited: the outcome goes on the books.
///   A probe then asks for the next year after an extract, and stops at a
///   year that is missing or that failed. A bounded plan waits until all its
///   years are back. When the scan has stopped and no year is awaited, the
///   export begins.
/// * `RowRefused`, while exporting: the record is counted and the export
///   goes on, as long as fewer records are counted than the table holds.
/// * `Exported`, while exporting: the run is done when the partitions that
///   were written and skipped are all that were due; a failure is fatal.
/// * `Abort`, unless the run is over: the run is given up, and the cause is
///   put on the books.
///
/// Any other event is ignored.
pub open spec fn decide(state: PipelineView, event: EventView) -> Decision {
    match event {
        EventView::Start => if state.phase != Phase::Idle {
            Decision::Ignored
        } else if is_probe(state.plan) {
            Decision::Fetch { first: first_year(state.plan), last: first_year(state.plan) }
        } else if first_year(state.plan) <= last_year(state.plan) {
            Decision::Fetch { first: first_year(state.plan), last: last_year(state.plan) }
        } else {
            Decision::Export
        },
        EventView::Fetched { year, outcome } => if !awaited(state, year) {
            Decision::Ignored
        } else if is_probe(state.plan) {
            if probe_goes_on(year, outcome) {
                Decision::Fetch { first: year + 1, last: year + 1 }
            } else {
                Decision::Export
            }
        } else if drained(recorded(state, year, outcome)) {
            Decision::Export
        } else {
            Decision::Wait
        },
        EventView::RowRefused => if state.phase == Phase::Exporting
            && state.report.records_refused < state.table.dom().len() {
            Decision::Wait
        } else {
            Decision::Ignored
        },
        EventView::Exported(outcome) => if state.phase != Phase::Exporting {
            Decision::Ignored
        } else {
            match outcome {
                ExportOutcome::Completed { written, skipped } => if written + skipped
                    == state.partitions_due {
                    Decision::Finish(0)
                } else {
                    Decision::Ignored
                },
                ExportOutcome::Failed => Decision::Finish(1),
            }
        },
        EventView::Abort { .. } => if state.phase == Phase::Done || state.phase == Phase::Fatal {
            Decision::Ignored
        } else {
            Decision::Finish(1)
        },
    }
}

/// The state after an event.
pub open spec fn step(state: PipelineView, event: EventView) -> PipelineView {
    match decide(state, event) {
        Decision::Ignored => state,
        Decision::Wait => match event {
            EventView::Fetched { year, outcome } => recorded(state, year, outcome),
            EventView::RowRefused => PipelineView {
                report: RunReportView {
                    records_refused: state.report.records_refused + 1,
                    ..state.report
                },
                ..state
            },
            _ => state,
        },
        Decision::Fetch { first, last } => match event {
            EventView::Fetched { year, outcome } => PipelineView {
                next_year: last + 1,
                ..recorded(state, year, outcome)
            },
            _ => PipelineView { phase: Phase::Scanning, next_year: last + 1, ..state },
        },
        Decision::Export => match event {
            EventView::Fetched { year, outcome } => at_barrier(
                recorded(state, year, outcome),
                if is_probe(state.plan) {
                    probe_stop_reason(outcome)
                } else {
                    StopReason::RangeExhausted
                },
            ),
            _ => at_barrier(state, StopReason::RangeExhausted),
        },
        Decision::Finish(code) => match event {
            EventView::Exported(ExportOutcome::Completed { written, skipped }) => PipelineView {
                phase: Phase::Done,
                report: RunReportView {
                    partitions_written: written as nat,
                    partitions_skipped: skipped as nat,
                    ..state.report
                },
                ..state
            },
            EventView::Abort { cause } => given_up(state, cause),
            _ => given_up(state, EXPORT_FAILED@),
        },
    }
}

/// The state of a run that has not begun.
pub open spec fn initial(plan: ScanPlan, policy: DuplicatePolicy) -> PipelineView {
    PipelineView {
        plan,
        policy,
        phase: Phase::Idle,
        next_year: first_year(plan),
        table: Map::empty(),
        report: RunReportView {
            years: Seq::empty(),
            stop: None,
            cause: None,
            records_refused: 0,
            partitions_written: 0,
            partitions_skipped: 0,
        },
        partitions_due: 0,
    }
}

/// What holds of the state of every run, whatever events come in.
pub open spec fn sound(state: PipelineView) -> bool {
    let first = first_year(state.plan);
    let last = last_year(state.plan);
    let years = state.report.years;
    &&& first <= state.next_year
    &&& state.next_year <= last + 1 || state.next_year == first
    &&& years.len() <= state.next_year - first
    &&& forall|i: int|
        0 <= i < years.len() ==> first <= (#[trigger] years[i]).data_year < state.next_year
    &&& forall|i: int, j: int|
        0 <= i < j < years.len() ==> (#[trigger] years[i]).data_year != (
        #[trigger] years[j]).data_year
    &&& state.phase == Phase::Idle ==> state.next_year == first && years.len() == 0
    &&& state.phase == Phase::Scanning ==> !drained(state)
    &&& state.phase == Phase::Scanning && is_probe(state.plan) ==> years.len() + 1
        == state.next_year - first
    &&& is_probe(state.plan) ==> forall|i: int|
        0 <= i < years.len() ==> (#[trigger] years[i]).data_year == first + i
    &&& state.phase == Phase::Exporting || state.phase == Phase::Done ==> drained(state)
    &&& (state.phase == Phase::Idle || state.phase == Phase::Scanning) <==> state.report.stop
        is None
    &&& state.phase == Phase::Fatal <==> state.report.stop == Some(StopReason::Fatal)
    &&& state.phase == Phase::Fatal <==> state.report.cause is Some
}

/// Whether what was handed out fits what was decided: the same years, the
/// same exit code, and for an export the partitions of the table.
pub open spec fn action_fits(action: Action, decision: Decision, table: Table) -> bool {
    match decision {
        Decision::Fetch { first, last } => action matches Action::Fetch { first: f, last: l }
            && f == first && l == last,
        Decision::Wait => action is Wait,
        Decision::Export => action matches Action::Export(parts) && is_export_of(
            partition_views(parts@),
            table,
        ),
        Decision::Finish(code) => action matches Action::Finish(c) && c == code,
        Decision::Ignored => action is Ignored,
    }
}

/// A run: the plan, the store, and the books.
pub struct Pipeline {
    plan: ScanPlan,
    phase: Phase,
    next_year: i64,
    store: Store,
    report: RunReport,
    partitions_due: usize,
}

impl View for Pipeline {
    type V = PipelineView;

    closed spec fn view(&self) -> PipelineView {
        PipelineView {
            plan: self.plan,
            policy: self.store.policy_spec(),
            phase: self.phase,
            next_year: self.next_year as int,
            table: self.store@,
            report: self.report@,
            partitions_due: self.partitions_due as nat,
        }
    }
}

impl Pipeline {
    /// The pipeline's invariant. Every pipeline that `new` made has it, and
    /// `step` keeps it.
    pub closed spec fn wf(&self) -> bool {
        &&& self.store.wf()
        &&& sound(self@)
    }

    /// A run that has not begun, with an empty store.
    pub fn new(plan: ScanPlan, policy: DuplicatePolicy) -> (pipeline: Pipeline)
        ensures
            pipeline.wf(),
            pipeline@ == initial(plan, policy),
    {
        let first = match plan {
            ScanPlan::Bounded { start_year, .. } => start_year,
            ScanPlan::SequentialProbe { start_year } => start_year,
        };
        let pipeline = Pipeline {
            plan,
            phase: Phase::Idle,
            next_year: first as i64,
            store: Store::new(policy),
            report: RunReport {
                years: Vec::new(),
                stop: None,
                cause: None,
                records_refused: 0,
                partitions_written: 0,
                partitions_skipped: 0,
            },
            partitions_due: 0,
        };
        assert(pipeline@.report.years =~= Seq::empty());
        pipeline
    }

    /// How far the run has come.
    pub fn phase(&self) -> (phase: Phase)
        ensures
            phase == self@.phase,
    {
        self.phase
    }

    /// The books of the run.
    pub fn report(&self) -> (report: &RunReport)
        ensures
            report@ == self@.report,
    {
        &self.report
    }

    /// The store of the run.
    pub fn store(&self) -> (store: &Store)
        ensures
            store@ == self@.table,
            store.policy_spec() == self@.policy,
            self.wf() ==> store.wf(),
    {
        &self.store
    }

    /// How many years have been dealt with.
    pub fn years_attempted(&self) -> (count: usize)
        ensures
            count == self@.report.years.len(),
    {
        self.report.years.len()
    }

    /// The exit code of the run as it stands: zero when the export is
    /// complete, and one as long as it is not.
    pub fn exit_code(&self) -> (code: i32)
        ensures
            code == 0 <==> self@.phase == Phase::Done,
            code == 0 || code == 1,
    {
        match self.phase {
            Phase::Done => 0,
            _ => 1,
        }
    }

    /// The first year of the plan.
    fn first(&self) -> (year: i32)
        ensures
            year == first_year(self.plan),
    {
        match self.plan {
            ScanPlan::Bounded { start_year, .. } => start_year,
            ScanPlan::SequentialProbe { start_year } => start_year,
        }
    }

    /// Whether `year` has been reported.
    fn is_completed(&self, year: i32) -> (yes: bool)
        ensures
            yes == completed(self@, year as int),
    {
        let mut i: usize = 0;
        while i < self.report.years.len()
            invariant
                i <= self.report.years.len(),
                forall|j: int| 0 <= j < i ==> self.report.years@[j].data_year != year,
            decreases self.report.years.len() - i,
        {
            if self.report.years[i].data_year == year {
                assert(self@.report.years[i as int].data_year == year);
                return true;
            }
            i += 1;
        }
        assert forall|j: int| 0 <= j < self@.report.years.len() implies (
        #[trigger] self@.report.years[j]).data_year != year by {}
        false
    }

    /// Puts the outcome of `year` on the books and loads its lines.
    fn record(&mut self, year: i32, outcome: FetchOutcome)
        requires
            old(self).store.wf(),
        ensures
            final(self).store.wf(),
            final(self)@ == recorded(old(self)@, year as int, outcome@),
    {
        let entry = match outcome {
            FetchOutcome::Success(blob) => {
                let counts = ingest_blob(&mut self.store, year, blob.as_str());
                YearReport { data_year: year, outcome: YearOutcome::Ingested, counts }
            },
            FetchOutcome::NotFound => YearReport {
                data_year: year,
                outcome: YearOutcome::NotFound,
                counts: LineCounts { parsed: 0, failed: 0, loaded: 0, rejected: 0 },
            },
            FetchOutcome::TransientFailure(_) => YearReport {
                data_year: year,
                outcome: YearOutcome::FetchFailed,
                counts: LineCounts { parsed: 0, failed: 0, loaded: 0, rejected: 0 },
            },
        };
        self.report.years.push(entry);
        assert(self@.report.years =~= old(self)@.report.years.push(entry@));
    }

    /// Stops the scan for `reason` and hands the store out as partitions.
    fn begin_export(&mut self, reason: StopReason) -> (action: Action)
        requires
            old(self).store.wf(),
        ensures
            final(self).store.wf(),
            final(self)@ == at_barrier(old(self)@, reason),
            action_fits(action, Decision::Export, final(self)@.table),
    {
        let parts = self.store.export_all();
        proof {
            laws::lemma_one_partition_for_each_year(partition_views(parts@), self.store@);
        }
        self.phase = Phase::Exporting;
        self.report.stop = Some(reason);
        self.partitions_due = parts.len();
        Action::Export(parts)
    }

    /// Gives the run up for `cause`.
    fn give_up(&mut self, cause: String) -> (action: Action)
        ensures
            final(self).store == old(self).store,
            final(self)@ == given_up(old(self)@, cause@),
            action_fits(action, Decision::Finish(1), final(self)@.table),
    {
        self.phase = Phase::Fatal;
        self.report.stop = Some(StopReason::Fatal);
        self.report.cause = Some(cause);
        Action::Finish(1)
    }

    /// Takes one event, brings the books up to date and says what is to be
    /// done next. An export is handed out only when the scan has stopped and
    /// every year that was asked for has been reported, so no load can be
    /// under way while the store is written out.
    pub fn step(&mut self, event: Event) -> (action: Action)
        requires
            old(self).wf(),
        ensures
            final(self).wf(),
            final(self)@ == step(old(self)@, event@),
            action_fits(action, decide(old(self)@, event@), final(self)@.table),
    {
        proof {
            laws::lemma_step_keeps_soundness(self@, event@);
        }
        match event {
            Event::Start => {
                if self.phase != Phase::Idle {
                    return Action::Ignored;
                }
                match self.plan {
                    ScanPlan::SequentialProbe { start_year } => {
                        self.phase = Phase::Scanning;
                        self.next_year = start_year as i64 + 1;
                        Action::Fetch { first: start_year, last: start_year }
                    },
                    ScanPlan::Bounded { start_year, end_year } => {
                        if start_year <= end_year {
                            self.phase = Phase::Scanning;
                            self.next_year = end_year as i64 + 1;
                            Action::Fetch { first: start_year, last: end_year }
                        } else {
                            self.begin_export(StopReason::RangeExhausted)
                        }
                    },
                }
            },
            Event::Fetched { year, outcome } => {
                let first = self.first();
                if !(self.phase == Phase::Scanning && first <= year && (year as i64)
                    < self.next_year) {
                    return Action::Ignored;
                }
                if self.is_completed(year) {
                    return Action::Ignored;
                }
                let ghost before = self@;
                let ghost seen = outcome@;
                match self.plan {
                    ScanPlan::SequentialProbe { .. } => {
                        let goes_on = match &outcome {
                            FetchOutcome::Success(_) => year < i32::MAX,
                            _ => false,
                        };
                        let reason = match &outcome {
                            FetchOutcome::Success(_) => StopReason::RangeExhausted,
                            _ => StopReason::UpstreamEnded,
                        };
                        self.record(year, outcome);
                        if goes_on {
                            self.next_year = year as i64 + 2;
                            Action::Fetch { first: year + 1, last: year + 1 }
                        } else {
                            self.begin_export(reason)
                        }
                    },
                    ScanPlan::Bounded { .. } => {
                        self.record(year, outcome);
                        proof {
                            laws::lemma_recording_keeps_books(before, year as int, seen);
                        }
                        if self.is_drained() {
                            self.begin_export(StopReason::RangeExhausted)
                        } else {
                            Action::Wait
                        }
                    },
                }
            },
            Event::RowRefused => {
                if self.phase == Phase::Exporting && self.report.records_refused
                    < self.store.len() {
                    self.report.records_refused = self.report.records_refused + 1;
                    Action::Wait
                } else {
                    Action::Ignored
                }
            },
            Event::Exported(outcome) => {
                if self.phase != Phase::Exporting {
                    return Action::Ignored;
                }
                match outcome {
                    ExportOutcome::Completed { written, skipped } => {
                        if written <= self.partitions_due && skipped == self.partitions_due
                            - written {
                            self.phase = Phase::Done;
                            self.report.partitions_written = written;
                            self.report.partitions_skipped = skipped;
                            Action::Finish(0)
                        } else {
                            Action::Ignored
                        }
                    },
                    ExportOutcome::Failed => self.give_up(String::from_str(EXPORT_FAILED)),
                }
            },
            Event::Abort { cause } => {
                if self.phase == Phase::Done || self.phase == Phase::Fatal {
                    Action::Ignored
                } else {
                    self.give_up(cause)
                }
            },
        }
    }

    /// Whether as many years have been reported as were asked for.
    fn is_drained(&self) -> (yes: bool)
        requires
            first_year(self.plan) <= self.next_year <= i32::MAX + 1,
        ensures
            yes == drained(self@),
    {
        let asked: i64 = self.next_year - self.first() as i64;
        asked as u64 == self.report.years.len() as u64
    }
}

} // verus!
