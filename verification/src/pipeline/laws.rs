//! What holds of every run: its books stay sound, its phases only advance,
//! the export waits for every year, and it begins at most once.

use vstd::prelude::*;
use crate::fetch::FetchOutcomeView;
use crate::pipeline::{
    awaited, completed, decide, drained, first_year, initial, is_probe, recorded, sound, step,
    years_held, EventView, Phase, PipelineView, ScanPlan, YearReportView,
};
use crate::store::{is_export_of, DuplicatePolicy, PartitionView, RowKey, Table};

verus! {

/// How far a phase is along the run. The two ends of a run count alike.
pub open spec fn phase_rank(phase: Phase) -> int {
    match phase {
        Phase::Idle => 0,
        Phase::Scanning => 1,
        Phase::Exporting => 2,
        Phase::Done => 3,
        Phase::Fatal => 3,
    }
}

/// The state after a run of events, one after the other.
pub open spec fn run(state: PipelineView, events: Seq<EventView>) -> PipelineView
    decreases events.len(),
{
    if events.len() == 0 {
        state
    } else {
        step(run(state, events.drop_last()), events.last())
    }
}

/// How often an export is decided in a run of events.
pub open spec fn exports_decided(state: PipelineView, events: Seq<EventView>) -> nat
    decreases events.len(),
{
    if events.len() == 0 {
        0
    } else {
        let before = exports_decided(state, events.drop_last());
        if decide(run(state, events.drop_last()), events.last()) is Export {
            before + 1
        } else {
            before
        }
    }
}

/// Putting the outcome of an awaited year on the books keeps them sound: one
/// more year is reported, still each year once and only years that were asked
/// for, and a probe's years still come in their order.
pub proof fn lemma_recording_keeps_books(state: PipelineView, year: int, outcome: FetchOutcomeView)
    requires
        sound(state),
        awaited(state, year),
    ensures
        ({
            let after = recorded(state, year, outcome);
            let first = first_year(state.plan);
            &&& after.plan == state.plan
            &&& after.phase == state.phase
            &&& after.next_year == state.next_year
            &&& after.report.stop == state.report.stop
            &&& after.report.years.len() == state.report.years.len() + 1
            &&& after.report.years.len() <= after.next_year - first
            &&& forall|i: int|
                0 <= i < after.report.years.len() ==> first <= (
                #[trigger] after.report.years[i]).data_year < after.next_year
            &&& forall|i: int, j: int|
                0 <= i < j < after.report.years.len() ==> (
                #[trigger] after.report.years[i]).data_year != (
                #[trigger] after.report.years[j]).data_year
            &&& is_probe(state.plan) ==> year == state.next_year - 1 && drained(after)
            &&& is_probe(state.plan) ==> forall|i: int|
                0 <= i < after.report.years.len() ==> (
                #[trigger] after.report.years[i]).data_year == first + i
        }),
{
    let after = recorded(state, year, outcome);
    let first = first_year(state.plan);
    let old_years = state.report.years;
    let new_years = after.report.years;
    let n = old_years.len() as int;
    assert forall|i: int| 0 <= i < n implies #[trigger] new_years[i] == old_years[i] by {}
    assert forall|i: int| 0 <= i < n implies (#[trigger] old_years[i]).data_year != year by {}
    if is_probe(state.plan) {
        if year < first + n {
            assert(old_years[year - first].data_year == year);
        }
    }
}

/// Every step leads from a sound state to a sound state.
pub proof fn lemma_step_keeps_soundness(state: PipelineView, event: EventView)
    requires
        sound(state),
    ensures
        sound(step(state, event)),
{
    match event {
        EventView::Fetched { year, outcome } => {
            if awaited(state, year) {
                lemma_recording_keeps_books(state, year, outcome);
            }
        },
        _ => {},
    }
}

/// Every run of events leads from a sound state to a sound state; the state
/// of a run that has not begun is sound.
pub proof fn lemma_run_keeps_soundness(state: PipelineView, events: Seq<EventView>)
    requires
        sound(state),
    ensures
        sound(run(state, events)),
        forall|plan: ScanPlan, policy: DuplicatePolicy| sound(#[trigger] initial(plan, policy)),
    decreases events.len(),
{
    if events.len() > 0 {
        lemma_run_keeps_soundness(state, events.drop_last());
        lemma_step_keeps_soundness(run(state, events.drop_last()), events.last());
    }
}

/// A run never goes back: no event leads to an earlier phase, and a run that
/// is done or given up stays so.
pub proof fn lemma_phases_only_advance(state: PipelineView, event: EventView)
    ensures
        phase_rank(step(state, event).phase) >= phase_rank(state.phase),
        state.phase == Phase::Done || state.phase == Phase::Fatal ==> step(state, event) == state,
{
}

/// An export is decided only by the event that ends the scan, and it leaves
/// the run exporting.
pub proof fn lemma_export_ends_the_scan(state: PipelineView, event: EventView)
    requires
        decide(state, event) is Export,
    ensures
        state.phase == Phase::Idle || state.phase == Phase::Scanning,
        step(state, event).phase == Phase::Exporting,
{
}

/// The barrier: when an export is decided, every year that was asked for has
/// been reported, so no fetch is awaited and no load can be under way.
pub proof fn lemma_export_waits_for_every_year(state: PipelineView, event: EventView)
    requires
        sound(state),
        decide(state, event) is Export,
    ensures
        forall|year: int|
            first_year(state.plan) <= year < step(state, event).next_year ==> completed(
                step(state, event),
                year,
            ),
        forall|year: int| !awaited(step(state, event), year),
{
    let after = step(state, event);
    lemma_step_keeps_soundness(state, event);
    lemma_drained_books_are_complete(after);
}

/// Once the export has begun the store is settled: no event changes the
/// table or the books of the years, so nothing is loaded while the store is
/// written out or after it.
pub proof fn lemma_nothing_is_loaded_after_the_barrier(state: PipelineView, event: EventView)
    requires
        phase_rank(state.phase) >= 2,
    ensures
        step(state, event).table == state.table,
        step(state, event).report.years == state.report.years,
        step(state, event).next_year == state.next_year,
{
}

/// When as many years are reported as were asked for, every year that was
/// asked for is reported.
pub proof fn lemma_drained_books_are_complete(state: PipelineView)
    requires
        sound(state),
        drained(state),
    ensures
        forall|year: int|
            first_year(state.plan) <= year < state.next_year ==> completed(state, year),
{
    let first = first_year(state.plan);
    let years = state.report.years.map_values(|entry: YearReportView| entry.data_year);
    let asked = vstd::set_lib::set_int_range(first, state.next_year);
    vstd::set_lib::lemma_int_range(first, state.next_year);
    assert(years.no_duplicates()) by {
        assert forall|i: int, j: int|
            0 <= i < years.len() && 0 <= j < years.len() && i != j implies years[i]
            != years[j] by {}
    }
    years.unique_seq_to_set();
    assert(years.to_set().subset_of(asked)) by {
        assert forall|year: int| years.to_set().contains(year) implies asked.contains(year) by {}
    }
    vstd::set_lib::lemma_subset_equality(years.to_set(), asked);
    assert forall|year: int| first <= year < state.next_year implies completed(state, year) by {
        assert(asked.contains(year));
    }
}

/// The export begins at most once in a run, whatever events come in and in
/// whatever order; and it does not begin again in a run that has left the
/// scan behind.
pub proof fn lemma_export_begins_at_most_once(state: PipelineView, events: Seq<EventView>)
    ensures
        exports_decided(state, events) <= 1,
        phase_rank(state.phase) >= 2 ==> exports_decided(state, events) == 0,
        exports_decided(state, events) == 1 ==> phase_rank(run(state, events).phase) >= 2,
        phase_rank(run(state, events).phase) >= phase_rank(state.phase),
    decreases events.len(),
{
    if events.len() > 0 {
        let init = events.drop_last();
        lemma_export_begins_at_most_once(state, init);
        lemma_phases_only_advance(run(state, init), events.last());
        if decide(run(state, init), events.last()) is Export {
            lemma_export_ends_the_scan(run(state, init), events.last());
        }
    }
}

/// An export holds one partition for each year that the table holds.
pub proof fn lemma_one_partition_for_each_year(parts: Seq<PartitionView>, table: Table)
    requires
        is_export_of(parts, table),
    ensures
        years_held(table).finite(),
        parts.len() == years_held(table).len(),
{
    let years = parts.map_values(|part: PartitionView| part.data_year);
    assert(years.no_duplicates()) by {
        assert forall|i: int, j: int|
            0 <= i < years.len() && 0 <= j < years.len() && i != j implies years[i]
            != years[j] by {}
    }
    years.unique_seq_to_set();
    assert(years.to_set() =~= years_held(table)) by {
        assert forall|year: int| years.to_set().contains(year) implies years_held(table).contains(
            year,
        ) by {
            let p = choose|p: int| 0 <= p < years.len() && years[p] == year;
            let key: RowKey = (parts[p].data_year, parts[p].rows[0].cc_code);
        }
        assert forall|year: int| years_held(table).contains(year) implies years.to_set().contains(
            year,
        ) by {
            let key = choose|key: RowKey| table.dom().contains(key) && key.0 == year;
            let (p, a) = choose|p: int, a: int|
                0 <= p < parts.len() && 0 <= a < parts[p].rows.len() && parts[p].data_year
                    == key.0 && (#[trigger] parts[p].rows[a]).cc_code == key.1;
            assert(years[p] == year);
        }
    }
}

} // verus!
