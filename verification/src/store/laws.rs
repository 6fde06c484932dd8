//! What holds of the store whatever is loaded: a key is never held twice,
//! the order of loads does not matter, and a table has one export only.

use vstd::prelude::*;
use crate::parsers::population::PopulationRowView;
use crate::store::{
    is_export_of, load_is_refused, table_after_load, DuplicatePolicy, PartitionView, RowKey, Table,
};

verus! {

/// A load as the model sees it: a key and the record to hold under it.
pub type Load = (RowKey, PopulationRowView);

/// The table after a run of loads, one after the other.
pub open spec fn table_after_loads(policy: DuplicatePolicy, table: Table, loads: Seq<Load>) -> Table
    decreases loads.len(),
{
    if loads.len() == 0 {
        table
    } else {
        table_after_load(
            policy,
            table_after_loads(policy, table, loads.drop_last()),
            loads.last().0,
            loads.last().1,
        )
    }
}

/// Whether no two loads of a run have the same key.
pub open spec fn distinct_keys(loads: Seq<Load>) -> bool {
    forall|i: int, j: int|
        0 <= i < j < loads.len() ==> (#[trigger] loads[i]).0 != (#[trigger] loads[j]).0
}

/// Whether a sequence of numbers ascends strictly.
pub open spec fn strictly_ascending(s: Seq<int>) -> bool {
    forall|i: int, j: int| 0 <= i < j < s.len() ==> s[i] < s[j]
}

/// Loading a key a second time never adds a row. Under `Reject` the second
/// load is refused and the table stays as the first load left it; under
/// `Replace` the second record is the one that is held. In both cases the
/// table holds the same keys after the second load as after the first.
pub proof fn lemma_second_load_adds_no_row(
    policy: DuplicatePolicy,
    table: Table,
    key: RowKey,
    first: PopulationRowView,
    second: PopulationRowView,
)
    ensures
        ({
            let once = table_after_load(policy, table, key, first);
            let twice = table_after_load(policy, once, key, second);
            &&& once.contains_key(key)
            &&& twice.dom() == once.dom()
            &&& policy == DuplicatePolicy::Reject ==> load_is_refused(policy, once, key) && twice
                == once
            &&& policy == DuplicatePolicy::Replace ==> twice == table.insert(key, second)
        }),
{
}

/// What a run of loads with distinct keys leaves under one key: the record
/// of the load that has this key, unless a record was there before and the
/// policy refuses; and what was there before, where no load has this key.
pub proof fn lemma_table_after_loads_at(
    policy: DuplicatePolicy,
    table: Table,
    loads: Seq<Load>,
    key: RowKey,
)
    requires
        distinct_keys(loads),
    ensures
        (forall|i: int| 0 <= i < loads.len() ==> (#[trigger] loads[i]).0 != key) ==> {
            &&& table_after_loads(policy, table, loads).contains_key(key) == table.contains_key(
                key,
            )
            &&& table_after_loads(policy, table, loads)[key] == table[key]
        },
        forall|i: int|
            0 <= i < loads.len() && (#[trigger] loads[i]).0 == key ==> {
                &&& table_after_loads(policy, table, loads).contains_key(key)
                &&& table_after_loads(policy, table, loads)[key] == if load_is_refused(
                    policy,
                    table,
                    key,
                ) {
                    table[key]
                } else {
                    loads[i].1
                }
            },
    decreases loads.len(),
{
    if loads.len() > 0 {
        let init = loads.drop_last();
        let last = loads.last();
        assert forall|i: int, j: int| 0 <= i < j < init.len() implies (#[trigger] init[i]).0 != (
        #[trigger] init[j]).0 by {}
        lemma_table_after_loads_at(policy, table, init, key);
        lemma_table_after_loads_at(policy, table, init, last.0);
        assert forall|i: int| 0 <= i < init.len() implies (#[trigger] init[i]).0 != last.0 by {}
        if forall|i: int| 0 <= i < loads.len() ==> (#[trigger] loads[i]).0 != key {
            assert forall|i: int| 0 <= i < init.len() implies (#[trigger] init[i]).0 != key by {}
        }
        assert forall|i: int| 0 <= i < loads.len() && (#[trigger] loads[i]).0 == key implies {
            &&& table_after_loads(policy, table, loads).contains_key(key)
            &&& table_after_loads(policy, table, loads)[key] == if load_is_refused(
                policy,
                table,
                key,
            ) {
                table[key]
            } else {
                loads[i].1
            }
        } by {
            if i < init.len() {
                assert(init[i] == loads[i]);
            }
        }
    }
}

/// Loads with distinct keys keep their keys distinct in whatever order they
/// are put.
pub proof fn lemma_keys_stay_distinct(first: Seq<Load>, second: Seq<Load>)
    requires
        distinct_keys(first),
        first.to_multiset() == second.to_multiset(),
    ensures
        distinct_keys(second),
{
    broadcast use vstd::seq_lib::group_to_multiset_ensures;

    assert(first.no_duplicates()) by {
        assert forall|i: int, j: int|
            0 <= i < first.len() && 0 <= j < first.len() && i != j implies first[i]
            != first[j] by {}
    }
    first.lemma_multiset_has_no_duplicates();
    second.lemma_multiset_has_no_duplicates_conv();
    assert forall|i: int, j: int| 0 <= i < j < second.len() implies (#[trigger] second[i]).0 != (
    #[trigger] second[j]).0 by {
        assert(second.to_multiset().count(second[i]) > 0);
        assert(second.to_multiset().count(second[j]) > 0);
    }
}

/// The order of loads with distinct keys does not matter: two runs that hold
/// the same loads, each once, leave the same table. So loads that are handed
/// to several workers leave what one worker would have left.
pub proof fn lemma_loads_in_any_order(
    policy: DuplicatePolicy,
    table: Table,
    first: Seq<Load>,
    second: Seq<Load>,
)
    requires
        distinct_keys(first),
        first.to_multiset() == second.to_multiset(),
    ensures
        table_after_loads(policy, table, first) == table_after_loads(policy, table, second),
{
    broadcast use vstd::seq_lib::group_to_multiset_ensures;

    lemma_keys_stay_distinct(first, second);

    let a = table_after_loads(policy, table, first);
    let b = table_after_loads(policy, table, second);
    assert forall|key: RowKey|
        #![trigger a.dom().contains(key)]
        #![trigger b.dom().contains(key)]
        a.dom().contains(key) == b.dom().contains(key) && (a.dom().contains(key) ==> a[key]
            == b[key]) by {
        lemma_table_after_loads_at(policy, table, first, key);
        lemma_table_after_loads_at(policy, table, second, key);
        if exists|i: int| 0 <= i < first.len() && (#[trigger] first[i]).0 == key {
            let i = choose|i: int| 0 <= i < first.len() && (#[trigger] first[i]).0 == key;
            assert(first.to_multiset().count(first[i]) > 0);
        } else if exists|j: int| 0 <= j < second.len() && (#[trigger] second[j]).0 == key {
            let j = choose|j: int| 0 <= j < second.len() && (#[trigger] second[j]).0 == key;
            assert(second.to_multiset().count(second[j]) > 0);
        }
    }
}

/// Loads of keys that are new and distinct all arrive: the table grows by
/// one row for each load, none is lost and none is held twice, and each
/// record is held under its key.
pub proof fn lemma_new_keys_all_arrive(policy: DuplicatePolicy, table: Table, loads: Seq<Load>)
    requires
        table.dom().finite(),
        distinct_keys(loads),
        forall|i: int| 0 <= i < loads.len() ==> !table.contains_key((#[trigger] loads[i]).0),
    ensures
        table_after_loads(policy, table, loads).dom().finite(),
        table_after_loads(policy, table, loads).dom().len() == table.dom().len() + loads.len(),
        forall|i: int|
            0 <= i < loads.len() ==> table_after_loads(policy, table, loads).contains_key(
                (#[trigger] loads[i]).0,
            ) && table_after_loads(policy, table, loads)[loads[i].0] == loads[i].1,
    decreases loads.len(),
{
    if loads.len() > 0 {
        let init = loads.drop_last();
        let last = loads.last();
        assert forall|i: int, j: int| 0 <= i < j < init.len() implies (#[trigger] init[i]).0 != (
        #[trigger] init[j]).0 by {}
        assert forall|i: int| 0 <= i < init.len() implies !table.contains_key(
            (#[trigger] init[i]).0,
        ) by {}
        lemma_new_keys_all_arrive(policy, table, init);
        lemma_table_after_loads_at(policy, table, init, last.0);
        assert forall|i: int| 0 <= i < init.len() implies (#[trigger] init[i]).0 != last.0 by {}
        let after = table_after_loads(policy, table, loads);
        assert forall|i: int| 0 <= i < loads.len() implies after.contains_key(
            (#[trigger] loads[i]).0,
        ) && after[loads[i].0] == loads[i].1 by {
            if i < init.len() {
                assert(init[i] == loads[i]);
            }
        }
    }
}

/// Two sequences that ascend strictly and hold the same numbers are equal.
pub proof fn lemma_ascending_is_unique(a: Seq<int>, b: Seq<int>)
    requires
        strictly_ascending(a),
        strictly_ascending(b),
        forall|v: int| a.contains(v) <==> b.contains(v),
    ensures
        a == b,
    decreases a.len(),
{
    if a.len() == 0 {
        if b.len() > 0 {
            assert(b.contains(b[0]));
        }
    } else {
        assert(a.contains(a[0]));
        assert(b.contains(b[0]));
        let ta = a.drop_first();
        let tb = b.drop_first();
        assert forall|v: int| ta.contains(v) <==> tb.contains(v) by {
            if ta.contains(v) {
                assert(a.contains(v));
                let m = choose|m: int| 0 <= m < b.len() && b[m] == v;
                assert(tb[m - 1] == v);
            }
            if tb.contains(v) {
                assert(b.contains(v));
                let m = choose|m: int| 0 <= m < a.len() && a[m] == v;
                assert(ta[m - 1] == v);
            }
        }
        assert forall|x: int, y: int| 0 <= x < y < ta.len() implies ta[x] < ta[y] by {}
        assert forall|x: int, y: int| 0 <= x < y < tb.len() implies tb[x] < tb[y] by {}
        lemma_ascending_is_unique(ta, tb);
        assert(a =~= seq![a[0]] + ta);
    }
}

/// A table has one export only. So an export that is run twice on a store
/// that did not change gives the same partitions, with the same records in
/// the same order.
pub proof fn lemma_export_is_unique(
    first: Seq<PartitionView>,
    second: Seq<PartitionView>,
    table: Table,
)
    requires
        is_export_of(first, table),
        is_export_of(second, table),
    ensures
        first == second,
{
    let years_a = first.map_values(|part: PartitionView| part.data_year);
    let years_b = second.map_values(|part: PartitionView| part.data_year);
    assert forall|v: int| years_a.contains(v) <==> years_b.contains(v) by {
        if years_a.contains(v) {
            let p = choose|p: int| 0 <= p < years_a.len() && years_a[p] == v;
            lemma_year_is_shared(first, second, table, p);
            let q = choose|q: int| 0 <= q < second.len() && second[q].data_year == v;
            assert(years_b[q] == v);
        }
        if years_b.contains(v) {
            let p = choose|p: int| 0 <= p < years_b.len() && years_b[p] == v;
            lemma_year_is_shared(second, first, table, p);
            let q = choose|q: int| 0 <= q < first.len() && first[q].data_year == v;
            assert(years_a[q] == v);
        }
    }
    assert(strictly_ascending(years_a));
    assert(strictly_ascending(years_b));
    lemma_ascending_is_unique(years_a, years_b);
    assert forall|p: int| 0 <= p < first.len() implies first[p] == second[p] by {
        assert(years_a[p] == years_b[p]);
        lemma_rows_are_shared(first, second, table, p);
    }
}

/// The year of every partition of one export is the year of a partition of
/// any other export of the same table.
proof fn lemma_year_is_shared(a: Seq<PartitionView>, b: Seq<PartitionView>, table: Table, p: int)
    requires
        is_export_of(a, table),
        is_export_of(b, table),
        0 <= p < a.len(),
    ensures
        exists|q: int| 0 <= q < b.len() && b[q].data_year == a[p].data_year,
{
    let part = a[p];
    let key = (part.data_year, part.rows[0].cc_code);
    let (q, x) = choose|q: int, x: int|
        0 <= q < b.len() && 0 <= x < b[q].rows.len() && b[q].data_year == key.0 && (
        #[trigger] b[q].rows[x]).cc_code == key.1;
}

/// Two exports of one table that agree on the year at `p` agree on the
/// partition at `p`.
proof fn lemma_rows_are_shared(a: Seq<PartitionView>, b: Seq<PartitionView>, table: Table, p: int)
    requires
        is_export_of(a, table),
        is_export_of(b, table),
        0 <= p < a.len(),
        p < b.len(),
        a[p].data_year == b[p].data_year,
    ensures
        a[p] == b[p],
{
    let codes_a = a[p].rows.map_values(|row: PopulationRowView| row.cc_code);
    let codes_b = b[p].rows.map_values(|row: PopulationRowView| row.cc_code);
    assert forall|c: int| codes_a.contains(c) <==> codes_b.contains(c) by {
        if codes_a.contains(c) {
            let x = choose|x: int| 0 <= x < codes_a.len() && codes_a[x] == c;
            lemma_code_is_shared(a, b, table, p, x);
            let y = choose|y: int| 0 <= y < b[p].rows.len() && b[p].rows[y].cc_code == c;
            assert(codes_b[y] == c);
        }
        if codes_b.contains(c) {
            let x = choose|x: int| 0 <= x < codes_b.len() && codes_b[x] == c;
            lemma_code_is_shared(b, a, table, p, x);
            let y = choose|y: int| 0 <= y < a[p].rows.len() && a[p].rows[y].cc_code == c;
            assert(codes_a[y] == c);
        }
    }
    assert(strictly_ascending(codes_a));
    assert(strictly_ascending(codes_b));
    lemma_ascending_is_unique(codes_a, codes_b);
    assert forall|x: int| 0 <= x < a[p].rows.len() implies a[p].rows[x] == b[p].rows[x] by {
        assert(codes_a[x] == codes_b[x]);
    }
    assert(a[p].rows =~= b[p].rows);
}

/// The area code of every record of the partition at `p` of one export is
/// the area code of a record of the partition at `p` of any other export of
/// the same table that holds the same year there.
proof fn lemma_code_is_shared(
    a: Seq<PartitionView>,
    b: Seq<PartitionView>,
    table: Table,
    p: int,
    x: int,
)
    requires
        is_export_of(a, table),
        is_export_of(b, table),
        0 <= p < a.len(),
        p < b.len(),
        a[p].data_year == b[p].data_year,
        0 <= x < a[p].rows.len(),
    ensures
        exists|y: int| 0 <= y < b[p].rows.len() && b[p].rows[y].cc_code == a[p].rows[x].cc_code,
{
    let key = (a[p].data_year, a[p].rows[x].cc_code);
    let (q, y) = choose|q: int, y: int|
        0 <= q < b.len() && 0 <= y < b[q].rows.len() && b[q].data_year == key.0 && (
        #[trigger] b[q].rows[y]).cc_code == key.1;
}

} // verus!
