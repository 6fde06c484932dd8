//! The staging store: one table of records, at most one for each year and
//! area, and its export as one partition per year.

pub mod laws;

use std::collections::BTreeMap;
use vstd::prelude::*;
use vstd::std_specs::cmp::OrdSpec;
use vstd::std_specs::iter::IteratorSpec;
use vstd::string::StringExecFns;
use crate::numbers::{decimal, to_decimal};
use crate::parsers::population::{PopulationRow, PopulationRowView};

verus! {

/// The key of a record in the store: the year it was fetched for, then its
/// area code.
pub type RowKey = (int, int);

/// The table that a store stands for: the record held for each key.
pub type Table = Map<RowKey, PopulationRowView>;

/// Whether a year and an area code are in the range of the store's keys.
spec fn is_key(key: RowKey) -> bool {
    i32::MIN <= key.0 <= i32::MAX && i32::MIN <= key.1 <= i32::MAX
}

/// Where a key stands among all keys: keys are ordered by year, and within a
/// year by area code.
spec fn slot_of(data_year: int, cc_code: int) -> int {
    (data_year + 0x8000_0000) * 0x1_0000_0000 + (cc_code + 0x8000_0000)
}

/// Keys stand in the order of their years, and within a year in the order of
/// their area codes; different keys stand at different places.
proof fn lemma_slots_keep_order(a: RowKey, b: RowKey)
    requires
        is_key(a),
        is_key(b),
    ensures
        0 <= slot_of(a.0, a.1) <= u64::MAX,
        slot_of(a.0, a.1) < slot_of(b.0, b.1) <==> (a.0 < b.0 || (a.0 == b.0 && a.1 < b.1)),
        slot_of(a.0, a.1) == slot_of(b.0, b.1) <==> a == b,
{
}

/// The place of a key, as the store counts it.
fn slot(data_year: i32, cc_code: i32) -> (at: u64)
    ensures
        at == slot_of(data_year as int, cc_code as int),
{
    let year: u64 = (data_year as i64 + 0x8000_0000) as u64;
    let code: u64 = (cc_code as i64 + 0x8000_0000) as u64;
    year * 0x1_0000_0000 + code
}

/// A row of the store: a record and the year it was fetched for.
struct StagedRow {
    data_year: i32,
    row: PopulationRow,
}

/// What the store does with a record whose key it holds already.
#[derive(Clone, Copy, Debug, PartialEq, Eq, Structural)]
pub enum DuplicatePolicy {
    /// The new record is refused and the old one stays.
    Reject,
    /// The new record takes the place of the old one.
    Replace,
}

/// Why a record was not loaded.
#[derive(Clone, Copy, Debug, PartialEq, Eq, Structural)]
pub enum LoadError {
    /// The store holds a record of this year and area already.
    DuplicateKey { data_year: i32, cc_code: i32 },
}

/// What a load error says in words.
pub open spec fn load_error_text(error: LoadError) -> Seq<char> {
    match error {
        LoadError::DuplicateKey { data_year, cc_code } => "Row of year "@ + decimal(
            data_year as int,
        ) + " and area "@ + decimal(cc_code as int) + " is loaded already"@,
    }
}

impl LoadError {
    /// The error in words.
    pub fn message(&self) -> (text: String)
        ensures
            text@ == load_error_text(*self),
    {
        match self {
            LoadError::DuplicateKey { data_year, cc_code } => {
                let mut text = String::from_str("Row of year ");
                text.append(to_decimal(*data_year as i64).as_str());
                text.append(" and area ");
                text.append(to_decimal(*cc_code as i64).as_str());
                text.append(" is loaded already");
                text
            },
        }
    }
}

/// Whether a load of `key` is refused: only under `Reject`, and only when the
/// key is held already.
pub open spec fn load_is_refused(policy: DuplicatePolicy, table: Table, key: RowKey) -> bool {
    policy == DuplicatePolicy::Reject && table.contains_key(key)
}

/// The table after a load of `row` under `key`: unchanged when the load is
/// refused, and else with `row` as the one record of `key`.
pub open spec fn table_after_load(
    policy: DuplicatePolicy,
    table: Table,
    key: RowKey,
    row: PopulationRowView,
) -> Table {
    if load_is_refused(policy, table, key) {
        table
    } else {
        table.insert(key, row)
    }
}

/// All records of one year, as they are written out together.
#[derive(Debug)]
pub struct Partition {
    pub data_year: i32,
    pub rows: Vec<PopulationRow>,
}

/// A `Partition` with its records as values of the model.
pub struct PartitionView {
    pub data_year: int,
    pub rows: Seq<PopulationRowView>,
}

impl View for Partition {
    type V = PartitionView;

    open spec fn view(&self) -> PartitionView {
        PartitionView {
            data_year: self.data_year as int,
            rows: self.rows@.map_values(|row: PopulationRow| row@),
        }
    }
}

/// The partitions of a list, as values of the model.
pub open spec fn partition_views(parts: Seq<Partition>) -> Seq<PartitionView> {
    parts.map_values(|part: Partition| part@)
}

/// Whether a partition holds records of the table only: at least one, in
/// ascending order of their area codes, each the table's record of the
/// partition's year and of its own area code.
pub open spec fn partition_is_of(part: PartitionView, table: Table) -> bool {
    &&& part.rows.len() > 0
    &&& forall|a: int, b: int|
        0 <= a < b < part.rows.len() ==> (#[trigger] part.rows[a]).cc_code < (
        #[trigger] part.rows[b]).cc_code
    &&& forall|a: int|
        0 <= a < part.rows.len() ==> table.contains_key(
            (part.data_year, (#[trigger] part.rows[a]).cc_code),
        ) && table[(part.data_year, part.rows[a].cc_code)] == part.rows[a]
}

/// Whether some partition of `key`'s year holds a record of `key`'s area.
pub open spec fn has_row(parts: Seq<PartitionView>, key: RowKey) -> bool {
    exists|p: int, a: int|
        0 <= p < parts.len() && 0 <= a < parts[p].rows.len() && parts[p].data_year == key.0 && (
        #[trigger] parts[p].rows[a]).cc_code == key.1
}

/// Whether `parts` is the export of `table`: one partition for each year that
/// the table holds, in ascending order of the years; in each the records of
/// that year, in ascending order of their area codes; and no record of the
/// table left out.
pub open spec fn is_export_of(parts: Seq<PartitionView>, table: Table) -> bool {
    &&& forall|p: int, q: int|
        0 <= p < q < parts.len() ==> (#[trigger] parts[p]).data_year < (
        #[trigger] parts[q]).data_year
    &&& forall|p: int| 0 <= p < parts.len() ==> partition_is_of(#[trigger] parts[p], table)
    &&& forall|key: RowKey| #[trigger] table.contains_key(key) ==> has_row(parts, key)
}

/// Places that a walk through the map meets one after the other ascend.
proof fn lemma_increasing_places(places: Seq<u64>)
    requires
        vstd::std_specs::btree::increasing_seq(places),
    ensures
        forall|i: int, j: int| 0 <= i < j < places.len() ==> places[i] < places[j],
{
    broadcast use vstd::std_specs::btree::group_btree_axioms;
    broadcast use vstd::laws_cmp::group_laws_cmp;

    assert forall|i: int, j: int| 0 <= i < j < places.len() implies places[i] < places[j] by {
        assert(places[i].cmp_spec(&places[j]) is Less);
    }
}

/// The staging store. It holds at most one record for each year and area,
/// whatever is loaded and in whatever order.
pub struct Store {
    rows: BTreeMap<u64, StagedRow>,
    policy: DuplicatePolicy,
}

impl View for Store {
    type V = Table;

    /// The table: the record held for each key.
    closed spec fn view(&self) -> Table {
        Map::new(
            |key: RowKey| is_key(key) && self.rows@.contains_key(slot_of(key.0, key.1) as u64),
            |key: RowKey| self.rows@[slot_of(key.0, key.1) as u64].row@,
        )
    }
}

impl Store {
    /// The store's invariant: every row stands at the place of its own key.
    /// Every store that `new` made has it, and every method keeps it.
    pub closed spec fn wf(&self) -> bool {
        forall|at: u64| #[trigger]
            self.rows@.contains_key(at) ==> at == slot_of(
                self.rows@[at].data_year as int,
                self.rows@[at].row.cc_code as int,
            )
    }

    /// The policy that the store was made with.
    pub closed spec fn policy_spec(&self) -> DuplicatePolicy {
        self.policy
    }

    /// An empty store.
    pub fn new(policy: DuplicatePolicy) -> (store: Store)
        ensures
            store.wf(),
            store@ == Map::<RowKey, PopulationRowView>::empty(),
            store.policy_spec() == policy,
    {
        Store { rows: BTreeMap::new(), policy }
    }

    /// The policy that the store was made with.
    pub fn policy(&self) -> (policy: DuplicatePolicy)
        ensures
            policy == self.policy_spec(),
    {
        self.policy
    }

    /// Loads one record under the key of its year and area code. A key that
    /// is new is always taken. A key that is held already is refused under
    /// `Reject`, and the store stays as it was; under `Replace` the new record
    /// takes the place of the old one. Either way no key is ever held twice.
    pub fn load(&mut self, data_year: i32, row: PopulationRow) -> (r: Result<(), LoadError>)
        requires
            old(self).wf(),
        ensures
            final(self).wf(),
            final(self).policy_spec() == old(self).policy_spec(),
            final(self)@ == table_after_load(
                old(self).policy_spec(),
                old(self)@,
                (data_year as int, row.cc_code as int),
                row@,
            ),
            r is Err <==> load_is_refused(
                old(self).policy_spec(),
                old(self)@,
                (data_year as int, row.cc_code as int),
            ),
            r is Err ==> r == Err::<(), LoadError>(
                LoadError::DuplicateKey { data_year, cc_code: row.cc_code },
            ),
    {
        broadcast use vstd::std_specs::btree::group_btree_axioms;

        let cc_code = row.cc_code;
        let at = slot(data_year, cc_code);
        let ghost key: RowKey = (data_year as int, cc_code as int);
        if self.policy == DuplicatePolicy::Reject && self.rows.contains_key(&at) {
            return Err(LoadError::DuplicateKey { data_year, cc_code });
        }
        self.rows.insert(at, StagedRow { data_year, row });
        proof {
            assert forall|other: RowKey| is_key(other) implies (slot_of(other.0, other.1) == at
                <==> other == key) by {
                lemma_slots_keep_order(other, key);
            }
        }
        Ok(())
    }

    /// Empties the store.
    pub fn reset(&mut self)
        ensures
            final(self).wf(),
            final(self).policy_spec() == old(self).policy_spec(),
            final(self)@ == Map::<RowKey, PopulationRowView>::empty(),
    {
        self.rows.clear();
    }

    /// Whether the store holds a record of this year and area.
    pub fn contains_key(&self, data_year: i32, cc_code: i32) -> (held: bool)
        ensures
            held == self@.contains_key((data_year as int, cc_code as int)),
    {
        broadcast use vstd::std_specs::btree::group_btree_axioms;

        let at = slot(data_year, cc_code);
        self.rows.contains_key(&at)
    }

    /// The record of this year and area, if the store holds one.
    pub fn get(&self, data_year: i32, cc_code: i32) -> (found: Option<&PopulationRow>)
        ensures
            match found {
                Some(row) => self@.contains_key((data_year as int, cc_code as int)) && self@[(
                    data_year as int,
                    cc_code as int,
                )] == row@,
                None => !self@.contains_key((data_year as int, cc_code as int)),
            },
    {
        broadcast use vstd::std_specs::btree::group_btree_axioms;

        let at = slot(data_year, cc_code);
        match self.rows.get(&at) {
            Some(staged) => Some(&staged.row),
            None => None,
        }
    }

    /// The number of records that the store holds.
    pub fn len(&self) -> (count: usize)
        requires
            self.wf(),
        ensures
            self@.dom().finite(),
            count == self@.dom().len(),
    {
        broadcast use vstd::std_specs::btree::group_btree_axioms;

        proof {
            self.lemma_table_counts_rows();
        }
        self.rows.len()
    }

    /// A store holds finitely many records: as many as it has rows.
    proof fn lemma_table_counts_rows(&self)
        requires
            self.wf(),
        ensures
            self@.dom().finite(),
            self@.dom().len() == self.rows@.dom().len(),
    {
        broadcast use vstd::std_specs::btree::group_btree_axioms;

        let rows = self.rows@;
        let key_at = |at: u64| (rows[at].data_year as int, rows[at].row.cc_code as int);
        assert(vstd::relations::injective_on(key_at, rows.dom())) by {
            assert forall|x: u64, y: u64|
                rows.dom().contains(x) && rows.dom().contains(y) && #[trigger] key_at(x)
                    == #[trigger] key_at(y) implies x == y by {}
        }
        assert(rows.dom().map(key_at) =~= self@.dom()) by {
            assert forall|key: RowKey| self@.dom().contains(key) implies rows.dom().map(
                key_at,
            ).contains(key) by {
                let at = slot_of(key.0, key.1) as u64;
                lemma_slots_keep_order(key, key_at(at));
            }
            assert forall|key: RowKey|
                rows.dom().map(key_at).contains(key) implies self@.dom().contains(key) by {}
        }
        vstd::set_lib::lemma_map_size(rows.dom(), self@.dom(), key_at);
    }

    /// A store holds finitely many records.
    pub proof fn lemma_table_is_finite(&self)
        requires
            self.wf(),
        ensures
            self@.dom().finite(),
    {
        self.lemma_table_counts_rows();
    }

    /// The rows in the order of their keys: every record of the table once,
    /// by year and within a year by area code.
    fn ordered_rows(&self) -> (rows: Vec<&StagedRow>)
        requires
            self.wf(),
        ensures
            forall|j: int|
                0 <= j < rows@.len() ==> self@.contains_key(
                    ((#[trigger] rows@[j]).data_year as int, rows@[j].row.cc_code as int),
                ) && self@[(rows@[j].data_year as int, rows@[j].row.cc_code as int)]
                    == rows@[j].row@,
            forall|i: int, j: int|
                0 <= i < j < rows@.len() ==> (#[trigger] rows@[i]).data_year < (
                #[trigger] rows@[j]).data_year || (rows@[i].data_year == rows@[j].data_year
                    && rows@[i].row.cc_code < rows@[j].row.cc_code),
            forall|key: RowKey|
                self@.contains_key(key) ==> exists|j: int|
                    0 <= j < rows@.len() && (#[trigger] rows@[j]).data_year == key.0
                        && rows@[j].row.cc_code == key.1,
    {
        let placed = self.rows_in_order();
        let mut rows: Vec<&StagedRow> = Vec::new();
        let mut i: usize = 0;
        while i < placed.len()
            invariant
                i <= placed.len(),
                rows@.len() == i,
                forall|j: int| 0 <= j < i ==> #[trigger] rows@[j] == placed@[j].1,
            decreases placed.len() - i,
        {
            rows.push(placed[i].1);
            i += 1;
        }
        proof {
            assert forall|j: int| 0 <= j < rows@.len() implies placed@[j].0 == slot_of(
                (#[trigger] rows@[j]).data_year as int,
                rows@[j].row.cc_code as int,
            ) by {}
            assert forall|i: int, j: int| 0 <= i < j < rows@.len() implies (
            #[trigger] rows@[i]).data_year < (#[trigger] rows@[j]).data_year || (rows@[i].data_year
                == rows@[j].data_year && rows@[i].row.cc_code < rows@[j].row.cc_code) by {
                lemma_slots_keep_order(
                    (rows@[i].data_year as int, rows@[i].row.cc_code as int),
                    (rows@[j].data_year as int, rows@[j].row.cc_code as int),
                );
            }
            assert forall|key: RowKey| self@.contains_key(key) implies exists|j: int|
                0 <= j < rows@.len() && (#[trigger] rows@[j]).data_year == key.0
                    && rows@[j].row.cc_code == key.1 by {
                let at = slot_of(key.0, key.1) as u64;
                let j = choose|j: int| 0 <= j < placed@.len() && (#[trigger] placed@[j]).0 == at;
                lemma_slots_keep_order(
                    key,
                    (rows@[j].data_year as int, rows@[j].row.cc_code as int),
                );
            }
        }
        rows
    }

    /// Writes the store out as partitions: one for each year that it holds,
    /// in ascending order of the years, with the records of the year in
    /// ascending order of their area codes. The store is only read, so what
    /// comes out depends on the table alone.
    #[verifier::loop_isolation(false)]
    pub fn export_all(&self) -> (parts: Vec<Partition>)
        requires
            self.wf(),
        ensures
            is_export_of(partition_views(parts@), self@),
    {
        let ordered = self.ordered_rows();
        let n = ordered.len();
        let ghost table = self@;
        let mut parts: Vec<Partition> = Vec::new();
        let mut i: usize = 0;
        while i < n
            invariant
                i <= n,
                forall|p: int, q: int|
                    0 <= p < q < parts@.len() ==> (#[trigger] parts@[p]).data_year < (
                    #[trigger] parts@[q]).data_year,
                forall|p: int|
                    0 <= p < parts@.len() ==> partition_is_of((#[trigger] parts@[p])@, table),
                forall|p: int, j: int|
                    0 <= p < parts@.len() && i <= j < n ==> (#[trigger] parts@[p]).data_year < (
                    #[trigger] ordered@[j]).data_year,
                forall|j: int|
                    0 <= j < i ==> has_row(
                        partition_views(parts@),
                        (
                            (#[trigger] ordered@[j]).data_year as int,
                            ordered@[j].row.cc_code as int,
                        ),
                    ),
            decreases n - i,
        {
            let year = ordered[i].data_year;
            let start = i;
            let mut rows: Vec<PopulationRow> = Vec::new();
            while i < n && ordered[i].data_year == year
                invariant
                    start <= i <= n,
                    start < n,
                    ordered@[start as int].data_year == year,
                    rows@.len() == i - start,
                    forall|a: int|
                        0 <= a < rows@.len() ==> (#[trigger] rows@[a])@ == ordered@[start
                            + a].row@,
                    forall|j: int| start <= j < i ==> (#[trigger] ordered@[j]).data_year == year,
                decreases n - i,
            {
                rows.push(ordered[i].row.clone());
                i += 1;
            }
            let part = Partition { data_year: year, rows };
            proof {
                let before = partition_views(parts@);
                let after = partition_views(parts@.push(part));
                assert forall|a: int| 0 <= a < part@.rows.len() implies (#[trigger] part@.rows[a])
                    == ordered@[start + a].row@ by {}
                assert(partition_is_of(part@, table)) by {
                    assert forall|a: int, b: int| 0 <= a < b < part@.rows.len() implies (
                    #[trigger] part@.rows[a]).cc_code < (#[trigger] part@.rows[b]).cc_code by {}
                    assert forall|a: int| 0 <= a < part@.rows.len() implies table.contains_key(
                        (part@.data_year, (#[trigger] part@.rows[a]).cc_code),
                    ) && table[(part@.data_year, part@.rows[a].cc_code)] == part@.rows[a] by {}
                }
                assert forall|j: int| i <= j < n implies year < (
                #[trigger] ordered@[j]).data_year by {}
                assert forall|j: int| 0 <= j < i implies has_row(
                    after,
                    ((#[trigger] ordered@[j]).data_year as int, ordered@[j].row.cc_code as int),
                ) by {
                    let key = (ordered@[j].data_year as int, ordered@[j].row.cc_code as int);
                    if j < start {
                        let (p, a) = choose|p: int, a: int|
                            0 <= p < before.len() && 0 <= a < before[p].rows.len()
                                && before[p].data_year == key.0 && (
                            #[trigger] before[p].rows[a]).cc_code == key.1;
                        assert(after[p] == before[p]);
                    } else {
                        let p = before.len() as int;
                        assert(after[p].rows[j - start].cc_code == key.1);
                    }
                }
            }
            parts.push(part);
        }
        proof {
            let views = partition_views(parts@);
            assert forall|p: int| 0 <= p < views.len() implies partition_is_of(
                #[trigger] views[p],
                table,
            ) by {}
            assert forall|p: int, q: int| 0 <= p < q < views.len() implies (
            #[trigger] views[p]).data_year < (#[trigger] views[q]).data_year by {}
            assert forall|key: RowKey| #[trigger] table.contains_key(key) implies has_row(
                views,
                key,
            ) by {
                let j = choose|j: int|
                    0 <= j < ordered@.len() && (#[trigger] ordered@[j]).data_year == key.0
                        && ordered@[j].row.cc_code == key.1;
                assert(has_row(
                    views,
                    (ordered@[j].data_year as int, ordered@[j].row.cc_code as int),
                ));
            }
        }
        parts
    }

    /// The rows with their places, in ascending order of the places.
    fn rows_in_order(&self) -> (rows: Vec<(u64, &StagedRow)>)
        ensures
            rows@.len() == self.rows@.dom().len(),
            forall|j: int|
                0 <= j < rows@.len() ==> self.rows@.contains_key((#[trigger] rows@[j]).0)
                    && self.rows@[rows@[j].0] == *rows@[j].1,
            forall|i: int, j: int| 0 <= i < j < rows@.len() ==> rows@[i].0 < rows@[j].0,
            forall|at: u64|
                self.rows@.contains_key(at) ==> exists|j: int|
                    0 <= j < rows@.len() && (#[trigger] rows@[j]).0 == at,
    {
        broadcast use vstd::std_specs::btree::group_btree_axioms;

        let mut out: Vec<(u64, &StagedRow)> = Vec::new();
        let iter = self.rows.iter();
        for entry in it: iter
            invariant
                it.seq() == iter.remaining(),
                out@.len() == it.index(),
                forall|j: int|
                    0 <= j < out@.len() ==> (#[trigger] out@[j]).0 == *it.seq()[j].0 && out@[j].1
                        == it.seq()[j].1,
        {
            let (at, row) = entry;
            out.push((*at, row));
        }
        proof {
            let walk = iter.remaining();
            let places = walk.map_values(|kv: (&u64, &StagedRow)| *kv.0);
            lemma_increasing_places(places);
            assert forall|i: int, j: int| 0 <= i < j < out@.len() implies out@[i].0 < out@[j].0 by {
                assert(places[i] == out@[i].0);
                assert(places[j] == out@[j].0);
            }
            assert forall|at: u64| self.rows@.contains_key(at) implies exists|j: int|
                0 <= j < out@.len() && (#[trigger] out@[j]).0 == at by {
                let j = choose|j: int| 0 <= j < walk.len() && walk[j] == (&at, &self.rows@[at]);
                assert(out@[j].0 == at);
            }
        }
        out
    }
}

} // verus!
