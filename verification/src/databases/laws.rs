//! What an insert statement tells of the row that it was written for.

use vstd::prelude::*;
use crate::databases::duckdb_functions::{insert_statement, quoted, row_values, value_list};
use crate::numbers::{decimal, digits_of, is_digit, lemma_digits_of_stand_for};
use crate::parsers::population::PopulationRowView;

verus! {

/// Whether a text holds no single quote.
pub open spec fn quote_free(text: Seq<char>) -> bool {
    forall|i: int| 0 <= i < text.len() ==> text[i] != '\''
}

/// Whether none of the eight texts of a row holds a single quote.
pub open spec fn texts_are_quote_free(row: PopulationRowView) -> bool {
    &&& quote_free(row.yymm)
    &&& quote_free(row.cc_desc)
    &&& quote_free(row.rcode_code)
    &&& quote_free(row.rcode_desc)
    &&& quote_free(row.ccaatt_code)
    &&& quote_free(row.ccaatt_desc)
    &&& quote_free(row.ccaattmm_code)
    &&& quote_free(row.ccaattmm_desc)
}

/// A number written in base ten holds no single quote.
pub proof fn lemma_decimal_is_quote_free(n: int)
    ensures
        quote_free(decimal(n)),
{
    let magnitude: nat = if n < 0 {
        (-n) as nat
    } else {
        n as nat
    };
    lemma_digits_of_stand_for(magnitude);
    assert forall|i: int| 0 <= i < decimal(n).len() implies decimal(n)[i] != '\'' by {}
}

/// Different numbers are written differently.
pub proof fn lemma_decimal_is_one_to_one(a: int, b: int)
    requires
        decimal(a) == decimal(b),
    ensures
        a == b,
{
    let ma: nat = if a < 0 {
        (-a) as nat
    } else {
        a as nat
    };
    let mb: nat = if b < 0 {
        (-b) as nat
    } else {
        b as nat
    };
    lemma_digits_of_stand_for(ma);
    lemma_digits_of_stand_for(mb);
    assert(is_digit(digits_of(ma)[0]));
    assert(is_digit(digits_of(mb)[0]));
    if a < 0 && b < 0 {
        assert(decimal(a).drop_first() == digits_of(ma));
        assert(decimal(b).drop_first() == digits_of(mb));
    }
}

/// Two texts of which neither holds a quote are equal when they are equal in
/// quotes and after the same beginning: the quote that closes the one cannot
/// stand inside the other.
proof fn lemma_quoted_ends_tell_apart(a: Seq<char>, v: Seq<char>, b: Seq<char>, w: Seq<char>)
    requires
        quote_free(v),
        quote_free(w),
        a + quoted(v) == b + quoted(w),
    ensures
        v == w,
        a == b,
{
    let s = a + quoted(v);
    let t = b + quoted(w);
    let n = s.len() as int;
    if v.len() < w.len() {
        let p = n - v.len() - 2;
        assert(s[p] == quoted(v)[0]);
    }
    if w.len() < v.len() {
        let p = n - w.len() - 2;
        assert(t[p] == quoted(w)[0]);
    }
    assert(v =~= w) by {
        assert forall|i: int| 0 <= i < v.len() implies v[i] == w[i] by {
            assert(s[a.len() + 1 + i] == quoted(v)[i + 1]);
        }
    }
    assert(a =~= b) by {
        assert forall|i: int| 0 <= i < a.len() implies a[i] == b[i] by {
            assert(s[i] == a[i]);
        }
    }
}

/// Lists of as many values, none of which holds a quote, are written
/// differently when they differ.
pub proof fn lemma_value_lists_tell_apart(first: Seq<Seq<char>>, second: Seq<Seq<char>>)
    requires
        first.len() == second.len(),
        forall|i: int| 0 <= i < first.len() ==> quote_free(#[trigger] first[i]),
        forall|i: int| 0 <= i < second.len() ==> quote_free(#[trigger] second[i]),
        value_list(first) == value_list(second),
    ensures
        first == second,
    decreases first.len(),
{
    if first.len() == 1 {
        lemma_quoted_ends_tell_apart(Seq::empty(), first[0], Seq::empty(), second[0]);
    } else if first.len() >= 2 {
        let a = value_list(first.drop_last()) + seq![',', ' '];
        let b = value_list(second.drop_last()) + seq![',', ' '];
        lemma_quoted_ends_tell_apart(a, first.last(), b, second.last());
        assert(value_list(first.drop_last()) =~= a.take(a.len() - 2));
        assert(value_list(second.drop_last()) =~= b.take(b.len() - 2));
        assert forall|i: int| 0 <= i < first.drop_last().len() implies quote_free(
            #[trigger] first.drop_last()[i],
        ) by {}
        assert forall|i: int| 0 <= i < second.drop_last().len() implies quote_free(
            #[trigger] second.drop_last()[i],
        ) by {}
        lemma_value_lists_tell_apart(first.drop_last(), second.drop_last());
        assert(first =~= first.drop_last().push(first.last()));
    }
}

/// A list of values begins with its first value in quotes.
proof fn lemma_list_begins_with_its_first(values: Seq<Seq<char>>)
    requires
        values.len() >= 1,
    ensures
        value_list(values).len() >= quoted(values[0]).len(),
        value_list(values).take(quoted(values[0]).len() as int) == quoted(values[0]),
    decreases values.len(),
{
    if values.len() >= 2 {
        let init = values.drop_last();
        lemma_list_begins_with_its_first(init);
    }
}

/// An insert statement always tells the year of its row, whatever the texts
/// of the row hold: rows of different years are written differently.
pub proof fn lemma_statement_tells_the_year(
    first_year: int,
    first: PopulationRowView,
    second_year: int,
    second: PopulationRowView,
)
    requires
        insert_statement(first_year, first) == insert_statement(second_year, second),
    ensures
        first_year == second_year,
{
    let head = "INSERT INTO thai_population VALUES ("@;
    let v = row_values(first_year, first);
    let w = row_values(second_year, second);
    let x = value_list(v);
    let y = value_list(w);
    let s = insert_statement(first_year, first);
    assert(s.len() == head.len() + x.len() + 1);
    assert(x =~= y) by {
        assert forall|i: int| 0 <= i < x.len() implies x[i] == y[i] by {
            assert(s[head.len() + i] == x[i]);
        }
    }
    let d = decimal(first_year);
    let e = decimal(second_year);
    lemma_list_begins_with_its_first(v);
    lemma_list_begins_with_its_first(w);
    lemma_decimal_is_quote_free(first_year);
    lemma_decimal_is_quote_free(second_year);
    let p = quoted(d);
    let q = quoted(e);
    assert forall|i: int| 0 <= i < p.len() implies x[i] == p[i] by {}
    assert forall|i: int| 0 <= i < q.len() implies x[i] == q[i] by {}
    let m = d.len() as int;
    let n = e.len() as int;
    if m < n {
        assert(p[m + 1] == '\'');
    }
    if n < m {
        assert(q[n + 1] == '\'');
    }
    assert(d =~= e) by {
        assert forall|i: int| 0 <= i < d.len() implies d[i] == e[i] by {
            assert(p[i + 1] == d[i]);
        }
    }
    lemma_decimal_is_one_to_one(first_year, second_year);
}

/// Rows whose texts hold no single quote are told apart by their insert
/// statements: the statement gives back the year and every value of the row.
/// A text that holds a quote is written as it stands, so that a quote and a
/// comma inside one text read like the end of it; nothing is claimed of such
/// rows.
pub proof fn lemma_statements_tell_rows_apart(
    first_year: int,
    first: PopulationRowView,
    second_year: int,
    second: PopulationRowView,
)
    requires
        texts_are_quote_free(first),
        texts_are_quote_free(second),
        insert_statement(first_year, first) == insert_statement(second_year, second),
    ensures
        first_year == second_year,
        first == second,
{
    let head = "INSERT INTO thai_population VALUES ("@;
    let v = row_values(first_year, first);
    let w = row_values(second_year, second);
    let x = value_list(v);
    let y = value_list(w);
    let s = insert_statement(first_year, first);
    assert(s.len() == head.len() + x.len() + 1);
    assert(x =~= y) by {
        assert forall|i: int| 0 <= i < x.len() implies x[i] == y[i] by {
            assert(s[head.len() + i] == x[i]);
        }
    }
    lemma_decimal_is_quote_free(first_year);
    lemma_decimal_is_quote_free(first.cc_code);
    lemma_decimal_is_quote_free(first.male);
    lemma_decimal_is_quote_free(first.female);
    lemma_decimal_is_quote_free(first.total);
    lemma_decimal_is_quote_free(first.house);
    lemma_decimal_is_quote_free(second_year);
    lemma_decimal_is_quote_free(second.cc_code);
    lemma_decimal_is_quote_free(second.male);
    lemma_decimal_is_quote_free(second.female);
    lemma_decimal_is_quote_free(second.total);
    lemma_decimal_is_quote_free(second.house);
    lemma_value_lists_tell_apart(v, w);
    assert(v[0] == w[0] && v[2] == w[2] && v[10] == w[10] && v[11] == w[11] && v[12] == w[12]
        && v[13] == w[13]);
    lemma_decimal_is_one_to_one(first_year, second_year);
    lemma_decimal_is_one_to_one(first.cc_code, second.cc_code);
    lemma_decimal_is_one_to_one(first.male, second.male);
    lemma_decimal_is_one_to_one(first.female, second.female);
    lemma_decimal_is_one_to_one(first.total, second.total);
    lemma_decimal_is_one_to_one(first.house, second.house);
    assert(v[1] == w[1] && v[3] == w[3] && v[4] == w[4] && v[5] == w[5] && v[6] == w[6] && v[7]
        == w[7] && v[8] == w[8] && v[9] == w[9]);
}

} // verus!
