//! Sparse matrices with one value per place, in row-major order.

use crate::linalg::scalar::sum;
use crate::linalg::scalar::Scalar;
use crate::linalg::sparse::{triplets_within, values_at};
use crate::linalg::sparse::CooMatrix;
use vstd::prelude::*;

verus! {

/// Place `(r, c)` comes before place `(s, d)` in row-major order.
pub open spec fn before_in_rows(r: usize, c: usize, s: usize, d: usize) -> bool {
    r < s || (r == s && c < d)
}

/// The entries ascend strictly in row-major order, so no place is listed twice.
pub open spec fn row_major<T>(entries: Seq<(usize, usize, T)>) -> bool {
    forall|i: int, j: int|
        0 <= i < j < entries.len() ==> before_in_rows(
            (#[trigger] entries[i]).0,
            entries[i].1,
            (#[trigger] entries[j]).0,
            entries[j].1,
        )
}

/// What a list of values at one place is combined to: nothing, or their sum.
pub open spec fn combined<T: Scalar>(values: Seq<T>) -> Seq<T> {
    if values.len() == 0 {
        Seq::empty()
    } else {
        seq![sum(values)]
    }
}

/// `entries` lists in row-major order, for each place at which `triplets` lists anything,
/// the sum of what it lists there.
pub open spec fn compresses<T: Scalar>(
    entries: Seq<(usize, usize, T)>,
    triplets: Seq<(usize, usize, T)>,
) -> bool {
    &&& row_major(entries)
    &&& forall|r: int, c: int| #[trigger]
        values_at(entries, r, c) == combined(values_at(triplets, r, c))
}

/// The one list that compresses `triplets`.
pub open spec fn compressed<T: Scalar>(triplets: Seq<(usize, usize, T)>) -> Seq<
    (usize, usize, T),
> {
    choose|entries: Seq<(usize, usize, T)>| compresses(entries, triplets)
}

proof fn lemma_listed_value<T>(entries: Seq<(usize, usize, T)>, i: int)
    requires
        row_major(entries),
        0 <= i < entries.len(),
    ensures
        values_at(entries, entries[i].0 as int, entries[i].1 as int) == seq![entries[i].2],
    decreases entries.len(),
{
    let front = entries.drop_last();
    let r = entries[i].0 as int;
    let c = entries[i].1 as int;
    lemma_row_major_front(entries);
    if i == entries.len() - 1 {
        assert forall|j: int| 0 <= j < front.len() implies (#[trigger] front[j]).0 != r
            || front[j].1 != c by {
            assert(front[j] == entries[j]);
            assert(before_in_rows(entries[j].0, entries[j].1, entries[i].0, entries[i].1));
        }
        lemma_no_value(front, r, c);
        assert(values_at(entries, r, c) =~= seq![entries[i].2]);
    } else {
        lemma_listed_value(front, i);
        assert(front[i] == entries[i]);
        let last = entries[entries.len() - 1];
        assert(before_in_rows(entries[i].0, entries[i].1, last.0, last.1));
    }
}

proof fn lemma_no_value<T>(entries: Seq<(usize, usize, T)>, r: int, c: int)
    requires
        forall|j: int|
            0 <= j < entries.len() ==> (#[trigger] entries[j]).0 != r || entries[j].1 != c,
    ensures
        values_at(entries, r, c) == Seq::<T>::empty(),
    decreases entries.len(),
{
    if entries.len() > 0 {
        let front = entries.drop_last();
        assert forall|j: int| 0 <= j < front.len() implies (#[trigger] front[j]).0 != r
            || front[j].1 != c by {
            assert(front[j] == entries[j]);
        }
        lemma_no_value(front, r, c);
        let last = entries[entries.len() - 1];
        assert(last.0 != r || last.1 != c);
    }
}

/// A listed value has a place in the list.
pub proof fn value_has_place<T>(entries: Seq<(usize, usize, T)>, r: int, c: int) -> (i: int)
    requires
        values_at(entries, r, c).len() > 0,
    ensures
        0 <= i < entries.len(),
        entries[i].0 == r,
        entries[i].1 == c,
    decreases entries.len(),
{
    let last = entries.last();
    if last.0 == r && last.1 == c {
        entries.len() - 1
    } else {
        value_has_place(entries.drop_last(), r, c)
    }
}

proof fn lemma_row_major_front<T>(entries: Seq<(usize, usize, T)>)
    requires
        row_major(entries),
        entries.len() > 0,
    ensures
        row_major(entries.drop_last()),
{
    let front = entries.drop_last();
    assert forall|i: int, j: int| 0 <= i < j < front.len() implies before_in_rows(
        (#[trigger] front[i]).0,
        front[i].1,
        (#[trigger] front[j]).0,
        front[j].1,
    ) by {
        assert(front[i] == entries[i] && front[j] == entries[j]);
    }
}

/// Two row-major lists with the same values at every place are the same.
pub proof fn row_major_unique<T>(a: Seq<(usize, usize, T)>, b: Seq<(usize, usize, T)>)
    requires
        row_major(a),
        row_major(b),
        forall|r: int, c: int| #[trigger] values_at(a, r, c) == values_at(b, r, c),
    ensures
        a == b,
    decreases a.len(),
{
    if a.len() == 0 {
        if b.len() > 0 {
            lemma_listed_value(b, 0);
            assert(values_at(a, b[0].0 as int, b[0].1 as int).len() == 0);
        }
        assert(a =~= b);
    } else {
        let x = a.last();
        lemma_listed_value(a, a.len() - 1);
        assert(values_at(b, x.0 as int, x.1 as int) == seq![x.2]);
        let i = value_has_place(b, x.0 as int, x.1 as int);
        let y = b.last();
        lemma_listed_value(b, b.len() - 1);
        assert(values_at(a, y.0 as int, y.1 as int) == seq![y.2]);
        let j = value_has_place(a, y.0 as int, y.1 as int);
        if i < b.len() - 1 {
            assert(before_in_rows(b[i].0, b[i].1, b[b.len() - 1].0, b[b.len() - 1].1));
        }
        if j < a.len() - 1 {
            assert(before_in_rows(a[j].0, a[j].1, a[a.len() - 1].0, a[a.len() - 1].1));
        }
        assert(x.0 == y.0 && x.1 == y.1);
        assert(seq![x.2][0] == seq![y.2][0]);
        assert(x == y);
        let fa = a.drop_last();
        let fb = b.drop_last();
        lemma_row_major_front(a);
        lemma_row_major_front(b);
        assert forall|r: int, c: int| #[trigger] values_at(fa, r, c) == values_at(fb, r, c) by {
            assert(values_at(a, r, c) == values_at(b, r, c));
            if x.0 == r && x.1 == c {
                assert(values_at(fa, r, c).push(x.2).drop_last() =~= values_at(fa, r, c));
                assert(values_at(fb, r, c).push(x.2).drop_last() =~= values_at(fb, r, c));
            }
        }
        row_major_unique(fa, fb);
        assert(a =~= fa.push(x));
        assert(b =~= fb.push(x));
    }
}

/// Any list that compresses `triplets` is the compressed list.
pub proof fn compressed_is<T: Scalar>(
    entries: Seq<(usize, usize, T)>,
    triplets: Seq<(usize, usize, T)>,
)
    requires
        compresses(entries, triplets),
    ensures
        compressed(triplets) == entries,
{
    let chosen = compressed(triplets);
    assert(compresses(chosen, triplets));
    assert forall|r: int, c: int| #[trigger] values_at(chosen, r, c) == values_at(
        entries,
        r,
        c,
    ) by {
        assert(values_at(entries, r, c) == combined(values_at(triplets, r, c)));
    }
    row_major_unique(chosen, entries);
}

/// A row-major list is its own compressed list.
pub proof fn compressed_row_major<T: Scalar>(entries: Seq<(usize, usize, T)>)
    requires
        row_major(entries),
    ensures
        compressed(entries) == entries,
{
    assert forall|r: int, c: int| #[trigger] values_at(entries, r, c) == combined(
        values_at(entries, r, c),
    ) by {
        if values_at(entries, r, c).len() > 0 {
            let i = value_has_place(entries, r, c);
            lemma_listed_value(entries, i);
            assert(combined(values_at(entries, r, c)) =~= values_at(entries, r, c));
        } else {
            assert(combined(values_at(entries, r, c)) =~= values_at(entries, r, c));
        }
    }
    compressed_is(entries, entries);
}

/// A sparse matrix with one value per place, in row-major order.
#[derive(Debug, Clone, PartialEq)]
pub struct CsrMatrix<T> {
    nrows: usize,
    ncols: usize,
    entries: Vec<(usize, usize, T)>,
}

/// The columns of a row ascend strictly.
pub open spec fn ascending<T>(row: Seq<(usize, T)>) -> bool {
    forall|i: int, j: int| 0 <= i < j < row.len() ==> (#[trigger] row[i]).0 < (#[trigger] row[j]).0
}

/// The values that a row lists in column `c`.
pub open spec fn row_values<T>(row: Seq<(usize, T)>, c: int) -> Seq<T>
    decreases row.len(),
{
    if row.len() == 0 {
        Seq::empty()
    } else {
        let before = row_values(row.drop_last(), c);
        if row.last().0 == c {
            before.push(row.last().1)
        } else {
            before
        }
    }
}

proof fn lemma_row_values_none<T>(row: Seq<(usize, T)>, c: int)
    requires
        forall|i: int| 0 <= i < row.len() ==> (#[trigger] row[i]).0 != c,
    ensures
        row_values(row, c) == Seq::<T>::empty(),
    decreases row.len(),
{
    if row.len() > 0 {
        assert(row[row.len() - 1].0 != c);
        assert forall|i: int| 0 <= i < row.drop_last().len() implies (
        #[trigger] row.drop_last()[i]).0 != c by {
            assert(row.drop_last()[i] == row[i]);
        }
        lemma_row_values_none(row.drop_last(), c);
    }
}

proof fn lemma_row_values_one<T>(row: Seq<(usize, T)>, at: int)
    requires
        ascending(row),
        0 <= at < row.len(),
    ensures
        row_values(row, row[at].0 as int) == seq![row[at].1],
    decreases row.len(),
{
    let c = row[at].0 as int;
    let front = row.drop_last();
    assert forall|i: int, j: int| 0 <= i < j < front.len() implies (#[trigger] front[i]).0 < (
    #[trigger] front[j]).0 by {
        assert(front[i] == row[i] && front[j] == row[j]);
    }
    if at == row.len() - 1 {
        assert forall|i: int| 0 <= i < front.len() implies (#[trigger] front[i]).0 != c by {
            assert(front[i] == row[i]);
        }
        lemma_row_values_none(front, c);
        assert(row_values(row, c) =~= seq![row[at].1]);
    } else {
        lemma_row_values_one(front, at);
        assert(front[at] == row[at]);
        assert(row[row.len() - 1].0 != c);
    }
}

/// Adds `v` in column `c` of a row.
fn add_to_row<T: Scalar>(row: &mut Vec<(usize, T)>, c: usize, v: T)
    requires
        ascending(old(row)@),
    ensures
        ascending(final(row)@),
        forall|d: int|
            d != c ==> #[trigger] row_values(final(row)@, d) == row_values(old(row)@, d),
        row_values(final(row)@, c as int) == (if row_values(old(row)@, c as int).len() == 0 {
            seq![v]
        } else {
            seq![row_values(old(row)@, c as int)[0].plus_spec(v)]
        }),
        forall|i: int|
            0 <= i < final(row)@.len() ==> (#[trigger] final(row)@[i]).0 == c || exists|j: int|
                0 <= j < old(row)@.len() && (#[trigger] old(row)@[j]).0 == final(row)@[i].0,
{
    let ghost before = row@;
    let mut at: usize = 0;
    while at < row.len() && row[at].0 < c
        invariant
            at <= row@.len(),
            row@ == before,
            forall|i: int| 0 <= i < at ==> (#[trigger] row@[i]).0 < c,
        decreases row@.len() - at,
    {
        at = at + 1;
    }
    if at < row.len() && row[at].0 == c {
        let combined: T = row[at].1.plus(v);
        row[at] = (c, combined);
        proof {
            assert(row@ =~= before.update(at as int, (c, combined)));
            lemma_row_values_one(before, at as int);
            assert(ascending(row@)) by {
                assert forall|i: int, j: int| 0 <= i < j < row@.len() implies (
                #[trigger] row@[i]).0 < (#[trigger] row@[j]).0 by {
                    assert(before[i].0 == row@[i].0 && before[j].0 == row@[j].0);
                    assert(before[i].0 < before[j].0);
                }
            }
            lemma_row_values_one(row@, at as int);
            assert forall|d: int| d != c implies #[trigger] row_values(row@, d) == row_values(
                before,
                d,
            ) by {
                lemma_row_values_update(before, at as int, combined, d);
            }
            assert forall|i: int| 0 <= i < row@.len() implies (#[trigger] row@[i]).0 == c
                || exists|j: int|
                0 <= j < before.len() && (#[trigger] before[j]).0 == row@[i].0 by {
                assert(before[i].0 == row@[i].0);
            }
        }
    } else {
        row.insert(at, (c, v));
        proof {
            assert(row@ =~= before.insert(at as int, (c, v)));
            assert forall|i: int, j: int| 0 <= i < j < row@.len() implies (#[trigger] row@[i]).0
                < (#[trigger] row@[j]).0 by {
                let a = if i < at {
                    i
                } else {
                    i - 1
                };
                let b = if j < at {
                    j
                } else {
                    j - 1
                };
                if i != at && j != at {
                    assert(row@[i] == before[a] && row@[j] == before[b]);
                } else if i == at {
                    assert(row@[j] == before[b]);
                    assert(before[at as int].0 > c);
                    if b > at {
                        assert(before[at as int].0 < before[b].0);
                    }
                } else {
                    assert(row@[i] == before[a]);
                }
            }
            assert forall|i: int| 0 <= i < before.len() implies (#[trigger] before[i]).0 != c by {
                if i >= at {
                    assert(before[at as int].0 > c);
                    if i > at {
                        assert(before[at as int].0 < before[i].0);
                    }
                }
            }
            lemma_row_values_none(before, c as int);
            assert(row@[at as int] == (c, v));
            lemma_row_values_one(row@, at as int);
            assert forall|d: int| d != c implies #[trigger] row_values(row@, d) == row_values(
                before,
                d,
            ) by {
                lemma_row_values_insert(before, at as int, (c, v), d);
            }
            assert forall|i: int| 0 <= i < row@.len() implies (#[trigger] row@[i]).0 == c
                || exists|j: int|
                0 <= j < before.len() && (#[trigger] before[j]).0 == row@[i].0 by {
                if i < at {
                    assert(before[i].0 == row@[i].0);
                } else if i > at {
                    assert(before[i - 1].0 == row@[i].0);
                }
            }
        }
    }
}

proof fn lemma_row_values_update<T>(row: Seq<(usize, T)>, at: int, v: T, d: int)
    requires
        0 <= at < row.len(),
        row[at].0 != d,
    ensures
        row_values(row.update(at, (row[at].0, v)), d) == row_values(row, d),
    decreases row.len(),
{
    let new = row.update(at, (row[at].0, v));
    if at == row.len() - 1 {
        assert(new.drop_last() =~= row.drop_last());
    } else {
        lemma_row_values_update(row.drop_last(), at, v, d);
        assert(new.drop_last() =~= row.drop_last().update(at, (row[at].0, v)));
    }
}

proof fn lemma_row_values_insert<T>(row: Seq<(usize, T)>, at: int, item: (usize, T), d: int)
    requires
        0 <= at <= row.len(),
        item.0 != d,
    ensures
        row_values(row.insert(at, item), d) == row_values(row, d),
    decreases row.len(),
{
    let new = row.insert(at, item);
    if at == row.len() {
        assert(new.drop_last() =~= row);
    } else {
        lemma_row_values_insert(row.drop_last(), at, item, d);
        assert(new.drop_last() =~= row.drop_last().insert(at, item));
        assert(new.last() == row.last());
    }
}

/// Values beyond the shape of a matrix: there are none.
pub proof fn values_at_outside<T>(
    triplets: Seq<(usize, usize, T)>,
    nrows: int,
    ncols: int,
    r: int,
    c: int,
)
    requires
        triplets_within(triplets, nrows, ncols),
        r < 0 || r >= nrows || c < 0 || c >= ncols,
    ensures
        values_at(triplets, r, c) == Seq::<T>::empty(),
    decreases triplets.len(),
{
    if triplets.len() > 0 {
        let front = triplets.drop_last();
        assert forall|i: int| 0 <= i < front.len() implies (#[trigger] front[i]).0 < nrows
            && front[i].1 < ncols by {
            assert(front[i] == triplets[i]);
        }
        values_at_outside(front, nrows, ncols, r, c);
        let last = triplets[triplets.len() - 1];
        assert(last.0 < nrows && last.1 < ncols);
    }
}

/// The sums of the values at the places before `(r, c)`, in a matrix with `ncols` columns.
spec fn sums_before<T: Scalar>(
    triplets: Seq<(usize, usize, T)>,
    ncols: nat,
    r: nat,
    c: nat,
) -> Seq<(usize, usize, T)>
    decreases r, c,
{
    if c == 0 {
        if r == 0 {
            Seq::empty()
        } else {
            sums_before(triplets, ncols, (r - 1) as nat, ncols)
        }
    } else {
        let before = sums_before(triplets, ncols, r, (c - 1) as nat);
        let values = values_at(triplets, r as int, c - 1);
        if values.len() == 0 {
            before
        } else {
            before.push((r as usize, (c - 1) as usize, sum(values)))
        }
    }
}

proof fn lemma_sums_before<T: Scalar>(
    triplets: Seq<(usize, usize, T)>,
    ncols: nat,
    r: nat,
    c: nat,
)
    requires
        ncols <= usize::MAX + 1,
        c <= ncols,
        r <= usize::MAX || (r == usize::MAX + 1 && c == 0),
    ensures
        ({
            let listed = sums_before(triplets, ncols, r, c);
            &&& row_major(listed)
            &&& forall|i: int|
                0 <= i < listed.len() ==> (#[trigger] listed[i]).0 < r || (listed[i].0 == r
                    && listed[i].1 < c)
            &&& forall|a: int, d: int| #[trigger]
                values_at(listed, a, d) == (if 0 <= a && 0 <= d < ncols && (a < r || (a == r && d
                    < c)) {
                    combined(values_at(triplets, a, d))
                } else {
                    Seq::<T>::empty()
                })
        }),
    decreases r, c,
{
    let listed = sums_before(triplets, ncols, r, c);
    if c == 0 {
        if r > 0 {
            lemma_sums_before(triplets, ncols, (r - 1) as nat, ncols);
        }
    } else {
        lemma_sums_before(triplets, ncols, r, (c - 1) as nat);
        let before = sums_before(triplets, ncols, r, (c - 1) as nat);
        let values = values_at(triplets, r as int, c - 1);
        if values.len() > 0 {
            assert(listed.drop_last() =~= before);
            let last = listed.last();
            assert forall|i: int| 0 <= i < listed.len() implies (#[trigger] listed[i]).0 < r || (
            listed[i].0 == r && listed[i].1 < c) by {
                if i < before.len() {
                    assert(listed[i] == before[i]);
                }
            }
            assert forall|i: int, j: int| 0 <= i < j < listed.len() implies before_in_rows(
                (#[trigger] listed[i]).0,
                listed[i].1,
                (#[trigger] listed[j]).0,
                listed[j].1,
            ) by {
                assert(listed[i] == before[i]);
                if j < before.len() {
                    assert(listed[j] == before[j]);
                }
            }
        }
        assert forall|a: int, d: int| #[trigger] values_at(listed, a, d) == (if 0 <= a && 0 <= d
            < ncols && (a < r || (a == r && d < c)) {
            combined(values_at(triplets, a, d))
        } else {
            Seq::<T>::empty()
        }) by {
            assert(values_at(before, a, d) == (if 0 <= a && 0 <= d < ncols && (a < r || (a == r && d
                < c - 1)) {
                combined(values_at(triplets, a, d))
            } else {
                Seq::<T>::empty()
            }));
            if values.len() > 0 && a == r && d == c - 1 {
                assert(values_at(listed, a, d) =~= seq![sum(values)]);
            }
        }
    }
}

/// Each list of triplets has a compressed list, inside the same shape.
pub proof fn compressed_exists<T: Scalar>(
    triplets: Seq<(usize, usize, T)>,
    nrows: int,
    ncols: int,
)
    requires
        triplets_within(triplets, nrows, ncols),
    ensures
        compresses(compressed(triplets), triplets),
        triplets_within(compressed(triplets), nrows, ncols),
{
    let bound = (usize::MAX + 1) as nat;
    let listed = sums_before(triplets, bound, bound, 0);
    lemma_sums_before(triplets, bound, bound, 0);
    assert forall|r: int, c: int| #[trigger] values_at(listed, r, c) == combined(
        values_at(triplets, r, c),
    ) by {
        if r < 0 || r >= bound || c < 0 || c >= bound {
            values_at_outside(triplets, bound as int, bound as int, r, c);
        }
    }
    assert(compresses(listed, triplets));
    let entries = compressed(triplets);
    assert forall|i: int| 0 <= i < entries.len() implies (#[trigger] entries[i]).0 < nrows
        && entries[i].1 < ncols by {
        let r = entries[i].0 as int;
        let c = entries[i].1 as int;
        lemma_listed_value(entries, i);
        assert(values_at(entries, r, c) == combined(values_at(triplets, r, c)));
        let j = value_has_place(triplets, r, c);
        assert(triplets[j].0 < nrows && triplets[j].1 < ncols);
    }
}

proof fn lemma_combined_push<T: Scalar>(values: Seq<T>, v: T)
    ensures
        combined(values.push(v)) == (if values.len() == 0 {
            seq![v]
        } else {
            seq![combined(values)[0].plus_spec(v)]
        }),
{
    assert(values.push(v).drop_last() =~= values);
    if values.len() == 0 {
        assert(combined(values.push(v)) =~= seq![v]);
    } else {
        assert(combined(values.push(v)) =~= seq![combined(values)[0].plus_spec(v)]);
    }
}

impl<T> CsrMatrix<T> {
    pub closed spec fn rows(&self) -> nat {
        self.nrows as nat
    }

    pub closed spec fn cols(&self) -> nat {
        self.ncols as nat
    }

    /// The entries, in row-major order.
    pub closed spec fn entries(&self) -> Seq<(usize, usize, T)> {
        self.entries@
    }

    pub open spec fn wf(&self) -> bool {
        &&& triplets_within(self.entries(), self.rows() as int, self.cols() as int)
        &&& row_major(self.entries())
    }

    pub fn nrows(&self) -> (n: usize)
        ensures
            n == self.rows(),
    {
        self.nrows
    }

    pub fn ncols(&self) -> (n: usize)
        ensures
            n == self.cols(),
    {
        self.ncols
    }

    /// Number of entries.
    pub fn nnz(&self) -> (n: usize)
        ensures
            n == self.entries().len(),
    {
        self.entries.len()
    }

    /// The entries, in row-major order.
    pub fn triplets(&self) -> (triplets: &Vec<(usize, usize, T)>)
        ensures
            triplets@ == self.entries(),
    {
        &self.entries
    }

    /// The matrix with the given entries, which are in row-major order already.
    pub fn from_row_major(
        nrows: usize,
        ncols: usize,
        entries: Vec<(usize, usize, T)>,
    ) -> (m: Self)
        requires
            triplets_within(entries@, nrows as int, ncols as int),
            row_major(entries@),
        ensures
            m.wf(),
            m.rows() == nrows,
            m.cols() == ncols,
            m.entries() == entries@,
    {
        CsrMatrix { nrows, ncols, entries }
    }

    /// The matrix without entries.
    pub fn zeros(nrows: usize, ncols: usize) -> (m: Self)
        ensures
            m.wf(),
            m.rows() == nrows,
            m.cols() == ncols,
            m.entries() == Seq::<(usize, usize, T)>::empty(),
    {
        CsrMatrix { nrows, ncols, entries: Vec::new() }
    }
}

impl<T: Scalar> CsrMatrix<T> {
    /// Sorts the entries of a matrix in coordinate form and adds up those at the same place.
    pub fn from_coo(coo: &CooMatrix<T>) -> (m: Self)
        requires
            coo.wf(),
        ensures
            m.wf(),
            m.rows() == coo.rows(),
            m.cols() == coo.cols(),
            compresses(m.entries(), coo.entries()),
            m.entries() == compressed(coo.entries()),
    {
        let nrows: usize = coo.nrows();
        let ncols: usize = coo.ncols();
        let triplets = coo.triplets();
        let mut rows: Vec<Vec<(usize, T)>> = Vec::new();
        let mut r: usize = 0;
        while r < nrows
            invariant
                r <= nrows,
                rows@.len() == r,
                forall|i: int| 0 <= i < r ==> (#[trigger] rows@[i])@ == Seq::<(usize, T)>::empty(),
            decreases nrows - r,
        {
            rows.push(Vec::new());
            r = r + 1;
        }
        let mut i: usize = 0;
        proof {
            assert(triplets@.take(0) =~= Seq::<(usize, usize, T)>::empty());
        }
        while i < triplets.len()
            invariant
                i <= triplets@.len(),
                triplets@ == coo.entries(),
                coo.wf(),
                nrows == coo.rows(),
                ncols == coo.cols(),
                rows@.len() == nrows,
                forall|a: int| 0 <= a < nrows ==> ascending((#[trigger] rows@[a])@),
                forall|a: int, j: int|
                    0 <= a < nrows && 0 <= j < rows@[a]@.len() ==> (
                    #[trigger] rows@[a]@[j]).0 < ncols,
                forall|a: int, d: int|
                    0 <= a < nrows ==> #[trigger] row_values(rows@[a]@, d) == combined(
                        values_at(triplets@.take(i as int), a, d),
                    ),
            decreases triplets@.len() - i,
        {
            let (r, c, v) = triplets[i];
            let ghost before = rows@;
            let ghost t = triplets@.take(i as int);
            proof {
                assert(triplets@[i as int] == (r, c, v));
                assert(triplets@.take(i + 1).drop_last() =~= t);
                assert(triplets@.take(i + 1).last() == (r, c, v));
            }
            add_to_row(&mut rows[r], c, v);
            proof {
                lemma_combined_push(values_at(t, r as int, c as int), v);
                assert forall|a: int, d: int| 0 <= a < nrows implies #[trigger] row_values(
                    rows@[a]@,
                    d,
                ) == combined(values_at(triplets@.take(i + 1), a, d)) by {
                    assert(row_values(before[a]@, d) == combined(values_at(t, a, d)));
                    if a != r {
                        assert(rows@[a] == before[a]);
                    } else if d != c {
                        assert(row_values(rows@[r as int]@, d) == row_values(
                            before[r as int]@,
                            d,
                        ));
                    }
                }
                assert forall|a: int, j: int| 0 <= a < nrows && 0 <= j < rows@[a]@.len() implies (
                #[trigger] rows@[a]@[j]).0 < ncols by {
                    if a != r {
                        assert(rows@[a] == before[a]);
                        assert(before[a]@[j].0 < ncols);
                    } else if rows@[a]@[j].0 != c {
                        let b = choose|b: int|
                            0 <= b < before[a]@.len() && (#[trigger] before[a]@[b]).0
                                == rows@[a]@[j].0;
                        assert(before[a]@[b].0 < ncols);
                    }
                }
            }
            i = i + 1;
        }
        proof {
            assert(triplets@.take(i as int) =~= coo.entries());
        }
        let mut entries: Vec<(usize, usize, T)> = Vec::new();
        let mut r: usize = 0;
        while r < nrows
            invariant
                r <= nrows,
                coo.wf(),
                nrows == coo.rows(),
                ncols == coo.cols(),
                rows@.len() == nrows,
                forall|a: int| 0 <= a < nrows ==> ascending((#[trigger] rows@[a])@),
                forall|a: int, j: int|
                    0 <= a < nrows && 0 <= j < rows@[a]@.len() ==> (
                    #[trigger] rows@[a]@[j]).0 < ncols,
                forall|a: int, d: int|
                    0 <= a < nrows ==> #[trigger] row_values(rows@[a]@, d) == combined(
                        values_at(coo.entries(), a, d),
                    ),
                row_major(entries@),
                forall|j: int|
                    0 <= j < entries@.len() ==> (#[trigger] entries@[j]).0 < r && entries@[j].1
                        < ncols,
                forall|a: int, d: int| #[trigger]
                    values_at(entries@, a, d) == (if 0 <= a < r {
                        row_values(rows@[a]@, d)
                    } else {
                        Seq::<T>::empty()
                    }),
            decreases nrows - r,
        {
            let row = &rows[r];
            let ghost listed = entries@;
            let mut j: usize = 0;
            proof {
                assert(row@.take(0) =~= Seq::<(usize, T)>::empty());
            }
            while j < row.len()
                invariant
                    j <= row@.len(),
                    r < nrows,
                    ascending(row@),
                    forall|a: int| 0 <= a < row@.len() ==> (#[trigger] row@[a]).0 < ncols,
                    row_major(entries@),
                    forall|a: int|
                        0 <= a < entries@.len() ==> (#[trigger] entries@[a]).0 <= r
                            && entries@[a].1 < ncols,
                    forall|a: int|
                        0 <= a < entries@.len() && (#[trigger] entries@[a]).0 == r ==> j > 0
                            && entries@[a].1 <= row@[j - 1].0,
                    forall|a: int, d: int| #[trigger]
                        values_at(entries@, a, d) == (if a == r {
                            row_values(row@.take(j as int), d)
                        } else {
                            values_at(listed, a, d)
                        }),
                decreases row@.len() - j,
            {
                let (c, v) = row[j];
                let ghost before = entries@;
                entries.push((r, c, v));
                proof {
                    assert(row@[j as int] == (c, v));
                    assert(entries@.drop_last() =~= before);
                    assert(row@.take(j + 1).drop_last() =~= row@.take(j as int));
                    assert forall|a: int, d: int| #[trigger]
                        values_at(entries@, a, d) == (if a == r {
                            row_values(row@.take(j + 1), d)
                        } else {
                            values_at(listed, a, d)
                        }) by {
                        assert(values_at(before, a, d) == (if a == r {
                            row_values(row@.take(j as int), d)
                        } else {
                            values_at(listed, a, d)
                        }));
                    }
                    assert forall|a: int, b: int| 0 <= a < b < entries@.len() implies before_in_rows(
                        (#[trigger] entries@[a]).0,
                        entries@[a].1,
                        (#[trigger] entries@[b]).0,
                        entries@[b].1,
                    ) by {
                        assert(entries@[a] == before[a]);
                        if b < before.len() {
                            assert(entries@[b] == before[b]);
                        } else if before[a].0 == r {
                            assert(row@[j - 1].0 < row@[j as int].0);
                        }
                    }
                }
                j = j + 1;
            }
            proof {
                assert(row@.take(j as int) =~= row@);
            }
            r = r + 1;
        }
        let m = CsrMatrix { nrows, ncols, entries };
        proof {
            assert forall|a: int, d: int| #[trigger]
                values_at(m.entries(), a, d) == combined(values_at(coo.entries(), a, d)) by {
                assert(values_at(entries@, a, d) == (if 0 <= a < r {
                    row_values(rows@[a]@, d)
                } else {
                    Seq::<T>::empty()
                }));
                if a < 0 || a >= nrows {
                    values_at_outside(coo.entries(), nrows as int, ncols as int, a, d);
                }
            }
            compressed_is(m.entries(), coo.entries());
        }
        m
    }

    /// The value at row `r` and column `c`; zero where nothing is listed.
    pub open spec fn at(&self, r: int, c: int) -> T {
        sum(values_at(self.entries(), r, c))
    }
}

} // verus!
