//! Sparse matrices in coordinate form.

use crate::linalg::scalar::sum;
use crate::linalg::scalar::Scalar;
use crate::linalg::sums::int_sum;
use vstd::prelude::*;

verus! {

/// A sparse matrix as a list of entries; entries at the same place add up.
#[derive(Debug, Clone, PartialEq)]
pub struct CooMatrix<T> {
    nrows: usize,
    ncols: usize,
    triplets: Vec<(usize, usize, T)>,
}

/// The values listed at row `r` and column `c`, in order.
pub open spec fn values_at<T>(triplets: Seq<(usize, usize, T)>, r: int, c: int) -> Seq<T>
    decreases triplets.len(),
{
    if triplets.len() == 0 {
        Seq::empty()
    } else {
        let before = values_at(triplets.drop_last(), r, c);
        let last = triplets.last();
        if last.0 == r && last.1 == c {
            before.push(last.2)
        } else {
            before
        }
    }
}

/// Every triplet lies inside a matrix of the given shape.
pub open spec fn triplets_within<T>(
    triplets: Seq<(usize, usize, T)>,
    nrows: int,
    ncols: int,
) -> bool {
    forall|i: int|
        0 <= i < triplets.len() ==> (#[trigger] triplets[i]).0 < nrows && triplets[i].1 < ncols
}

impl<T> CooMatrix<T> {
    pub closed spec fn rows(&self) -> nat {
        self.nrows as nat
    }

    pub closed spec fn cols(&self) -> nat {
        self.ncols as nat
    }

    /// The listed entries.
    pub closed spec fn entries(&self) -> Seq<(usize, usize, T)> {
        self.triplets@
    }

    /// Every entry lies inside the matrix.
    pub open spec fn wf(&self) -> bool {
        triplets_within(self.entries(), self.rows() as int, self.cols() as int)
    }

    /// The matrix without entries.
    pub fn zeros(nrows: usize, ncols: usize) -> (m: Self)
        ensures
            m.wf(),
            m.rows() == nrows,
            m.cols() == ncols,
            m.entries() == Seq::<(usize, usize, T)>::empty(),
    {
        CooMatrix { nrows, ncols, triplets: Vec::new() }
    }

    /// The matrix with the given entries, if each lies inside the shape.
    pub fn try_from_triplets(
        nrows: usize,
        ncols: usize,
        triplets: Vec<(usize, usize, T)>,
    ) -> (m: Option<Self>)
        ensures
            m is Some <==> triplets_within(triplets@, nrows as int, ncols as int),
            match m {
                Some(m) => m.wf() && m.rows() == nrows && m.cols() == ncols && m.entries()
                    == triplets@,
                None => true,
            },
    {
        let mut i: usize = 0;
        while i < triplets.len()
            invariant
                i <= triplets@.len(),
                triplets_within(triplets@.take(i as int), nrows as int, ncols as int),
            decreases triplets@.len() - i,
        {
            if triplets[i].0 >= nrows || triplets[i].1 >= ncols {
                return None;
            }
            proof {
                assert forall|j: int| 0 <= j < i + 1 implies (#[trigger] triplets@.take(
                    i + 1,
                )[j]).0 < nrows && triplets@.take(i + 1)[j].1 < ncols by {
                    if j < i {
                        assert(triplets@.take(i as int)[j] == triplets@.take(i + 1)[j]);
                    }
                }
            }
            i = i + 1;
        }
        proof {
            assert(triplets@.take(i as int) =~= triplets@);
        }
        Some(CooMatrix { nrows, ncols, triplets })
    }

    pub fn nrows(&self) -> (n: usize)
        ensures
            n == self.rows(),
    {
        self.nrows
    }

    pub fn ncols(&self) -> (n: usize)
        ensures
            n == self.cols(),
    {
        self.ncols
    }

    /// The listed entries.
    pub fn triplets(&self) -> (triplets: &Vec<(usize, usize, T)>)
        ensures
            triplets@ == self.entries(),
    {
        &self.triplets
    }

    /// Lists one more entry.
    pub fn push(&mut self, row: usize, col: usize, value: T)
        requires
            old(self).wf(),
            row < old(self).rows(),
            col < old(self).cols(),
        ensures
            final(self).wf(),
            final(self).rows() == old(self).rows(),
            final(self).cols() == old(self).cols(),
            final(self).entries() == old(self).entries().push((row, col, value)),
    {
        self.triplets.push((row, col, value));
    }
}

impl<T: Scalar> CooMatrix<T> {
    /// The value of the matrix at row `r` and column `c`.
    pub open spec fn at(&self, r: int, c: int) -> T {
        sum(values_at(self.entries(), r, c))
    }
}

/// How many of the first `i` flags are not set.
pub open spec fn unset_before(flags: Seq<bool>, i: int) -> nat
    decreases i,
{
    if i <= 0 {
        0
    } else if flags[i - 1] {
        unset_before(flags, i - 1)
    } else {
        unset_before(flags, i - 1) + 1
    }
}

/// The new position of index `i` once the flagged ones are left out.
pub open spec fn position_without(flags: Seq<bool>, i: int) -> Option<usize> {
    if flags[i] {
        None
    } else {
        Some(unset_before(flags, i) as usize)
    }
}

/// The entries outside the flagged rows and columns, renumbered without those.
pub open spec fn restricted<T>(
    triplets: Seq<(usize, usize, T)>,
    rows: Seq<bool>,
    cols: Seq<bool>,
) -> Seq<(usize, usize, T)>
    decreases triplets.len(),
{
    if triplets.len() == 0 {
        Seq::empty()
    } else {
        let before = restricted(triplets.drop_last(), rows, cols);
        let (r, c, v) = triplets.last();
        match (position_without(rows, r as int), position_without(cols, c as int)) {
            (Some(row), Some(col)) => before.push((row, col, v)),
            _ => before,
        }
    }
}

/// No flag is set.
pub open spec fn none_set(flags: Seq<bool>) -> bool {
    forall|i: int| 0 <= i < flags.len() ==> !#[trigger] flags[i]
}

pub proof fn all_unset(flags: Seq<bool>, i: int)
    requires
        none_set(flags),
        0 <= i <= flags.len(),
    ensures
        unset_before(flags, i) == i,
    decreases i,
{
    if i > 0 {
        all_unset(flags, i - 1);
    }
}

/// Without a flag nothing is left out.
pub proof fn restricted_by_nothing<T>(
    triplets: Seq<(usize, usize, T)>,
    rows: Seq<bool>,
    cols: Seq<bool>,
)
    requires
        triplets_within(triplets, rows.len() as int, cols.len() as int),
        none_set(rows),
        none_set(cols),
    ensures
        restricted(triplets, rows, cols) == triplets,
    decreases triplets.len(),
{
    if triplets.len() > 0 {
        let front = triplets.drop_last();
        let (r, c, v) = triplets.last();
        assert(triplets[triplets.len() - 1] == (r, c, v));
        assert(triplets_within(front, rows.len() as int, cols.len() as int)) by {
            assert forall|i: int| 0 <= i < front.len() implies (#[trigger] front[i]).0
                < rows.len() && front[i].1 < cols.len() by {
                assert(front[i] == triplets[i]);
            }
        }
        restricted_by_nothing(front, rows, cols);
        all_unset(rows, r as int);
        all_unset(cols, c as int);
        assert(front.push((r, c, v)) =~= triplets);
    }
}

/// At most as many flags are unset as there are.
pub proof fn unset_before_bound(flags: Seq<bool>, i: int)
    requires
        0 <= i <= flags.len(),
    ensures
        unset_before(flags, i) <= i,
    decreases i,
{
    if i > 0 {
        unset_before_bound(flags, i - 1);
    }
}

/// The count of unset flags grows along the list.
pub proof fn unset_before_monotone(flags: Seq<bool>, i: int, j: int)
    requires
        0 <= i <= j <= flags.len(),
    ensures
        unset_before(flags, i) <= unset_before(flags, j),
        i < j && !flags[i] ==> unset_before(flags, i) < unset_before(flags, j),
    decreases j,
{
    if i < j {
        unset_before_monotone(flags, i, j - 1);
        unset_before_bound(flags, j - 1);
    }
}

/// Renumbering keeps different indices apart: two indices that stay do not meet.
pub proof fn positions_injective(flags: Seq<bool>, i: int, j: int)
    requires
        0 <= i < flags.len(),
        0 <= j < flags.len(),
        flags.len() <= usize::MAX,
        !flags[i],
        !flags[j],
        position_without(flags, i) == position_without(flags, j),
    ensures
        i == j,
{
    unset_before_bound(flags, i);
    unset_before_bound(flags, j);
    if i < j {
        unset_before_monotone(flags, i, j);
    } else if j < i {
        unset_before_monotone(flags, j, i);
    }
}

/// The new position of each index once the flagged ones are left out, and how many stay.
pub fn positions(flags: &[bool]) -> (map: (Vec<Option<usize>>, usize))
    ensures
        map.0@.len() == flags@.len(),
        forall|i: int|
            0 <= i < flags@.len() ==> #[trigger] map.0@[i] == position_without(flags@, i),
        map.1 == unset_before(flags@, flags@.len() as int),
{
    let mut map: Vec<Option<usize>> = Vec::new();
    let mut kept: usize = 0;
    let mut i: usize = 0;
    while i < flags.len()
        invariant
            i <= flags@.len(),
            map@.len() == i,
            kept == unset_before(flags@, i as int),
            forall|j: int| 0 <= j < i ==> #[trigger] map@[j] == position_without(flags@, j),
        decreases flags@.len() - i,
    {
        proof {
            unset_before_bound(flags@, i as int);
        }
        if flags[i] {
            map.push(None);
        } else {
            map.push(Some(kept));
            kept = kept + 1;
        }
        i = i + 1;
    }
    (map, kept)
}

impl<T: Copy> CooMatrix<T> {
    /// The matrix without the flagged rows and columns.
    pub fn restrict(&self, rows: &[bool], cols: &[bool]) -> (m: Self)
        requires
            self.wf(),
            rows@.len() == self.rows(),
            cols@.len() == self.cols(),
        ensures
            m.wf(),
            m.rows() == unset_before(rows@, rows@.len() as int),
            m.cols() == unset_before(cols@, cols@.len() as int),
            m.entries() == restricted(self.entries(), rows@, cols@),
    {
        let (row_of, nrows) = positions(rows);
        let (col_of, ncols) = positions(cols);
        let mut m: CooMatrix<T> = CooMatrix::zeros(nrows, ncols);
        let mut i: usize = 0;
        proof {
            assert(self.entries().take(0) =~= Seq::<(usize, usize, T)>::empty());
        }
        while i < self.triplets.len()
            invariant
                i <= self.triplets@.len(),
                self.wf(),
                rows@.len() == self.rows(),
                cols@.len() == self.cols(),
                row_of@.len() == rows@.len(),
                col_of@.len() == cols@.len(),
                forall|j: int|
                    0 <= j < rows@.len() ==> #[trigger] row_of@[j] == position_without(rows@, j),
                forall|j: int|
                    0 <= j < cols@.len() ==> #[trigger] col_of@[j] == position_without(cols@, j),
                nrows == unset_before(rows@, rows@.len() as int),
                ncols == unset_before(cols@, cols@.len() as int),
                m.wf(),
                m.rows() == nrows,
                m.cols() == ncols,
                m.entries() == restricted(self.entries().take(i as int), rows@, cols@),
            decreases self.triplets@.len() - i,
        {
            let (r, c, v) = self.triplets[i];
            proof {
                let t = self.entries();
                assert(t[i as int] == (r, c, v));
                assert(t.take(i + 1).drop_last() =~= t.take(i as int));
                assert(t.take(i + 1).last() == (r, c, v));
                unset_before_bound(rows@, r as int);
                unset_before_bound(cols@, c as int);
                unset_before_monotone(rows@, r as int, rows@.len() as int);
                unset_before_monotone(cols@, c as int, cols@.len() as int);
            }
            if let Some(row) = row_of[r] {
                if let Some(col) = col_of[c] {
                    m.push(row, col, v);
                }
            }
            i = i + 1;
        }
        proof {
            assert(self.entries().take(i as int) =~= self.entries());
        }
        m
    }
}

/// The value that integer entries add up to at row `r` and column `c`.
pub open spec fn int_at(triplets: Seq<(usize, usize, i64)>, r: int, c: int) -> int
    decreases triplets.len(),
{
    if triplets.len() == 0 {
        0
    } else {
        let last = triplets.last();
        int_at(triplets.drop_last(), r, c) + if last.0 == r && last.1 == c {
            last.2 as int
        } else {
            0
        }
    }
}

/// Concatenated entry lists add up.
pub proof fn int_at_concat(
    a: Seq<(usize, usize, i64)>,
    b: Seq<(usize, usize, i64)>,
    r: int,
    c: int,
)
    ensures
        int_at(a + b, r, c) == int_at(a, r, c) + int_at(b, r, c),
    decreases b.len(),
{
    if b.len() == 0 {
        assert(a + b =~= a);
    } else {
        int_at_concat(a, b.drop_last(), r, c);
        assert((a + b).drop_last() =~= a + b.drop_last());
    }
}

/// The entries with rows and columns exchanged.
pub open spec fn transposed<T>(triplets: Seq<(usize, usize, T)>) -> Seq<(usize, usize, T)> {
    Seq::new(triplets.len(), |i: int| (triplets[i].1, triplets[i].0, triplets[i].2))
}

/// Transposing exchanges rows and columns of the values.
pub proof fn int_at_transposed(triplets: Seq<(usize, usize, i64)>, r: int, c: int)
    ensures
        int_at(transposed(triplets), c, r) == int_at(triplets, r, c),
    decreases triplets.len(),
{
    if triplets.len() > 0 {
        int_at_transposed(triplets.drop_last(), r, c);
        assert(transposed(triplets).drop_last() =~= transposed(triplets.drop_last()));
    }
}

impl<T: Copy> CooMatrix<T> {
    /// The matrix with rows and columns exchanged.
    pub fn transpose(&self) -> (m: Self)
        requires
            self.wf(),
        ensures
            m.wf(),
            m.rows() == self.cols(),
            m.cols() == self.rows(),
            m.entries() == transposed(self.entries()),
    {
        let mut m: CooMatrix<T> = CooMatrix::zeros(self.ncols, self.nrows);
        let mut i: usize = 0;
        while i < self.triplets.len()
            invariant
                i <= self.triplets@.len(),
                self.wf(),
                m.wf(),
                m.rows() == self.cols(),
                m.cols() == self.rows(),
                m.entries() =~= transposed(self.entries()).take(i as int),
            decreases self.triplets@.len() - i,
        {
            let (r, c, v) = self.triplets[i];
            proof {
                assert(self.entries()[i as int] == (r, c, v));
            }
            m.push(c, r, v);
            i = i + 1;
        }
        proof {
            assert(transposed(self.entries()).take(i as int) =~= transposed(self.entries()));
        }
        m
    }
}

/// Leaving out rows and columns keeps the values of those that stay.
pub proof fn int_at_restricted(
    triplets: Seq<(usize, usize, i64)>,
    rows: Seq<bool>,
    cols: Seq<bool>,
    r: int,
    c: int,
)
    requires
        triplets_within(triplets, rows.len() as int, cols.len() as int),
        rows.len() <= usize::MAX,
        cols.len() <= usize::MAX,
        0 <= r < rows.len(),
        0 <= c < cols.len(),
        !rows[r],
        !cols[c],
    ensures
        int_at(
            restricted(triplets, rows, cols),
            unset_before(rows, r) as int,
            unset_before(cols, c) as int,
        ) == int_at(triplets, r, c),
    decreases triplets.len(),
{
    if triplets.len() > 0 {
        let front = triplets.drop_last();
        let (a, b, v) = triplets.last();
        assert(triplets[triplets.len() - 1] == (a, b, v));
        assert forall|i: int| 0 <= i < front.len() implies (#[trigger] front[i]).0 < rows.len()
            && front[i].1 < cols.len() by {
            assert(front[i] == triplets[i]);
        }
        int_at_restricted(front, rows, cols, r, c);
        unset_before_bound(rows, r);
        unset_before_bound(cols, c);
        unset_before_bound(rows, a as int);
        unset_before_bound(cols, b as int);
        let before = restricted(front, rows, cols);
        if !rows[a as int] && !cols[b as int] {
            let item = (
                unset_before(rows, a as int) as usize,
                unset_before(cols, b as int) as usize,
                v,
            );
            assert(restricted(triplets, rows, cols) == before.push(item));
            assert(before.push(item).drop_last() =~= before);
            if item.0 == unset_before(rows, r) {
                positions_injective(rows, a as int, r);
            }
            if item.1 == unset_before(cols, c) {
                positions_injective(cols, b as int, c);
            }
        }
    }
}

/// A sum over the indices that stay is the sum over all indices with the others left out.
pub proof fn sum_over_kept(
    flags: Seq<bool>,
    n: int,
    kept: spec_fn(int) -> int,
    all: spec_fn(int) -> int,
)
    requires
        0 <= n <= flags.len(),
        forall|i: int|
            0 <= i < n && !flags[i] ==> kept(unset_before(flags, i) as int) == #[trigger] all(i),
    ensures
        int_sum(unset_before(flags, n) as int, kept) == int_sum(
            n,
            |i: int|
                if flags[i] {
                    0
                } else {
                    all(i)
                },
        ),
    decreases n,
{
    if n > 0 {
        sum_over_kept(flags, n - 1, kept, all);
        if !flags[n - 1] {
            assert(kept(unset_before(flags, n - 1) as int) == all(n - 1));
        }
    }
}

} // verus!
