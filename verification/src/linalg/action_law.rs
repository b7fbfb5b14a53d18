//! What matrices made from others do to vectors: diagonals, multiples, and windows.

use crate::assemble::symmetry_law::only_zero_is_zero;
use crate::linalg::algebra::{nonzero, nonzero_diagonal, row_dot, scaled_nonzero};
use crate::linalg::ring::{
    commutative_ring, ring_associates, ring_commutes, ring_distributes, ring_plus, ring_units,
};
use crate::linalg::scalar::Scalar;
use crate::linalg::sparse::triplets_within;
use vstd::prelude::*;

verus! {

/// Entries in front of the last are within the same bounds.
pub proof fn front_within<T: Scalar>(entries: Seq<(usize, usize, T)>, nrows: int, ncols: int)
    requires
        triplets_within(entries, nrows, ncols),
        entries.len() > 0,
    ensures
        triplets_within(entries.drop_last(), nrows, ncols),
        entries.last().0 < nrows,
        entries.last().1 < ncols,
{
    let front = entries.drop_last();
    assert(entries[entries.len() - 1].0 < nrows);
    assert forall|i: int| 0 <= i < front.len() implies (#[trigger] front[i]).0 < nrows
        && front[i].1 < ncols by {
        assert(front[i] == entries[i]);
    }
}

/// One more entry within the bounds.
pub proof fn push_within<T: Scalar>(
    entries: Seq<(usize, usize, T)>,
    entry: (usize, usize, T),
    nrows: int,
    ncols: int,
)
    requires
        triplets_within(entries, nrows, ncols),
        entry.0 < nrows,
        entry.1 < ncols,
    ensures
        triplets_within(entries.push(entry), nrows, ncols),
        entries.push(entry).drop_last() == entries,
{
    let all = entries.push(entry);
    assert(all.drop_last() =~= entries);
    assert forall|i: int| 0 <= i < all.len() implies (#[trigger] all[i]).0 < nrows && all[i].1
        < ncols by {
        if i < entries.len() {
            assert(all[i] == entries[i]);
        }
    }
}

/// A diagonal matrix multiplies each value by the one on the diagonal.
pub proof fn row_of_diagonal<T: Scalar>(diag: Seq<T>, x: Seq<T>, r: int)
    requires
        commutative_ring::<T>(),
        only_zero_is_zero::<T>(),
        diag.len() <= usize::MAX,
    ensures
        row_dot(nonzero_diagonal(diag), x, r) == (if 0 <= r < diag.len() {
            diag[r].times_spec(x[r])
        } else {
            T::zero_spec()
        }),
        triplets_within(nonzero_diagonal(diag), diag.len() as int, diag.len() as int),
    decreases diag.len(),
{
    let z = T::zero_spec();
    if diag.len() > 0 {
        let front = diag.drop_last();
        row_of_diagonal(front, x, r);
        let before = nonzero_diagonal(front);
        let n = diag.len() as int;
        let at = (n - 1) as usize;
        assert(triplets_within(before, n, n)) by {
            assert forall|i: int| 0 <= i < before.len() implies (#[trigger] before[i]).0 < n
                && before[i].1 < n by {
                assert(before[i].0 < n - 1);
            }
        }
        ring_units(x[n - 1]);
        ring_plus(diag[n - 1].times_spec(x[n - 1]), z, z);
        push_within(before, (at, at, diag[n - 1]), n, n);
    }
}

/// A multiple of a matrix, without the zeros.
pub proof fn row_of_nonzero_multiple<T: Scalar>(
    entries: Seq<(usize, usize, T)>,
    c: T,
    nrows: int,
    ncols: int,
    x: Seq<T>,
    r: int,
)
    requires
        commutative_ring::<T>(),
        only_zero_is_zero::<T>(),
        triplets_within(entries, nrows, ncols),
    ensures
        row_dot(scaled_nonzero(entries, c), x, r) == c.times_spec(row_dot(entries, x, r)),
        triplets_within(scaled_nonzero(entries, c), nrows, ncols),
    decreases entries.len(),
{
    if entries.len() == 0 {
        ring_units(c);
    } else {
        let front = entries.drop_last();
        let (row, col, v) = entries.last();
        front_within(entries, nrows, ncols);
        row_of_nonzero_multiple(front, c, nrows, ncols, x, r);
        let before = scaled_nonzero(front, c);
        let a = x[col as int];
        ring_commutes(v, c);
        ring_associates(c, v, a);
        ring_distributes(c, row_dot(front, x, r), v.times_spec(a));
        ring_units(a);
        ring_plus(row_dot(before, x, r), a, a);
        push_within(before, (row, col, v.times_spec(c)), nrows, ncols);
    }
}

/// Leaving out zeros changes nothing.
pub proof fn row_of_nonzero<T: Scalar>(
    entries: Seq<(usize, usize, T)>,
    nrows: int,
    ncols: int,
    x: Seq<T>,
    r: int,
)
    requires
        commutative_ring::<T>(),
        only_zero_is_zero::<T>(),
        triplets_within(entries, nrows, ncols),
    ensures
        row_dot(nonzero(entries), x, r) == row_dot(entries, x, r),
        triplets_within(nonzero(entries), nrows, ncols),
    decreases entries.len(),
{
    if entries.len() > 0 {
        let front = entries.drop_last();
        front_within(entries, nrows, ncols);
        row_of_nonzero(front, nrows, ncols, x, r);
        let before = nonzero(front);
        let a = x[entries.last().1 as int];
        ring_units(a);
        ring_plus(row_dot(before, x, r), a, a);
        push_within(before, entries.last(), nrows, ncols);
    }
}

} // verus!
