//! What combinations of matrices do to vectors, over coefficients that compute exactly.

use crate::assemble::fixed_dofs_law::row_dot_concat;
use crate::linalg::algebra::{
    matrix_times, negated_entries, product_terms, row_dot, row_times, row_total,
};
use crate::linalg::csr::{compressed, compressed_exists};
use crate::linalg::ring::{
    commutative_ring, compressing_keeps_products, ring_associates, ring_commutes,
    ring_distributes, ring_exchange, ring_is_exact, ring_minus, ring_moves, ring_negated,
    ring_plus, ring_units,
};
use crate::linalg::scalar::Scalar;
use crate::linalg::sparse::triplets_within;
use crate::linalg::vectors::{difference_of, multiple_of, multiplied, sum_of};
use vstd::prelude::*;

verus! {

/// Subtracting is adding the opposite.
pub proof fn ring_subtracts<T: Scalar>(a: T, b: T)
    requires
        commutative_ring::<T>(),
    ensures
        a.minus_spec(b) == a.plus_spec(b.negated_spec()),
        a.minus_spec(T::zero_spec()) == a,
{
    let n = b.negated_spec();
    ring_negated(b, b);
    ring_plus(a, n, b);
    ring_plus(a, a, a);
    ring_minus(a, T::zero_spec());
    ring_minus(a.plus_spec(n), b);
    ring_plus(a.minus_spec(T::zero_spec()), a, a);
}

/// Equal sums with an equal summand.
pub proof fn ring_cancels<T: Scalar>(a: T, b: T, c: T)
    requires
        commutative_ring::<T>(),
        a.plus_spec(c) == b.plus_spec(c),
    ensures
        a == b,
{
    ring_minus(a, c);
    ring_minus(b, c);
}

/// A factor of a difference is a factor of both parts.
pub proof fn ring_scales_difference<T: Scalar>(c: T, a: T, b: T)
    requires
        commutative_ring::<T>(),
    ensures
        c.times_spec(a.minus_spec(b)) == c.times_spec(a).minus_spec(c.times_spec(b)),
{
    let d = a.minus_spec(b);
    ring_distributes(c, d, b);
    ring_minus(a, b);
    ring_minus(c.times_spec(d), c.times_spec(b));
}

/// `(a + b) - (c + d) == (a - c) + (b - d)`.
pub proof fn ring_difference_of_sums<T: Scalar>(a: T, b: T, c: T, d: T)
    requires
        commutative_ring::<T>(),
    ensures
        a.plus_spec(b).minus_spec(c.plus_spec(d)) == a.minus_spec(c).plus_spec(b.minus_spec(d)),
{
    let (x, y) = (a.minus_spec(c), b.minus_spec(d));
    ring_minus(a, c);
    ring_minus(b, d);
    ring_exchange(x, y, c, d);
    ring_minus(x.plus_spec(y), c.plus_spec(d));
}

/// A matrix takes a sum of vectors to the sum of what it makes of them.
pub proof fn row_of_sum<T: Scalar>(
    entries: Seq<(usize, usize, T)>,
    nrows: int,
    x: Seq<T>,
    y: Seq<T>,
    r: int,
)
    requires
        commutative_ring::<T>(),
        triplets_within(entries, nrows, x.len() as int),
        x.len() == y.len(),
    ensures
        row_dot(entries, sum_of(x, y), r) == row_dot(entries, x, r).plus_spec(
            row_dot(entries, y, r),
        ),
    decreases entries.len(),
{
    let z = T::zero_spec();
    if entries.len() == 0 {
        ring_plus(z, z, z);
    } else {
        let front = entries.drop_last();
        let last = entries[entries.len() - 1];
        assert(last.1 < x.len());
        assert(triplets_within(front, nrows, x.len() as int)) by {
            assert forall|i: int| 0 <= i < front.len() implies (#[trigger] front[i]).0 < nrows
                && front[i].1 < x.len() by {
                assert(front[i] == entries[i]);
            }
        }
        row_of_sum(front, nrows, x, y, r);
        let (a, b) = (x[last.1 as int], y[last.1 as int]);
        ring_distributes(last.2, a, b);
        ring_exchange(
            row_dot(front, x, r),
            row_dot(front, y, r),
            last.2.times_spec(a),
            last.2.times_spec(b),
        );
    }
}

/// A matrix takes a multiple of a vector to the multiple of what it makes of the vector.
pub proof fn row_of_multiple<T: Scalar>(
    entries: Seq<(usize, usize, T)>,
    nrows: int,
    c: T,
    x: Seq<T>,
    r: int,
)
    requires
        commutative_ring::<T>(),
        triplets_within(entries, nrows, x.len() as int),
    ensures
        row_dot(entries, multiple_of(c, x), r) == c.times_spec(row_dot(entries, x, r)),
    decreases entries.len(),
{
    if entries.len() == 0 {
        ring_units(c);
    } else {
        let front = entries.drop_last();
        let last = entries[entries.len() - 1];
        assert(last.1 < x.len());
        assert(triplets_within(front, nrows, x.len() as int)) by {
            assert forall|i: int| 0 <= i < front.len() implies (#[trigger] front[i]).0 < nrows
                && front[i].1 < x.len() by {
                assert(front[i] == entries[i]);
            }
        }
        row_of_multiple(front, nrows, c, x, r);
        let a = x[last.1 as int];
        ring_moves(last.2, c, a);
        ring_distributes(c, row_dot(front, x, r), last.2.times_spec(a));
    }
}

/// A matrix takes a difference of vectors to the difference of what it makes of them.
pub proof fn row_of_difference<T: Scalar>(
    entries: Seq<(usize, usize, T)>,
    nrows: int,
    x: Seq<T>,
    y: Seq<T>,
    r: int,
)
    requires
        commutative_ring::<T>(),
        triplets_within(entries, nrows, x.len() as int),
        x.len() == y.len(),
    ensures
        row_dot(entries, difference_of(x, y), r) == row_dot(entries, x, r).minus_spec(
            row_dot(entries, y, r),
        ),
{
    let d = difference_of(x, y);
    assert forall|i: int| 0 <= i < x.len() implies sum_of(d, y)[i] == x[i] by {
        ring_minus(x[i], y[i]);
    }
    assert(sum_of(d, y) =~= x);
    row_of_sum(entries, nrows, d, y, r);
    ring_minus(row_dot(entries, d, r), row_dot(entries, y, r));
}

/// A row depends on the values of the vector at the columns of the matrix only.
pub proof fn row_same<T: Scalar>(
    entries: Seq<(usize, usize, T)>,
    nrows: int,
    ncols: int,
    x: Seq<T>,
    y: Seq<T>,
    r: int,
)
    requires
        triplets_within(entries, nrows, ncols),
        forall|c: int| 0 <= c < ncols ==> #[trigger] x[c] == y[c],
    ensures
        row_dot(entries, x, r) == row_dot(entries, y, r),
    decreases entries.len(),
{
    if entries.len() > 0 {
        let front = entries.drop_last();
        let last = entries[entries.len() - 1];
        assert(last.1 < ncols);
        assert(triplets_within(front, nrows, ncols)) by {
            assert forall|i: int| 0 <= i < front.len() implies (#[trigger] front[i]).0 < nrows
                && front[i].1 < ncols by {
                assert(front[i] == entries[i]);
            }
        }
        row_same(front, nrows, ncols, x, y, r);
        assert(x[last.1 as int] == y[last.1 as int]);
    }
}

/// A multiple of a matrix.
pub proof fn row_multiplied<T: Scalar>(
    entries: Seq<(usize, usize, T)>,
    c: T,
    x: Seq<T>,
    r: int,
)
    requires
        commutative_ring::<T>(),
    ensures
        row_dot(multiplied(c, entries), x, r) == c.times_spec(row_dot(entries, x, r)),
    decreases entries.len(),
{
    let all = multiplied(c, entries);
    if entries.len() == 0 {
        ring_units(c);
        assert(all.len() == 0);
    } else {
        let front = entries.drop_last();
        let last = entries.last();
        assert(all.drop_last() =~= multiplied(c, front));
        row_multiplied(front, c, x, r);
        let a = x[last.1 as int];
        ring_associates(c, last.2, a);
        ring_distributes(c, row_dot(front, x, r), last.2.times_spec(a));
    }
}

/// The opposite of a matrix.
pub proof fn row_negated<T: Scalar>(entries: Seq<(usize, usize, T)>, x: Seq<T>, r: int)
    requires
        commutative_ring::<T>(),
    ensures
        row_dot(negated_entries(entries), x, r) == row_dot(entries, x, r).negated_spec(),
    decreases entries.len(),
{
    let all = negated_entries(entries);
    let z = T::zero_spec();
    if entries.len() == 0 {
        assert(all.len() == 0);
        ring_negated(z, z);
        ring_plus(z.negated_spec(), z, z);
    } else {
        let front = entries.drop_last();
        let last = entries.last();
        assert(all.drop_last() =~= negated_entries(front));
        row_negated(front, x, r);
        let a = row_dot(front, x, r);
        let t = last.2.times_spec(x[last.1 as int]);
        ring_negated(last.2, x[last.1 as int]);
        ring_opposite_of_sum(a, t);
    }
}

/// The opposite of a sum.
pub proof fn ring_opposite_of_sum<T: Scalar>(a: T, b: T)
    requires
        commutative_ring::<T>(),
    ensures
        a.plus_spec(b).negated_spec() == a.negated_spec().plus_spec(b.negated_spec()),
{
    let (n, m) = (a.negated_spec(), b.negated_spec());
    let s = a.plus_spec(b);
    let z = T::zero_spec();
    ring_negated(a, a);
    ring_negated(b, b);
    ring_negated(s, s);
    ring_exchange(n, m, a, b);
    ring_plus(z, z, z);
    ring_cancels(s.negated_spec(), n.plus_spec(m), s);
}

/// Entries of the same place may be added up without a change to the rows.
pub proof fn row_compressed<T: Scalar>(
    entries: Seq<(usize, usize, T)>,
    nrows: int,
    ncols: int,
    x: Seq<T>,
    r: int,
)
    requires
        commutative_ring::<T>(),
        triplets_within(entries, nrows, ncols),
    ensures
        row_dot(compressed(entries), x, r) == row_dot(entries, x, r),
        triplets_within(compressed(entries), nrows, ncols),
{
    ring_is_exact::<T>();
    compressed_exists(entries, nrows, ncols);
    compressing_keeps_products(entries, compressed(entries), nrows, ncols, x, r);
}

/// A sum of matrices.
pub proof fn row_of_both<T: Scalar>(
    a: Seq<(usize, usize, T)>,
    b: Seq<(usize, usize, T)>,
    nrows: int,
    ncols: int,
    x: Seq<T>,
    r: int,
)
    requires
        commutative_ring::<T>(),
        triplets_within(a, nrows, ncols),
        triplets_within(b, nrows, ncols),
    ensures
        row_dot(compressed(a + b), x, r) == row_dot(a, x, r).plus_spec(row_dot(b, x, r)),
        triplets_within(compressed(a + b), nrows, ncols),
{
    let all = a + b;
    assert(triplets_within(all, nrows, ncols)) by {
        assert forall|i: int| 0 <= i < all.len() implies (#[trigger] all[i]).0 < nrows && all[i].1
            < ncols by {
            if i < a.len() {
                assert(all[i] == a[i]);
            } else {
                assert(all[i] == b[i - a.len()]);
            }
        }
    }
    row_compressed(all, nrows, ncols, x, r);
    row_dot_concat(a, b, x, r);
}

/// One row of the right factor, with a factor in front.
pub(crate) proof fn lemma_row_times<T: Scalar>(
    entries: Seq<(usize, usize, T)>,
    k: int,
    at: usize,
    v: T,
    x: Seq<T>,
    r: int,
)
    requires
        commutative_ring::<T>(),
    ensures
        row_dot(row_times(entries, k, at, v), x, r) == (if at == r {
            v.times_spec(row_dot(entries, x, k))
        } else {
            T::zero_spec()
        }),
    decreases entries.len(),
{
    if entries.len() == 0 {
        ring_units(v);
    } else {
        let front = entries.drop_last();
        let last = entries.last();
        lemma_row_times(front, k, at, v, x, r);
        let before = row_times(front, k, at, v);
        if last.0 == k {
            let item = (at, last.1, v.times_spec(last.2));
            assert(before.push(item).drop_last() =~= before);
            let a = x[last.1 as int];
            ring_associates(v, last.2, a);
            ring_distributes(v, row_dot(front, x, k), last.2.times_spec(a));
        }
    }
}

/// The entries of a row of the right factor stay in its columns.
proof fn lemma_row_times_within<T: Scalar>(
    entries: Seq<(usize, usize, T)>,
    k: int,
    at: usize,
    v: T,
    nrows: int,
    inner: int,
    ncols: int,
)
    requires
        triplets_within(entries, inner, ncols),
        at < nrows,
    ensures
        triplets_within(row_times(entries, k, at, v), nrows, ncols),
    decreases entries.len(),
{
    if entries.len() > 0 {
        let front = entries.drop_last();
        let last = entries[entries.len() - 1];
        assert(triplets_within(front, inner, ncols)) by {
            assert forall|i: int| 0 <= i < front.len() implies (#[trigger] front[i]).0 < inner
                && front[i].1 < ncols by {
                assert(front[i] == entries[i]);
            }
        }
        lemma_row_times_within(front, k, at, v, nrows, inner, ncols);
        assert(last.1 < ncols);
    }
}

/// The product of two matrices takes a vector where the left one takes what the right one makes
/// of it.
pub proof fn row_of_product<T: Scalar>(
    lhs: Seq<(usize, usize, T)>,
    rhs: Seq<(usize, usize, T)>,
    nrows: int,
    inner: nat,
    ncols: int,
    x: Seq<T>,
    r: int,
)
    requires
        commutative_ring::<T>(),
        triplets_within(lhs, nrows, inner as int),
        triplets_within(rhs, inner as int, ncols),
    ensures
        row_dot(product_terms(lhs, rhs), x, r) == row_dot(lhs, matrix_times(rhs, inner, x), r),
        triplets_within(product_terms(lhs, rhs), nrows, ncols),
    decreases lhs.len(),
{
    if lhs.len() > 0 {
        let front = lhs.drop_last();
        let (row, k, v) = lhs[lhs.len() - 1];
        assert(row < nrows && k < inner);
        assert(triplets_within(front, nrows, inner as int)) by {
            assert forall|i: int| 0 <= i < front.len() implies (#[trigger] front[i]).0 < nrows
                && front[i].1 < inner by {
                assert(front[i] == lhs[i]);
            }
        }
        row_of_product(front, rhs, nrows, inner, ncols, x, r);
        let before = product_terms(front, rhs);
        let added = row_times(rhs, k as int, row, v);
        lemma_row_times(rhs, k as int, row, v, x, r);
        lemma_row_times_within(rhs, k as int, row, v, nrows, inner as int, ncols);
        row_dot_concat(before, added, x, r);
        ring_plus(row_dot(before, x, r), v, v);
        let all = product_terms(lhs, rhs);
        assert(all =~= before + added);
        assert forall|i: int| 0 <= i < all.len() implies (#[trigger] all[i]).0 < nrows && all[i].1
            < ncols by {
            if i < before.len() {
                assert(all[i] == before[i]);
            } else {
                assert(all[i] == added[i - before.len()]);
            }
        }
    }
}

/// A vector of ones.
pub open spec fn ones<T: Scalar>(n: nat) -> Seq<T> {
    Seq::new(n, |i: int| T::one_spec())
}

/// The values of a row add up to what the row makes of ones.
pub proof fn row_total_of_ones<T: Scalar>(
    entries: Seq<(usize, usize, T)>,
    nrows: int,
    n: nat,
    r: int,
)
    requires
        commutative_ring::<T>(),
        triplets_within(entries, nrows, n as int),
    ensures
        row_total(entries, r) == row_dot(entries, ones(n), r),
    decreases entries.len(),
{
    if entries.len() > 0 {
        let front = entries.drop_last();
        let last = entries[entries.len() - 1];
        assert(last.1 < n);
        assert(triplets_within(front, nrows, n as int)) by {
            assert forall|i: int| 0 <= i < front.len() implies (#[trigger] front[i]).0 < nrows
                && front[i].1 < n by {
                assert(front[i] == entries[i]);
            }
        }
        row_total_of_ones(front, nrows, n, r);
        ring_units(last.2);
    }
}

} // verus!
