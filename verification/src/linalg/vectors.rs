//! Combinations of vectors and multiples of matrices.

use crate::linalg::csr::row_major;
use crate::linalg::csr::CsrMatrix;
use crate::linalg::scalar::Scalar;
use crate::linalg::sparse::triplets_within;
use vstd::prelude::*;

verus! {

/// The sum of two vectors.
pub open spec fn sum_of<T: Scalar>(a: Seq<T>, b: Seq<T>) -> Seq<T> {
    Seq::new(a.len(), |i: int| a[i].plus_spec(b[i]))
}

/// The difference of two vectors.
pub open spec fn difference_of<T: Scalar>(a: Seq<T>, b: Seq<T>) -> Seq<T> {
    Seq::new(a.len(), |i: int| a[i].minus_spec(b[i]))
}

/// A multiple of a vector.
pub open spec fn multiple_of<T: Scalar>(factor: T, a: Seq<T>) -> Seq<T> {
    Seq::new(a.len(), |i: int| factor.times_spec(a[i]))
}

/// The sum of two vectors.
pub fn plus<T: Scalar>(a: &[T], b: &[T]) -> (r: Vec<T>)
    requires
        a@.len() == b@.len(),
    ensures
        r@ == sum_of(a@, b@),
{
    let mut r: Vec<T> = Vec::new();
    let mut i: usize = 0;
    while i < a.len()
        invariant
            i <= a@.len(),
            a@.len() == b@.len(),
            r@ =~= sum_of(a@, b@).take(i as int),
        decreases a@.len() - i,
    {
        r.push(a[i].plus(b[i]));
        i = i + 1;
    }
    r
}

/// The difference of two vectors.
pub fn minus<T: Scalar>(a: &[T], b: &[T]) -> (r: Vec<T>)
    requires
        a@.len() == b@.len(),
    ensures
        r@ == difference_of(a@, b@),
{
    let mut r: Vec<T> = Vec::new();
    let mut i: usize = 0;
    while i < a.len()
        invariant
            i <= a@.len(),
            a@.len() == b@.len(),
            r@ =~= difference_of(a@, b@).take(i as int),
        decreases a@.len() - i,
    {
        r.push(a[i].minus(b[i]));
        i = i + 1;
    }
    r
}

/// A multiple of a vector.
pub fn times<T: Scalar>(factor: T, a: &[T]) -> (r: Vec<T>)
    ensures
        r@ == multiple_of(factor, a@),
{
    let mut r: Vec<T> = Vec::new();
    let mut i: usize = 0;
    while i < a.len()
        invariant
            i <= a@.len(),
            r@ =~= multiple_of(factor, a@).take(i as int),
        decreases a@.len() - i,
    {
        r.push(factor.times(a[i]));
        i = i + 1;
    }
    r
}

/// Each entry multiplied by a factor.
pub open spec fn multiplied<T: Scalar>(factor: T, entries: Seq<(usize, usize, T)>) -> Seq<
    (usize, usize, T),
> {
    Seq::new(
        entries.len(),
        |i: int| (entries[i].0, entries[i].1, factor.times_spec(entries[i].2)),
    )
}

/// The matrix with each entry multiplied by a factor.
pub fn multiple<T: Scalar>(factor: T, matrix: &CsrMatrix<T>) -> (m: CsrMatrix<T>)
    requires
        matrix.wf(),
    ensures
        m.wf(),
        m.rows() == matrix.rows(),
        m.cols() == matrix.cols(),
        m.entries() == multiplied(factor, matrix.entries()),
{
    let triplets = matrix.triplets();
    let mut entries: Vec<(usize, usize, T)> = Vec::new();
    let mut i: usize = 0;
    while i < triplets.len()
        invariant
            i <= triplets@.len(),
            triplets@ == matrix.entries(),
            entries@ =~= multiplied(factor, matrix.entries()).take(i as int),
        decreases triplets@.len() - i,
    {
        let (r, c, v): (usize, usize, T) = triplets[i];
        entries.push((r, c, factor.times(v)));
        i = i + 1;
    }
    proof {
        assert(entries@ =~= multiplied(factor, matrix.entries()));
        assert(triplets_within(entries@, matrix.rows() as int, matrix.cols() as int)) by {
            assert forall|j: int| 0 <= j < entries@.len() implies (#[trigger] entries@[j]).0
                < matrix.rows() && entries@[j].1 < matrix.cols() by {
                assert(matrix.entries()[j].0 < matrix.rows());
            }
        }
        assert(row_major(entries@)) by {
            assert(row_major(matrix.entries()));
        }
    }
    CsrMatrix::from_row_major(matrix.nrows(), matrix.ncols(), entries)
}

} // verus!
