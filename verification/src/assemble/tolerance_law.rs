//! What the largest of several deviations says of each of them.

use crate::assemble::barycentric_dual::{deviation, reconstruction_at, reconstruction_fault};
use crate::linalg::algebra::magnitude_spec;
use crate::linalg::dense::DenseMatrix;
use crate::linalg::scalar::Scalar;
use crate::problems::hodge_transient::{distance, largest_distance};
use vstd::prelude::*;

verus! {

/// Coefficients in one order, from the smallest to the largest.
pub open spec fn orders_totally<T: Scalar>() -> bool {
    &&& forall|a: T, b: T, c: T| #[trigger]
        a.is_below_spec(b) && #[trigger] b.is_below_spec(c) ==> a.is_below_spec(c)
    &&& forall|a: T, b: T, c: T|
        !#[trigger] a.is_below_spec(b) && !#[trigger] b.is_below_spec(c) ==> !a.is_below_spec(c)
    &&& forall|a: T, b: T| #[trigger] a.is_at_most_spec(b) <==> !b.is_below_spec(a)
}

/// The largest distance is within a bound if and only if all distances are.
pub proof fn largest_distance_bounds_all<T: Scalar>(a: Seq<T>, b: Seq<T>, n: int, bound: T)
    requires
        orders_totally::<T>(),
        T::zero_spec().is_at_most_spec(bound),
        0 <= n,
    ensures
        largest_distance(a, b, n).is_at_most_spec(bound) <==> forall|i: int|
            0 <= i < n ==> #[trigger] distance(a[i], b[i]).is_at_most_spec(bound),
    decreases n,
{
    if n > 0 {
        largest_distance_bounds_all(a, b, n - 1, bound);
        let before = largest_distance(a, b, n - 1);
        let d = distance(a[n - 1], b[n - 1]);
        if before.is_below_spec(d) {
            assert(bound.is_below_spec(before) ==> bound.is_below_spec(d));
        } else {
            assert(bound.is_below_spec(d) ==> bound.is_below_spec(before));
        }
        assert(before.is_at_most_spec(bound) <==> !bound.is_below_spec(before));
        assert(d.is_at_most_spec(bound) <==> !bound.is_below_spec(d));
    }
}

/// What the values of a reconstruction are meant to be.
pub open spec fn expected_at<T: Scalar>(volume: T, i: int, j: int) -> T {
    if i == j {
        volume
    } else {
        T::zero_spec()
    }
}

/// A value of the reconstruction is not farther than a bound from what it is meant to be.
pub open spec fn is_close<T: Scalar>(
    primal: DenseMatrix<T>,
    dual: DenseMatrix<T>,
    volume: T,
    bound: T,
    i: int,
    j: int,
) -> bool {
    !bound.is_below_spec(
        magnitude_spec(reconstruction_at(primal, dual, i, j).minus_spec(expected_at(volume, i, j))),
    )
}

/// The same of the values row by row.
spec fn close_at<T: Scalar>(
    primal: DenseMatrix<T>,
    dual: DenseMatrix<T>,
    volume: T,
    bound: T,
    p: int,
) -> bool {
    is_close(primal, dual, volume, bound, p / 3, p % 3)
}

proof fn lemma_deviation<T: Scalar>(
    primal: DenseMatrix<T>,
    dual: DenseMatrix<T>,
    volume: T,
    bound: T,
    n: int,
)
    requires
        orders_totally::<T>(),
        !bound.is_below_spec(T::zero_spec()),
        0 <= n,
    ensures
        !bound.is_below_spec(deviation(primal, dual, volume, n)) <==> forall|p: int|
            0 <= p < n ==> #[trigger] close_at(primal, dual, volume, bound, p),
    decreases n,
{
    if n > 0 {
        lemma_deviation(primal, dual, volume, bound, n - 1);
        let before = deviation(primal, dual, volume, n - 1);
        let (i, j) = ((n - 1) / 3, (n - 1) % 3);
        let d = magnitude_spec(
            reconstruction_at(primal, dual, i, j).minus_spec(expected_at(volume, i, j)),
        );
        assert(close_at(primal, dual, volume, bound, n - 1) <==> !bound.is_below_spec(d));
        if before.is_below_spec(d) {
            assert(bound.is_below_spec(before) ==> bound.is_below_spec(d));
        } else {
            assert(bound.is_below_spec(d) ==> bound.is_below_spec(before));
        }
    }
}

/// A tolerance relative to a volume, or absolute for a volume below one.
pub open spec fn relative_bound<T: Scalar>(volume: T, tolerance: T) -> T {
    let size = magnitude_spec(volume);
    if size.is_below_spec(T::one_spec()) {
        tolerance.times_spec(T::one_spec())
    } else {
        tolerance.times_spec(size)
    }
}

/// A reconstruction is accepted if and only if each of its nine values is as close to the volume
/// on the diagonal, or to zero beside it, as the tolerance allows.
pub proof fn accepted_reconstructions_are_close<T: Scalar>(
    vertex: nat,
    grade: nat,
    primal: DenseMatrix<T>,
    dual: DenseMatrix<T>,
    volume: T,
    tolerance: T,
)
    requires
        orders_totally::<T>(),
        !relative_bound(volume, tolerance).is_below_spec(T::zero_spec()),
    ensures
        reconstruction_fault(vertex, grade, primal, dual, volume, tolerance) is None
            <==> forall|i: int, j: int|
            0 <= i < 3 && 0 <= j < 3 ==> #[trigger] is_close(
                primal,
                dual,
                volume,
                relative_bound(volume, tolerance),
                i,
                j,
            ),
{
    let bound = relative_bound(volume, tolerance);
    lemma_deviation(primal, dual, volume, bound, 9);
    if reconstruction_fault(vertex, grade, primal, dual, volume, tolerance) is None {
        assert forall|i: int, j: int| 0 <= i < 3 && 0 <= j < 3 implies #[trigger] is_close(
            primal,
            dual,
            volume,
            bound,
            i,
            j,
        ) by {
            assert(close_at(primal, dual, volume, bound, 3 * i + j));
        }
    } else if forall|i: int, j: int|
        0 <= i < 3 && 0 <= j < 3 ==> #[trigger] is_close(primal, dual, volume, bound, i, j) {
        assert forall|p: int| 0 <= p < 9 implies #[trigger] close_at(
            primal,
            dual,
            volume,
            bound,
            p,
        ) by {
            assert(is_close(primal, dual, volume, bound, p / 3, p % 3));
        }
    }
}

} // verus!
