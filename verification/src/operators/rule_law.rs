//! Where the points of the rules lie, and what the rules integrate exactly.

use crate::assemble::reconstruction_law::divides_exactly;
use crate::linalg::matrix_law::ring_cancels;
use crate::linalg::ring::{
    commutative_ring, ring_commutes, ring_distributes, ring_minus, ring_plus, ring_units,
};
use crate::linalg::scalar::Scalar;
use crate::operators::reference::{barycentric, total};
use crate::problems::step_law::{counts_exactly, quotient_is_product};
use crate::whitney::reference_barycenter;
use vstd::prelude::*;

verus! {

/// A point with equal barycentric coordinates, which together make one.
pub open spec fn is_balanced<T: Scalar>(coord: Seq<T>) -> bool {
    forall|v: int|
        0 <= v <= coord.len() ==> T::from_count_spec(coord.len() + 1).times_spec(
            #[trigger] barycentric(coord)[v],
        ) == T::one_spec()
}

/// A vertex of the reference simplex: its own barycentric coordinate is one, the others vanish.
pub open spec fn is_vertex<T: Scalar>(coord: Seq<T>, vertex: int) -> bool {
    forall|v: int|
        0 <= v <= coord.len() ==> #[trigger] barycentric(coord)[v] == (if v == vertex {
            T::one_spec()
        } else {
            T::zero_spec()
        })
}

proof fn lemma_total_of_equal<T: Scalar>(coord: Seq<T>, e: T)
    requires
        commutative_ring::<T>(),
        counts_exactly::<T>(),
        forall|i: int| 0 <= i < coord.len() ==> #[trigger] coord[i] == e,
    ensures
        total(coord) == T::from_count_spec(coord.len()).times_spec(e),
    decreases coord.len(),
{
    ring_units(e);
    if coord.len() > 0 {
        let m = (coord.len() - 1) as nat;
        lemma_total_of_equal(coord.drop_last(), e);
        let count = T::from_count_spec(m);
        assert(T::from_count_spec(m + 1) == count.plus_spec(T::one_spec()));
        ring_distributes(e, count, T::one_spec());
    }
}

/// Equal coordinates, one over the number of vertices, belong to the barycenter.
pub proof fn equal_shares_balance<T: Scalar>(coord: Seq<T>)
    requires
        commutative_ring::<T>(),
        counts_exactly::<T>(),
        divides_exactly(T::from_count_spec(coord.len() + 1)),
        forall|i: int|
            0 <= i < coord.len() ==> #[trigger] coord[i] == T::one_spec().over_spec(
                T::from_count_spec(coord.len() + 1),
            ),
    ensures
        is_balanced(coord),
{
    let n = coord.len();
    let one = T::one_spec();
    let count = T::from_count_spec(n);
    let all = T::from_count_spec(n + 1);
    let e = one.over_spec(all);
    quotient_is_product(all, one);
    lemma_total_of_equal(coord, e);
    assert(all == count.plus_spec(one));
    ring_distributes(e, count, one);
    ring_units(e);
    // one - count e == e
    let sum = count.times_spec(e);
    ring_minus(one, sum);
    ring_plus(sum, e, e);
    ring_commutes(count.plus_spec(one), e);
    ring_cancels(one.minus_spec(sum), e, sum);
    assert forall|v: int| 0 <= v <= n implies all.times_spec(
        #[trigger] barycentric(coord)[v],
    ) == one by {
        assert(v > 0 ==> barycentric(coord)[v] == coord[v - 1]);
    }
}

/// The barycenter of the reference simplex has equal barycentric coordinates.
pub proof fn reference_barycenter_is_balanced<T: Scalar>(dim: nat)
    requires
        commutative_ring::<T>(),
        counts_exactly::<T>(),
        divides_exactly(T::from_count_spec(dim + 1)),
    ensures
        is_balanced(reference_barycenter::<T>(dim)),
{
    equal_shares_balance(reference_barycenter::<T>(dim));
}

proof fn lemma_total_of_corner<T: Scalar>(coord: Seq<T>, vertex: int)
    requires
        commutative_ring::<T>(),
        forall|i: int|
            0 <= i < coord.len() ==> #[trigger] coord[i] == (if vertex == i + 1 {
                T::one_spec()
            } else {
                T::zero_spec()
            }),
    ensures
        total(coord) == (if 1 <= vertex <= coord.len() {
            T::one_spec()
        } else {
            T::zero_spec()
        }),
    decreases coord.len(),
{
    if coord.len() > 0 {
        lemma_total_of_corner(coord.drop_last(), vertex);
        ring_plus(T::one_spec(), T::zero_spec(), T::zero_spec());
        ring_plus(T::zero_spec(), T::zero_spec(), T::zero_spec());
    }
}

/// One on the axis of a vertex, or nothing for the vertex at the origin, makes the vertex.
pub proof fn corners_are_vertices<T: Scalar>(coord: Seq<T>, vertex: int)
    requires
        commutative_ring::<T>(),
        0 <= vertex <= coord.len(),
        forall|i: int|
            0 <= i < coord.len() ==> #[trigger] coord[i] == (if vertex == i + 1 {
                T::one_spec()
            } else {
                T::zero_spec()
            }),
    ensures
        is_vertex(coord, vertex),
{
    let (zero, one) = (T::zero_spec(), T::one_spec());
    lemma_total_of_corner(coord, vertex);
    ring_minus(one, zero);
    ring_plus(one.minus_spec(zero), zero, zero);
    ring_minus(one, one);
    ring_plus(one, zero, zero);
    ring_cancels(one.minus_spec(one), zero, one);
    assert forall|v: int| 0 <= v <= coord.len() implies #[trigger] barycentric(coord)[v] == (if v
        == vertex {
        one
    } else {
        zero
    }) by {
        assert(v > 0 ==> barycentric(coord)[v] == coord[v - 1]);
    }
}

} // verus!
