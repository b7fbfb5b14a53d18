//! How much the stabilization adds to the inverse mass around a vertex.

use crate::assemble::barycentric_dual::{
    consistent_at, consistent_trace, gram, gram_inverse_at, inverse_block_at, projector_at,
    stabilization_weight, stabilized_at,
};
use crate::assemble::boundary_law::lemma_products_are_sum;
use crate::assemble::reconstruction_law::{
    divides_exactly, gram_inverse, inverse_to_each_other, lemma_gram_inverse, unit_at,
};
use crate::fe_law::lemma_counts_add;
use crate::linalg::adjugate_law::product3;
use crate::linalg::dense::{determinant3, sum_products, sum_products_same, DenseMatrix};
use crate::linalg::matrix_law::ring_cancels;
use crate::linalg::products::{products_commute, products_swapped};
use crate::linalg::ring::{
    commutative_ring, ring_associates, ring_commutes, ring_distributes, ring_minus, ring_sum_plus,
    ring_sum_swap, ring_two, ring_units, scalar_sum, scalar_sum_same, scalar_sum_scaled,
};
use crate::linalg::scalar::Scalar;
use crate::problems::step_law::{counts_exactly, quotient_is_product};
use vstd::prelude::*;

verus! {

/// A dual vector with a column of the inverse products.
spec fn combined<T: Scalar>(dual: DenseMatrix<T>, i: int, k: int) -> T {
    sum_products(|l: int| dual.at(i, l), |l: int| gram_inverse_at(dual, l, k), 3)
}

/// The combined vectors are dual to the columns of the dual vectors.
proof fn lemma_combined_column<T: Scalar>(dual: DenseMatrix<T>, k: int)
    requires
        commutative_ring::<T>(),
        inverse_to_each_other(gram_inverse(dual), gram(dual)),
        0 <= k < 3,
    ensures
        scalar_sum(
            dual.rows() as int,
            |i: int| combined(dual, i, k).times_spec(dual.at(i, k)),
        ) == T::one_spec(),
{
    let n = dual.rows() as int;
    let (g, gi) = (gram(dual), gram_inverse(dual));
    let mat = |i: int, l: int| dual.at(i, l);
    let gk = |l: int| gi(l, k);
    let d = |i: int| dual.at(i, k);
    let r = |i: int| combined(dual, i, k);
    let rows = |i: int| sum_products(gk, |l: int| mat(i, l), 3);
    assert forall|i: int| 0 <= i < n implies #[trigger] r(i) == rows(i) by {
        products_commute(|l: int| dual.at(i, l), |l: int| gram_inverse_at(dual, l, k), 3);
        sum_products_same(
            |l: int| gram_inverse_at(dual, l, k),
            |l: int| dual.at(i, l),
            gk,
            |l: int| mat(i, l),
            3,
        );
    }
    lemma_products_are_sum(r, d, n);
    scalar_sum_same(
        n,
        |i: int| r(i).times_spec(d(i)),
        |i: int| combined(dual, i, k).times_spec(dual.at(i, k)),
    );
    sum_products_same(r, d, rows, d, n);
    products_swapped(gk, mat, d, n, 3);
    let cols = |l: int| sum_products(|i: int| mat(i, l), d, n);
    let kg = |l: int| g(k, l);
    assert forall|l: int| 0 <= l < 3 implies #[trigger] cols(l) == kg(l) by {
        sum_products_same(|i: int| mat(i, l), d, |i: int| dual.at(i, l), |i: int| dual.at(i, k), n);
        products_commute(|i: int| dual.at(i, l), |i: int| dual.at(i, k), n);
    }
    sum_products_same(gk, cols, gk, kg, 3);
    products_commute(gk, kg, 3);
    assert(product3(g, gi, k, k) == unit_at::<T>(k, k));
}

/// The trace of the projection onto the columns of the dual vectors.
proof fn lemma_projection_trace<T: Scalar>(dual: DenseMatrix<T>)
    requires
        commutative_ring::<T>(),
        counts_exactly::<T>(),
        inverse_to_each_other(gram_inverse(dual), gram(dual)),
    ensures
        scalar_sum(
            dual.rows() as int,
            |i: int|
                scalar_sum(3, |k: int| combined(dual, i, k).times_spec(dual.at(i, k))),
        ) == T::from_count_spec(3),
{
    let n = dual.rows() as int;
    let h = |i: int, k: int| combined(dual, i, k).times_spec(dual.at(i, k));
    let one = T::one_spec();
    let (rows, given) = (
        |i: int| scalar_sum(3, |k: int| h(i, k)),
        |i: int| scalar_sum(3, |k: int| combined(dual, i, k).times_spec(dual.at(i, k))),
    );
    assert forall|i: int| 0 <= i < n implies #[trigger] given(i) == rows(i) by {
        scalar_sum_same(
            3,
            |k: int| combined(dual, i, k).times_spec(dual.at(i, k)),
            |k: int| h(i, k),
        );
    }
    scalar_sum_same(n, given, rows);
    ring_sum_swap(n, 3, h);
    let cols = |k: int| scalar_sum(n, |i: int| h(i, k));
    assert forall|k: int| 0 <= k < 3 implies #[trigger] cols(k) == one by {
        lemma_combined_column(dual, k);
        scalar_sum_same(
            n,
            |i: int| combined(dual, i, k).times_spec(dual.at(i, k)),
            |i: int| h(i, k),
        );
    }
    scalar_sum_same(3, cols, |k: int| one);
    lemma_ones_add_up::<T>(3);
}

proof fn lemma_ones_add_up<T: Scalar>(n: nat)
    requires
        commutative_ring::<T>(),
        counts_exactly::<T>(),
    ensures
        scalar_sum(n as int, |k: int| T::one_spec()) == T::from_count_spec(n),
    decreases n,
{
    if n > 0 {
        let m = (n - 1) as nat;
        lemma_ones_add_up::<T>(m);
        assert(T::from_count_spec(m + 1) == T::from_count_spec(m).plus_spec(T::one_spec()));
    }
}

/// The trace of the projection is the dimension of what it projects onto: the number of dual
/// vectors without the three dimensions that they span.
pub proof fn projector_has_the_rank_of_the_complement<T: Scalar>(dual: DenseMatrix<T>)
    requires
        commutative_ring::<T>(),
        counts_exactly::<T>(),
        divides_exactly(determinant3(gram(dual))),
        dual.rows() >= 3,
    ensures
        scalar_sum(dual.rows() as int, |i: int| projector_at(dual, i, i)) == T::from_count_spec(
            (dual.rows() - 3) as nat,
        ),
{
    let n = dual.rows() as int;
    let one = T::one_spec();
    lemma_gram_inverse(dual);
    lemma_projection_trace(dual);
    let p = |i: int| projector_at(dual, i, i);
    let q = |i: int| scalar_sum(3, |k: int| combined(dual, i, k).times_spec(dual.at(i, k)));
    let both = |i: int| p(i).plus_spec(q(i));
    assert forall|i: int| 0 <= i < n implies #[trigger] both(i) == one by {
        lemma_projector_diagonal(dual, i);
    }
    scalar_sum_same(n, both, |i: int| one);
    lemma_ones_add_up::<T>(n as nat);
    ring_sum_plus(n, p, q);
    lemma_counts_add::<T>((n - 3) as nat, 3);
    assert(((n - 3) as nat) + 3 == n as nat);
    ring_cancels(scalar_sum(n, p), T::from_count_spec((n - 3) as nat), T::from_count_spec(3));
}

proof fn lemma_projector_diagonal<T: Scalar>(dual: DenseMatrix<T>, i: int)
    requires
        commutative_ring::<T>(),
    ensures
        projector_at(dual, i, i).plus_spec(
            scalar_sum(3, |k: int| combined(dual, i, k).times_spec(dual.at(i, k))),
        ) == T::one_spec(),
{
    let rows = |k: int|
        sum_products(|l: int| dual.at(i, l), |l: int| gram_inverse_at(dual, l, k), 3);
    let d = |k: int| dual.at(i, k);
    lemma_products_are_sum(rows, d, 3);
    scalar_sum_same(
        3,
        |k: int| rows(k).times_spec(d(k)),
        |k: int| combined(dual, i, k).times_spec(dual.at(i, k)),
    );
    ring_minus(T::one_spec(), sum_products(rows, d, 3));
}

proof fn lemma_trace_is_sum<T: Scalar>(primal: DenseMatrix<T>, volume: T, n: int)
    ensures
        consistent_trace(primal, volume, n) == scalar_sum(
            n,
            |i: int| consistent_at(primal, volume, i, i),
        ),
    decreases n,
{
    if n > 0 {
        lemma_trace_is_sum(primal, volume, n - 1);
    }
}

/// The inverse mass and its stabilization have traces in the ratio of the factor: with more than
/// three dual vectors, the stabilized inverse mass has the trace of the part without
/// stabilization and that trace again times the factor.
pub proof fn stabilization_adds_the_factor_of_the_trace<T: Scalar>(
    primal: DenseMatrix<T>,
    dual: DenseMatrix<T>,
    volume: T,
    stabilization_factor: T,
)
    requires
        commutative_ring::<T>(),
        counts_exactly::<T>(),
        divides_exactly(T::from_count_spec(2)),
        divides_exactly(determinant3(gram(dual))),
        primal.rows() == dual.rows(),
        primal.rows() > 3,
        divides_exactly(T::from_count_spec((primal.rows() - 3) as nat)),
    ensures
        scalar_sum(
            primal.rows() as int,
            |i: int| inverse_block_at(primal, dual, volume, stabilization_factor, i, i),
        ) == scalar_sum(
            primal.rows() as int,
            |i: int| consistent_at(primal, volume, i, i),
        ).plus_spec(
            stabilization_factor.times_spec(
                scalar_sum(
                    primal.rows() as int,
                    |i: int| consistent_at(primal, volume, i, i),
                ),
            ),
        ),
{
    let n = primal.rows() as int;
    let w = stabilization_weight(primal, volume, stabilization_factor);
    let count = T::from_count_spec((n - 3) as nat);
    let block = |i: int| inverse_block_at(primal, dual, volume, stabilization_factor, i, i);
    let c = |i: int| consistent_at(primal, volume, i, i);
    let p = |i: int| projector_at(dual, i, i);
    let scaled = |i: int| w.times_spec(p(i));
    let both = |i: int| c(i).plus_spec(scaled(i));
    assert forall|i: int| 0 <= i < n implies #[trigger] block(i) == both(i) by {
        ring_commutes(p(i), w);
        let v = stabilized_at(primal, dual, volume, stabilization_factor, i, i);
        lemma_half_of_twice(v);
    }
    scalar_sum_same(n, block, both);
    ring_sum_plus(n, c, scaled);
    scalar_sum_scaled(n, w, p);
    projector_has_the_rank_of_the_complement(dual);
    lemma_trace_is_sum(primal, volume, n);
    let trace = consistent_trace(primal, volume, n);
    quotient_is_product(count, trace);
    ring_associates(stabilization_factor, trace.over_spec(count), count);
}

proof fn lemma_half_of_twice<T: Scalar>(v: T)
    requires
        commutative_ring::<T>(),
        divides_exactly(T::from_count_spec(2)),
    ensures
        v.plus_spec(v).times_spec(T::one_spec().over_spec(T::from_count_spec(2))) == v,
{
    let (one, two) = (T::one_spec(), T::from_count_spec(2));
    let half = one.over_spec(two);
    quotient_is_product(two, one);
    ring_two::<T>();
    ring_distributes(v, one, one);
    ring_units(v);
    ring_commutes(two, v);
    ring_associates(v, two, half);
    ring_commutes(v.plus_spec(v), half);
}

} // verus!
