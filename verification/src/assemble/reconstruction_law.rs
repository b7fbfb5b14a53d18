//! The inverse mass around a vertex maps dual vectors to primal vectors.

use crate::assemble::barycentric_dual::{
    consistent_at, gram, gram_inverse_at, inverse_block_at, projector_at, reconstruction_at,
    stabilization_weight, stabilized_at,
};
use crate::linalg::adjugate_law::{
    adjugate, adjugate_times_matrix, matrix_times_adjugate, product3,
};
use crate::linalg::algebra::reciprocal_spec;
use crate::linalg::dense::{
    determinant3, sum_products, sum_products_same, DenseMatrix,
};
use crate::linalg::products::{
    products_commute, products_of_sums, products_scaled, products_swapped, products_with_unit,
};
use crate::linalg::ring::{
    commutative_ring, ring_associates, ring_commutes, ring_distributes, ring_minus, ring_plus,
    ring_two, ring_units,
};
use crate::linalg::scalar::Scalar;
use vstd::prelude::*;

verus! {

/// Dividing by a coefficient is multiplying with its inverse.
pub open spec fn divides_exactly<T: Scalar>(d: T) -> bool {
    exists|e: T| #[trigger]
        e.times_spec(d) == T::one_spec() && forall|a: T| #[trigger]
            a.over_spec(d) == a.times_spec(e)
}

/// One on the diagonal and zero elsewhere.
pub open spec fn unit_at<T: Scalar>(i: int, j: int) -> T {
    if i == j {
        T::one_spec()
    } else {
        T::zero_spec()
    }
}

/// Two matrices of three rows are inverse to each other.
pub open spec fn inverse_to_each_other<T: Scalar>(
    a: spec_fn(int, int) -> T,
    b: spec_fn(int, int) -> T,
) -> bool {
    &&& forall|i: int, j: int|
        0 <= i < 3 && 0 <= j < 3 ==> #[trigger] product3(a, b, i, j) == unit_at::<T>(i, j)
    &&& forall|i: int, j: int|
        0 <= i < 3 && 0 <= j < 3 ==> #[trigger] product3(b, a, i, j) == unit_at::<T>(i, j)
}

/// The inverse of the products of the columns of the dual vectors, as a matrix.
pub open spec fn gram_inverse<T: Scalar>(dual: DenseMatrix<T>) -> spec_fn(int, int) -> T {
    |a: int, b: int| gram_inverse_at(dual, a, b)
}

/// The reconstruction of the columns of the dual vectors by the primal vectors is exact.
pub open spec fn reconstructs<T: Scalar>(
    primal: DenseMatrix<T>,
    dual: DenseMatrix<T>,
    volume: T,
) -> bool {
    forall|i: int, j: int|
        0 <= i < 3 && 0 <= j < 3 ==> #[trigger] reconstruction_at(primal, dual, i, j) == (if i == j {
            volume
        } else {
            T::zero_spec()
        })
}

/// The part without stabilization maps dual to primal vectors.
proof fn lemma_consistent<T: Scalar>(
    primal: DenseMatrix<T>,
    dual: DenseMatrix<T>,
    volume: T,
    i: int,
    a: int,
)
    requires
        commutative_ring::<T>(),
        divides_exactly(volume),
        reconstructs(primal, dual, volume),
        0 <= a < 3,
    ensures
        sum_products(
            |j: int| consistent_at(primal, volume, i, j),
            |j: int| dual.at(j, a),
            primal.rows() as int,
        ) == primal.at(i, a),
        sum_products(
            |j: int| consistent_at(primal, volume, j, i),
            |j: int| dual.at(j, a),
            primal.rows() as int,
        ) == primal.at(i, a),
{
    let n = primal.rows() as int;
    let e = choose|e: T| #[trigger]
        e.times_spec(volume) == T::one_spec() && forall|x: T| #[trigger]
            x.over_spec(volume) == x.times_spec(e);
    let d = |j: int| dual.at(j, a);
    let row = |k: int| primal.at(i, k);
    let m = |j: int, k: int| primal.at(j, k);
    let x = |j: int| sum_products(row, |k: int| m(j, k), 3);
    let first = |j: int| consistent_at(primal, volume, i, j);
    let second = |j: int| consistent_at(primal, volume, j, i);
    let scaled = |j: int| x(j).times_spec(e);
    assert forall|j: int| 0 <= j < n implies #[trigger] first(j) == scaled(j) by {
        sum_products_same(
            |k: int| primal.at(i, k),
            |k: int| primal.at(j, k),
            row,
            |k: int| m(j, k),
            3,
        );
        assert(x(j).over_spec(volume) == x(j).times_spec(e));
    }
    assert forall|j: int| 0 <= j < n implies #[trigger] second(j) == first(j) by {
        products_commute(|k: int| primal.at(j, k), |k: int| primal.at(i, k), 3);
    }
    sum_products_same(first, d, scaled, d, n);
    sum_products_same(second, d, first, d, n);
    products_scaled(e, x, d, n);
    products_swapped(row, m, d, n, 3);
    let cols = |k: int| sum_products(|j: int| m(j, k), d, n);
    let pick = |k: int|
        if k == a {
            volume
        } else {
            T::zero_spec()
        };
    assert forall|k: int| 0 <= k < 3 implies #[trigger] cols(k) == pick(k) by {
        sum_products_same(|j: int| m(j, k), d, |j: int| primal.at(j, k), |j: int| dual.at(j, a), n);
        assert(reconstruction_at(primal, dual, k, a) == pick(k));
    }
    sum_products_same(row, cols, row, pick, 3);
    products_with_unit(row, volume, a, 3);
    let p = primal.at(i, a);
    ring_commutes(p, volume);
    ring_associates(e, volume, p);
    ring_units(p);
}

/// Adding `d` gives `d` back only for zero.
proof fn lemma_vanishes<T: Scalar>(x: T, d: T)
    requires
        commutative_ring::<T>(),
        x.plus_spec(d) == d,
    ensures
        x == T::zero_spec(),
{
    ring_minus(x, d);
    ring_minus(T::zero_spec(), d);
    ring_plus(d, d, d);
}

/// The projection takes the dual vectors to zero, from either side.
proof fn lemma_projector<T: Scalar>(dual: DenseMatrix<T>, n: int, i: int, a: int)
    requires
        commutative_ring::<T>(),
        n == dual.rows(),
        inverse_to_each_other(gram_inverse(dual), gram(dual)),
        0 <= i < n,
        0 <= a < 3,
    ensures
        sum_products(|j: int| projector_at(dual, i, j), |j: int| dual.at(j, a), n)
            == T::zero_spec(),
        sum_products(|j: int| projector_at(dual, j, i), |j: int| dual.at(j, a), n)
            == T::zero_spec(),
{
    let one = T::one_spec();
    let g = gram(dual);
    let gi = gram_inverse(dual);
    let d = |j: int| dual.at(j, a);
    let da = dual.at(i, a);
    let unit = |j: int|
        if j == i {
            one
        } else {
            T::zero_spec()
        };
    // The sum with a row of the unit matrix.
    products_commute(unit, d, n);
    products_with_unit(d, one, i, n);
    ring_units(da);
    assert(sum_products(unit, d, n) == da);
    // From the left.
    let mat = |j: int, k: int| dual.at(j, k);
    let row = |l: int| dual.at(i, l);
    let r = |k: int| sum_products(|l: int| dual.at(i, l), |l: int| gram_inverse_at(dual, l, k), 3);
    let left = |j: int| projector_at(dual, i, j);
    let q = |j: int| sum_products(r, |k: int| mat(j, k), 3);
    let left_q = |j: int| left(j).plus_spec(q(j));
    assert forall|j: int| 0 <= j < n implies #[trigger] left_q(j) == unit(j) by {
        sum_products_same(r, |k: int| mat(j, k), r, |k: int| dual.at(j, k), 3);
        ring_minus(unit(j), q(j));
    }
    sum_products_same(left_q, d, unit, d, n);
    products_of_sums(left, q, d, n);
    products_swapped(r, mat, d, n, 3);
    let cols = |k: int| sum_products(|j: int| mat(j, k), d, n);
    let ga = |k: int| g(k, a);
    assert forall|k: int| 0 <= k < 3 implies #[trigger] cols(k) == ga(k) by {
        sum_products_same(|j: int| mat(j, k), d, |j: int| dual.at(j, k), |j: int| dual.at(j, a), n);
    }
    sum_products_same(r, cols, r, ga, 3);
    let turned = |k: int, l: int| gi(l, k);
    let r2 = |k: int| sum_products(row, |l: int| turned(k, l), 3);
    assert forall|k: int| 0 <= k < 3 implies #[trigger] r(k) == r2(k) by {
        sum_products_same(
            |l: int| dual.at(i, l),
            |l: int| gram_inverse_at(dual, l, k),
            row,
            |l: int| turned(k, l),
            3,
        );
    }
    sum_products_same(r, ga, r2, ga, 3);
    products_swapped(row, turned, ga, 3, 3);
    let inner = |l: int| sum_products(|k: int| turned(k, l), ga, 3);
    let at_a = |l: int|
        if l == a {
            one
        } else {
            T::zero_spec()
        };
    assert forall|l: int| 0 <= l < 3 implies #[trigger] inner(l) == at_a(l) by {
        sum_products_same(|k: int| turned(k, l), ga, |k: int| gi(l, k), |k: int| g(k, a), 3);
        assert(product3(gi, g, l, a) == unit_at::<T>(l, a));
    }
    sum_products_same(row, inner, row, at_a, 3);
    products_with_unit(row, one, a, 3);
    assert(sum_products(q, d, n) == da);
    lemma_vanishes(sum_products(left, d, n), da);
    // From the right.
    let right = |j: int| projector_at(dual, j, i);
    let rj = |j: int, k: int|
        sum_products(|l: int| dual.at(j, l), |l: int| gram_inverse_at(dual, l, k), 3);
    let p = |j: int| sum_products(row, |k: int| rj(j, k), 3);
    let right_p = |j: int| right(j).plus_spec(p(j));
    assert forall|j: int| 0 <= j < n implies #[trigger] right_p(j) == unit(j) by {
        let rows = |k: int|
            sum_products(|l: int| dual.at(j, l), |l: int| gram_inverse_at(dual, l, k), 3);
        products_commute(rows, |k: int| dual.at(i, k), 3);
        sum_products_same(|k: int| dual.at(i, k), rows, row, |k: int| rj(j, k), 3);
        ring_minus(unit(j), p(j));
    }
    sum_products_same(right_p, d, unit, d, n);
    products_of_sums(right, p, d, n);
    products_swapped(row, rj, d, n, 3);
    let sums = |k: int| sum_products(|j: int| rj(j, k), d, n);
    assert forall|k: int| 0 <= k < 3 implies #[trigger] sums(k) == at_a(k) by {
        let gk = |l: int| gi(l, k);
        let rows = |j: int| sum_products(gk, |l: int| mat(j, l), 3);
        assert forall|j: int| 0 <= j < n implies rj(j, k) == #[trigger] rows(j) by {
            products_commute(|l: int| dual.at(j, l), |l: int| gram_inverse_at(dual, l, k), 3);
            sum_products_same(
                |l: int| gram_inverse_at(dual, l, k),
                |l: int| dual.at(j, l),
                gk,
                |l: int| mat(j, l),
                3,
            );
        }
        let rk = |j: int| rj(j, k);
        assert forall|j: int| 0 <= j < n implies #[trigger] rk(j) == rows(j) by {
            assert(rj(j, k) == rows(j));
        }
        sum_products_same(rk, d, rows, d, n);
        products_swapped(gk, mat, d, n, 3);
        sum_products_same(gk, cols, gk, ga, 3);
        let ag = |l: int| g(a, l);
        assert forall|l: int| 0 <= l < 3 implies #[trigger] ga(l) == ag(l) by {
            products_commute(|j: int| dual.at(j, l), |j: int| dual.at(j, a), n);
        }
        sum_products_same(gk, ga, gk, ag, 3);
        products_commute(gk, ag, 3);
        assert(product3(g, gi, a, k) == unit_at::<T>(a, k));
    }
    sum_products_same(row, sums, row, at_a, 3);
    assert(sum_products(p, d, n) == da);
    lemma_vanishes(sum_products(right, d, n), da);
}

/// The stabilized part maps dual to primal vectors, from either side.
proof fn lemma_stabilized<T: Scalar>(
    primal: DenseMatrix<T>,
    dual: DenseMatrix<T>,
    volume: T,
    stabilization_factor: T,
    i: int,
    a: int,
)
    requires
        commutative_ring::<T>(),
        divides_exactly(volume),
        reconstructs(primal, dual, volume),
        inverse_to_each_other(gram_inverse(dual), gram(dual)),
        primal.rows() == dual.rows(),
        0 <= i < primal.rows(),
        0 <= a < 3,
    ensures
        sum_products(
            |j: int| stabilized_at(primal, dual, volume, stabilization_factor, i, j),
            |j: int| dual.at(j, a),
            primal.rows() as int,
        ) == primal.at(i, a),
        sum_products(
            |j: int| stabilized_at(primal, dual, volume, stabilization_factor, j, i),
            |j: int| dual.at(j, a),
            primal.rows() as int,
        ) == primal.at(i, a),
{
    let n = primal.rows() as int;
    let z = T::zero_spec();
    let d = |j: int| dual.at(j, a);
    let w = stabilization_weight(primal, volume, stabilization_factor);
    lemma_consistent(primal, dual, volume, i, a);
    lemma_projector(dual, n, i, a);
    ring_plus(primal.at(i, a), z, z);
    ring_units(w);
    let c1 = |j: int| consistent_at(primal, volume, i, j);
    let c2 = |j: int| consistent_at(primal, volume, j, i);
    let s1 = |j: int| stabilized_at(primal, dual, volume, stabilization_factor, i, j);
    let s2 = |j: int| stabilized_at(primal, dual, volume, stabilization_factor, j, i);
    let p1 = |j: int| projector_at(dual, i, j);
    let p2 = |j: int| projector_at(dual, j, i);
    if n == 3 {
        assert forall|j: int| 0 <= j < n implies #[trigger] s1(j) == c1(j) by {
            ring_plus(c1(j), z, z);
        }
        assert forall|j: int| 0 <= j < n implies #[trigger] s2(j) == c2(j) by {
            ring_plus(c2(j), z, z);
        }
        sum_products_same(s1, d, c1, d, n);
        sum_products_same(s2, d, c2, d, n);
    } else {
        let w1 = |j: int| p1(j).times_spec(w);
        let w2 = |j: int| p2(j).times_spec(w);
        let t1 = |j: int| c1(j).plus_spec(w1(j));
        let t2 = |j: int| c2(j).plus_spec(w2(j));
        sum_products_same(s1, d, t1, d, n);
        sum_products_same(s2, d, t2, d, n);
        products_of_sums(c1, w1, d, n);
        products_of_sums(c2, w2, d, n);
        products_scaled(w, p1, d, n);
        products_scaled(w, p2, d, n);
    }
}

/// The inverse of the products of the dual vectors is one, where the determinant has an inverse.
pub(crate) proof fn lemma_gram_inverse<T: Scalar>(dual: DenseMatrix<T>)
    requires
        commutative_ring::<T>(),
        divides_exactly(determinant3(gram(dual))),
    ensures
        inverse_to_each_other(gram_inverse(dual), gram(dual)),
{
    let g = gram(dual);
    let gi = gram_inverse(dual);
    let det = determinant3(g);
    let z = T::zero_spec();
    let e = choose|e: T| #[trigger]
        e.times_spec(det) == T::one_spec() && forall|x: T| #[trigger]
            x.over_spec(det) == x.times_spec(e);
    ring_units(e);
    assert forall|i: int, j: int| 0 <= i < 3 && 0 <= j < 3 implies #[trigger] product3(gi, g, i, j)
        == unit_at::<T>(i, j) by {
        let row = |k: int| adjugate(g)(i, k);
        let scaled = |k: int| row(k).times_spec(e);
        let col = |k: int| g(k, j);
        sum_products_same(|k: int| gi(i, k), col, scaled, col, 3);
        products_scaled(e, row, col, 3);
        adjugate_times_matrix(g, i, j);
        sum_products_same(row, col, |k: int| adjugate(g)(i, k), |k: int| g(k, j), 3);
    }
    assert forall|i: int, j: int| 0 <= i < 3 && 0 <= j < 3 implies #[trigger] product3(g, gi, i, j)
        == unit_at::<T>(i, j) by {
        let row = |k: int| g(i, k);
        let col = |k: int| adjugate(g)(k, j);
        let scaled = |k: int| col(k).times_spec(e);
        sum_products_same(row, |k: int| gi(k, j), row, scaled, 3);
        products_commute(row, scaled, 3);
        products_scaled(e, col, row, 3);
        products_commute(col, row, 3);
        matrix_times_adjugate(g, i, j);
        sum_products_same(row, col, |k: int| g(i, k), |k: int| adjugate(g)(k, j), 3);
    }
}

/// The inverse mass around a vertex is exact on constant fields: over coefficients that compute
/// exactly, where the reconstruction is exact and the dual vectors span space, it maps each dual
/// vector to its primal vector, whatever the stabilization.
pub proof fn stabilization_keeps_reconstruction<T: Scalar>(
    primal: DenseMatrix<T>,
    dual: DenseMatrix<T>,
    volume: T,
    stabilization_factor: T,
    i: int,
    a: int,
)
    requires
        commutative_ring::<T>(),
        divides_exactly(T::from_count_spec(2)),
        divides_exactly(volume),
        reconstructs(primal, dual, volume),
        divides_exactly(determinant3(gram(dual))),
        primal.rows() == dual.rows(),
        0 <= i < primal.rows(),
        0 <= a < 3,
    ensures
        sum_products(
            |j: int| inverse_block_at(primal, dual, volume, stabilization_factor, i, j),
            |j: int| dual.at(j, a),
            primal.rows() as int,
        ) == primal.at(i, a),
{
    let n = primal.rows() as int;
    let d = |j: int| dual.at(j, a);
    let p = primal.at(i, a);
    let s1 = |j: int| stabilized_at(primal, dual, volume, stabilization_factor, i, j);
    let s2 = |j: int| stabilized_at(primal, dual, volume, stabilization_factor, j, i);
    let both = |j: int| s1(j).plus_spec(s2(j));
    let half = reciprocal_spec::<T>(2);
    let block = |j: int| inverse_block_at(primal, dual, volume, stabilization_factor, i, j);
    let scaled = |j: int| both(j).times_spec(half);
    lemma_gram_inverse(dual);
    lemma_stabilized(primal, dual, volume, stabilization_factor, i, a);
    sum_products_same(block, d, scaled, d, n);
    products_scaled(half, both, d, n);
    products_of_sums(s1, s2, d, n);
    // Half of twice the value.
    let two = T::from_count_spec(2);
    let one = T::one_spec();
    let e = choose|e: T| #[trigger]
        e.times_spec(two) == one && forall|x: T| #[trigger] x.over_spec(two) == x.times_spec(e);
    assert(one.over_spec(two) == one.times_spec(e));
    ring_units(e);
    ring_two::<T>();
    ring_distributes(p, one, one);
    ring_units(p);
    ring_associates(half, two, p);
}

} // verus!
