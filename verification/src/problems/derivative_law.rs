//! How the matrices of derivatives pair forms.

use crate::linalg::action_law::front_within;
use crate::linalg::algebra::{matrix_times, product_terms};
use crate::linalg::csr::compressed;
use crate::linalg::dense::{sum_products, sum_products_same};
use crate::linalg::matrix_law::{row_compressed, row_of_product};
use crate::linalg::products::{
    products_commute, products_of_sums, products_with_unit, products_with_zeros,
};
use crate::linalg::ring::{commutative_ring, ring_commutes, ring_moves, ring_plus};
use crate::linalg::scalar::Scalar;
use crate::linalg::sparse::{transposed, triplets_within};
use crate::problems::mixed_galmats::{coo_product, derivative_entries, mass_entries, MixedGalmats};
use crate::topology::complex::Complex;
use vstd::prelude::*;

verus! {

/// The products of the values at the same places, added up.
pub open spec fn pairing<T: Scalar>(x: Seq<T>, y: Seq<T>) -> T {
    sum_products(|i: int| x[i], |i: int| y[i], x.len() as int)
}

/// The entries, each with the values of two vectors at its row and its column, added up.
pub open spec fn bilinear<T: Scalar>(
    entries: Seq<(usize, usize, T)>,
    x: Seq<T>,
    y: Seq<T>,
) -> T
    decreases entries.len(),
{
    if entries.len() == 0 {
        T::zero_spec()
    } else {
        let (r, c, v) = entries.last();
        bilinear(entries.drop_last(), x, y).plus_spec(
            x[r as int].times_spec(v.times_spec(y[c as int])),
        )
    }
}

/// A vector paired with what a matrix does to another.
pub proof fn pairing_by_entries<T: Scalar>(
    entries: Seq<(usize, usize, T)>,
    ncols: int,
    x: Seq<T>,
    y: Seq<T>,
)
    requires
        commutative_ring::<T>(),
        triplets_within(entries, x.len() as int, ncols),
    ensures
        pairing(x, matrix_times(entries, x.len(), y)) == bilinear(entries, x, y),
    decreases entries.len(),
{
    let n = x.len() as int;
    let z = T::zero_spec();
    let f = |i: int| x[i];
    let whole = matrix_times(entries, x.len(), y);
    let g = |i: int| whole[i];
    if entries.len() == 0 {
        let zeros = |i: int| z;
        sum_products_same(f, g, f, zeros, n);
        products_commute(f, zeros, n);
        products_with_zeros(zeros, f, n);
    } else {
        let front = entries.drop_last();
        let (row, col, v) = entries[entries.len() - 1];
        front_within(entries, n, ncols);
        pairing_by_entries(front, ncols, x, y);
        let part = matrix_times(front, x.len(), y);
        let h = |i: int| part[i];
        let t = v.times_spec(y[col as int]);
        let at = row as int;
        let one = |k: int|
            if k == at {
                t
            } else {
                T::zero_spec()
            };
        let both = |k: int| h(k).plus_spec(one(k));
        assert forall|i: int| 0 <= i < n implies #[trigger] g(i) == both(i) by {
            ring_plus(h(i), z, z);
        }
        sum_products_same(f, g, f, both, n);
        products_commute(f, both, n);
        products_of_sums(h, one, f, n);
        products_commute(h, f, n);
        products_commute(one, f, n);
        products_with_unit(f, t, at, n);
    }
}

/// Rows and columns exchanged, with the vectors.
pub proof fn bilinear_transposed<T: Scalar>(
    entries: Seq<(usize, usize, T)>,
    x: Seq<T>,
    y: Seq<T>,
)
    requires
        commutative_ring::<T>(),
    ensures
        bilinear(transposed(entries), y, x) == bilinear(entries, x, y),
    decreases entries.len(),
{
    let all = transposed(entries);
    if entries.len() > 0 {
        let front = entries.drop_last();
        bilinear_transposed(front, x, y);
        assert(all.drop_last() =~= transposed(front));
        let (r, c, v) = entries.last();
        let (a, b) = (x[r as int], y[c as int]);
        ring_moves(a, v, b);
        ring_moves(b, v, a);
        ring_commutes(a, b);
    } else {
        assert(all.len() == 0);
    }
}

/// The transposed matrix is the adjoint: it pairs as the matrix does.
pub proof fn transposed_is_adjoint<T: Scalar>(
    entries: Seq<(usize, usize, T)>,
    x: Seq<T>,
    y: Seq<T>,
)
    requires
        commutative_ring::<T>(),
        triplets_within(entries, x.len() as int, y.len() as int),
    ensures
        pairing(y, matrix_times(transposed(entries), y.len(), x)) == pairing(
            x,
            matrix_times(entries, x.len(), y),
        ),
        triplets_within(transposed(entries), y.len() as int, x.len() as int),
{
    let all = transposed(entries);
    assert forall|i: int| 0 <= i < all.len() implies (#[trigger] all[i]).0 < y.len() && all[i].1
        < x.len() by {
        assert(entries[i].0 < x.len());
    }
    pairing_by_entries(entries, y.len() as int, x, y);
    pairing_by_entries(all, x.len() as int, y, x);
    bilinear_transposed(entries, x, y);
}

/// A product of matrices does one after the other.
pub proof fn product_acts<T: Scalar>(
    lhs: Seq<(usize, usize, T)>,
    rhs: Seq<(usize, usize, T)>,
    nrows: nat,
    inner: nat,
    ncols: nat,
    x: Seq<T>,
)
    requires
        commutative_ring::<T>(),
        triplets_within(lhs, nrows as int, inner as int),
        triplets_within(rhs, inner as int, ncols as int),
    ensures
        matrix_times(coo_product(compressed(lhs), compressed(rhs)), nrows, x) == matrix_times(
            lhs,
            nrows,
            matrix_times(rhs, inner, x),
        ),
        triplets_within(coo_product(compressed(lhs), compressed(rhs)), nrows as int, ncols as int),
{
    let (n, m, c) = (nrows as int, inner as int, ncols as int);
    let whole = coo_product(compressed(lhs), compressed(rhs));
    let left = matrix_times(whole, nrows, x);
    let y = matrix_times(rhs, inner, x);
    let right = matrix_times(lhs, nrows, y);
    let z = matrix_times(compressed(rhs), inner, x);
    row_compressed(lhs, n, m, y, 0);
    row_compressed(rhs, m, c, x, 0);
    assert forall|r: int| 0 <= r < m implies #[trigger] z[r] == y[r] by {
        row_compressed(rhs, m, c, x, r);
    }
    assert(z =~= y);
    row_of_product(compressed(lhs), compressed(rhs), n, inner, c, x, 0);
    let terms = product_terms(compressed(lhs), compressed(rhs));
    row_compressed(terms, n, c, x, 0);
    assert forall|r: int| 0 <= r < n implies #[trigger] left[r] == right[r] by {
        row_of_product(compressed(lhs), compressed(rhs), n, inner, c, x, r);
        row_compressed(terms, n, c, x, r);
        row_compressed(lhs, n, m, y, r);
    }
    assert(left =~= right);
}

/// A mass between a derivative and its adjoint: vectors are paired by what the mass makes of
/// their derivatives.
pub open spec fn pairs_derivatives<T: Scalar>(
    whole: Seq<(usize, usize, T)>,
    d: Seq<(usize, usize, T)>,
    mass: Seq<(usize, usize, T)>,
    n: nat,
    m: nat,
) -> bool {
    forall|x: Seq<T>, y: Seq<T>|
        x.len() == n && y.len() == n ==> #[trigger] pairing(x, matrix_times(whole, n, y))
            == pairing(matrix_times(d, m, x), matrix_times(mass, m, matrix_times(d, m, y)))
}

/// The adjoint of a derivative with a mass: pairing a vector with it is pairing the derivative of
/// the vector by the mass.
pub open spec fn pairs_with_derivative<T: Scalar>(
    whole: Seq<(usize, usize, T)>,
    d: Seq<(usize, usize, T)>,
    mass: Seq<(usize, usize, T)>,
    n: nat,
    m: nat,
) -> bool {
    forall|x: Seq<T>, y: Seq<T>|
        x.len() == n && y.len() == m ==> #[trigger] pairing(x, matrix_times(whole, n, y))
            == pairing(matrix_times(d, m, x), matrix_times(mass, m, y))
}

/// The mass of derivatives.
pub open spec fn weighs_derivative<T: Scalar>(
    whole: Seq<(usize, usize, T)>,
    d: Seq<(usize, usize, T)>,
    mass: Seq<(usize, usize, T)>,
    m: nat,
) -> bool {
    forall|x: Seq<T>| #[trigger]
        matrix_times(whole, m, x) == matrix_times(mass, m, matrix_times(d, m, x))
}

/// Over coefficients that compute exactly, a mass between the transposed matrix of a derivative
/// and the matrix itself pairs derivatives.
pub proof fn sandwich_pairs_derivatives<T: Scalar>(
    d: Seq<(usize, usize, T)>,
    mass: Seq<(usize, usize, T)>,
    n: nat,
    m: nat,
)
    requires
        commutative_ring::<T>(),
        triplets_within(d, m as int, n as int),
        triplets_within(mass, m as int, m as int),
    ensures
        pairs_derivatives(
            coo_product(
                coo_product(compressed(transposed(d)), compressed(mass)),
                compressed(d),
            ),
            d,
            mass,
            n,
            m,
        ),
{
    let dt = transposed(d);
    let half = coo_product(compressed(dt), compressed(mass));
    let whole = coo_product(half, compressed(d));
    assert forall|x: Seq<T>, y: Seq<T>| x.len() == n && y.len() == n implies #[trigger] pairing(
        x,
        matrix_times(whole, n, y),
    ) == pairing(matrix_times(d, m, x), matrix_times(mass, m, matrix_times(d, m, y))) by {
        let dy = matrix_times(d, m, y);
        let dx = matrix_times(d, m, x);
        let mdy = matrix_times(mass, m, dy);
        transposed_is_adjoint(d, mdy, x);
        product_acts(dt, mass, n, m, m, dy);
        lemma_half_product(half, d, n, m, n, y);
        lemma_pairing_commutes(mdy, dx);
    }
}

/// A product whose first factor is in order already.
proof fn lemma_half_product<T: Scalar>(
    half: Seq<(usize, usize, T)>,
    d: Seq<(usize, usize, T)>,
    nrows: nat,
    inner: nat,
    ncols: nat,
    x: Seq<T>,
)
    requires
        commutative_ring::<T>(),
        triplets_within(half, nrows as int, inner as int),
        triplets_within(d, inner as int, ncols as int),
    ensures
        matrix_times(coo_product(half, compressed(d)), nrows, x) == matrix_times(
            half,
            nrows,
            matrix_times(d, inner, x),
        ),
{
    let (n, m, c) = (nrows as int, inner as int, ncols as int);
    let left = matrix_times(coo_product(half, compressed(d)), nrows, x);
    let y = matrix_times(d, inner, x);
    let right = matrix_times(half, nrows, y);
    let z = matrix_times(compressed(d), inner, x);
    row_compressed(d, m, c, x, 0);
    assert forall|r: int| 0 <= r < m implies #[trigger] z[r] == y[r] by {
        row_compressed(d, m, c, x, r);
    }
    assert(z =~= y);
    let terms = product_terms(half, compressed(d));
    assert forall|r: int| 0 <= r < n implies #[trigger] left[r] == right[r] by {
        row_of_product(half, compressed(d), n, inner, c, x, r);
        row_compressed(terms, n, c, x, r);
    }
    assert(left =~= right);
}

proof fn lemma_pairing_commutes<T: Scalar>(x: Seq<T>, y: Seq<T>)
    requires
        commutative_ring::<T>(),
        x.len() == y.len(),
    ensures
        pairing(x, y) == pairing(y, x),
{
    products_commute(|i: int| x[i], |i: int| y[i], x.len() as int);
}

/// The matrices of a derivative and of its adjoint with a mass.
pub proof fn derivative_and_adjoint_pair<T: Scalar>(
    d: Seq<(usize, usize, T)>,
    mass: Seq<(usize, usize, T)>,
    n: nat,
    m: nat,
)
    requires
        commutative_ring::<T>(),
        triplets_within(d, m as int, n as int),
        triplets_within(mass, m as int, m as int),
    ensures
        weighs_derivative(coo_product(compressed(mass), compressed(d)), d, mass, m),
        pairs_with_derivative(
            coo_product(compressed(transposed(d)), compressed(mass)),
            d,
            mass,
            n,
            m,
        ),
{
    let dt = transposed(d);
    let forward = coo_product(compressed(mass), compressed(d));
    let back = coo_product(compressed(dt), compressed(mass));
    assert forall|x: Seq<T>| #[trigger]
        matrix_times(forward, m, x) == matrix_times(mass, m, matrix_times(d, m, x)) by {
        product_acts(mass, d, m, m, n, x);
    }
    assert forall|x: Seq<T>, y: Seq<T>| x.len() == n && y.len() == m implies #[trigger] pairing(
        x,
        matrix_times(back, n, y),
    ) == pairing(matrix_times(d, m, x), matrix_times(mass, m, y)) by {
        let my = matrix_times(mass, m, y);
        transposed_is_adjoint(d, my, x);
        product_acts(dt, mass, n, m, m, y);
        lemma_pairing_commutes(my, matrix_times(d, m, x));
    }
}

impl<T: Scalar> MixedGalmats<T> {
    /// The derivative of the grade below is weighed by the mass of the grade, its adjoint pairs
    /// with that derivative, and the derivatives of the grade are paired by the mass of the grade
    /// above.
    pub open spec fn pairs_forms(
        &self,
        topology: &Complex,
        grade: int,
        elmats_plus: Seq<Vec<T>>,
    ) -> bool {
        let n = topology.simplices(grade).len();
        &&& grade > 0 ==> {
            let d = derivative_entries::<T>(topology, grade - 1);
            let mass = self.mass_u.entries();
            &&& weighs_derivative(self.dif_sigma.entries(), d, mass, n)
            &&& pairs_with_derivative(
                self.codif_u.entries(),
                d,
                mass,
                topology.simplices(grade - 1).len(),
                n,
            )
        }
        &&& grade < topology.dimension() ==> pairs_derivatives(
            self.codifdif_u.entries(),
            derivative_entries::<T>(topology, grade),
            mass_entries(topology, grade + 1, elmats_plus),
            n,
            topology.simplices(grade + 1).len(),
        )
    }
}

} // verus!
