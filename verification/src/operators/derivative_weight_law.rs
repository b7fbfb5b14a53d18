//! How the element matrices of derivatives depend on their weight.

use crate::exterior::exterior_dim_spec;
use crate::linalg::dense::{sum_products, sum_products_same, DenseMatrix};
use crate::linalg::minors::{is_matrix, values_of};
use crate::linalg::products::{products_commute, products_scaled};
use crate::linalg::ring::{commutative_ring, ring_commutes};
use crate::linalg::scalar::Scalar;
use crate::operators::derivatives::{
    derivative, flipped, mass_table, sandwich, table_product, CodifDifElmat, CodifElmat, DifElmat,
};
use crate::operators::elements::{
    hodge_mass_value, is_mass_with, is_weighted_hodge_mass, lemma_mass_value_same, wedge_columns,
    CoordAwareElMatProvider, ElMat, ElMatProvider, HodgeMassElmat, SimplexGeometry,
};
use crate::operators::mass_laws::hodge_mass_scales_with_weight;
use crate::operators::reference::standard_subsimps_spec;
use crate::operators::weights::{ApplyWeight, ScalarWeight};
use crate::topology::simplex::binomial;
use vstd::prelude::*;

verus! {

/// A table whose values are those of another times a number.
pub open spec fn is_multiple_table<T: Scalar>(
    f: spec_fn(int, int) -> T,
    g: spec_fn(int, int) -> T,
    value: T,
    rows: int,
    cols: int,
) -> bool {
    forall|i: int, j: int|
        0 <= i < rows && 0 <= j < cols ==> #[trigger] f(i, j) == g(i, j).times_spec(value)
}

/// With a number as the weight, the inner products of Whitney forms are those without a weight
/// times the number.
pub proof fn weighted_mass_is_multiple<T: Scalar>(
    provider: HodgeMassElmat<T>,
    mass: ElMat<T>,
    geometry: SimplexGeometry<T>,
    weight: ScalarWeight<T>,
)
    requires
        commutative_ring::<T>(),
        provider.wf(),
        provider.dimension() == geometry.dim,
        provider.is_weighted_elmat(mass, geometry, weight),
    ensures
        ({
            let n = binomial(provider.dimension() + 1, provider.degree() + 1);
            &&& mass.wf() && mass.rows() == n && mass.cols() == n
            &&& is_multiple_table(
                values_of(mass),
                mass_table(geometry, provider.degree()),
                weight.value,
                n as int,
                n as int,
            )
        }),
{
    provider.terms_are();
    let (dim, grade) = (provider.dimension(), provider.degree());
    let terms = provider.terms();
    let sets = standard_subsimps_spec(dim, grade);
    let n = terms.len() as int;
    let left = choose|left: Seq<DenseMatrix<T>>| #[trigger]
        is_mass_with(mass, geometry, grade, weight, terms, left);
    let f = values_of(mass);
    let g = mass_table(geometry, grade);
    assert forall|i: int, j: int| 0 <= i < n && 0 <= j < n implies #[trigger] f(i, j) == g(
        i,
        j,
    ).times_spec(weight.value) by {
        assert(weight.is_weighted(left[i], terms[i]));
        assert(is_matrix(
            terms[i],
            exterior_dim_spec(dim, grade),
            grade + 1,
            wedge_columns(dim, sets[i]),
        ));
        hodge_mass_scales_with_weight(geometry, grade, weight, left[i], terms[i], i, j);
        let (a, b) = (values_of(terms[i]), wedge_columns::<T>(dim, sets[i]));
        assert forall|p: int, q: int|
            0 <= p < exterior_dim_spec(dim, grade) && 0 <= q <= grade implies #[trigger] a(p, q)
            == b(p, q) by {
            assert(terms[i].at(p, q) == b(p, q));
        }
        lemma_mass_value_same(geometry, grade, a, b, i, j);
        assert(mass.at(i, j) == hodge_mass_value(geometry, grade, values_of(left[i]), i, j));
    }
}

proof fn lemma_left_factor<T: Scalar>(
    f: spec_fn(int, int) -> T,
    g: spec_fn(int, int) -> T,
    h: spec_fn(int, int) -> T,
    value: T,
    rows: int,
    n: int,
    i: int,
    j: int,
)
    requires
        commutative_ring::<T>(),
        is_multiple_table(f, g, value, rows, n),
        0 <= i < rows,
    ensures
        table_product(f, h, n)(i, j) == table_product(g, h, n)(i, j).times_spec(value),
{
    let gi = |k: int| g(i, k);
    let hj = |k: int| h(k, j);
    sum_products_same(|k: int| f(i, k), hj, |k: int| gi(k).times_spec(value), hj, n);
    products_scaled(value, gi, hj, n);
    ring_commutes(value, sum_products(gi, hj, n));
}

proof fn lemma_right_factor<T: Scalar>(
    h: spec_fn(int, int) -> T,
    f: spec_fn(int, int) -> T,
    g: spec_fn(int, int) -> T,
    value: T,
    n: int,
    cols: int,
    i: int,
    j: int,
)
    requires
        commutative_ring::<T>(),
        is_multiple_table(f, g, value, n, cols),
        0 <= j < cols,
    ensures
        table_product(h, f, n)(i, j) == table_product(h, g, n)(i, j).times_spec(value),
{
    let gj = |k: int| g(k, j);
    let hi = |k: int| h(i, k);
    let scaled = |k: int| gj(k).times_spec(value);
    sum_products_same(hi, |k: int| f(k, j), hi, scaled, n);
    products_commute(hi, scaled, n);
    products_scaled(value, gj, hi, n);
    products_commute(gj, hi, n);
    ring_commutes(value, sum_products(hi, gj, n));
}

/// With a number as the weight, the element matrix of the derivative is the one without a weight
/// times the number.
pub proof fn weighted_derivative_is_multiple<T: Scalar>(
    provider: DifElmat<T>,
    m: ElMat<T>,
    plain: ElMat<T>,
    geometry: SimplexGeometry<T>,
    weight: ScalarWeight<T>,
    i: int,
    j: int,
)
    requires
        commutative_ring::<T>(),
        provider.masses().wf(),
        provider.masses().dimension() == geometry.dim,
        provider.is_weighted_elmat(m, geometry, weight),
        provider.is_elmat(plain, geometry),
        0 <= i < m.rows(),
        0 <= j < m.cols(),
    ensures
        m.at(i, j) == plain.at(i, j).times_spec(weight.value),
{
    let (dim, grade) = (provider.masses().dimension(), provider.masses().degree());
    let n = binomial(dim + 1, grade + 1) as int;
    let d = derivative::<T>(dim, (grade - 1) as nat);
    let mass = choose|mass: ElMat<T>|
        #[trigger] provider.masses().is_weighted_elmat(mass, geometry, weight) && is_matrix(
            m,
            binomial(dim + 1, grade + 1),
            binomial(dim + 1, grade),
            table_product(values_of(mass), d, n),
        );
    weighted_mass_is_multiple(provider.masses(), mass, geometry, weight);
    let g = mass_table(geometry, grade);
    lemma_left_factor(values_of(mass), g, d, weight.value, n, n, i, j);
    assert(m.at(i, j) == table_product(values_of(mass), d, n)(i, j));
    assert(plain.at(i, j) == table_product(g, d, n)(i, j));
}

/// With a number as the weight, the element matrix of the adjoint of the derivative is the one
/// without a weight times the number.
pub proof fn weighted_adjoint_is_multiple<T: Scalar>(
    provider: CodifElmat<T>,
    m: ElMat<T>,
    plain: ElMat<T>,
    geometry: SimplexGeometry<T>,
    weight: ScalarWeight<T>,
    i: int,
    j: int,
)
    requires
        commutative_ring::<T>(),
        provider.masses().wf(),
        provider.masses().dimension() == geometry.dim,
        provider.is_weighted_elmat(m, geometry, weight),
        provider.is_elmat(plain, geometry),
        0 <= i < m.rows(),
        0 <= j < m.cols(),
    ensures
        m.at(i, j) == plain.at(i, j).times_spec(weight.value),
{
    let (dim, grade) = (provider.masses().dimension(), provider.masses().degree());
    let n = binomial(dim + 1, grade + 1) as int;
    let d = flipped(derivative::<T>(dim, (grade - 1) as nat));
    let mass = choose|mass: ElMat<T>|
        #[trigger] provider.masses().is_weighted_elmat(mass, geometry, weight) && is_matrix(
            m,
            binomial(dim + 1, grade),
            binomial(dim + 1, grade + 1),
            table_product(d, values_of(mass), n),
        );
    weighted_mass_is_multiple(provider.masses(), mass, geometry, weight);
    let g = mass_table(geometry, grade);
    lemma_right_factor(d, values_of(mass), g, weight.value, n, n, i, j);
    assert(m.at(i, j) == table_product(d, values_of(mass), n)(i, j));
    assert(plain.at(i, j) == table_product(d, g, n)(i, j));
}

/// With a number as the weight, the element matrix of the inner products of derivatives is the
/// one without a weight times the number.
pub proof fn weighted_sandwich_is_multiple<T: Scalar>(
    provider: CodifDifElmat<T>,
    m: ElMat<T>,
    plain: ElMat<T>,
    geometry: SimplexGeometry<T>,
    weight: ScalarWeight<T>,
    i: int,
    j: int,
)
    requires
        commutative_ring::<T>(),
        provider.masses().wf(),
        provider.masses().dimension() == geometry.dim,
        provider.masses().degree() >= 1,
        provider.is_weighted_elmat(m, geometry, weight),
        provider.is_elmat(plain, geometry),
        0 <= i < m.rows(),
        0 <= j < m.cols(),
    ensures
        m.at(i, j) == plain.at(i, j).times_spec(weight.value),
{
    let (dim, grade) = (provider.masses().dimension(), provider.degree());
    let n = binomial(dim + 1, grade + 2) as int;
    let d = derivative::<T>(dim, grade);
    let mass = choose|mass: ElMat<T>|
        #[trigger] provider.masses().is_weighted_elmat(mass, geometry, weight) && is_matrix(
            m,
            binomial(dim + 1, grade + 1),
            binomial(dim + 1, grade + 1),
            sandwich(dim, grade, values_of(mass)),
        );
    weighted_mass_is_multiple(provider.masses(), mass, geometry, weight);
    let g = mass_table(geometry, grade + 1);
    let (half, bare) = (
        table_product(flipped(d), values_of(mass), n),
        table_product(flipped(d), g, n),
    );
    assert forall|a: int, b: int| 0 <= a < m.rows() && 0 <= b < n implies #[trigger] half(a, b)
        == bare(a, b).times_spec(weight.value) by {
        lemma_right_factor(flipped(d), values_of(mass), g, weight.value, n, n, a, b);
    }
    lemma_left_factor(half, bare, d, weight.value, m.rows() as int, n, i, j);
    assert(m.at(i, j) == sandwich(dim, grade, values_of(mass))(i, j));
    assert(plain.at(i, j) == sandwich(dim, grade, g)(i, j));
}

} // verus!
