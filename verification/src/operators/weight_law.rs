//! What weights do to the coefficients of forms.

use crate::exterior::exterior_dim_spec;
use crate::linalg::dense::{dot_to, dot_to_is, sum_products, DenseMatrix};
use crate::linalg::minors::values_of;
use crate::linalg::products::{products_commute, products_with_unit};
use crate::linalg::ring::{commutative_ring, scalar_sum};
use crate::linalg::scalar::Scalar;
use crate::operators::elements::{
    hodge_mass_value, is_mass_with, is_weighted_hodge_mass, ElMat, SimplexGeometry,
};
use crate::operators::mass_laws::{hodge_mass_scales_with_weight, nc_mass_scales_with_weight};
use crate::operators::quadrature_elements::nc_mass_value;
use crate::operators::weights::{ApplyWeight, ScalarWeight, SimplexQuadRule};
use vstd::prelude::*;

verus! {

/// A column of a matrix.
pub open spec fn column_of<T: Scalar>(m: DenseMatrix<T>, c: int) -> Seq<T> {
    Seq::new(m.rows(), |i: int| m.at(i, c))
}

/// A coefficient after weighting with a matrix: the coefficients of the form, each times the
/// value of the matrix that couples the two, add up to it.
pub open spec fn coupled<T: Scalar>(weight: DenseMatrix<T>, coeffs: Seq<T>, i: int) -> T {
    scalar_sum(
        coeffs.len() as int,
        |j: int| weight.at(i, j).times_spec(coeffs[j]),
    )
}

proof fn lemma_terms_add_up<T: Scalar>(
    f: spec_fn(int) -> T,
    g: spec_fn(int) -> T,
    h: spec_fn(int) -> T,
    n: int,
)
    requires
        forall|j: int| 0 <= j < n ==> #[trigger] h(j) == f(j).times_spec(g(j)),
    ensures
        scalar_sum(n, h) == sum_products(f, g, n),
    decreases n,
{
    if n > 0 {
        lemma_terms_add_up(f, g, h, n - 1);
        assert(h(n - 1) == f(n - 1).times_spec(g(n - 1)));
    }
}

/// Weighting with a matrix couples the coefficients of a form.
pub proof fn matrix_weight_couples<T: Scalar>(weight: DenseMatrix<T>, coeffs: Seq<T>, i: int)
    requires
        weight.fits(coeffs.len()),
        0 <= i < coeffs.len(),
    ensures
        weight.weighted_vector(coeffs)[i] == coupled(weight, coeffs, i),
{
    lemma_terms_add_up(
        |j: int| weight.at(i, j),
        |j: int| coeffs[j],
        |j: int| weight.at(i, j).times_spec(coeffs[j]),
        coeffs.len() as int,
    );
}

/// Weighting several forms at once with a matrix couples the coefficients of each.
pub proof fn matrix_weight_couples_columns<T: Scalar>(
    weight: DenseMatrix<T>,
    weighted: DenseMatrix<T>,
    coeffs: DenseMatrix<T>,
    i: int,
    c: int,
)
    requires
        weight.fits(coeffs.rows()),
        weight.is_weighted(weighted, coeffs),
        0 <= i < coeffs.rows(),
        0 <= c < coeffs.cols(),
    ensures
        weighted.at(i, c) == coupled(weight, column_of(coeffs, c), i),
{
    let n = coeffs.rows() as int;
    let column = column_of(coeffs, c);
    let (f, g) = (|j: int| weight.at(i, j), |j: int| coeffs.at(j, c));
    dot_to_is(weight, coeffs, i, c, n, f, g);
    lemma_terms_add_up(f, g, |j: int| weight.at(i, j).times_spec(column[j]), n);
}

/// A matrix that is a number times the unit matrix.
pub open spec fn is_number_matrix<T: Scalar>(weight: DenseMatrix<T>, n: nat, value: T) -> bool {
    &&& weight.fits(n)
    &&& forall|a: int, b: int|
        0 <= a < n && 0 <= b < n ==> #[trigger] weight.at(a, b) == (if a == b {
            value
        } else {
            T::zero_spec()
        })
}

/// A row of a number times the unit matrix scales a coefficient.
proof fn lemma_number_row<T: Scalar>(
    weight: DenseMatrix<T>,
    coeffs: DenseMatrix<T>,
    value: T,
    i: int,
    c: int,
)
    requires
        commutative_ring::<T>(),
        is_number_matrix(weight, coeffs.rows(), value),
        0 <= i < coeffs.rows(),
    ensures
        dot_to(weight, coeffs, i, c, coeffs.rows() as int) == coeffs.at(i, c).times_spec(value),
{
    let n = coeffs.rows() as int;
    let row = |k: int|
        if k == i {
            value
        } else {
            T::zero_spec()
        };
    let column = |k: int| coeffs.at(k, c);
    dot_to_is(weight, coeffs, i, c, n, row, column);
    products_commute(row, column, n);
    products_with_unit(column, value, i, n);
}

/// A number times the unit matrix weights forms as the number does.
pub proof fn number_matrix_weights_as_the_number<T: Scalar>(
    weight: DenseMatrix<T>,
    weighted: DenseMatrix<T>,
    coeffs: DenseMatrix<T>,
    value: T,
)
    requires
        commutative_ring::<T>(),
        is_number_matrix(weight, coeffs.rows(), value),
        weight.is_weighted(weighted, coeffs),
    ensures
        (ScalarWeight { value }).is_weighted(weighted, coeffs),
{
    weight.weighted_shape(weighted, coeffs);
    assert forall|i: int, c: int|
        0 <= i < weighted.rows() && 0 <= c < weighted.cols() implies #[trigger] weighted.at(i, c)
        == coeffs.at(i, c).times_spec(value) by {
        lemma_number_row(weight, coeffs, value, i, c);
    }
}

/// With a number times the unit matrix as the weight, each inner product of Whitney forms is that
/// number times the inner product without a weight.
pub proof fn number_matrix_scales_the_mass<T: Scalar>(
    m: ElMat<T>,
    geometry: SimplexGeometry<T>,
    grade: nat,
    weight: DenseMatrix<T>,
    terms: Seq<DenseMatrix<T>>,
    value: T,
    i: int,
    j: int,
)
    requires
        commutative_ring::<T>(),
        is_weighted_hodge_mass(m, geometry, grade, weight, terms),
        is_number_matrix(weight, exterior_dim_spec(geometry.dim as nat, grade), value),
        0 <= i < terms.len(),
        0 <= j < terms.len(),
        terms[i].rows() == exterior_dim_spec(geometry.dim as nat, grade),
        terms[i].cols() == grade + 1,
    ensures
        m.at(i, j) == hodge_mass_value(geometry, grade, values_of(terms[i]), i, j).times_spec(
            value,
        ),
{
    let left = choose|left: Seq<DenseMatrix<T>>| #[trigger]
        is_mass_with(m, geometry, grade, weight, terms, left);
    assert(weight.is_weighted(left[i], terms[i]));
    number_matrix_weights_as_the_number(weight, left[i], terms[i], value);
    hodge_mass_scales_with_weight(
        geometry,
        grade,
        ScalarWeight { value },
        left[i],
        terms[i],
        i,
        j,
    );
    assert(m.at(i, j) == hodge_mass_value(geometry, grade, values_of(left[i]), i, j));
}

/// With a number times the unit matrix as the weight at each point, each inner product of the
/// functions of slots is that number times the inner product without a weight.
pub proof fn number_matrix_scales_the_slot_mass<T: Scalar>(
    geometry: SimplexGeometry<T>,
    grade: nat,
    rule: SimplexQuadRule<T>,
    weight: DenseMatrix<T>,
    weighted: Seq<DenseMatrix<T>>,
    bases: Seq<DenseMatrix<T>>,
    value: T,
    i: int,
    j: int,
)
    requires
        commutative_ring::<T>(),
        rule.wf(),
        is_number_matrix(weight, exterior_dim_spec(geometry.dim as nat, grade), value),
        forall|q: int|
            0 <= q < rule.points@.len() ==> weight.is_weighted(#[trigger] weighted[q], bases[q])
                && bases[q].rows() == exterior_dim_spec(geometry.dim as nat, grade)
                && i < bases[q].cols(),
        0 <= i,
    ensures
        nc_mass_value(geometry, grade, rule, |q: int| values_of(weighted[q]), i, j)
            == nc_mass_value(geometry, grade, rule, |q: int| values_of(bases[q]), i, j).times_spec(
            value,
        ),
{
    let number = ScalarWeight { value };
    assert forall|q: int| 0 <= q < rule.points@.len() implies number.is_weighted(
        #[trigger] weighted[q],
        bases[q],
    ) && bases[q].rows() == exterior_dim_spec(geometry.dim as nat, grade) && i
        < bases[q].cols() by {
        assert(weight.is_weighted(weighted[q], bases[q]));
        number_matrix_weights_as_the_number(weight, weighted[q], bases[q], value);
    }
    nc_mass_scales_with_weight(geometry, grade, rule, number, weighted, bases, i, j);
}

} // verus!
