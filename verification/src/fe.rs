//! Norms and errors of finite element solutions.

use crate::assemble::galerkin::{assemble_galmat, galmat_entries};
use crate::exterior::exterior_dim_spec;
use crate::io::fields::{Cochain, MeshCoords};
use crate::linalg::algebra::{matrix_times, mul_vec};
use crate::linalg::csr::{compressed, CsrMatrix};
use crate::linalg::minors::{is_matrix, values_of};
use crate::linalg::scalar::Scalar;
use crate::linalg::vectors::{difference_of, minus};
use crate::operators::elements::{gramian, inner_mat, inner_value, inner_value_same, multi_gramian, sum_terms, SimplexGeometry};
use crate::operators::reference::{reference_fits, reference_sizes};
use crate::operators::source::{as_column, field_message, field_side};
use crate::operators::weights::{integral, integrate, SimplexQuadRule};
use crate::problems::mixed_galmats::{dot_of, dot_values};
use crate::topology::complex::Complex;
use crate::topology::simplex::binomial;
use crate::whitney::{cochain_dif, is_derivative, whitney_at, WhitneyForm};
use vstd::prelude::*;

verus! {

/// The error in the graph norm of the exterior derivative, from the error of the form and that
/// of its derivative.
pub fn hd_error<T: Scalar>(l2_error: T, derivative_l2_error: T) -> (error: T)
    ensures
        error == graph_error(l2_error, derivative_l2_error),
{
    l2_error.hypot(derivative_l2_error)
}

/// The square root of the quadratic form of a Galerkin matrix.
pub open spec fn energy<T: Scalar>(
    fe: Cochain<T>,
    topology: Complex,
    elmats: Seq<Vec<T>>,
) -> T {
    let grade = fe.dim as int;
    let entries = compressed(
        galmat_entries(&topology, grade, grade, elmats, elmats.len() as int),
    );
    dot_values(
        fe.coeffs@,
        matrix_times(entries, fe.coeffs@.len(), fe.coeffs@),
        fe.coeffs@.len() as int,
    ).square_root_spec()
}

/// Element matrices for each cell, between forms of one degree.
pub open spec fn elmats_on<T: Scalar>(topology: Complex, grade: int, elmats: Seq<Vec<T>>) -> bool {
    let n = binomial((topology.dimension() + 1) as nat, (grade + 1) as nat);
    &&& elmats.len() == topology.simplices(topology.dimension() as int).len()
    &&& forall|i: int| 0 <= i < elmats.len() ==> (#[trigger] elmats[i])@.len() == n * n
}

fn energy_norm<T: Scalar>(fe: &Cochain<T>, topology: &Complex, elmats: &Vec<Vec<T>>) -> (norm: T)
    requires
        topology.wf(),
        fe.on(*topology),
        elmats_on(*topology, fe.dim as int, elmats@),
    ensures
        norm == energy(*fe, *topology, elmats@),
{
    let galmat = assemble_galmat(topology, fe.dim, fe.dim, elmats);
    let matrix = CsrMatrix::from_coo(&galmat);
    let image = mul_vec(&matrix, fe.coeffs.as_slice());
    dot_of(fe.coeffs.as_slice(), image.as_slice()).square_root()
}

/// The norm of a form, from the element matrices of the mass.
pub fn l2_norm<T: Scalar>(fe: &Cochain<T>, topology: &Complex, mass_elmats: &Vec<Vec<T>>) -> (norm:
    T)
    requires
        topology.wf(),
        fe.on(*topology),
        elmats_on(*topology, fe.dim as int, mass_elmats@),
    ensures
        norm == energy(*fe, *topology, mass_elmats@),
{
    energy_norm(fe, topology, mass_elmats)
}

/// The norm of the derivative of a form, from the element matrices of the inner products of
/// derivatives.
pub fn hdif_norm<T: Scalar>(fe: &Cochain<T>, topology: &Complex, codifdif_elmats: &Vec<Vec<T>>) -> (
norm: T)
    requires
        topology.wf(),
        fe.on(*topology),
        elmats_on(*topology, fe.dim as int, codifdif_elmats@),
    ensures
        norm == energy(*fe, *topology, codifdif_elmats@),
{
    energy_norm(fe, topology, codifdif_elmats)
}

/// The square of the norm of the difference of two forms at a point.
pub open spec fn gap_square<T: Scalar>(
    geometry: SimplexGeometry<T>,
    grade: nat,
    exact: Seq<T>,
    discrete: Seq<T>,
) -> T {
    let gap = |b: int, c: int| difference_of(exact, discrete)[b];
    inner_value(
        gap,
        gramian(geometry, grade),
        gap,
        exterior_dim_spec(geometry.dim as nat, grade) as int,
        0,
        0,
    )
}

/// The square of the error on a cell by quadrature. The exact form has the given coefficients
/// at the points of the rule.
pub open spec fn cell_error_square<T: Scalar>(
    fe: Cochain<T>,
    topology: Complex,
    geometry: SimplexGeometry<T>,
    rule: SimplexQuadRule<T>,
    exact: Seq<Vec<T>>,
    cell: int,
) -> T {
    integral(
        rule.weights@,
        Seq::new(
            rule.points@.len(),
            |q: int|
                gap_square(
                    geometry,
                    fe.dim as nat,
                    exact[q]@,
                    whitney_at(fe, topology, cell, rule.points@[q]@),
                ),
        ),
        geometry.volume,
    )
}

/// Geometries and exact values of a degree for each cell, and a rule on the reference simplex.
pub open spec fn error_values_fit<T: Scalar>(
    grade: nat,
    topology: Complex,
    geometries: Seq<SimplexGeometry<T>>,
    rule: SimplexQuadRule<T>,
    exact: Seq<Vec<Vec<T>>>,
) -> bool {
    let dim = topology.dimension();
    let ncells = topology.simplices(dim as int).len();
    &&& rule.wf()
    &&& rule.dim == dim
    &&& reference_fits(dim as nat, grade)
    &&& geometries.len() == ncells
    &&& exact.len() == ncells
    &&& forall|i: int|
        0 <= i < ncells ==> (#[trigger] geometries[i]).wf() && geometries[i].dim == dim
    &&& forall|i: int|
        0 <= i < ncells ==> (#[trigger] exact[i])@.len() == rule.points@.len()
    &&& forall|i: int, q: int|
        0 <= i < ncells && 0 <= q < rule.points@.len() ==> (#[trigger] exact[i]@[q])@.len()
            == exterior_dim_spec(dim as nat, grade)
}

/// A cochain on a mesh with geometries and exact values for each cell.
pub open spec fn error_data_fits<T: Scalar>(
    fe: Cochain<T>,
    topology: Complex,
    geometries: Seq<SimplexGeometry<T>>,
    rule: SimplexQuadRule<T>,
    exact: Seq<Vec<Vec<T>>>,
) -> bool {
    &&& topology.wf()
    &&& fe.on(topology)
    &&& error_values_fit(fe.dim as nat, topology, geometries, rule, exact)
}

fn cell_error<T: Scalar>(
    form: &WhitneyForm<T>,
    fe: &Cochain<T>,
    topology: &Complex,
    geometry: &SimplexGeometry<T>,
    rule: &SimplexQuadRule<T>,
    exact: &Vec<Vec<T>>,
    cell: usize,
) -> (square: T)
    requires
        form.wf(),
        form.values().dim == fe.dim,
        form.values().coeffs@ == fe.coeffs@,
        form.topology() == *topology,
        cell < topology.simplices(topology.dimension() as int).len(),
        geometry.wf(),
        geometry.dim == topology.dimension(),
        rule.wf(),
        rule.dim == topology.dimension(),
        reference_fits(topology.dimension() as nat, fe.dim as nat),
        exact@.len() == rule.points@.len(),
        forall|q: int|
            0 <= q < exact@.len() ==> (#[trigger] exact@[q])@.len() == exterior_dim_spec(
                topology.dimension() as nat,
                fe.dim as nat,
            ),
    ensures
        square == cell_error_square(*fe, *topology, *geometry, *rule, exact@, cell as int),
{
    let ghost dim = topology.dimension() as nat;
    let ghost grade = fe.dim as nat;
    let ghost nforms = exterior_dim_spec(dim, grade);
    let ghost gram_values = gramian(*geometry, grade);
    proof {
        reference_sizes(dim, grade);
    }
    let gram = multi_gramian(geometry, fe.dim);
    let size: usize = gram.nrows();
    proof {
        assert(nforms == size);
    }
    let mut squares: Vec<T> = Vec::new();
    let mut q: usize = 0;
    while q < exact.len()
        invariant
            q <= exact@.len(),
            form.wf(),
            form.values().dim == fe.dim,
            form.values().coeffs@ == fe.coeffs@,
            form.topology() == *topology,
            cell < topology.simplices(topology.dimension() as int).len(),
            dim == topology.dimension(),
            geometry.dim == dim,
            grade == fe.dim,
            nforms == exterior_dim_spec(dim, grade),
            nforms <= usize::MAX,
            rule.wf(),
            rule.dim == dim,
            reference_fits(dim, grade),
            exact@.len() == rule.points@.len(),
            forall|q: int| 0 <= q < exact@.len() ==> (#[trigger] exact@[q])@.len() == nforms,
            gram_values == gramian(*geometry, grade),
            is_matrix(gram, nforms, nforms, gram_values),
            squares@.len() == q,
            forall|k: int|
                0 <= k < q ==> #[trigger] squares@[k] == gap_square(
                    *geometry,
                    grade,
                    exact@[k]@,
                    whitney_at(*fe, *topology, cell as int, rule.points@[k]@),
                ),
        decreases exact@.len() - q,
    {
        proof {
            assert(exact@[q as int]@.len() == nforms);
            assert(rule.points@[q as int]@.len() == dim);
        }
        let discrete = form.eval_known_cell_local_intrinsic(cell, rule.points[q].as_slice());
        let gap = minus(exact[q].as_slice(), discrete.coeffs.as_slice());
        let column = as_column(&gap);
        let square = inner_mat(&column, &gram, &column);
        proof {
            let table = |b: int, c: int| gap@[b];
            assert(discrete.coeffs@ =~= whitney_at(
                *fe,
                *topology,
                cell as int,
                rule.points@[q as int]@,
            ));
            let spelled = |b: int, c: int|
                difference_of(
                    exact@[q as int]@,
                    whitney_at(*fe, *topology, cell as int, rule.points@[q as int]@),
                )[b];
            inner_value_same(
                values_of(column),
                values_of(gram),
                values_of(column),
                spelled,
                gram_values,
                spelled,
                nforms as int,
                0,
                0,
            );
        }
        squares.push(square.get(0, 0));
        q = q + 1;
    }
    proof {
        let expected = Seq::new(
            rule.points@.len(),
            |q: int|
                gap_square(
                    *geometry,
                    grade,
                    exact@[q]@,
                    whitney_at(*fe, *topology, cell as int, rule.points@[q]@),
                ),
        );
        assert(squares@ =~= expected);
    }
    integrate(rule.weights.as_slice(), squares.as_slice(), geometry.volume)
}

/// The error of a Whitney form against an exact form.
pub open spec fn l2_error<T: Scalar>(
    fe: Cochain<T>,
    topology: Complex,
    geometries: Seq<SimplexGeometry<T>>,
    rule: SimplexQuadRule<T>,
    exact: Seq<Vec<Vec<T>>>,
) -> T {
    sum_terms(
        |i: int| cell_error_square(fe, topology, geometries[i], rule, exact[i]@, i),
        geometries.len() as int,
    ).square_root_spec()
}

/// The error of a Whitney form against an exact form with the given coefficients at the points
/// of a rule on each cell. A field on a space of the wrong dimension is refused.
pub fn fe_l2_error<T: Scalar>(
    fe: &Cochain<T>,
    exact_dim: usize,
    topology: &Complex,
    coords: &MeshCoords<T>,
    geometries: &Vec<SimplexGeometry<T>>,
    rule: &SimplexQuadRule<T>,
    exact: &Vec<Vec<Vec<T>>>,
) -> (error: Result<T, String>)
    requires
        error_data_fits(*fe, *topology, geometries@, *rule, exact@),
    ensures
        match error {
            Ok(error) => {
                &&& exact_dim == coords.dim || exact_dim == topology.dimension()
                &&& error == l2_error(*fe, *topology, geometries@, *rule, exact@)
            },
            Err(message) => {
                &&& exact_dim != coords.dim
                &&& exact_dim != topology.dimension()
                &&& message@ == field_message(
                    "Exact field"@,
                    "cell"@,
                    exact_dim as nat,
                    topology.dimension() as nat,
                    coords.dim as nat,
                )
            },
        },
{
    if let Err(message) = field_side("Exact field", "cell", exact_dim, topology.dim(), coords.dim()) {
        return Err(message);
    }
    let copy = Cochain {
        dim: fe.dim,
        coeffs: crate::problems::elimination::copy_of(fe.coeffs.as_slice()),
    };
    let form = WhitneyForm::new(copy, topology, coords);
    let ghost f = |i: int|
        cell_error_square(*fe, *topology, geometries@[i], *rule, exact@[i]@, i);
    let mut sum = T::zero();
    let mut i: usize = 0;
    while i < geometries.len()
        invariant
            i <= geometries@.len(),
            error_data_fits(*fe, *topology, geometries@, *rule, exact@),
            form.wf(),
            form.values().dim == fe.dim,
            form.values().coeffs@ == fe.coeffs@,
            form.topology() == *topology,
            f == (|i: int|
                cell_error_square(*fe, *topology, geometries@[i], *rule, exact@[i]@, i)),
            sum == sum_terms(f, i as int),
        decreases geometries@.len() - i,
    {
        proof {
            assert(geometries@[i as int].wf());
            assert(exact@[i as int]@.len() == rule.points@.len());
            assert forall|q: int| 0 <= q < exact@[i as int]@.len() implies (
            #[trigger] exact@[i as int]@[q])@.len() == exterior_dim_spec(
                topology.dimension() as nat,
                fe.dim as nat,
            ) by {}
        }
        sum = sum.plus(cell_error(&form, fe, topology, &geometries[i], rule, &exact[i], i));
        i = i + 1;
    }
    Ok(sum.square_root())
}

/// The error in the graph norm, from the error of the form and that of its derivative.
pub open spec fn graph_error<T: Scalar>(form: T, derivative: T) -> T {
    form.hypot_spec(derivative)
}

/// The error of a Whitney form, and that in the graph norm of the exterior derivative.
pub fn graph_errors<T: Scalar>(
    fe: &Cochain<T>,
    exact_dim: usize,
    topology: &Complex,
    coords: &MeshCoords<T>,
    geometries: &Vec<SimplexGeometry<T>>,
    rule: &SimplexQuadRule<T>,
    exact: &Vec<Vec<Vec<T>>>,
    exact_derivative: &Vec<Vec<Vec<T>>>,
) -> (errors: Result<(T, T), String>)
    requires
        error_data_fits(*fe, *topology, geometries@, *rule, exact@),
        fe.dim < topology.dimension(),
        error_values_fit(
            (fe.dim + 1) as nat,
            *topology,
            geometries@,
            *rule,
            exact_derivative@,
        ),
    ensures
        match errors {
            Ok((form, graph)) => {
                &&& exact_dim == coords.dim || exact_dim == topology.dimension()
                &&& form == l2_error(*fe, *topology, geometries@, *rule, exact@)
                &&& exists|d: Cochain<T>| #[trigger]
                    is_derivative(d, *fe, *topology) && graph == graph_error(
                        form,
                        l2_error(d, *topology, geometries@, *rule, exact_derivative@),
                    )
            },
            Err(message) => {
                &&& exact_dim != coords.dim
                &&& exact_dim != topology.dimension()
                &&& message@ == field_message(
                    "Exact field"@,
                    "cell"@,
                    exact_dim as nat,
                    topology.dimension() as nat,
                    coords.dim as nat,
                )
            },
        },
{
    let form = match fe_l2_error(fe, exact_dim, topology, coords, geometries, rule, exact) {
        Ok(error) => error,
        Err(message) => return Err(message),
    };
    let d = cochain_dif(fe, topology);
    match fe_l2_error(&d, exact_dim, topology, coords, geometries, rule, exact_derivative) {
        Ok(derivative) => Ok((form, hd_error(form, derivative))),
        Err(message) => Err(message),
    }
}

} // verus!
