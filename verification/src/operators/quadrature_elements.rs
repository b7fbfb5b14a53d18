//! Element matrices and element vectors by quadrature.

use crate::exterior::{exterior_dim_spec, ExteriorGrade};
use crate::linalg::dense::DenseMatrix;
use crate::linalg::minors::{is_matrix, values_of};
use crate::linalg::scalar::Scalar;
use crate::operators::elements::{
    gramian, inner_mat, inner_value, inner_value_same, multi_gramian, sum_terms, ElMat,
    SimplexGeometry,
};
use crate::operators::reference::{
    barycentric, is_local_basis, nc_local_basis_coeffs, reference_fits, reference_sizes,
    slot_coefficient, slot_values, standard_subsimps_spec,
};
use crate::operators::weights::{
    integral, integrate, ApplyWeight, ScalarWeight, SimplexQuadRule,
};
use crate::topology::simplex::{binomial, Dim};
use vstd::prelude::*;
use vstd::string::*;

verus! {

/// The values of the functions of all slots at the point of a rule.
pub open spec fn basis_at<T: Scalar>(dim: nat, grade: nat, coord: Seq<T>) -> spec_fn(
    int,
    int,
) -> T {
    let sets = standard_subsimps_spec(dim, grade);
    let slots = (grade + 1) as int;
    |b: int, c: int| slot_coefficient(dim, sets[c / slots], c % slots, barycentric(coord), b)
}

/// The inner product of two functions of slots by quadrature, the first with the given values.
pub open spec fn nc_mass_value<T: Scalar>(
    geometry: SimplexGeometry<T>,
    grade: nat,
    rule: SimplexQuadRule<T>,
    left: spec_fn(int) -> spec_fn(int, int) -> T,
    i: int,
    j: int,
) -> T {
    let dim = geometry.dim as nat;
    integral(
        rule.weights@,
        Seq::new(
            rule.points@.len(),
            |q: int|
                inner_value(
                    left(q),
                    gramian(geometry, grade),
                    basis_at(dim, grade, rule.points@[q]@),
                    exterior_dim_spec(dim, grade) as int,
                    i,
                    j,
                ),
        ),
        geometry.volume,
    )
}

/// The inner products of all functions of slots by quadrature.
pub open spec fn is_nc_mass<T: Scalar>(
    m: ElMat<T>,
    geometry: SimplexGeometry<T>,
    grade: nat,
    rule: SimplexQuadRule<T>,
) -> bool {
    let dim = geometry.dim as nat;
    let n = (grade + 1) * standard_subsimps_spec(dim, grade).len();
    is_matrix(
        m,
        n,
        n,
        |i: int, j: int|
            nc_mass_value(
                geometry,
                grade,
                rule,
                |q: int| basis_at(dim, grade, rule.points@[q]@),
                i,
                j,
            ),
    )
}

/// The inner products of all functions of slots by quadrature, with a weight.
pub open spec fn is_weighted_nc_mass<T: Scalar, W: ApplyWeight<T>>(
    m: ElMat<T>,
    geometry: SimplexGeometry<T>,
    grade: nat,
    rule: SimplexQuadRule<T>,
    weight: W,
) -> bool {
    exists|bases: Seq<DenseMatrix<T>>, left: Seq<DenseMatrix<T>>| #[trigger]
        is_nc_mass_with(m, geometry, grade, rule, weight, bases, left)
}

pub open spec fn is_nc_mass_with<T: Scalar, W: ApplyWeight<T>>(
    m: ElMat<T>,
    geometry: SimplexGeometry<T>,
    grade: nat,
    rule: SimplexQuadRule<T>,
    weight: W,
    bases: Seq<DenseMatrix<T>>,
    left: Seq<DenseMatrix<T>>,
) -> bool {
    let dim = geometry.dim as nat;
    let n = (grade + 1) * standard_subsimps_spec(dim, grade).len();
    &&& bases.len() == rule.points@.len()
    &&& left.len() == rule.points@.len()
    &&& forall|q: int|
        0 <= q < bases.len() ==> is_local_basis(
            #[trigger] bases[q],
            dim,
            grade,
            rule.points@[q]@,
        )
    &&& forall|q: int| 0 <= q < left.len() ==> weight.is_weighted(#[trigger] left[q], bases[q])
    &&& is_matrix(
        m,
        n,
        n,
        |i: int, j: int|
            nc_mass_value(geometry, grade, rule, |q: int| values_of(left[q]), i, j),
    )
}

/// A rule on the reference simplex of a geometry, for forms of a degree below its dimension.
pub open spec fn nc_mass_accepts<T: Scalar>(
    geometry: SimplexGeometry<T>,
    grade: nat,
    rule: SimplexQuadRule<T>,
) -> bool {
    &&& geometry.wf()
    &&& grade < geometry.dim
    &&& rule.wf()
    &&& rule.dim == geometry.dim
    &&& reference_fits(geometry.dim as nat, grade)
}

fn bases_at<T: Scalar>(
    geometry: &SimplexGeometry<T>,
    grade: ExteriorGrade,
    rule: &SimplexQuadRule<T>,
) -> (bases: Vec<DenseMatrix<T>>)
    requires
        nc_mass_accepts(*geometry, grade as nat, *rule),
    ensures
        bases@.len() == rule.points@.len(),
        forall|q: int|
            0 <= q < bases@.len() ==> is_local_basis(
                #[trigger] bases@[q],
                geometry.dim as nat,
                grade as nat,
                rule.points@[q]@,
            ),
{
    let mut bases: Vec<DenseMatrix<T>> = Vec::new();
    let mut q: usize = 0;
    while q < rule.points.len()
        invariant
            q <= rule.points@.len(),
            nc_mass_accepts(*geometry, grade as nat, *rule),
            bases@.len() == q,
            forall|k: int|
                0 <= k < q ==> is_local_basis(
                    #[trigger] bases@[k],
                    geometry.dim as nat,
                    grade as nat,
                    rule.points@[k]@,
                ),
        decreases rule.points@.len() - q,
    {
        bases.push(nc_local_basis_coeffs(geometry.dim, grade, rule.points[q].as_slice()));
        q = q + 1;
    }
    bases
}

fn mass_by_rule<T: Scalar>(
    geometry: &SimplexGeometry<T>,
    grade: ExteriorGrade,
    rule: &SimplexQuadRule<T>,
    bases: &Vec<DenseMatrix<T>>,
    left: &Vec<DenseMatrix<T>>,
) -> (m: ElMat<T>)
    requires
        nc_mass_accepts(*geometry, grade as nat, *rule),
        bases@.len() == rule.points@.len(),
        left@.len() == rule.points@.len(),
        forall|q: int|
            0 <= q < bases@.len() ==> is_local_basis(
                #[trigger] bases@[q],
                geometry.dim as nat,
                grade as nat,
                rule.points@[q]@,
            ),
        forall|q: int|
            0 <= q < left@.len() ==> (#[trigger] left@[q]).wf() && left@[q].rows()
                == bases@[q].rows() && left@[q].cols() == bases@[q].cols(),
    ensures
        ({
            let n = (grade + 1) * standard_subsimps_spec(geometry.dim as nat, grade as nat).len();
            is_matrix(
                m,
                n as nat,
                n as nat,
                |i: int, j: int|
                    nc_mass_value(
                        *geometry,
                        grade as nat,
                        *rule,
                        |q: int| values_of(left@[q]),
                        i,
                        j,
                    ),
            )
        }),
{
    let ghost dim = geometry.dim as nat;
    let ghost nforms = exterior_dim_spec(dim, grade as nat);
    let ghost size = (grade + 1) * binomial(dim + 1, (grade + 1) as nat);
    proof {
        reference_sizes(dim, grade as nat);
    }
    let n: usize = crate::operators::local_slots::nc_local_ndofs(geometry.dim, grade);
    let gram = multi_gramian(geometry, grade);
    let ghost gram_values = gramian(*geometry, grade as nat);
    let mut inners: Vec<DenseMatrix<T>> = Vec::new();
    let mut q: usize = 0;
    while q < bases.len()
        invariant
            q <= bases@.len(),
            n == size,
            size == (grade + 1) * binomial(dim + 1, (grade + 1) as nat),
            size == (grade + 1) * standard_subsimps_spec(dim, grade as nat).len(),
            nforms == exterior_dim_spec(dim, grade as nat),
            reference_fits(dim, grade as nat),
            dim == geometry.dim,
            bases@.len() == rule.points@.len(),
            left@.len() == rule.points@.len(),
            gram_values == gramian(*geometry, grade as nat),
            is_matrix(gram, nforms, nforms, gram_values),
            forall|k: int|
                0 <= k < bases@.len() ==> is_local_basis(
                    #[trigger] bases@[k],
                    dim,
                    grade as nat,
                    rule.points@[k]@,
                ),
            forall|k: int|
                0 <= k < left@.len() ==> (#[trigger] left@[k]).wf() && left@[k].rows()
                    == bases@[k].rows() && left@[k].cols() == bases@[k].cols(),
            inners@.len() == q,
            forall|k: int|
                0 <= k < q ==> (#[trigger] inners@[k]).wf() && inners@[k].rows() == n
                    && inners@[k].cols() == n,
            forall|k: int, i: int, j: int|
                0 <= k < q && 0 <= i < n && 0 <= j < n ==> #[trigger] inners@[k].at(i, j)
                    == inner_value(
                    values_of(left@[k]),
                    gram_values,
                    basis_at(dim, grade as nat, rule.points@[k]@),
                    nforms as int,
                    i,
                    j,
                ),
        decreases bases@.len() - q,
    {
        proof {
            assert(is_local_basis(bases@[q as int], dim, grade as nat, rule.points@[q as int]@));
            assert(left@[q as int].rows() == bases@[q as int].rows());
        }
        let inner = inner_mat(&left[q], &gram, &bases[q]);
        proof {
            let table = basis_at(dim, grade as nat, rule.points@[q as int]@);
            assert forall|i: int, j: int| 0 <= i < n && 0 <= j < n implies #[trigger] inner.at(i, j)
                == inner_value(
                values_of(left@[q as int]),
                gram_values,
                table,
                nforms as int,
                i,
                j,
            ) by {
                inner_value_same(
                    values_of(left@[q as int]),
                    values_of(gram),
                    values_of(bases@[q as int]),
                    values_of(left@[q as int]),
                    gram_values,
                    table,
                    nforms as int,
                    i,
                    j,
                );
            }
        }
        inners.push(inner);
        q = q + 1;
    }
    proof {
        assert(n * n == size * size);
    }
    let ghost left_tables = |q: int| values_of(left@[q]);
    let mut m = DenseMatrix::zeros(n, n);
    let mut i: usize = 0;
    while i < n
        invariant
            i <= n,
            rule.wf(),
            nforms == exterior_dim_spec(dim, grade as nat),
            dim == geometry.dim,
            inners@.len() == rule.points@.len(),
            gram_values == gramian(*geometry, grade as nat),
            left_tables == (|q: int| values_of(left@[q])),
            forall|k: int|
                0 <= k < inners@.len() ==> (#[trigger] inners@[k]).wf() && inners@[k].rows() == n
                    && inners@[k].cols() == n,
            forall|k: int, i: int, j: int|
                0 <= k < inners@.len() && 0 <= i < n && 0 <= j < n
                    ==> #[trigger] inners@[k].at(i, j) == inner_value(
                    values_of(left@[k]),
                    gram_values,
                    basis_at(dim, grade as nat, rule.points@[k]@),
                    nforms as int,
                    i,
                    j,
                ),
            m.wf(),
            m.rows() == n,
            m.cols() == n,
            forall|r: int, c: int|
                0 <= r < i && 0 <= c < n ==> #[trigger] m.at(r, c) == nc_mass_value(
                    *geometry,
                    grade as nat,
                    *rule,
                    left_tables,
                    r,
                    c,
                ),
        decreases n - i,
    {
        let mut j: usize = 0;
        while j < n
            invariant
                i < n,
                j <= n,
                rule.wf(),
                nforms == exterior_dim_spec(dim, grade as nat),
                dim == geometry.dim,
                inners@.len() == rule.points@.len(),
                gram_values == gramian(*geometry, grade as nat),
                left_tables == (|q: int| values_of(left@[q])),
                forall|k: int|
                    0 <= k < inners@.len() ==> (#[trigger] inners@[k]).wf() && inners@[k].rows()
                        == n && inners@[k].cols() == n,
                forall|k: int, i: int, j: int|
                    0 <= k < inners@.len() && 0 <= i < n && 0 <= j < n
                        ==> #[trigger] inners@[k].at(i, j) == inner_value(
                        values_of(left@[k]),
                        gram_values,
                        basis_at(dim, grade as nat, rule.points@[k]@),
                        nforms as int,
                        i,
                        j,
                    ),
                m.wf(),
                m.rows() == n,
                m.cols() == n,
                forall|r: int, c: int|
                    0 <= r < n && 0 <= c < n && (r < i || (r == i && c < j))
                        ==> #[trigger] m.at(r, c) == nc_mass_value(
                        *geometry,
                        grade as nat,
                        *rule,
                        left_tables,
                        r,
                        c,
                    ),
            decreases n - j,
        {
            let values = values_at(&inners, n, i, j);
            let ghost expected = Seq::new(
                rule.points@.len(),
                |q: int|
                    inner_value(
                        left_tables(q),
                        gram_values,
                        basis_at(dim, grade as nat, rule.points@[q]@),
                        nforms as int,
                        i as int,
                        j as int,
                    ),
            );
            proof {
                assert forall|q: int| 0 <= q < values@.len() implies #[trigger] values@[q]
                    == expected[q] by {
                    assert(values@[q] == inners@[q].at(i as int, j as int));
                }
                assert(values@ =~= expected);
            }
            m.set(i, j, integrate(rule.weights.as_slice(), values.as_slice(), geometry.volume));
            j = j + 1;
        }
        i = i + 1;
    }
    m
}

fn values_at<T: Scalar>(inners: &Vec<DenseMatrix<T>>, n: usize, i: usize, j: usize) -> (values: Vec<
    T,
>)
    requires
        i < n,
        j < n,
        forall|k: int|
            0 <= k < inners@.len() ==> (#[trigger] inners@[k]).wf() && inners@[k].rows() == n
                && inners@[k].cols() == n,
    ensures
        values@.len() == inners@.len(),
        forall|q: int|
            0 <= q < values@.len() ==> #[trigger] values@[q] == inners@[q].at(i as int, j as int),
{
    let mut values: Vec<T> = Vec::new();
    let mut q: usize = 0;
    while q < inners.len()
        invariant
            q <= inners@.len(),
            i < n,
            j < n,
            forall|k: int|
                0 <= k < inners@.len() ==> (#[trigger] inners@[k]).wf() && inners@[k].rows() == n
                    && inners@[k].cols() == n,
            values@.len() == q,
            forall|k: int| 0 <= k < q ==> #[trigger] values@[k] == inners@[k].at(i as int, j as int),
        decreases inners@.len() - q,
    {
        proof {
            assert(inners@[q as int].wf());
        }
        values.push(inners[q].get(i, j));
        q = q + 1;
    }
    values
}

/// The inner products of the functions of slots by a rule.
pub fn nc_mass<T: Scalar>(
    geometry: &SimplexGeometry<T>,
    grade: ExteriorGrade,
    rule: &SimplexQuadRule<T>,
) -> (m: ElMat<T>)
    requires
        nc_mass_accepts(*geometry, grade as nat, *rule),
    ensures
        is_nc_mass(m, *geometry, grade as nat, *rule),
{
    let bases = bases_at(geometry, grade, rule);
    let m = mass_by_rule(geometry, grade, rule, &bases, &bases);
    proof {
        let dim = geometry.dim as nat;
        let n = (grade + 1) * standard_subsimps_spec(dim, grade as nat).len();
        let exact = |q: int| basis_at(dim, grade as nat, rule.points@[q]@);
        let given = |q: int| values_of(bases@[q]);
        assert forall|i: int, j: int| 0 <= i < n && 0 <= j < n implies #[trigger] m.at(i, j)
            == nc_mass_value(*geometry, grade as nat, *rule, exact, i, j) by {
            assert(m.at(i, j) == nc_mass_value(*geometry, grade as nat, *rule, given, i, j));
            let nforms = exterior_dim_spec(dim, grade as nat) as int;
            let gram = gramian(*geometry, grade as nat);
            let a = Seq::new(
                rule.points@.len(),
                |q: int|
                    inner_value(
                        given(q),
                        gram,
                        basis_at(dim, grade as nat, rule.points@[q]@),
                        nforms,
                        i,
                        j,
                    ),
            );
            let b = Seq::new(
                rule.points@.len(),
                |q: int|
                    inner_value(
                        exact(q),
                        gram,
                        basis_at(dim, grade as nat, rule.points@[q]@),
                        nforms,
                        i,
                        j,
                    ),
            );
            assert forall|q: int| 0 <= q < a.len() implies a[q] == b[q] by {
                let table = basis_at(dim, grade as nat, rule.points@[q]@);
                assert(is_local_basis(bases@[q], dim, grade as nat, rule.points@[q]@));
                inner_value_same(
                    values_of(bases@[q]),
                    gram,
                    table,
                    table,
                    gram,
                    table,
                    nforms,
                    i,
                    j,
                );
            }
            assert(a =~= b);
        }
    }
    m
}

/// The inner products of the functions of slots by a rule, with a weight.
pub fn weighted_nc_mass<T: Scalar, W: ApplyWeight<T>>(
    geometry: &SimplexGeometry<T>,
    grade: ExteriorGrade,
    rule: &SimplexQuadRule<T>,
    weight: &W,
) -> (m: ElMat<T>)
    requires
        nc_mass_accepts(*geometry, grade as nat, *rule),
        weight.fits(exterior_dim_spec(geometry.dim as nat, grade as nat)),
    ensures
        is_weighted_nc_mass(m, *geometry, grade as nat, *rule, *weight),
{
    let bases = bases_at(geometry, grade, rule);
    let ghost dim = geometry.dim as nat;
    proof {
        reference_sizes(dim, grade as nat);
    }
    let mut left: Vec<DenseMatrix<T>> = Vec::new();
    let mut q: usize = 0;
    while q < bases.len()
        invariant
            q <= bases@.len(),
            dim == geometry.dim,
            reference_fits(dim, grade as nat),
            standard_subsimps_spec(dim, grade as nat).len() == binomial(
                dim + 1,
                (grade + 1) as nat,
            ),
            weight.fits(exterior_dim_spec(dim, grade as nat)),
            forall|k: int|
                0 <= k < bases@.len() ==> is_local_basis(
                    #[trigger] bases@[k],
                    dim,
                    grade as nat,
                    rule.points@[k]@,
                ),
            left@.len() == q,
            forall|k: int| 0 <= k < q ==> weight.is_weighted(#[trigger] left@[k], bases@[k]),
            forall|k: int|
                0 <= k < q ==> (#[trigger] left@[k]).wf() && left@[k].rows() == bases@[k].rows()
                    && left@[k].cols() == bases@[k].cols(),
        decreases bases@.len() - q,
    {
        proof {
            assert(is_local_basis(bases@[q as int], dim, grade as nat, rule.points@[q as int]@));
        }
        let weighted = weight.apply_batched(&bases[q]);
        proof {
            weight.weighted_shape(weighted, bases@[q as int]);
        }
        left.push(weighted);
        q = q + 1;
    }
    let m = mass_by_rule(geometry, grade, rule, &bases, &left);
    proof {
        assert(is_nc_mass_with(m, *geometry, grade as nat, *rule, *weight, bases@, left@));
    }
    m
}

/// The element matrix of the inner products of the functions of the slots of edges.
#[derive(Clone, Copy, Debug)]
pub struct Nc1MassElmat {
    dim: Dim,
}

impl Nc1MassElmat {
    pub closed spec fn dimension(&self) -> nat {
        self.dim as nat
    }

    pub fn new(dim: Dim) -> (provider: Self)
        requires
            1 < dim <= 3,
        ensures
            provider.dimension() == dim,
    {
        Nc1MassElmat { dim }
    }

    pub fn eval<T: Scalar>(&self, geometry: &SimplexGeometry<T>, rule: &SimplexQuadRule<T>) -> (m:
        ElMat<T>)
        requires
            self.dimension() == geometry.dim,
            nc_mass_accepts(*geometry, 1, *rule),
        ensures
            is_nc_mass(m, *geometry, 1, *rule),
    {
        nc_mass(geometry, 1, rule)
    }

    pub fn eval_with_coords<T: Scalar, W: ApplyWeight<T>>(
        &self,
        geometry: &SimplexGeometry<T>,
        rule: &SimplexQuadRule<T>,
        weight: &W,
    ) -> (m: ElMat<T>)
        requires
            self.dimension() == geometry.dim,
            nc_mass_accepts(*geometry, 1, *rule),
            weight.fits(exterior_dim_spec(geometry.dim as nat, 1)),
        ensures
            is_weighted_nc_mass(m, *geometry, 1, *rule, *weight),
    {
        weighted_nc_mass(geometry, 1, rule, weight)
    }
}

/// The element matrix of the inner products of the functions of the slots of faces.
#[derive(Clone, Copy, Debug)]
pub struct Nc2MassElmat {
    dim: Dim,
}

impl Nc2MassElmat {
    pub closed spec fn dimension(&self) -> nat {
        self.dim as nat
    }

    pub fn new(dim: Dim) -> (provider: Self)
        requires
            2 < dim <= 3,
        ensures
            provider.dimension() == dim,
    {
        Nc2MassElmat { dim }
    }

    pub fn eval<T: Scalar>(&self, geometry: &SimplexGeometry<T>, rule: &SimplexQuadRule<T>) -> (m:
        ElMat<T>)
        requires
            self.dimension() == geometry.dim,
            nc_mass_accepts(*geometry, 2, *rule),
        ensures
            is_nc_mass(m, *geometry, 2, *rule),
    {
        nc_mass(geometry, 2, rule)
    }

    pub fn eval_with_coords<T: Scalar, W: ApplyWeight<T>>(
        &self,
        geometry: &SimplexGeometry<T>,
        rule: &SimplexQuadRule<T>,
        weight: &W,
    ) -> (m: ElMat<T>)
        requires
            self.dimension() == geometry.dim,
            nc_mass_accepts(*geometry, 2, *rule),
            weight.fits(exterior_dim_spec(geometry.dim as nat, 2)),
        ensures
            is_weighted_nc_mass(m, *geometry, 2, *rule, *weight),
    {
        weighted_nc_mass(geometry, 2, rule, weight)
    }
}

/// The rule with the vertices of the reference simplex as its points.
pub open spec fn is_vertex_rule<T: Scalar>(rule: SimplexQuadRule<T>, dim: nat) -> bool {
    &&& rule.wf()
    &&& rule.dim == dim
    &&& rule.points@.len() == dim + 1
    &&& forall|q: int, i: int|
        0 <= q <= dim && 0 <= i < dim ==> #[trigger] rule.points@[q]@[i] == if q == i + 1 {
            T::one_spec()
        } else {
            T::zero_spec()
        }
    &&& forall|q: int|
        0 <= q <= dim ==> #[trigger] rule.weights@[q] == T::one_spec().over_spec(
            T::from_count_spec(dim + 1),
        )
}

/// The inner products of the functions of slots by the values at the vertices, times the weight
/// of the cell.
pub open spec fn is_lumped_nc_mass<T: Scalar>(
    m: ElMat<T>,
    geometry: SimplexGeometry<T>,
    grade: nat,
    weight: Option<T>,
) -> bool {
    exists|rule: SimplexQuadRule<T>| #[trigger] is_lumped_by(m, geometry, grade, weight, rule)
}

pub open spec fn is_lumped_by<T: Scalar>(
    m: ElMat<T>,
    geometry: SimplexGeometry<T>,
    grade: nat,
    weight: Option<T>,
    rule: SimplexQuadRule<T>,
) -> bool {
    let dim = geometry.dim as nat;
    let n = (grade + 1) * standard_subsimps_spec(dim, grade).len();
    &&& is_vertex_rule(rule, dim)
    &&& is_matrix(
        m,
        n,
        n,
        |i: int, j: int|
            {
                let value = nc_mass_value(
                    geometry,
                    grade,
                    rule,
                    |q: int| basis_at(dim, grade, rule.points@[q]@),
                    i,
                    j,
                );
                match weight {
                    Some(w) => value.times_spec(w),
                    None => value,
                }
            },
    )
}

/// The lumped element matrix of the inner products of the functions of slots.
#[derive(Clone, Copy, Debug)]
pub struct NcLumpedMassElmat {
    dim: Dim,
    grade: ExteriorGrade,
}

impl NcLumpedMassElmat {
    pub closed spec fn dimension(&self) -> nat {
        self.dim as nat
    }

    pub closed spec fn degree(&self) -> nat {
        self.grade as nat
    }

    pub fn new(dim: Dim, grade: ExteriorGrade) -> (provider: Self)
        requires
            grade < dim,
        ensures
            provider.dimension() == dim,
            provider.degree() == grade,
    {
        NcLumpedMassElmat { dim, grade }
    }

    pub fn eval<T: Scalar>(&self, geometry: &SimplexGeometry<T>) -> (m: ElMat<T>)
        requires
            self.dimension() == geometry.dim,
            geometry.wf(),
            self.degree() < geometry.dim,
            reference_fits(geometry.dim as nat, self.degree()),
        ensures
            is_lumped_nc_mass(m, *geometry, self.degree(), None),
    {
        proof {
            reference_sizes(geometry.dim as nat, self.degree());
        }
        let rule = SimplexQuadRule::vertices(self.dim);
        let m = nc_mass(geometry, self.grade, &rule);
        proof {
            assert(is_lumped_by(m, *geometry, self.degree(), None, rule));
        }
        m
    }

    pub fn eval_with_coords<T: Scalar>(
        &self,
        geometry: &SimplexGeometry<T>,
        weight: &ScalarWeight<T>,
    ) -> (m: ElMat<T>)
        requires
            self.dimension() == geometry.dim,
            geometry.wf(),
            self.degree() < geometry.dim,
            reference_fits(geometry.dim as nat, self.degree()),
        ensures
            is_lumped_nc_mass(m, *geometry, self.degree(), Some(weight.value)),
    {
        proof {
            reference_sizes(geometry.dim as nat, self.degree());
        }
        let rule = SimplexQuadRule::vertices(self.dim);
        let plain = nc_mass(geometry, self.grade, &rule);
        let m = plain.scaled(weight.value);
        proof {
            assert(is_lumped_by(m, *geometry, self.degree(), Some(weight.value), rule));
        }
        m
    }
}

/// The lumped element matrix for the slots of edges.
#[derive(Clone, Copy, Debug)]
pub struct Nc1LumpedMassElmat {
    dim: Dim,
}

impl Nc1LumpedMassElmat {
    pub closed spec fn dimension(&self) -> nat {
        self.dim as nat
    }

    pub fn new(dim: Dim) -> (provider: Self)
        requires
            1 < dim,
        ensures
            provider.dimension() == dim,
    {
        Nc1LumpedMassElmat { dim }
    }

    pub fn eval<T: Scalar>(&self, geometry: &SimplexGeometry<T>) -> (m: ElMat<T>)
        requires
            self.dimension() == geometry.dim,
            geometry.wf(),
            1 < geometry.dim,
            reference_fits(geometry.dim as nat, 1),
        ensures
            is_lumped_nc_mass(m, *geometry, 1, None),
    {
        NcLumpedMassElmat::new(self.dim, 1).eval(geometry)
    }

    pub fn eval_with_coords<T: Scalar>(
        &self,
        geometry: &SimplexGeometry<T>,
        weight: &ScalarWeight<T>,
    ) -> (m: ElMat<T>)
        requires
            self.dimension() == geometry.dim,
            geometry.wf(),
            1 < geometry.dim,
            reference_fits(geometry.dim as nat, 1),
        ensures
            is_lumped_nc_mass(m, *geometry, 1, Some(weight.value)),
    {
        NcLumpedMassElmat::new(self.dim, 1).eval_with_coords(geometry, weight)
    }
}

/// The lumped element matrix for the slots of faces.
#[derive(Clone, Copy, Debug)]
pub struct Nc2LumpedMassElmat {
    dim: Dim,
}

impl Nc2LumpedMassElmat {
    pub closed spec fn dimension(&self) -> nat {
        self.dim as nat
    }

    pub fn new(dim: Dim) -> (provider: Self)
        requires
            2 < dim,
        ensures
            provider.dimension() == dim,
    {
        Nc2LumpedMassElmat { dim }
    }

    pub fn eval<T: Scalar>(&self, geometry: &SimplexGeometry<T>) -> (m: ElMat<T>)
        requires
            self.dimension() == geometry.dim,
            geometry.wf(),
            2 < geometry.dim,
            reference_fits(geometry.dim as nat, 2),
        ensures
            is_lumped_nc_mass(m, *geometry, 2, None),
    {
        NcLumpedMassElmat::new(self.dim, 2).eval(geometry)
    }

    pub fn eval_with_coords<T: Scalar>(
        &self,
        geometry: &SimplexGeometry<T>,
        weight: &ScalarWeight<T>,
    ) -> (m: ElMat<T>)
        requires
            self.dimension() == geometry.dim,
            geometry.wf(),
            2 < geometry.dim,
            reference_fits(geometry.dim as nat, 2),
        ensures
            is_lumped_nc_mass(m, *geometry, 2, Some(weight.value)),
    {
        NcLumpedMassElmat::new(self.dim, 2).eval_with_coords(geometry, weight)
    }
}

/// The value of a Whitney form of the reference simplex.
pub open spec fn whitney_value<T: Scalar>(
    dim: nat,
    simplex: Seq<usize>,
    coord: Seq<T>,
    b: int,
) -> T {
    sum_terms(
        |slot: int| slot_coefficient(dim, simplex, slot, barycentric(coord), b),
        simplex.len() as int,
    )
}

/// The values of the Whitney forms of a degree at a point, one form in each column.
pub open spec fn whitney_table<T: Scalar>(dim: nat, grade: nat, coord: Seq<T>) -> spec_fn(
    int,
    int,
) -> T {
    let sets = standard_subsimps_spec(dim, grade);
    |b: int, s: int| whitney_value(dim, sets[s], coord, b)
}

/// The values of the Whitney forms of a degree at a point of the reference simplex.
pub fn whitney_values<T: Scalar>(dim: Dim, grade: ExteriorGrade, coord: &[T]) -> (m: DenseMatrix<T>)
    requires
        grade <= dim,
        coord@.len() == dim,
        reference_fits(dim as nat, grade as nat),
    ensures
        is_matrix(
            m,
            exterior_dim_spec(dim as nat, grade as nat),
            binomial((dim + 1) as nat, (grade + 1) as nat),
            whitney_table(dim as nat, grade as nat, coord@),
        ),
{
    let basis = slot_values(dim, grade, coord);
    let nforms: usize = basis.nrows();
    let slots: usize = grade + 1;
    let ndofs: usize = basis.ncols();
    let ghost sets = standard_subsimps_spec(dim as nat, grade as nat);
    let n: usize = ndofs / slots;
    proof {
        reference_sizes(dim as nat, grade as nat);
        assert(n == sets.len()) by (nonlinear_arith)
            requires
                n == ndofs / slots,
                ndofs == slots * sets.len(),
                slots > 0,
        ;
        assert(nforms * n <= nforms * ndofs) by (nonlinear_arith)
            requires
                ndofs == slots * n,
                slots >= 1,
        ;
    }
    let mut m = DenseMatrix::zeros(nforms, n);
    let mut s: usize = 0;
    while s < n
        invariant
            s <= n,
            slots == grade + 1,
            ndofs == slots * n,
            n == sets.len(),
            sets == standard_subsimps_spec(dim as nat, grade as nat),
            crate::linalg::minors::are_choices(sets, slots as nat, (dim + 1) as nat),
            is_local_basis(basis, dim as nat, grade as nat, coord@),
            basis.rows() == nforms,
            basis.cols() == ndofs,
            m.wf(),
            m.rows() == nforms,
            m.cols() == n,
            forall|b: int, c: int|
                0 <= b < nforms && 0 <= c < s ==> #[trigger] m.at(b, c) == whitney_value(
                    dim as nat,
                    sets[c],
                    coord@,
                    b,
                ),
        decreases n - s,
    {
        let mut b: usize = 0;
        while b < nforms
            invariant
                s < n,
                b <= nforms,
                slots == grade + 1,
                ndofs == slots * n,
                n == sets.len(),
                sets == standard_subsimps_spec(dim as nat, grade as nat),
                crate::linalg::minors::are_choices(sets, slots as nat, (dim + 1) as nat),
                is_local_basis(basis, dim as nat, grade as nat, coord@),
                basis.rows() == nforms,
                basis.cols() == ndofs,
                m.wf(),
                m.rows() == nforms,
                m.cols() == n,
                forall|r: int, c: int|
                    0 <= r < nforms && 0 <= c < n && (c < s || (c == s && r < b))
                        ==> #[trigger] m.at(r, c) == whitney_value(
                        dim as nat,
                        sets[c],
                        coord@,
                        r,
                    ),
            decreases nforms - b,
        {
            let ghost f = |slot: int|
                slot_coefficient(dim as nat, sets[s as int], slot, barycentric(coord@), b as int);
            let mut sum = T::zero();
            let mut slot: usize = 0;
            while slot < slots
                invariant
                    slot <= slots,
                    s < n,
                    b < nforms,
                    slots == grade + 1,
                    ndofs == slots * n,
                    n == sets.len(),
                    sets == standard_subsimps_spec(dim as nat, grade as nat),
                    is_local_basis(basis, dim as nat, grade as nat, coord@),
                    basis.rows() == nforms,
                    basis.cols() == ndofs,
                    f == (|slot: int|
                        slot_coefficient(
                            dim as nat,
                            sets[s as int],
                            slot,
                            barycentric(coord@),
                            b as int,
                        )),
                    sum == sum_terms(f, slot as int),
                decreases slots - slot,
            {
                proof {
                    assert(slots * s + slot < slots * n) by (nonlinear_arith)
                        requires
                            s < n,
                            slot < slots,
                    ;
                    let c = slots * s + slot;
                    assert(c / slots as int == s) by (nonlinear_arith)
                        requires
                            c == slots * s + slot,
                            0 <= slot < slots,
                    ;
                    assert(c % slots as int == slot) by (nonlinear_arith)
                        requires
                            c == slots * s + slot,
                            0 <= slot < slots,
                    ;
                    assert(basis.at(b as int, c) == f(slot as int));
                }
                sum = sum.plus(basis.get(b, slots * s + slot));
                slot = slot + 1;
            }
            m.set(b, s, sum);
            b = b + 1;
        }
        s = s + 1;
    }
    m
}

} // verus!
