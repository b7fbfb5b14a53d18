//! Whitney forms of cochains.

use crate::exterior::{exterior_dim_spec, ExteriorElement, ExteriorGrade};
use crate::io::fields::{Cochain, MeshCoords};
use crate::linalg::algebra::{matrix_times, mul_vec};
use crate::linalg::blocks::{sign_entries, sign_matrix};
use crate::linalg::csr::{compressed, CsrMatrix};
use crate::linalg::dense::{sum_products, DenseMatrix};
use crate::linalg::minors::is_matrix;
use crate::linalg::scalar::Scalar;
use crate::linalg::sparse::transposed;
use crate::operators::quadrature_elements::{whitney_table, whitney_value, whitney_values};
use crate::operators::reference::{
    factorial, factorial_spec, reference_fits, reference_sizes, standard_subsimps,
    standard_subsimps_spec, wedge, wedge_of,
};
use crate::operators::weights::SimplexQuadRule;
use crate::topology::complex::Complex;
use crate::topology::simplex::{binomial, simplex_views};
use vstd::prelude::*;

verus! {

impl<T: Scalar> Cochain<T> {
    /// A value for each simplex of the dimension of the cochain.
    pub open spec fn on(&self, complex: Complex) -> bool {
        &&& self.dim <= complex.dimension()
        &&& self.coeffs@.len() == complex.simplices(self.dim as int).len()
    }
}

/// The exterior derivative of a cochain, as a sparse matrix.
pub open spec fn derivative_entries<T: Scalar>(complex: Complex, grade: int) -> Seq<
    (usize, usize, T),
> {
    compressed(sign_entries::<T>(transposed(complex.boundary_entries(grade + 1))))
}

/// The exterior derivative of a cochain. There are no values above the top degree.
pub open spec fn is_derivative<T: Scalar>(d: Cochain<T>, cochain: Cochain<T>, complex: Complex) -> bool {
    &&& d.dim == cochain.dim + 1
    &&& d.coeffs@ == matrix_times(
        derivative_entries::<T>(complex, cochain.dim as int),
        complex.level(cochain.dim + 1).len(),
        cochain.coeffs@,
    )
}

/// The exterior derivative of a cochain.
pub fn cochain_dif<T: Scalar>(cochain: &Cochain<T>, complex: &Complex) -> (d: Cochain<T>)
    requires
        complex.wf(),
        cochain.on(*complex),
    ensures
        is_derivative(d, *cochain, *complex),
{
    proof {
        complex.machine_sized_levels(0);
    }
    let signs = complex.exterior_derivative_operator(cochain.dim);
    let d: CsrMatrix<T> = CsrMatrix::from_coo(&sign_matrix(&signs));
    let coeffs = mul_vec(&d, cochain.coeffs.as_slice());
    Cochain { dim: cochain.dim + 1, coeffs }
}

/// The Whitney form of a cochain on a mesh.
pub struct WhitneyForm<'a, T> {
    cochain: Cochain<T>,
    complex: &'a Complex,
    mesh_coords: &'a MeshCoords<T>,
}

/// The coefficients of the Whitney form of a cochain at a point of a cell, in the coordinates of
/// the reference simplex.
pub open spec fn whitney_at<T: Scalar>(
    cochain: Cochain<T>,
    complex: Complex,
    cell: int,
    local: Seq<T>,
) -> Seq<T> {
    let dim = complex.dimension();
    let grade = cochain.dim as int;
    let sets = standard_subsimps_spec(dim as nat, grade as nat);
    let dofs = complex.subsimplices(dim as int, cell, grade);
    Seq::new(
        exterior_dim_spec(dim as nat, grade as nat),
        |b: int|
            sum_products(
                |s: int| cochain.coeffs@[dofs[s] as int],
                |s: int| whitney_value(dim as nat, sets[s], local, b),
                sets.len() as int,
            ),
    )
}

/// Coefficients in the space around a cell.
pub open spec fn lifted<T: Scalar>(lift: DenseMatrix<T>, coeffs: Seq<T>) -> Seq<T> {
    Seq::new(
        lift.rows(),
        |i: int| sum_products(|j: int| lift.at(i, j), |j: int| coeffs[j], lift.cols() as int),
    )
}

pub(crate) fn lift_form<T: Scalar>(lift: &DenseMatrix<T>, coeffs: &Vec<T>) -> (ambient: Vec<T>)
    requires
        lift.wf(),
        lift.cols() == coeffs@.len(),
    ensures
        ambient@ == lifted(*lift, coeffs@),
{
    let mut ambient: Vec<T> = Vec::new();
    let (nrows, ncols): (usize, usize) = (lift.nrows(), lift.ncols());
    let mut i: usize = 0;
    while i < nrows
        invariant
            i <= nrows,
            nrows == lift.rows(),
            ncols == lift.cols(),
            lift.wf(),
            lift.cols() == coeffs@.len(),
            ambient@.len() == i,
            forall|k: int| 0 <= k < i ==> #[trigger] ambient@[k] == lifted(*lift, coeffs@)[k],
        decreases nrows - i,
    {
        let ghost f = |j: int| lift.at(i as int, j);
        let ghost g = |j: int| coeffs@[j];
        let mut sum = T::zero();
        let mut j: usize = 0;
        while j < ncols
            invariant
                j <= ncols,
                i < nrows,
                nrows == lift.rows(),
                ncols == lift.cols(),
                lift.wf(),
                lift.cols() == coeffs@.len(),
                f == (|j: int| lift.at(i as int, j)),
                g == (|j: int| coeffs@[j]),
                sum == sum_products(f, g, j as int),
            decreases ncols - j,
        {
            sum = sum.plus(lift.get(i, j).times(coeffs[j]));
            j = j + 1;
        }
        ambient.push(sum);
        i = i + 1;
    }
    proof {
        assert(ambient@ =~= lifted(*lift, coeffs@));
    }
    ambient
}

/// The coefficients of the Whitney form of a cochain at a point of a cell.
pub(crate) fn whitney_coeffs<T: Scalar>(
    cochain: &Cochain<T>,
    complex: &Complex,
    cell: usize,
    local: &[T],
) -> (coeffs: Vec<T>)
    requires
        complex.wf(),
        cochain.on(*complex),
        cell < complex.simplices(complex.dimension() as int).len(),
        local@.len() == complex.dimension(),
        reference_fits(complex.dimension() as nat, cochain.dim as nat),
    ensures
        coeffs@ == whitney_at(*cochain, *complex, cell as int, local@),
{
    let dim: usize = complex.dim();
    let grade: usize = cochain.dim;
    let forms = whitney_values(dim, grade, local);
    let dofs = complex.subsimplex_indices(dim, cell, grade);
    let ghost sets = standard_subsimps_spec(dim as nat, grade as nat);
    let ghost expected = whitney_at(*cochain, *complex, cell as int, local@);
    proof {
        reference_sizes(dim as nat, grade as nat);
        crate::assemble::galerkin::subsimplex_count(complex, cell as int, grade as int);
    }
    let (nforms, n): (usize, usize) = (forms.nrows(), forms.ncols());
    let mut coeffs: Vec<T> = Vec::new();
    let mut b: usize = 0;
    while b < nforms
        invariant
            b <= nforms,
            complex.wf(),
            cochain.on(*complex),
            dim == complex.dimension(),
            grade == cochain.dim,
            sets == standard_subsimps_spec(dim as nat, grade as nat),
            n == sets.len(),
            dofs@.len() == n,
            nforms == exterior_dim_spec(dim as nat, grade as nat),
            dofs@ == complex.subsimplices(dim as int, cell as int, grade as int),
            cochain.coeffs@.len() == complex.simplices(grade as int).len(),
            forall|j: int|
                0 <= j < dofs@.len() ==> (#[trigger] dofs@[j]) < complex.simplices(
                    grade as int,
                ).len(),
            is_matrix(
                forms,
                nforms as nat,
                n as nat,
                whitney_table(dim as nat, grade as nat, local@),
            ),
            expected == whitney_at(*cochain, *complex, cell as int, local@),
            coeffs@.len() == b,
            forall|k: int| 0 <= k < b ==> #[trigger] coeffs@[k] == expected[k],
        decreases nforms - b,
    {
        let ghost f = |s: int| cochain.coeffs@[dofs@[s] as int];
        let ghost g = |s: int| whitney_value(dim as nat, sets[s], local@, b as int);
        let mut sum = T::zero();
        let mut s: usize = 0;
        while s < n
            invariant
                s <= n,
                b < nforms,
                n == sets.len(),
                dofs@.len() == n,
                cochain.coeffs@.len() == complex.simplices(grade as int).len(),
                forall|j: int|
                    0 <= j < dofs@.len() ==> (#[trigger] dofs@[j]) < complex.simplices(
                        grade as int,
                    ).len(),
                sets == standard_subsimps_spec(dim as nat, grade as nat),
                is_matrix(
                    forms,
                    nforms as nat,
                    n as nat,
                    whitney_table(dim as nat, grade as nat, local@),
                ),
                f == (|s: int| cochain.coeffs@[dofs@[s] as int]),
                g == (|s: int| whitney_value(dim as nat, sets[s], local@, b as int)),
                sum == sum_products(f, g, s as int),
            decreases n - s,
        {
            proof {
                assert(dofs@[s as int] < complex.simplices(grade as int).len());
                assert(forms.at(b as int, s as int) == g(s as int));
            }
            sum = sum.plus(cochain.coeffs[dofs[s]].times(forms.get(b, s)));
            s = s + 1;
        }
        coeffs.push(sum);
        b = b + 1;
    }
    proof {
        assert(coeffs@ =~= expected);
    }
    coeffs
}

/// The coordinates of the barycenter of the reference simplex.
pub open spec fn reference_barycenter<T: Scalar>(dim: nat) -> Seq<T> {
    Seq::new(dim, |i: int| T::one_spec().over_spec(T::from_count_spec(dim + 1)))
}

/// A Whitney form at the barycenter of a cell, in the space around the mesh.
pub open spec fn barycenter_value<T: Scalar>(
    cochain: Cochain<T>,
    complex: Complex,
    lift: DenseMatrix<T>,
    cell: int,
) -> Seq<T> {
    lifted(
        lift,
        whitney_at(cochain, complex, cell, reference_barycenter::<T>(complex.dimension() as nat)),
    )
}

/// For each cell a map that takes forms of the reference simplex to forms of the space around.
pub open spec fn lifts_fit<T: Scalar>(
    lifts: Seq<DenseMatrix<T>>,
    complex: Complex,
    ambient: nat,
    grade: nat,
) -> bool {
    &&& lifts.len() == complex.simplices(complex.dimension() as int).len()
    &&& forall|i: int|
        0 <= i < lifts.len() ==> {
            &&& (#[trigger] lifts[i]).wf()
            &&& lifts[i].rows() == exterior_dim_spec(ambient, grade)
            &&& lifts[i].cols() == exterior_dim_spec(complex.dimension() as nat, grade)
        }
}

/// A Whitney form at the barycenters of the cells, in the space around the mesh.
pub(crate) fn barycenter_values<T: Scalar>(
    cochain: &Cochain<T>,
    complex: &Complex,
    Ghost(ambient): Ghost<nat>,
    lifts: &[DenseMatrix<T>],
) -> (values: Vec<Vec<T>>)
    requires
        complex.wf(),
        cochain.on(*complex),
        reference_fits(complex.dimension() as nat, cochain.dim as nat),
        lifts_fit(lifts@, *complex, ambient, cochain.dim as nat),
    ensures
        values@.len() == lifts@.len(),
        forall|i: int|
            0 <= i < values@.len() ==> (#[trigger] values@[i])@ == barycenter_value(
                *cochain,
                *complex,
                lifts@[i],
                i,
            ),
        forall|i: int|
            0 <= i < values@.len() ==> (#[trigger] values@[i])@.len() == exterior_dim_spec(
                ambient,
                cochain.dim as nat,
            ),
{
    let dim: usize = complex.dim();
    proof {
        assert(dim < usize::MAX) by (nonlinear_arith)
            requires
                (dim + 1) * (dim + 2) <= usize::MAX,
        ;
    }
    let rule: SimplexQuadRule<T> = SimplexQuadRule::barycentric(dim);
    let ghost center = reference_barycenter::<T>(dim as nat);
    let point = rule.points[0].as_slice();
    proof {
        assert(point@ =~= center);
    }
    let mut values: Vec<Vec<T>> = Vec::new();
    let mut i: usize = 0;
    while i < lifts.len()
        invariant
            i <= lifts@.len(),
            complex.wf(),
            dim == complex.dimension(),
            cochain.on(*complex),
            reference_fits(dim as nat, cochain.dim as nat),
            lifts_fit(lifts@, *complex, ambient, cochain.dim as nat),
            center == reference_barycenter::<T>(dim as nat),
            point@ == center,
            values@.len() == i,
            forall|k: int|
                0 <= k < i ==> (#[trigger] values@[k])@ == barycenter_value(
                    *cochain,
                    *complex,
                    lifts@[k],
                    k,
                ),
            forall|k: int|
                0 <= k < i ==> (#[trigger] values@[k])@.len() == exterior_dim_spec(
                    ambient,
                    cochain.dim as nat,
                ),
        decreases lifts@.len() - i,
    {
        let inside = whitney_coeffs(cochain, complex, i, point);
        values.push(lift_form(&lifts[i], &inside));
        i = i + 1;
    }
    values
}

/// Forms of low degree on cells of up to three dimensions fit machine numbers.
pub proof fn low_degrees_fit(dim: nat, grade: nat)
    requires
        dim <= 3,
        grade <= 2,
    ensures
        reference_fits(dim, grade),
        exterior_dim_spec(3, 2) == 3,
{
    reveal_with_fuel(binomial, 6);
    reveal_with_fuel(factorial_spec, 4);
    assert(usize::MAX >= 0xffff_ffff);
    let forms = exterior_dim_spec(dim, grade);
    let functions = (grade + 1) * binomial(dim + 1, grade + 1);
    assert(dim == 0 || dim == 1 || dim == 2 || dim == 3);
    assert(forms <= 3);
    assert(binomial(dim + 1, grade + 1) <= 6);
    assert(functions <= 18) by (nonlinear_arith)
        requires
            functions == (grade + 1) * binomial(dim + 1, grade + 1),
            binomial(dim + 1, grade + 1) <= 6,
            grade <= 2,
    ;
    assert(factorial_spec(0) == 1);
    assert(factorial_spec(1) == 1);
    assert(factorial_spec(2) == 2 * factorial_spec(1));
    assert(factorial_spec(grade) <= 2);
    assert((dim + 1) * (dim + 2) <= 20 && forms * functions <= 54 && forms * forms <= 9
        && functions * functions <= 324) by (nonlinear_arith)
        requires
            dim <= 3,
            forms <= 3,
            functions <= 18,
    ;
}

impl<'a, T: Scalar> WhitneyForm<'a, T> {
    pub closed spec fn values(&self) -> Cochain<T> {
        self.cochain
    }

    pub closed spec fn topology(&self) -> Complex {
        *self.complex
    }

    pub closed spec fn coords(&self) -> MeshCoords<T> {
        *self.mesh_coords
    }

    pub open spec fn wf(&self) -> bool {
        self.topology().wf() && self.values().on(self.topology())
    }

    pub fn new(cochain: Cochain<T>, complex: &'a Complex, mesh_coords: &'a MeshCoords<T>) -> (form:
        Self)
        ensures
            form.values() == cochain,
            form.topology() == *complex,
            form.coords() == *mesh_coords,
    {
        WhitneyForm { cochain, complex, mesh_coords }
    }

    pub fn dim_ambient(&self) -> (dim: usize)
        ensures
            dim == self.coords().dim,
    {
        self.mesh_coords.dim()
    }

    pub fn dim_intrinsic(&self) -> (dim: usize)
        requires
            self.wf(),
        ensures
            dim == self.topology().dimension(),
    {
        self.complex.dim()
    }

    pub fn grade(&self) -> (grade: ExteriorGrade)
        ensures
            grade == self.values().dim,
    {
        self.cochain.dim()
    }

    /// The Whitney form of the exterior derivative of the cochain. It has no values in the top
    /// degree.
    pub fn dif(&self) -> (form: Self)
        requires
            self.wf(),
        ensures
            form.topology() == self.topology(),
            form.coords() == self.coords(),
            is_derivative(form.values(), self.values(), self.topology()),
            self.values().dim < self.topology().dimension() ==> form.wf(),
    {
        WhitneyForm {
            cochain: cochain_dif(&self.cochain, self.complex),
            complex: self.complex,
            mesh_coords: self.mesh_coords,
        }
    }

    /// The form at a point of a cell, in the coordinates of the reference simplex.
    pub fn eval_known_cell_local_intrinsic(&self, cell: usize, local: &[T]) -> (value:
        ExteriorElement<T>)
        requires
            self.wf(),
            cell < self.topology().simplices(self.topology().dimension() as int).len(),
            local@.len() == self.topology().dimension(),
            reference_fits(self.topology().dimension() as nat, self.values().dim as nat),
        ensures
            value.wf(),
            value.dim == self.topology().dimension(),
            value.grade == self.values().dim,
            value.coeffs@ == whitney_at(self.values(), self.topology(), cell as int, local@),
    {
        let coeffs = whitney_coeffs(&self.cochain, self.complex, cell, local);
        ExteriorElement::new(coeffs, self.complex.dim(), self.cochain.dim)
    }

    /// The form at a point of a cell in the space around the mesh. The map takes the forms of
    /// the reference simplex there.
    pub fn eval_known_cell(&self, cell: usize, local: &[T], lift: &DenseMatrix<T>) -> (value:
        ExteriorElement<T>)
        requires
            self.wf(),
            cell < self.topology().simplices(self.topology().dimension() as int).len(),
            local@.len() == self.topology().dimension(),
            reference_fits(self.topology().dimension() as nat, self.values().dim as nat),
            lift.wf(),
            lift.rows() == exterior_dim_spec(self.coords().dim as nat, self.values().dim as nat),
            lift.cols() == exterior_dim_spec(
                self.topology().dimension() as nat,
                self.values().dim as nat,
            ),
        ensures
            value.wf(),
            value.dim == self.coords().dim,
            value.grade == self.values().dim,
            value.coeffs@ == lifted(
                *lift,
                whitney_at(self.values(), self.topology(), cell as int, local@),
            ),
    {
        let inside = self.eval_known_cell_local_intrinsic(cell, local);
        let coeffs = lift_form(lift, &inside.coeffs);
        ExteriorElement::new(coeffs, self.mesh_coords.dim(), self.cochain.dim)
    }
}

/// The exterior derivative of the Whitney form of a cochain on a mesh.
pub struct DifWhitneyForm<'a, T> {
    cochain: &'a Cochain<T>,
    complex: &'a Complex,
    mesh_coords: &'a MeshCoords<T>,
}

/// The coefficient of a basis form in the derivative of a Whitney form of the reference simplex.
pub open spec fn dif_whitney_value<T: Scalar>(dim: nat, simplex: Seq<usize>, b: int) -> T {
    T::from_count_spec(factorial_spec(simplex.len())).times_spec(wedge::<T>(dim, simplex)[b])
}

/// The coefficients of the derivative of the Whitney form of a cochain on a cell, where it is
/// constant.
pub open spec fn dif_whitney_on<T: Scalar>(
    cochain: Cochain<T>,
    complex: Complex,
    cell: int,
) -> Seq<T> {
    let dim = complex.dimension();
    let grade = cochain.dim as int;
    let sets = standard_subsimps_spec(dim as nat, grade as nat);
    let dofs = complex.subsimplices(dim as int, cell, grade);
    Seq::new(
        exterior_dim_spec(dim as nat, (grade + 1) as nat),
        |b: int|
            sum_products(
                |s: int| cochain.coeffs@[dofs[s] as int],
                |s: int| dif_whitney_value::<T>(dim as nat, sets[s], b),
                sets.len() as int,
            ),
    )
}

impl<'a, T: Scalar> DifWhitneyForm<'a, T> {
    pub closed spec fn values(&self) -> Cochain<T> {
        *self.cochain
    }

    pub closed spec fn topology(&self) -> Complex {
        *self.complex
    }

    pub closed spec fn coords(&self) -> MeshCoords<T> {
        *self.mesh_coords
    }

    pub open spec fn wf(&self) -> bool {
        self.topology().wf() && self.values().on(self.topology())
    }

    pub fn new(
        cochain: &'a Cochain<T>,
        complex: &'a Complex,
        mesh_coords: &'a MeshCoords<T>,
    ) -> (form: Self)
        ensures
            form.values() == *cochain,
            form.topology() == *complex,
            form.coords() == *mesh_coords,
    {
        DifWhitneyForm { cochain, complex, mesh_coords }
    }

    pub fn grade(&self) -> (grade: ExteriorGrade)
        requires
            self.wf(),
        ensures
            grade == self.values().dim + 1,
    {
        proof {
            self.complex.machine_sized_levels(0);
        }
        self.cochain.dim + 1
    }

    /// The form on a cell, in the coordinates of the reference simplex.
    pub fn on_known_cell_intrinsic(&self, cell: usize) -> (value: ExteriorElement<T>)
        requires
            self.wf(),
            cell < self.topology().simplices(self.topology().dimension() as int).len(),
            reference_fits(self.topology().dimension() as nat, self.values().dim as nat),
            factorial_spec((self.values().dim + 1) as nat) <= u64::MAX,
        ensures
            value.wf(),
            value.dim == self.topology().dimension(),
            value.grade == self.values().dim + 1,
            value.coeffs@ == dif_whitney_on(self.values(), self.topology(), cell as int),
    {
        let dim: usize = self.complex.dim();
        let grade: usize = self.cochain.dim;
        proof {
            self.complex.machine_sized_levels(0);
            reference_sizes(dim as nat, grade as nat);
            crate::assemble::galerkin::subsimplex_count(self.complex, cell as int, grade as int);
        }
        let dofs = self.complex.subsimplex_indices(dim, cell, grade);
        let simplices = standard_subsimps(dim, grade);
        let ghost sets = standard_subsimps_spec(dim as nat, grade as nat);
        let scale = T::from_count(factorial(grade + 1));
        let nforms: usize = crate::exterior::exterior_basis(dim, grade + 1).len();
        let n: usize = simplices.len();
        let mut coeffs: Vec<T> = crate::linalg::algebra::zero_vector(nforms);
        let mut s: usize = 0;
        while s < n
            invariant
                s <= n,
                self.wf(),
                dim == self.complex.dimension(),
                grade == self.cochain.dim,
                (dim + 1) * dim <= usize::MAX,
                sets == standard_subsimps_spec(dim as nat, grade as nat),
                simplex_views(simplices@) == sets,
                crate::linalg::minors::are_choices(sets, (grade + 1) as nat, (dim + 1) as nat),
                n == sets.len(),
                n == simplices@.len(),
                dofs@.len() == n,
                self.cochain.coeffs@.len() == self.complex.simplices(grade as int).len(),
                forall|j: int|
                    0 <= j < dofs@.len() ==> (#[trigger] dofs@[j]) < self.complex.simplices(
                        grade as int,
                    ).len(),
                scale == T::from_count_spec(factorial_spec((grade + 1) as nat)),
                nforms == exterior_dim_spec(dim as nat, (grade + 1) as nat),
                coeffs@.len() == nforms,
                forall|b: int|
                    0 <= b < nforms ==> #[trigger] coeffs@[b] == sum_products(
                        |s: int| self.cochain.coeffs@[dofs@[s] as int],
                        |s: int| dif_whitney_value::<T>(dim as nat, sets[s], b),
                        s as int,
                    ),
            decreases n - s,
        {
            proof {
                assert(sets[s as int] == simplices@[s as int]@);
                assert(dofs@[s as int] < self.complex.simplices(grade as int).len());
            }
            let term: Vec<T> = wedge_of(dim, simplices[s].vertices.as_slice());
            let dof = self.cochain.coeffs[dofs[s]];
            let ghost before = coeffs@;
            let mut b: usize = 0;
            while b < nforms
                invariant
                    b <= nforms,
                    coeffs@.len() == nforms,
                    before.len() == nforms,
                    term@.len() == nforms,
                    forall|k: int|
                        0 <= k < nforms ==> #[trigger] coeffs@[k] == if k < b {
                            before[k].plus_spec(dof.times_spec(scale.times_spec(term@[k])))
                        } else {
                            before[k]
                        },
                decreases nforms - b,
            {
                coeffs[b] = coeffs[b].plus(dof.times(scale.times(term[b])));
                b = b + 1;
            }
            proof {
                assert forall|b: int| 0 <= b < nforms implies #[trigger] coeffs@[b] == sum_products(
                    |s: int| self.cochain.coeffs@[dofs@[s] as int],
                    |s: int| dif_whitney_value::<T>(dim as nat, sets[s], b),
                    s + 1,
                ) by {
                    assert(before[b] == sum_products(
                        |s: int| self.cochain.coeffs@[dofs@[s] as int],
                        |s: int| dif_whitney_value::<T>(dim as nat, sets[s], b),
                        s as int,
                    ));
                }
            }
            s = s + 1;
        }
        proof {
            assert(coeffs@ =~= dif_whitney_on(*self.cochain, *self.complex, cell as int));
        }
        ExteriorElement::new(coeffs, dim, grade + 1)
    }

    /// The form on a cell in the space around the mesh. The map takes the forms of the
    /// reference simplex there.
    pub fn on_known_cell(&self, cell: usize, lift: &DenseMatrix<T>) -> (value: ExteriorElement<T>)
        requires
            self.wf(),
            cell < self.topology().simplices(self.topology().dimension() as int).len(),
            reference_fits(self.topology().dimension() as nat, self.values().dim as nat),
            factorial_spec((self.values().dim + 1) as nat) <= u64::MAX,
            lift.wf(),
            lift.rows() == exterior_dim_spec(
                self.coords().dim as nat,
                (self.values().dim + 1) as nat,
            ),
            lift.cols() == exterior_dim_spec(
                self.topology().dimension() as nat,
                (self.values().dim + 1) as nat,
            ),
        ensures
            value.wf(),
            value.dim == self.coords().dim,
            value.grade == self.values().dim + 1,
            value.coeffs@ == lifted(
                *lift,
                dif_whitney_on(self.values(), self.topology(), cell as int),
            ),
    {
        let inside = self.on_known_cell_intrinsic(cell);
        let coeffs = lift_form(lift, &inside.coeffs);
        let grade: usize = self.grade();
        ExteriorElement::new(coeffs, self.mesh_coords.dim(), grade)
    }
}

} // verus!
