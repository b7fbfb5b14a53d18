//! Element matrices of exterior derivatives of Whitney forms.

use crate::exterior::ExteriorGrade;
use crate::linalg::dense::{dot_to, dot_to_is, is_product, is_transpose, sum_products, DenseMatrix};
use crate::linalg::minors::{is_matrix, signed, values_of, with_sign};
use crate::linalg::scalar::Scalar;
use crate::operators::elements::{
    hodge_mass_value, sum_terms, wedge_columns, CoordAwareElMatProvider, ElMat, ElMatProvider,
    ElMatProviderBase, HodgeMassElmat, SimplexGeometry,
};
use crate::operators::reference::{
    reference_fits, reference_sizes, standard_subsimps, standard_subsimps_spec,
};
use crate::operators::weights::ApplyWeight;
use crate::topology::simplex::{binomial, simplex_views, Dim, Simplex};
use vstd::prelude::*;

verus! {

/// The sign of a face in the boundary of a simplex.
pub open spec fn face_value<T: Scalar>(sup: Seq<usize>, sub: Seq<usize>) -> T {
    sum_terms(
        |p: int|
            if sup.remove(p) == sub {
                signed(p, T::one_spec())
            } else {
                T::zero_spec()
            },
        sup.len() as int,
    )
}

fn is_face(sup: &Simplex, sub: &Simplex, at: usize) -> (face: bool)
    requires
        at < sup@.len(),
    ensures
        face == (sup@.remove(at as int) == sub@),
{
    let n: usize = sup.vertices.len();
    if sub.vertices.len() != n - 1 {
        proof {
            assert(sup@.remove(at as int).len() == n - 1);
        }
        return false;
    }
    let mut i: usize = 0;
    while i < sub.vertices.len()
        invariant
            i <= sub@.len(),
            at < sup@.len(),
            n == sup@.len(),
            sub@.len() == n - 1,
            forall|k: int| 0 <= k < i ==> sup@.remove(at as int)[k] == sub@[k],
        decreases sub@.len() - i,
    {
        let v: usize = if i < at {
            sup.vertices[i]
        } else {
            sup.vertices[i + 1]
        };
        proof {
            assert(sup@.remove(at as int)[i as int] == v);
        }
        if v != sub.vertices[i] {
            return false;
        }
        i = i + 1;
    }
    proof {
        assert(sup@.remove(at as int) =~= sub@);
    }
    true
}

pub(crate) fn face_value_of<T: Scalar>(sup: &Simplex, sub: &Simplex) -> (v: T)
    ensures
        v == face_value::<T>(sup@, sub@),
{
    let ghost f = |p: int|
        if sup@.remove(p) == sub@ {
            signed(p, T::one_spec())
        } else {
            T::zero_spec()
        };
    let mut v = T::zero();
    let mut p: usize = 0;
    while p < sup.vertices.len()
        invariant
            p <= sup@.len(),
            f == (|p: int|
                if sup@.remove(p) == sub@ {
                    signed(p, T::one_spec())
                } else {
                    T::zero_spec()
                }),
            v == sum_terms(f, p as int),
        decreases sup@.len() - p,
    {
        let term: T = if is_face(sup, sub, p) {
            with_sign(p, T::one())
        } else {
            T::zero()
        };
        v = v.plus(term);
        p = p + 1;
    }
    v
}

/// The exterior derivative of a degree on the reference simplex.
pub open spec fn derivative<T: Scalar>(dim: nat, grade: nat) -> spec_fn(int, int) -> T {
    let sups = standard_subsimps_spec(dim, grade + 1);
    let subs = standard_subsimps_spec(dim, grade);
    |i: int, j: int| face_value(sups[i], subs[j])
}

/// The numbers of subsimplices of two degrees fit machine numbers.
pub open spec fn derivative_fits(dim: nat, grade: nat) -> bool {
    &&& reference_fits(dim, grade)
    &&& reference_fits(dim, grade + 1)
    &&& binomial(dim + 1, grade + 2) * binomial(dim + 1, grade + 1) <= usize::MAX
    &&& binomial(dim + 1, grade + 1) * binomial(dim + 1, grade + 1) <= usize::MAX
}

pub fn reference_derivative<T: Scalar>(dim: Dim, grade: ExteriorGrade) -> (m: DenseMatrix<T>)
    requires
        derivative_fits(dim as nat, grade as nat),
    ensures
        is_matrix(
            m,
            binomial((dim + 1) as nat, (grade + 2) as nat),
            binomial((dim + 1) as nat, (grade + 1) as nat),
            derivative::<T>(dim as nat, grade as nat),
        ),
{
    proof {
        reference_sizes(dim as nat, grade as nat);
        reference_sizes(dim as nat, (grade + 1) as nat);
    }
    let sups = standard_subsimps(dim, grade + 1);
    let subs = standard_subsimps(dim, grade);
    let ghost sup_sets = standard_subsimps_spec(dim as nat, (grade + 1) as nat);
    let ghost sub_sets = standard_subsimps_spec(dim as nat, grade as nat);
    let (nrows, ncols): (usize, usize) = (sups.len(), subs.len());
    let mut m = DenseMatrix::zeros(nrows, ncols);
    let mut i: usize = 0;
    while i < nrows
        invariant
            i <= nrows,
            nrows == sups@.len(),
            ncols == subs@.len(),
            simplex_views(sups@) == sup_sets,
            simplex_views(subs@) == sub_sets,
            m.wf(),
            m.rows() == nrows,
            m.cols() == ncols,
            forall|r: int, c: int|
                0 <= r < i && 0 <= c < ncols ==> #[trigger] m.at(r, c) == face_value::<T>(
                    sup_sets[r],
                    sub_sets[c],
                ),
        decreases nrows - i,
    {
        let mut j: usize = 0;
        while j < ncols
            invariant
                i < nrows,
                j <= ncols,
                nrows == sups@.len(),
                ncols == subs@.len(),
                simplex_views(sups@) == sup_sets,
                simplex_views(subs@) == sub_sets,
                m.wf(),
                m.rows() == nrows,
                m.cols() == ncols,
                forall|r: int, c: int|
                    0 <= r < nrows && 0 <= c < ncols && (r < i || (r == i && c < j))
                        ==> #[trigger] m.at(r, c) == face_value::<T>(sup_sets[r], sub_sets[c]),
            decreases ncols - j,
        {
            proof {
                assert(sup_sets[i as int] == sups@[i as int]@);
                assert(sub_sets[j as int] == subs@[j as int]@);
            }
            m.set(i, j, face_value_of(&sups[i], &subs[j]));
            j = j + 1;
        }
        i = i + 1;
    }
    m
}

/// The product of two tables of values.
pub open spec fn table_product<T: Scalar>(
    f: spec_fn(int, int) -> T,
    g: spec_fn(int, int) -> T,
    n: int,
) -> spec_fn(int, int) -> T {
    |i: int, j: int| sum_products(|k: int| f(i, k), |k: int| g(k, j), n)
}

/// A table with rows and columns interchanged.
pub open spec fn flipped<T>(f: spec_fn(int, int) -> T) -> spec_fn(int, int) -> T {
    |i: int, j: int| f(j, i)
}

proof fn lemma_product<T: Scalar>(
    m: DenseMatrix<T>,
    a: DenseMatrix<T>,
    b: DenseMatrix<T>,
    f: spec_fn(int, int) -> T,
    g: spec_fn(int, int) -> T,
    rows: nat,
    n: nat,
    cols: nat,
)
    requires
        is_product(m, a, b),
        is_matrix(a, rows, n, f),
        is_matrix(b, n, cols, g),
    ensures
        is_matrix(m, rows, cols, table_product(f, g, n as int)),
{
    let h = table_product(f, g, n as int);
    assert forall|i: int, j: int| 0 <= i < rows && 0 <= j < cols implies #[trigger] m.at(i, j) == h(
        i,
        j,
    ) by {
        assert(m.at(i, j) == dot_to(a, b, i, j, n as int));
        dot_to_is(a, b, i, j, n as int, |k: int| f(i, k), |k: int| g(k, j));
    }
}

/// The inner products of Whitney forms as a table.
pub open spec fn mass_table<T: Scalar>(geometry: SimplexGeometry<T>, grade: nat) -> spec_fn(
    int,
    int,
) -> T {
    let dim = geometry.dim as nat;
    let sets = standard_subsimps_spec(dim, grade);
    |i: int, j: int| hodge_mass_value(geometry, grade, wedge_columns::<T>(dim, sets[i]), i, j)
}

/// The element matrix of the inner products of derivatives of Whitney forms and Whitney forms.
#[derive(Debug)]
pub struct DifElmat<T> {
    mass: HodgeMassElmat<T>,
    dif: DenseMatrix<T>,
}

impl<T: Scalar> DifElmat<T> {
    pub closed spec fn masses(&self) -> HodgeMassElmat<T> {
        self.mass
    }

    pub closed spec fn wf(&self) -> bool {
        let (dim, grade) = (self.mass.dimension(), self.mass.degree());
        &&& self.mass.wf()
        &&& grade >= 1
        &&& derivative_fits(dim, (grade - 1) as nat)
        &&& is_matrix(
            self.dif,
            binomial(dim + 1, grade + 1),
            binomial(dim + 1, grade),
            derivative::<T>(dim, (grade - 1) as nat),
        )
    }

    pub fn new(dim: Dim, grade: ExteriorGrade) -> (provider: Self)
        requires
            1 <= grade <= dim,
            derivative_fits(dim as nat, (grade - 1) as nat),
        ensures
            provider.wf(),
            provider.masses().dimension() == dim,
            provider.masses().degree() == grade,
    {
        DifElmat { mass: HodgeMassElmat::new(dim, grade), dif: reference_derivative(dim, grade - 1) }
    }

    fn times_derivative(&self, mass: &DenseMatrix<T>, Ghost(f): Ghost<spec_fn(int, int) -> T>) -> (m:
        DenseMatrix<T>)
        requires
            self.wf(),
            is_matrix(
                *mass,
                binomial(self.masses().dimension() + 1, self.masses().degree() + 1),
                binomial(self.masses().dimension() + 1, self.masses().degree() + 1),
                f,
            ),
        ensures
            is_matrix(
                m,
                binomial(self.masses().dimension() + 1, self.masses().degree() + 1),
                binomial(self.masses().dimension() + 1, self.masses().degree()),
                table_product(
                    f,
                    derivative::<T>(
                        self.masses().dimension(),
                        (self.masses().degree() - 1) as nat,
                    ),
                    binomial(self.masses().dimension() + 1, self.masses().degree() + 1) as int,
                ),
            ),
    {
        let m = mass.product(&self.dif);
        proof {
            let (dim, grade) = (self.mass.dimension(), self.mass.degree());
            lemma_product(
                m,
                *mass,
                self.dif,
                f,
                derivative::<T>(dim, (grade - 1) as nat),
                binomial(dim + 1, grade + 1),
                binomial(dim + 1, grade + 1),
                binomial(dim + 1, grade),
            );
        }
        m
    }
}

impl<T: Scalar> ElMatProviderBase for DifElmat<T> {
    open spec fn row_degree(&self) -> nat {
        self.masses().degree()
    }

    open spec fn col_degree(&self) -> nat {
        if self.masses().degree() == 0 {
            0
        } else {
            (self.masses().degree() - 1) as nat
        }
    }

    fn row_grade(&self) -> (grade: ExteriorGrade) {
        self.mass.row_grade()
    }

    fn col_grade(&self) -> (grade: ExteriorGrade) {
        let grade: usize = self.mass.row_grade();
        if grade == 0 {
            0
        } else {
            grade - 1
        }
    }
}

impl<T: Scalar> ElMatProvider<T> for DifElmat<T> {
    open spec fn accepts(&self, geometry: SimplexGeometry<T>) -> bool {
        self.wf() && self.masses().accepts(geometry)
    }

    open spec fn is_elmat(&self, m: ElMat<T>, geometry: SimplexGeometry<T>) -> bool {
        let (dim, grade) = (self.masses().dimension(), self.masses().degree());
        is_matrix(
            m,
            binomial(dim + 1, grade + 1),
            binomial(dim + 1, grade),
            table_product(
                mass_table(geometry, grade),
                derivative::<T>(dim, (grade - 1) as nat),
                binomial(dim + 1, grade + 1) as int,
            ),
        )
    }

    fn eval(&self, geometry: &SimplexGeometry<T>) -> (m: ElMat<T>) {
        let mass: ElMat<T> = self.mass.eval(geometry);
        proof {
            reference_sizes(self.mass.dimension(), self.mass.degree());
        }
        let ghost f = mass_table(*geometry, self.mass.degree());
        self.times_derivative(&mass, Ghost(f))
    }
}

impl<T: Scalar, W: ApplyWeight<T>> CoordAwareElMatProvider<T, W> for DifElmat<T> {
    open spec fn accepts_weight(&self, geometry: SimplexGeometry<T>, weight: W) -> bool {
        self.wf() && self.masses().accepts_weight(geometry, weight)
    }

    open spec fn is_weighted_elmat(
        &self,
        m: ElMat<T>,
        geometry: SimplexGeometry<T>,
        weight: W,
    ) -> bool {
        let (dim, grade) = (self.masses().dimension(), self.masses().degree());
        exists|mass: ElMat<T>|
            #[trigger] self.masses().is_weighted_elmat(mass, geometry, weight) && is_matrix(
                m,
                binomial(dim + 1, grade + 1),
                binomial(dim + 1, grade),
                table_product(
                    values_of(mass),
                    derivative::<T>(dim, (grade - 1) as nat),
                    binomial(dim + 1, grade + 1) as int,
                ),
            )
    }

    fn eval_with_coords(&self, geometry: &SimplexGeometry<T>, weight: &W) -> (m: ElMat<T>) {
        let mass: ElMat<T> = self.mass.eval_with_coords(geometry, weight);
        proof {
            self.mass.terms_are();
        }
        let ghost f = values_of(mass);
        let m = self.times_derivative(&mass, Ghost(f));
        proof {
            assert(self.masses().is_weighted_elmat(mass, *geometry, *weight));
        }
        m
    }
}

proof fn lemma_transpose<T: Scalar>(
    t: DenseMatrix<T>,
    a: DenseMatrix<T>,
    f: spec_fn(int, int) -> T,
    rows: nat,
    cols: nat,
)
    requires
        is_transpose(t, a),
        is_matrix(a, rows, cols, f),
    ensures
        is_matrix(t, cols, rows, flipped(f)),
{
    let g = flipped(f);
    assert forall|i: int, j: int| 0 <= i < cols && 0 <= j < rows implies #[trigger] t.at(i, j) == g(
        i,
        j,
    ) by {
        assert(t.at(i, j) == a.at(j, i));
    }
}

/// The element matrix of the inner products of Whitney forms and derivatives of Whitney forms.
/// Its rows belong to the lower degree.
#[derive(Debug)]
pub struct CodifElmat<T> {
    mass: HodgeMassElmat<T>,
    codif: DenseMatrix<T>,
}

impl<T: Scalar> CodifElmat<T> {
    pub closed spec fn masses(&self) -> HodgeMassElmat<T> {
        self.mass
    }

    pub closed spec fn wf(&self) -> bool {
        let (dim, grade) = (self.mass.dimension(), self.mass.degree());
        &&& self.mass.wf()
        &&& grade >= 1
        &&& derivative_fits(dim, (grade - 1) as nat)
        &&& is_matrix(
            self.codif,
            binomial(dim + 1, grade),
            binomial(dim + 1, grade + 1),
            flipped(derivative::<T>(dim, (grade - 1) as nat)),
        )
    }

    pub fn new(dim: Dim, grade: ExteriorGrade) -> (provider: Self)
        requires
            1 <= grade <= dim,
            derivative_fits(dim as nat, (grade - 1) as nat),
        ensures
            provider.wf(),
            provider.masses().dimension() == dim,
            provider.masses().degree() == grade,
    {
        let dif: DenseMatrix<T> = reference_derivative(dim, grade - 1);
        let codif = dif.transpose();
        proof {
            lemma_transpose(
                codif,
                dif,
                derivative::<T>(dim as nat, (grade - 1) as nat),
                binomial((dim + 1) as nat, (grade + 1) as nat),
                binomial((dim + 1) as nat, grade as nat),
            );
        }
        CodifElmat { mass: HodgeMassElmat::new(dim, grade), codif }
    }

    fn codif_times(&self, mass: &DenseMatrix<T>, Ghost(f): Ghost<spec_fn(int, int) -> T>) -> (m:
        DenseMatrix<T>)
        requires
            self.wf(),
            is_matrix(
                *mass,
                binomial(self.masses().dimension() + 1, self.masses().degree() + 1),
                binomial(self.masses().dimension() + 1, self.masses().degree() + 1),
                f,
            ),
        ensures
            is_matrix(
                m,
                binomial(self.masses().dimension() + 1, self.masses().degree()),
                binomial(self.masses().dimension() + 1, self.masses().degree() + 1),
                table_product(
                    flipped(
                        derivative::<T>(
                            self.masses().dimension(),
                            (self.masses().degree() - 1) as nat,
                        ),
                    ),
                    f,
                    binomial(self.masses().dimension() + 1, self.masses().degree() + 1) as int,
                ),
            ),
    {
        let ghost (dim, grade) = (self.mass.dimension(), self.mass.degree());
        proof {
            let (x, y) = (binomial(dim + 1, grade), binomial(dim + 1, grade + 1));
            assert(x * y == y * x) by (nonlinear_arith);
        }
        let m = self.codif.product(mass);
        proof {
            lemma_product(
                m,
                self.codif,
                *mass,
                flipped(derivative::<T>(dim, (grade - 1) as nat)),
                f,
                binomial(dim + 1, grade),
                binomial(dim + 1, grade + 1),
                binomial(dim + 1, grade + 1),
            );
        }
        m
    }
}

impl<T: Scalar> ElMatProviderBase for CodifElmat<T> {
    open spec fn row_degree(&self) -> nat {
        if self.masses().degree() == 0 {
            0
        } else {
            (self.masses().degree() - 1) as nat
        }
    }

    open spec fn col_degree(&self) -> nat {
        self.masses().degree()
    }

    fn row_grade(&self) -> (grade: ExteriorGrade) {
        let grade: usize = self.mass.row_grade();
        if grade == 0 {
            0
        } else {
            grade - 1
        }
    }

    fn col_grade(&self) -> (grade: ExteriorGrade) {
        self.mass.row_grade()
    }
}

impl<T: Scalar> ElMatProvider<T> for CodifElmat<T> {
    open spec fn accepts(&self, geometry: SimplexGeometry<T>) -> bool {
        self.wf() && self.masses().accepts(geometry)
    }

    open spec fn is_elmat(&self, m: ElMat<T>, geometry: SimplexGeometry<T>) -> bool {
        let (dim, grade) = (self.masses().dimension(), self.masses().degree());
        is_matrix(
            m,
            binomial(dim + 1, grade),
            binomial(dim + 1, grade + 1),
            table_product(
                flipped(derivative::<T>(dim, (grade - 1) as nat)),
                mass_table(geometry, grade),
                binomial(dim + 1, grade + 1) as int,
            ),
        )
    }

    fn eval(&self, geometry: &SimplexGeometry<T>) -> (m: ElMat<T>) {
        let mass: ElMat<T> = self.mass.eval(geometry);
        proof {
            reference_sizes(self.mass.dimension(), self.mass.degree());
        }
        let ghost f = mass_table(*geometry, self.mass.degree());
        self.codif_times(&mass, Ghost(f))
    }
}

impl<T: Scalar, W: ApplyWeight<T>> CoordAwareElMatProvider<T, W> for CodifElmat<T> {
    open spec fn accepts_weight(&self, geometry: SimplexGeometry<T>, weight: W) -> bool {
        self.wf() && self.masses().accepts_weight(geometry, weight)
    }

    open spec fn is_weighted_elmat(
        &self,
        m: ElMat<T>,
        geometry: SimplexGeometry<T>,
        weight: W,
    ) -> bool {
        let (dim, grade) = (self.masses().dimension(), self.masses().degree());
        exists|mass: ElMat<T>|
            #[trigger] self.masses().is_weighted_elmat(mass, geometry, weight) && is_matrix(
                m,
                binomial(dim + 1, grade),
                binomial(dim + 1, grade + 1),
                table_product(
                    flipped(derivative::<T>(dim, (grade - 1) as nat)),
                    values_of(mass),
                    binomial(dim + 1, grade + 1) as int,
                ),
            )
    }

    fn eval_with_coords(&self, geometry: &SimplexGeometry<T>, weight: &W) -> (m: ElMat<T>) {
        let mass: ElMat<T> = self.mass.eval_with_coords(geometry, weight);
        proof {
            self.mass.terms_are();
        }
        let ghost f = values_of(mass);
        let m = self.codif_times(&mass, Ghost(f));
        proof {
            assert(self.masses().is_weighted_elmat(mass, *geometry, *weight));
        }
        m
    }
}

/// The element matrix of the inner products of derivatives of Whitney forms.
#[derive(Debug)]
pub struct CodifDifElmat<T> {
    mass: HodgeMassElmat<T>,
    dif: DenseMatrix<T>,
    codif: DenseMatrix<T>,
}

/// The derivative, the given inner products and the derivative again.
pub open spec fn sandwich<T: Scalar>(dim: nat, grade: nat, f: spec_fn(int, int) -> T) -> spec_fn(
    int,
    int,
) -> T {
    let d = derivative::<T>(dim, grade);
    let n = binomial(dim + 1, grade + 2) as int;
    table_product(table_product(flipped(d), f, n), d, n)
}

impl<T: Scalar> CodifDifElmat<T> {
    pub closed spec fn masses(&self) -> HodgeMassElmat<T> {
        self.mass
    }

    /// The degree of the forms whose derivatives are taken.
    pub open spec fn degree(&self) -> nat {
        if self.masses().degree() == 0 {
            0
        } else {
            (self.masses().degree() - 1) as nat
        }
    }

    pub closed spec fn wf(&self) -> bool {
        let (dim, grade) = (self.mass.dimension(), self.degree());
        &&& self.mass.wf()
        &&& self.mass.degree() >= 1
        &&& derivative_fits(dim, grade)
        &&& is_matrix(
            self.dif,
            binomial(dim + 1, grade + 2),
            binomial(dim + 1, grade + 1),
            derivative::<T>(dim, grade),
        )
        &&& is_matrix(
            self.codif,
            binomial(dim + 1, grade + 1),
            binomial(dim + 1, grade + 2),
            flipped(derivative::<T>(dim, grade)),
        )
    }

    pub fn new(dim: Dim, grade: ExteriorGrade) -> (provider: Self)
        requires
            grade < dim,
            derivative_fits(dim as nat, grade as nat),
        ensures
            provider.wf(),
            provider.masses().dimension() == dim,
            provider.degree() == grade,
    {
        let dif: DenseMatrix<T> = reference_derivative(dim, grade);
        let codif = dif.transpose();
        proof {
            lemma_transpose(
                codif,
                dif,
                derivative::<T>(dim as nat, grade as nat),
                binomial((dim + 1) as nat, (grade + 2) as nat),
                binomial((dim + 1) as nat, (grade + 1) as nat),
            );
        }
        CodifDifElmat { mass: HodgeMassElmat::new(dim, grade + 1), dif, codif }
    }

    fn sandwiched(&self, mass: &DenseMatrix<T>, Ghost(f): Ghost<spec_fn(int, int) -> T>) -> (m:
        DenseMatrix<T>)
        requires
            self.wf(),
            is_matrix(
                *mass,
                binomial(self.masses().dimension() + 1, self.masses().degree() + 1),
                binomial(self.masses().dimension() + 1, self.masses().degree() + 1),
                f,
            ),
        ensures
            is_matrix(
                m,
                binomial(self.masses().dimension() + 1, self.degree() + 1),
                binomial(self.masses().dimension() + 1, self.degree() + 1),
                sandwich(self.masses().dimension(), self.degree(), f),
            ),
    {
        let ghost (dim, grade) = (self.mass.dimension(), self.degree());
        let ghost (x, y) = (binomial(dim + 1, grade + 1), binomial(dim + 1, grade + 2));
        proof {
            assert(x * y == y * x) by (nonlinear_arith);
            assert(self.mass.degree() + 1 == grade + 2);
        }
        let ghost d = derivative::<T>(dim, grade);
        let half = self.codif.product(mass);
        proof {
            lemma_product(half, self.codif, *mass, flipped(d), f, x, y, y);
        }
        let m = half.product(&self.dif);
        proof {
            lemma_product(m, half, self.dif, table_product(flipped(d), f, y as int), d, x, y, x);
        }
        m
    }
}

impl<T: Scalar> ElMatProviderBase for CodifDifElmat<T> {
    open spec fn row_degree(&self) -> nat {
        self.degree()
    }

    open spec fn col_degree(&self) -> nat {
        self.degree()
    }

    fn row_grade(&self) -> (grade: ExteriorGrade) {
        let grade: usize = self.mass.row_grade();
        if grade == 0 {
            0
        } else {
            grade - 1
        }
    }

    fn col_grade(&self) -> (grade: ExteriorGrade) {
        self.row_grade()
    }
}

impl<T: Scalar> ElMatProvider<T> for CodifDifElmat<T> {
    open spec fn accepts(&self, geometry: SimplexGeometry<T>) -> bool {
        self.wf() && self.masses().accepts(geometry)
    }

    open spec fn is_elmat(&self, m: ElMat<T>, geometry: SimplexGeometry<T>) -> bool {
        let (dim, grade) = (self.masses().dimension(), self.degree());
        is_matrix(
            m,
            binomial(dim + 1, grade + 1),
            binomial(dim + 1, grade + 1),
            sandwich(dim, grade, mass_table(geometry, grade + 1)),
        )
    }

    fn eval(&self, geometry: &SimplexGeometry<T>) -> (m: ElMat<T>) {
        let mass: ElMat<T> = self.mass.eval(geometry);
        proof {
            reference_sizes(self.mass.dimension(), self.mass.degree());
        }
        let ghost f = mass_table(*geometry, self.mass.degree());
        self.sandwiched(&mass, Ghost(f))
    }
}

impl<T: Scalar, W: ApplyWeight<T>> CoordAwareElMatProvider<T, W> for CodifDifElmat<T> {
    open spec fn accepts_weight(&self, geometry: SimplexGeometry<T>, weight: W) -> bool {
        self.wf() && self.masses().accepts_weight(geometry, weight)
    }

    open spec fn is_weighted_elmat(
        &self,
        m: ElMat<T>,
        geometry: SimplexGeometry<T>,
        weight: W,
    ) -> bool {
        let (dim, grade) = (self.masses().dimension(), self.degree());
        exists|mass: ElMat<T>|
            #[trigger] self.masses().is_weighted_elmat(mass, geometry, weight) && is_matrix(
                m,
                binomial(dim + 1, grade + 1),
                binomial(dim + 1, grade + 1),
                sandwich(dim, grade, values_of(mass)),
            )
    }

    fn eval_with_coords(&self, geometry: &SimplexGeometry<T>, weight: &W) -> (m: ElMat<T>) {
        let mass: ElMat<T> = self.mass.eval_with_coords(geometry, weight);
        proof {
            self.mass.terms_are();
        }
        let ghost f = values_of(mass);
        let m = self.sandwiched(&mass, Ghost(f));
        proof {
            assert(self.masses().is_weighted_elmat(mass, *geometry, *weight));
        }
        m
    }
}

} // verus!
