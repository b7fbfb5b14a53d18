//! Element matrices of the inner products of Whitney forms.

use crate::exterior::{basis, basis_of_space, exterior_basis, exterior_dim_spec, ExteriorGrade};
use crate::linalg::dense::{dot_to, dot_to_is, sum_products, sum_products_same, DenseMatrix};
use crate::linalg::minors::{compound, is_matrix, minor, signed, values_of, with_sign};
use crate::linalg::scalar::Scalar;
use crate::operators::reference::{
    difbary, difbarys, factorial, factorial_spec, reference_fits, reference_sizes,
    standard_subsimps, standard_subsimps_spec, wedge_term, wedge_term_of,
};
use crate::operators::weights::{ApplyWeight, ScalarWeight};
use crate::topology::simplex::{binomial, simplex_views, Dim, Simplex};
use vstd::prelude::*;

verus! {

/// An element matrix.
pub type ElMat<T> = DenseMatrix<T>;

/// The volume of a simplex and the inverse of its metric in the coordinates of the reference
/// simplex.
#[derive(Debug)]
pub struct SimplexGeometry<T> {
    pub dim: Dim,
    pub volume: T,
    pub inverse_metric: DenseMatrix<T>,
}

impl<T: Scalar> SimplexGeometry<T> {
    pub open spec fn wf(&self) -> bool {
        &&& self.inverse_metric.wf()
        &&& self.inverse_metric.rows() == self.dim
        &&& self.inverse_metric.cols() == self.dim
    }
}

/// The inner products of the basis forms of a degree: minors of the inverse metric.
pub open spec fn gramian<T: Scalar>(geometry: SimplexGeometry<T>, grade: nat) -> spec_fn(
    int,
    int,
) -> T {
    let forms = basis(geometry.dim as nat, grade);
    |i: int, j: int| minor(values_of(geometry.inverse_metric), forms[i], forms[j])
}

pub fn multi_gramian<T: Scalar>(geometry: &SimplexGeometry<T>, grade: ExteriorGrade) -> (m:
    DenseMatrix<T>)
    requires
        geometry.wf(),
        exterior_dim_spec(geometry.dim as nat, grade as nat) * exterior_dim_spec(
            geometry.dim as nat,
            grade as nat,
        ) <= usize::MAX,
    ensures
        is_matrix(
            m,
            exterior_dim_spec(geometry.dim as nat, grade as nat),
            exterior_dim_spec(geometry.dim as nat, grade as nat),
            gramian(*geometry, grade as nat),
        ),
{
    let forms = exterior_basis(geometry.dim, grade);
    proof {
        basis_of_space(geometry.dim as nat, grade as nat);
    }
    let m = compound(&geometry.inverse_metric, &forms, &forms, Ghost(grade as nat));
    proof {
        let sets = basis(geometry.dim as nat, grade as nat);
        let n = exterior_dim_spec(geometry.dim as nat, grade as nat);
        let g = gramian(*geometry, grade as nat);
        assert forall|i: int, j: int| 0 <= i < n && 0 <= j < n implies #[trigger] m.at(i, j) == g(
            i,
            j,
        ) by {
            assert(m.at(i, j) == minor(values_of(geometry.inverse_metric), sets[i], sets[j]));
        }
    }
    m
}

/// The sum of the first terms.
pub open spec fn sum_terms<T: Scalar>(f: spec_fn(int) -> T, n: int) -> T
    decreases n,
{
    if n <= 0 {
        T::zero_spec()
    } else {
        sum_terms(f, n - 1).plus_spec(f(n - 1))
    }
}

pub proof fn sum_terms_same<T: Scalar>(f: spec_fn(int) -> T, g: spec_fn(int) -> T, n: int)
    requires
        forall|k: int| 0 <= k < n ==> #[trigger] f(k) == g(k),
    ensures
        sum_terms(f, n) == sum_terms(g, n),
    decreases n,
{
    if n > 0 {
        sum_terms_same(f, g, n - 1);
        assert(f(n - 1) == g(n - 1));
    }
}

/// The inner product of two forms with the given coefficients in columns.
pub open spec fn inner_value<T: Scalar>(
    a: spec_fn(int, int) -> T,
    g: spec_fn(int, int) -> T,
    b: spec_fn(int, int) -> T,
    n: int,
    i: int,
    j: int,
) -> T {
    sum_products(
        |q: int| sum_products(|p: int| a(p, i), |p: int| g(p, q), n),
        |q: int| b(q, j),
        n,
    )
}

/// The inner products of the columns of two matrices.
pub fn inner_mat<T: Scalar>(
    a: &DenseMatrix<T>,
    g: &DenseMatrix<T>,
    b: &DenseMatrix<T>,
) -> (m: DenseMatrix<T>)
    requires
        a.wf(),
        g.wf(),
        b.wf(),
        a.rows() == g.rows(),
        g.rows() == g.cols(),
        g.cols() == b.rows(),
        a.rows() * a.cols() <= usize::MAX,
        a.cols() * b.cols() <= usize::MAX,
    ensures
        m.wf(),
        m.rows() == a.cols(),
        m.cols() == b.cols(),
        forall|i: int, j: int|
            0 <= i < a.cols() && 0 <= j < b.cols() ==> #[trigger] m.at(i, j) == inner_value(
                values_of(*a),
                values_of(*g),
                values_of(*b),
                g.rows() as int,
                i,
                j,
            ),
{
    let t = a.transpose();
    proof {
        assert(t.rows() * g.cols() == a.rows() * a.cols()) by (nonlinear_arith)
            requires
                t.rows() == a.cols(),
                g.cols() == a.rows(),
        ;
    }
    let half = t.product(g);
    let m = half.product(b);
    proof {
        let n = g.rows() as int;
        assert forall|i: int, j: int| 0 <= i < a.cols() && 0 <= j < b.cols() implies #[trigger] m.at(
            i,
            j,
        ) == inner_value(values_of(*a), values_of(*g), values_of(*b), n, i, j) by {
            let va = values_of(*a);
            let vg = values_of(*g);
            let vb = values_of(*b);
            let f = |q: int| sum_products(|p: int| va(p, i), |p: int| vg(p, q), n);
            let h = |q: int| vb(q, j);
            assert forall|q: int| 0 <= q < n implies #[trigger] half.at(i, q) == f(q) by {
                assert(half.at(i, q) == dot_to(t, *g, i, q, n));
                let left = |p: int| va(p, i);
                let right = |p: int| vg(p, q);
                assert forall|p: int| 0 <= p < n implies #[trigger] t.at(i, p) == left(p) by {}
                dot_to_is(t, *g, i, q, n, left, right);
            }
            assert(m.at(i, j) == dot_to(half, *b, i, j, n));
            dot_to_is(half, *b, i, j, n, f, h);
        }
    }
    m
}

pub proof fn inner_value_same<T: Scalar>(
    a: spec_fn(int, int) -> T,
    g: spec_fn(int, int) -> T,
    b: spec_fn(int, int) -> T,
    c: spec_fn(int, int) -> T,
    h: spec_fn(int, int) -> T,
    d: spec_fn(int, int) -> T,
    n: int,
    i: int,
    j: int,
)
    requires
        forall|p: int| 0 <= p < n ==> #[trigger] a(p, i) == c(p, i),
        forall|p: int| 0 <= p < n ==> #[trigger] b(p, j) == d(p, j),
        forall|p: int, q: int| 0 <= p < n && 0 <= q < n ==> #[trigger] g(p, q) == h(p, q),
    ensures
        inner_value(a, g, b, n, i, j) == inner_value(c, h, d, n, i, j),
{
    let f1 = |q: int| sum_products(|p: int| a(p, i), |p: int| g(p, q), n);
    let f2 = |q: int| sum_products(|p: int| c(p, i), |p: int| h(p, q), n);
    assert forall|q: int| 0 <= q < n implies #[trigger] f1(q) == f2(q) by {
        sum_products_same(
            |p: int| a(p, i),
            |p: int| g(p, q),
            |p: int| c(p, i),
            |p: int| h(p, q),
            n,
        );
    }
    sum_products_same(f1, |q: int| b(q, j), f2, |q: int| d(q, j), n);
}

/// The integral of the product of two barycentric coordinates.
pub open spec fn scalar_mass<T: Scalar>(volume: T, dim: nat, i: int, j: int) -> T {
    let v = volume.over_spec(T::from_count_spec((dim + 1) * (dim + 2)));
    if i == j {
        T::from_count_spec(2).times_spec(v)
    } else {
        v
    }
}

fn scalar_mass_of<T: Scalar>(volume: T, dim: Dim, i: usize, j: usize) -> (v: T)
    requires
        (dim + 1) * (dim + 2) <= usize::MAX,
    ensures
        v == scalar_mass(volume, dim as nat, i as int, j as int),
{
    proof {
        assert(dim + 2 <= (dim + 1) * (dim + 2)) by (nonlinear_arith);
    }
    let count: usize = (dim + 1) * (dim + 2);
    let v = volume.over(T::from_count(count as u64));
    if i == j {
        T::from_count(2).times(v)
    } else {
        v
    }
}

/// The degrees of the forms that an element matrix couples.
pub trait ElMatProviderBase {
    spec fn row_degree(&self) -> nat;

    spec fn col_degree(&self) -> nat;

    fn row_grade(&self) -> (grade: ExteriorGrade)
        ensures
            grade == self.row_degree(),
    ;

    fn col_grade(&self) -> (grade: ExteriorGrade)
        ensures
            grade == self.col_degree(),
    ;
}

/// An element matrix for each simplex.
pub trait ElMatProvider<T: Scalar>: ElMatProviderBase {
    spec fn accepts(&self, geometry: SimplexGeometry<T>) -> bool;

    spec fn is_elmat(&self, m: ElMat<T>, geometry: SimplexGeometry<T>) -> bool;

    fn eval(&self, geometry: &SimplexGeometry<T>) -> (m: ElMat<T>)
        requires
            self.accepts(*geometry),
        ensures
            self.is_elmat(m, *geometry),
    ;
}

/// An element matrix for each simplex with a weight.
pub trait CoordAwareElMatProvider<T: Scalar, W: ApplyWeight<T>>: ElMatProviderBase {
    spec fn accepts_weight(&self, geometry: SimplexGeometry<T>, weight: W) -> bool;

    spec fn is_weighted_elmat(
        &self,
        m: ElMat<T>,
        geometry: SimplexGeometry<T>,
        weight: W,
    ) -> bool;

    fn eval_with_coords(&self, geometry: &SimplexGeometry<T>, weight: &W) -> (m: ElMat<T>)
        requires
            self.accepts_weight(*geometry, *weight),
        ensures
            self.is_weighted_elmat(m, *geometry, *weight),
    ;
}

/// The element matrix of the product of barycentric coordinates.
#[derive(Debug)]
pub struct ScalarMassElmat;

impl ScalarMassElmat {
    pub fn new() -> (provider: Self) {
        ScalarMassElmat
    }
}

impl Default for ScalarMassElmat {
    fn default() -> (provider: Self)
        ensures
            provider == ScalarMassElmat,
    {
        ScalarMassElmat
    }
}

impl ElMatProviderBase for ScalarMassElmat {
    open spec fn row_degree(&self) -> nat {
        0
    }

    open spec fn col_degree(&self) -> nat {
        0
    }

    fn row_grade(&self) -> (grade: ExteriorGrade) {
        0
    }

    fn col_grade(&self) -> (grade: ExteriorGrade) {
        0
    }
}

impl<T: Scalar> ElMatProvider<T> for ScalarMassElmat {
    open spec fn accepts(&self, geometry: SimplexGeometry<T>) -> bool {
        (geometry.dim + 1) * (geometry.dim + 2) <= usize::MAX
    }

    open spec fn is_elmat(&self, m: ElMat<T>, geometry: SimplexGeometry<T>) -> bool {
        is_matrix(
            m,
            (geometry.dim + 1) as nat,
            (geometry.dim + 1) as nat,
            |i: int, j: int| scalar_mass(geometry.volume, geometry.dim as nat, i, j),
        )
    }

    fn eval(&self, geometry: &SimplexGeometry<T>) -> (m: ElMat<T>) {
        proof {
            let d = geometry.dim;
            assert(d + 1 < (d + 1) * (d + 2)) by (nonlinear_arith);
            assert((d + 1) * (d + 1) <= (d + 1) * (d + 2)) by (nonlinear_arith);
        }
        let n: usize = geometry.dim + 1;
        let mut m = DenseMatrix::zeros(n, n);
        let mut i: usize = 0;
        while i < n
            invariant
                i <= n,
                n == geometry.dim + 1,
                (geometry.dim + 1) * (geometry.dim + 2) <= usize::MAX,
                m.wf(),
                m.rows() == n,
                m.cols() == n,
                forall|r: int, c: int|
                    0 <= r < i && 0 <= c < n ==> #[trigger] m.at(r, c) == scalar_mass(
                        geometry.volume,
                        geometry.dim as nat,
                        r,
                        c,
                    ),
            decreases n - i,
        {
            let mut j: usize = 0;
            while j < n
                invariant
                    i < n,
                    j <= n,
                    n == geometry.dim + 1,
                    (geometry.dim + 1) * (geometry.dim + 2) <= usize::MAX,
                    m.wf(),
                    m.rows() == n,
                    m.cols() == n,
                    forall|r: int, c: int|
                        0 <= r < n && 0 <= c < n && (r < i || (r == i && c < j))
                            ==> #[trigger] m.at(r, c) == scalar_mass(
                            geometry.volume,
                            geometry.dim as nat,
                            r,
                            c,
                        ),
                decreases n - j,
            {
                m.set(i, j, scalar_mass_of(geometry.volume, geometry.dim, i, j));
                j = j + 1;
            }
            i = i + 1;
        }
        m
    }
}

/// The lumped element matrix of the product of barycentric coordinates.
#[derive(Debug)]
pub struct ScalarLumpedMassElmat;

impl ElMatProviderBase for ScalarLumpedMassElmat {
    open spec fn row_degree(&self) -> nat {
        0
    }

    open spec fn col_degree(&self) -> nat {
        0
    }

    fn row_grade(&self) -> (grade: ExteriorGrade) {
        0
    }

    fn col_grade(&self) -> (grade: ExteriorGrade) {
        0
    }
}

impl<T: Scalar> ElMatProvider<T> for ScalarLumpedMassElmat {
    open spec fn accepts(&self, geometry: SimplexGeometry<T>) -> bool {
        (geometry.dim + 1) * (geometry.dim + 1) <= usize::MAX
    }

    open spec fn is_elmat(&self, m: ElMat<T>, geometry: SimplexGeometry<T>) -> bool {
        is_matrix(
            m,
            (geometry.dim + 1) as nat,
            (geometry.dim + 1) as nat,
            |i: int, j: int|
                if i == j {
                    geometry.volume.over_spec(T::from_count_spec((geometry.dim + 1) as nat))
                } else {
                    T::zero_spec()
                },
        )
    }

    fn eval(&self, geometry: &SimplexGeometry<T>) -> (m: ElMat<T>) {
        proof {
            let d = geometry.dim;
            assert(d + 1 <= (d + 1) * (d + 1)) by (nonlinear_arith);
        }
        let n: usize = geometry.dim + 1;
        DenseMatrix::diagonal(n, geometry.volume.over(T::from_count(n as u64)))
    }
}

/// The element matrix of the inner products of the differentials of barycentric coordinates.
#[derive(Debug)]
pub struct LaplaceBeltramiElmat {
    pub dim: Dim,
}

impl LaplaceBeltramiElmat {
    pub fn new(dim: Dim) -> (provider: Self)
        ensures
            provider.dim == dim,
    {
        LaplaceBeltramiElmat { dim }
    }
}

impl ElMatProviderBase for LaplaceBeltramiElmat {
    open spec fn row_degree(&self) -> nat {
        0
    }

    open spec fn col_degree(&self) -> nat {
        0
    }

    fn row_grade(&self) -> (grade: ExteriorGrade) {
        0
    }

    fn col_grade(&self) -> (grade: ExteriorGrade) {
        0
    }
}

/// The differentials of the barycentric coordinates, one in each column.
pub open spec fn difbary_columns<T: Scalar>() -> spec_fn(int, int) -> T {
    |axis: int, vertex: int| difbary::<T>()(vertex, axis)
}

impl<T: Scalar> ElMatProvider<T> for LaplaceBeltramiElmat {
    open spec fn accepts(&self, geometry: SimplexGeometry<T>) -> bool {
        &&& geometry.wf()
        &&& self.dim == geometry.dim
        &&& (geometry.dim + 1) * (geometry.dim + 1) <= usize::MAX
    }

    open spec fn is_elmat(&self, m: ElMat<T>, geometry: SimplexGeometry<T>) -> bool {
        is_matrix(
            m,
            (geometry.dim + 1) as nat,
            (geometry.dim + 1) as nat,
            |i: int, j: int|
                inner_value(
                    difbary_columns::<T>(),
                    values_of(geometry.inverse_metric),
                    difbary_columns::<T>(),
                    geometry.dim as int,
                    i,
                    j,
                ).times_spec(geometry.volume),
        )
    }

    fn eval(&self, geometry: &SimplexGeometry<T>) -> (m: ElMat<T>) {
        proof {
            let d = geometry.dim;
            assert((d + 1) * d <= (d + 1) * (d + 1)) by (nonlinear_arith);
            assert(d * (d + 1) == (d + 1) * d) by (nonlinear_arith);
        }
        let columns: DenseMatrix<T> = difbarys(self.dim).transpose();
        let inner = inner_mat(&columns, &geometry.inverse_metric, &columns);
        let m = inner.scaled(geometry.volume);
        proof {
            let n = geometry.dim as int;
            assert forall|i: int, j: int|
                0 <= i < n + 1 && 0 <= j < n + 1 implies #[trigger] m.at(i, j) == inner_value(
                difbary_columns::<T>(),
                values_of(geometry.inverse_metric),
                difbary_columns::<T>(),
                n,
                i,
                j,
            ).times_spec(geometry.volume) by {
                assert(m.at(i, j) == inner.at(i, j).times_spec(geometry.volume));
                inner_value_same(
                    values_of(columns),
                    values_of(geometry.inverse_metric),
                    values_of(columns),
                    difbary_columns::<T>(),
                    values_of(geometry.inverse_metric),
                    difbary_columns::<T>(),
                    n,
                    i,
                    j,
                );
            }
        }
        m
    }
}

/// Element matrices of functions, times the weight of the cell.
impl<T: Scalar> CoordAwareElMatProvider<T, ScalarWeight<T>> for ScalarMassElmat {
    open spec fn accepts_weight(
        &self,
        geometry: SimplexGeometry<T>,
        weight: ScalarWeight<T>,
    ) -> bool {
        self.accepts(geometry)
    }

    open spec fn is_weighted_elmat(
        &self,
        m: ElMat<T>,
        geometry: SimplexGeometry<T>,
        weight: ScalarWeight<T>,
    ) -> bool {
        is_matrix(
            m,
            (geometry.dim + 1) as nat,
            (geometry.dim + 1) as nat,
            |i: int, j: int|
                scalar_mass(geometry.volume, geometry.dim as nat, i, j).times_spec(weight.value),
        )
    }

    fn eval_with_coords(&self, geometry: &SimplexGeometry<T>, weight: &ScalarWeight<T>) -> (m: ElMat<
        T,
    >) {
        let plain: ElMat<T> = self.eval(geometry);
        plain.scaled(weight.value)
    }
}

impl<T: Scalar> CoordAwareElMatProvider<T, ScalarWeight<T>> for LaplaceBeltramiElmat {
    open spec fn accepts_weight(
        &self,
        geometry: SimplexGeometry<T>,
        weight: ScalarWeight<T>,
    ) -> bool {
        self.accepts(geometry)
    }

    open spec fn is_weighted_elmat(
        &self,
        m: ElMat<T>,
        geometry: SimplexGeometry<T>,
        weight: ScalarWeight<T>,
    ) -> bool {
        is_matrix(
            m,
            (geometry.dim + 1) as nat,
            (geometry.dim + 1) as nat,
            |i: int, j: int|
                inner_value(
                    difbary_columns::<T>(),
                    values_of(geometry.inverse_metric),
                    difbary_columns::<T>(),
                    geometry.dim as int,
                    i,
                    j,
                ).times_spec(geometry.volume).times_spec(weight.value),
        )
    }

    fn eval_with_coords(&self, geometry: &SimplexGeometry<T>, weight: &ScalarWeight<T>) -> (m: ElMat<
        T,
    >) {
        let plain: ElMat<T> = self.eval(geometry);
        plain.scaled(weight.value)
    }
}

/// The wedge terms of a subsimplex, one in each column.
pub open spec fn wedge_columns<T: Scalar>(dim: nat, simplex: Seq<usize>) -> spec_fn(
    int,
    int,
) -> T {
    |b: int, slot: int| wedge_term::<T>(dim, simplex, slot)[b]
}

/// The inner product of two Whitney forms, with the wedge terms of the first weighted.
pub open spec fn hodge_mass_value<T: Scalar>(
    geometry: SimplexGeometry<T>,
    grade: nat,
    left: spec_fn(int, int) -> T,
    i: int,
    j: int,
) -> T {
    let dim = geometry.dim as nat;
    let sets = standard_subsimps_spec(dim, grade);
    let slots = (grade + 1) as int;
    let factor = T::from_count_spec(factorial_spec(grade));
    sum_terms(
        |p: int|
            signed(
                p / slots + p % slots,
                inner_value(
                    left,
                    gramian(geometry, grade),
                    wedge_columns::<T>(dim, sets[j]),
                    exterior_dim_spec(dim, grade) as int,
                    p / slots,
                    p % slots,
                ),
            ).times_spec(
                scalar_mass(
                    geometry.volume,
                    dim,
                    sets[i][p / slots] as int,
                    sets[j][p % slots] as int,
                ),
            ),
        slots * slots,
    ).times_spec(factor.times_spec(factor))
}

/// The element matrix of the inner products of Whitney forms.
#[derive(Debug)]
pub struct HodgeMassElmat<T> {
    dim: Dim,
    grade: ExteriorGrade,
    simplices: Vec<Simplex>,
    wedge_terms: Vec<DenseMatrix<T>>,
}

impl<T: Scalar> HodgeMassElmat<T> {
    pub closed spec fn dimension(&self) -> nat {
        self.dim as nat
    }

    pub closed spec fn degree(&self) -> nat {
        self.grade as nat
    }

    /// The wedge terms of each subsimplex, one in each column.
    pub closed spec fn terms(&self) -> Seq<DenseMatrix<T>> {
        self.wedge_terms@
    }

    pub closed spec fn wf(&self) -> bool {
        let sets = standard_subsimps_spec(self.dim as nat, self.grade as nat);
        &&& self.grade <= self.dim
        &&& reference_fits(self.dim as nat, self.grade as nat)
        &&& simplex_views(self.simplices@) == sets
        &&& self.wedge_terms@.len() == sets.len()
        &&& forall|i: int|
            0 <= i < sets.len() ==> is_matrix(
                #[trigger] self.wedge_terms@[i],
                exterior_dim_spec(self.dim as nat, self.grade as nat),
                (self.grade + 1) as nat,
                wedge_columns(self.dim as nat, sets[i]),
            )
    }

    /// The wedge terms are those of the subsimplices of the reference simplex.
    pub proof fn terms_are(&self)
        requires
            self.wf(),
        ensures
            self.degree() <= self.dimension(),
            reference_fits(self.dimension(), self.degree()),
            self.terms().len() == binomial(self.dimension() + 1, self.degree() + 1),
            forall|i: int|
                0 <= i < self.terms().len() ==> is_matrix(
                    #[trigger] self.terms()[i],
                    exterior_dim_spec(self.dimension(), self.degree()),
                    self.degree() + 1,
                    wedge_columns(
                        self.dimension(),
                        standard_subsimps_spec(self.dimension(), self.degree())[i],
                    ),
                ),
    {
        reference_sizes(self.dimension(), self.degree());
    }

    pub fn new(dim: Dim, grade: ExteriorGrade) -> (provider: Self)
        requires
            grade <= dim,
            reference_fits(dim as nat, grade as nat),
        ensures
            provider.wf(),
            provider.dimension() == dim,
            provider.degree() == grade,
    {
        proof {
            reference_sizes(dim as nat, grade as nat);
        }
        let simplices = standard_subsimps(dim, grade);
        let ghost sets = standard_subsimps_spec(dim as nat, grade as nat);
        let nforms: usize = exterior_basis(dim, grade).len();
        let slots: usize = grade + 1;
        proof {
            assert(simplex_views(simplices@).len() == simplices@.len());
            if sets.len() > 0 {
                assert(nforms * slots <= nforms * (slots * sets.len())) by (nonlinear_arith)
                    requires
                        sets.len() >= 1,
                        nforms >= 0,
                        slots >= 0,
                ;
            }
        }
        let mut wedge_terms: Vec<DenseMatrix<T>> = Vec::new();
        let mut i: usize = 0;
        while i < simplices.len()
            invariant
                i <= simplices@.len(),
                slots == grade + 1,
                (dim + 1) * dim <= usize::MAX,
                sets == standard_subsimps_spec(dim as nat, grade as nat),
                simplex_views(simplices@) == sets,
                crate::linalg::minors::are_choices(sets, slots as nat, (dim + 1) as nat),
                nforms == exterior_dim_spec(dim as nat, grade as nat),
                sets.len() > 0 ==> nforms * slots <= usize::MAX,
                wedge_terms@.len() == i,
                forall|k: int|
                    0 <= k < i ==> is_matrix(
                        #[trigger] wedge_terms@[k],
                        nforms as nat,
                        slots as nat,
                        wedge_columns(dim as nat, sets[k]),
                    ),
            decreases simplices@.len() - i,
        {
            let mut m = DenseMatrix::zeros(nforms, slots);
            let mut slot: usize = 0;
            proof {
                assert(sets[i as int] == simplices@[i as int]@);
            }
            while slot < slots
                invariant
                    i < simplices@.len(),
                    slot <= slots,
                    slots == grade + 1,
                    (dim + 1) * dim <= usize::MAX,
                    sets[i as int] == simplices@[i as int]@,
                    sets[i as int].len() == slots,
                    crate::linalg::minors::all_below(sets[i as int], (dim + 1) as nat),
                    nforms == exterior_dim_spec(dim as nat, grade as nat),
                    m.wf(),
                    m.rows() == nforms,
                    m.cols() == slots,
                    forall|b: int, s: int|
                        0 <= b < nforms && 0 <= s < slot ==> #[trigger] m.at(b, s) == wedge_term::<
                            T,
                        >(dim as nat, sets[i as int], s)[b],
                decreases slots - slot,
            {
                let term: Vec<T> = wedge_term_of(dim, &simplices[i], slot);
                let mut b: usize = 0;
                while b < nforms
                    invariant
                        b <= nforms,
                        slot < slots,
                        m.wf(),
                        m.rows() == nforms,
                        m.cols() == slots,
                        term@.len() == nforms,
                        term@ == wedge_term::<T>(dim as nat, sets[i as int], slot as int),
                        forall|r: int, s: int|
                            0 <= r < nforms && 0 <= s < slots && (s < slot || (s == slot && r < b))
                                ==> #[trigger] m.at(r, s) == wedge_term::<T>(
                                dim as nat,
                                sets[i as int],
                                s,
                            )[r],
                    decreases nforms - b,
                {
                    m.set(b, slot, term[b]);
                    b = b + 1;
                }
                slot = slot + 1;
            }
            wedge_terms.push(m);
            i = i + 1;
        }
        HodgeMassElmat { dim, grade, simplices, wedge_terms }
    }

    /// The inner products of the Whitney forms, with the given left terms.
    fn mass_with(&self, geometry: &SimplexGeometry<T>, left: &Vec<DenseMatrix<T>>) -> (m: ElMat<T>)
        requires
            self.wf(),
            geometry.wf(),
            self.dimension() == geometry.dim,
            left@.len() == self.terms().len(),
            forall|i: int|
                0 <= i < left@.len() ==> (#[trigger] left@[i]).wf() && left@[i].rows()
                    == exterior_dim_spec(self.dimension(), self.degree()) && left@[i].cols()
                    == self.degree() + 1,
        ensures
            is_matrix(
                m,
                self.terms().len(),
                self.terms().len(),
                |i: int, j: int|
                    hodge_mass_value(*geometry, self.degree(), values_of(left@[i]), i, j),
            ),
    {
        let dim: Dim = self.dim;
        let grade: ExteriorGrade = self.grade;
        let slots: usize = grade + 1;
        let n: usize = self.simplices.len();
        let ghost sets = standard_subsimps_spec(dim as nat, grade as nat);
        let ghost nforms = exterior_dim_spec(dim as nat, grade as nat);
        proof {
            self.terms_are();
            reference_sizes(dim as nat, grade as nat);
            assert(simplex_views(self.simplices@).len() == n);
            let all = slots * n;
            assert(n * n <= all * all) by (nonlinear_arith)
                requires
                    all == slots * n,
                    slots >= 1,
            ;
            if n > 0 {
                assert(slots * slots <= all * all) by (nonlinear_arith)
                    requires
                        all == slots * n,
                        n >= 1,
                        slots >= 1,
                ;
                assert(nforms * slots <= nforms * all) by (nonlinear_arith)
                    requires
                        all == slots * n,
                        n >= 1,
                ;
            }
        }
        let gram = multi_gramian(geometry, grade);
        let single = T::from_count(factorial(grade));
        let factor = single.times(single);
        let mut m = DenseMatrix::zeros(n, n);
        let mut i: usize = 0;
        while i < n
            invariant
                i <= n,
                self.wf(),
                geometry.wf(),
                dim == self.dim,
                grade == self.grade,
                dim == geometry.dim,
                slots == grade + 1,
                n == self.simplices@.len(),
                n == self.wedge_terms@.len(),
                n == sets.len(),
                n == left@.len(),
                n > 0 ==> slots * slots <= usize::MAX && nforms * slots <= usize::MAX,
                (dim + 1) * (dim + 2) <= usize::MAX,
                sets == standard_subsimps_spec(dim as nat, grade as nat),
                nforms == exterior_dim_spec(dim as nat, grade as nat),
                simplex_views(self.simplices@) == sets,
                crate::linalg::minors::are_choices(sets, slots as nat, (dim + 1) as nat),
                is_matrix(gram, nforms, nforms, gramian(*geometry, grade as nat)),
                factor == T::from_count_spec(factorial_spec(grade as nat)).times_spec(
                    T::from_count_spec(factorial_spec(grade as nat)),
                ),
                forall|k: int|
                    0 <= k < n ==> is_matrix(
                        #[trigger] self.wedge_terms@[k],
                        nforms,
                        slots as nat,
                        wedge_columns(dim as nat, sets[k]),
                    ),
                forall|k: int|
                    0 <= k < n ==> (#[trigger] left@[k]).wf() && left@[k].rows() == nforms
                        && left@[k].cols() == slots,
                m.wf(),
                m.rows() == n,
                m.cols() == n,
                forall|r: int, c: int|
                    0 <= r < i && 0 <= c < n ==> #[trigger] m.at(r, c) == hodge_mass_value(
                        *geometry,
                        grade as nat,
                        values_of(left@[r]),
                        r,
                        c,
                    ),
            decreases n - i,
        {
            let mut j: usize = 0;
            while j < n
                invariant
                    i < n,
                    j <= n,
                    self.wf(),
                    geometry.wf(),
                    dim == self.dim,
                    grade == self.grade,
                    dim == geometry.dim,
                    slots == grade + 1,
                    n == self.simplices@.len(),
                    n == self.wedge_terms@.len(),
                    n == sets.len(),
                    n == left@.len(),
                    slots * slots <= usize::MAX,
                    nforms * slots <= usize::MAX,
                    (dim + 1) * (dim + 2) <= usize::MAX,
                    sets == standard_subsimps_spec(dim as nat, grade as nat),
                    nforms == exterior_dim_spec(dim as nat, grade as nat),
                    simplex_views(self.simplices@) == sets,
                    crate::linalg::minors::are_choices(sets, slots as nat, (dim + 1) as nat),
                    is_matrix(gram, nforms, nforms, gramian(*geometry, grade as nat)),
                    factor == T::from_count_spec(factorial_spec(grade as nat)).times_spec(
                        T::from_count_spec(factorial_spec(grade as nat)),
                    ),
                    forall|k: int|
                        0 <= k < n ==> is_matrix(
                            #[trigger] self.wedge_terms@[k],
                            nforms,
                            slots as nat,
                            wedge_columns(dim as nat, sets[k]),
                        ),
                    forall|k: int|
                        0 <= k < n ==> (#[trigger] left@[k]).wf() && left@[k].rows() == nforms
                            && left@[k].cols() == slots,
                    m.wf(),
                    m.rows() == n,
                    m.cols() == n,
                    forall|r: int, c: int|
                        0 <= r < n && 0 <= c < n && (r < i || (r == i && c < j))
                            ==> #[trigger] m.at(r, c) == hodge_mass_value(
                            *geometry,
                            grade as nat,
                            values_of(left@[r]),
                            r,
                            c,
                        ),
                decreases n - j,
            {
                let inner = inner_mat(&left[i], &gram, &self.wedge_terms[j]);
                let v = self.paired_sum(geometry, &inner, i, j);
                let ghost left_values = values_of(left@[i as int]);
                proof {
                    let columns = wedge_columns::<T>(dim as nat, sets[j as int]);
                    let f = |p: int|
                        signed(
                            p / slots as int + p % slots as int,
                            inner.at(p / slots as int, p % slots as int),
                        ).times_spec(
                            scalar_mass(
                                geometry.volume,
                                dim as nat,
                                sets[i as int][p / slots as int] as int,
                                sets[j as int][p % slots as int] as int,
                            ),
                        );
                    let g = |p: int|
                        signed(
                            p / slots as int + p % slots as int,
                            inner_value(
                                left_values,
                                gramian(*geometry, grade as nat),
                                columns,
                                nforms as int,
                                p / slots as int,
                                p % slots as int,
                            ),
                        ).times_spec(
                            scalar_mass(
                                geometry.volume,
                                dim as nat,
                                sets[i as int][p / slots as int] as int,
                                sets[j as int][p % slots as int] as int,
                            ),
                        );
                    assert forall|p: int| 0 <= p < slots * slots implies #[trigger] f(p) == g(
                        p,
                    ) by {
                        let (a, b) = (p / slots as int, p % slots as int);
                        assert(0 <= a < slots) by (nonlinear_arith)
                            requires
                                0 <= p < slots * slots,
                                a == p / slots as int,
                                slots > 0,
                        ;
                        inner_value_same(
                            left_values,
                            values_of(gram),
                            values_of(self.wedge_terms@[j as int]),
                            left_values,
                            gramian(*geometry, grade as nat),
                            columns,
                            nforms as int,
                            a,
                            b,
                        );
                    }
                    sum_terms_same(f, g, slots * slots);
                }
                m.set(i, j, v.times(factor));
                j = j + 1;
            }
            i = i + 1;
        }
        m
    }

    /// The signed sum over all pairs of vertices of two subsimplices.
    fn paired_sum(
        &self,
        geometry: &SimplexGeometry<T>,
        inner: &DenseMatrix<T>,
        i: usize,
        j: usize,
    ) -> (sum: T)
        requires
            self.wf(),
            self.dimension() == geometry.dim,
            i < self.terms().len(),
            j < self.terms().len(),
            (self.degree() + 1) * (self.degree() + 1) <= usize::MAX,
            inner.wf(),
            inner.rows() == self.degree() + 1,
            inner.cols() == self.degree() + 1,
        ensures
            ({
                let dim = self.dimension();
                let sets = standard_subsimps_spec(dim, self.degree());
                let slots = (self.degree() + 1) as int;
                sum == sum_terms(
                    |p: int|
                        signed(p / slots + p % slots, inner.at(p / slots, p % slots)).times_spec(
                            scalar_mass(
                                geometry.volume,
                                dim,
                                sets[i as int][p / slots] as int,
                                sets[j as int][p % slots] as int,
                            ),
                        ),
                    slots * slots,
                )
            }),
    {
        let dim: Dim = self.dim;
        let ghost sets = standard_subsimps_spec(dim as nat, self.grade as nat);
        let slots: usize = self.grade + 1;
        proof {
            reference_sizes(dim as nat, self.grade as nat);
            assert(simplex_views(self.simplices@).len() == self.simplices@.len());
            assert(sets[i as int] == self.simplices@[i as int]@);
            assert(sets[j as int] == self.simplices@[j as int]@);
        }
        let ghost f = |p: int|
            signed(
                p / slots as int + p % slots as int,
                inner.at(p / slots as int, p % slots as int),
            ).times_spec(
                scalar_mass(
                    geometry.volume,
                    dim as nat,
                    sets[i as int][p / slots as int] as int,
                    sets[j as int][p % slots as int] as int,
                ),
            );
        let count: usize = slots * slots;
        let mut sum = T::zero();
        let mut p: usize = 0;
        while p < count
            invariant
                p <= count,
                count == slots * slots,
                slots > 0,
                slots < usize::MAX,
                inner.wf(),
                inner.rows() == slots,
                inner.cols() == slots,
                i < self.simplices@.len(),
                j < self.simplices@.len(),
                sets[i as int] == self.simplices@[i as int]@,
                sets[j as int] == self.simplices@[j as int]@,
                sets[i as int].len() == slots,
                sets[j as int].len() == slots,
                (dim + 1) * (dim + 2) <= usize::MAX,
                f == (|p: int|
                    signed(
                        p / slots as int + p % slots as int,
                        inner.at(p / slots as int, p % slots as int),
                    ).times_spec(
                        scalar_mass(
                            geometry.volume,
                            dim as nat,
                            sets[i as int][p / slots as int] as int,
                            sets[j as int][p % slots as int] as int,
                        ),
                    )),
                sum == sum_terms(f, p as int),
            decreases count - p,
        {
            let a: usize = p / slots;
            let b: usize = p % slots;
            proof {
                assert(a < slots) by (nonlinear_arith)
                    requires
                        p < slots * slots,
                        a == p / slots,
                        slots > 0,
                ;
                assert(a + b <= p || slots == 1) by (nonlinear_arith)
                    requires
                        a == p / slots,
                        b == p % slots,
                        slots > 0,
                ;
            }
            let mass = scalar_mass_of(
                geometry.volume,
                dim,
                self.simplices[i].vertices[a],
                self.simplices[j].vertices[b],
            );
            sum = sum.plus(with_sign(a + b, inner.get(a, b)).times(mass));
            p = p + 1;
        }
        sum
    }
}

impl<T: Scalar> ElMatProviderBase for HodgeMassElmat<T> {
    open spec fn row_degree(&self) -> nat {
        self.degree()
    }

    open spec fn col_degree(&self) -> nat {
        self.degree()
    }

    fn row_grade(&self) -> (grade: ExteriorGrade) {
        self.grade
    }

    fn col_grade(&self) -> (grade: ExteriorGrade) {
        self.grade
    }
}

/// The inner products of all Whitney forms of a degree.
pub open spec fn is_hodge_mass<T: Scalar>(
    m: ElMat<T>,
    geometry: SimplexGeometry<T>,
    grade: nat,
) -> bool {
    let dim = geometry.dim as nat;
    let sets = standard_subsimps_spec(dim, grade);
    is_matrix(
        m,
        sets.len(),
        sets.len(),
        |i: int, j: int|
            hodge_mass_value(geometry, grade, wedge_columns::<T>(dim, sets[i]), i, j),
    )
}

/// The inner products of all Whitney forms of a degree, with a weight.
pub open spec fn is_weighted_hodge_mass<T: Scalar, W: ApplyWeight<T>>(
    m: ElMat<T>,
    geometry: SimplexGeometry<T>,
    grade: nat,
    weight: W,
    terms: Seq<DenseMatrix<T>>,
) -> bool {
    exists|left: Seq<DenseMatrix<T>>| #[trigger]
        is_mass_with(m, geometry, grade, weight, terms, left)
}

pub open spec fn is_mass_with<T: Scalar, W: ApplyWeight<T>>(
    m: ElMat<T>,
    geometry: SimplexGeometry<T>,
    grade: nat,
    weight: W,
    terms: Seq<DenseMatrix<T>>,
    left: Seq<DenseMatrix<T>>,
) -> bool {
    &&& left.len() == terms.len()
    &&& forall|i: int|
        0 <= i < left.len() ==> weight.is_weighted(#[trigger] left[i], terms[i])
    &&& is_matrix(
        m,
        terms.len(),
        terms.len(),
        |i: int, j: int| hodge_mass_value(geometry, grade, values_of(left[i]), i, j),
    )
}

pub(crate) proof fn lemma_mass_value_same<T: Scalar>(
    geometry: SimplexGeometry<T>,
    grade: nat,
    f: spec_fn(int, int) -> T,
    g: spec_fn(int, int) -> T,
    i: int,
    j: int,
)
    requires
        forall|b: int, a: int|
            0 <= b < exterior_dim_spec(geometry.dim as nat, grade) && 0 <= a <= grade
                ==> #[trigger] f(b, a) == g(b, a),
    ensures
        hodge_mass_value(geometry, grade, f, i, j) == hodge_mass_value(geometry, grade, g, i, j),
{
    let dim = geometry.dim as nat;
    let sets = standard_subsimps_spec(dim, grade);
    let slots = (grade + 1) as int;
    let n = exterior_dim_spec(dim, grade) as int;
    let columns = wedge_columns::<T>(dim, sets[j]);
    let gram = gramian(geometry, grade);
    let x = |p: int|
        signed(p / slots + p % slots, inner_value(f, gram, columns, n, p / slots, p % slots)).times_spec(
            scalar_mass(
                geometry.volume,
                dim,
                sets[i][p / slots] as int,
                sets[j][p % slots] as int,
            ),
        );
    let y = |p: int|
        signed(p / slots + p % slots, inner_value(g, gram, columns, n, p / slots, p % slots)).times_spec(
            scalar_mass(
                geometry.volume,
                dim,
                sets[i][p / slots] as int,
                sets[j][p % slots] as int,
            ),
        );
    assert forall|p: int| 0 <= p < slots * slots implies #[trigger] x(p) == y(p) by {
        let a = p / slots;
        assert(0 <= a < slots) by (nonlinear_arith)
            requires
                0 <= p < slots * slots,
                a == p / slots,
                slots > 0,
        ;
        inner_value_same(f, gram, columns, g, gram, columns, n, a, p % slots);
    }
    sum_terms_same(x, y, slots * slots);
}

impl<T: Scalar> ElMatProvider<T> for HodgeMassElmat<T> {
    open spec fn accepts(&self, geometry: SimplexGeometry<T>) -> bool {
        self.wf() && geometry.wf() && self.dimension() == geometry.dim
    }

    open spec fn is_elmat(&self, m: ElMat<T>, geometry: SimplexGeometry<T>) -> bool {
        is_hodge_mass(m, geometry, self.degree())
    }

    fn eval(&self, geometry: &SimplexGeometry<T>) -> (m: ElMat<T>) {
        proof {
            self.terms_are();
            reference_sizes(self.dimension(), self.degree());
        }
        let m = self.mass_with(geometry, &self.wedge_terms);
        proof {
            let sets = standard_subsimps_spec(self.dimension(), self.degree());
            let n = sets.len();
            assert forall|i: int, j: int| 0 <= i < n && 0 <= j < n implies #[trigger] m.at(i, j)
                == hodge_mass_value(
                *geometry,
                self.degree(),
                wedge_columns::<T>(self.dimension(), sets[i]),
                i,
                j,
            ) by {
                let term = self.terms()[i];
                assert(m.at(i, j) == hodge_mass_value(
                    *geometry,
                    self.degree(),
                    values_of(term),
                    i,
                    j,
                ));
                lemma_mass_value_same(
                    *geometry,
                    self.degree(),
                    values_of(term),
                    wedge_columns::<T>(self.dimension(), sets[i]),
                    i,
                    j,
                );
            }
        }
        m
    }
}

impl<T: Scalar, W: ApplyWeight<T>> CoordAwareElMatProvider<T, W> for HodgeMassElmat<T> {
    open spec fn accepts_weight(&self, geometry: SimplexGeometry<T>, weight: W) -> bool {
        &&& self.accepts(geometry)
        &&& weight.fits(exterior_dim_spec(self.dimension(), self.degree()))
    }

    open spec fn is_weighted_elmat(
        &self,
        m: ElMat<T>,
        geometry: SimplexGeometry<T>,
        weight: W,
    ) -> bool {
        is_weighted_hodge_mass(m, geometry, self.degree(), weight, self.terms())
    }

    fn eval_with_coords(&self, geometry: &SimplexGeometry<T>, weight: &W) -> (m: ElMat<T>) {
        proof {
            self.terms_are();
            reference_sizes(self.dimension(), self.degree());
        }
        let ghost nforms = exterior_dim_spec(self.dimension(), self.degree());
        let ghost slots = self.degree() + 1;
        let mut left: Vec<DenseMatrix<T>> = Vec::new();
        let mut i: usize = 0;
        while i < self.wedge_terms.len()
            invariant
                i <= self.wedge_terms@.len(),
                self.wf(),
                self.terms() == self.wedge_terms@,
                self.terms().len() == binomial(self.dimension() + 1, self.degree() + 1),
                reference_fits(self.dimension(), self.degree()),
                nforms == exterior_dim_spec(self.dimension(), self.degree()),
                slots == self.degree() + 1,
                forall|i: int|
                    0 <= i < self.terms().len() ==> is_matrix(
                        #[trigger] self.terms()[i],
                        nforms,
                        slots,
                        wedge_columns(
                            self.dimension(),
                            standard_subsimps_spec(self.dimension(), self.degree())[i],
                        ),
                    ),
                weight.fits(nforms),
                left@.len() == i,
                forall|k: int|
                    0 <= k < i ==> weight.is_weighted(#[trigger] left@[k], self.terms()[k]),
                forall|k: int|
                    0 <= k < i ==> (#[trigger] left@[k]).wf() && left@[k].rows() == nforms
                        && left@[k].cols() == slots,
            decreases self.wedge_terms@.len() - i,
        {
            proof {
                let n = self.terms().len();
                let term = self.terms()[i as int];
                assert(nforms * slots <= nforms * (slots * n)) by (nonlinear_arith)
                    requires
                        n >= 1,
                ;
            }
            let weighted = weight.apply_batched(&self.wedge_terms[i]);
            proof {
                weight.weighted_shape(weighted, self.terms()[i as int]);
            }
            left.push(weighted);
            i = i + 1;
        }
        let m = self.mass_with(geometry, &left);
        proof {
            assert(is_mass_with(m, *geometry, self.degree(), *weight, self.terms(), left@));
        }
        m
    }
}

} // verus!
