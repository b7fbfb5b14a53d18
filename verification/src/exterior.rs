//! Exterior forms, fields of them and their pullbacks.

use crate::linalg::dense::{sum_products, DenseMatrix};
use crate::linalg::minors::{all_below, are_choices, minor, minor_of, values_of};
use crate::linalg::scalar::Scalar;
use crate::topology::simplex::{
    binomial, combinations, combinations_are_subsequences, combinations_count, simplex_views,
    subsequence_entries, Dim, Simplex,
};
use vstd::prelude::*;

verus! {

/// The degree of a form.
pub type ExteriorGrade = usize;

/// The axes of a space.
pub open spec fn axes(dim: nat) -> Seq<usize> {
    Seq::new(dim, |i: int| i as usize)
}

/// The basis forms of a degree: increasing choices of axes, in lexicographic order.
pub open spec fn basis(dim: nat, grade: nat) -> Seq<Seq<usize>> {
    combinations(axes(dim), grade)
}

/// The number of basis forms.
pub open spec fn exterior_dim_spec(dim: nat, grade: nat) -> nat {
    binomial(dim, grade)
}

/// There are as many basis forms as ways to choose axes, and each chooses axes of the space.
pub proof fn basis_of_space(dim: nat, grade: nat)
    requires
        dim <= usize::MAX,
    ensures
        basis(dim, grade).len() == exterior_dim_spec(dim, grade),
        are_choices(basis(dim, grade), grade, dim),
{
    combinations_count(axes(dim), grade);
    assert forall|i: int| 0 <= i < basis(dim, grade).len() implies (#[trigger] basis(
        dim,
        grade,
    )[i]).len() == grade && all_below(basis(dim, grade)[i], dim) by {
        let t = basis(dim, grade)[i];
        assert(basis(dim, grade).contains(t));
        combinations_are_subsequences(axes(dim), grade, t);
        assert forall|j: int| 0 <= j < t.len() implies #[trigger] t[j] < dim by {
            let k = subsequence_entries(t, axes(dim), j);
        }
    }
}

pub fn exterior_basis(dim: Dim, grade: ExteriorGrade) -> (choices: Vec<Simplex>)
    ensures
        simplex_views(choices@) == basis(dim as nat, grade as nat),
        choices@.len() == exterior_dim_spec(dim as nat, grade as nat),
{
    let mut vertices: Vec<usize> = Vec::new();
    let mut i: usize = 0;
    while i < dim
        invariant
            i <= dim,
            vertices@ == axes(i as nat),
        decreases dim - i,
    {
        vertices.push(i);
        i = i + 1;
        proof {
            assert(vertices@ =~= axes(i as nat));
        }
    }
    proof {
        basis_of_space(dim as nat, grade as nat);
    }
    let all = Simplex { vertices };
    let choices = all.choices(grade);
    proof {
        assert(simplex_views(choices@).len() == choices@.len());
    }
    choices
}

/// A form in the basis of a space.
#[derive(Debug)]
pub struct ExteriorElement<T> {
    pub coeffs: Vec<T>,
    pub dim: Dim,
    pub grade: ExteriorGrade,
}

impl<T: Scalar> ExteriorElement<T> {
    /// There is a coefficient for each basis form.
    pub open spec fn wf(&self) -> bool {
        self.coeffs@.len() == exterior_dim_spec(self.dim as nat, self.grade as nat)
    }

    pub fn new(coeffs: Vec<T>, dim: Dim, grade: ExteriorGrade) -> (element: Self)
        requires
            coeffs@.len() == exterior_dim_spec(dim as nat, grade as nat),
        ensures
            element.wf(),
            element.coeffs@ == coeffs@,
            element.dim == dim,
            element.grade == grade,
    {
        ExteriorElement { coeffs, dim, grade }
    }

    pub fn dim(&self) -> (dim: Dim)
        ensures
            dim == self.dim,
    {
        self.dim
    }

    pub fn grade(&self) -> (grade: ExteriorGrade)
        ensures
            grade == self.grade,
    {
        self.grade
    }

    pub fn coeffs(&self) -> (coeffs: &Vec<T>)
        ensures
            coeffs@ == self.coeffs@,
    {
        &self.coeffs
    }
}

/// A field of exterior forms.
pub trait ExteriorField<T: Scalar> {
    spec fn ambient(&self) -> nat;

    spec fn intrinsic(&self) -> nat;

    spec fn degree(&self) -> nat;

    /// The points at which the field has a value.
    spec fn defined_at(&self, coord: &[T]) -> bool;

    /// The values that the field can have at a point.
    spec fn has_value(&self, coord: &[T], coeffs: Seq<T>) -> bool;

    fn dim_ambient(&self) -> (dim: Dim)
        ensures
            dim == self.ambient(),
    ;

    fn dim_intrinsic(&self) -> (dim: Dim)
        ensures
            dim == self.intrinsic(),
    ;

    fn grade(&self) -> (grade: ExteriorGrade)
        ensures
            grade == self.degree(),
    ;

    fn at_point(&self, coord: &[T]) -> (value: ExteriorElement<T>)
        requires
            self.defined_at(coord),
        ensures
            value.wf(),
            value.dim == self.ambient(),
            value.grade == self.degree(),
            self.has_value(coord, value.coeffs@),
    ;
}

pub trait MultiVectorField<T: Scalar>: ExteriorField<T> {

}

impl<T: Scalar, F: ExteriorField<T>> MultiVectorField<T> for F {

}

pub trait MultiFormField<T: Scalar>: ExteriorField<T> {

}

impl<T: Scalar, F: ExteriorField<T>> MultiFormField<T> for F {

}

pub trait DifferentialMultiForm<T: Scalar>: MultiFormField<T> {

}

impl<T: Scalar, F: MultiFormField<T>> DifferentialMultiForm<T> for F {

}

/// A field whose coefficients a function gives in ambient coordinates.
pub struct EmbeddedDiffFormClosure<F> {
    closure: F,
    dim_ambient: Dim,
    dim_intrinsic: Dim,
    grade: ExteriorGrade,
}

impl<F> EmbeddedDiffFormClosure<F> {
    pub closed spec fn function(&self) -> F {
        self.closure
    }

    pub closed spec fn dims(&self) -> (nat, nat, nat) {
        (self.dim_ambient as nat, self.dim_intrinsic as nat, self.grade as nat)
    }

    pub fn new(
        closure: F,
        dim_ambient: Dim,
        dim_intrinsic: Dim,
        grade: ExteriorGrade,
    ) -> (field: Self)
        requires
            grade <= dim_intrinsic,
        ensures
            field.function() == closure,
            field.dims() == (dim_ambient as nat, dim_intrinsic as nat, grade as nat),
    {
        EmbeddedDiffFormClosure { closure, dim_ambient, dim_intrinsic, grade }
    }

    pub fn ambient_scalar(closure: F, dim_ambient: Dim, dim_intrinsic: Dim) -> (field: Self)
        ensures
            field.function() == closure,
            field.dims() == (dim_ambient as nat, dim_intrinsic as nat, 0nat),
    {
        Self::new(closure, dim_ambient, dim_intrinsic, 0)
    }

    pub fn ambient_one_form(closure: F, dim_ambient: Dim, dim_intrinsic: Dim) -> (field: Self)
        requires
            1 <= dim_intrinsic,
        ensures
            field.function() == closure,
            field.dims() == (dim_ambient as nat, dim_intrinsic as nat, 1nat),
    {
        Self::ambient_k_form(closure, dim_ambient, dim_intrinsic, 1)
    }

    pub fn ambient_k_form(
        closure: F,
        dim_ambient: Dim,
        dim_intrinsic: Dim,
        grade: ExteriorGrade,
    ) -> (field: Self)
        requires
            grade <= dim_intrinsic,
        ensures
            field.function() == closure,
            field.dims() == (dim_ambient as nat, dim_intrinsic as nat, grade as nat),
    {
        Self::new(closure, dim_ambient, dim_intrinsic, grade)
    }
}

impl<T: Scalar, F: Fn(&[T]) -> Vec<T>> ExteriorField<T> for EmbeddedDiffFormClosure<F> {
    open spec fn ambient(&self) -> nat {
        self.dims().0
    }

    open spec fn intrinsic(&self) -> nat {
        self.dims().1
    }

    open spec fn degree(&self) -> nat {
        self.dims().2
    }

    open spec fn defined_at(&self, coord: &[T]) -> bool {
        &&& call_requires(self.function(), (coord,))
        &&& forall|coeffs: Vec<T>|
            call_ensures(self.function(), (coord,), coeffs) ==> coeffs@.len() == exterior_dim_spec(
                self.dims().0,
                self.dims().2,
            )
    }

    open spec fn has_value(&self, coord: &[T], coeffs: Seq<T>) -> bool {
        exists|list: Vec<T>|
            #[trigger] call_ensures(self.function(), (coord,), list) && list@ == coeffs
    }

    fn dim_ambient(&self) -> (dim: Dim) {
        self.dim_ambient
    }

    fn dim_intrinsic(&self) -> (dim: Dim) {
        self.dim_intrinsic
    }

    fn grade(&self) -> (grade: ExteriorGrade) {
        self.grade
    }

    fn at_point(&self, coord: &[T]) -> (value: ExteriorElement<T>) {
        let coeffs = (self.closure)(coord);
        ExteriorElement::new(coeffs, self.dim_ambient, self.grade)
    }
}

/// A field on a space of the same dimension.
pub struct DiffFormClosure<F> {
    embedded: EmbeddedDiffFormClosure<F>,
}

impl<F> DiffFormClosure<F> {
    pub closed spec fn field(&self) -> EmbeddedDiffFormClosure<F> {
        self.embedded
    }

    pub fn new(closure: F, dim: Dim, grade: ExteriorGrade) -> (field: Self)
        requires
            grade <= dim,
        ensures
            field.field().function() == closure,
            field.field().dims() == (dim as nat, dim as nat, grade as nat),
    {
        DiffFormClosure { embedded: EmbeddedDiffFormClosure::new(closure, dim, dim, grade) }
    }

    pub fn scalar(closure: F, dim: Dim) -> (field: Self)
        ensures
            field.field().function() == closure,
            field.field().dims() == (dim as nat, dim as nat, 0nat),
    {
        DiffFormClosure { embedded: EmbeddedDiffFormClosure::ambient_scalar(closure, dim, dim) }
    }

    pub fn one_form(closure: F, dim: Dim) -> (field: Self)
        requires
            1 <= dim,
        ensures
            field.field().function() == closure,
            field.field().dims() == (dim as nat, dim as nat, 1nat),
    {
        DiffFormClosure { embedded: EmbeddedDiffFormClosure::ambient_one_form(closure, dim, dim) }
    }

    pub fn top_form(closure: F, dim: Dim) -> (field: Self)
        ensures
            field.field().function() == closure,
            field.field().dims() == (dim as nat, dim as nat, dim as nat),
    {
        Self::new(closure, dim, dim)
    }
}

impl<T: Scalar, F: Fn(&[T]) -> Vec<T>> ExteriorField<T> for DiffFormClosure<F> {
    open spec fn ambient(&self) -> nat {
        self.field().dims().0
    }

    open spec fn intrinsic(&self) -> nat {
        self.field().dims().1
    }

    open spec fn degree(&self) -> nat {
        self.field().dims().2
    }

    open spec fn defined_at(&self, coord: &[T]) -> bool {
        self.field().defined_at(coord)
    }

    open spec fn has_value(&self, coord: &[T], coeffs: Seq<T>) -> bool {
        self.field().has_value(coord, coeffs)
    }

    fn dim_ambient(&self) -> (dim: Dim) {
        self.embedded.dim_ambient()
    }

    fn dim_intrinsic(&self) -> (dim: Dim) {
        self.embedded.dim_intrinsic()
    }

    fn grade(&self) -> (grade: ExteriorGrade) {
        self.embedded.grade()
    }

    fn at_point(&self, coord: &[T]) -> (value: ExteriorElement<T>) {
        self.embedded.at_point(coord)
    }
}

/// An affine map.
#[derive(Debug)]
pub struct AffineTransform<T> {
    pub translation: Vec<T>,
    pub linear: DenseMatrix<T>,
}

impl<T: Scalar> AffineTransform<T> {
    pub open spec fn wf(&self) -> bool {
        self.linear.wf() && self.linear.rows() == self.translation@.len()
    }

    /// The image of a point.
    pub open spec fn image(&self, local: Seq<T>) -> Seq<T> {
        Seq::new(
            self.translation@.len(),
            |i: int|
                sum_products(
                    |j: int| self.linear.at(i, j),
                    |j: int| local[j],
                    self.linear.cols() as int,
                ).plus_spec(self.translation@[i]),
        )
    }

    pub fn dim_domain(&self) -> (dim: Dim)
        ensures
            dim == self.linear.cols(),
    {
        self.linear.ncols()
    }

    pub fn apply_forward(&self, local: &[T]) -> (global: Vec<T>)
        requires
            self.wf(),
            local@.len() == self.linear.cols(),
        ensures
            global@ == self.image(local@),
    {
        let mut global: Vec<T> = Vec::new();
        let n: usize = self.linear.ncols();
        let mut i: usize = 0;
        while i < self.translation.len()
            invariant
                i <= self.translation@.len(),
                self.wf(),
                local@.len() == self.linear.cols(),
                n == self.linear.cols(),
                global@.len() == i,
                forall|k: int| 0 <= k < i ==> #[trigger] global@[k] == self.image(local@)[k],
            decreases self.translation@.len() - i,
        {
            let ghost f = |j: int| self.linear.at(i as int, j);
            let ghost g = |j: int| local@[j];
            let mut sum = T::zero();
            let mut j: usize = 0;
            while j < n
                invariant
                    j <= n,
                    i < self.translation@.len(),
                    self.wf(),
                    local@.len() == self.linear.cols(),
                    n == self.linear.cols(),
                    f == (|j: int| self.linear.at(i as int, j)),
                    g == (|j: int| local@[j]),
                    sum == sum_products(f, g, j as int),
                decreases n - j,
            {
                sum = sum.plus(self.linear.get(i, j).times(local[j]));
                j = j + 1;
            }
            global.push(sum.plus(self.translation[i]));
            i = i + 1;
        }
        proof {
            assert(global@ =~= self.image(local@));
        }
        global
    }
}

/// The coefficients of the pullback of a form by a linear map.
pub open spec fn pulled_back<T: Scalar>(
    coeffs: Seq<T>,
    grade: nat,
    linear: DenseMatrix<T>,
) -> Seq<T> {
    let sources = basis(linear.rows(), grade);
    let targets = basis(linear.cols(), grade);
    Seq::new(
        targets.len(),
        |j: int|
            sum_products(
                |i: int| minor(values_of(linear), sources[i], targets[j]),
                |i: int| coeffs[i],
                sources.len() as int,
            ),
    )
}

/// The pullback of a form by a linear map.
pub fn precompose_form<T: Scalar>(form: &ExteriorElement<T>, linear: &DenseMatrix<T>) -> (pulled:
    ExteriorElement<T>)
    requires
        form.wf(),
        linear.wf(),
        form.dim == linear.rows(),
    ensures
        pulled.wf(),
        pulled.dim == linear.cols(),
        pulled.grade == form.grade,
        pulled.coeffs@ == pulled_back(form.coeffs@, form.grade as nat, *linear),
{
    let sources = exterior_basis(linear.nrows(), form.grade);
    let targets = exterior_basis(linear.ncols(), form.grade);
    let ghost source_sets = basis(linear.rows(), form.grade as nat);
    let ghost target_sets = basis(linear.cols(), form.grade as nat);
    let ghost expected = pulled_back(form.coeffs@, form.grade as nat, *linear);
    let (nrows, ncols): (usize, usize) = (linear.nrows(), linear.ncols());
    proof {
        assert(linear.rows() == nrows && linear.cols() == ncols);
        basis_of_space(linear.rows(), form.grade as nat);
        basis_of_space(linear.cols(), form.grade as nat);
    }
    let mut coeffs: Vec<T> = Vec::new();
    let mut j: usize = 0;
    while j < targets.len()
        invariant
            j <= targets@.len(),
            form.wf(),
            linear.wf(),
            form.dim == linear.rows(),
            simplex_views(sources@) == source_sets,
            simplex_views(targets@) == target_sets,
            sources@.len() == form.coeffs@.len(),
            source_sets == basis(linear.rows(), form.grade as nat),
            target_sets == basis(linear.cols(), form.grade as nat),
            are_choices(source_sets, form.grade as nat, linear.rows()),
            are_choices(target_sets, form.grade as nat, linear.cols()),
            expected == pulled_back(form.coeffs@, form.grade as nat, *linear),
            coeffs@.len() == j,
            forall|k: int| 0 <= k < j ==> #[trigger] coeffs@[k] == expected[k],
        decreases targets@.len() - j,
    {
        let ghost f = |i: int| minor(values_of(*linear), source_sets[i], target_sets[j as int]);
        let ghost g = |i: int| form.coeffs@[i];
        proof {
            assert(target_sets[j as int] == targets@[j as int]@);
        }
        let mut sum = T::zero();
        let mut i: usize = 0;
        while i < sources.len()
            invariant
                i <= sources@.len(),
                j < targets@.len(),
                linear.wf(),
                simplex_views(sources@) == source_sets,
                sources@.len() == form.coeffs@.len(),
                target_sets[j as int] == targets@[j as int]@,
                j < target_sets.len(),
                are_choices(source_sets, form.grade as nat, linear.rows()),
                are_choices(target_sets, form.grade as nat, linear.cols()),
                f == (|i: int| minor(values_of(*linear), source_sets[i], target_sets[j as int])),
                g == (|i: int| form.coeffs@[i]),
                sum == sum_products(f, g, i as int),
            decreases sources@.len() - i,
        {
            proof {
                assert(source_sets[i as int] == sources@[i as int]@);
            }
            let factor = minor_of(
                linear,
                sources[i].vertices.as_slice(),
                targets[j].vertices.as_slice(),
            );
            sum = sum.plus(factor.times(form.coeffs[i]));
            i = i + 1;
        }
        proof {
            assert(source_sets.len() == sources@.len());
        }
        coeffs.push(sum);
        j = j + 1;
    }
    proof {
        assert(simplex_views(targets@).len() == targets@.len());
        assert(coeffs@ =~= expected);
    }
    ExteriorElement::new(coeffs, linear.ncols(), form.grade)
}

/// The pullback of a field of forms by an affine map.
pub struct FormPullback<T: Scalar, F: DifferentialMultiForm<T>> {
    form: F,
    affine_transform: AffineTransform<T>,
}

impl<T: Scalar, F: DifferentialMultiForm<T>> FormPullback<T, F> {
    pub closed spec fn field(&self) -> F {
        self.form
    }

    pub closed spec fn map(&self) -> AffineTransform<T> {
        self.affine_transform
    }

    pub fn new(form: F, affine_transform: AffineTransform<T>) -> (field: Self)
        ensures
            field.field() == form,
            field.map() == affine_transform,
    {
        FormPullback { form, affine_transform }
    }
}

impl<T: Scalar, F: DifferentialMultiForm<T>> ExteriorField<T> for FormPullback<T, F> {
    open spec fn ambient(&self) -> nat {
        self.map().linear.cols()
    }

    open spec fn intrinsic(&self) -> nat {
        self.map().linear.cols()
    }

    open spec fn degree(&self) -> nat {
        self.field().degree()
    }

    open spec fn defined_at(&self, coord: &[T]) -> bool {
        &&& self.map().wf()
        &&& coord@.len() == self.map().linear.cols()
        &&& self.field().ambient() == self.map().linear.rows()
        &&& forall|global: &[T]|
            global@ == self.map().image(coord@) ==> #[trigger] self.field().defined_at(global)
    }

    open spec fn has_value(&self, coord: &[T], coeffs: Seq<T>) -> bool {
        exists|global: &[T], outer: Seq<T>|
            #![trigger self.field().has_value(global, outer)]
            global@ == self.map().image(coord@) && self.field().has_value(global, outer)
                && coeffs == pulled_back(outer, self.field().degree(), self.map().linear)
    }

    fn dim_ambient(&self) -> (dim: Dim) {
        self.affine_transform.dim_domain()
    }

    fn dim_intrinsic(&self) -> (dim: Dim) {
        self.affine_transform.dim_domain()
    }

    fn grade(&self) -> (grade: ExteriorGrade) {
        self.form.grade()
    }

    fn at_point(&self, coord: &[T]) -> (value: ExteriorElement<T>) {
        let global = self.affine_transform.apply_forward(coord);
        let outer = self.form.at_point(global.as_slice());
        precompose_form(&outer, &self.affine_transform.linear)
    }
}

} // verus!
