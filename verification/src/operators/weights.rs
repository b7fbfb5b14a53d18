//! Weights of inner products.

use crate::assemble::reconstruction_law::divides_exactly;
use crate::linalg::algebra::reciprocal;
use crate::linalg::dense::{is_mapped, is_product, sum_products, DenseMatrix};
use crate::linalg::ring::{commutative_ring, ring_distributes, ring_units};
use crate::linalg::scalar::Scalar;
use crate::operators::elements::sum_terms;
use crate::operators::rule_law::{
    corners_are_vertices, equal_shares_balance, is_balanced, is_vertex,
};
use crate::operators::weight_law::{
    column_of, coupled, matrix_weight_couples, matrix_weight_couples_columns,
};
use crate::problems::step_law::{counts_exactly, quotient_is_product};
use vstd::prelude::*;

verus! {

/// A weight that acts on the coefficients of forms.
pub trait ApplyWeight<T: Scalar> {
    /// The weight acts on forms with this many coefficients.
    spec fn fits(&self, rows: nat) -> bool;

    /// The weighted coefficients of several forms, one in each column.
    spec fn is_weighted(&self, weighted: DenseMatrix<T>, coeffs: DenseMatrix<T>) -> bool;

    /// The weighted coefficients of a form.
    spec fn weighted_vector(&self, coeffs: Seq<T>) -> Seq<T>;

    /// Weighting keeps the number of forms and of coefficients.
    proof fn weighted_shape(&self, weighted: DenseMatrix<T>, coeffs: DenseMatrix<T>)
        requires
            self.fits(coeffs.rows()),
            self.is_weighted(weighted, coeffs),
        ensures
            weighted.wf(),
            weighted.rows() == coeffs.rows(),
            weighted.cols() == coeffs.cols(),
    ;

    /// Several forms are weighted one by one.
    proof fn weighted_columns(&self, weighted: DenseMatrix<T>, coeffs: DenseMatrix<T>, c: int)
        requires
            self.fits(coeffs.rows()),
            self.is_weighted(weighted, coeffs),
            0 <= c < coeffs.cols(),
        ensures
            column_of(weighted, c) == self.weighted_vector(column_of(coeffs, c)),
    ;

    fn apply_batched(&self, coeffs: &DenseMatrix<T>) -> (weighted: DenseMatrix<T>)
        requires
            coeffs.wf(),
            self.fits(coeffs.rows()),
            coeffs.rows() * coeffs.cols() <= usize::MAX,
        ensures
            self.is_weighted(weighted, *coeffs),
    ;

    fn apply(&self, coeffs: &[T]) -> (weighted: Vec<T>)
        requires
            self.fits(coeffs@.len()),
        ensures
            weighted@ == self.weighted_vector(coeffs@),
    ;
}

/// A weight by a number.
#[derive(Clone, Copy, Debug)]
pub struct ScalarWeight<T> {
    pub value: T,
}

impl<T: Scalar> ApplyWeight<T> for ScalarWeight<T> {
    open spec fn fits(&self, rows: nat) -> bool {
        true
    }

    open spec fn is_weighted(&self, weighted: DenseMatrix<T>, coeffs: DenseMatrix<T>) -> bool {
        is_mapped(weighted, coeffs, |x: T| x.times_spec(self.value))
    }

    open spec fn weighted_vector(&self, coeffs: Seq<T>) -> Seq<T> {
        coeffs.map(|i: int, x: T| x.times_spec(self.value))
    }

    proof fn weighted_shape(&self, weighted: DenseMatrix<T>, coeffs: DenseMatrix<T>) {
    }

    proof fn weighted_columns(&self, weighted: DenseMatrix<T>, coeffs: DenseMatrix<T>, c: int) {
        assert(column_of(weighted, c) =~= self.weighted_vector(column_of(coeffs, c)));
    }

    fn apply_batched(&self, coeffs: &DenseMatrix<T>) -> (weighted: DenseMatrix<T>)
        ensures
            weighted.rows() == coeffs.rows(),
            weighted.cols() == coeffs.cols(),
            forall|i: int, c: int|
                0 <= i < coeffs.rows() && 0 <= c < coeffs.cols() ==> #[trigger] weighted.at(i, c)
                    == coeffs.at(i, c).times_spec(self.value),
    {
        coeffs.scaled(self.value)
    }

    fn apply(&self, coeffs: &[T]) -> (weighted: Vec<T>) {
        let mut weighted: Vec<T> = Vec::new();
        let mut i: usize = 0;
        while i < coeffs.len()
            invariant
                i <= coeffs@.len(),
                weighted@.len() == i,
                forall|k: int|
                    0 <= k < i ==> #[trigger] weighted@[k] == coeffs@[k].times_spec(self.value),
            decreases coeffs@.len() - i,
        {
            weighted.push(coeffs[i].times(self.value));
            i = i + 1;
        }
        proof {
            assert(weighted@ =~= self.weighted_vector(coeffs@));
        }
        weighted
    }
}

/// A weight by a square matrix.
impl<T: Scalar> ApplyWeight<T> for DenseMatrix<T> {
    open spec fn fits(&self, rows: nat) -> bool {
        self.wf() && self.rows() == rows && self.cols() == rows
    }

    open spec fn is_weighted(&self, weighted: DenseMatrix<T>, coeffs: DenseMatrix<T>) -> bool {
        is_product(weighted, *self, coeffs)
    }

    open spec fn weighted_vector(&self, coeffs: Seq<T>) -> Seq<T> {
        Seq::new(
            self.rows(),
            |i: int|
                sum_products(|j: int| self.at(i, j), |j: int| coeffs[j], self.cols() as int),
        )
    }

    proof fn weighted_shape(&self, weighted: DenseMatrix<T>, coeffs: DenseMatrix<T>) {
    }

    proof fn weighted_columns(&self, weighted: DenseMatrix<T>, coeffs: DenseMatrix<T>, c: int) {
        let column = column_of(coeffs, c);
        let whole = self.weighted_vector(column);
        assert forall|i: int| 0 <= i < whole.len() implies column_of(weighted, c)[i]
            == #[trigger] whole[i] by {
            matrix_weight_couples_columns(*self, weighted, coeffs, i, c);
            matrix_weight_couples(*self, column, i);
        }
        assert(column_of(weighted, c) =~= whole);
    }

    fn apply_batched(&self, coeffs: &DenseMatrix<T>) -> (weighted: DenseMatrix<T>)
        ensures
            weighted.rows() == coeffs.rows(),
            weighted.cols() == coeffs.cols(),
            forall|i: int, c: int|
                0 <= i < coeffs.rows() && 0 <= c < coeffs.cols() ==> #[trigger] weighted.at(i, c)
                    == coupled(*self, column_of(*coeffs, c), i),
    {
        let weighted = self.product(coeffs);
        proof {
            assert forall|i: int, c: int|
                0 <= i < coeffs.rows() && 0 <= c < coeffs.cols() implies #[trigger] weighted.at(
                i,
                c,
            ) == coupled(*self, column_of(*coeffs, c), i) by {
                matrix_weight_couples_columns(*self, weighted, *coeffs, i, c);
            }
        }
        weighted
    }

    fn apply(&self, coeffs: &[T]) -> (weighted: Vec<T>)
        ensures
            weighted@.len() == coeffs@.len(),
            forall|i: int|
                0 <= i < coeffs@.len() ==> #[trigger] weighted@[i] == coupled(*self, coeffs@, i),
    {
        let mut weighted: Vec<T> = Vec::new();
        let n: usize = self.nrows();
        let mut i: usize = 0;
        while i < n
            invariant
                i <= n,
                self.wf(),
                self.rows() == n,
                self.cols() == n,
                coeffs@.len() == n,
                weighted@.len() == i,
                forall|k: int|
                    0 <= k < i ==> #[trigger] weighted@[k] == self.weighted_vector(coeffs@)[k],
            decreases n - i,
        {
            let ghost f = |j: int| self.at(i as int, j);
            let ghost g = |j: int| coeffs@[j];
            let mut sum = T::zero();
            let mut j: usize = 0;
            while j < n
                invariant
                    i < n,
                    j <= n,
                    self.wf(),
                    self.rows() == n,
                    self.cols() == n,
                    coeffs@.len() == n,
                    f == (|j: int| self.at(i as int, j)),
                    g == (|j: int| coeffs@[j]),
                    sum == sum_products(f, g, j as int),
                decreases n - j,
            {
                sum = sum.plus(self.get(i, j).times(coeffs[j]));
                j = j + 1;
            }
            weighted.push(sum);
            i = i + 1;
        }
        proof {
            assert(weighted@ =~= self.weighted_vector(coeffs@));
            assert forall|i: int| 0 <= i < coeffs@.len() implies #[trigger] weighted@[i]
                == coupled(*self, coeffs@, i) by {
                matrix_weight_couples(*self, coeffs@, i);
            }
        }
        weighted
    }
}

/// The weight of a cell.
#[derive(Debug)]
pub struct InnerProductWeight<W> {
    pub weight: W,
}

impl<W> InnerProductWeight<W> {
    pub fn apply_batched<T: Scalar>(&self, coeffs: &DenseMatrix<T>) -> (weighted: DenseMatrix<T>)
        where W: ApplyWeight<T>
        requires
            coeffs.wf(),
            self.weight.fits(coeffs.rows()),
            coeffs.rows() * coeffs.cols() <= usize::MAX,
        ensures
            self.weight.is_weighted(weighted, *coeffs),
    {
        self.weight.apply_batched(coeffs)
    }
}

/// A rule for integrals over the reference simplex.
#[derive(Debug)]
pub struct SimplexQuadRule<T> {
    pub dim: usize,
    pub points: Vec<Vec<T>>,
    pub weights: Vec<T>,
}

impl<T: Scalar> SimplexQuadRule<T> {
    /// Every point has a weight and a coordinate for each axis.
    pub open spec fn wf(&self) -> bool {
        &&& self.points@.len() == self.weights@.len()
        &&& forall|q: int|
            0 <= q < self.points@.len() ==> (#[trigger] self.points@[q])@.len() == self.dim
    }

    /// The rule with the barycenter as its only point.
    pub fn barycentric(dim: usize) -> (rule: Self)
        requires
            dim < usize::MAX,
        ensures
            rule.wf(),
            rule.dim == dim,
            rule.weights@ == seq![T::one_spec()],
            forall|i: int|
                0 <= i < dim ==> #[trigger] rule.points@[0]@[i] == T::one_spec().over_spec(
                    T::from_count_spec((dim + 1) as nat),
                ),
            commutative_ring::<T>() && counts_exactly::<T>() && divides_exactly(
                T::from_count_spec((dim + 1) as nat),
            ) ==> is_balanced(rule.points@[0]@),
    {
        let n: u64 = dim as u64 + 1;
        let share: T = reciprocal(n);
        let mut point: Vec<T> = Vec::new();
        let mut i: usize = 0;
        while i < dim
            invariant
                i <= dim,
                point@.len() == i,
                forall|k: int| 0 <= k < i ==> #[trigger] point@[k] == share,
            decreases dim - i,
        {
            point.push(share);
            i = i + 1;
        }
        let mut points: Vec<Vec<T>> = Vec::new();
        points.push(point);
        let mut weights: Vec<T> = Vec::new();
        weights.push(T::one());
        let rule = SimplexQuadRule { dim, points, weights };
        proof {
            assert(rule.weights@ =~= seq![T::one_spec()]);
            if commutative_ring::<T>() && counts_exactly::<T>() && divides_exactly(
                T::from_count_spec((dim + 1) as nat),
            ) {
                equal_shares_balance(rule.points@[0]@);
            }
        }
        rule
    }

    /// The rule with the vertices as its points.
    pub fn vertices(dim: usize) -> (rule: Self)
        requires
            dim < usize::MAX,
        ensures
            rule.wf(),
            rule.dim == dim,
            rule.points@.len() == dim + 1,
            forall|q: int, i: int|
                0 <= q <= dim && 0 <= i < dim ==> #[trigger] rule.points@[q]@[i] == if q == i + 1 {
                    T::one_spec()
                } else {
                    T::zero_spec()
                },
            forall|q: int|
                0 <= q <= dim ==> #[trigger] rule.weights@[q] == T::one_spec().over_spec(
                    T::from_count_spec((dim + 1) as nat),
                ),
            commutative_ring::<T>() ==> forall|q: int|
                0 <= q <= dim ==> is_vertex((#[trigger] rule.points@[q])@, q),
            commutative_ring::<T>() && divides_exactly(T::from_count_spec((dim + 1) as nat))
                ==> forall|q: int|
                0 <= q <= dim ==> T::from_count_spec((dim + 1) as nat).times_spec(
                    #[trigger] rule.weights@[q],
                ) == T::one_spec(),
    {
        let n: u64 = dim as u64 + 1;
        let share: T = reciprocal(n);
        let mut points: Vec<Vec<T>> = Vec::new();
        let mut weights: Vec<T> = Vec::new();
        let mut q: usize = 0;
        while q <= dim
            invariant
                q <= dim + 1,
                dim < usize::MAX,
                points@.len() == q,
                weights@.len() == q,
                forall|p: int| 0 <= p < q ==> (#[trigger] points@[p])@.len() == dim,
                forall|p: int, i: int|
                    0 <= p < q && 0 <= i < dim ==> #[trigger] points@[p]@[i] == if p == i + 1 {
                        T::one_spec()
                    } else {
                        T::zero_spec()
                    },
                forall|p: int| 0 <= p < q ==> #[trigger] weights@[p] == share,
            decreases dim + 1 - q,
        {
            let mut point: Vec<T> = Vec::new();
            let mut i: usize = 0;
            while i < dim
                invariant
                    i <= dim,
                    q <= dim,
                    dim < usize::MAX,
                    point@.len() == i,
                    forall|k: int|
                        0 <= k < i ==> #[trigger] point@[k] == if q == k + 1 {
                            T::one_spec()
                        } else {
                            T::zero_spec()
                        },
                decreases dim - i,
            {
                if q == i + 1 {
                    point.push(T::one());
                } else {
                    point.push(T::zero());
                }
                i = i + 1;
            }
            points.push(point);
            weights.push(share);
            q = q + 1;
        }
        let rule = SimplexQuadRule { dim, points, weights };
        proof {
            let count = T::from_count_spec((dim + 1) as nat);
            if commutative_ring::<T>() {
                assert forall|q: int| 0 <= q <= dim implies is_vertex(
                    (#[trigger] rule.points@[q])@,
                    q,
                ) by {
                    let point = rule.points@[q]@;
                    assert forall|i: int| 0 <= i < point.len() implies #[trigger] point[i] == (if q
                        == i + 1 {
                        T::one_spec()
                    } else {
                        T::zero_spec()
                    }) by {
                        assert(rule.points@[q]@[i] == point[i]);
                    }
                    corners_are_vertices(point, q);
                }
                if divides_exactly(count) {
                    quotient_is_product(count, T::one_spec());
                }
            }
        }
        rule
    }
}

/// The integral of a function with the given values at the points of a rule, over a simplex of
/// the given volume.
pub open spec fn integral<T: Scalar>(weights: Seq<T>, values: Seq<T>, volume: T) -> T {
    volume.times_spec(
        sum_products(|q: int| weights[q], |q: int| values[q], weights.len() as int),
    )
}

pub fn integrate<T: Scalar>(weights: &[T], values: &[T], volume: T) -> (sum: T)
    requires
        weights@.len() == values@.len(),
    ensures
        sum == integral(weights@, values@, volume),
{
    let ghost f = |q: int| weights@[q];
    let ghost g = |q: int| values@[q];
    let mut sum = T::zero();
    let mut q: usize = 0;
    while q < weights.len()
        invariant
            q <= weights@.len(),
            weights@.len() == values@.len(),
            f == (|q: int| weights@[q]),
            g == (|q: int| values@[q]),
            sum == sum_products(f, g, q as int),
        decreases weights@.len() - q,
    {
        sum = sum.plus(weights[q].times(values[q]));
        q = q + 1;
    }
    volume.times(sum)
}

/// The average of a weight with the given values at the points of a rule: its integral over a
/// simplex of volume one.
pub fn averaged_cell_weight<T: Scalar>(rule: &SimplexQuadRule<T>, values: &[T]) -> (weight:
    InnerProductWeight<ScalarWeight<T>>)
    requires
        rule.wf(),
        values@.len() == rule.weights@.len(),
    ensures
        weight.weight.value == integral(rule.weights@, values@, T::one_spec()),
{
    let value = integrate(rule.weights.as_slice(), values, T::one());
    InnerProductWeight { weight: ScalarWeight { value } }
}

/// The average of a weight that is the same at all points of a rule.
pub open spec fn constant_average<T: Scalar>(rule: SimplexQuadRule<T>, value: T) -> T {
    integral(rule.weights@, Seq::new(rule.weights@.len(), |q: int| value), T::one_spec())
}

/// The weights of cells, each of them the average of a weight that is the same everywhere.
pub open spec fn constant_cell_weights<T: Scalar>(
    rule: SimplexQuadRule<T>,
    value: T,
    ncells: nat,
) -> Seq<ScalarWeight<T>> {
    Seq::new(ncells, |i: int| ScalarWeight { value: constant_average(rule, value) })
}

/// The weights of cells with a weight that is the same everywhere.
pub fn constant_weights<T: Scalar>(rule: &SimplexQuadRule<T>, value: T, ncells: usize) -> (weights:
    Vec<ScalarWeight<T>>)
    requires
        rule.wf(),
    ensures
        weights@ == constant_cell_weights(*rule, value, ncells as nat),
{
    let mut values: Vec<T> = Vec::new();
    let mut q: usize = 0;
    while q < rule.weights.len()
        invariant
            q <= rule.weights@.len(),
            values@ == Seq::new(q as nat, |q: int| value),
        decreases rule.weights@.len() - q,
    {
        values.push(value);
        q = q + 1;
    }
    let weight: ScalarWeight<T> = averaged_cell_weight(rule, values.as_slice()).weight;
    let mut weights: Vec<ScalarWeight<T>> = Vec::new();
    let mut i: usize = 0;
    while i < ncells
        invariant
            i <= ncells,
            weight.value == constant_average(*rule, value),
            weights@ == constant_cell_weights(*rule, value, i as nat),
        decreases ncells - i,
    {
        weights.push(weight);
        i = i + 1;
    }
    weights
}

proof fn lemma_constant_sum<T: Scalar>(weights: Seq<T>, values: Seq<T>, value: T, n: int)
    requires
        commutative_ring::<T>(),
        0 <= n <= weights.len(),
        values.len() == weights.len(),
        forall|q: int| 0 <= q < values.len() ==> #[trigger] values[q] == value,
    ensures
        sum_products(|q: int| weights[q], |q: int| values[q], n) == sum_terms(
            |q: int| weights[q],
            n,
        ).times_spec(value),
    decreases n,
{
    let f = |q: int| weights[q];
    if n > 0 {
        lemma_constant_sum(weights, values, value, n - 1);
        ring_distributes(value, sum_terms(f, n - 1), weights[n - 1]);
    } else {
        ring_units(value);
    }
}

/// The average of a weight that is the same everywhere is that weight, if the weights of the rule
/// add up to one, over coefficients that compute exactly.
pub proof fn constants_average_to_themselves<T: Scalar>(rule: SimplexQuadRule<T>, value: T)
    requires
        commutative_ring::<T>(),
        sum_terms(|q: int| rule.weights@[q], rule.weights@.len() as int) == T::one_spec(),
    ensures
        constant_average(rule, value) == value,
{
    let n = rule.weights@.len() as int;
    let values = Seq::new(rule.weights@.len(), |q: int| value);
    lemma_constant_sum(rule.weights@, values, value, n);
    ring_units(value);
}

/// The average of a weight, or one without a weight.
pub fn scalar_cell_weight<T: Scalar>(weighted: Option<(&SimplexQuadRule<T>, &[T])>) -> (weight: T)
    requires
        weighted matches Some((rule, values)) ==> rule.wf() && values@.len()
            == rule.weights@.len(),
    ensures
        weight == match weighted {
            Some((rule, values)) => integral(rule.weights@, values@, T::one_spec()),
            None => T::one_spec(),
        },
{
    match weighted {
        Some((rule, values)) => averaged_cell_weight(rule, values).weight.value,
        None => T::one(),
    }
}

} // verus!
