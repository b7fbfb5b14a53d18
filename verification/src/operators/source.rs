//! Element vectors of sources.

use crate::exterior::{exterior_dim_spec, ExteriorGrade};
use crate::linalg::dense::DenseMatrix;
use crate::linalg::minors::{is_matrix, values_of};
use crate::linalg::scalar::Scalar;
use crate::operators::elements::{
    gramian, inner_mat, inner_value, inner_value_same, multi_gramian, SimplexGeometry,
};
use crate::operators::quadrature_elements::{whitney_table, whitney_values};
use crate::operators::reference::{
    reference_fits, reference_sizes, standard_subsimps_spec,
};
use crate::operators::weights::{integral, integrate, ApplyWeight, SimplexQuadRule};
use crate::text::{decimal, owned, push_decimal};
use crate::topology::simplex::binomial;
use vstd::prelude::*;
use vstd::string::*;

verus! {

/// An element vector.
pub type ElVec<T> = Vec<T>;

/// Where a field takes its values.
#[derive(Clone, Copy, Debug, PartialEq, Eq, Structural)]
pub enum FieldSide {
    Ambient,
    Intrinsic,
}

/// The complaint about a field on a space of the wrong dimension.
pub open spec fn field_message(
    what: Seq<char>,
    place: Seq<char>,
    field: nat,
    intrinsic: nat,
    ambient: nat,
) -> Seq<char> {
    what + " ambient dimension "@ + decimal(field) + " is incompatible with "@ + place
        + " dimensions ("@ + decimal(intrinsic) + ", "@ + decimal(ambient) + ")."@
}

/// Whether a field takes its values in the space around a cell or a facet, or in that itself.
pub fn field_side(
    what: &str,
    place: &str,
    field: usize,
    intrinsic: usize,
    ambient: usize,
) -> (side: Result<FieldSide, String>)
    ensures
        match side {
            Ok(FieldSide::Ambient) => field == ambient,
            Ok(FieldSide::Intrinsic) => field == intrinsic && ambient != intrinsic,
            Err(message) => {
                &&& field != ambient
                &&& field != intrinsic
                &&& message@ == field_message(
                    what@,
                    place@,
                    field as nat,
                    intrinsic as nat,
                    ambient as nat,
                )
            },
        },
{
    if field == ambient {
        Ok(FieldSide::Ambient)
    } else if field == intrinsic {
        Ok(FieldSide::Intrinsic)
    } else {
        let mut message = owned(what);
        message.append(" ambient dimension ");
        push_decimal(&mut message, field);
        message.append(" is incompatible with ");
        message.append(place);
        message.append(" dimensions (");
        push_decimal(&mut message, intrinsic);
        message.append(", ");
        push_decimal(&mut message, ambient);
        message.append(").");
        Err(message)
    }
}

/// An element vector for each cell.
pub trait ElVecProvider<T: Scalar> {
    spec fn degree(&self) -> nat;

    spec fn accepts(&self, geometry: SimplexGeometry<T>, cell: int) -> bool;

    spec fn elvec(&self, geometry: SimplexGeometry<T>, cell: int) -> Seq<T>;

    fn grade(&self) -> (grade: ExteriorGrade)
        ensures
            grade == self.degree(),
    ;

    fn eval(&self, geometry: &SimplexGeometry<T>, cell: usize) -> (v: ElVec<T>)
        requires
            self.accepts(*geometry, cell as int),
        ensures
            v@ == self.elvec(*geometry, cell as int),
    ;
}

/// The inner product of a source with a Whitney form by quadrature. The source has the given
/// coefficients at the points of the rule.
pub open spec fn source_value<T: Scalar>(
    geometry: SimplexGeometry<T>,
    grade: nat,
    rule: SimplexQuadRule<T>,
    values: Seq<Vec<T>>,
    s: int,
) -> T {
    let dim = geometry.dim as nat;
    integral(
        rule.weights@,
        Seq::new(
            rule.points@.len(),
            |q: int|
                inner_value(
                    |b: int, c: int| values[q]@[b],
                    gramian(geometry, grade),
                    whitney_table(dim, grade, rule.points@[q]@),
                    exterior_dim_spec(dim, grade) as int,
                    0,
                    s,
                ),
        ),
        geometry.volume,
    )
}

/// The element vectors of a source: its values on each cell at the points of a rule.
pub struct SourceElVec<'a, T> {
    pub grade: ExteriorGrade,
    pub rule: &'a SimplexQuadRule<T>,
    pub values: &'a Vec<Vec<Vec<T>>>,
}

impl<'a, T: Scalar> SourceElVec<'a, T> {
    pub fn new(
        grade: ExteriorGrade,
        rule: &'a SimplexQuadRule<T>,
        values: &'a Vec<Vec<Vec<T>>>,
    ) -> (provider: Self)
        ensures
            provider.grade == grade,
            provider.rule == rule,
            provider.values == values,
    {
        SourceElVec { grade, rule, values }
    }
}

pub(crate) fn as_column<T: Scalar>(coeffs: &Vec<T>) -> (m: DenseMatrix<T>)
    ensures
        is_matrix(m, coeffs@.len(), 1, |b: int, c: int| coeffs@[b]),
{
    let n: usize = coeffs.len();
    let mut m = DenseMatrix::zeros(n, 1);
    let mut b: usize = 0;
    while b < n
        invariant
            b <= n,
            n == coeffs@.len(),
            m.wf(),
            m.rows() == n,
            m.cols() == 1,
            forall|r: int, c: int| 0 <= r < b && 0 <= c < 1 ==> #[trigger] m.at(r, c) == coeffs@[r],
        decreases n - b,
    {
        m.set(b, 0, coeffs[b]);
        b = b + 1;
    }
    m
}

/// Coefficients with a weight at every point.
pub fn weighted_values<T: Scalar, W: ApplyWeight<T>>(weights: &Vec<W>, values: &Vec<Vec<T>>) -> (
weighted: Vec<Vec<T>>)
    requires
        weights@.len() == values@.len(),
        forall|q: int|
            0 <= q < values@.len() ==> (#[trigger] weights@[q]).fits(values@[q]@.len()),
    ensures
        weighted@.len() == values@.len(),
        forall|q: int|
            0 <= q < values@.len() ==> (#[trigger] weighted@[q])@ == weights@[q].weighted_vector(
                values@[q]@,
            ),
{
    let mut weighted: Vec<Vec<T>> = Vec::new();
    let mut q: usize = 0;
    while q < values.len()
        invariant
            q <= values@.len(),
            weights@.len() == values@.len(),
            forall|q: int|
                0 <= q < values@.len() ==> (#[trigger] weights@[q]).fits(values@[q]@.len()),
            weighted@.len() == q,
            forall|k: int|
                0 <= k < q ==> (#[trigger] weighted@[k])@ == weights@[k].weighted_vector(
                    values@[k]@,
                ),
        decreases values@.len() - q,
    {
        proof {
            assert(weights@[q as int].fits(values@[q as int]@.len()));
        }
        weighted.push(weights[q].apply(values[q].as_slice()));
        q = q + 1;
    }
    weighted
}

impl<'a, T: Scalar> ElVecProvider<T> for SourceElVec<'a, T> {
    open spec fn degree(&self) -> nat {
        self.grade as nat
    }

    open spec fn accepts(&self, geometry: SimplexGeometry<T>, cell: int) -> bool {
        &&& geometry.wf()
        &&& self.rule.wf()
        &&& self.rule.dim == geometry.dim
        &&& self.grade <= geometry.dim
        &&& reference_fits(geometry.dim as nat, self.grade as nat)
        &&& 0 <= cell < self.values@.len()
        &&& self.values@[cell]@.len() == self.rule.points@.len()
        &&& forall|q: int|
            0 <= q < self.values@[cell]@.len() ==> (#[trigger] self.values@[cell]@[q])@.len()
                == exterior_dim_spec(geometry.dim as nat, self.grade as nat)
    }

    open spec fn elvec(&self, geometry: SimplexGeometry<T>, cell: int) -> Seq<T> {
        Seq::new(
            standard_subsimps_spec(geometry.dim as nat, self.grade as nat).len(),
            |s: int|
                source_value(
                    geometry,
                    self.grade as nat,
                    *self.rule,
                    self.values@[cell]@,
                    s,
                ),
        )
    }

    fn grade(&self) -> (grade: ExteriorGrade) {
        self.grade
    }

    fn eval(&self, geometry: &SimplexGeometry<T>, cell: usize) -> (v: ElVec<T>) {
        let ghost dim = geometry.dim as nat;
        let ghost grade = self.grade as nat;
        let ghost nforms = exterior_dim_spec(dim, grade);
        let ghost size = binomial(dim + 1, grade + 1);
        let ghost gram_values = gramian(*geometry, grade);
        let values = &self.values[cell];
        proof {
            reference_sizes(dim, grade);
            assert(self.values@[cell as int] == *values);
            let slots = grade + 1;
            assert(size <= slots * size) by (nonlinear_arith)
                requires
                    slots >= 1,
            ;
            assert(nforms <= nforms * nforms) by (nonlinear_arith)
                requires
                    nforms >= 0,
            ;
        }
        let gram = multi_gramian(geometry, self.grade);
        let n: usize = crate::operators::reference::standard_subsimps(geometry.dim, self.grade).len();
        let mut rows: Vec<DenseMatrix<T>> = Vec::new();
        let mut q: usize = 0;
        while q < values.len()
            invariant
                q <= values@.len(),
                n == size,
                size == binomial(dim + 1, grade + 1),
                size <= usize::MAX,
                nforms <= usize::MAX,
                dim == geometry.dim,
                grade == self.grade,
                grade <= dim,
                nforms == exterior_dim_spec(dim, grade),
                reference_fits(dim, grade),
                geometry.wf(),
                self.rule.wf(),
                self.rule.dim == dim,
                values@.len() == self.rule.points@.len(),
                forall|k: int|
                    0 <= k < values@.len() ==> (#[trigger] values@[k])@.len() == nforms,
                gram_values == gramian(*geometry, grade),
                is_matrix(gram, nforms, nforms, gram_values),
                rows@.len() == q,
                forall|k: int|
                    0 <= k < q ==> (#[trigger] rows@[k]).wf() && rows@[k].rows() == 1
                        && rows@[k].cols() == n,
                forall|k: int, s: int|
                    0 <= k < q && 0 <= s < n ==> #[trigger] rows@[k].at(0, s) == inner_value(
                        |b: int, c: int| values@[k]@[b],
                        gram_values,
                        whitney_table(dim, grade, self.rule.points@[k]@),
                        nforms as int,
                        0,
                        s,
                    ),
            decreases values@.len() - q,
        {
            proof {
                assert(values@[q as int]@.len() == nforms);
                assert(self.rule.points@[q as int]@.len() == dim);
            }
            let column = as_column(&values[q]);
            let forms: DenseMatrix<T> = whitney_values(
                geometry.dim,
                self.grade,
                self.rule.points[q].as_slice(),
            );
            let row = inner_mat(&column, &gram, &forms);
            proof {
                let left = |b: int, c: int| values@[q as int]@[b];
                let table = whitney_table(dim, grade, self.rule.points@[q as int]@);
                assert forall|s: int| 0 <= s < n implies #[trigger] row.at(0, s) == inner_value(
                    left,
                    gram_values,
                    table,
                    nforms as int,
                    0,
                    s,
                ) by {
                    inner_value_same(
                        values_of(column),
                        values_of(gram),
                        values_of(forms),
                        left,
                        gram_values,
                        table,
                        nforms as int,
                        0,
                        s,
                    );
                }
            }
            rows.push(row);
            q = q + 1;
        }
        let mut v: Vec<T> = Vec::new();
        let mut s: usize = 0;
        while s < n
            invariant
                s <= n,
                dim == geometry.dim,
                grade == self.grade,
                nforms == exterior_dim_spec(dim, grade),
                self.rule.wf(),
                *values == self.values@[cell as int],
                gram_values == gramian(*geometry, grade),
                rows@.len() == self.rule.points@.len(),
                forall|k: int|
                    0 <= k < rows@.len() ==> (#[trigger] rows@[k]).wf() && rows@[k].rows() == 1
                        && rows@[k].cols() == n,
                forall|k: int, s: int|
                    0 <= k < rows@.len() && 0 <= s < n ==> #[trigger] rows@[k].at(0, s)
                        == inner_value(
                        |b: int, c: int| values@[k]@[b],
                        gram_values,
                        whitney_table(dim, grade, self.rule.points@[k]@),
                        nforms as int,
                        0,
                        s,
                    ),
                v@.len() == s,
                forall|k: int|
                    0 <= k < s ==> #[trigger] v@[k] == source_value(
                        *geometry,
                        grade,
                        *self.rule,
                        values@,
                        k,
                    ),
            decreases n - s,
        {
            let mut list: Vec<T> = Vec::new();
            let mut q: usize = 0;
            while q < rows.len()
                invariant
                    q <= rows@.len(),
                    s < n,
                    forall|k: int|
                        0 <= k < rows@.len() ==> (#[trigger] rows@[k]).wf() && rows@[k].rows()
                            == 1 && rows@[k].cols() == n,
                    list@.len() == q,
                    forall|k: int| 0 <= k < q ==> #[trigger] list@[k] == rows@[k].at(0, s as int),
                decreases rows@.len() - q,
            {
                proof {
                    assert(rows@[q as int].wf());
                }
                list.push(rows[q].get(0, s));
                q = q + 1;
            }
            let ghost expected = Seq::new(
                self.rule.points@.len(),
                |q: int|
                    inner_value(
                        |b: int, c: int| values@[q]@[b],
                        gram_values,
                        whitney_table(dim, grade, self.rule.points@[q]@),
                        nforms as int,
                        0,
                        s as int,
                    ),
            );
            proof {
                assert forall|q: int| 0 <= q < list@.len() implies #[trigger] list@[q]
                    == expected[q] by {
                    assert(list@[q] == rows@[q].at(0, s as int));
                }
                assert(list@ =~= expected);
            }
            v.push(
                integrate(self.rule.weights.as_slice(), list.as_slice(), geometry.volume),
            );
            s = s + 1;
        }
        proof {
            assert(v@ =~= self.elvec(*geometry, cell as int));
        }
        v
    }
}

} // verus!
