//! Integrals over the boundary of a mesh.

use crate::assemble::galerkin::{
    assemble_boundary_galvec, galvec_pairs, pair_total, selected_boundary_facets, selected_facets,
    GalVec,
};
use crate::exterior::{basis, exterior_basis, exterior_dim_spec, ExteriorGrade};
use crate::linalg::dense::DenseMatrix;
use crate::linalg::minors::{signed, with_sign};
use crate::linalg::scalar::Scalar;
use crate::operators::derivatives::{face_value, face_value_of};
use crate::operators::elements::sum_terms;
use crate::operators::quadrature_elements::{whitney_value, whitney_values};
use crate::operators::reference::{
    factorial, factorial_spec, reference_fits, reference_sizes, standard_subsimps_spec,
};
use crate::operators::weights::{integral, integrate, SimplexQuadRule};
use crate::text::{decimal, owned, push_decimal};
use crate::topology::complex::Complex;
use crate::topology::handle::{KSimplexIdx, SimplexIdx};
use crate::topology::simplex::{binomial, simplex_views, Dim, Simplex};
use crate::topology::skeleton::unique;
use vstd::prelude::*;
use vstd::string::*;

verus! {

/// The flagged ones among the given indices, in order.
pub fn flagged_indices(indices: &[SimplexIdx], flags: &[bool]) -> (kept: Vec<KSimplexIdx>)
    requires
        forall|i: int| 0 <= i < indices@.len() ==> (#[trigger] indices@[i]).kidx < flags@.len(),
    ensures
        kept@ == selected_facets(kidxs_of(indices@), flags@),
        forall|i: int| 0 <= i < kept@.len() ==> (#[trigger] kept@[i]) < flags@.len(),
{
    let ghost kidxs = kidxs_of(indices@);
    let mut kept: Vec<usize> = Vec::new();
    let mut i: usize = 0;
    proof {
        assert(kidxs.take(0) =~= Seq::<usize>::empty());
    }
    while i < indices.len()
        invariant
            i <= indices@.len(),
            kidxs == kidxs_of(indices@),
            forall|i: int|
                0 <= i < indices@.len() ==> (#[trigger] indices@[i]).kidx < flags@.len(),
            kept@ == selected_facets(kidxs.take(i as int), flags@),
            forall|k: int| 0 <= k < kept@.len() ==> (#[trigger] kept@[k]) < flags@.len(),
        decreases indices@.len() - i,
    {
        let kidx: usize = indices[i].kidx;
        proof {
            assert(indices@[i as int].kidx < flags@.len());
            assert(kidxs.take(i + 1).drop_last() =~= kidxs.take(i as int));
            assert(kidxs.take(i + 1).last() == kidx);
        }
        if flags[kidx] {
            kept.push(kidx);
        }
        i = i + 1;
    }
    proof {
        assert(kidxs.take(i as int) =~= kidxs);
    }
    kept
}

pub open spec fn kidxs_of(indices: Seq<SimplexIdx>) -> Seq<usize> {
    Seq::new(indices.len(), |i: int| indices[i].kidx)
}

/// The simplices of a dimension on the boundary, in the order in which they are found.
pub open spec fn boundary_kidxs(topology: Complex, dim: int) -> Seq<usize> {
    if dim == topology.dimension() - 1 {
        topology.boundary_facet_kidxs()
    } else {
        unique(topology.boundary_facet_subsimplices(dim).flatten())
    }
}

/// The simplices of the boundary of a dimension that are flagged, by what holds of their
/// barycenters.
pub fn boundary_simplices_where_barycenter(topology: &Complex, dim: Dim, holds: &[bool]) -> (kidxs:
    Vec<KSimplexIdx>)
    requires
        topology.wf(),
        dim < topology.dimension(),
        holds@.len() == topology.simplices(dim as int).len(),
    ensures
        kidxs@ == selected_facets(boundary_kidxs(*topology, dim as int), holds@),
        forall|i: int| 0 <= i < kidxs@.len() ==> (#[trigger] kidxs@[i]) < holds@.len(),
{
    let simplices = topology.boundary_subcomplex_simplices(dim);
    let kept = flagged_indices(simplices.as_slice(), holds);
    proof {
        assert(kidxs_of(simplices@) =~= boundary_kidxs(*topology, dim as int));
    }
    kept
}

/// The orientation of a boundary facet: its sign in the boundary of its cell, times the
/// orientation of the cell if that has one in the space around it.
pub open spec fn facet_orientation<T: Scalar>(
    topology: Complex,
    facet: int,
    cell_orientation: Option<T>,
) -> T {
    let dim = topology.dimension() as int;
    let cell = topology.cocells(dim - 1, facet)[0].kidx;
    let sign = face_value::<T>(
        topology.simplices(dim)[cell as int],
        topology.simplices(dim - 1)[facet],
    );
    match cell_orientation {
        Some(orientation) => sign.times_spec(orientation),
        None => sign,
    }
}

pub fn boundary_orientation_sign<T: Scalar>(
    topology: &Complex,
    facet: KSimplexIdx,
    cell_orientation: Option<T>,
) -> (sign: T)
    requires
        topology.wf(),
        topology.dimension() >= 1,
        facet < topology.simplices(topology.dimension() - 1).len(),
    ensures
        sign == facet_orientation(*topology, facet as int, cell_orientation),
{
    let dim: Dim = topology.dim();
    proof {
        topology.facets_are_manifold(facet as int);
        topology.cocells_are_cells(dim - 1, facet as int, 0);
        topology.simplex_facts(dim as int);
    }
    let cells = topology.cocells_of(dim - 1, facet);
    let cell: usize = cells[0].kidx;
    let sign: T = face_value_of(
        topology.simplex_at(dim, cell),
        topology.simplex_at(dim - 1, facet),
    );
    match cell_orientation {
        Some(orientation) => sign.times(orientation),
        None => sign,
    }
}

/// How many pairs of an axis of the first form and one of the second are out of order.
pub open spec fn inversions(a: Seq<usize>, b: Seq<usize>) -> nat
    decreases a.len(),
{
    if a.len() == 0 {
        0
    } else {
        inversions(a.drop_last(), b) + below(a.last(), b)
    }
}

/// How many entries are below a bound.
pub open spec fn below(x: usize, b: Seq<usize>) -> nat
    decreases b.len(),
{
    if b.len() == 0 {
        0
    } else {
        below(x, b.drop_last()) + if b.last() < x {
            1nat
        } else {
            0nat
        }
    }
}

/// Two forms share an axis.
pub open spec fn share(a: Seq<usize>, b: Seq<usize>) -> bool {
    exists|i: int, j: int| 0 <= i < a.len() && 0 <= j < b.len() && a[i] == b[j]
}

/// The sign of the wedge product of two basis forms in top degree; zero if they share an axis.
pub open spec fn wedge_sign<T: Scalar>(a: Seq<usize>, b: Seq<usize>) -> T {
    if share(a, b) {
        T::zero_spec()
    } else {
        signed((inversions(a, b) % 2) as int, T::one_spec())
    }
}

fn wedge_sign_of<T: Scalar>(a: &Simplex, b: &Simplex) -> (sign: T)
    ensures
        sign == wedge_sign::<T>(a@, b@),
{
    let mut odd: bool = false;
    let mut i: usize = 0;
    proof {
        assert(a@.take(0) =~= Seq::<usize>::empty());
    }
    while i < a.vertices.len()
        invariant
            i <= a@.len(),
            odd == (inversions(a@.take(i as int), b@) % 2 == 1),
            forall|k: int, l: int| 0 <= k < i && 0 <= l < b@.len() ==> a@[k] != b@[l],
        decreases a@.len() - i,
    {
        let x: usize = a.vertices[i];
        let ghost start = odd;
        let mut j: usize = 0;
        proof {
            assert(b@.take(0) =~= Seq::<usize>::empty());
            assert(a@.take(i + 1).drop_last() =~= a@.take(i as int));
            assert(a@.take(i + 1).last() == x);
        }
        while j < b.vertices.len()
            invariant
                i < a@.len(),
                x == a@[i as int],
                j <= b@.len(),
                odd == ((inversions(a@.take(i as int), b@) + below(x, b@.take(j as int))) % 2 == 1),
                forall|l: int| 0 <= l < j ==> x != b@[l],
            decreases b@.len() - j,
        {
            let y: usize = b.vertices[j];
            if x == y {
                proof {
                    assert(a@[i as int] == b@[j as int]);
                    assert(share(a@, b@));
                }
                return T::zero();
            }
            proof {
                assert(b@.take(j + 1).drop_last() =~= b@.take(j as int));
                assert(b@.take(j + 1).last() == y);
            }
            if y < x {
                odd = !odd;
            }
            j = j + 1;
        }
        proof {
            assert(b@.take(j as int) =~= b@);
        }
        i = i + 1;
    }
    proof {
        assert(a@.take(i as int) =~= a@);
        assert(!share(a@, b@));
    }
    if odd {
        with_sign(1, T::one())
    } else {
        with_sign(0, T::one())
    }
}

/// The coefficient of the wedge product of two forms of complementary degrees.
pub open spec fn wedge_top<T: Scalar>(
    dim: nat,
    grade: nat,
    first: Seq<T>,
    second: Seq<T>,
) -> T {
    let left = basis(dim, grade);
    let right = basis(dim, (dim - grade) as nat);
    let n = right.len() as int;
    sum_terms(
        |p: int|
            wedge_sign::<T>(left[p / n], right[p % n]).times_spec(first[p / n]).times_spec(
                second[p % n],
            ),
        (left.len() * right.len()) as int,
    )
}

fn wedge_top_of<T: Scalar>(dim: Dim, grade: ExteriorGrade, first: &Vec<T>, second: &Vec<T>) -> (v: T)
    requires
        grade <= dim,
        first@.len() == exterior_dim_spec(dim as nat, grade as nat),
        second@.len() == exterior_dim_spec(dim as nat, (dim - grade) as nat),
        first@.len() * second@.len() <= usize::MAX,
    ensures
        v == wedge_top(dim as nat, grade as nat, first@, second@),
{
    let left = exterior_basis(dim, grade);
    let right = exterior_basis(dim, dim - grade);
    let ghost left_sets = basis(dim as nat, grade as nat);
    let ghost right_sets = basis(dim as nat, (dim - grade) as nat);
    let n: usize = right.len();
    let count: usize = left.len() * n;
    let ghost f = |p: int|
        wedge_sign::<T>(left_sets[p / n as int], right_sets[p % n as int]).times_spec(
            first@[p / n as int],
        ).times_spec(second@[p % n as int]);
    proof {
        assert(simplex_views(left@).len() == left@.len());
        assert(simplex_views(right@).len() == right@.len());
    }
    let mut v = T::zero();
    let mut p: usize = 0;
    while p < count
        invariant
            p <= count,
            count == left@.len() * n,
            n == right@.len(),
            first@.len() == left@.len(),
            second@.len() == n,
            simplex_views(left@) == left_sets,
            simplex_views(right@) == right_sets,
            f == (|p: int|
                wedge_sign::<T>(left_sets[p / n as int], right_sets[p % n as int]).times_spec(
                    first@[p / n as int],
                ).times_spec(second@[p % n as int])),
            v == sum_terms(f, p as int),
        decreases count - p,
    {
        proof {
            assert(n > 0) by (nonlinear_arith)
                requires
                    p < left@.len() * n,
                    n >= 0,
            ;
        }
        let i: usize = p / n;
        let j: usize = p % n;
        proof {
            assert(i < left@.len()) by (nonlinear_arith)
                requires
                    i == p / n,
                    p < left@.len() * n,
                    n > 0,
            ;
            assert(left_sets[i as int] == left@[i as int]@);
            assert(right_sets[j as int] == right@[j as int]@);
        }
        let sign: T = wedge_sign_of(&left[i], &right[j]);
        v = v.plus(sign.times(first[i]).times(second[j]));
        p = p + 1;
    }
    v
}

/// The volume of the reference simplex.
pub open spec fn reference_volume<T: Scalar>(dim: nat) -> T {
    T::one_spec().over_spec(T::from_count_spec(factorial_spec(dim)))
}

/// The integral over a facet of the wedge product of a Whitney form and the data, by a rule.
pub open spec fn boundary_value<T: Scalar>(
    grade: nat,
    rule: SimplexQuadRule<T>,
    data: Seq<Vec<T>>,
    orientation: T,
    s: int,
) -> T {
    let dim = rule.dim as nat;
    let sets = standard_subsimps_spec(dim, grade);
    integral(
        rule.weights@,
        Seq::new(
            rule.points@.len(),
            |q: int|
                orientation.times_spec(
                    wedge_top(
                        dim,
                        grade,
                        Seq::new(
                            exterior_dim_spec(dim, grade),
                            |b: int| whitney_value(dim, sets[s], rule.points@[q]@, b),
                        ),
                        data[q]@,
                    ),
                ),
        ),
        reference_volume::<T>(dim),
    )
}

/// The element vector of a boundary facet. The data has the given coefficients on the facet at
/// the points of the rule, in the coordinates of its reference simplex.
pub fn boundary_elvec_for_facet<T: Scalar>(
    test_grade: ExteriorGrade,
    rule: &SimplexQuadRule<T>,
    data: &Vec<Vec<T>>,
    orientation: T,
) -> (elvec: Vec<T>)
    requires
        test_grade <= rule.dim,
        rule.wf(),
        reference_fits(rule.dim as nat, test_grade as nat),
        factorial_spec(rule.dim as nat) <= u64::MAX,
        exterior_dim_spec(rule.dim as nat, test_grade as nat) * exterior_dim_spec(
            rule.dim as nat,
            (rule.dim - test_grade) as nat,
        ) <= usize::MAX,
        data@.len() == rule.points@.len(),
        forall|q: int|
            0 <= q < data@.len() ==> (#[trigger] data@[q])@.len() == exterior_dim_spec(
                rule.dim as nat,
                (rule.dim - test_grade) as nat,
            ),
    ensures
        elvec@ == Seq::new(
            binomial((rule.dim + 1) as nat, (test_grade + 1) as nat),
            |s: int| boundary_value(test_grade as nat, *rule, data@, orientation, s),
        ),
{
    let dim: Dim = rule.dim;
    let ghost grade = test_grade as nat;
    let ghost sets = standard_subsimps_spec(dim as nat, grade);
    let ghost nforms = exterior_dim_spec(dim as nat, grade);
    proof {
        reference_sizes(dim as nat, grade);
    }
    let volume = T::one().over(T::from_count(factorial(dim)));
    let n: usize = crate::operators::reference::standard_subsimps(dim, test_grade).len();
    let mut elvec: Vec<T> = Vec::new();
    let mut s: usize = 0;
    while s < n
        invariant
            s <= n,
            dim == rule.dim,
            grade == test_grade,
            test_grade <= dim,
            rule.wf(),
            reference_fits(dim as nat, grade),
            sets == standard_subsimps_spec(dim as nat, grade),
            nforms == exterior_dim_spec(dim as nat, grade),
            n == sets.len(),
            n == binomial((dim + 1) as nat, grade + 1),
            volume == reference_volume::<T>(dim as nat),
            nforms * exterior_dim_spec(dim as nat, (dim - test_grade) as nat) <= usize::MAX,
            data@.len() == rule.points@.len(),
            forall|q: int|
                0 <= q < data@.len() ==> (#[trigger] data@[q])@.len() == exterior_dim_spec(
                    dim as nat,
                    (dim - test_grade) as nat,
                ),
            elvec@.len() == s,
            forall|k: int|
                0 <= k < s ==> #[trigger] elvec@[k] == boundary_value(
                    grade,
                    *rule,
                    data@,
                    orientation,
                    k,
                ),
        decreases n - s,
    {
        let mut values: Vec<T> = Vec::new();
        let mut q: usize = 0;
        while q < data.len()
            invariant
                q <= data@.len(),
                s < n,
                dim == rule.dim,
                grade == test_grade,
                test_grade <= dim,
                rule.wf(),
                reference_fits(dim as nat, grade),
                sets == standard_subsimps_spec(dim as nat, grade),
                nforms == exterior_dim_spec(dim as nat, grade),
                n == sets.len(),
                n == binomial((dim + 1) as nat, grade + 1),
                nforms * exterior_dim_spec(dim as nat, (dim - test_grade) as nat) <= usize::MAX,
                data@.len() == rule.points@.len(),
                forall|q: int|
                    0 <= q < data@.len() ==> (#[trigger] data@[q])@.len() == exterior_dim_spec(
                        dim as nat,
                        (dim - test_grade) as nat,
                    ),
                values@.len() == q,
                forall|k: int|
                    0 <= k < q ==> #[trigger] values@[k] == orientation.times_spec(
                        wedge_top(
                            dim as nat,
                            grade,
                            Seq::new(
                                nforms,
                                |b: int|
                                    whitney_value(dim as nat, sets[s as int], rule.points@[k]@, b),
                            ),
                            data@[k]@,
                        ),
                    ),
            decreases data@.len() - q,
        {
            proof {
                assert(rule.points@[q as int]@.len() == dim);
                assert(data@[q as int]@.len() == exterior_dim_spec(
                    dim as nat,
                    (dim - test_grade) as nat,
                ));
            }
            let forms: DenseMatrix<T> = whitney_values(dim, test_grade, rule.points[q].as_slice());
            let first = column_of(&forms, s);
            proof {
                let expected = Seq::new(
                    nforms,
                    |b: int| whitney_value(dim as nat, sets[s as int], rule.points@[q as int]@, b),
                );
                assert forall|b: int| 0 <= b < nforms implies #[trigger] first@[b] == expected[b] by {
                    assert(first@[b] == forms.at(b, s as int));
                }
                assert(first@ =~= expected);
            }
            values.push(orientation.times(wedge_top_of(dim, test_grade, &first, &data[q])));
            q = q + 1;
        }
        let ghost expected = Seq::new(
            rule.points@.len(),
            |q: int|
                orientation.times_spec(
                    wedge_top(
                        dim as nat,
                        grade,
                        Seq::new(
                            nforms,
                            |b: int|
                                whitney_value(dim as nat, sets[s as int], rule.points@[q]@, b),
                        ),
                        data@[q]@,
                    ),
                ),
        );
        proof {
            assert(values@ =~= expected);
        }
        elvec.push(integrate(rule.weights.as_slice(), values.as_slice(), volume));
        s = s + 1;
    }
    proof {
        assert(elvec@ =~= Seq::new(
            binomial((dim + 1) as nat, (test_grade + 1) as nat),
            |s: int| boundary_value(grade, *rule, data@, orientation, s),
        ));
    }
    elvec
}

fn column_of<T: Scalar>(m: &DenseMatrix<T>, c: usize) -> (column: Vec<T>)
    requires
        m.wf(),
        c < m.cols(),
    ensures
        column@.len() == m.rows(),
        forall|b: int| 0 <= b < m.rows() ==> #[trigger] column@[b] == m.at(b, c as int),
{
    let mut column: Vec<T> = Vec::new();
    let n: usize = m.nrows();
    let mut b: usize = 0;
    while b < n
        invariant
            b <= n,
            m.wf(),
            n == m.rows(),
            c < m.cols(),
            column@.len() == b,
            forall|k: int| 0 <= k < b ==> #[trigger] column@[k] == m.at(k, c as int),
        decreases n - b,
    {
        column.push(m.get(b, c));
        b = b + 1;
    }
    column
}

/// What is wrong with the degrees of a boundary term.
pub open spec fn boundary_term_fault(
    boundary_dim: nat,
    test_grade: nat,
    data_grade: nat,
) -> Option<Seq<char>> {
    if test_grade > boundary_dim {
        Some("Test form grade exceeds boundary dimension."@)
    } else if data_grade + test_grade != boundary_dim {
        Some(
            "Boundary data grade does not match (n-1 - grade(test)). Data grade: "@ + decimal(
                data_grade,
            ) + ", test grade: "@ + decimal(test_grade) + ", boundary dimension: "@ + decimal(
                boundary_dim,
            ),
        )
    } else {
        None
    }
}

/// The orientation with which a facet enters a boundary term. The ends of intervals have none.
pub open spec fn term_orientation<T: Scalar>(
    topology: Complex,
    facet: int,
    cell_orientation: Option<T>,
) -> T {
    if topology.dimension() == 1 {
        T::one_spec()
    } else {
        facet_orientation(topology, facet, cell_orientation)
    }
}

/// Coefficients of boundary data for each facet and each point of a rule, and the orientations
/// of the cells at the facets.
pub open spec fn boundary_data_fits<T: Scalar>(
    topology: Complex,
    grade: nat,
    rule: SimplexQuadRule<T>,
    nfacets: nat,
    orientations: Seq<Option<T>>,
    data: Seq<Vec<Vec<T>>>,
) -> bool {
    let dim = (topology.dimension() - 1) as nat;
    let ndata = exterior_dim_spec(dim, (dim - grade) as nat);
    &&& rule.wf()
    &&& rule.dim == dim
    &&& reference_fits(dim, grade)
    &&& factorial_spec(dim) <= u64::MAX
    &&& exterior_dim_spec(dim, grade) * ndata <= usize::MAX
    &&& orientations.len() == nfacets
    &&& data.len() == nfacets
    &&& forall|i: int| 0 <= i < nfacets ==> facet_data_fits(rule, ndata, (#[trigger] data[i])@)
}

/// Coefficients for each point of a rule.
pub open spec fn facet_data_fits<T>(rule: SimplexQuadRule<T>, ndata: nat, data: Seq<Vec<T>>) -> bool {
    &&& data.len() == rule.points@.len()
    &&& forall|q: int| 0 <= q < data.len() ==> (#[trigger] data[q])@.len() == ndata
}

/// The element vectors of a boundary term.
pub open spec fn are_boundary_elvecs<T: Scalar>(
    elvecs: Seq<Vec<T>>,
    topology: Complex,
    facets: Seq<usize>,
    grade: nat,
    rule: SimplexQuadRule<T>,
    orientations: Seq<Option<T>>,
    data: Seq<Vec<Vec<T>>>,
) -> bool {
    &&& elvecs.len() == facets.len()
    &&& forall|i: int|
        0 <= i < elvecs.len() ==> (#[trigger] elvecs[i])@ == Seq::new(
            binomial(topology.dimension() as nat, grade + 1),
            |s: int|
                boundary_value(
                    grade,
                    rule,
                    data[i]@,
                    term_orientation(topology, facets[i] as int, orientations[i]),
                    s,
                ),
        )
}

/// The sums of the entries of some element vectors of a boundary term.
pub open spec fn is_boundary_term<T: Scalar>(
    galvec: Seq<T>,
    topology: Complex,
    facets: Seq<usize>,
    grade: nat,
    rule: SimplexQuadRule<T>,
    orientations: Seq<Option<T>>,
    data: Seq<Vec<Vec<T>>>,
) -> bool {
    exists|elvecs: Seq<Vec<T>>|
        #[trigger] are_boundary_elvecs(elvecs, topology, facets, grade, rule, orientations, data)
            && galvec == Seq::new(
            topology.simplices(grade as int).len(),
            |r: int|
                pair_total(
                    galvec_pairs(
                        &topology,
                        topology.dimension() - 1,
                        facets,
                        grade as int,
                        elvecs,
                        elvecs.len() as int,
                    ),
                    r,
                ),
        )
}

/// The element vectors of some boundary facets.
fn boundary_elvecs<T: Scalar>(
    topology: &Complex,
    facets: &[KSimplexIdx],
    test_grade: ExteriorGrade,
    rule: &SimplexQuadRule<T>,
    orientations: &[Option<T>],
    data: &Vec<Vec<Vec<T>>>,
) -> (elvecs: Vec<Vec<T>>)
    requires
        topology.wf(),
        topology.dimension() >= 1,
        test_grade < topology.dimension(),
        forall|i: int|
            0 <= i < facets@.len() ==> #[trigger] facets@[i] < topology.simplices(
                topology.dimension() - 1,
            ).len(),
        boundary_data_fits(
            *topology,
            test_grade as nat,
            *rule,
            facets@.len(),
            orientations@,
            data@,
        ),
    ensures
        are_boundary_elvecs(
            elvecs@,
            *topology,
            facets@,
            test_grade as nat,
            *rule,
            orientations@,
            data@,
        ),
{
    let dim: Dim = topology.dim();
    let mut elvecs: Vec<Vec<T>> = Vec::new();
    let mut i: usize = 0;
    while i < facets.len()
        invariant
            i <= facets@.len(),
            topology.wf(),
            dim == topology.dimension(),
            dim >= 1,
            test_grade < dim,
            forall|i: int|
                0 <= i < facets@.len() ==> #[trigger] facets@[i] < topology.simplices(
                    topology.dimension() - 1,
                ).len(),
            boundary_data_fits(
                *topology,
                test_grade as nat,
                *rule,
                facets@.len(),
                orientations@,
                data@,
            ),
            elvecs@.len() == i,
            forall|k: int|
                0 <= k < i ==> (#[trigger] elvecs@[k])@ == Seq::new(
                    binomial(topology.dimension() as nat, (test_grade + 1) as nat),
                    |s: int|
                        boundary_value(
                            test_grade as nat,
                            *rule,
                            data@[k]@,
                            term_orientation(*topology, facets@[k] as int, orientations@[k]),
                            s,
                        ),
                ),
        decreases facets@.len() - i,
    {
        let orientation: T = if dim == 1 {
            T::one()
        } else {
            boundary_orientation_sign(topology, facets[i], orientations[i])
        };
        proof {
            assert(facet_data_fits(
                *rule,
                exterior_dim_spec((dim - 1) as nat, (dim - 1 - test_grade) as nat),
                data@[i as int]@,
            ));
        }
        elvecs.push(boundary_elvec_for_facet(test_grade, rule, &data[i], orientation));
        i = i + 1;
    }
    elvecs
}

/// The boundary term of a test form. The data has the given coefficients on each flagged facet
/// at the points of a rule, in the coordinates of its reference simplex; each facet has the
/// orientation of its cell if that has one in the space around the mesh.
pub fn assemble_boundary_integral_term<T: Scalar>(
    topology: &Complex,
    test_grade: ExteriorGrade,
    data_grade: ExteriorGrade,
    rule: &SimplexQuadRule<T>,
    selected: &[bool],
    orientations: &[Option<T>],
    data: &Vec<Vec<Vec<T>>>,
) -> (galvec: Result<GalVec<T>, String>)
    requires
        topology.wf(),
        topology.dimension() >= 1,
        test_grade <= topology.dimension(),
        selected@.len() == topology.simplices(topology.dimension() - 1).len(),
        data_grade + test_grade == topology.dimension() - 1 ==> boundary_data_fits(
            *topology,
            test_grade as nat,
            *rule,
            selected_facets(topology.boundary_facet_kidxs(), selected@).len(),
            orientations@,
            data@,
        ),
    ensures
        match boundary_term_fault(
            (topology.dimension() - 1) as nat,
            test_grade as nat,
            data_grade as nat,
        ) {
            None => galvec matches Ok(galvec) && is_boundary_term(
                galvec@,
                *topology,
                selected_facets(topology.boundary_facet_kidxs(), selected@),
                test_grade as nat,
                *rule,
                orientations@,
                data@,
            ),
            Some(message) => galvec matches Err(text) && text@ == message,
        },
{
    let boundary_dim: Dim = topology.dim() - 1;
    if test_grade > boundary_dim {
        return Err(owned("Test form grade exceeds boundary dimension."));
    }
    if data_grade != boundary_dim - test_grade {
        let mut message = owned(
            "Boundary data grade does not match (n-1 - grade(test)). Data grade: ",
        );
        push_decimal(&mut message, data_grade);
        message.append(", test grade: ");
        push_decimal(&mut message, test_grade);
        message.append(", boundary dimension: ");
        push_decimal(&mut message, boundary_dim);
        return Err(message);
    }
    let facets = selected_boundary_facets(topology, selected);
    let elvecs = boundary_elvecs(
        topology,
        facets.as_slice(),
        test_grade,
        rule,
        orientations,
        data,
    );
    Ok(assemble_boundary_galvec(topology, test_grade, selected, &elvecs))
}

} // verus!
