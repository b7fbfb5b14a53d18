//! Forms on the reference simplex.

use crate::exterior::{axes, basis, basis_of_space, exterior_basis, exterior_dim_spec, ExteriorGrade};
use crate::linalg::dense::DenseMatrix;
use crate::linalg::minors::{
    all_below, are_choices, minor, minor_of, minor_same, signed, values_of, with_sign,
};
use crate::linalg::scalar::Scalar;
use crate::topology::simplex::{binomial, combinations, simplex_views, Dim, Simplex};
use vstd::prelude::*;

verus! {

/// The product of the first numbers.
pub open spec fn factorial_spec(n: nat) -> nat
    decreases n,
{
    if n == 0 {
        1
    } else {
        n * factorial_spec((n - 1) as nat)
    }
}

proof fn lemma_factorial_grows(i: nat, n: nat)
    requires
        i <= n,
    ensures
        1 <= factorial_spec(i) <= factorial_spec(n),
    decreases n,
{
    if i < n {
        lemma_factorial_grows(i, (n - 1) as nat);
        assert(n * factorial_spec((n - 1) as nat) >= factorial_spec((n - 1) as nat))
            by (nonlinear_arith)
            requires
                n >= 1,
                factorial_spec((n - 1) as nat) >= 1,
        ;
    } else if n > 0 {
        lemma_factorial_grows((n - 1) as nat, (n - 1) as nat);
        assert(n * factorial_spec((n - 1) as nat) >= 1) by (nonlinear_arith)
            requires
                n >= 1,
                factorial_spec((n - 1) as nat) >= 1,
        ;
    }
}

pub fn factorial(n: usize) -> (f: u64)
    requires
        factorial_spec(n as nat) <= u64::MAX,
    ensures
        f == factorial_spec(n as nat),
{
    let mut f: u64 = 1;
    let mut i: usize = 0;
    while i < n
        invariant
            i <= n,
            factorial_spec(n as nat) <= u64::MAX,
            f == factorial_spec(i as nat),
        decreases n - i,
    {
        proof {
            lemma_factorial_grows((i + 1) as nat, n as nat);
            assert(f * (i + 1) == (i + 1) * factorial_spec(i as nat)) by (nonlinear_arith)
                requires
                    f == factorial_spec(i as nat),
            ;
        }
        f = f * (i as u64 + 1);
        i = i + 1;
    }
    f
}

/// The differential of the barycentric coordinate of a vertex of the reference simplex.
pub open spec fn difbary<T: Scalar>() -> spec_fn(int, int) -> T {
    |vertex: int, axis: int|
        if vertex == 0 {
            T::one_spec().negated_spec()
        } else if vertex == axis + 1 {
            T::one_spec()
        } else {
            T::zero_spec()
        }
}

/// The differentials of the barycentric coordinates of the reference simplex, one in each row.
pub fn difbarys<T: Scalar>(dim: Dim) -> (m: DenseMatrix<T>)
    requires
        (dim + 1) * dim <= usize::MAX,
    ensures
        m.wf(),
        m.rows() == dim + 1,
        m.cols() == dim,
        forall|i: int, j: int|
            0 <= i <= dim && 0 <= j < dim ==> #[trigger] m.at(i, j) == difbary::<T>()(i, j),
{
    proof {
        assert(dim < usize::MAX) by (nonlinear_arith)
            requires
                (dim + 1) * dim <= usize::MAX,
                usize::MAX >= 0xffff_ffff,
        ;
    }
    let mut m = DenseMatrix::zeros(dim + 1, dim);
    let mut i: usize = 0;
    while i <= dim
        invariant
            i <= dim + 1,
            dim < usize::MAX,
            m.wf(),
            m.rows() == dim + 1,
            m.cols() == dim,
            forall|r: int, c: int|
                0 <= r < i && 0 <= c < dim ==> #[trigger] m.at(r, c) == difbary::<T>()(r, c),
        decreases dim + 1 - i,
    {
        let mut j: usize = 0;
        while j < dim
            invariant
                i <= dim,
                j <= dim,
                dim < usize::MAX,
                m.wf(),
                m.rows() == dim + 1,
                m.cols() == dim,
                forall|r: int, c: int|
                    0 <= r <= dim && 0 <= c < dim && (r < i || (r == i && c < j))
                        ==> #[trigger] m.at(r, c) == difbary::<T>()(r, c),
            decreases dim - j,
        {
            if i == 0 {
                m.set(i, j, T::one().negated());
            } else if i == j + 1 {
                m.set(i, j, T::one());
            } else {
                m.set(i, j, T::zero());
            }
            j = j + 1;
        }
        i = i + 1;
    }
    m
}

/// The coefficients of the wedge product of the differentials at the given vertices.
pub open spec fn wedge<T: Scalar>(dim: nat, vertices: Seq<usize>) -> Seq<T> {
    let forms = basis(dim, vertices.len());
    Seq::new(forms.len(), |b: int| minor(difbary::<T>(), vertices, forms[b]))
}

pub fn wedge_of<T: Scalar>(dim: Dim, vertices: &[usize]) -> (coeffs: Vec<T>)
    requires
        (dim + 1) * dim <= usize::MAX,
        all_below(vertices@, (dim + 1) as nat),
    ensures
        coeffs@ == wedge::<T>(dim as nat, vertices@),
        coeffs@.len() == exterior_dim_spec(dim as nat, vertices@.len()),
{
    let d: DenseMatrix<T> = difbarys(dim);
    let grade: usize = vertices.len();
    let forms = exterior_basis(dim, grade);
    let ghost sets = basis(dim as nat, grade as nat);
    proof {
        basis_of_space(dim as nat, grade as nat);
        assert(simplex_views(forms@).len() == forms@.len());
    }
    let mut coeffs: Vec<T> = Vec::new();
    let mut b: usize = 0;
    while b < forms.len()
        invariant
            b <= forms@.len(),
            d.wf(),
            d.rows() == dim + 1,
            d.cols() == dim,
            grade == vertices@.len(),
            all_below(vertices@, (dim + 1) as nat),
            forall|i: int, j: int|
                0 <= i <= dim && 0 <= j < dim ==> #[trigger] d.at(i, j) == difbary::<T>()(i, j),
            sets == basis(dim as nat, grade as nat),
            simplex_views(forms@) == sets,
            are_choices(sets, grade as nat, dim as nat),
            coeffs@.len() == b,
            forall|k: int|
                0 <= k < b ==> #[trigger] coeffs@[k] == minor(difbary::<T>(), vertices@, sets[k]),
        decreases forms@.len() - b,
    {
        proof {
            assert(sets[b as int] == forms@[b as int]@);
            let cols = sets[b as int];
            assert forall|i: int, j: int| 0 <= i < vertices@.len() && 0 <= j < cols.len() implies (
            values_of(d))(#[trigger] vertices@[i] as int, #[trigger] cols[j] as int) == difbary::<
                T,
            >()(vertices@[i] as int, cols[j] as int) by {
                assert(d.at(vertices@[i] as int, cols[j] as int) == difbary::<T>()(
                    vertices@[i] as int,
                    cols[j] as int,
                ));
            }
            minor_same(values_of(d), difbary::<T>(), vertices@, cols);
        }
        coeffs.push(minor_of(&d, vertices, forms[b].vertices.as_slice()));
        b = b + 1;
    }
    proof {
        assert(coeffs@ =~= wedge::<T>(dim as nat, vertices@));
    }
    coeffs
}

/// The subsimplices of the reference simplex.
pub open spec fn standard_subsimps_spec(dim: nat, grade: nat) -> Seq<Seq<usize>> {
    combinations(axes(dim + 1), grade + 1)
}

/// There are as many subsimplices as ways to choose their vertices, and these are vertices of
/// the reference simplex.
pub proof fn subsimplices_of_reference(dim: nat, grade: nat)
    requires
        dim < usize::MAX,
    ensures
        standard_subsimps_spec(dim, grade).len() == binomial(dim + 1, grade + 1),
        are_choices(standard_subsimps_spec(dim, grade), grade + 1, dim + 1),
{
    basis_of_space(dim + 1, grade + 1);
}

pub fn standard_subsimps(dim: Dim, grade: ExteriorGrade) -> (simplices: Vec<Simplex>)
    requires
        dim < usize::MAX,
        grade < usize::MAX,
    ensures
        simplex_views(simplices@) == standard_subsimps_spec(dim as nat, grade as nat),
        simplices@.len() == binomial((dim + 1) as nat, (grade + 1) as nat),
{
    exterior_basis(dim + 1, grade + 1)
}

/// The wedge term of a subsimplex: the wedge product of the differentials at its vertices but
/// one.
pub open spec fn wedge_term<T: Scalar>(dim: nat, simplex: Seq<usize>, slot: int) -> Seq<T> {
    wedge(dim, simplex.remove(slot))
}

pub fn wedge_term_of<T: Scalar>(dim: Dim, simplex: &Simplex, slot: usize) -> (coeffs: Vec<T>)
    requires
        (dim + 1) * dim <= usize::MAX,
        all_below(simplex@, (dim + 1) as nat),
        slot < simplex@.len(),
    ensures
        coeffs@ == wedge_term::<T>(dim as nat, simplex@, slot as int),
        coeffs@.len() == exterior_dim_spec(dim as nat, (simplex@.len() - 1) as nat),
{
    let mut rest: Vec<usize> = Vec::new();
    let mut i: usize = 0;
    while i < simplex.vertices.len()
        invariant
            i <= simplex@.len(),
            slot < simplex@.len(),
            rest@ == if i <= slot {
                simplex@.take(i as int)
            } else {
                simplex@.remove(slot as int).take(i - 1)
            },
        decreases simplex@.len() - i,
    {
        if i != slot {
            rest.push(simplex.vertices[i]);
        }
        i = i + 1;
        proof {
            if i <= slot {
                assert(rest@ =~= simplex@.take(i as int));
            } else {
                assert(rest@ =~= simplex@.remove(slot as int).take(i - 1));
            }
        }
    }
    proof {
        assert(rest@ =~= simplex@.remove(slot as int));
        assert forall|k: int| 0 <= k < rest@.len() implies #[trigger] rest@[k] < dim + 1 by {
            if k < slot {
                assert(rest@[k] == simplex@[k]);
            } else {
                assert(rest@[k] == simplex@[k + 1]);
            }
        }
    }
    wedge_of(dim, rest.as_slice())
}

/// The sum of a list.
pub open spec fn total<T: Scalar>(values: Seq<T>) -> T
    decreases values.len(),
{
    if values.len() == 0 {
        T::zero_spec()
    } else {
        total(values.drop_last()).plus_spec(values.last())
    }
}

/// The barycentric coordinates of a point of the reference simplex.
pub open spec fn barycentric<T: Scalar>(coord: Seq<T>) -> Seq<T> {
    seq![T::one_spec().minus_spec(total(coord))] + coord
}

pub fn barycentric_of<T: Scalar>(coord: &[T]) -> (barys: Vec<T>)
    ensures
        barys@ == barycentric(coord@),
{
    let mut sum = T::zero();
    let mut i: usize = 0;
    proof {
        assert(coord@.take(0) =~= Seq::<T>::empty());
    }
    while i < coord.len()
        invariant
            i <= coord@.len(),
            sum == total(coord@.take(i as int)),
        decreases coord@.len() - i,
    {
        proof {
            assert(coord@.take(i + 1).drop_last() =~= coord@.take(i as int));
        }
        sum = sum.plus(coord[i]);
        i = i + 1;
    }
    let mut barys: Vec<T> = Vec::new();
    barys.push(T::one().minus(sum));
    proof {
        assert(coord@.take(i as int) =~= coord@);
        assert(barys@ =~= seq![T::one_spec().minus_spec(total(coord@))] + coord@.take(0));
    }
    let mut i: usize = 0;
    while i < coord.len()
        invariant
            i <= coord@.len(),
            barys@ == seq![T::one_spec().minus_spec(total(coord@))] + coord@.take(i as int),
        decreases coord@.len() - i,
    {
        barys.push(coord[i]);
        i = i + 1;
        proof {
            assert(barys@ =~= seq![T::one_spec().minus_spec(total(coord@))] + coord@.take(
                i as int,
            ));
        }
    }
    proof {
        assert(coord@.take(i as int) =~= coord@);
    }
    barys
}

/// The coefficient of a basis form in the function of a slot of a subsimplex at a point with
/// the given barycentric coordinates.
pub open spec fn slot_coefficient<T: Scalar>(
    dim: nat,
    simplex: Seq<usize>,
    slot: int,
    barys: Seq<T>,
    b: int,
) -> T {
    let scale = T::from_count_spec(factorial_spec((simplex.len() - 1) as nat));
    signed(slot, scale).times_spec(barys[simplex[slot] as int]).times_spec(
        wedge_term::<T>(dim, simplex, slot)[b],
    )
}

/// The coefficients of the functions of all slots of all subsimplices at a point.
pub open spec fn is_local_basis<T: Scalar>(
    m: DenseMatrix<T>,
    dim: nat,
    grade: nat,
    coord: Seq<T>,
) -> bool {
    let simplices = standard_subsimps_spec(dim, grade);
    let slots = (grade + 1) as int;
    &&& m.wf()
    &&& m.rows() == exterior_dim_spec(dim, grade)
    &&& m.cols() == slots * simplices.len()
    &&& forall|b: int, c: int|
        0 <= b < m.rows() && 0 <= c < m.cols() ==> #[trigger] m.at(b, c) == slot_coefficient(
            dim,
            simplices[c / slots],
            c % slots,
            barycentric(coord),
            b,
        )
}

/// The numbers of forms and functions on the reference simplex fit machine numbers.
pub open spec fn reference_fits(dim: nat, grade: nat) -> bool {
    &&& (dim + 1) * (dim + 2) <= usize::MAX
    &&& grade < usize::MAX
    &&& factorial_spec(grade) <= u64::MAX
    &&& exterior_dim_spec(dim, grade) * ((grade + 1) * binomial(dim + 1, grade + 1)) <= usize::MAX
    &&& exterior_dim_spec(dim, grade) * exterior_dim_spec(dim, grade) <= usize::MAX
    &&& ((grade + 1) * binomial(dim + 1, grade + 1)) * ((grade + 1) * binomial(
        dim + 1,
        grade + 1,
    )) <= usize::MAX
}

proof fn lemma_fits(dim: nat, grade: nat)
    requires
        reference_fits(dim, grade),
    ensures
        dim < usize::MAX,
        (dim + 1) * dim <= usize::MAX,
        factorial_spec(grade) <= u64::MAX,
        (grade + 1) * binomial(dim + 1, grade + 1) <= usize::MAX,
{
    let n = (grade + 1) * binomial(dim + 1, grade + 1);
    assert(n <= n * n || n == 0) by (nonlinear_arith)
        requires
            n >= 0,
    ;
    assert((dim + 1) * dim <= (dim + 1) * (dim + 2)) by (nonlinear_arith);
    assert(dim + 1 < (dim + 1) * (dim + 2)) by (nonlinear_arith);
}

pub proof fn reference_sizes(dim: nat, grade: nat)
    requires
        reference_fits(dim, grade),
    ensures
        dim + 1 < usize::MAX,
        (dim + 1) * dim <= usize::MAX,
        factorial_spec(grade) <= u64::MAX,
        (grade + 1) * binomial(dim + 1, grade + 1) <= usize::MAX,
        are_choices(standard_subsimps_spec(dim, grade), grade + 1, dim + 1),
        standard_subsimps_spec(dim, grade).len() == binomial(dim + 1, grade + 1),
{
    lemma_fits(dim, grade);
    assert(dim + 1 < (dim + 1) * (dim + 2)) by (nonlinear_arith);
    subsimplices_of_reference(dim, grade);
}

/// The coefficients of the functions of all slots of the subsimplices of a degree below the
/// dimension.
pub fn nc_local_basis_coeffs<T: Scalar>(dim: Dim, grade: ExteriorGrade, coord: &[T]) -> (m:
    DenseMatrix<T>)
    requires
        grade < dim,
        coord@.len() == dim,
        reference_fits(dim as nat, grade as nat),
    ensures
        is_local_basis(m, dim as nat, grade as nat, coord@),
{
    slot_values(dim, grade, coord)
}

/// The coefficients of the functions of all slots.
pub fn slot_values<T: Scalar>(dim: Dim, grade: ExteriorGrade, coord: &[T]) -> (m: DenseMatrix<T>)
    requires
        grade <= dim,
        coord@.len() == dim,
        reference_fits(dim as nat, grade as nat),
    ensures
        is_local_basis(m, dim as nat, grade as nat, coord@),
{
    proof {
        reference_sizes(dim as nat, grade as nat);
    }
    let barys = barycentric_of(coord);
    let simplices = standard_subsimps(dim, grade);
    let slots: usize = grade + 1;
    let nforms: usize = exterior_basis(dim, grade).len();
    let scale = T::from_count(factorial(grade));
    let ghost sets = standard_subsimps_spec(dim as nat, grade as nat);
    proof {
        assert(simplex_views(simplices@).len() == simplices@.len());
        assert(slots * simplices@.len() == (grade + 1) * binomial(
            (dim + 1) as nat,
            (grade + 1) as nat,
        ));
    }
    let ncols: usize = slots * simplices.len();
    let mut m = DenseMatrix::zeros(nforms, ncols);
    let mut c: usize = 0;
    while c < ncols
        invariant
            c <= ncols,
            ncols == slots * simplices@.len(),
            slots == grade + 1,
            grade <= dim,
            (dim + 1) * dim <= usize::MAX,
            coord@.len() == dim,
            barys@ == barycentric(coord@),
            scale == T::from_count_spec(factorial_spec(grade as nat)),
            sets == standard_subsimps_spec(dim as nat, grade as nat),
            simplex_views(simplices@) == sets,
            are_choices(sets, slots as nat, (dim + 1) as nat),
            m.wf(),
            m.rows() == nforms,
            m.cols() == ncols,
            nforms == exterior_dim_spec(dim as nat, grade as nat),
            forall|b: int, k: int|
                0 <= b < nforms && 0 <= k < c ==> #[trigger] m.at(b, k) == slot_coefficient(
                    dim as nat,
                    sets[k / slots as int],
                    k % slots as int,
                    barys@,
                    b,
                ),
        decreases ncols - c,
    {
        let s: usize = c / slots;
        let slot: usize = c % slots;
        proof {
            assert(s < simplices@.len()) by (nonlinear_arith)
                requires
                    s == c / slots,
                    c < slots * simplices@.len(),
                    slots > 0,
            ;
            assert(sets[s as int] == simplices@[s as int]@);
        }
        let term: Vec<T> = wedge_term_of(dim, &simplices[s], slot);
        let vertex: usize = simplices[s].vertices[slot];
        proof {
            assert(sets[s as int][slot as int] == vertex);
        }
        let factor = with_sign(slot, scale).times(barys[vertex]);
        let mut b: usize = 0;
        while b < nforms
            invariant
                b <= nforms,
                c < ncols,
                slots == grade + 1,
                s == c / slots,
                slot == c % slots,
                m.wf(),
                m.rows() == nforms,
                m.cols() == ncols,
                sets[s as int].len() == slots,
                term@ == wedge_term::<T>(dim as nat, sets[s as int], slot as int),
                term@.len() == nforms,
                scale == T::from_count_spec(factorial_spec(grade as nat)),
                factor == signed(slot as int, scale).times_spec(
                    barys@[sets[s as int][slot as int] as int],
                ),
                forall|r: int, k: int|
                    0 <= r < nforms && 0 <= k < ncols && (k < c || (k == c && r < b))
                        ==> #[trigger] m.at(r, k) == slot_coefficient(
                        dim as nat,
                        sets[k / slots as int],
                        k % slots as int,
                        barys@,
                        r,
                    ),
            decreases nforms - b,
        {
            m.set(b, c, factor.times(term[b]));
            b = b + 1;
        }
        c = c + 1;
    }
    m
}

} // verus!
