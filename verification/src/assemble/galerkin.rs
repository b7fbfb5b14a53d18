//! Assembly of element matrices and element vectors, cell by cell.

use crate::linalg::algebra::zero_vector;
use crate::linalg::scalar::Scalar;
use crate::linalg::sparse::CooMatrix;
use crate::topology::complex::Complex;
use crate::topology::handle::{KSimplexIdx, SimplexIdx};
use crate::topology::simplex::{binomial, combinations_count, Dim};
use vstd::prelude::*;

verus! {

/// A Galerkin matrix, in coordinate form.
pub type GalMat<T> = CooMatrix<T>;

/// A Galerkin vector.
pub type GalVec<T> = Vec<T>;

/// The first `n` values of an element matrix, given row by row, at the places of the dofs of
/// its rows and columns; zeros are left out.
pub open spec fn block_triplets<T: Scalar>(
    rows: Seq<usize>,
    cols: Seq<usize>,
    elmat: Seq<T>,
    n: int,
) -> Seq<(usize, usize, T)>
    decreases n,
{
    if n <= 0 {
        Seq::empty()
    } else {
        let before = block_triplets(rows, cols, elmat, n - 1);
        let i = (n - 1) / cols.len() as int;
        let j = (n - 1) % cols.len() as int;
        if elmat[n - 1].is_zero_spec() {
            before
        } else {
            before.push((rows[i], cols[j], elmat[n - 1]))
        }
    }
}

/// The first `n` values of an element vector at the places of its dofs; zeros are left out.
pub open spec fn block_pairs<T: Scalar>(rows: Seq<usize>, elvec: Seq<T>, n: int) -> Seq<(usize, T)>
    decreases n,
{
    if n <= 0 {
        Seq::empty()
    } else {
        let before = block_pairs(rows, elvec, n - 1);
        if elvec[n - 1].is_zero_spec() {
            before
        } else {
            before.push((rows[n - 1], elvec[n - 1]))
        }
    }
}

/// The sum of the values that are paired with row `r`.
pub open spec fn pair_total<T: Scalar>(pairs: Seq<(usize, T)>, r: int) -> T
    decreases pairs.len(),
{
    if pairs.len() == 0 {
        T::zero_spec()
    } else {
        let before = pair_total(pairs.drop_last(), r);
        if pairs.last().0 == r {
            before.plus_spec(pairs.last().1)
        } else {
            before
        }
    }
}

/// Adds the values of an element matrix at the places of its dofs.
pub(crate) fn push_block<T: Scalar>(
    galmat: &mut CooMatrix<T>,
    rows: &[usize],
    cols: &[usize],
    elmat: &[T],
)
    requires
        old(galmat).wf(),
        forall|i: int| 0 <= i < rows@.len() ==> (#[trigger] rows@[i]) < old(galmat).rows(),
        forall|i: int| 0 <= i < cols@.len() ==> (#[trigger] cols@[i]) < old(galmat).cols(),
        elmat@.len() == rows@.len() * cols@.len(),
    ensures
        final(galmat).wf(),
        final(galmat).rows() == old(galmat).rows(),
        final(galmat).cols() == old(galmat).cols(),
        final(galmat).entries() == old(galmat).entries() + block_triplets(
            rows@,
            cols@,
            elmat@,
            elmat@.len() as int,
        ),
{
    let ghost before = galmat.entries();
    let ghost nrows = galmat.rows();
    let ghost ncols = galmat.cols();
    let m: usize = cols.len();
    let mut n: usize = 0;
    proof {
        assert(before + block_triplets(rows@, cols@, elmat@, 0) =~= before);
    }
    while n < elmat.len()
        invariant
            n <= elmat@.len(),
            m == cols@.len(),
            elmat@.len() == rows@.len() * cols@.len(),
            galmat.wf(),
            galmat.rows() == nrows,
            galmat.cols() == ncols,
            forall|i: int| 0 <= i < rows@.len() ==> (#[trigger] rows@[i]) < nrows,
            forall|i: int| 0 <= i < cols@.len() ==> (#[trigger] cols@[i]) < ncols,
            galmat.entries() == before + block_triplets(rows@, cols@, elmat@, n as int),
        decreases elmat@.len() - n,
    {
        proof {
            lemma_block_index(n as int, rows@.len() as int, m as int);
        }
        let v: T = elmat[n];
        if !v.is_zero() {
            let i: usize = n / m;
            let j: usize = n % m;
            proof {
                assert(rows@[i as int] < nrows);
                assert(cols@[j as int] < ncols);
            }
            galmat.push(rows[i], cols[j], v);
            proof {
                assert(galmat.entries() =~= before + block_triplets(rows@, cols@, elmat@, n + 1));
            }
        }
        n = n + 1;
    }
}

proof fn lemma_block_index(n: int, rows: int, cols: int)
    requires
        0 <= n < rows * cols,
        rows >= 0,
        cols >= 0,
    ensures
        cols > 0,
        0 <= n / cols < rows,
        0 <= n % cols < cols,
{
    assert(cols > 0) by (nonlinear_arith)
        requires
            0 <= n < rows * cols,
            rows >= 0,
            cols >= 0,
    ;
    vstd::arithmetic::div_mod::lemma_fundamental_div_mod(n, cols);
    vstd::arithmetic::div_mod::lemma_mod_bound(n, cols);
    assert(0 <= n / cols < rows) by (nonlinear_arith)
        requires
            n == cols * (n / cols) + n % cols,
            0 <= n % cols < cols,
            0 <= n < rows * cols,
            cols > 0,
    ;
}

/// The entries of the Galerkin matrix of the first `n` cells.
pub open spec fn galmat_entries<T: Scalar>(
    topology: &Complex,
    row_grade: int,
    col_grade: int,
    elmats: Seq<Vec<T>>,
    n: int,
) -> Seq<(usize, usize, T)>
    decreases n,
{
    if n <= 0 {
        Seq::empty()
    } else {
        galmat_entries(topology, row_grade, col_grade, elmats, n - 1) + block_triplets(
            topology.subsimplices(topology.dimension(), n - 1, row_grade),
            topology.subsimplices(topology.dimension(), n - 1, col_grade),
            elmats[n - 1]@,
            elmats[n - 1]@.len() as int,
        )
    }
}

/// A cell has `binomial(dim + 1, k + 1)` subsimplices of dimension `k`.
pub proof fn subsimplex_count(topology: &Complex, i: int, k: int)
    requires
        topology.wf(),
        0 <= i < topology.simplices(topology.dimension()).len(),
        0 <= k,
    ensures
        topology.subsimplices(topology.dimension(), i, k).len() == binomial(
            (topology.dimension() + 1) as nat,
            (k + 1) as nat,
        ),
{
    topology.has_dimension();
    topology.simplex_facts(topology.dimension());
    combinations_count(topology.simplices(topology.dimension())[i], (k + 1) as nat);
}

/// Assembles the Galerkin matrix between cochains of two grades from one element matrix per
/// cell. An element matrix lists, row by row, one value for each pair of a subsimplex of the
/// row grade and one of the column grade.
pub fn assemble_galmat<T: Scalar>(
    topology: &Complex,
    row_grade: Dim,
    col_grade: Dim,
    elmats: &Vec<Vec<T>>,
) -> (galmat: GalMat<T>)
    requires
        topology.wf(),
        row_grade <= topology.dimension(),
        col_grade <= topology.dimension(),
        elmats@.len() == topology.simplices(topology.dimension()).len(),
        forall|i: int|
            0 <= i < elmats@.len() ==> (#[trigger] elmats@[i])@.len() == binomial(
                (topology.dimension() + 1) as nat,
                (row_grade + 1) as nat,
            ) * binomial((topology.dimension() + 1) as nat, (col_grade + 1) as nat),
    ensures
        galmat.wf(),
        galmat.rows() == topology.simplices(row_grade as int).len(),
        galmat.cols() == topology.simplices(col_grade as int).len(),
        galmat.entries() == galmat_entries(
            topology,
            row_grade as int,
            col_grade as int,
            elmats@,
            elmats@.len() as int,
        ),
{
    let dim: Dim = topology.dim();
    let mut galmat: CooMatrix<T> = CooMatrix::zeros(
        topology.nsimplices(row_grade),
        topology.nsimplices(col_grade),
    );
    let mut cell: usize = 0;
    while cell < elmats.len()
        invariant
            cell <= elmats@.len(),
            topology.wf(),
            dim == topology.dimension(),
            row_grade <= dim,
            col_grade <= dim,
            elmats@.len() == topology.simplices(dim as int).len(),
            forall|i: int|
                0 <= i < elmats@.len() ==> (#[trigger] elmats@[i])@.len() == binomial(
                    (dim + 1) as nat,
                    (row_grade + 1) as nat,
                ) * binomial((dim + 1) as nat, (col_grade + 1) as nat),
            galmat.wf(),
            galmat.rows() == topology.simplices(row_grade as int).len(),
            galmat.cols() == topology.simplices(col_grade as int).len(),
            galmat.entries() == galmat_entries(
                topology,
                row_grade as int,
                col_grade as int,
                elmats@,
                cell as int,
            ),
        decreases elmats@.len() - cell,
    {
        let rows = topology.subsimplex_indices(dim, cell, row_grade);
        let cols = topology.subsimplex_indices(dim, cell, col_grade);
        proof {
            subsimplex_count(topology, cell as int, row_grade as int);
            subsimplex_count(topology, cell as int, col_grade as int);
            assert(elmats@[cell as int]@.len() == rows@.len() * cols@.len());
        }
        push_block(&mut galmat, rows.as_slice(), cols.as_slice(), elmats[cell].as_slice());
        cell = cell + 1;
    }
    galmat
}

/// The contributions of the first `n` listed simplices of dimension `dim` to a Galerkin vector.
pub open spec fn galvec_pairs<T: Scalar>(
    topology: &Complex,
    dim: int,
    simplices: Seq<usize>,
    grade: int,
    elvecs: Seq<Vec<T>>,
    n: int,
) -> Seq<(usize, T)>
    decreases n,
{
    if n <= 0 {
        Seq::empty()
    } else {
        galvec_pairs(topology, dim, simplices, grade, elvecs, n - 1) + block_pairs(
            topology.subsimplices(dim, simplices[n - 1] as int, grade),
            elvecs[n - 1]@,
            elvecs[n - 1]@.len() as int,
        )
    }
}

/// Assembles a Galerkin vector from one element vector per listed simplex of dimension `dim`.
/// An element vector lists one value for each subsimplex of the given grade.
pub fn assemble_galvec_on<T: Scalar>(
    topology: &Complex,
    dim: Dim,
    simplices: &[KSimplexIdx],
    grade: Dim,
    elvecs: &Vec<Vec<T>>,
) -> (galvec: GalVec<T>)
    requires
        topology.wf(),
        dim <= topology.dimension(),
        grade <= topology.dimension(),
        elvecs@.len() == simplices@.len(),
        forall|i: int|
            0 <= i < simplices@.len() ==> (#[trigger] simplices@[i]) < topology.simplices(
                dim as int,
            ).len(),
        forall|i: int|
            0 <= i < elvecs@.len() ==> (#[trigger] elvecs@[i])@.len() == topology.subsimplices(
                dim as int,
                simplices@[i] as int,
                grade as int,
            ).len(),
    ensures
        galvec@ == Seq::new(
            topology.simplices(grade as int).len(),
            |r: int|
                pair_total(
                    galvec_pairs(
                        topology,
                        dim as int,
                        simplices@,
                        grade as int,
                        elvecs@,
                        elvecs@.len() as int,
                    ),
                    r,
                ),
        ),
{
    let n: usize = topology.nsimplices(grade);
    let mut galvec: Vec<T> = zero_vector(n);
    let mut k: usize = 0;
    while k < simplices.len()
        invariant
            k <= simplices@.len(),
            topology.wf(),
            dim <= topology.dimension(),
            grade <= topology.dimension(),
            n == topology.simplices(grade as int).len(),
            elvecs@.len() == simplices@.len(),
            forall|i: int|
                0 <= i < simplices@.len() ==> (#[trigger] simplices@[i]) < topology.simplices(
                    dim as int,
                ).len(),
            forall|i: int|
                0 <= i < elvecs@.len() ==> (#[trigger] elvecs@[i])@.len() == topology.subsimplices(
                    dim as int,
                    simplices@[i] as int,
                    grade as int,
                ).len(),
            galvec@ =~= Seq::new(
                n as nat,
                |r: int|
                    pair_total(
                        galvec_pairs(
                            topology,
                            dim as int,
                            simplices@,
                            grade as int,
                            elvecs@,
                            k as int,
                        ),
                        r,
                    ),
            ),
        decreases simplices@.len() - k,
    {
        proof {
            assert(simplices@[k as int] < topology.simplices(dim as int).len());
        }
        let rows = topology.subsimplex_indices(dim, simplices[k], grade);
        let elvec = &elvecs[k];
        let ghost head = galvec_pairs(
            topology,
            dim as int,
            simplices@,
            grade as int,
            elvecs@,
            k as int,
        );
        let mut i: usize = 0;
        proof {
            assert(elvecs@[k as int]@.len() == rows@.len());
            assert(head + block_pairs(rows@, elvec@, 0) =~= head);
        }
        while i < elvec.len()
            invariant
                i <= elvec@.len(),
                elvec@.len() == rows@.len(),
                forall|a: int| 0 <= a < rows@.len() ==> (#[trigger] rows@[a]) < n,
                galvec@ =~= Seq::new(
                    n as nat,
                    |r: int| pair_total(head + block_pairs(rows@, elvec@, i as int), r),
                ),
            decreases elvec@.len() - i,
        {
            let v: T = elvec[i];
            let ghost all = head + block_pairs(rows@, elvec@, i as int);
            if !v.is_zero() {
                let row: usize = rows[i];
                proof {
                    let next = head + block_pairs(rows@, elvec@, i + 1);
                    assert(next =~= all.push((row, v)));
                    assert(next.drop_last() =~= all);
                }
                galvec[row] = galvec[row].plus(v);
            }
            i = i + 1;
        }
        k = k + 1;
    }
    galvec
}

/// The numbers below `n`, in order.
pub open spec fn counting(n: nat) -> Seq<usize> {
    Seq::new(n, |i: int| i as usize)
}

/// Assembles a Galerkin vector from one element vector per cell.
pub fn assemble_galvec<T: Scalar>(topology: &Complex, grade: Dim, elvecs: &Vec<Vec<T>>) -> (galvec:
    GalVec<T>)
    requires
        topology.wf(),
        grade <= topology.dimension(),
        elvecs@.len() == topology.simplices(topology.dimension()).len(),
        forall|i: int|
            0 <= i < elvecs@.len() ==> (#[trigger] elvecs@[i])@.len() == binomial(
                (topology.dimension() + 1) as nat,
                (grade + 1) as nat,
            ),
    ensures
        galvec@ == Seq::new(
            topology.simplices(grade as int).len(),
            |r: int|
                pair_total(
                    galvec_pairs(
                        topology,
                        topology.dimension(),
                        counting(elvecs@.len()),
                        grade as int,
                        elvecs@,
                        elvecs@.len() as int,
                    ),
                    r,
                ),
        ),
{
    let dim: Dim = topology.dim();
    let n: usize = elvecs.len();
    let mut cells: Vec<usize> = Vec::new();
    let mut i: usize = 0;
    while i < n
        invariant
            i <= n,
            cells@ =~= counting(i as nat),
        decreases n - i,
    {
        cells.push(i);
        i = i + 1;
    }
    proof {
        assert forall|i: int| 0 <= i < elvecs@.len() implies (#[trigger] elvecs@[i])@.len()
            == topology.subsimplices(dim as int, cells@[i] as int, grade as int).len() by {
            subsimplex_count(topology, i, grade as int);
        }
    }
    assemble_galvec_on(topology, dim, cells.as_slice(), grade, elvecs)
}

/// The indices of the boundary facets that are flagged, in order.
pub open spec fn selected_facets(facets: Seq<usize>, selected: Seq<bool>) -> Seq<usize>
    decreases facets.len(),
{
    if facets.len() == 0 {
        Seq::empty()
    } else {
        let before = selected_facets(facets.drop_last(), selected);
        if selected[facets.last() as int] {
            before.push(facets.last())
        } else {
            before
        }
    }
}

/// The boundary facets that are flagged.
pub fn selected_boundary_facets(topology: &Complex, selected: &[bool]) -> (facets: Vec<KSimplexIdx>)
    requires
        topology.wf(),
        topology.dimension() >= 1,
        selected@.len() == topology.simplices(topology.dimension() - 1).len(),
    ensures
        facets@ == selected_facets(topology.boundary_facet_kidxs(), selected@),
        forall|i: int|
            0 <= i < facets@.len() ==> (#[trigger] facets@[i]) < topology.simplices(
                topology.dimension() - 1,
            ).len(),
{
    let all = topology.boundary_subcomplex_simplices(topology.dim() - 1);
    let ghost kidxs = topology.boundary_facet_kidxs();
    let ghost n = topology.simplices(topology.dimension() - 1).len();
    let mut facets: Vec<usize> = Vec::new();
    let mut i: usize = 0;
    proof {
        assert(kidxs.take(0) =~= Seq::<usize>::empty());
    }
    while i < all.len()
        invariant
            i <= all@.len(),
            all@.len() == kidxs.len(),
            selected@.len() == n,
            forall|j: int|
                0 <= j < all@.len() ==> (#[trigger] all@[j]).kidx == kidxs[j] && all@[j].kidx < n,
            facets@ == selected_facets(kidxs.take(i as int), selected@),
            forall|j: int| 0 <= j < facets@.len() ==> (#[trigger] facets@[j]) < n,
        decreases all@.len() - i,
    {
        let facet: SimplexIdx = all[i];
        proof {
            assert(all@[i as int].kidx == kidxs[i as int]);
            assert(kidxs.take(i + 1).drop_last() =~= kidxs.take(i as int));
            assert(kidxs.take(i + 1).last() == kidxs[i as int]);
        }
        if selected[facet.kidx] {
            facets.push(facet.kidx);
        }
        i = i + 1;
    }
    proof {
        assert(kidxs.take(i as int) =~= kidxs);
    }
    facets
}

/// Assembles a Galerkin vector from one element vector per flagged boundary facet.
pub fn assemble_boundary_galvec<T: Scalar>(
    topology: &Complex,
    grade: Dim,
    selected: &[bool],
    elvecs: &Vec<Vec<T>>,
) -> (galvec: GalVec<T>)
    requires
        topology.wf(),
        topology.dimension() >= 1,
        grade <= topology.dimension(),
        selected@.len() == topology.simplices(topology.dimension() - 1).len(),
        elvecs@.len() == selected_facets(topology.boundary_facet_kidxs(), selected@).len(),
        forall|i: int|
            0 <= i < elvecs@.len() ==> (#[trigger] elvecs@[i])@.len() == binomial(
                topology.dimension() as nat,
                (grade + 1) as nat,
            ),
    ensures
        galvec@ == Seq::new(
            topology.simplices(grade as int).len(),
            |r: int|
                pair_total(
                    galvec_pairs(
                        topology,
                        topology.dimension() - 1,
                        selected_facets(topology.boundary_facet_kidxs(), selected@),
                        grade as int,
                        elvecs@,
                        elvecs@.len() as int,
                    ),
                    r,
                ),
        ),
{
    let dim: Dim = topology.dim() - 1;
    let facets = selected_boundary_facets(topology, selected);
    proof {
        assert forall|i: int| 0 <= i < elvecs@.len() implies (#[trigger] elvecs@[i])@.len()
            == topology.subsimplices(dim as int, facets@[i] as int, grade as int).len() by {
            topology.simplex_facts(dim as int);
            assert(facets@[i] < topology.simplices(dim as int).len());
            combinations_count(
                topology.simplices(dim as int)[facets@[i] as int],
                (grade + 1) as nat,
            );
        }
    }
    assemble_galvec_on(topology, dim, facets.as_slice(), grade, elvecs)
}

} // verus!
