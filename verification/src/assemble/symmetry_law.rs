//! Matrices assembled from symmetric blocks are symmetric.

use crate::assemble::barycentric_dual::{inverse_block_symmetric, simplices_around};
use crate::assemble::barycentric_dual::BarycentricDualSparseInverseConfig;
use crate::assemble::barycentric_inverse::{block_values, geometry_of, local_entries};
use crate::assemble::galerkin::block_triplets;
use crate::assemble::nonconforming::{
    blocks_match, dof_simplices, projected_entries, scaled_values, slot_weight,
};
use crate::io::fields::MeshCoords;
use crate::linalg::dense::DenseMatrix;
use crate::linalg::ring::{
    exact_addition, scalar_sum, scalar_sum_same, scalar_sum_swap, sum_of_push,
};
use crate::linalg::scalar::{sum, Scalar};
use crate::linalg::sparse::values_at;
use crate::topology::complex::Complex;
use vstd::prelude::*;

verus! {

/// Only zero counts as zero.
pub open spec fn only_zero_is_zero<T: Scalar>() -> bool {
    forall|v: T| #[trigger] v.is_zero_spec() ==> v == T::zero_spec()
}

/// The value of a matrix at a place.
pub open spec fn value_at<T: Scalar>(entries: Seq<(usize, usize, T)>, r: int, c: int) -> T {
    sum(values_at(entries, r, c))
}

/// A square matrix that does not change when rows and columns are interchanged.
pub open spec fn symmetric<T: Scalar>(m: DenseMatrix<T>) -> bool {
    forall|i: int, j: int|
        0 <= i < m.rows() && 0 <= j < m.rows() ==> #[trigger] m.at(i, j) == m.at(j, i)
}

proof fn lemma_value_concat<T: Scalar>(
    a: Seq<(usize, usize, T)>,
    b: Seq<(usize, usize, T)>,
    r: int,
    c: int,
)
    requires
        exact_addition::<T>(),
    ensures
        value_at(a + b, r, c) == value_at(a, r, c).plus_spec(value_at(b, r, c)),
    decreases b.len(),
{
    let left = value_at(a, r, c);
    if b.len() == 0 {
        assert(a + b =~= a);
        assert(left.plus_spec(T::zero_spec()) == left);
    } else {
        let front = b.drop_last();
        let last = b.last();
        assert((a + b).drop_last() =~= a + front);
        assert((a + b).last() == last);
        lemma_value_concat(a, front, r, c);
        if last.0 == r && last.1 == c {
            sum_of_push(values_at(a + front, r, c), last.2);
            sum_of_push(values_at(front, r, c), last.2);
            assert(left.plus_spec(value_at(front, r, c)).plus_spec(last.2) == left.plus_spec(
                value_at(front, r, c).plus_spec(last.2),
            ));
        }
    }
}

/// What the value number `p` of a block adds to a place.
spec fn part<T: Scalar>(dofs: Seq<usize>, values: Seq<T>, r: int, c: int) -> spec_fn(int) -> T {
    |p: int|
        if dofs[p / dofs.len() as int] == r && dofs[p % dofs.len() as int] == c {
            values[p]
        } else {
            T::zero_spec()
        }
}

proof fn lemma_block_value<T: Scalar>(dofs: Seq<usize>, values: Seq<T>, r: int, c: int, n: int)
    requires
        exact_addition::<T>(),
        only_zero_is_zero::<T>(),
    ensures
        value_at(block_triplets(dofs, dofs, values, n), r, c) == scalar_sum(
            n,
            part(dofs, values, r, c),
        ),
    decreases n,
{
    let f = part(dofs, values, r, c);
    if n > 0 {
        lemma_block_value(dofs, values, r, c, n - 1);
        let before = block_triplets(dofs, dofs, values, n - 1);
        let all = block_triplets(dofs, dofs, values, n);
        let start = scalar_sum(n - 1, f);
        assert(start.plus_spec(T::zero_spec()) == start);
        let v = values[n - 1];
        if !v.is_zero_spec() {
            assert(all.drop_last() =~= before);
            if dofs[(n - 1) / dofs.len() as int] == r && dofs[(n - 1) % dofs.len() as int] == c {
                sum_of_push(values_at(before, r, c), v);
            }
        }
    }
}

proof fn lemma_sum_split<T: Scalar>(m: int, k: int, f: spec_fn(int) -> T)
    requires
        exact_addition::<T>(),
        0 <= m,
        0 <= k,
    ensures
        scalar_sum(m + k, f) == scalar_sum(m, f).plus_spec(scalar_sum(k, |b: int| f(m + b))),
    decreases k,
{
    let tail = |b: int| f(m + b);
    let start = scalar_sum(m, f);
    if k == 0 {
        assert(start.plus_spec(T::zero_spec()) == start);
    } else {
        lemma_sum_split(m, k - 1, f);
        assert(tail(k - 1) == f(m + k - 1));
        let middle = scalar_sum(k - 1, tail);
        assert(start.plus_spec(middle).plus_spec(tail(k - 1)) == start.plus_spec(
            middle.plus_spec(tail(k - 1)),
        ));
    }
}

proof fn lemma_sum_rows<T: Scalar>(h: int, w: int, f: spec_fn(int) -> T)
    requires
        exact_addition::<T>(),
        0 <= h,
        0 <= w,
    ensures
        scalar_sum(h * w, f) == scalar_sum(h, |a: int| scalar_sum(w, |b: int| f(a * w + b))),
    decreases h,
{
    let rows = |a: int| scalar_sum(w, |b: int| f(a * w + b));
    if h > 0 {
        lemma_sum_rows(h - 1, w, f);
        assert(h * w == (h - 1) * w + w && (h - 1) * w >= 0) by (nonlinear_arith)
            requires
                h > 0,
                w >= 0,
        ;
        lemma_sum_split((h - 1) * w, w, f);
        let a = h - 1;
        let m = a * w;
        let tail = |b: int| f(m + b);
        let row = |b: int| f(a * w + b);
        scalar_sum_same(w, tail, row);
        assert(rows(a) == scalar_sum(w, row));
    } else {
        assert(h * w == 0) by (nonlinear_arith)
            requires
                h == 0,
        ;
    }
}

/// A symmetric block adds the same to a place and to the opposite place.
proof fn lemma_block_symmetric<T: Scalar>(dofs: Seq<usize>, values: Seq<T>, r: int, c: int)
    requires
        exact_addition::<T>(),
        only_zero_is_zero::<T>(),
        values.len() == dofs.len() * dofs.len(),
        forall|a: int, b: int|
            0 <= a < dofs.len() && 0 <= b < dofs.len() ==> #[trigger] values[a * dofs.len() + b]
                == values[b * dofs.len() + a],
    ensures
        ({
            let block = block_triplets(dofs, dofs, values, values.len() as int);
            value_at(block, r, c) == value_at(block, c, r)
        }),
{
    let w = dofs.len() as int;
    let n = values.len() as int;
    let f = part(dofs, values, r, c);
    let g = part(dofs, values, c, r);
    lemma_block_value(dofs, values, r, c, n);
    lemma_block_value(dofs, values, c, r, n);
    lemma_sum_rows(w, w, f);
    lemma_sum_rows(w, w, g);
    let f2 = |a: int, b: int| f(a * w + b);
    let g2 = |a: int, b: int| g(a * w + b);
    let f_rows = |a: int| scalar_sum(w, |b: int| f(a * w + b));
    let g_rows = |a: int| scalar_sum(w, |b: int| g(a * w + b));
    let f_rows2 = |a: int| scalar_sum(w, |b: int| f2(a, b));
    let g_cols = |b: int| scalar_sum(w, |a: int| g2(a, b));
    let g_rows2 = |a: int| scalar_sum(w, |b: int| g2(a, b));
    assert forall|a: int| 0 <= a < w implies #[trigger] f_rows(a) == f_rows2(a) by {
        scalar_sum_same(w, |b: int| f(a * w + b), |b: int| f2(a, b));
    }
    assert forall|a: int| 0 <= a < w implies #[trigger] g_rows(a) == g_rows2(a) by {
        scalar_sum_same(w, |b: int| g(a * w + b), |b: int| g2(a, b));
    }
    scalar_sum_same(w, f_rows, f_rows2);
    scalar_sum_same(w, g_rows, g_rows2);
    scalar_sum_swap(w, w, g2);
    assert forall|a: int| 0 <= a < w implies #[trigger] f_rows2(a) == g_cols(a) by {
        let x = |b: int| f2(a, b);
        let y = |b: int| g2(b, a);
        assert forall|b: int| 0 <= b < w implies #[trigger] x(b) == y(b) by {
            vstd::arithmetic::div_mod::lemma_fundamental_div_mod_converse(a * w + b, w, a, b);
            vstd::arithmetic::div_mod::lemma_fundamental_div_mod_converse(b * w + a, w, b, a);
            assert(values[a * dofs.len() + b] == values[b * dofs.len() + a]);
        }
        scalar_sum_same(w, x, y);
    }
    scalar_sum_same(w, f_rows2, g_cols);
}

/// The values of a symmetric matrix, row by row.
proof fn lemma_listed_symmetric<T: Scalar>(m: DenseMatrix<T>)
    requires
        m.wf(),
        m.rows() == m.cols(),
        symmetric(m),
    ensures
        m.listed().len() == m.rows() * m.rows(),
        forall|a: int, b: int|
            0 <= a < m.rows() && 0 <= b < m.rows() ==> #[trigger] m.listed()[a * m.rows() + b]
                == m.listed()[b * m.rows() + a],
{
    m.listed_at();
    assert forall|a: int, b: int| 0 <= a < m.rows() && 0 <= b < m.rows() implies
        #[trigger] m.listed()[a * m.rows() + b] == m.listed()[b * m.rows() + a] by {
        assert(m.at(a, b) == m.at(b, a));
    }
}

/// The projected inverse of symmetric blocks is symmetric, where the order of summands does not
/// matter.
pub proof fn projected_inverse_is_symmetric<T: Scalar>(
    vertex_dofs: Seq<Vec<usize>>,
    blocks: Seq<DenseMatrix<T>>,
    ndofs: int,
    slots: int,
    n: int,
    r: int,
    c: int,
)
    requires
        exact_addition::<T>(),
        only_zero_is_zero::<T>(),
        blocks_match(vertex_dofs, blocks, ndofs),
        forall|v: int| 0 <= v < blocks.len() ==> symmetric(#[trigger] blocks[v]),
        n <= blocks.len(),
    ensures
        value_at(projected_entries(vertex_dofs, blocks, slots, n), r, c) == value_at(
            projected_entries(vertex_dofs, blocks, slots, n),
            c,
            r,
        ),
    decreases n,
{
    if n > 0 {
        projected_inverse_is_symmetric(vertex_dofs, blocks, ndofs, slots, n - 1, r, c);
        let before = projected_entries(vertex_dofs, blocks, slots, n - 1);
        let m = blocks[n - 1];
        let simplices = dof_simplices(vertex_dofs[n - 1]@, slots);
        let scale = slot_weight::<T>(slots as nat);
        let values = scaled_values(scale, m.listed());
        lemma_listed_symmetric(m);
        assert forall|a: int, b: int| 0 <= a < simplices.len() && 0 <= b < simplices.len() implies
            #[trigger] values[a * simplices.len() + b] == values[b * simplices.len() + a] by {
            let w = simplices.len() as int;
            assert(m.listed()[a * m.rows() + b] == m.listed()[b * m.rows() + a]);
            assert(0 <= a * w + b < w * w && 0 <= b * w + a < w * w) by (nonlinear_arith)
                requires
                    0 <= a < w,
                    0 <= b < w,
            ;
        }
        lemma_block_symmetric(simplices, values, r, c);
        let block = block_triplets(simplices, simplices, values, values.len() as int);
        lemma_value_concat(before, block, r, c);
        lemma_value_concat(before, block, c, r);
    }
}

/// The inverse mass assembled from the blocks around the vertices is symmetric, where the order
/// of summands does not matter.
pub proof fn barycentric_dual_inverse_is_symmetric<T: Scalar>(
    topology: Complex,
    coords: MeshCoords<T>,
    volumes: Seq<T>,
    grade: nat,
    config: BarycentricDualSparseInverseConfig<T>,
    n: int,
    r: int,
    c: int,
)
    requires
        exact_addition::<T>(),
        only_zero_is_zero::<T>(),
    ensures
        value_at(local_entries(topology, coords, volumes, grade, config, n), r, c) == value_at(
            local_entries(topology, coords, volumes, grade, config, n),
            c,
            r,
        ),
    decreases n,
{
    if n > 0 {
        barycentric_dual_inverse_is_symmetric(
            topology,
            coords,
            volumes,
            grade,
            config,
            n - 1,
            r,
            c,
        );
        let before = local_entries(topology, coords, volumes, grade, config, n - 1);
        let vertex = (n - 1) as usize;
        let around = simplices_around(topology, grade as int, vertex);
        let dofs = Seq::new(around.len(), |i: int| around[i] as usize);
        let w = dofs.len() as int;
        let g = geometry_of(topology, coords, volumes, vertex, grade);
        let factor = config.stabilization_factor;
        let values = block_values(g, factor, around.len());
        assert forall|a: int, b: int| 0 <= a < dofs.len() && 0 <= b < dofs.len() implies
            #[trigger] values[a * dofs.len() + b] == values[b * dofs.len() + a] by {
            assert(0 <= a * w + b < w * w && 0 <= b * w + a < w * w) by (nonlinear_arith)
                requires
                    0 <= a < w,
                    0 <= b < w,
            ;
            vstd::arithmetic::div_mod::lemma_fundamental_div_mod_converse(a * w + b, w, a, b);
            vstd::arithmetic::div_mod::lemma_fundamental_div_mod_converse(b * w + a, w, b, a);
            inverse_block_symmetric(g.primal, g.dual, g.volume, factor, a, b);
        }
        lemma_block_symmetric(dofs, values, r, c);
        let block = block_triplets(dofs, dofs, values, values.len() as int);
        lemma_value_concat(before, block, r, c);
        lemma_value_concat(before, block, c, r);
    }
}

} // verus!
