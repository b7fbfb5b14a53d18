//! What element matrices at the places of their dofs make of vectors.

use crate::assemble::barycentric_dual::{
    gram, inverse_block_at, simplices_around, BarycentricDualSparseInverseConfig,
};
use crate::assemble::barycentric_inverse::{block_values, geometry_of, vertex_entries};
use crate::assemble::galerkin::block_triplets;
use crate::assemble::reconstruction_law::{
    divides_exactly, reconstructs, stabilization_keeps_reconstruction,
};
use crate::assemble::symmetry_law::only_zero_is_zero;
use crate::io::fields::MeshCoords;
use crate::linalg::algebra::row_dot;
use crate::linalg::dense::{determinant3, sum_products, sum_products_same};
use crate::linalg::ring::{commutative_ring, ring_plus, ring_units};
use crate::linalg::scalar::Scalar;
use crate::topology::complex::Complex;
use vstd::prelude::*;

verus! {

/// A row of an element matrix with the local values of a vector.
pub open spec fn local_row<T: Scalar>(
    elmat: Seq<T>,
    cols: Seq<usize>,
    x: Seq<T>,
    i: int,
    n: int,
) -> T {
    sum_products(
        |j: int| elmat[i * cols.len() + j],
        |j: int| x[cols[j] as int],
        n,
    )
}

proof fn lemma_part_of_row<T: Scalar>(
    rows: Seq<usize>,
    cols: Seq<usize>,
    elmat: Seq<T>,
    x: Seq<T>,
    m: int,
    k: int,
    r: int,
)
    requires
        commutative_ring::<T>(),
        only_zero_is_zero::<T>(),
        0 <= m < rows.len(),
        0 <= k <= cols.len(),
    ensures
        row_dot(block_triplets(rows, cols, elmat, m * cols.len() + k), x, r) == (if rows[m] == r {
            row_dot(block_triplets(rows, cols, elmat, m * cols.len()), x, r).plus_spec(
                local_row(elmat, cols, x, m, k),
            )
        } else {
            row_dot(block_triplets(rows, cols, elmat, m * cols.len()), x, r)
        }),
    decreases k,
{
    let c = cols.len() as int;
    let start = row_dot(block_triplets(rows, cols, elmat, m * c), x, r);
    if k == 0 {
        ring_plus(start, start, start);
    } else {
        lemma_part_of_row(rows, cols, elmat, x, m, k - 1, r);
        let p = m * c + k - 1;
        assert(m * c >= 0) by (nonlinear_arith)
            requires
                m >= 0,
                c >= 0,
        ;
        vstd::arithmetic::div_mod::lemma_fundamental_div_mod_converse(p, c, m, k - 1);
        let before = block_triplets(rows, cols, elmat, p);
        let (v, at) = (elmat[p], x[cols[k - 1] as int]);
        let term = v.times_spec(at);
        ring_plus(start, local_row(elmat, cols, x, m, k - 1), term);
        if v.is_zero_spec() {
            assert(v == T::zero_spec());
            ring_units(at);
            let sum = start.plus_spec(local_row(elmat, cols, x, m, k - 1));
            ring_plus(sum, sum, sum);
        } else {
            let all = block_triplets(rows, cols, elmat, p + 1);
            assert(all.drop_last() =~= before);
            assert(all.last() == (rows[m], cols[k - 1], v));
        }
    }
}

proof fn lemma_rows_of_block<T: Scalar>(
    rows: Seq<usize>,
    cols: Seq<usize>,
    elmat: Seq<T>,
    x: Seq<T>,
    m: int,
    i: int,
)
    requires
        commutative_ring::<T>(),
        only_zero_is_zero::<T>(),
        rows.no_duplicates(),
        0 <= m <= rows.len(),
        0 <= i < rows.len(),
    ensures
        row_dot(block_triplets(rows, cols, elmat, m * cols.len()), x, rows[i] as int) == (if i < m {
            local_row(elmat, cols, x, i, cols.len() as int)
        } else {
            T::zero_spec()
        }),
    decreases m,
{
    let c = cols.len() as int;
    if m == 0 {
        assert(m * c == 0) by (nonlinear_arith)
            requires
                m == 0,
        ;
    } else {
        lemma_rows_of_block(rows, cols, elmat, x, m - 1, i);
        lemma_part_of_row(rows, cols, elmat, x, m - 1, c, rows[i] as int);
        assert(m * c == (m - 1) * c + c) by (nonlinear_arith);
        let value = local_row(elmat, cols, x, i, c);
        ring_plus(value, value, value);
    }
}

/// An element matrix at the places of its dofs, each dof once, acts on the local values of a
/// vector: the row of a dof is the row of the element matrix.
pub proof fn scattered_block_acts_on_local_values<T: Scalar>(
    rows: Seq<usize>,
    cols: Seq<usize>,
    elmat: Seq<T>,
    x: Seq<T>,
    i: int,
)
    requires
        commutative_ring::<T>(),
        only_zero_is_zero::<T>(),
        rows.no_duplicates(),
        elmat.len() == rows.len() * cols.len(),
        0 <= i < rows.len(),
    ensures
        row_dot(block_triplets(rows, cols, elmat, elmat.len() as int), x, rows[i] as int)
            == sum_products(
            |j: int| elmat[i * cols.len() + j],
            |j: int| x[cols[j] as int],
            cols.len() as int,
        ),
{
    lemma_rows_of_block(rows, cols, elmat, x, rows.len() as int, i);
}

/// The block of a vertex maps dual to primal vectors in the mesh: on values that are a component
/// of the dual vectors on the simplices around the vertex, it has that component of the primal
/// vectors there, where the reconstruction is exact and the dual vectors span space.
pub proof fn vertex_block_maps_dual_to_primal<T: Scalar>(
    topology: Complex,
    coords: MeshCoords<T>,
    volumes: Seq<T>,
    vertex: usize,
    grade: nat,
    config: BarycentricDualSparseInverseConfig<T>,
    x: Seq<T>,
    i: int,
    a: int,
)
    requires
        commutative_ring::<T>(),
        only_zero_is_zero::<T>(),
        divides_exactly(T::from_count_spec(2)),
        ({
            let around = simplices_around(topology, grade as int, vertex);
            let geometry = geometry_of(topology, coords, volumes, vertex, grade);
            &&& divides_exactly(geometry.volume)
            &&& reconstructs(geometry.primal, geometry.dual, geometry.volume)
            &&& divides_exactly(determinant3(gram(geometry.dual)))
            &&& geometry.primal.rows() == around.len()
            &&& geometry.dual.rows() == around.len()
            &&& Seq::new(around.len(), |j: int| around[j] as usize).no_duplicates()
            &&& 0 <= i < around.len()
            &&& forall|j: int|
                0 <= j < around.len() ==> #[trigger] x[(around[j] as usize) as int]
                    == geometry.dual.at(j, a)
        }),
        0 <= a < 3,
    ensures
        row_dot(
            vertex_entries(topology, coords, volumes, vertex, grade, config),
            x,
            (simplices_around(topology, grade as int, vertex)[i] as usize) as int,
        ) == geometry_of(topology, coords, volumes, vertex, grade).primal.at(i, a),
{
    let around = simplices_around(topology, grade as int, vertex);
    let geometry = geometry_of(topology, coords, volumes, vertex, grade);
    let n = around.len();
    let factor = config.stabilization_factor;
    let dofs = Seq::new(n, |j: int| around[j] as usize);
    let values = block_values(geometry, factor, n);
    scattered_block_acts_on_local_values(dofs, dofs, values, x, i);
    stabilization_keeps_reconstruction(
        geometry.primal,
        geometry.dual,
        geometry.volume,
        factor,
        i,
        a,
    );
    let (row, block) = (
        |j: int| values[i * n + j],
        |j: int|
            inverse_block_at(geometry.primal, geometry.dual, geometry.volume, factor, i, j),
    );
    let (given, dual) = (|j: int| x[dofs[j] as int], |j: int| geometry.dual.at(j, a));
    assert forall|j: int| 0 <= j < n implies #[trigger] row(j) == block(j) by {
        let p = i * n + j;
        vstd::arithmetic::div_mod::lemma_fundamental_div_mod_converse(p, n as int, i, j);
        assert(0 <= p < n * n) by (nonlinear_arith)
            requires
                p == i * n + j,
                0 <= j < n,
                0 <= i < n,
        ;
    }
    sum_products_same(row, given, block, dual, n as int);
}

} // verus!
