//! Blocks around the vertices: the inverses of the blocks of a matrix make up its inverse.

use crate::assemble::galerkin::block_triplets;
use crate::assemble::nonconforming::{
    attached, attached_members, attached_place, blocks_entries, blocks_match, is_vertex_block,
    place_total,
};
use crate::assemble::symmetry_law::only_zero_is_zero;
use crate::linalg::dense::{sum_products, DenseMatrix};
use crate::linalg::ring::{
    commutative_ring, ring_plus, ring_units, scalar_sum,
};
use crate::linalg::scalar::Scalar;
use vstd::prelude::*;

verus! {

/// Each dof belongs to a vertex, and each list holds the dofs of a vertex.
pub open spec fn lists_vertices(
    vertex_dofs: Seq<Vec<usize>>,
    vertices: Seq<usize>,
) -> bool {
    &&& vertices.len() <= usize::MAX
    &&& forall|d: int| 0 <= d < vertices.len() ==> (#[trigger] vertices[d]) < vertex_dofs.len()
    &&& forall|v: int|
        0 <= v < vertex_dofs.len() ==> (#[trigger] vertex_dofs[v])@ == attached(
            vertices,
            v,
            vertices.len() as int,
        )
}

/// The place of a dof among those of its vertex.
pub open spec fn local_place(vertices: Seq<usize>, d: int) -> int {
    attached(vertices, vertices[d] as int, d).len() as int
}

/// What the blocks say of a place: nothing between dofs of different vertices.
pub open spec fn block_value<T: Scalar>(
    blocks: Seq<DenseMatrix<T>>,
    vertices: Seq<usize>,
    r: int,
    c: int,
) -> T {
    if vertices[r] == vertices[c] {
        blocks[vertices[r] as int].at(local_place(vertices, r), local_place(vertices, c))
    } else {
        T::zero_spec()
    }
}

/// The product of two blocks is the unit matrix.
pub open spec fn are_inverse<T: Scalar>(block: DenseMatrix<T>, inverse: DenseMatrix<T>) -> bool {
    forall|i: int, j: int|
        0 <= i < block.rows() && 0 <= j < block.rows() ==> #[trigger] block_product(
            block,
            inverse,
            i,
            j,
            block.rows() as int,
        ) == (if i == j {
            T::one_spec()
        } else {
            T::zero_spec()
        })
}

/// The first `n` terms of an entry of the product of two blocks.
pub open spec fn block_product<T: Scalar>(
    block: DenseMatrix<T>,
    inverse: DenseMatrix<T>,
    i: int,
    j: int,
    n: int,
) -> T {
    sum_products(|k: int| block.at(i, k), |k: int| inverse.at(k, j), n)
}

proof fn lemma_total_concat<T: Scalar>(
    a: Seq<(usize, usize, T)>,
    b: Seq<(usize, usize, T)>,
    r: int,
    c: int,
)
    requires
        commutative_ring::<T>(),
    ensures
        place_total(a + b, r, c) == place_total(a, r, c).plus_spec(place_total(b, r, c)),
    decreases b.len(),
{
    let left = place_total(a, r, c);
    if b.len() == 0 {
        assert(a + b =~= a);
        ring_plus(left, left, left);
    } else {
        let front = b.drop_last();
        assert((a + b).drop_last() =~= a + front);
        assert((a + b).last() == b.last());
        lemma_total_concat(a, front, r, c);
        ring_plus(left, place_total(front, r, c), b.last().2);
    }
}

proof fn lemma_split(i: int, j: int, w: int, p: int)
    requires
        0 <= j < w,
        p == i * w + j,
    ensures
        p / w == i,
        p % w == j,
{
    vstd::arithmetic::div_mod::lemma_fundamental_div_mod_converse(p, w, i, j);
}

/// A block with distinct dofs has its value at a place of two of them.
proof fn lemma_inside_block<T: Scalar>(dofs: Seq<usize>, values: Seq<T>, a: int, b: int, n: int)
    requires
        commutative_ring::<T>(),
        only_zero_is_zero::<T>(),
        dofs.no_duplicates(),
        values.len() == dofs.len() * dofs.len(),
        0 <= n <= values.len(),
        0 <= a < dofs.len(),
        0 <= b < dofs.len(),
    ensures
        place_total(block_triplets(dofs, dofs, values, n), dofs[a] as int, dofs[b] as int) == (
        if a * dofs.len() + b < n {
            values[a * dofs.len() + b]
        } else {
            T::zero_spec()
        }),
    decreases n,
{
    let w = dofs.len() as int;
    if n > 0 {
        lemma_inside_block(dofs, values, a, b, n - 1);
        let before = block_triplets(dofs, dofs, values, n - 1);
        let all = block_triplets(dofs, dofs, values, n);
        let v = values[n - 1];
        let i = (n - 1) / w;
        let j = (n - 1) % w;
        vstd::arithmetic::div_mod::lemma_fundamental_div_mod(n - 1, w);
        assert(n - 1 == i * w + j) by (nonlinear_arith)
            requires
                n - 1 == w * i + j,
        ;
        assert(0 <= i < w) by (nonlinear_arith)
            requires
                n - 1 == i * w + j,
                0 <= j < w,
                0 <= n - 1 < w * w,
        ;
        ring_plus(v, v, v);
        if !v.is_zero_spec() {
            assert(all.drop_last() =~= before);
            assert(all.last() == (dofs[i], dofs[j], v));
        }
        if i == a && j == b {
            assert(a * w + b == n - 1);
        } else {
            assert(a * w + b != n - 1) by {
                if a * w + b == n - 1 {
                    lemma_split(a, b, w, n - 1);
                }
            }
            if dofs[i] == dofs[a] && dofs[j] == dofs[b] {
                assert(i == a && j == b);
            }
        }
    } else {
        assert(a * w + b >= 0) by (nonlinear_arith)
            requires
                a >= 0,
                b >= 0,
                w >= 0,
        ;
    }
}

/// A block has nothing outside the places of its dofs.
proof fn lemma_outside_block<T: Scalar>(dofs: Seq<usize>, values: Seq<T>, r: int, c: int, n: int)
    requires
        values.len() == dofs.len() * dofs.len(),
        0 <= n <= values.len(),
        forall|k: int| 0 <= k < dofs.len() ==> #[trigger] dofs[k] != r,
    ensures
        place_total(block_triplets(dofs, dofs, values, n), r, c) == T::zero_spec(),
        place_total(block_triplets(dofs, dofs, values, n), c, r) == T::zero_spec(),
    decreases n,
{
    let w = dofs.len() as int;
    if n > 0 {
        lemma_outside_block(dofs, values, r, c, n - 1);
        let before = block_triplets(dofs, dofs, values, n - 1);
        let all = block_triplets(dofs, dofs, values, n);
        let i = (n - 1) / w;
        let j = (n - 1) % w;
        assert(w > 0) by (nonlinear_arith)
            requires
                0 < n <= w * w,
                w >= 0,
        ;
        vstd::arithmetic::div_mod::lemma_fundamental_div_mod(n - 1, w);
        assert(0 <= i < w) by (nonlinear_arith)
            requires
                n - 1 == w * i + j,
                0 <= j < w,
                0 <= n - 1 < w * w,
        ;
        assert(dofs[i] != r && dofs[j] != r);
        if !values[n - 1].is_zero_spec() {
            assert(all.drop_last() =~= before);
        }
    }
}

/// The matrix of blocks around the vertices has at a place of two dofs of a vertex what the block
/// of the vertex has there, and nothing between dofs of different vertices, over coefficients that
/// compute exactly.
pub proof fn blocks_stand_at_their_dofs<T: Scalar>(
    vertex_dofs: Seq<Vec<usize>>,
    blocks: Seq<DenseMatrix<T>>,
    vertices: Seq<usize>,
    n: int,
    r: int,
    c: int,
)
    requires
        commutative_ring::<T>(),
        only_zero_is_zero::<T>(),
        lists_vertices(vertex_dofs, vertices),
        blocks_match(vertex_dofs, blocks, vertices.len() as int),
        0 <= n <= blocks.len(),
        0 <= r < vertices.len(),
        0 <= c < vertices.len(),
    ensures
        place_total(blocks_entries(vertex_dofs, blocks, n), r, c) == (if vertices[r] < n {
            block_value(blocks, vertices, r, c)
        } else {
            T::zero_spec()
        }),
    decreases n,
{
    if n > 0 {
        blocks_stand_at_their_dofs(vertex_dofs, blocks, vertices, n - 1, r, c);
        let v = n - 1;
        let ndofs = vertices.len() as int;
        let dofs = vertex_dofs[v]@;
        let block = blocks[v];
        let values = block.listed();
        let before = blocks_entries(vertex_dofs, blocks, v);
        let added = block_triplets(dofs, dofs, values, values.len() as int);
        block.listed_at();
        attached_members(vertices, v, ndofs);
        lemma_total_concat(before, added, r, c);
        let t = place_total(before, r, c);
        ring_plus(t, t, t);
        let x = place_total(added, r, c);
        ring_plus(x, x, x);
        if vertices[r] == v && vertices[c] == v {
            attached_place(vertices, r, ndofs);
            attached_place(vertices, c, ndofs);
            let a = local_place(vertices, r);
            let b = local_place(vertices, c);
            let w = dofs.len() as int;
            lemma_inside_block(dofs, values, a, b, values.len() as int);
            assert(a * w + b < w * w) by (nonlinear_arith)
                requires
                    0 <= a < w,
                    0 <= b < w,
            ;
            assert(values[a * w + b] == block.at(a, b));
        } else if vertices[r] != v {
            lemma_outside_block(dofs, values, r, c, values.len() as int);
        } else {
            lemma_outside_block(dofs, values, c, r, values.len() as int);
        }
    }
}

/// A sum over all dofs that only those of a vertex contribute to.
proof fn lemma_sum_at_vertex<T: Scalar>(
    vertices: Seq<usize>,
    v: int,
    f: spec_fn(int) -> T,
    x: spec_fn(int) -> T,
    y: spec_fn(int) -> T,
    n: int,
)
    requires
        commutative_ring::<T>(),
        0 <= n <= vertices.len(),
        vertices.len() <= usize::MAX,
        forall|d: int|
            0 <= d < n ==> #[trigger] f(d) == (if vertices[d] == v {
                x(local_place(vertices, d)).times_spec(y(local_place(vertices, d)))
            } else {
                T::zero_spec()
            }),
    ensures
        scalar_sum(n, f) == sum_products(x, y, attached(vertices, v, n).len() as int),
    decreases n,
{
    if n > 0 {
        lemma_sum_at_vertex(vertices, v, f, x, y, n - 1);
        assert(f(n - 1) == (if vertices[n - 1] == v {
            x(local_place(vertices, n - 1)).times_spec(y(local_place(vertices, n - 1)))
        } else {
            T::zero_spec()
        }));
        let before = scalar_sum(n - 1, f);
        ring_plus(before, before, before);
    }
}

/// The product of two matrices at a place, both given by their entries.
pub open spec fn product_total<T: Scalar>(
    left: Seq<(usize, usize, T)>,
    right: Seq<(usize, usize, T)>,
    ndofs: int,
    r: int,
    c: int,
) -> T {
    scalar_sum(
        ndofs,
        |d: int| place_total(left, r, d).times_spec(place_total(right, d, c)),
    )
}

/// The inverse of a lumped mass: where a matrix couples only dofs of the same vertex, and the
/// given blocks are inverse to its blocks around the vertices, the matrix of the given blocks is
/// inverse to it, over coefficients that compute exactly.
pub proof fn inverse_blocks_invert<T: Scalar>(
    lumped: Seq<(usize, usize, T)>,
    blocks: Seq<DenseMatrix<T>>,
    inverses: Seq<DenseMatrix<T>>,
    vertex_dofs: Seq<Vec<usize>>,
    vertices: Seq<usize>,
    r: int,
    c: int,
)
    requires
        commutative_ring::<T>(),
        only_zero_is_zero::<T>(),
        lists_vertices(vertex_dofs, vertices),
        blocks_match(vertex_dofs, inverses, vertices.len() as int),
        blocks.len() == inverses.len(),
        forall|v: int|
            0 <= v < blocks.len() ==> is_vertex_block(
                #[trigger] blocks[v],
                lumped,
                vertex_dofs[v]@,
            ),
        forall|v: int| 0 <= v < blocks.len() ==> are_inverse(#[trigger] blocks[v], inverses[v]),
        forall|i: int, j: int|
            0 <= i < vertices.len() && 0 <= j < vertices.len() && vertices[i] != vertices[j]
                ==> #[trigger] place_total(lumped, i, j) == T::zero_spec(),
        0 <= r < vertices.len(),
        0 <= c < vertices.len(),
    ensures
        product_total(
            lumped,
            blocks_entries(vertex_dofs, inverses, inverses.len() as int),
            vertices.len() as int,
            r,
            c,
        ) == (if r == c {
            T::one_spec()
        } else {
            T::zero_spec()
        }),
{
    let ndofs = vertices.len() as int;
    let inverse = blocks_entries(vertex_dofs, inverses, inverses.len() as int);
    let f = |d: int| place_total(lumped, r, d).times_spec(place_total(inverse, d, c));
    let v = vertices[r] as int;
    if vertices[r] == vertices[c] {
        let a = local_place(vertices, r);
        let b = local_place(vertices, c);
        let dofs = vertex_dofs[v]@;
        let x = |k: int| blocks[v].at(a, k);
        let y = |k: int| inverses[v].at(k, b);
        attached_members(vertices, v, ndofs);
        attached_place(vertices, r, ndofs);
        attached_place(vertices, c, ndofs);
        assert forall|d: int| 0 <= d < ndofs implies #[trigger] f(d) == (if vertices[d] == v {
            x(local_place(vertices, d)).times_spec(y(local_place(vertices, d)))
        } else {
            T::zero_spec()
        }) by {
            blocks_stand_at_their_dofs(vertex_dofs, inverses, vertices, inverses.len() as int, d, c);
            if vertices[d] == v {
                attached_place(vertices, d, ndofs);
                let k = local_place(vertices, d);
                assert(dofs[a] == r && dofs[k] == d);
                assert(is_vertex_block(blocks[v], lumped, dofs));
                assert(blocks[v].at(a, k) == place_total(lumped, r, d));
            } else {
                assert(place_total(lumped, r, d) == T::zero_spec());
                ring_units(place_total(inverse, d, c));
            }
        }
        lemma_sum_at_vertex(vertices, v, f, x, y, ndofs);
        assert(is_vertex_block(blocks[v], lumped, dofs));
        assert(are_inverse(blocks[v], inverses[v]));
        assert(block_product(blocks[v], inverses[v], a, b, dofs.len() as int) == sum_products(
            x,
            y,
            dofs.len() as int,
        ));
        assert(dofs[a] == r && dofs[b] == c);
    } else {
        assert forall|d: int| 0 <= d < ndofs implies #[trigger] f(d) == T::zero_spec() by {
            blocks_stand_at_their_dofs(vertex_dofs, inverses, vertices, inverses.len() as int, d, c);
            if vertices[d] == v {
                ring_units(place_total(lumped, r, d));
            } else {
                assert(place_total(lumped, r, d) == T::zero_spec());
                ring_units(place_total(inverse, d, c));
            }
        }
        ring_plus(T::zero_spec(), T::zero_spec(), T::zero_spec());
        lemma_zero_sum(ndofs, f);
    }
}

proof fn lemma_zero_sum<T: Scalar>(n: int, f: spec_fn(int) -> T)
    requires
        commutative_ring::<T>(),
        forall|d: int| 0 <= d < n ==> #[trigger] f(d) == T::zero_spec(),
    ensures
        scalar_sum(n, f) == T::zero_spec(),
    decreases n,
{
    if n > 0 {
        lemma_zero_sum(n - 1, f);
        assert(f(n - 1) == T::zero_spec());
        ring_plus(T::zero_spec(), T::zero_spec(), T::zero_spec());
    }
}

} // verus!
