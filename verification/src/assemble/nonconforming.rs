//! Nonconforming forms: each simplex of a grade has one dof for each of its vertices.

use crate::assemble::galerkin::{block_triplets, subsimplex_count};
use crate::assemble::galerkin::{push_block, GalMat};
use crate::linalg::algebra::{magnitude_spec, product_terms, reciprocal_spec, row_times};
use crate::linalg::algebra::{magnitude, reciprocal, DIAGONAL_RESOLUTION};
use crate::linalg::dense::DenseMatrix;
use crate::linalg::scalar::Scalar;
use crate::linalg::sparse::CooMatrix;
use crate::text::decimal;
use crate::text::{owned, push_decimal};
use crate::topology::complex::Complex;
use crate::topology::handle::KSimplexIdx;
use crate::topology::simplex::{binomial, Dim};
use crate::topology::skeleton::uniform;
use vstd::prelude::*;
use vstd::string::*;

verus! {

/// The number of dofs of a grade.
pub open spec fn dof_count(topology: &Complex, grade: int) -> int {
    (grade + 1) * topology.simplices(grade).len()
}

/// A grade below the dimension, with no more dofs than can be counted.
pub open spec fn nc_supported(topology: &Complex, grade: int) -> bool {
    &&& topology.wf()
    &&& 0 <= grade < topology.dimension()
    &&& dof_count(topology, grade) <= usize::MAX
}

/// The number of dofs of a simplex.
pub fn nc_slots(grade: Dim) -> (slots: usize)
    requires
        grade < usize::MAX,
    ensures
        slots == grade + 1,
{
    grade + 1
}

/// The dof of a simplex in one of its slots.
pub fn nc_global_dof(simplex_kidx: KSimplexIdx, slot: usize, grade: Dim) -> (dof: usize)
    requires
        grade < usize::MAX,
        (grade + 1) * simplex_kidx + slot <= usize::MAX,
    ensures
        dof == (grade + 1) * simplex_kidx + slot,
{
    proof {
        assert(0 <= (grade + 1) * simplex_kidx) by (nonlinear_arith)
            requires
                0 <= grade,
                0 <= simplex_kidx,
        ;
    }
    nc_slots(grade) * simplex_kidx + slot
}

/// The number of dofs of a grade.
pub fn nc_ndofs(topology: &Complex, grade: Dim) -> (n: usize)
    requires
        nc_supported(topology, grade as int),
    ensures
        n == dof_count(topology, grade as int),
{
    proof {
        topology.machine_sized_levels(grade as int);
    }
    nc_slots(grade) * topology.nsimplices(grade)
}

proof fn lemma_dof_split(d: int, slots: int, n: int)
    requires
        slots > 0,
        0 <= d < slots * n,
    ensures
        0 <= d / slots < n,
        0 <= d % slots < slots,
        d == slots * (d / slots) + d % slots,
{
    vstd::arithmetic::div_mod::lemma_fundamental_div_mod(d, slots);
    vstd::arithmetic::div_mod::lemma_mod_bound(d, slots);
    assert(0 <= d / slots < n) by (nonlinear_arith)
        requires
            d == slots * (d / slots) + d % slots,
            0 <= d % slots < slots,
            0 <= d < slots * n,
    ;
}

proof fn lemma_dof_bound(k: int, slot: int, slots: int, n: int)
    requires
        0 <= k < n,
        0 <= slot < slots,
    ensures
        0 <= slots * k,
        slots * k + slot < slots * n,
{
    assert(0 <= slots * k && slots * k + slot < slots * n) by (nonlinear_arith)
        requires
            0 <= k < n,
            0 <= slot < slots,
    ;
}

/// The dofs of simplices, simplex by simplex.
pub open spec fn nc_dofs(simplices: Seq<usize>, grade: int) -> Seq<usize> {
    Seq::new(
        ((grade + 1) * simplices.len()) as nat,
        |i: int| ((grade + 1) * simplices[i / (grade + 1)] + i % (grade + 1)) as usize,
    )
}

fn nc_dofs_of(simplices: &[usize], grade: Dim, n: usize) -> (dofs: Vec<usize>)
    requires
        grade < usize::MAX,
        (grade + 1) * n <= usize::MAX,
        forall|i: int| 0 <= i < simplices@.len() ==> (#[trigger] simplices@[i]) < n,
    ensures
        dofs@ == nc_dofs(simplices@, grade as int),
        forall|i: int| 0 <= i < dofs@.len() ==> (#[trigger] dofs@[i]) < (grade + 1) * n,
{
    let slots: usize = nc_slots(grade);
    let mut dofs: Vec<usize> = Vec::new();
    let mut k: usize = 0;
    while k < simplices.len()
        invariant
            k <= simplices@.len(),
            slots == grade + 1,
            grade < usize::MAX,
            slots * n <= usize::MAX,
            forall|j: int| 0 <= j < simplices@.len() ==> (#[trigger] simplices@[j]) < n,
            dofs@.len() == slots * k,
            forall|j: int|
                0 <= j < dofs@.len() ==> (#[trigger] dofs@[j]) == slots * simplices@[j
                    / (slots as int)] + j % (slots as int) && dofs@[j] < slots * n,
        decreases simplices@.len() - k,
    {
        let mut slot: usize = 0;
        while slot < slots
            invariant
                slot <= slots,
                k < simplices@.len(),
                slots == grade + 1,
                grade < usize::MAX,
                slots * n <= usize::MAX,
                forall|j: int| 0 <= j < simplices@.len() ==> (#[trigger] simplices@[j]) < n,
                dofs@.len() == slots * k + slot,
                forall|j: int|
                    0 <= j < dofs@.len() ==> (#[trigger] dofs@[j]) == slots * simplices@[j
                        / (slots as int)] + j % (slots as int) && dofs@[j] < slots * n,
            decreases slots - slot,
        {
            proof {
                lemma_dof_bound(
                    simplices@[k as int] as int,
                    slot as int,
                    slots as int,
                    n as int,
                );
                assert(slots * k == k * slots) by (nonlinear_arith);
                vstd::arithmetic::div_mod::lemma_fundamental_div_mod_converse(
                    slots * k + slot,
                    slots as int,
                    k as int,
                    slot as int,
                );
            }
            dofs.push(nc_global_dof(simplices[k], slot, grade));
            slot = slot + 1;
        }
        proof {
            assert(slots * k + slots == slots * (k + 1)) by (nonlinear_arith);
        }
        k = k + 1;
    }
    proof {
        assert(dofs@ =~= nc_dofs(simplices@, grade as int));
    }
    dofs
}

/// The entries of the nonconforming Galerkin matrix of the first `n` cells.
pub open spec fn nc_galmat_entries<T: Scalar>(
    topology: &Complex,
    grade: int,
    elmats: Seq<Vec<T>>,
    n: int,
) -> Seq<(usize, usize, T)>
    decreases n,
{
    if n <= 0 {
        Seq::empty()
    } else {
        let dofs = nc_dofs(topology.subsimplices(topology.dimension(), n - 1, grade), grade);
        nc_galmat_entries(topology, grade, elmats, n - 1) + block_triplets(
            dofs,
            dofs,
            elmats[n - 1]@,
            elmats[n - 1]@.len() as int,
        )
    }
}

/// The number of dofs of a cell.
pub open spec fn cell_dof_count(topology: &Complex, grade: int) -> int {
    (grade + 1) * binomial((topology.dimension() + 1) as nat, (grade + 1) as nat)
}

/// Assembles a nonconforming Galerkin matrix from one element matrix per cell. An element
/// matrix lists, row by row, one value for each pair of dofs of the cell.
pub fn assemble_nc_galmat<T: Scalar>(topology: &Complex, grade: Dim, elmats: &Vec<Vec<T>>) -> (
    galmat: GalMat<T>)
    requires
        nc_supported(topology, grade as int),
        elmats@.len() == topology.simplices(topology.dimension()).len(),
        forall|i: int|
            0 <= i < elmats@.len() ==> (#[trigger] elmats@[i])@.len() == cell_dof_count(
                topology,
                grade as int,
            ) * cell_dof_count(topology, grade as int),
    ensures
        galmat.wf(),
        galmat.rows() == dof_count(topology, grade as int),
        galmat.cols() == dof_count(topology, grade as int),
        galmat.entries() == nc_galmat_entries(
            topology,
            grade as int,
            elmats@,
            elmats@.len() as int,
        ),
{
    let dim: Dim = topology.dim();
    let ndofs: usize = nc_ndofs(topology, grade);
    let nsimps: usize = topology.nsimplices(grade);
    let mut galmat: CooMatrix<T> = CooMatrix::zeros(ndofs, ndofs);
    let mut cell: usize = 0;
    while cell < elmats.len()
        invariant
            cell <= elmats@.len(),
            nc_supported(topology, grade as int),
            dim == topology.dimension(),
            ndofs == dof_count(topology, grade as int),
            nsimps == topology.simplices(grade as int).len(),
            elmats@.len() == topology.simplices(dim as int).len(),
            forall|i: int|
                0 <= i < elmats@.len() ==> (#[trigger] elmats@[i])@.len() == cell_dof_count(
                    topology,
                    grade as int,
                ) * cell_dof_count(topology, grade as int),
            galmat.wf(),
            galmat.rows() == ndofs,
            galmat.cols() == ndofs,
            galmat.entries() == nc_galmat_entries(topology, grade as int, elmats@, cell as int),
        decreases elmats@.len() - cell,
    {
        let subs = topology.subsimplex_indices(dim, cell, grade);
        proof {
            subsimplex_count(topology, cell as int, grade as int);
        }
        let dofs = nc_dofs_of(subs.as_slice(), grade, nsimps);
        proof {
            assert(elmats@[cell as int]@.len() == dofs@.len() * dofs@.len());
        }
        push_block(&mut galmat, dofs.as_slice(), dofs.as_slice(), elmats[cell].as_slice());
        cell = cell + 1;
    }
    galmat
}

/// The vertex of each dof.
pub open spec fn dof_vertices(topology: &Complex, grade: int) -> Seq<usize> {
    Seq::new(
        dof_count(topology, grade) as nat,
        |d: int| topology.simplices(grade)[d / (grade + 1)][d % (grade + 1)],
    )
}

/// Those of the first `n` dofs that belong to a vertex.
pub open spec fn attached(vertices: Seq<usize>, v: int, n: int) -> Seq<usize>
    decreases n,
{
    if n <= 0 {
        Seq::empty()
    } else {
        let before = attached(vertices, v, n - 1);
        if vertices[n - 1] == v {
            before.push((n - 1) as usize)
        } else {
            before
        }
    }
}

/// The dofs of a vertex ascend, and they are those whose vertex it is.
pub proof fn attached_members(vertices: Seq<usize>, v: int, n: int)
    requires
        0 <= n <= vertices.len(),
        n <= usize::MAX + 1,
    ensures
        attached(vertices, v, n).len() <= n,
        forall|i: int|
            0 <= i < attached(vertices, v, n).len() ==> (#[trigger] attached(vertices, v, n)[i])
                < n && vertices[attached(vertices, v, n)[i] as int] == v,
        forall|i: int, j: int|
            0 <= i < j < attached(vertices, v, n).len() ==> (#[trigger] attached(
                vertices,
                v,
                n,
            )[i]) < (#[trigger] attached(vertices, v, n)[j]),
    decreases n,
{
    if n > 0 {
        attached_members(vertices, v, n - 1);
    }
}

/// A dof is found among those of its vertex behind the earlier dofs of that vertex.
pub proof fn attached_place(vertices: Seq<usize>, d: int, n: int)
    requires
        0 <= d < n <= vertices.len(),
        n <= usize::MAX + 1,
    ensures
        attached(vertices, vertices[d] as int, d).len() < attached(
            vertices,
            vertices[d] as int,
            n,
        ).len(),
        attached(vertices, vertices[d] as int, n)[attached(
            vertices,
            vertices[d] as int,
            d,
        ).len() as int] == d,
    decreases n,
{
    if d < n - 1 {
        attached_place(vertices, d, n - 1);
    }
}

/// The dofs of each vertex, in ascending order.
pub fn nc_vertex_dofs(topology: &Complex, grade: Dim) -> (vertex_dofs: Vec<Vec<usize>>)
    requires
        nc_supported(topology, grade as int),
    ensures
        vertex_dofs@.len() == topology.simplices(0).len(),
        forall|v: int|
            0 <= v < vertex_dofs@.len() ==> (#[trigger] vertex_dofs@[v])@ == attached(
                dof_vertices(topology, grade as int),
                v,
                dof_count(topology, grade as int),
            ),
{
    let ghost vertices = dof_vertices(topology, grade as int);
    proof {
        topology.machine_sized_levels(0);
    }
    let slots: usize = nc_slots(grade);
    let ndofs: usize = nc_ndofs(topology, grade);
    let nverts: usize = topology.nsimplices(0);
    let mut vertex_dofs: Vec<Vec<usize>> = Vec::new();
    let mut v: usize = 0;
    while v < nverts
        invariant
            v <= nverts,
            vertex_dofs@.len() == v,
            forall|w: int|
                0 <= w < v ==> (#[trigger] vertex_dofs@[w])@ == attached(vertices, w, 0),
        decreases nverts - v,
    {
        vertex_dofs.push(Vec::new());
        v = v + 1;
    }
    proof {
        topology.simplex_facts(grade as int);
    }
    let mut d: usize = 0;
    while d < ndofs
        invariant
            d <= ndofs,
            nc_supported(topology, grade as int),
            vertices == dof_vertices(topology, grade as int),
            slots == grade + 1,
            ndofs == dof_count(topology, grade as int),
            nverts == topology.simplices(0).len(),
            uniform(topology.simplices(grade as int), grade + 1, nverts as int),
            vertex_dofs@.len() == nverts,
            forall|w: int|
                0 <= w < nverts ==> (#[trigger] vertex_dofs@[w])@ == attached(
                    vertices,
                    w,
                    d as int,
                ),
        decreases ndofs - d,
    {
        proof {
            lemma_dof_split(
                d as int,
                slots as int,
                topology.simplices(grade as int).len() as int,
            );
            assert(topology.simplices(grade as int)[d as int / slots as int].len() == slots);
        }
        let simplex = topology.simplex_at(grade, d / slots);
        let vertex: usize = simplex.vertices[d % slots];
        let ghost before = vertex_dofs@;
        proof {
            assert(vertices[d as int] == vertex);
        }
        vertex_dofs[vertex].push(d);
        proof {
            assert forall|w: int| 0 <= w < nverts implies (#[trigger] vertex_dofs@[w])@ == attached(
                vertices,
                w,
                d + 1,
            ) by {
                assert(before[w]@ == attached(vertices, w, d as int));
                if w == vertex {
                    assert(vertex_dofs@[w]@ =~= before[w]@.push(d));
                }
            }
        }
        d = d + 1;
    }
    vertex_dofs
}

/// The sum of the values at a place, from zero.
pub open spec fn place_total<T: Scalar>(triplets: Seq<(usize, usize, T)>, r: int, c: int) -> T
    decreases triplets.len(),
{
    if triplets.len() == 0 {
        T::zero_spec()
    } else {
        let before = place_total(triplets.drop_last(), r, c);
        let last = triplets.last();
        if last.0 == r && last.1 == c {
            before.plus_spec(last.2)
        } else {
            before
        }
    }
}

/// A value that is too small to couple anything.
pub open spec fn negligible<T: Scalar>(value: T) -> bool {
    magnitude_spec(value).is_at_most_spec(reciprocal_spec::<T>(DIAGONAL_RESOLUTION as nat))
}

/// Only dofs of the same vertex are coupled.
pub open spec fn couples_vertices_only<T: Scalar>(
    triplets: Seq<(usize, usize, T)>,
    vertices: Seq<usize>,
) -> bool {
    forall|t: int|
        0 <= t < triplets.len() ==> vertices[(#[trigger] triplets[t]).0 as int]
            == vertices[triplets[t].1 as int] || negligible(triplets[t].2)
}

/// The block of a vertex in a matrix: its rows and columns of the dofs of the vertex.
pub open spec fn is_vertex_block<T: Scalar>(
    block: DenseMatrix<T>,
    triplets: Seq<(usize, usize, T)>,
    dofs: Seq<usize>,
) -> bool {
    &&& block.wf()
    &&& block.rows() == dofs.len()
    &&& block.cols() == dofs.len()
    &&& forall|i: int, j: int|
        0 <= i < dofs.len() && 0 <= j < dofs.len() ==> #[trigger] block.at(i, j) == place_total(
            triplets,
            dofs[i] as int,
            dofs[j] as int,
        )
}

/// The words for a mass that couples dofs of different vertices.
pub open spec fn coupling_fault(grade: nat) -> Seq<char> {
    "NC"@ + decimal(grade) + " lumped mass must not couple dofs attached to different vertices."@
}

fn dof_locations(vertex_dofs: &Vec<Vec<usize>>, ndofs: usize, Ghost(vertices): Ghost<Seq<usize>>) -> (
    locations: Vec<(usize, usize)>)
    requires
        vertices.len() == ndofs,
        forall|v: int|
            0 <= v < vertex_dofs@.len() ==> (#[trigger] vertex_dofs@[v])@ == attached(
                vertices,
                v,
                ndofs as int,
            ),
        forall|d: int| 0 <= d < ndofs ==> (#[trigger] vertices[d]) < vertex_dofs@.len(),
    ensures
        locations@.len() == ndofs,
        forall|d: int|
            0 <= d < ndofs ==> (#[trigger] locations@[d]).0 == vertices[d] && locations@[d].1
                == attached(vertices, vertices[d] as int, d).len(),
{
    let mut locations: Vec<(usize, usize)> = Vec::new();
    let mut d: usize = 0;
    while d < ndofs
        invariant
            d <= ndofs,
            locations@.len() == d,
        decreases ndofs - d,
    {
        locations.push((0, 0));
        d = d + 1;
    }
    let mut v: usize = 0;
    while v < vertex_dofs.len()
        invariant
            v <= vertex_dofs@.len(),
            vertices.len() == ndofs,
            locations@.len() == ndofs,
            forall|w: int|
                0 <= w < vertex_dofs@.len() ==> (#[trigger] vertex_dofs@[w])@ == attached(
                    vertices,
                    w,
                    ndofs as int,
                ),
            forall|d: int|
                0 <= d < ndofs && vertices[d] < v ==> (#[trigger] locations@[d]).0 == vertices[d]
                    && locations@[d].1 == attached(vertices, vertices[d] as int, d).len(),
        decreases vertex_dofs@.len() - v,
    {
        let ghost dofs = attached(vertices, v as int, ndofs as int);
        proof {
            attached_members(vertices, v as int, ndofs as int);
        }
        let mut i: usize = 0;
        while i < vertex_dofs[v].len()
            invariant
                i <= dofs.len(),
                v < vertex_dofs@.len(),
                vertices.len() == ndofs,
                locations@.len() == ndofs,
                vertex_dofs@[v as int]@ == dofs,
                dofs == attached(vertices, v as int, ndofs as int),
                forall|a: int|
                    0 <= a < dofs.len() ==> (#[trigger] dofs[a]) < ndofs && vertices[dofs[a] as int]
                        == v,
                forall|a: int, b: int|
                    0 <= a < b < dofs.len() ==> (#[trigger] dofs[a]) < (#[trigger] dofs[b]),
                forall|d: int|
                    0 <= d < ndofs && vertices[d] < v ==> (#[trigger] locations@[d]).0
                        == vertices[d] && locations@[d].1 == attached(
                        vertices,
                        vertices[d] as int,
                        d,
                    ).len(),
                forall|a: int|
                    0 <= a < i ==> locations@[#[trigger] dofs[a] as int].0 == v
                        && locations@[dofs[a] as int].1 == a,
            decreases dofs.len() - i,
        {
            let dof: usize = vertex_dofs[v][i];
            proof {
                assert(dofs[i as int] < ndofs);
            }
            locations.set(dof, (v, i));
            i = i + 1;
        }
        proof {
            assert forall|d: int| 0 <= d < ndofs && vertices[d] < v + 1 implies (
            #[trigger] locations@[d]).0 == vertices[d] && locations@[d].1 == attached(
                vertices,
                vertices[d] as int,
                d,
            ).len() by {
                if vertices[d] == v {
                    attached_place(vertices, d, ndofs as int);
                    let a = attached(vertices, v as int, d).len() as int;
                    assert(dofs[a] == d);
                }
            }
        }
        v = v + 1;
    }
    locations
}

/// The block of each vertex can be held.
pub open spec fn blocks_fit(topology: &Complex, grade: int) -> bool {
    forall|v: int|
        0 <= v < topology.simplices(0).len() ==> (#[trigger] attached(
            dof_vertices(topology, grade),
            v,
            dof_count(topology, grade),
        )).len() * attached(
            dof_vertices(topology, grade),
            v,
            dof_count(topology, grade),
        ).len() <= usize::MAX
}

proof fn lemma_vertices_within(topology: &Complex, grade: int)
    requires
        nc_supported(topology, grade),
    ensures
        forall|d: int|
            0 <= d < dof_count(topology, grade) ==> (#[trigger] dof_vertices(topology, grade)[d])
                < topology.simplices(0).len(),
{
    topology.simplex_facts(grade);
    assert forall|d: int| 0 <= d < dof_count(topology, grade) implies (#[trigger] dof_vertices(
        topology,
        grade,
    )[d]) < topology.simplices(0).len() by {
        lemma_dof_split(d, grade + 1, topology.simplices(grade).len() as int);
        assert(topology.simplices(grade)[d / (grade + 1)].len() == grade + 1);
    }
}

proof fn lemma_block_step<T: Scalar>(
    triplets: Seq<(usize, usize, T)>,
    t: int,
    vertices: Seq<usize>,
    w: int,
    i: int,
    j: int,
)
    requires
        0 <= t < triplets.len(),
        vertices.len() <= usize::MAX + 1,
        triplets[t].0 < vertices.len(),
        triplets[t].1 < vertices.len(),
        0 <= i < attached(vertices, w, vertices.len() as int).len(),
        0 <= j < attached(vertices, w, vertices.len() as int).len(),
    ensures
        ({
            let dofs = attached(vertices, w, vertices.len() as int);
            let r = triplets[t].0 as int;
            let c = triplets[t].1 as int;
            place_total(triplets.take(t + 1), dofs[i] as int, dofs[j] as int) == (if vertices[r]
                == w && vertices[c] == w && i == attached(vertices, w, r).len() && j == attached(
                vertices,
                w,
                c,
            ).len() {
                place_total(triplets.take(t), dofs[i] as int, dofs[j] as int).plus_spec(
                    triplets[t].2,
                )
            } else {
                place_total(triplets.take(t), dofs[i] as int, dofs[j] as int)
            })
        }),
{
    let n = vertices.len() as int;
    let dofs = attached(vertices, w, n);
    let r = triplets[t].0 as int;
    let c = triplets[t].1 as int;
    attached_members(vertices, w, n);
    attached_place(vertices, r, n);
    attached_place(vertices, c, n);
    let next = triplets.take(t + 1);
    assert(next.drop_last() =~= triplets.take(t));
    assert(next.last() == triplets[t]);
    assert(vertices[dofs[i] as int] == w);
    assert(vertices[dofs[j] as int] == w);
    if dofs[i] == r {
        let a = attached(vertices, w, r).len() as int;
        assert(dofs[a] == r);
        if a < i {
            assert(dofs[a] < dofs[i]);
        } else if i < a {
            assert(dofs[i] < dofs[a]);
        }
    }
    if dofs[j] == c {
        let b = attached(vertices, w, c).len() as int;
        assert(dofs[b] == c);
        if b < j {
            assert(dofs[b] < dofs[j]);
        } else if j < b {
            assert(dofs[j] < dofs[b]);
        }
    }
}

/// The blocks of the vertices in a lumped mass, with the dofs of each vertex. Fails if the mass
/// couples dofs of different vertices.
pub fn nc_lumped_mass_blocks<T: Scalar>(
    topology: &Complex,
    grade: Dim,
    lumped_mass: &GalMat<T>,
) -> (blocks: Result<(Vec<Vec<usize>>, Vec<DenseMatrix<T>>), String>)
    requires
        nc_supported(topology, grade as int),
        blocks_fit(topology, grade as int),
        lumped_mass.wf(),
        lumped_mass.rows() == dof_count(topology, grade as int),
        lumped_mass.cols() == dof_count(topology, grade as int),
    ensures
        blocks is Ok == couples_vertices_only(
            lumped_mass.entries(),
            dof_vertices(topology, grade as int),
        ),
        match blocks {
            Ok((vertex_dofs, blocks)) => {
                &&& vertex_dofs@.len() == topology.simplices(0).len()
                &&& blocks@.len() == vertex_dofs@.len()
                &&& forall|v: int|
                    0 <= v < vertex_dofs@.len() ==> (#[trigger] vertex_dofs@[v])@ == attached(
                        dof_vertices(topology, grade as int),
                        v,
                        dof_count(topology, grade as int),
                    )
                &&& forall|v: int|
                    0 <= v < blocks@.len() ==> is_vertex_block(
                        #[trigger] blocks@[v],
                        lumped_mass.entries(),
                        vertex_dofs@[v]@,
                    )
            },
            Err(text) => text@ == coupling_fault(grade as nat),
        },
{
    let ghost vertices = dof_vertices(topology, grade as int);
    let ndofs: usize = nc_ndofs(topology, grade);
    let vertex_dofs = nc_vertex_dofs(topology, grade);
    proof {
        lemma_vertices_within(topology, grade as int);
        assert(vertices.len() == ndofs);
    }
    let locations = dof_locations(&vertex_dofs, ndofs, Ghost(vertices));
    let mut blocks: Vec<DenseMatrix<T>> = Vec::new();
    let mut v: usize = 0;
    while v < vertex_dofs.len()
        invariant
            v <= vertex_dofs@.len(),
            vertex_dofs@.len() == topology.simplices(0).len(),
            blocks_fit(topology, grade as int),
            vertices == dof_vertices(topology, grade as int),
            ndofs == dof_count(topology, grade as int),
            forall|w: int|
                0 <= w < vertex_dofs@.len() ==> (#[trigger] vertex_dofs@[w])@ == attached(
                    vertices,
                    w,
                    ndofs as int,
                ),
            blocks@.len() == v,
            forall|w: int|
                0 <= w < v ==> is_vertex_block(
                    #[trigger] blocks@[w],
                    Seq::<(usize, usize, T)>::empty(),
                    vertex_dofs@[w]@,
                ),
        decreases vertex_dofs@.len() - v,
    {
        let n: usize = vertex_dofs[v].len();
        proof {
            assert(vertex_dofs@[v as int]@ == attached(vertices, v as int, ndofs as int));
        }
        blocks.push(DenseMatrix::zeros(n, n));
        v = v + 1;
    }
    let triplets = lumped_mass.triplets();
    let mut t: usize = 0;
    proof {
        assert(triplets@.take(0) =~= Seq::<(usize, usize, T)>::empty());
    }
    while t < triplets.len()
        invariant
            t <= triplets@.len(),
            nc_supported(topology, grade as int),
            vertices == dof_vertices(topology, grade as int),
            ndofs == dof_count(topology, grade as int),
            vertices.len() == ndofs,
            lumped_mass.wf(),
            lumped_mass.rows() == ndofs,
            lumped_mass.cols() == ndofs,
            triplets@ == lumped_mass.entries(),
            vertex_dofs@.len() == topology.simplices(0).len(),
            forall|w: int|
                0 <= w < vertex_dofs@.len() ==> (#[trigger] vertex_dofs@[w])@ == attached(
                    vertices,
                    w,
                    ndofs as int,
                ),
            forall|d: int| 0 <= d < ndofs ==> (#[trigger] vertices[d]) < vertex_dofs@.len(),
            locations@.len() == ndofs,
            forall|d: int|
                0 <= d < ndofs ==> (#[trigger] locations@[d]).0 == vertices[d] && locations@[d].1
                    == attached(vertices, vertices[d] as int, d).len(),
            blocks@.len() == vertex_dofs@.len(),
            forall|w: int|
                0 <= w < blocks@.len() ==> is_vertex_block(
                    #[trigger] blocks@[w],
                    triplets@.take(t as int),
                    vertex_dofs@[w]@,
                ),
            forall|s: int|
                0 <= s < t ==> vertices[(#[trigger] triplets@[s]).0 as int]
                    == vertices[triplets@[s].1 as int] || negligible(triplets@[s].2),
        decreases triplets@.len() - t,
    {
        let (r, c, value): (usize, usize, T) = triplets[t];
        proof {
            assert(triplets@[t as int].0 < ndofs && triplets@[t as int].1 < ndofs);
        }
        let (vr, lr): (usize, usize) = locations[r];
        let (vc, lc): (usize, usize) = locations[c];
        let ghost before = blocks@;
        if vr != vc {
            if !magnitude(value).is_at_most(reciprocal(DIAGONAL_RESOLUTION)) {
                let mut text = owned("NC");
                push_decimal(&mut text, grade);
                text.append(" lumped mass must not couple dofs attached to different vertices.");
                proof {
                    assert(!negligible(triplets@[t as int].2));
                }
                return Err(text);
            }
            proof {
                assert forall|w: int| 0 <= w < blocks@.len() implies is_vertex_block(
                    #[trigger] blocks@[w],
                    triplets@.take(t + 1),
                    vertex_dofs@[w]@,
                ) by {
                    let dofs = vertex_dofs@[w]@;
                    assert(is_vertex_block(before[w], triplets@.take(t as int), dofs));
                    assert forall|i: int, j: int|
                        0 <= i < dofs.len() && 0 <= j < dofs.len() implies #[trigger] blocks@[w].at(
                        i,
                        j,
                    ) == place_total(triplets@.take(t + 1), dofs[i] as int, dofs[j] as int) by {
                        lemma_block_step(triplets@, t as int, vertices, w, i, j);
                    }
                }
            }
        } else {
            proof {
                attached_place(vertices, r as int, ndofs as int);
                attached_place(vertices, c as int, ndofs as int);
                assert(is_vertex_block(
                    before[vr as int],
                    triplets@.take(t as int),
                    vertex_dofs@[vr as int]@,
                ));
            }
            let sum = blocks[vr].get(lr, lc).plus(value);
            blocks[vr].set(lr, lc, sum);
            proof {
                assert forall|w: int| 0 <= w < blocks@.len() implies is_vertex_block(
                    #[trigger] blocks@[w],
                    triplets@.take(t + 1),
                    vertex_dofs@[w]@,
                ) by {
                    let dofs = vertex_dofs@[w]@;
                    assert(is_vertex_block(before[w], triplets@.take(t as int), dofs));
                    assert forall|i: int, j: int|
                        0 <= i < dofs.len() && 0 <= j < dofs.len() implies #[trigger] blocks@[w].at(
                        i,
                        j,
                    ) == place_total(triplets@.take(t + 1), dofs[i] as int, dofs[j] as int) by {
                        lemma_block_step(triplets@, t as int, vertices, w, i, j);
                        assert(before[w].at(i, j) == place_total(
                            triplets@.take(t as int),
                            dofs[i] as int,
                            dofs[j] as int,
                        ));
                    }
                }
            }
        }
        t = t + 1;
    }
    proof {
        assert(triplets@.take(t as int) =~= triplets@);
    }
    Ok((vertex_dofs, blocks))
}

/// The entries of the first `n` blocks, each at the places of its dofs.
pub open spec fn blocks_entries<T: Scalar>(
    vertex_dofs: Seq<Vec<usize>>,
    blocks: Seq<DenseMatrix<T>>,
    n: int,
) -> Seq<(usize, usize, T)>
    decreases n,
{
    if n <= 0 {
        Seq::empty()
    } else {
        let dofs = vertex_dofs[n - 1]@;
        let values = blocks[n - 1].listed();
        blocks_entries(vertex_dofs, blocks, n - 1) + block_triplets(
            dofs,
            dofs,
            values,
            values.len() as int,
        )
    }
}

/// One square block for each list of dofs, and dofs below `ndofs`.
pub open spec fn blocks_match<T: Scalar>(
    vertex_dofs: Seq<Vec<usize>>,
    blocks: Seq<DenseMatrix<T>>,
    ndofs: int,
) -> bool {
    &&& vertex_dofs.len() == blocks.len()
    &&& forall|v: int|
        0 <= v < blocks.len() ==> (#[trigger] blocks[v]).wf() && blocks[v].rows()
            == vertex_dofs[v]@.len() && blocks[v].cols() == vertex_dofs[v]@.len()
    &&& forall|v: int, i: int|
        0 <= v < vertex_dofs.len() && 0 <= i < vertex_dofs[v]@.len() ==> (
        #[trigger] vertex_dofs[v]@[i]) < ndofs
}

/// The matrix that has the given blocks at the dofs of the vertices.
pub fn assemble_nc_lumped_mass_inverse_from_blocks<T: Scalar>(
    ndofs: usize,
    vertex_dofs: &[Vec<usize>],
    inverse_blocks: &[DenseMatrix<T>],
) -> (galmat: GalMat<T>)
    requires
        blocks_match(vertex_dofs@, inverse_blocks@, ndofs as int),
    ensures
        galmat.wf(),
        galmat.rows() == ndofs,
        galmat.cols() == ndofs,
        galmat.entries() == blocks_entries(
            vertex_dofs@,
            inverse_blocks@,
            inverse_blocks@.len() as int,
        ),
{
    let mut galmat: CooMatrix<T> = CooMatrix::zeros(ndofs, ndofs);
    let mut v: usize = 0;
    while v < inverse_blocks.len()
        invariant
            v <= inverse_blocks@.len(),
            blocks_match(vertex_dofs@, inverse_blocks@, ndofs as int),
            galmat.wf(),
            galmat.rows() == ndofs,
            galmat.cols() == ndofs,
            galmat.entries() == blocks_entries(vertex_dofs@, inverse_blocks@, v as int),
        decreases inverse_blocks@.len() - v,
    {
        let dofs = vertex_dofs[v].as_slice();
        let block = &inverse_blocks[v];
        proof {
            block.listed_at();
            assert forall|i: int| 0 <= i < dofs@.len() implies (#[trigger] dofs@[i]) < ndofs by {
                assert(vertex_dofs@[v as int]@[i] < ndofs);
            }
        }
        push_block(&mut galmat, dofs, dofs, block.as_slice());
        v = v + 1;
    }
    galmat
}

/// The square of one part in the number of slots.
pub open spec fn slot_weight<T: Scalar>(slots: nat) -> T {
    reciprocal_spec::<T>(slots).times_spec(reciprocal_spec::<T>(slots))
}

/// The simplices of dofs.
pub open spec fn dof_simplices(dofs: Seq<usize>, slots: int) -> Seq<usize> {
    Seq::new(dofs.len(), |i: int| (dofs[i] as int / slots) as usize)
}

/// Values times a factor on the left.
pub open spec fn scaled_values<T: Scalar>(scale: T, values: Seq<T>) -> Seq<T> {
    Seq::new(values.len(), |i: int| scale.times_spec(values[i]))
}

/// The entries of the first `n` blocks, scaled, at the places of the simplices of their dofs.
pub open spec fn projected_entries<T: Scalar>(
    vertex_dofs: Seq<Vec<usize>>,
    blocks: Seq<DenseMatrix<T>>,
    slots: int,
    n: int,
) -> Seq<(usize, usize, T)>
    decreases n,
{
    if n <= 0 {
        Seq::empty()
    } else {
        let simplices = dof_simplices(vertex_dofs[n - 1]@, slots);
        let values = scaled_values(slot_weight::<T>(slots as nat), blocks[n - 1].listed());
        projected_entries(vertex_dofs, blocks, slots, n - 1) + block_triplets(
            simplices,
            simplices,
            values,
            values.len() as int,
        )
    }
}

/// The matrix on simplices that arises from blocks on their dofs when each simplex takes the
/// mean of its dofs.
pub fn assemble_whitney_projected_sparse_inverse_from_blocks<T: Scalar>(
    topology: &Complex,
    grade: Dim,
    vertex_dofs: &[Vec<usize>],
    inverse_blocks: &[DenseMatrix<T>],
) -> (galmat: GalMat<T>)
    requires
        nc_supported(topology, grade as int),
        blocks_match(vertex_dofs@, inverse_blocks@, dof_count(topology, grade as int)),
    ensures
        galmat.wf(),
        galmat.rows() == topology.simplices(grade as int).len(),
        galmat.cols() == topology.simplices(grade as int).len(),
        galmat.entries() == projected_entries(
            vertex_dofs@,
            inverse_blocks@,
            grade + 1,
            inverse_blocks@.len() as int,
        ),
{
    proof {
        topology.machine_sized_levels(0);
    }
    let nsimps: usize = topology.nsimplices(grade);
    let slots: usize = nc_slots(grade);
    let part: T = reciprocal(slots as u64);
    let scale: T = part.times(part);
    let mut galmat: CooMatrix<T> = CooMatrix::zeros(nsimps, nsimps);
    let mut v: usize = 0;
    while v < inverse_blocks.len()
        invariant
            v <= inverse_blocks@.len(),
            nc_supported(topology, grade as int),
            blocks_match(vertex_dofs@, inverse_blocks@, dof_count(topology, grade as int)),
            nsimps == topology.simplices(grade as int).len(),
            slots == grade + 1,
            scale == slot_weight::<T>(slots as nat),
            galmat.wf(),
            galmat.rows() == nsimps,
            galmat.cols() == nsimps,
            galmat.entries() == projected_entries(
                vertex_dofs@,
                inverse_blocks@,
                grade + 1,
                v as int,
            ),
        decreases inverse_blocks@.len() - v,
    {
        let dofs = vertex_dofs[v].as_slice();
        let block = &inverse_blocks[v];
        let values = block.as_slice();
        let mut simplices: Vec<usize> = Vec::new();
        let mut i: usize = 0;
        while i < dofs.len()
            invariant
                i <= dofs@.len(),
                v < inverse_blocks@.len(),
                dofs@ == vertex_dofs@[v as int]@,
                blocks_match(vertex_dofs@, inverse_blocks@, dof_count(topology, grade as int)),
                nsimps == topology.simplices(grade as int).len(),
                slots == grade + 1,
                simplices@.len() == i,
                forall|j: int|
                    0 <= j < i ==> (#[trigger] simplices@[j]) == dofs@[j] as int / slots as int
                        && simplices@[j] < nsimps,
            decreases dofs@.len() - i,
        {
            proof {
                assert(vertex_dofs@[v as int]@[i as int] < dof_count(topology, grade as int));
                lemma_dof_split(dofs@[i as int] as int, slots as int, nsimps as int);
            }
            simplices.push(dofs[i] / slots);
            i = i + 1;
        }
        let mut scaled: Vec<T> = Vec::new();
        let mut i: usize = 0;
        while i < values.len()
            invariant
                i <= values@.len(),
                scaled@.len() == i,
                forall|j: int| 0 <= j < i ==> #[trigger] scaled@[j] == scale.times_spec(values@[j]),
            decreases values@.len() - i,
        {
            scaled.push(scale.times(values[i]));
            i = i + 1;
        }
        proof {
            block.listed_at();
            assert(simplices@ =~= dof_simplices(dofs@, slots as int));
            assert(scaled@ =~= scaled_values(scale, values@));
        }
        push_block(
            &mut galmat,
            simplices.as_slice(),
            simplices.as_slice(),
            scaled.as_slice(),
        );
        v = v + 1;
    }
    galmat
}

/// Each simplex takes the mean of its dofs.
pub open spec fn projection_entries<T: Scalar>(nsimps: nat, slots: nat) -> Seq<(usize, usize, T)> {
    Seq::new(
        slots * nsimps,
        |p: int| ((p / slots as int) as usize, p as usize, reciprocal_spec::<T>(slots)),
    )
}

/// Each dof takes the value of its simplex.
pub open spec fn embedding_entries<T: Scalar>(nsimps: nat, slots: nat) -> Seq<(usize, usize, T)> {
    Seq::new(slots * nsimps, |p: int| (p as usize, (p / slots as int) as usize, T::one_spec()))
}

/// The matrix by which each simplex takes the mean of its dofs.
pub fn assemble_nc_to_whitney_projection_galmat<T: Scalar>(topology: &Complex, grade: Dim) -> (
    galmat: GalMat<T>)
    requires
        nc_supported(topology, grade as int),
    ensures
        galmat.wf(),
        galmat.rows() == topology.simplices(grade as int).len(),
        galmat.cols() == dof_count(topology, grade as int),
        galmat.entries() == projection_entries::<T>(
            topology.simplices(grade as int).len(),
            (grade + 1) as nat,
        ),
{
    proof {
        topology.machine_sized_levels(0);
    }
    let nsimps: usize = topology.nsimplices(grade);
    let slots: usize = nc_slots(grade);
    let ndofs: usize = nc_ndofs(topology, grade);
    let part: T = reciprocal(slots as u64);
    let mut galmat: CooMatrix<T> = CooMatrix::zeros(nsimps, ndofs);
    let ghost entries = projection_entries::<T>(nsimps as nat, slots as nat);
    let mut p: usize = 0;
    while p < ndofs
        invariant
            p <= ndofs,
            slots == grade + 1,
            ndofs == slots * nsimps,
            part == reciprocal_spec::<T>(slots as nat),
            entries == projection_entries::<T>(nsimps as nat, slots as nat),
            entries.len() == ndofs,
            galmat.wf(),
            galmat.rows() == nsimps,
            galmat.cols() == ndofs,
            galmat.entries() =~= entries.take(p as int),
        decreases ndofs - p,
    {
        proof {
            lemma_dof_split(p as int, slots as int, nsimps as int);
        }
        galmat.push(p / slots, p, part);
        p = p + 1;
    }
    galmat
}

/// The matrix by which each dof takes the value of its simplex.
pub fn assemble_whitney_to_nc_embedding_galmat<T: Scalar>(topology: &Complex, grade: Dim) -> (
    galmat: GalMat<T>)
    requires
        nc_supported(topology, grade as int),
    ensures
        galmat.wf(),
        galmat.rows() == dof_count(topology, grade as int),
        galmat.cols() == topology.simplices(grade as int).len(),
        galmat.entries() == embedding_entries::<T>(
            topology.simplices(grade as int).len(),
            (grade + 1) as nat,
        ),
{
    proof {
        topology.machine_sized_levels(0);
    }
    let nsimps: usize = topology.nsimplices(grade);
    let slots: usize = nc_slots(grade);
    let ndofs: usize = nc_ndofs(topology, grade);
    let mut galmat: CooMatrix<T> = CooMatrix::zeros(ndofs, nsimps);
    let ghost entries = embedding_entries::<T>(nsimps as nat, slots as nat);
    let mut p: usize = 0;
    while p < ndofs
        invariant
            p <= ndofs,
            slots == grade + 1,
            ndofs == slots * nsimps,
            entries == embedding_entries::<T>(nsimps as nat, slots as nat),
            entries.len() == ndofs,
            galmat.wf(),
            galmat.rows() == ndofs,
            galmat.cols() == nsimps,
            galmat.entries() =~= entries.take(p as int),
        decreases ndofs - p,
    {
        proof {
            lemma_dof_split(p as int, slots as int, nsimps as int);
        }
        galmat.push(p, p / slots, T::one());
        p = p + 1;
    }
    galmat
}

proof fn lemma_embedding_row<T: Scalar>(nsimps: nat, slots: nat, k: int, r: usize, x: T, n: int)
    requires
        slots > 0,
        slots * nsimps <= usize::MAX,
        0 <= k < slots * nsimps,
        0 <= n <= slots * nsimps,
    ensures
        row_times(embedding_entries::<T>(nsimps, slots).take(n), k, r, x) == (if k < n {
            seq![(r, (k / slots as int) as usize, x.times_spec(T::one_spec()))]
        } else {
            Seq::empty()
        }),
    decreases n,
{
    let entries = embedding_entries::<T>(nsimps, slots);
    if n > 0 {
        lemma_embedding_row(nsimps, slots, k, r, x, n - 1);
        assert(entries.take(n).drop_last() =~= entries.take(n - 1));
        assert(entries.take(n).last() == entries[n - 1]);
        assert(row_times(entries.take(n), k, r, x) =~= (if k < n {
            seq![(r, (k / slots as int) as usize, x.times_spec(T::one_spec()))]
        } else {
            Seq::empty()
        }));
    }
}

proof fn lemma_projection_terms<T: Scalar>(nsimps: nat, slots: nat, n: int)
    requires
        slots > 0,
        slots * nsimps <= usize::MAX,
        0 <= n <= slots * nsimps,
    ensures
        product_terms(
            projection_entries::<T>(nsimps, slots).take(n),
            embedding_entries::<T>(nsimps, slots),
        ) == Seq::new(
            n as nat,
            |p: int|
                (
                    (p / slots as int) as usize,
                    (p / slots as int) as usize,
                    reciprocal_spec::<T>(slots).times_spec(T::one_spec()),
                ),
        ),
    decreases n,
{
    let lhs = projection_entries::<T>(nsimps, slots);
    let rhs = embedding_entries::<T>(nsimps, slots);
    if n > 0 {
        lemma_projection_terms::<T>(nsimps, slots, n - 1);
        assert(lhs.take(n).drop_last() =~= lhs.take(n - 1));
        assert(lhs.take(n).last() == lhs[n - 1]);
        lemma_embedding_row(
            nsimps,
            slots,
            n - 1,
            lhs[n - 1].0,
            reciprocal_spec::<T>(slots),
            rhs.len() as int,
        );
        assert(rhs.take(rhs.len() as int) =~= rhs);
    }
}

/// Projection undoes embedding: in their product each simplex meets itself only, once for each
/// of its dofs, each time with one part in the number of its dofs.
pub proof fn projection_undoes_embedding<T: Scalar>(nsimps: nat, slots: nat)
    requires
        slots > 0,
        slots * nsimps <= usize::MAX,
    ensures
        product_terms(
            projection_entries::<T>(nsimps, slots),
            embedding_entries::<T>(nsimps, slots),
        ) == Seq::new(
            slots * nsimps,
            |p: int|
                (
                    (p / slots as int) as usize,
                    (p / slots as int) as usize,
                    reciprocal_spec::<T>(slots).times_spec(T::one_spec()),
                ),
        ),
{
    let lhs = projection_entries::<T>(nsimps, slots);
    lemma_projection_terms::<T>(nsimps, slots, lhs.len() as int);
    assert(lhs.take(lhs.len() as int) =~= lhs);
}

/// The matrix by which each edge takes the mean of its dofs.
pub fn assemble_nc1_to_whitney_projection_galmat<T: Scalar>(topology: &Complex) -> (galmat: GalMat<
    T,
>)
    requires
        nc_supported(topology, 1),
    ensures
        galmat.wf(),
        galmat.rows() == topology.simplices(1).len(),
        galmat.cols() == dof_count(topology, 1),
        galmat.entries() == projection_entries::<T>(topology.simplices(1).len(), 2),
{
    assemble_nc_to_whitney_projection_galmat(topology, 1)
}

/// The matrix by which each dof takes the value of its edge.
pub fn assemble_whitney_to_nc1_embedding_galmat<T: Scalar>(topology: &Complex) -> (galmat: GalMat<
    T,
>)
    requires
        nc_supported(topology, 1),
    ensures
        galmat.wf(),
        galmat.rows() == dof_count(topology, 1),
        galmat.cols() == topology.simplices(1).len(),
        galmat.entries() == embedding_entries::<T>(topology.simplices(1).len(), 2),
{
    assemble_whitney_to_nc_embedding_galmat(topology, 1)
}

/// The matrix by which each triangle takes the mean of its dofs.
pub fn assemble_nc2_to_whitney_projection_galmat<T: Scalar>(topology: &Complex) -> (galmat: GalMat<
    T,
>)
    requires
        nc_supported(topology, 2),
    ensures
        galmat.wf(),
        galmat.rows() == topology.simplices(2).len(),
        galmat.cols() == dof_count(topology, 2),
        galmat.entries() == projection_entries::<T>(topology.simplices(2).len(), 3),
{
    assemble_nc_to_whitney_projection_galmat(topology, 2)
}

/// The matrix by which each dof takes the value of its triangle.
pub fn assemble_whitney_to_nc2_embedding_galmat<T: Scalar>(topology: &Complex) -> (galmat: GalMat<
    T,
>)
    requires
        nc_supported(topology, 2),
    ensures
        galmat.wf(),
        galmat.rows() == dof_count(topology, 2),
        galmat.cols() == topology.simplices(2).len(),
        galmat.entries() == embedding_entries::<T>(topology.simplices(2).len(), 3),
{
    assemble_whitney_to_nc_embedding_galmat(topology, 2)
}

/// The entries of a block lie at the places of its rows and columns.
proof fn lemma_block_places<T: Scalar>(rows: Seq<usize>, cols: Seq<usize>, elmat: Seq<T>, n: int)
    requires
        n <= rows.len() * cols.len(),
    ensures
        forall|i: int|
            0 <= i < block_triplets(rows, cols, elmat, n).len() ==> rows.contains(
                (#[trigger] block_triplets(rows, cols, elmat, n)[i]).0,
            ) && cols.contains(block_triplets(rows, cols, elmat, n)[i].1),
    decreases n,
{
    if n > 0 {
        let width = cols.len() as int;
        assert(width > 0) by (nonlinear_arith)
            requires
                0 < n <= rows.len() * width,
                width >= 0,
                rows.len() >= 0,
        ;
        lemma_block_places(rows, cols, elmat, n - 1);
        let a = (n - 1) / width;
        let b = (n - 1) % width;
        assert(0 <= a < rows.len() && 0 <= b < width) by (nonlinear_arith)
            requires
                0 < n <= rows.len() * width,
                width > 0,
                a == (n - 1) / width,
                b == (n - 1) % width,
        ;
        assert(rows.contains(rows[a]));
        assert(cols.contains(cols[b]));
        let before = block_triplets(rows, cols, elmat, n - 1);
        let all = block_triplets(rows, cols, elmat, n);
        assert forall|i: int| 0 <= i < all.len() implies rows.contains((#[trigger] all[i]).0)
            && cols.contains(all[i].1) by {
            if i < before.len() {
                assert(all[i] == before[i]);
            }
        }
    }
}

/// Two simplices have a vertex in common.
pub open spec fn share_vertex(topology: &Complex, grade: int, i: int, j: int) -> bool {
    exists|v: usize| #[trigger]
        topology.simplices(grade)[i].contains(v) && topology.simplices(grade)[j].contains(v)
}

/// The projected inverse is local: it couples simplices only that have a vertex in common.
pub proof fn projected_inverse_is_local<T: Scalar>(
    topology: &Complex,
    grade: int,
    vertex_dofs: Seq<Vec<usize>>,
    blocks: Seq<DenseMatrix<T>>,
    n: int,
)
    requires
        nc_supported(topology, grade),
        blocks_match(vertex_dofs, blocks, dof_count(topology, grade)),
        n <= blocks.len(),
        forall|v: int|
            0 <= v < vertex_dofs.len() ==> (#[trigger] vertex_dofs[v])@ == attached(
                dof_vertices(topology, grade),
                v,
                dof_count(topology, grade),
            ),
    ensures
        forall|i: int|
            0 <= i < projected_entries(vertex_dofs, blocks, grade + 1, n).len()
                ==> #[trigger] share_vertex(
                topology,
                grade,
                projected_entries(vertex_dofs, blocks, grade + 1, n)[i].0 as int,
                projected_entries(vertex_dofs, blocks, grade + 1, n)[i].1 as int,
            ),
    decreases n,
{
    let slots = grade + 1;
    let entries = projected_entries(vertex_dofs, blocks, slots, n);
    if n > 0 {
        projected_inverse_is_local(topology, grade, vertex_dofs, blocks, n - 1);
        let before = projected_entries(vertex_dofs, blocks, slots, n - 1);
        let dofs = vertex_dofs[n - 1]@;
        let simplices = dof_simplices(dofs, slots);
        let values = scaled_values(slot_weight::<T>(slots as nat), blocks[n - 1].listed());
        let count = dof_count(topology, grade);
        let nsimps = topology.simplices(grade).len() as int;
        let vertices = dof_vertices(topology, grade);
        blocks[n - 1].listed_at();
        lemma_block_places(simplices, simplices, values, values.len() as int);
        attached_members(vertices, n - 1, count);
        assert forall|s: usize| #[trigger] simplices.contains(s) implies topology.simplices(
            grade,
        )[s as int].contains((n - 1) as usize) by {
            let j = choose|j: int| 0 <= j < simplices.len() && simplices[j] == s;
            let d = dofs[j] as int;
            assert(dofs[j] == attached(vertices, n - 1, count)[j]);
            lemma_dof_split(d, slots, nsimps);
            assert(vertices[d] == n - 1);
            assert(topology.simplices(grade)[d / slots][d % slots] == (n - 1) as usize);
            topology.simplex_facts(grade);
            assert(topology.simplices(grade)[d / slots].len() == slots);
        }
        assert forall|i: int| 0 <= i < entries.len() implies #[trigger] share_vertex(
            topology,
            grade,
            entries[i].0 as int,
            entries[i].1 as int,
        ) by {
            if i < before.len() {
                assert(entries[i] == before[i]);
            } else {
                let block = block_triplets(simplices, simplices, values, values.len() as int);
                assert(entries[i] == block[i - before.len()]);
                let v = (n - 1) as usize;
                assert(simplices.contains(entries[i].0) && simplices.contains(entries[i].1));
                assert(topology.simplices(grade)[entries[i].0 as int].contains(v));
            }
        }
    }
}

} // verus!
