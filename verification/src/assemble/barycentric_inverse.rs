//! The sparse inverse of the mass of one- and two-forms, assembled from the blocks around the
//! vertices.

use crate::assemble::barycentric_dual::{
    barycentric_dual_sparse_inverse_local_block, require_positive_definite,
    validate_barycentric_dual_config, BarycentricDualGeometry, BarycentricDualLocalBlock,
    BarycentricDualSparseInverseConfig,
};
use crate::assemble::barycentric_dual::{
    config_fault, consistent_at, consistent_trace, definiteness_fault, deviation, geometry_fault,
    gram, gram_inverse_at, inverse_block_at, inverse_same, is_geometry, is_inverse_block,
    is_local_outcome, projector_at, rank_fault, reconstruction_at, reconstruction_fault,
    simplices_around, stabilized_at, tetrahedral, vertex_fits,
};
use crate::assemble::galerkin::block_triplets;
use crate::assemble::galerkin::{push_block, GalMat};
use crate::io::fields::MeshCoords;
use crate::linalg::dense::{adjugate3, determinant3, sum_products, sum_products_same};
use crate::linalg::dense::DenseMatrix;
use crate::linalg::scalar::Scalar;
use crate::linalg::sparse::CooMatrix;
use crate::topology::complex::Complex;
use crate::topology::handle::indices_where_members;
use crate::topology::simplex::Dim;
use vstd::prelude::*;

verus! {

/// The geometry around a vertex.
pub open spec fn geometry_of<T: Scalar>(
    topology: Complex,
    coords: MeshCoords<T>,
    volumes: Seq<T>,
    vertex: usize,
    grade: nat,
) -> BarycentricDualGeometry<T> {
    choose|geometry: BarycentricDualGeometry<T>|
        is_geometry(geometry, topology, coords, volumes, vertex, grade)
}

/// What is wrong around a vertex: with its geometry, with the reconstruction, with the rank of
/// the dual vectors, or with the block, which is told to be positive definite or not.
pub open spec fn vertex_fault<T: Scalar>(
    topology: Complex,
    coords: MeshCoords<T>,
    volumes: Seq<T>,
    vertex: usize,
    grade: nat,
    config: BarycentricDualSparseInverseConfig<T>,
    positive_definite: bool,
) -> Option<Seq<char>> {
    let geometry = geometry_of(topology, coords, volumes, vertex, grade);
    let reconstruction = reconstruction_fault(
        vertex as nat,
        grade,
        geometry.primal,
        geometry.dual,
        geometry.volume,
        config.validation_tolerance,
    );
    if geometry_fault(topology, coords, volumes, vertex, grade) is Some {
        geometry_fault(topology, coords, volumes, vertex, grade)
    } else if reconstruction is Some {
        reconstruction
    } else if geometry.primal.rows() > 3 && determinant3(gram(geometry.dual)).is_zero_spec() {
        Some(rank_fault(vertex as nat, grade))
    } else if !positive_definite {
        Some(definiteness_fault(vertex as nat, grade))
    } else {
        None
    }
}

/// What is wrong around the first of `n` vertices around which something is.
pub open spec fn first_fault<T: Scalar>(
    topology: Complex,
    coords: MeshCoords<T>,
    volumes: Seq<T>,
    grade: nat,
    config: BarycentricDualSparseInverseConfig<T>,
    positive_definite: Seq<bool>,
    n: int,
) -> Option<Seq<char>>
    decreases n,
{
    if n <= 0 {
        None
    } else {
        match first_fault(topology, coords, volumes, grade, config, positive_definite, n - 1) {
            Some(message) => Some(message),
            None => vertex_fault(
                topology,
                coords,
                volumes,
                (n - 1) as usize,
                grade,
                config,
                positive_definite[n - 1],
            ),
        }
    }
}

/// What keeps the sparse inverse from being assembled: the configuration, or else the first
/// vertex around which something is wrong.
pub open spec fn dual_fault<T: Scalar>(
    topology: Complex,
    coords: MeshCoords<T>,
    volumes: Seq<T>,
    grade: nat,
    config: BarycentricDualSparseInverseConfig<T>,
    positive_definite: Seq<bool>,
) -> Option<Seq<char>> {
    match config_fault(topology.dimension() as nat, coords.dim as nat, grade, config) {
        Some(message) => Some(message),
        None => first_fault(
            topology,
            coords,
            volumes,
            grade,
            config,
            positive_definite,
            topology.simplices(0).len() as int,
        ),
    }
}

/// The values of the block around a vertex, row by row.
pub open spec fn block_values<T: Scalar>(
    geometry: BarycentricDualGeometry<T>,
    stabilization_factor: T,
    n: nat,
) -> Seq<T> {
    Seq::new(
        n * n,
        |p: int|
            inverse_block_at(
                geometry.primal,
                geometry.dual,
                geometry.volume,
                stabilization_factor,
                p / n as int,
                p % n as int,
            ),
    )
}

/// The entries of the block around a vertex.
pub open spec fn vertex_entries<T: Scalar>(
    topology: Complex,
    coords: MeshCoords<T>,
    volumes: Seq<T>,
    vertex: usize,
    grade: nat,
    config: BarycentricDualSparseInverseConfig<T>,
) -> Seq<(usize, usize, T)> {
    let around = simplices_around(topology, grade as int, vertex);
    let dofs = Seq::new(around.len(), |i: int| around[i] as usize);
    let geometry = geometry_of(topology, coords, volumes, vertex, grade);
    let values = block_values(geometry, config.stabilization_factor, around.len());
    block_triplets(dofs, dofs, values, values.len() as int)
}

/// The entries of the blocks around the first `n` vertices.
pub open spec fn local_entries<T: Scalar>(
    topology: Complex,
    coords: MeshCoords<T>,
    volumes: Seq<T>,
    grade: nat,
    config: BarycentricDualSparseInverseConfig<T>,
    n: int,
) -> Seq<(usize, usize, T)>
    decreases n,
{
    if n <= 0 {
        Seq::empty()
    } else {
        local_entries(topology, coords, volumes, grade, config, n - 1) + vertex_entries(
            topology,
            coords,
            volumes,
            (n - 1) as usize,
            grade,
            config,
        )
    }
}

/// Volumes of all cells, an answer for each vertex, and room for the blocks, on a mesh of
/// tetrahedra.
pub open spec fn dual_inputs_fit<T: Scalar>(
    topology: Complex,
    coords: MeshCoords<T>,
    volumes: Seq<T>,
    grade: int,
    positive_definite: Seq<bool>,
) -> bool {
    &&& tetrahedral(topology, coords)
    &&& volumes.len() == topology.simplices(3).len()
    &&& positive_definite.len() == topology.simplices(0).len()
    &&& forall|v: int|
        0 <= v < topology.simplices(0).len() ==> #[trigger] vertex_fits(
            topology,
            grade,
            v as usize,
        )
}

/// Two matrices of three columns with the same values.
pub open spec fn same_rows<T: Scalar>(a: DenseMatrix<T>, b: DenseMatrix<T>) -> bool {
    &&& a.rows() == b.rows()
    &&& forall|j: int, k: int|
        0 <= j < a.rows() && 0 <= k < 3 ==> #[trigger] a.at(j, k) == b.at(j, k)
}

proof fn lemma_same_reconstruction<T: Scalar>(
    a: DenseMatrix<T>,
    b: DenseMatrix<T>,
    c: DenseMatrix<T>,
    d: DenseMatrix<T>,
    i: int,
    j: int,
)
    requires
        same_rows(a, c),
        same_rows(b, d),
        a.rows() == b.rows(),
        0 <= i < 3,
        0 <= j < 3,
    ensures
        reconstruction_at(a, b, i, j) == reconstruction_at(c, d, i, j),
{
    sum_products_same(
        |k: int| a.at(k, i),
        |k: int| b.at(k, j),
        |k: int| c.at(k, i),
        |k: int| d.at(k, j),
        a.rows() as int,
    );
}

proof fn lemma_same_deviation<T: Scalar>(
    a: DenseMatrix<T>,
    b: DenseMatrix<T>,
    c: DenseMatrix<T>,
    d: DenseMatrix<T>,
    volume: T,
    n: int,
)
    requires
        same_rows(a, c),
        same_rows(b, d),
        a.rows() == b.rows(),
        n <= 9,
    ensures
        deviation(a, b, volume, n) == deviation(c, d, volume, n),
    decreases n,
{
    if n > 0 {
        lemma_same_deviation(a, b, c, d, volume, n - 1);
        lemma_same_reconstruction(a, b, c, d, (n - 1) / 3, (n - 1) % 3);
    }
}

proof fn lemma_same_gram<T: Scalar>(a: DenseMatrix<T>, b: DenseMatrix<T>)
    requires
        same_rows(a, b),
    ensures
        determinant3(gram(a)) == determinant3(gram(b)),
        forall|k: int, l: int|
            0 <= k < 3 && 0 <= l < 3 ==> #[trigger] gram_inverse_at(a, k, l) == gram_inverse_at(
                b,
                k,
                l,
            ),
{
    let (f, g) = (gram(a), gram(b));
    assert forall|k: int, l: int| 0 <= k < 3 && 0 <= l < 3 implies #[trigger] f(k, l) == g(
        k,
        l,
    ) by {
        lemma_same_reconstruction(a, a, b, b, k, l);
    }
    inverse_same(f, g);
    assert forall|k: int, l: int| 0 <= k < 3 && 0 <= l < 3 implies #[trigger] gram_inverse_at(
        a,
        k,
        l,
    ) == gram_inverse_at(b, k, l) by {
        assert(adjugate3(f, k, l) == adjugate3(g, k, l));
    }
}

proof fn lemma_same_consistent<T: Scalar>(
    a: DenseMatrix<T>,
    b: DenseMatrix<T>,
    volume: T,
    i: int,
    j: int,
)
    requires
        same_rows(a, b),
        0 <= i < a.rows(),
        0 <= j < a.rows(),
    ensures
        consistent_at(a, volume, i, j) == consistent_at(b, volume, i, j),
{
    sum_products_same(
        |k: int| a.at(i, k),
        |k: int| a.at(j, k),
        |k: int| b.at(i, k),
        |k: int| b.at(j, k),
        3,
    );
}

proof fn lemma_same_trace<T: Scalar>(a: DenseMatrix<T>, b: DenseMatrix<T>, volume: T, n: int)
    requires
        same_rows(a, b),
        n <= a.rows(),
    ensures
        consistent_trace(a, volume, n) == consistent_trace(b, volume, n),
    decreases n,
{
    if n > 0 {
        lemma_same_trace(a, b, volume, n - 1);
        lemma_same_consistent(a, b, volume, n - 1, n - 1);
    }
}

proof fn lemma_same_projector<T: Scalar>(a: DenseMatrix<T>, b: DenseMatrix<T>, i: int, j: int)
    requires
        same_rows(a, b),
        0 <= i < a.rows(),
        0 <= j < a.rows(),
    ensures
        projector_at(a, i, j) == projector_at(b, i, j),
{
    lemma_same_gram(a, b);
    let f = |k: int| sum_products(|l: int| a.at(i, l), |l: int| gram_inverse_at(a, l, k), 3);
    let g = |k: int| sum_products(|l: int| b.at(i, l), |l: int| gram_inverse_at(b, l, k), 3);
    assert forall|k: int| 0 <= k < 3 implies #[trigger] f(k) == g(k) by {
        sum_products_same(
            |l: int| a.at(i, l),
            |l: int| gram_inverse_at(a, l, k),
            |l: int| b.at(i, l),
            |l: int| gram_inverse_at(b, l, k),
            3,
        );
    }
    sum_products_same(f, |k: int| a.at(j, k), g, |k: int| b.at(j, k), 3);
}

/// The block depends on the values of the vectors only.
proof fn lemma_same_block<T: Scalar>(
    g: BarycentricDualGeometry<T>,
    h: BarycentricDualGeometry<T>,
    factor: T,
    i: int,
    j: int,
)
    requires
        same_rows(g.primal, h.primal),
        same_rows(g.dual, h.dual),
        g.primal.rows() == g.dual.rows(),
        g.volume == h.volume,
        0 <= i < g.primal.rows(),
        0 <= j < g.primal.rows(),
    ensures
        inverse_block_at(g.primal, g.dual, g.volume, factor, i, j) == inverse_block_at(
            h.primal,
            h.dual,
            h.volume,
            factor,
            i,
            j,
        ),
{
    lemma_same_consistent(g.primal, h.primal, g.volume, i, j);
    lemma_same_consistent(g.primal, h.primal, g.volume, j, i);
    lemma_same_projector(g.dual, h.dual, i, j);
    lemma_same_projector(g.dual, h.dual, j, i);
    lemma_same_trace(g.primal, h.primal, g.volume, g.primal.rows() as int);
    assert(stabilized_at(g.primal, g.dual, g.volume, factor, i, j) == stabilized_at(
        h.primal,
        h.dual,
        h.volume,
        factor,
        i,
        j,
    ));
}

/// Any geometry around a vertex stands for all of them.
proof fn lemma_geometry<T: Scalar>(
    g: BarycentricDualGeometry<T>,
    topology: Complex,
    coords: MeshCoords<T>,
    volumes: Seq<T>,
    vertex: usize,
    grade: nat,
)
    requires
        is_geometry(g, topology, coords, volumes, vertex, grade),
    ensures
        ({
            let h = geometry_of(topology, coords, volumes, vertex, grade);
            &&& same_rows(g.primal, h.primal)
            &&& same_rows(g.dual, h.dual)
            &&& g.primal.rows() == g.dual.rows()
            &&& g.volume == h.volume
        }),
{
    let h = geometry_of(topology, coords, volumes, vertex, grade);
    assert(is_geometry(h, topology, coords, volumes, vertex, grade));
}

/// The outcome around a vertex that is known to be positive definite or not.
proof fn lemma_outcome<T: Scalar>(
    outcome: Result<BarycentricDualLocalBlock<T>, String>,
    g: BarycentricDualGeometry<T>,
    topology: Complex,
    coords: MeshCoords<T>,
    volumes: Seq<T>,
    vertex: usize,
    grade: nat,
    config: BarycentricDualSparseInverseConfig<T>,
    positive_definite: bool,
)
    requires
        is_geometry(g, topology, coords, volumes, vertex, grade),
        geometry_fault(topology, coords, volumes, vertex, grade) is None,
        is_local_outcome(outcome, g, vertex as nat, grade, config),
    ensures
        ({
            let fault = vertex_fault(
                topology,
                coords,
                volumes,
                vertex,
                grade,
                config,
                positive_definite,
            );
            &&& outcome matches Err(text) ==> fault == Some(text@)
            &&& outcome matches Ok(local) ==> fault == (if positive_definite {
                None
            } else {
                Some(definiteness_fault(vertex as nat, grade))
            }) && {
                let around = simplices_around(topology, grade as int, vertex);
                let values = local.inverse_block.listed();
                &&& values.len() == around.len() * around.len()
                &&& local.simplex_kidxs@.len() == around.len()
                &&& forall|i: int|
                    0 <= i < around.len() ==> #[trigger] local.simplex_kidxs@[i]
                        < topology.simplices(grade as int).len()
                &&& block_triplets(
                    local.simplex_kidxs@,
                    local.simplex_kidxs@,
                    values,
                    values.len() as int,
                ) == vertex_entries(topology, coords, volumes, vertex, grade, config)
            }
        }),
{
    let h = geometry_of(topology, coords, volumes, vertex, grade);
    lemma_geometry(g, topology, coords, volumes, vertex, grade);
    lemma_same_deviation(g.primal, g.dual, h.primal, h.dual, g.volume, 9);
    lemma_same_gram(g.dual, h.dual);
    if let Ok(local) = outcome {
        let around = simplices_around(topology, grade as int, vertex);
        let n = around.len() as int;
        let factor = config.stabilization_factor;
        let values = local.inverse_block.listed();
        let holds = |i: int| topology.simplices(grade as int)[i].contains(vertex);
        local.inverse_block.listed_at();
        assert forall|i: int| 0 <= i < n implies #[trigger] local.simplex_kidxs@[i]
            < topology.simplices(grade as int).len() && local.simplex_kidxs@[i] == around[i] by {
            assert(g.simplex_kidxs@[i] == around[i]);
            assert(around.contains(around[i]));
            indices_where_members(topology.simplices(grade as int).len() as int, holds, around[i]);
        }
        assert(local.simplex_kidxs@ =~= Seq::new(around.len(), |i: int| around[i] as usize));
        assert(is_inverse_block(local.inverse_block, g.primal, g.dual, g.volume, factor));
        let all = block_values(h, factor, around.len());
        assert(n * n >= 0) by (nonlinear_arith);
        assert forall|p: int| 0 <= p < n * n implies #[trigger] values[p] == all[p] by {
            lemma_place(p, n);
            let (i, j) = (p / n, p % n);
            assert(local.inverse_block.at(i, j) == values[i * n + j]);
            lemma_same_block(g, h, factor, i, j);
        }
        assert(values =~= all);
    }
}

/// A place in a square that is listed row by row.
proof fn lemma_place(p: int, n: int)
    requires
        0 <= p < n * n,
        n >= 0,
    ensures
        0 <= p / n < n,
        0 <= p % n < n,
        (p / n) * n + p % n == p,
{
    assert(n > 0) by (nonlinear_arith)
        requires
            0 <= p < n * n,
            n >= 0,
    ;
    vstd::arithmetic::div_mod::lemma_fundamental_div_mod(p, n);
    vstd::arithmetic::div_mod::lemma_mod_bound(p, n);
    assert(0 <= p / n < n && (p / n) * n + p % n == p) by (nonlinear_arith)
        requires
            p == n * (p / n) + p % n,
            0 <= p % n < n,
            0 <= p < n * n,
    ;
}

/// The first fault among some vertices is that among more of them.
proof fn lemma_fault_stays<T: Scalar>(
    topology: Complex,
    coords: MeshCoords<T>,
    volumes: Seq<T>,
    grade: nat,
    config: BarycentricDualSparseInverseConfig<T>,
    positive_definite: Seq<bool>,
    m: int,
    n: int,
)
    requires
        m <= n,
        first_fault(topology, coords, volumes, grade, config, positive_definite, m) is Some,
    ensures
        first_fault(topology, coords, volumes, grade, config, positive_definite, n) == first_fault(
            topology,
            coords,
            volumes,
            grade,
            config,
            positive_definite,
            m,
        ),
    decreases n - m,
{
    if m < n {
        lemma_fault_stays(
            topology,
            coords,
            volumes,
            grade,
            config,
            positive_definite,
            m,
            n - 1,
        );
    }
}

/// The sparse inverse of the mass of a grade, from the volumes of the cells and from what is known
/// of each vertex: whether the block around it is positive definite.
pub fn assemble_barycentric_dual_sparse_inverse_galmat_for_grade<T: Scalar>(
    topology: &Complex,
    coords: &MeshCoords<T>,
    volumes: &[T],
    grade: Dim,
    config: BarycentricDualSparseInverseConfig<T>,
    positive_definite: &[bool],
) -> (galmat: Result<GalMat<T>, String>)
    requires
        topology.wf(),
        config_fault(
            topology.dimension() as nat,
            coords.dim as nat,
            grade as nat,
            config,
        ) is None ==> dual_inputs_fit(
            *topology,
            *coords,
            volumes@,
            grade as int,
            positive_definite@,
        ),
    ensures
        match dual_fault(
            *topology,
            *coords,
            volumes@,
            grade as nat,
            config,
            positive_definite@,
        ) {
            Some(message) => galmat matches Err(text) && text@ == message,
            None => galmat matches Ok(m) && {
                &&& m.wf()
                &&& m.rows() == topology.simplices(grade as int).len()
                &&& m.cols() == topology.simplices(grade as int).len()
                &&& m.entries() == local_entries(
                    *topology,
                    *coords,
                    volumes@,
                    grade as nat,
                    config,
                    topology.simplices(0).len() as int,
                )
            },
        },
{
    match validate_barycentric_dual_config(topology, coords, grade, config) {
        Ok(()) => {},
        Err(text) => {
            return Err(text);
        },
    }
    let n: usize = topology.nsimplices(grade);
    let nvertices: usize = topology.nsimplices(0);
    let mut galmat: CooMatrix<T> = CooMatrix::zeros(n, n);
    let mut v: usize = 0;
    while v < nvertices
        invariant
            v <= nvertices,
            topology.wf(),
            n == topology.simplices(grade as int).len(),
            nvertices == topology.simplices(0).len(),
            config_fault(
                topology.dimension() as nat,
                coords.dim as nat,
                grade as nat,
                config,
            ) is None,
            dual_inputs_fit(*topology, *coords, volumes@, grade as int, positive_definite@),
            galmat.wf(),
            galmat.rows() == n,
            galmat.cols() == n,
            galmat.entries() == local_entries(
                *topology,
                *coords,
                volumes@,
                grade as nat,
                config,
                v as int,
            ),
            first_fault(
                *topology,
                *coords,
                volumes@,
                grade as nat,
                config,
                positive_definite@,
                v as int,
            ) is None,
        decreases nvertices - v,
    {
        let ghost fault = vertex_fault(
            *topology,
            *coords,
            volumes@,
            v,
            grade as nat,
            config,
            positive_definite@[v as int],
        );
        proof {
            assert(vertex_fits(*topology, grade as int, v as int as usize));
            assert((v + 1 - 1) as usize == v);
            assert(fault == first_fault(
                *topology,
                *coords,
                volumes@,
                grade as nat,
                config,
                positive_definite@,
                v + 1,
            ));
            if fault is Some {
                lemma_fault_stays(
                    *topology,
                    *coords,
                    volumes@,
                    grade as nat,
                    config,
                    positive_definite@,
                    v + 1,
                    nvertices as int,
                );
            }
        }
        let outcome = barycentric_dual_sparse_inverse_local_block(
            topology,
            coords,
            volumes,
            v,
            grade,
            config,
        );
        proof {
            if geometry_fault(*topology, *coords, volumes@, v, grade as nat) is None {
                let g = choose|g: BarycentricDualGeometry<T>|
                    is_geometry(g, *topology, *coords, volumes@, v, grade as nat)
                        && #[trigger] is_local_outcome(
                        outcome,
                        g,
                        v as nat,
                        grade as nat,
                        config,
                    );
                lemma_outcome(
                    outcome,
                    g,
                    *topology,
                    *coords,
                    volumes@,
                    v,
                    grade as nat,
                    config,
                    positive_definite@[v as int],
                );
            }
        }
        let local = match outcome {
            Ok(local) => local,
            Err(text) => {
                return Err(text);
            },
        };
        match require_positive_definite(v, grade, positive_definite[v]) {
            Ok(()) => {},
            Err(text) => {
                return Err(text);
            },
        }
        push_block(
            &mut galmat,
            local.simplex_kidxs.as_slice(),
            local.simplex_kidxs.as_slice(),
            local.inverse_block.as_slice(),
        );
        v = v + 1;
    }
    Ok(galmat)
}

/// The sparse inverse of the mass of one-forms.
pub fn assemble_barycentric_dual_1form_sparse_inverse_galmat<T: Scalar>(
    topology: &Complex,
    coords: &MeshCoords<T>,
    volumes: &[T],
    config: BarycentricDualSparseInverseConfig<T>,
    positive_definite: &[bool],
) -> (galmat: Result<GalMat<T>, String>)
    requires
        topology.wf(),
        config_fault(topology.dimension() as nat, coords.dim as nat, 1, config) is None
            ==> dual_inputs_fit(*topology, *coords, volumes@, 1, positive_definite@),
    ensures
        match dual_fault(*topology, *coords, volumes@, 1, config, positive_definite@) {
            Some(message) => galmat matches Err(text) && text@ == message,
            None => galmat matches Ok(m) && {
                &&& m.wf()
                &&& m.rows() == topology.simplices(1).len()
                &&& m.cols() == topology.simplices(1).len()
                &&& m.entries() == local_entries(
                    *topology,
                    *coords,
                    volumes@,
                    1,
                    config,
                    topology.simplices(0).len() as int,
                )
            },
        },
{
    assemble_barycentric_dual_sparse_inverse_galmat_for_grade(
        topology,
        coords,
        volumes,
        1,
        config,
        positive_definite,
    )
}

/// The sparse inverse of the mass of two-forms.
pub fn assemble_barycentric_dual_2form_sparse_inverse_galmat<T: Scalar>(
    topology: &Complex,
    coords: &MeshCoords<T>,
    volumes: &[T],
    config: BarycentricDualSparseInverseConfig<T>,
    positive_definite: &[bool],
) -> (galmat: Result<GalMat<T>, String>)
    requires
        topology.wf(),
        config_fault(topology.dimension() as nat, coords.dim as nat, 2, config) is None
            ==> dual_inputs_fit(*topology, *coords, volumes@, 2, positive_definite@),
    ensures
        match dual_fault(*topology, *coords, volumes@, 2, config, positive_definite@) {
            Some(message) => galmat matches Err(text) && text@ == message,
            None => galmat matches Ok(m) && {
                &&& m.wf()
                &&& m.rows() == topology.simplices(2).len()
                &&& m.cols() == topology.simplices(2).len()
                &&& m.entries() == local_entries(
                    *topology,
                    *coords,
                    volumes@,
                    2,
                    config,
                    topology.simplices(0).len() as int,
                )
            },
        },
{
    assemble_barycentric_dual_sparse_inverse_galmat_for_grade(
        topology,
        coords,
        volumes,
        2,
        config,
        positive_definite,
    )
}

} // verus!
