//! Galerkin matrices and vectors from geometries.

use crate::assemble::galerkin::GalMat;
use crate::assemble::nonconforming::{
    assemble_nc_galmat, cell_dof_count, dof_count, nc_galmat_entries, nc_supported,
};
use crate::exterior::{exterior_dim_spec, ExteriorGrade};
use crate::linalg::dense::DenseMatrix;
use crate::linalg::scalar::Scalar;
use crate::operators::elements::{CoordAwareElMatProvider, ElMatProvider, SimplexGeometry};
use crate::operators::quadrature_elements::{
    is_lumped_nc_mass, is_nc_mass, is_weighted_nc_mass, Nc1MassElmat, Nc2MassElmat,
    NcLumpedMassElmat,
};
use crate::operators::reference::{reference_fits, reference_sizes, standard_subsimps_spec};
use crate::operators::source::ElVecProvider;
use crate::operators::weights::{ApplyWeight, ScalarWeight, SimplexQuadRule};
use crate::problems::elimination::copy_of;
use crate::topology::complex::Complex;
use vstd::prelude::*;

verus! {

/// Some matrix that a predicate admits, row by row.
pub open spec fn lists_elmat<T: Scalar, P: ElMatProvider<T>>(
    provider: P,
    geometry: SimplexGeometry<T>,
    list: Seq<T>,
) -> bool {
    exists|m: DenseMatrix<T>| #[trigger] provider.is_elmat(m, geometry) && m.listed() == list
}

/// The element matrices of all cells, row by row.
pub fn elmats_of<T: Scalar, P: ElMatProvider<T>>(
    provider: &P,
    geometries: &Vec<SimplexGeometry<T>>,
) -> (elmats: Vec<Vec<T>>)
    requires
        forall|i: int| 0 <= i < geometries@.len() ==> provider.accepts(#[trigger] geometries@[i]),
    ensures
        elmats@.len() == geometries@.len(),
        forall|i: int|
            0 <= i < elmats@.len() ==> lists_elmat(
                *provider,
                geometries@[i],
                (#[trigger] elmats@[i])@,
            ),
{
    let mut elmats: Vec<Vec<T>> = Vec::new();
    let mut i: usize = 0;
    while i < geometries.len()
        invariant
            i <= geometries@.len(),
            forall|i: int|
                0 <= i < geometries@.len() ==> provider.accepts(#[trigger] geometries@[i]),
            elmats@.len() == i,
            forall|k: int|
                0 <= k < i ==> lists_elmat(*provider, geometries@[k], (#[trigger] elmats@[k])@),
        decreases geometries@.len() - i,
    {
        proof {
            assert(provider.accepts(geometries@[i as int]));
        }
        let m = provider.eval(&geometries[i]);
        let list = copy_of(m.as_slice());
        proof {
            assert(provider.is_elmat(m, geometries@[i as int]));
            assert(lists_elmat(*provider, geometries@[i as int], list@));
        }
        elmats.push(list);
        i = i + 1;
    }
    elmats
}

/// Some weighted matrix that a predicate admits, row by row.
pub open spec fn lists_weighted_elmat<
    T: Scalar,
    W: ApplyWeight<T>,
    P: CoordAwareElMatProvider<T, W>,
>(provider: P, geometry: SimplexGeometry<T>, weight: W, list: Seq<T>) -> bool {
    exists|m: DenseMatrix<T>|
        #[trigger] provider.is_weighted_elmat(m, geometry, weight) && m.listed() == list
}

/// The weighted element matrices of all cells, row by row.
pub fn weighted_elmats_of<T: Scalar, W: ApplyWeight<T>, P: CoordAwareElMatProvider<T, W>>(
    provider: &P,
    geometries: &Vec<SimplexGeometry<T>>,
    weights: &Vec<W>,
) -> (elmats: Vec<Vec<T>>)
    requires
        weights@.len() == geometries@.len(),
        forall|i: int|
            0 <= i < geometries@.len() ==> provider.accepts_weight(
                #[trigger] geometries@[i],
                weights@[i],
            ),
    ensures
        elmats@.len() == geometries@.len(),
        forall|i: int|
            0 <= i < elmats@.len() ==> lists_weighted_elmat(
                *provider,
                geometries@[i],
                weights@[i],
                (#[trigger] elmats@[i])@,
            ),
{
    let mut elmats: Vec<Vec<T>> = Vec::new();
    let mut i: usize = 0;
    while i < geometries.len()
        invariant
            i <= geometries@.len(),
            weights@.len() == geometries@.len(),
            forall|i: int|
                0 <= i < geometries@.len() ==> provider.accepts_weight(
                    #[trigger] geometries@[i],
                    weights@[i],
                ),
            elmats@.len() == i,
            forall|k: int|
                0 <= k < i ==> lists_weighted_elmat(
                    *provider,
                    geometries@[k],
                    weights@[k],
                    (#[trigger] elmats@[k])@,
                ),
        decreases geometries@.len() - i,
    {
        proof {
            assert(provider.accepts_weight(geometries@[i as int], weights@[i as int]));
        }
        let m = provider.eval_with_coords(&geometries[i], &weights[i]);
        let list = copy_of(m.as_slice());
        proof {
            assert(provider.is_weighted_elmat(m, geometries@[i as int], weights@[i as int]));
            assert(lists_weighted_elmat(
                *provider,
                geometries@[i as int],
                weights@[i as int],
                list@,
            ));
        }
        elmats.push(list);
        i = i + 1;
    }
    elmats
}

/// The element vectors of all cells.
pub fn elvecs_of<T: Scalar, P: ElVecProvider<T>>(
    provider: &P,
    geometries: &Vec<SimplexGeometry<T>>,
) -> (elvecs: Vec<Vec<T>>)
    requires
        forall|i: int|
            0 <= i < geometries@.len() ==> provider.accepts(#[trigger] geometries@[i], i),
    ensures
        elvecs@.len() == geometries@.len(),
        forall|i: int|
            0 <= i < elvecs@.len() ==> (#[trigger] elvecs@[i])@ == provider.elvec(
                geometries@[i],
                i,
            ),
{
    let mut elvecs: Vec<Vec<T>> = Vec::new();
    let mut i: usize = 0;
    while i < geometries.len()
        invariant
            i <= geometries@.len(),
            forall|i: int|
                0 <= i < geometries@.len() ==> provider.accepts(#[trigger] geometries@[i], i),
            elvecs@.len() == i,
            forall|k: int|
                0 <= k < i ==> (#[trigger] elvecs@[k])@ == provider.elvec(geometries@[k], k),
        decreases geometries@.len() - i,
    {
        proof {
            assert(provider.accepts(geometries@[i as int], i as int));
        }
        elvecs.push(provider.eval(&geometries[i], i));
        i = i + 1;
    }
    elvecs
}

/// A lumped element matrix, row by row.
pub open spec fn lists_one_lumped<T: Scalar>(
    list: Seq<T>,
    geometry: SimplexGeometry<T>,
    grade: nat,
    weight: Option<T>,
) -> bool {
    exists|m: DenseMatrix<T>|
        #[trigger] is_lumped_nc_mass(m, geometry, grade, weight) && m.listed() == list
}

/// An element matrix by a rule, row by row.
pub open spec fn lists_one_mass<T: Scalar>(
    list: Seq<T>,
    geometry: SimplexGeometry<T>,
    grade: nat,
    rule: SimplexQuadRule<T>,
) -> bool {
    exists|m: DenseMatrix<T>|
        #[trigger] is_nc_mass(m, geometry, grade, rule) && m.listed() == list
}

/// A weighted element matrix by a rule, row by row.
pub open spec fn lists_one_mass_weighted<T: Scalar, W: ApplyWeight<T>>(
    list: Seq<T>,
    geometry: SimplexGeometry<T>,
    grade: nat,
    rule: SimplexQuadRule<T>,
    weight: W,
) -> bool {
    exists|m: DenseMatrix<T>|
        #[trigger] is_weighted_nc_mass(m, geometry, grade, rule, weight) && m.listed() == list
}

/// Geometries for all cells of a mesh, for forms of a degree below its dimension.
pub open spec fn nc_geometries<T: Scalar>(
    topology: Complex,
    grade: int,
    geometries: Seq<SimplexGeometry<T>>,
) -> bool {
    &&& nc_supported(&topology, grade)
    &&& reference_fits(topology.dimension() as nat, grade as nat)
    &&& geometries.len() == topology.simplices(topology.dimension() as int).len()
    &&& forall|i: int|
        0 <= i < geometries.len() ==> (#[trigger] geometries[i]).wf() && geometries[i].dim
            == topology.dimension()
}

/// A nonconforming Galerkin matrix of the given element matrices.
pub open spec fn is_nc_galmat<T: Scalar>(
    galmat: GalMat<T>,
    topology: Complex,
    grade: int,
    elmats: Seq<Vec<T>>,
) -> bool {
    &&& galmat.wf()
    &&& galmat.rows() == dof_count(&topology, grade)
    &&& galmat.cols() == dof_count(&topology, grade)
    &&& galmat.entries() == nc_galmat_entries(&topology, grade, elmats, elmats.len() as int)
}

proof fn lemma_list_length<T: Scalar>(topology: &Complex, grade: int, m: DenseMatrix<T>)
    requires
        nc_supported(topology, grade),
        reference_fits(topology.dimension() as nat, grade as nat),
        m.wf(),
        m.rows() == (grade + 1) * standard_subsimps_spec(
            topology.dimension() as nat,
            grade as nat,
        ).len(),
        m.cols() == m.rows(),
    ensures
        m.listed().len() == cell_dof_count(topology, grade) * cell_dof_count(topology, grade),
{
    reference_sizes(topology.dimension() as nat, grade as nat);
    m.listed_at();
}

/// The lumped element matrices of all cells, row by row.
pub open spec fn lists_lumped<T: Scalar>(
    elmats: Seq<Vec<T>>,
    geometries: Seq<SimplexGeometry<T>>,
    grade: nat,
) -> bool {
    &&& elmats.len() == geometries.len()
    &&& forall|i: int|
        0 <= i < elmats.len() ==> lists_one_lumped(
            (#[trigger] elmats[i])@,
            geometries[i],
            grade,
            None,
        )
}

/// Some lumped element matrices make up the Galerkin matrix.
pub open spec fn is_lumped_galmat<T: Scalar>(
    galmat: GalMat<T>,
    topology: Complex,
    grade: int,
    geometries: Seq<SimplexGeometry<T>>,
) -> bool {
    exists|elmats: Seq<Vec<T>>|
        #[trigger] lists_lumped(elmats, geometries, grade as nat) && is_nc_galmat(
            galmat,
            topology,
            grade,
            elmats,
        )
}

/// The lumped mass of the functions of slots.
pub fn assemble_nc_lumped_mass_galmat<T: Scalar>(
    topology: &Complex,
    grade: ExteriorGrade,
    geometries: &Vec<SimplexGeometry<T>>,
) -> (galmat: GalMat<T>)
    requires
        nc_geometries(*topology, grade as int, geometries@),
    ensures
        is_lumped_galmat(galmat, *topology, grade as int, geometries@),
{
    let provider = NcLumpedMassElmat::new(topology.dim(), grade);
    let mut elmats: Vec<Vec<T>> = Vec::new();
    let mut i: usize = 0;
    while i < geometries.len()
        invariant
            i <= geometries@.len(),
            nc_geometries(*topology, grade as int, geometries@),
            provider.dimension() == topology.dimension(),
            provider.degree() == grade,
            elmats@.len() == i,
            forall|k: int|
                0 <= k < i ==> (#[trigger] elmats@[k])@.len() == cell_dof_count(
                    topology,
                    grade as int,
                ) * cell_dof_count(topology, grade as int),
            forall|k: int|
                0 <= k < i ==> lists_one_lumped(
                    (#[trigger] elmats@[k])@,
                    geometries@[k],
                    grade as nat,
                    None,
                ),
        decreases geometries@.len() - i,
    {
        proof {
            assert(geometries@[i as int].wf());
        }
        let m = provider.eval(&geometries[i]);
        let list = copy_of(m.as_slice());
        proof {
            lemma_list_length(topology, grade as int, m);
            assert(is_lumped_nc_mass(m, geometries@[i as int], grade as nat, None));
            assert(lists_one_lumped(
                list@,
                geometries@[i as int],
                grade as nat,
                None,
            ));
        }
        elmats.push(list);
        i = i + 1;
    }
    let galmat = assemble_nc_galmat(topology, grade, &elmats);
    proof {
        assert(lists_lumped(elmats@, geometries@, grade as nat));
    }
    galmat
}

/// The lumped mass for the slots of edges.
pub fn assemble_nc1_lumped_mass_galmat<T: Scalar>(
    topology: &Complex,
    geometries: &Vec<SimplexGeometry<T>>,
) -> (galmat: GalMat<T>)
    requires
        nc_geometries(*topology, 1, geometries@),
    ensures
        is_lumped_galmat(galmat, *topology, 1, geometries@),
{
    assemble_nc_lumped_mass_galmat(topology, 1, geometries)
}

/// The lumped mass for the slots of faces.
pub fn assemble_nc2_lumped_mass_galmat<T: Scalar>(
    topology: &Complex,
    geometries: &Vec<SimplexGeometry<T>>,
) -> (galmat: GalMat<T>)
    requires
        nc_geometries(*topology, 2, geometries@),
    ensures
        is_lumped_galmat(galmat, *topology, 2, geometries@),
{
    assemble_nc_lumped_mass_galmat(topology, 2, geometries)
}

/// The lumped and weighted element matrices of all cells, row by row.
pub open spec fn lists_lumped_weighted<T: Scalar>(
    elmats: Seq<Vec<T>>,
    geometries: Seq<SimplexGeometry<T>>,
    grade: nat,
    weights: Seq<ScalarWeight<T>>,
) -> bool {
    &&& elmats.len() == geometries.len()
    &&& forall|i: int|
        0 <= i < elmats.len() ==> lists_one_lumped(
            (#[trigger] elmats[i])@,
            geometries[i],
            grade,
            Some(weights[i].value),
        )
}

/// Some lumped and weighted element matrices make up the Galerkin matrix.
pub open spec fn is_lumped_galmat_weighted<T: Scalar>(
    galmat: GalMat<T>,
    topology: Complex,
    grade: int,
    geometries: Seq<SimplexGeometry<T>>,
    weights: Seq<ScalarWeight<T>>,
) -> bool {
    exists|elmats: Seq<Vec<T>>|
        #[trigger] lists_lumped_weighted(elmats, geometries, grade as nat, weights) && is_nc_galmat(
            galmat,
            topology,
            grade,
            elmats,
        )
}

/// The lumped mass of the functions of slots, with a weight for each cell.
pub fn assemble_nc_lumped_mass_galmat_weighted<T: Scalar>(
    topology: &Complex,
    grade: ExteriorGrade,
    geometries: &Vec<SimplexGeometry<T>>,
    weights: &Vec<ScalarWeight<T>>,
) -> (galmat: GalMat<T>)
    requires
        nc_geometries(*topology, grade as int, geometries@),
        weights@.len() == geometries@.len(),
    ensures
        is_lumped_galmat_weighted(galmat, *topology, grade as int, geometries@, weights@),
{
    let provider = NcLumpedMassElmat::new(topology.dim(), grade);
    let mut elmats: Vec<Vec<T>> = Vec::new();
    let mut i: usize = 0;
    while i < geometries.len()
        invariant
            i <= geometries@.len(),
            nc_geometries(*topology, grade as int, geometries@),
            weights@.len() == geometries@.len(),
            provider.dimension() == topology.dimension(),
            provider.degree() == grade,
            elmats@.len() == i,
            forall|k: int|
                0 <= k < i ==> (#[trigger] elmats@[k])@.len() == cell_dof_count(
                    topology,
                    grade as int,
                ) * cell_dof_count(topology, grade as int),
            forall|k: int|
                0 <= k < i ==> lists_one_lumped(
                    (#[trigger] elmats@[k])@,
                    geometries@[k],
                    grade as nat,
                    Some(weights@[k].value),
                ),
        decreases geometries@.len() - i,
    {
        proof {
            assert(geometries@[i as int].wf());
        }
        let m = provider.eval_with_coords(&geometries[i], &weights[i]);
        let list = copy_of(m.as_slice());
        proof {
            lemma_list_length(topology, grade as int, m);
            assert(is_lumped_nc_mass(m, geometries@[i as int], grade as nat, Some(weights@[i as int].value)));
            assert(lists_one_lumped(
                list@,
                geometries@[i as int],
                grade as nat,
                Some(weights@[i as int].value),
            ));
        }
        elmats.push(list);
        i = i + 1;
    }
    let galmat = assemble_nc_galmat(topology, grade, &elmats);
    proof {
        assert(lists_lumped_weighted(elmats@, geometries@, grade as nat, weights@));
    }
    galmat
}

/// The lumped mass for the slots of edges, with a weight for each cell.
pub fn assemble_nc1_lumped_mass_galmat_weighted<T: Scalar>(
    topology: &Complex,
    geometries: &Vec<SimplexGeometry<T>>,
    weights: &Vec<ScalarWeight<T>>,
) -> (galmat: GalMat<T>)
    requires
        nc_geometries(*topology, 1, geometries@),
        weights@.len() == geometries@.len(),
    ensures
        is_lumped_galmat_weighted(galmat, *topology, 1, geometries@, weights@),
{
    assemble_nc_lumped_mass_galmat_weighted(topology, 1, geometries, weights)
}

/// The lumped mass for the slots of faces, with a weight for each cell.
pub fn assemble_nc2_lumped_mass_galmat_weighted<T: Scalar>(
    topology: &Complex,
    geometries: &Vec<SimplexGeometry<T>>,
    weights: &Vec<ScalarWeight<T>>,
) -> (galmat: GalMat<T>)
    requires
        nc_geometries(*topology, 2, geometries@),
        weights@.len() == geometries@.len(),
    ensures
        is_lumped_galmat_weighted(galmat, *topology, 2, geometries@, weights@),
{
    assemble_nc_lumped_mass_galmat_weighted(topology, 2, geometries, weights)
}

/// The element matrices of all cells by a rule, row by row.
pub open spec fn lists_mass<T: Scalar>(
    elmats: Seq<Vec<T>>,
    geometries: Seq<SimplexGeometry<T>>,
    grade: nat,
    rule: SimplexQuadRule<T>,
) -> bool {
    &&& elmats.len() == geometries.len()
    &&& forall|i: int|
        0 <= i < elmats.len() ==> lists_one_mass((#[trigger] elmats[i])@, geometries[i], grade, rule)
}

/// Some element matrices by a rule make up the Galerkin matrix.
pub open spec fn is_mass_galmat<T: Scalar>(
    galmat: GalMat<T>,
    topology: Complex,
    grade: int,
    geometries: Seq<SimplexGeometry<T>>,
    rule: SimplexQuadRule<T>,
) -> bool {
    exists|elmats: Seq<Vec<T>>|
        #[trigger] lists_mass(elmats, geometries, grade as nat, rule) && is_nc_galmat(
            galmat,
            topology,
            grade,
            elmats,
        )
}

/// The mass of the functions of the slots of edges by a rule.
pub fn assemble_nc1_mass_galmat<T: Scalar>(
    topology: &Complex,
    geometries: &Vec<SimplexGeometry<T>>,
    rule: &SimplexQuadRule<T>,
) -> (galmat: GalMat<T>)
    requires
        nc_geometries(*topology, 1, geometries@),
        topology.dimension() <= 3,
        rule.wf(),
        rule.dim == topology.dimension(),
    ensures
        is_mass_galmat(galmat, *topology, 1, geometries@, *rule),
{
    let provider = Nc1MassElmat::new(topology.dim());
    let mut elmats: Vec<Vec<T>> = Vec::new();
    let mut i: usize = 0;
    while i < geometries.len()
        invariant
            i <= geometries@.len(),
            nc_geometries(*topology, 1, geometries@),
            rule.wf(),
            rule.dim == topology.dimension(),
            provider.dimension() == topology.dimension(),
            elmats@.len() == i,
            forall|k: int|
                0 <= k < i ==> (#[trigger] elmats@[k])@.len() == cell_dof_count(topology, 1)
                    * cell_dof_count(topology, 1),
            forall|k: int|
                0 <= k < i ==> lists_one_mass((#[trigger] elmats@[k])@, geometries@[k], 1, *rule),
        decreases geometries@.len() - i,
    {
        proof {
            assert(geometries@[i as int].wf());
        }
        let m = provider.eval(&geometries[i], rule);
        let list = copy_of(m.as_slice());
        proof {
            lemma_list_length(topology, 1, m);
            assert(is_nc_mass(m, geometries@[i as int], 1, *rule));
            assert(lists_one_mass(list@, geometries@[i as int], 1, *rule));
        }
        elmats.push(list);
        i = i + 1;
    }
    let galmat = assemble_nc_galmat(topology, 1, &elmats);
    proof {
        assert(lists_mass(elmats@, geometries@, 1, *rule));
    }
    galmat
}

/// The mass of the functions of the slots of faces by a rule.
pub fn assemble_nc2_mass_galmat<T: Scalar>(
    topology: &Complex,
    geometries: &Vec<SimplexGeometry<T>>,
    rule: &SimplexQuadRule<T>,
) -> (galmat: GalMat<T>)
    requires
        nc_geometries(*topology, 2, geometries@),
        topology.dimension() <= 3,
        rule.wf(),
        rule.dim == topology.dimension(),
    ensures
        is_mass_galmat(galmat, *topology, 2, geometries@, *rule),
{
    let provider = Nc2MassElmat::new(topology.dim());
    let mut elmats: Vec<Vec<T>> = Vec::new();
    let mut i: usize = 0;
    while i < geometries.len()
        invariant
            i <= geometries@.len(),
            nc_geometries(*topology, 2, geometries@),
            rule.wf(),
            rule.dim == topology.dimension(),
            provider.dimension() == topology.dimension(),
            elmats@.len() == i,
            forall|k: int|
                0 <= k < i ==> (#[trigger] elmats@[k])@.len() == cell_dof_count(topology, 2)
                    * cell_dof_count(topology, 2),
            forall|k: int|
                0 <= k < i ==> lists_one_mass((#[trigger] elmats@[k])@, geometries@[k], 2, *rule),
        decreases geometries@.len() - i,
    {
        proof {
            assert(geometries@[i as int].wf());
        }
        let m = provider.eval(&geometries[i], rule);
        let list = copy_of(m.as_slice());
        proof {
            lemma_list_length(topology, 2, m);
            assert(is_nc_mass(m, geometries@[i as int], 2, *rule));
            assert(lists_one_mass(list@, geometries@[i as int], 2, *rule));
        }
        elmats.push(list);
        i = i + 1;
    }
    let galmat = assemble_nc_galmat(topology, 2, &elmats);
    proof {
        assert(lists_mass(elmats@, geometries@, 2, *rule));
    }
    galmat
}

/// The weighted element matrices of all cells by a rule, row by row.
pub open spec fn lists_mass_weighted<T: Scalar, W: ApplyWeight<T>>(
    elmats: Seq<Vec<T>>,
    geometries: Seq<SimplexGeometry<T>>,
    grade: nat,
    rule: SimplexQuadRule<T>,
    weights: Seq<W>,
) -> bool {
    &&& elmats.len() == geometries.len()
    &&& forall|i: int|
        0 <= i < elmats.len() ==> lists_one_mass_weighted((#[trigger] elmats[i])@, geometries[i], grade, rule, weights[i])
}

/// Some weighted element matrices by a rule make up the Galerkin matrix.
pub open spec fn is_mass_galmat_weighted<T: Scalar, W: ApplyWeight<T>>(
    galmat: GalMat<T>,
    topology: Complex,
    grade: int,
    geometries: Seq<SimplexGeometry<T>>,
    rule: SimplexQuadRule<T>,
    weights: Seq<W>,
) -> bool {
    exists|elmats: Seq<Vec<T>>|
        #[trigger] lists_mass_weighted(elmats, geometries, grade as nat, rule, weights) && is_nc_galmat(
            galmat,
            topology,
            grade,
            elmats,
        )
}

/// The mass of the functions of the slots of edges by a rule, with a weight for each cell.
pub fn assemble_nc1_mass_galmat_weighted<T: Scalar, W: ApplyWeight<T>>(
    topology: &Complex,
    geometries: &Vec<SimplexGeometry<T>>,
    rule: &SimplexQuadRule<T>,
    weights: &Vec<W>,
) -> (galmat: GalMat<T>)
    requires
        nc_geometries(*topology, 1, geometries@),
        topology.dimension() <= 3,
        rule.wf(),
        rule.dim == topology.dimension(),
        weights@.len() == geometries@.len(),
        forall|i: int|
            0 <= i < weights@.len() ==> (#[trigger] weights@[i]).fits(
                exterior_dim_spec(topology.dimension() as nat, 1),
            ),
    ensures
        is_mass_galmat_weighted(galmat, *topology, 1, geometries@, *rule, weights@),
{
    let provider = Nc1MassElmat::new(topology.dim());
    let mut elmats: Vec<Vec<T>> = Vec::new();
    let mut i: usize = 0;
    while i < geometries.len()
        invariant
            i <= geometries@.len(),
            nc_geometries(*topology, 1, geometries@),
            rule.wf(),
            rule.dim == topology.dimension(),
            weights@.len() == geometries@.len(),
            forall|i: int|
                0 <= i < weights@.len() ==> (#[trigger] weights@[i]).fits(
                    exterior_dim_spec(topology.dimension() as nat, 1),
                ),
            provider.dimension() == topology.dimension(),
            elmats@.len() == i,
            forall|k: int|
                0 <= k < i ==> (#[trigger] elmats@[k])@.len() == cell_dof_count(topology, 1)
                    * cell_dof_count(topology, 1),
            forall|k: int|
                0 <= k < i ==> lists_one_mass_weighted((#[trigger] elmats@[k])@, geometries@[k], 1, *rule, weights@[k]),
        decreases geometries@.len() - i,
    {
        proof {
            assert(geometries@[i as int].wf());
            assert(weights@[i as int].fits(exterior_dim_spec(topology.dimension() as nat, 1)));
        }
        let m = provider.eval_with_coords(&geometries[i], rule, &weights[i]);
        let list = copy_of(m.as_slice());
        proof {
            lemma_list_length(topology, 1, m);
            assert(is_weighted_nc_mass(m, geometries@[i as int], 1, *rule, weights@[i as int]));
            assert(lists_one_mass_weighted(list@, geometries@[i as int], 1, *rule, weights@[i as int]));
        }
        elmats.push(list);
        i = i + 1;
    }
    let galmat = assemble_nc_galmat(topology, 1, &elmats);
    proof {
        assert(lists_mass_weighted(elmats@, geometries@, 1, *rule, weights@));
    }
    galmat
}

/// The mass of the functions of the slots of faces by a rule, with a weight for each cell.
pub fn assemble_nc2_mass_galmat_weighted<T: Scalar, W: ApplyWeight<T>>(
    topology: &Complex,
    geometries: &Vec<SimplexGeometry<T>>,
    rule: &SimplexQuadRule<T>,
    weights: &Vec<W>,
) -> (galmat: GalMat<T>)
    requires
        nc_geometries(*topology, 2, geometries@),
        topology.dimension() <= 3,
        rule.wf(),
        rule.dim == topology.dimension(),
        weights@.len() == geometries@.len(),
        forall|i: int|
            0 <= i < weights@.len() ==> (#[trigger] weights@[i]).fits(
                exterior_dim_spec(topology.dimension() as nat, 2),
            ),
    ensures
        is_mass_galmat_weighted(galmat, *topology, 2, geometries@, *rule, weights@),
{
    let provider = Nc2MassElmat::new(topology.dim());
    let mut elmats: Vec<Vec<T>> = Vec::new();
    let mut i: usize = 0;
    while i < geometries.len()
        invariant
            i <= geometries@.len(),
            nc_geometries(*topology, 2, geometries@),
            rule.wf(),
            rule.dim == topology.dimension(),
            weights@.len() == geometries@.len(),
            forall|i: int|
                0 <= i < weights@.len() ==> (#[trigger] weights@[i]).fits(
                    exterior_dim_spec(topology.dimension() as nat, 2),
                ),
            provider.dimension() == topology.dimension(),
            elmats@.len() == i,
            forall|k: int|
                0 <= k < i ==> (#[trigger] elmats@[k])@.len() == cell_dof_count(topology, 2)
                    * cell_dof_count(topology, 2),
            forall|k: int|
                0 <= k < i ==> lists_one_mass_weighted((#[trigger] elmats@[k])@, geometries@[k], 2, *rule, weights@[k]),
        decreases geometries@.len() - i,
    {
        proof {
            assert(geometries@[i as int].wf());
            assert(weights@[i as int].fits(exterior_dim_spec(topology.dimension() as nat, 2)));
        }
        let m = provider.eval_with_coords(&geometries[i], rule, &weights[i]);
        let list = copy_of(m.as_slice());
        proof {
            lemma_list_length(topology, 2, m);
            assert(is_weighted_nc_mass(m, geometries@[i as int], 2, *rule, weights@[i as int]));
            assert(lists_one_mass_weighted(list@, geometries@[i as int], 2, *rule, weights@[i as int]));
        }
        elmats.push(list);
        i = i + 1;
    }
    let galmat = assemble_nc_galmat(topology, 2, &elmats);
    proof {
        assert(lists_mass_weighted(elmats@, geometries@, 2, *rule, weights@));
    }
    galmat
}

} // verus!
