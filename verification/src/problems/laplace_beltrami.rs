//! The Poisson equation, the prototypical elliptic problem.

use crate::assemble::boundary_conditions::{boundary_vertex_list, selected_pairs, selection};
use crate::assemble::boundary_conditions::enforce_dirichlet_bc_partial;
use crate::assemble::dofs::{fixed_flags, fixed_rhs, pair_dofs, unit_entries, zeroed_at};
use crate::assemble::dirichlet_law::{dirichlet_conditions_hold, dirichlet_rows_hold};
use crate::assemble::fixed_dofs_law::solves;
use crate::assemble::galerkin::{assemble_galmat, GalMat, GalVec};
use crate::io::fields::Cochain;
use crate::linalg::csr::compressed;
use crate::linalg::csr::CsrMatrix;
use crate::linalg::ring::commutative_ring;
use crate::linalg::scalar::Scalar;
use crate::problems::mixed_galmats::{elmats_match, mass_entries};
use crate::topology::complex::Complex;
use vstd::prelude::*;

verus! {

/// Stiffness and mass on the vertices of a mesh.
#[derive(Debug)]
pub struct LaplaceBeltramiGalmats<T> {
    pub stiffness: GalMat<T>,
    pub mass: GalMat<T>,
}

impl<T: Scalar> LaplaceBeltramiGalmats<T> {
    /// Stiffness and mass from the element matrices of both.
    pub fn compute(
        topology: &Complex,
        elmats_stiffness: &Vec<Vec<T>>,
        elmats_mass: &Vec<Vec<T>>,
    ) -> (galmats: Self)
        requires
            topology.wf(),
            elmats_match(topology, 0, elmats_stiffness@),
            elmats_match(topology, 0, elmats_mass@),
        ensures
            galmats.wf(),
            galmats.stiffness.rows() == topology.simplices(0).len(),
            galmats.stiffness.entries() == mass_entries(topology, 0, elmats_stiffness@),
            galmats.mass.entries() == mass_entries(topology, 0, elmats_mass@),
    {
        proof {
            topology.has_dimension();
        }
        let stiffness: GalMat<T> = assemble_galmat(topology, 0, 0, elmats_stiffness);
        let mass: GalMat<T> = assemble_galmat(topology, 0, 0, elmats_mass);
        LaplaceBeltramiGalmats { stiffness, mass }
    }

    /// Square matrices of the same size.
    pub open spec fn wf(&self) -> bool {
        &&& self.stiffness.wf()
        &&& self.mass.wf()
        &&& self.stiffness.rows() == self.stiffness.cols()
        &&& self.mass.rows() == self.stiffness.rows()
        &&& self.mass.cols() == self.stiffness.rows()
    }

    pub fn stiffness(&self) -> (m: &GalMat<T>)
        ensures
            *m == self.stiffness,
    {
        &self.stiffness
    }

    pub fn mass(&self) -> (m: &GalMat<T>)
        ensures
            *m == self.mass,
    {
        &self.mass
    }

    pub fn stiffness_csr(&self) -> (m: CsrMatrix<T>)
        requires
            self.wf(),
        ensures
            m.wf(),
            m.rows() == self.stiffness.rows(),
            m.cols() == self.stiffness.cols(),
            m.entries() == compressed(self.stiffness.entries()),
    {
        CsrMatrix::from_coo(&self.stiffness)
    }

    pub fn mass_csr(&self) -> (m: CsrMatrix<T>)
        requires
            self.wf(),
        ensures
            m.wf(),
            m.rows() == self.mass.rows(),
            m.cols() == self.mass.cols(),
            m.entries() == compressed(self.mass.entries()),
    {
        CsrMatrix::from_coo(&self.mass)
    }
}

/// A system of functions whose selected boundary vertices are fixed.
pub open spec fn is_fixed_system<T: Scalar>(
    system: (CsrMatrix<T>, Vec<T>),
    topology: &Complex,
    elmats_stiffness: Seq<Vec<T>>,
    source: Seq<T>,
    data: Seq<T>,
    selector: Option<Seq<bool>>,
) -> bool {
    let n = topology.simplices(0).len();
    let stiffness = mass_entries(topology, 0, elmats_stiffness);
    let pairs = selected_pairs(boundary_vertex_list(topology), selector, data);
    &&& system.0.wf()
    &&& system.0.rows() == n
    &&& system.0.cols() == n
    &&& system.0.entries() == compressed(
        zeroed_at(stiffness, fixed_flags(pairs, n)) + unit_entries(pair_dofs(pairs)),
    )
    &&& system.1@ == fixed_rhs(source, compressed(stiffness), pairs)
}

/// The system of the source problem: the selected boundary vertices, all if there is no
/// selection, are fixed to the values given for them.
pub fn solve_laplace_beltrami_source<T: Scalar>(
    topology: &Complex,
    elmats_stiffness: &Vec<Vec<T>>,
    source_galvec: GalVec<T>,
    essential_boundary_data: &[T],
    essential_boundary_selector: Option<&[bool]>,
) -> (system: (CsrMatrix<T>, Vec<T>))
    requires
        topology.wf(),
        topology.dimension() >= 1,
        elmats_match(topology, 0, elmats_stiffness@),
        source_galvec@.len() == topology.simplices(0).len(),
        essential_boundary_data@.len() == topology.simplices(0).len(),
        essential_boundary_selector is Some ==> essential_boundary_selector->0@.len()
            == topology.simplices(0).len(),
    ensures
        is_fixed_system(
            system,
            topology,
            elmats_stiffness@,
            source_galvec@,
            essential_boundary_data@,
            selection(essential_boundary_selector),
        ),
        commutative_ring::<T>() ==> forall|x: Seq<T>| #[trigger]
            solves(system.0.entries(), system.1@, topology.simplices(0).len(), x)
                <==> dirichlet_rows_hold(
                topology,
                mass_entries(topology, 0, elmats_stiffness@),
                source_galvec@,
                selection(essential_boundary_selector),
                essential_boundary_data@,
                x,
            ),
{
    let mut laplace: GalMat<T> = assemble_galmat(topology, 0, 0, elmats_stiffness);
    proof {
        if commutative_ring::<T>() {
            let n = topology.simplices(0).len();
            let plain = mass_entries(topology, 0, elmats_stiffness@);
            let selected = selection(essential_boundary_selector);
            let data = essential_boundary_data@;
            let pairs = selected_pairs(boundary_vertex_list(topology), selected, data);
            assert forall|x: Seq<T>| #[trigger]
                solves(
                    compressed(
                        zeroed_at(plain, fixed_flags(pairs, n)) + unit_entries(pair_dofs(pairs)),
                    ),
                    fixed_rhs(source_galvec@, compressed(plain), pairs),
                    n,
                    x,
                ) <==> dirichlet_rows_hold(topology, plain, source_galvec@, selected, data, x) by {
                dirichlet_conditions_hold(topology, plain, source_galvec@, selected, data, x);
            }
        }
    }
    let mut rhs = source_galvec;
    enforce_dirichlet_bc_partial(
        topology,
        essential_boundary_data,
        &mut laplace,
        &mut rhs,
        essential_boundary_selector,
    );
    (CsrMatrix::from_coo(&laplace), rhs)
}

/// The matrices of the eigenproblem.
pub fn solve_laplace_beltrami_evp_as_matrix<T: Scalar>(
    topology: &Complex,
    elmats_stiffness: &Vec<Vec<T>>,
    elmats_mass: &Vec<Vec<T>>,
) -> (problem: (CsrMatrix<T>, CsrMatrix<T>))
    requires
        topology.wf(),
        elmats_match(topology, 0, elmats_stiffness@),
        elmats_match(topology, 0, elmats_mass@),
    ensures
        problem.0.wf(),
        problem.1.wf(),
        problem.0.rows() == topology.simplices(0).len(),
        problem.0.cols() == topology.simplices(0).len(),
        problem.1.rows() == topology.simplices(0).len(),
        problem.1.cols() == topology.simplices(0).len(),
        problem.0.entries() == compressed(mass_entries(topology, 0, elmats_stiffness@)),
        problem.1.entries() == compressed(mass_entries(topology, 0, elmats_mass@)),
{
    let galmats = LaplaceBeltramiGalmats::compute(topology, elmats_stiffness, elmats_mass);
    (galmats.stiffness_csr(), galmats.mass_csr())
}

/// Columns as values at the vertices.
pub fn matrix_to_cochain<T: Scalar>(columns: Vec<Vec<T>>) -> (cochains: Vec<Cochain<T>>)
    ensures
        cochains@.len() == columns@.len(),
        forall|i: int|
            0 <= i < cochains@.len() ==> (#[trigger] cochains@[i]).dim == 0
                && cochains@[i].coeffs@ == columns@[i]@,
{
    let mut cochains: Vec<Cochain<T>> = Vec::new();
    let mut i: usize = 0;
    while i < columns.len()
        invariant
            i <= columns@.len(),
            cochains@.len() == i,
            forall|j: int|
                0 <= j < i ==> (#[trigger] cochains@[j]).dim == 0 && cochains@[j].coeffs@
                    == columns@[j]@,
        decreases columns@.len() - i,
    {
        cochains.push(
            Cochain {
                dim: 0,
                coeffs: crate::problems::elimination::copy_of(columns[i].as_slice()),
            },
        );
        i = i + 1;
    }
    cochains
}

/// The eigenvalues with their eigenvectors as values at the vertices.
pub fn solve_laplace_beltrami_evp<T: Scalar>(eigenvals: Vec<T>, eigenvecs: Vec<Vec<T>>) -> (pairs: (
    Vec<T>,
    Vec<Cochain<T>>,
))
    ensures
        pairs.0@ == eigenvals@,
        pairs.1@.len() == eigenvecs@.len(),
        forall|i: int|
            0 <= i < eigenvecs@.len() ==> (#[trigger] pairs.1@[i]).dim == 0 && pairs.1@[i].coeffs@
                == eigenvecs@[i]@,
{
    (eigenvals, matrix_to_cochain(eigenvecs))
}

} // verus!
