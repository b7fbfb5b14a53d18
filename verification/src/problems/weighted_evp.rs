//! Eigenproblems of the Hodge Laplacian with weighted inner products.

use crate::assemble::boundary_conditions::selection;
use crate::linalg::petsc::{GhiepReducedSolve, GhiepWhich};
use crate::linalg::scalar::Scalar;
use crate::operators::elements::SimplexGeometry;
use crate::operators::reference::reference_fits;
use crate::operators::weights::ScalarWeight;
use crate::problems::hodge_evp::is_evp_plan;
use crate::problems::hodge_evp::{
    solve_hodge_laplace_evp_with_galmats_config, solve_hodge_laplace_harmonics_with_galmats, EvpPlan,
};
use crate::problems::mixed_galmats::MixedGalmats;
use crate::problems::weighted_galmats::weighted_cells;
use crate::topology::complex::Complex;
use crate::topology::simplex::Dim;
use vstd::prelude::*;

verus! {

/// A geometry and a weight for each cell, and numbers of forms that fit machine numbers.
pub open spec fn weighted_grade<T: Scalar>(
    topology: Complex,
    grade: Dim,
    geometries: Seq<SimplexGeometry<T>>,
    weights: Seq<ScalarWeight<T>>,
) -> bool {
    let dim = topology.dimension() as nat;
    &&& weighted_cells(topology, geometries, weights)
    &&& grade <= topology.dimension()
    &&& reference_fits(dim, grade as nat)
    &&& grade > 0 ==> reference_fits(dim, (grade - 1) as nat)
    &&& grade > 0 ==> topology.simplices(grade - 1).len() + topology.simplices(grade as int).len()
        <= usize::MAX
    &&& grade < topology.dimension() ==> reference_fits(dim, (grade + 1) as nat)
}

/// Flags for the dofs of both unknowns of a grade.
pub open spec fn flags_match(
    topology: Complex,
    grade: Dim,
    sigma_mask: Option<Seq<bool>>,
    u_mask: Option<Seq<bool>>,
) -> bool {
    let below = if grade > 0 {
        topology.simplices(grade - 1).len()
    } else {
        0
    };
    &&& sigma_mask is Some ==> sigma_mask->0.len() == below
    &&& u_mask is Some ==> u_mask->0.len() == topology.simplices(grade as int).len()
}

/// The eigenproblem of a grade with a weight on each cell.
pub open spec fn is_weighted_plan<T: Scalar>(
    plan: EvpPlan<T>,
    topology: Complex,
    grade: Dim,
    geometries: Seq<SimplexGeometry<T>>,
    weights: Seq<ScalarWeight<T>>,
    sigma_mask: Option<Seq<bool>>,
    u_mask: Option<Seq<bool>>,
    which: GhiepWhich,
) -> bool {
    exists|galmats: MixedGalmats<T>| #[trigger]
        galmats.is_weighted_of(&topology, grade as int, geometries, weights)
            && galmats.mass_u.rows() == topology.simplices(grade as int).len() && is_evp_plan(
            plan,
            galmats,
            sigma_mask,
            u_mask,
            which,
            GhiepReducedSolve::Direct,
        )
}

fn weighted_plan<T: Scalar>(
    topology: &Complex,
    grade: Dim,
    geometries: &Vec<SimplexGeometry<T>>,
    weights: &Vec<ScalarWeight<T>>,
    sigma_mask: Option<&[bool]>,
    u_mask: Option<&[bool]>,
    which: GhiepWhich,
) -> (plan: EvpPlan<T>)
    requires
        weighted_grade(*topology, grade, geometries@, weights@),
        flags_match(*topology, grade, selection(sigma_mask), selection(u_mask)),
    ensures
        is_weighted_plan(
            plan,
            *topology,
            grade,
            geometries@,
            weights@,
            selection(sigma_mask),
            selection(u_mask),
            which,
        ),
{
    let galmats = MixedGalmats::compute_weighted(topology, grade, geometries, weights);
    solve_hodge_laplace_evp_with_galmats_config(
        &galmats,
        sigma_mask,
        u_mask,
        which,
        GhiepReducedSolve::Direct,
    )
}

/// The eigenproblem of a grade for the smallest eigenvalues, on all dofs.
pub fn solve_weighted_hodge_laplace_evp<T: Scalar>(
    topology: &Complex,
    grade: Dim,
    geometries: &Vec<SimplexGeometry<T>>,
    weights: &Vec<ScalarWeight<T>>,
) -> (plan: EvpPlan<T>)
    requires
        weighted_grade(*topology, grade, geometries@, weights@),
    ensures
        is_weighted_plan(
            plan,
            *topology,
            grade,
            geometries@,
            weights@,
            None,
            None,
            GhiepWhich::Smallest,
        ),
{
    weighted_plan(topology, grade, geometries, weights, None, None, GhiepWhich::Smallest)
}

/// The eigenproblem of a grade for the largest eigenvalues, on all dofs.
pub fn solve_weighted_hodge_laplace_evp_largest<T: Scalar>(
    topology: &Complex,
    grade: Dim,
    geometries: &Vec<SimplexGeometry<T>>,
    weights: &Vec<ScalarWeight<T>>,
) -> (plan: EvpPlan<T>)
    requires
        weighted_grade(*topology, grade, geometries@, weights@),
    ensures
        is_weighted_plan(
            plan,
            *topology,
            grade,
            geometries@,
            weights@,
            None,
            None,
            GhiepWhich::Largest,
        ),
{
    weighted_plan(topology, grade, geometries, weights, None, None, GhiepWhich::Largest)
}

/// The eigenproblem of a grade for the smallest eigenvalues, without the flagged dofs.
pub fn solve_weighted_hodge_laplace_evp_with_boundary_conditions<T: Scalar>(
    topology: &Complex,
    grade: Dim,
    geometries: &Vec<SimplexGeometry<T>>,
    weights: &Vec<ScalarWeight<T>>,
    sigma_mask: &[bool],
    u_mask: &[bool],
) -> (plan: EvpPlan<T>)
    requires
        weighted_grade(*topology, grade, geometries@, weights@),
        flags_match(*topology, grade, Some(sigma_mask@), Some(u_mask@)),
    ensures
        is_weighted_plan(
            plan,
            *topology,
            grade,
            geometries@,
            weights@,
            Some(sigma_mask@),
            Some(u_mask@),
            GhiepWhich::Smallest,
        ),
{
    weighted_plan(
        topology,
        grade,
        geometries,
        weights,
        Some(sigma_mask),
        Some(u_mask),
        GhiepWhich::Smallest,
    )
}

/// The eigenproblem of a grade for the largest eigenvalues, without the flagged dofs.
pub fn solve_weighted_hodge_laplace_evp_with_boundary_conditions_largest<T: Scalar>(
    topology: &Complex,
    grade: Dim,
    geometries: &Vec<SimplexGeometry<T>>,
    weights: &Vec<ScalarWeight<T>>,
    sigma_mask: &[bool],
    u_mask: &[bool],
) -> (plan: EvpPlan<T>)
    requires
        weighted_grade(*topology, grade, geometries@, weights@),
        flags_match(*topology, grade, Some(sigma_mask@), Some(u_mask@)),
    ensures
        is_weighted_plan(
            plan,
            *topology,
            grade,
            geometries@,
            weights@,
            Some(sigma_mask@),
            Some(u_mask@),
            GhiepWhich::Largest,
        ),
{
    weighted_plan(
        topology,
        grade,
        geometries,
        weights,
        Some(sigma_mask),
        Some(u_mask),
        GhiepWhich::Largest,
    )
}

/// The eigenproblem whose eigenvectors are the harmonic forms of a grade, on all dofs.
pub fn solve_weighted_hodge_laplace_harmonics<T: Scalar>(
    topology: &Complex,
    grade: Dim,
    homology_dim: usize,
    geometries: &Vec<SimplexGeometry<T>>,
    weights: &Vec<ScalarWeight<T>>,
) -> (plan: Option<EvpPlan<T>>)
    requires
        weighted_grade(*topology, grade, geometries@, weights@),
    ensures
        plan is None == (homology_dim == 0),
        plan matches Some(p) ==> is_weighted_plan(
            p,
            *topology,
            grade,
            geometries@,
            weights@,
            None,
            None,
            GhiepWhich::Smallest,
        ),
{
    let galmats = MixedGalmats::compute_weighted(topology, grade, geometries, weights);
    solve_hodge_laplace_harmonics_with_galmats(&galmats, homology_dim, None, None)
}

} // verus!
