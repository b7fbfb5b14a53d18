//! The matrices of problems with weighted inner products.

use crate::assemble::elements::{elmats_of, weighted_elmats_of};
use crate::assemble::elements::{lists_elmat, lists_weighted_elmat};
use crate::assemble::boundary_conditions::selection;
use crate::assemble::galerkin::GalVec;
use crate::linalg::csr::{compressed, CsrMatrix};
use crate::linalg::dense::DenseMatrix;
use crate::linalg::scalar::Scalar;
use crate::operators::elements::{
    CoordAwareElMatProvider, ElMatProvider, HodgeMassElmat, LaplaceBeltramiElmat, ScalarMassElmat,
    SimplexGeometry,
};
use crate::operators::reference::{reference_fits, reference_sizes};
use crate::operators::weights::ScalarWeight;
use crate::problems::laplace_beltrami::is_fixed_system;
use crate::problems::laplace_beltrami::{solve_laplace_beltrami_source, LaplaceBeltramiGalmats};
use crate::problems::mixed_galmats::{elmats_match, mass_entries, MixedGalmats};
use crate::topology::complex::Complex;
use crate::topology::simplex::{binomial, Dim};
use vstd::prelude::*;

verus! {

/// A geometry for each cell.
pub open spec fn cells_match<T: Scalar>(
    topology: Complex,
    geometries: Seq<SimplexGeometry<T>>,
) -> bool {
    &&& topology.wf()
    &&& geometries.len() == topology.simplices(topology.dimension()).len()
    &&& forall|i: int|
        0 <= i < geometries.len() ==> (#[trigger] geometries[i]).wf() && geometries[i].dim
            == topology.dimension()
}

/// A geometry and a weight for each cell.
pub open spec fn weighted_cells<T: Scalar>(
    topology: Complex,
    geometries: Seq<SimplexGeometry<T>>,
    weights: Seq<ScalarWeight<T>>,
) -> bool {
    &&& cells_match(topology, geometries)
    &&& weights.len() == geometries.len()
}

/// The element matrices of the weighted inner products of the Whitney forms of a degree.
pub open spec fn are_weighted_masses<T: Scalar>(
    elmats: Seq<Vec<T>>,
    provider: HodgeMassElmat<T>,
    dim: nat,
    grade: nat,
    geometries: Seq<SimplexGeometry<T>>,
    weights: Seq<ScalarWeight<T>>,
) -> bool {
    &&& provider.wf()
    &&& provider.dimension() == dim
    &&& provider.degree() == grade
    &&& elmats.len() == geometries.len()
    &&& forall|i: int|
        0 <= i < elmats.len() ==> lists_weighted_elmat(
            provider,
            geometries[i],
            weights[i],
            (#[trigger] elmats[i])@,
        )
}

pub(crate) fn weighted_masses<T: Scalar>(
    topology: &Complex,
    grade: Dim,
    geometries: &Vec<SimplexGeometry<T>>,
    weights: &Vec<ScalarWeight<T>>,
) -> (masses: (Vec<Vec<T>>, Ghost<HodgeMassElmat<T>>))
    requires
        weighted_cells(*topology, geometries@, weights@),
        grade <= topology.dimension(),
        reference_fits(topology.dimension() as nat, grade as nat),
    ensures
        elmats_match(topology, grade as int, masses.0@),
        are_weighted_masses(
            masses.0@,
            masses.1@,
            topology.dimension() as nat,
            grade as nat,
            geometries@,
            weights@,
        ),
{
    let provider: HodgeMassElmat<T> = HodgeMassElmat::new(topology.dim(), grade);
    let elmats = weighted_elmats_of(&provider, geometries, weights);
    proof {
        provider.terms_are();
        let n = binomial((topology.dimension() + 1) as nat, (grade + 1) as nat);
        assert forall|i: int| 0 <= i < elmats@.len() implies (#[trigger] elmats@[i])@.len() == n
            * n by {
            let m = choose|m: DenseMatrix<T>|
                #[trigger] provider.is_weighted_elmat(m, geometries@[i], weights@[i])
                    && m.listed() == elmats@[i]@;
            m.listed_at();
        }
    }
    (elmats, Ghost(provider))
}

/// The element matrices of the inner products of the Whitney forms of a degree.
pub open spec fn are_masses<T: Scalar>(
    elmats: Seq<Vec<T>>,
    provider: HodgeMassElmat<T>,
    dim: nat,
    grade: nat,
    geometries: Seq<SimplexGeometry<T>>,
) -> bool {
    &&& provider.wf()
    &&& provider.dimension() == dim
    &&& provider.degree() == grade
    &&& elmats.len() == geometries.len()
    &&& forall|i: int|
        0 <= i < elmats.len() ==> lists_elmat(provider, geometries[i], (#[trigger] elmats[i])@)
}

pub(crate) fn plain_masses<T: Scalar>(
    topology: &Complex,
    grade: Dim,
    geometries: &Vec<SimplexGeometry<T>>,
) -> (masses: (Vec<Vec<T>>, Ghost<HodgeMassElmat<T>>))
    requires
        cells_match(*topology, geometries@),
        grade <= topology.dimension(),
        reference_fits(topology.dimension() as nat, grade as nat),
    ensures
        elmats_match(topology, grade as int, masses.0@),
        are_masses(
            masses.0@,
            masses.1@,
            topology.dimension() as nat,
            grade as nat,
            geometries@,
        ),
{
    let provider: HodgeMassElmat<T> = HodgeMassElmat::new(topology.dim(), grade);
    let elmats = elmats_of(&provider, geometries);
    proof {
        reference_sizes(topology.dimension() as nat, grade as nat);
        let n = binomial((topology.dimension() + 1) as nat, (grade + 1) as nat);
        assert forall|i: int| 0 <= i < elmats@.len() implies (#[trigger] elmats@[i])@.len() == n
            * n by {
            let m = choose|m: DenseMatrix<T>|
                #[trigger] provider.is_elmat(m, geometries@[i]) && m.listed() == elmats@[i]@;
            m.listed_at();
        }
    }
    (elmats, Ghost(provider))
}

impl<T: Scalar> MixedGalmats<T> {
    /// The matrices of a grade, with a weight on each cell.
    pub fn compute_weighted(
        topology: &Complex,
        grade: Dim,
        geometries: &Vec<SimplexGeometry<T>>,
        weights: &Vec<ScalarWeight<T>>,
    ) -> (galmats: Self)
        requires
            weighted_cells(*topology, geometries@, weights@),
            grade <= topology.dimension(),
            reference_fits(topology.dimension() as nat, grade as nat),
            grade > 0 ==> reference_fits(topology.dimension() as nat, (grade - 1) as nat),
            grade > 0 ==> topology.simplices(grade - 1).len() + topology.simplices(
                grade as int,
            ).len() <= usize::MAX,
            grade < topology.dimension() ==> reference_fits(
                topology.dimension() as nat,
                (grade + 1) as nat,
            ),
        ensures
            galmats.wf(),
            galmats.mass_u.rows() == topology.simplices(grade as int).len(),
            galmats.is_weighted_of(topology, grade as int, geometries@, weights@),
    {
        let dim: Dim = topology.dim();
        let (u, Ghost(of_u)) = weighted_masses(topology, grade, geometries, weights);
        let (sigma, Ghost(of_sigma)): (Vec<Vec<T>>, Ghost<HodgeMassElmat<T>>) = if grade > 0 {
            weighted_masses(topology, grade - 1, geometries, weights)
        } else {
            (Vec::new(), Ghost(of_u))
        };
        let (plus, Ghost(of_plus)): (Vec<Vec<T>>, Ghost<HodgeMassElmat<T>>) = if grade < dim {
            weighted_masses(topology, grade + 1, geometries, weights)
        } else {
            (Vec::new(), Ghost(of_u))
        };
        let galmats = MixedGalmats::compute(topology, grade, &u, &sigma, &plus);
        proof {
            assert(galmats.is_made_of(
                topology,
                grade as int,
                geometries@,
                weights@,
                (u@, sigma@, plus@),
                (of_u, of_sigma, of_plus),
            ));
        }
        galmats
    }

    /// The matrices are made of the element matrices of weighted inner products.
    pub open spec fn is_made_of(
        &self,
        topology: &Complex,
        grade: int,
        geometries: Seq<SimplexGeometry<T>>,
        weights: Seq<ScalarWeight<T>>,
        elmats: (Seq<Vec<T>>, Seq<Vec<T>>, Seq<Vec<T>>),
        providers: (HodgeMassElmat<T>, HodgeMassElmat<T>, HodgeMassElmat<T>),
    ) -> bool {
        let dim = topology.dimension() as nat;
        &&& are_weighted_masses(elmats.0, providers.0, dim, grade as nat, geometries, weights)
        &&& grade > 0 ==> are_weighted_masses(
            elmats.1,
            providers.1,
            dim,
            (grade - 1) as nat,
            geometries,
            weights,
        )
        &&& grade < topology.dimension() ==> are_weighted_masses(
            elmats.2,
            providers.2,
            dim,
            (grade + 1) as nat,
            geometries,
            weights,
        )
        &&& self.mass_u.entries() == mass_entries(topology, grade, elmats.0)
        &&& self.is_of(topology, grade, elmats.1, elmats.2)
    }

    /// The matrices are those of a mesh and a grade with a weight on each cell.
    pub open spec fn is_weighted_of(
        &self,
        topology: &Complex,
        grade: int,
        geometries: Seq<SimplexGeometry<T>>,
        weights: Seq<ScalarWeight<T>>,
    ) -> bool {
        exists|
            elmats: (Seq<Vec<T>>, Seq<Vec<T>>, Seq<Vec<T>>),
            providers: (HodgeMassElmat<T>, HodgeMassElmat<T>, HodgeMassElmat<T>),
        | #[trigger]
            self.is_made_of(topology, grade, geometries, weights, elmats, providers)
    }
}

/// The lists of the weighted element matrices of functions.
pub open spec fn are_scalar_elmats<T: Scalar>(
    stiffness: Seq<Vec<T>>,
    mass: Seq<Vec<T>>,
    geometries: Seq<SimplexGeometry<T>>,
    weights: Seq<ScalarWeight<T>>,
) -> bool {
    &&& stiffness.len() == geometries.len()
    &&& mass.len() == geometries.len()
    &&& forall|i: int|
        0 <= i < stiffness.len() ==> lists_weighted_elmat(
            (LaplaceBeltramiElmat { dim: geometries[i].dim }),
            geometries[i],
            weights[i],
            (#[trigger] stiffness[i])@,
        )
    &&& forall|i: int|
        0 <= i < mass.len() ==> lists_weighted_elmat(
            ScalarMassElmat,
            geometries[i],
            weights[i],
            (#[trigger] mass[i])@,
        )
}

proof fn lemma_choose_one(n: nat)
    ensures
        binomial(n, 1) == n,
    decreases n,
{
    reveal_with_fuel(binomial, 3);
    if n > 0 {
        lemma_choose_one((n - 1) as nat);
    }
}

impl<T: Scalar> LaplaceBeltramiGalmats<T> {
    /// Stiffness and mass, with a weight on each cell.
    pub fn compute_weighted(
        topology: &Complex,
        geometries: &Vec<SimplexGeometry<T>>,
        weights: &Vec<ScalarWeight<T>>,
    ) -> (galmats: Self)
        requires
            weighted_cells(*topology, geometries@, weights@),
            (topology.dimension() + 1) * (topology.dimension() + 2) <= usize::MAX,
        ensures
            galmats.wf(),
            galmats.stiffness.rows() == topology.simplices(0).len(),
            galmats.is_weighted_of(topology, geometries@, weights@),
    {
        proof {
            let d = topology.dimension();
            topology.has_dimension();
            assert((d + 1) * (d + 1) <= (d + 1) * (d + 2)) by (nonlinear_arith)
                requires
                    d >= 0,
            ;
        }
        let provider = LaplaceBeltramiElmat::new(topology.dim());
        let stiffness = weighted_elmats_of(&provider, geometries, weights);
        let mass = weighted_elmats_of(&ScalarMassElmat::new(), geometries, weights);
        proof {
            let n = (topology.dimension() + 1) as nat;
            lemma_choose_one(n);
            assert forall|i: int| 0 <= i < stiffness@.len() implies (
            #[trigger] stiffness@[i])@.len() == n * n by {
                let m = choose|m: DenseMatrix<T>|
                    #[trigger] provider.is_weighted_elmat(m, geometries@[i], weights@[i])
                        && m.listed() == stiffness@[i]@;
                m.listed_at();
            }
            assert forall|i: int| 0 <= i < mass@.len() implies (#[trigger] mass@[i])@.len() == n
                * n by {
                let m = choose|m: DenseMatrix<T>|
                    #[trigger] ScalarMassElmat.is_weighted_elmat(m, geometries@[i], weights@[i])
                        && m.listed() == mass@[i]@;
                m.listed_at();
            }
        }
        let galmats = LaplaceBeltramiGalmats::compute(topology, &stiffness, &mass);
        proof {
            assert forall|i: int| 0 <= i < stiffness@.len() implies lists_weighted_elmat(
                (LaplaceBeltramiElmat { dim: geometries@[i].dim }),
                geometries@[i],
                weights@[i],
                (#[trigger] stiffness@[i])@,
            ) by {
                assert(geometries@[i].dim == provider.dim);
            }
            assert(are_scalar_elmats(stiffness@, mass@, geometries@, weights@));
        }
        galmats
    }

    /// Stiffness and mass are those of a mesh with a weight on each cell.
    pub open spec fn is_weighted_of(
        &self,
        topology: &Complex,
        geometries: Seq<SimplexGeometry<T>>,
        weights: Seq<ScalarWeight<T>>,
    ) -> bool {
        exists|stiffness: Seq<Vec<T>>, mass: Seq<Vec<T>>| #[trigger]
            are_scalar_elmats(stiffness, mass, geometries, weights) && self.stiffness.entries()
                == mass_entries(topology, 0, stiffness) && self.mass.entries() == mass_entries(
                topology,
                0,
                mass,
            )
    }
}

/// The weighted stiffness of functions is made of the given element matrices.
pub open spec fn lists_stiffness<T: Scalar>(
    stiffness: Seq<Vec<T>>,
    geometries: Seq<SimplexGeometry<T>>,
    weights: Seq<ScalarWeight<T>>,
) -> bool {
    &&& stiffness.len() == geometries.len()
    &&& forall|i: int|
        0 <= i < stiffness.len() ==> lists_weighted_elmat(
            (LaplaceBeltramiElmat { dim: geometries[i].dim }),
            geometries[i],
            weights[i],
            (#[trigger] stiffness[i])@,
        )
}

/// The system of the source problem with a weight on each cell: the selected boundary vertices, all
/// if there is no selection, are fixed to the values given for them.
pub fn solve_laplace_beltrami_source_weighted<T: Scalar>(
    topology: &Complex,
    geometries: &Vec<SimplexGeometry<T>>,
    weights: &Vec<ScalarWeight<T>>,
    source_galvec: GalVec<T>,
    essential_boundary_data: &[T],
    essential_boundary_selector: Option<&[bool]>,
) -> (system: (CsrMatrix<T>, Vec<T>))
    requires
        weighted_cells(*topology, geometries@, weights@),
        topology.dimension() >= 1,
        (topology.dimension() + 1) * (topology.dimension() + 1) <= usize::MAX,
        source_galvec@.len() == topology.simplices(0).len(),
        essential_boundary_data@.len() == topology.simplices(0).len(),
        essential_boundary_selector is Some ==> essential_boundary_selector->0@.len()
            == topology.simplices(0).len(),
    ensures
        exists|stiffness: Seq<Vec<T>>| #[trigger]
            lists_stiffness(stiffness, geometries@, weights@) && is_fixed_system(
                system,
                topology,
                stiffness,
                source_galvec@,
                essential_boundary_data@,
                selection(essential_boundary_selector),
            ),
{
    let provider = LaplaceBeltramiElmat::new(topology.dim());
    let stiffness = weighted_elmats_of(&provider, geometries, weights);
    proof {
        let n = (topology.dimension() + 1) as nat;
        lemma_choose_one(n);
        assert forall|i: int| 0 <= i < stiffness@.len() implies (#[trigger] stiffness@[i])@.len()
            == n * n by {
            let m = choose|m: DenseMatrix<T>|
                #[trigger] provider.is_weighted_elmat(m, geometries@[i], weights@[i])
                    && m.listed() == stiffness@[i]@;
            m.listed_at();
        }
        assert forall|i: int| 0 <= i < stiffness@.len() implies lists_weighted_elmat(
            (LaplaceBeltramiElmat { dim: geometries@[i].dim }),
            geometries@[i],
            weights@[i],
            (#[trigger] stiffness@[i])@,
        ) by {
            assert(geometries@[i].dim == provider.dim);
        }
        assert(lists_stiffness(stiffness@, geometries@, weights@));
    }
    solve_laplace_beltrami_source(
        topology,
        &stiffness,
        source_galvec,
        essential_boundary_data,
        essential_boundary_selector,
    )
}

/// The matrices of the eigenproblem of functions with a weight on each cell.
pub fn solve_laplace_beltrami_evp_weighted<T: Scalar>(
    topology: &Complex,
    geometries: &Vec<SimplexGeometry<T>>,
    weights: &Vec<ScalarWeight<T>>,
) -> (problem: (CsrMatrix<T>, CsrMatrix<T>))
    requires
        weighted_cells(*topology, geometries@, weights@),
        (topology.dimension() + 1) * (topology.dimension() + 2) <= usize::MAX,
    ensures
        problem.0.wf(),
        problem.1.wf(),
        problem.0.rows() == topology.simplices(0).len(),
        problem.1.rows() == topology.simplices(0).len(),
        exists|stiffness: Seq<Vec<T>>, mass: Seq<Vec<T>>| #[trigger]
            are_scalar_elmats(stiffness, mass, geometries@, weights@) && problem.0.entries()
                == compressed(mass_entries(topology, 0, stiffness)) && problem.1.entries()
                == compressed(mass_entries(topology, 0, mass)),
{
    let galmats = LaplaceBeltramiGalmats::compute_weighted(topology, geometries, weights);
    (galmats.stiffness_csr(), galmats.mass_csr())
}

} // verus!
