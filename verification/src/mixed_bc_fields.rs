//! The fields and the boundary conditions of the source problem with mixed boundary conditions.
//! A point of the unit cube comes with the sines and cosines of its coordinates over half a
//! period.

use crate::assemble::boundary_terms::{boundary_kidxs, boundary_simplices_where_barycenter};
use crate::assemble::dofs::indices_to_flags;
use crate::assemble::galerkin::selected_facets;
use crate::linalg::csr::CsrMatrix;
use crate::linalg::scalar::Scalar;
use crate::linalg::vectors::{plus, sum_of};
use crate::mixed_bc_hodge_laplacian_convergence::{strong_dof_predicate, strong_face};
use crate::problems::hodge_laplace::{
    harmonics_match, is_source_system, solve_hodge_laplace_source_with_galmats_and_boundary_conditions,
    source_rhs_fault, StrongConditions,
};
use crate::problems::mixed_galmats::MixedGalmats;
use crate::topology::complex::Complex;
use crate::topology::simplex::Dim;
use vstd::prelude::*;

verus! {

/// A point with the sines and cosines of its coordinates over half a period.
#[derive(Clone, Copy, Debug)]
pub struct CubePoint<T> {
    pub coords: [T; 3],
    pub sines: [T; 3],
    pub cosines: [T; 3],
}

impl<T: Scalar> CubePoint<T> {
    pub open spec fn x(&self) -> T {
        self.coords@[0]
    }

    pub open spec fn y(&self) -> T {
        self.coords@[1]
    }

    pub open spec fn z(&self) -> T {
        self.coords@[2]
    }

    pub open spec fn solution(&self) -> Seq<T> {
        let x = self.x();
        let y = self.y();
        let z = self.z();
        seq![
            self.sines@[0].plus_spec(x.times_spec(x)).plus_spec(y).plus_spec(z),
            self.cosines@[1].plus_spec(x).plus_spec(z.times_spec(z)),
            self.sines@[2].plus_spec(x.times_spec(x)).plus_spec(y).plus_spec(z.times_spec(z)),
        ]
    }
}

/// The solution, a one-form.
pub fn solution_exact<T: Scalar>(p: CubePoint<T>) -> (coeffs: [T; 3])
    ensures
        coeffs@ == p.solution(),
{
    let x = p.coords[0];
    let y = p.coords[1];
    let z = p.coords[2];
    let coeffs = [
        p.sines[0].plus(x.times(x)).plus(y).plus(z),
        p.cosines[1].plus(x).plus(z.times(z)),
        p.sines[2].plus(x.times(x)).plus(y).plus(z.times(z)),
    ];
    proof {
        assert(coeffs@ =~= p.solution());
    }
    coeffs
}

/// The codifferential of the solution.
pub fn sigma_exact<T: Scalar>(p: CubePoint<T>, pi: T) -> (value: T)
    ensures
        value == pi.times_spec(
            p.cosines@[0].negated_spec().plus_spec(p.sines@[1]).minus_spec(p.cosines@[2]),
        ).minus_spec(T::from_count_spec(2).times_spec(p.x().plus_spec(p.z()))),
{
    let wave = p.cosines[0].negated().plus(p.sines[1]).minus(p.cosines[2]);
    pi.times(wave).minus(T::from_count(2).times(p.coords[0].plus(p.coords[2])))
}

/// The Hodge-Laplacian of the solution, a one-form.
pub fn laplacian_exact<T: Scalar>(p: CubePoint<T>, pi: T) -> (coeffs: [T; 3])
    ensures
        coeffs@ == seq![
            pi.times_spec(pi).times_spec(p.sines@[0]).minus_spec(T::from_count_spec(2)),
            pi.times_spec(pi).times_spec(p.cosines@[1]).minus_spec(T::from_count_spec(2)),
            pi.times_spec(pi).times_spec(p.sines@[2]).minus_spec(T::from_count_spec(4)),
        ],
{
    let square = pi.times(pi);
    let coeffs = [
        square.times(p.sines[0]).minus(T::from_count(2)),
        square.times(p.cosines[1]).minus(T::from_count(2)),
        square.times(p.sines[2]).minus(T::from_count(4)),
    ];
    proof {
        assert(coeffs@ =~= seq![
            square.times_spec(p.sines@[0]).minus_spec(T::from_count_spec(2)),
            square.times_spec(p.cosines@[1]).minus_spec(T::from_count_spec(2)),
            square.times_spec(p.sines@[2]).minus_spec(T::from_count_spec(4)),
        ]);
    }
    coeffs
}

/// The exterior derivative of the solution, a two-form.
pub fn dif_solution_exact<T: Scalar>(p: CubePoint<T>) -> (coeffs: [T; 3])
    ensures
        coeffs@ == seq![
            T::zero_spec(),
            T::from_count_spec(2).times_spec(p.x()).minus_spec(T::one_spec()),
            T::one_spec().minus_spec(T::from_count_spec(2).times_spec(p.z())),
        ],
{
    let two = T::from_count(2);
    let coeffs = [
        T::zero(),
        two.times(p.coords[0]).minus(T::one()),
        T::one().minus(two.times(p.coords[2])),
    ];
    proof {
        assert(coeffs@ =~= seq![
            T::zero_spec(),
            two.times_spec(p.x()).minus_spec(T::one_spec()),
            T::one_spec().minus_spec(two.times_spec(p.z())),
        ]);
    }
    coeffs
}

/// The weak data of the solution: a one-form on the boundary.
pub fn solution_neumann_exact<T: Scalar>(p: CubePoint<T>) -> (coeffs: [T; 3])
    ensures
        coeffs@ == seq![
            T::one_spec().minus_spec(T::from_count_spec(2).times_spec(p.z())),
            T::one_spec().minus_spec(T::from_count_spec(2).times_spec(p.x())),
            T::zero_spec(),
        ],
{
    let two = T::from_count(2);
    let coeffs = [
        T::one().minus(two.times(p.coords[2])),
        T::one().minus(two.times(p.coords[0])),
        T::zero(),
    ];
    proof {
        assert(coeffs@ =~= seq![
            T::one_spec().minus_spec(two.times_spec(p.z())),
            T::one_spec().minus_spec(two.times_spec(p.x())),
            T::zero_spec(),
        ]);
    }
    coeffs
}

/// The weak data of the first unknown: the two-form on the boundary that stands for the solution
/// with the opposite sign.
pub fn sigma_neumann_exact<T: Scalar>(p: CubePoint<T>) -> (coeffs: [T; 3])
    ensures
        coeffs@ == seq![
            p.solution()[2].negated_spec(),
            p.solution()[1],
            p.solution()[0].negated_spec(),
        ],
{
    let solution = solution_exact(p);
    let coeffs = [solution[2].negated(), solution[1], solution[0].negated()];
    proof {
        assert(coeffs@ =~= seq![
            p.solution()[2].negated_spec(),
            p.solution()[1],
            p.solution()[0].negated_spec(),
        ]);
    }
    coeffs
}

/// For each simplex whether its barycenter lies on a face with strong conditions, or on none.
pub open spec fn face_flags<T: Scalar>(barycenters: Seq<Vec<T>>, strong: bool) -> Seq<bool> {
    Seq::new(barycenters.len(), |i: int| strong_face(barycenters[i]@) == strong)
}

/// For each simplex whether it lies on the boundary and carries strong conditions, or weak ones.
pub fn conditioned_dofs<T: Scalar>(
    topology: &Complex,
    dim: Dim,
    barycenters: &Vec<Vec<T>>,
    strong: bool,
) -> (flags: Vec<bool>)
    requires
        topology.wf(),
        dim < topology.dimension(),
        barycenters@.len() == topology.simplices(dim as int).len(),
        forall|i: int|
            0 <= i < barycenters@.len() ==> (#[trigger] barycenters@[i])@.len() >= 3,
    ensures
        flags@ == Seq::new(
            barycenters@.len(),
            |i: int|
                selected_facets(
                    boundary_kidxs(*topology, dim as int),
                    face_flags(barycenters@, strong),
                ).contains(i as usize),
        ),
{
    let mut holds: Vec<bool> = Vec::new();
    let mut i: usize = 0;
    while i < barycenters.len()
        invariant
            i <= barycenters@.len(),
            forall|i: int|
                0 <= i < barycenters@.len() ==> (#[trigger] barycenters@[i])@.len() >= 3,
            holds@.len() == i,
            forall|k: int|
                0 <= k < i ==> #[trigger] holds@[k] == face_flags(barycenters@, strong)[k],
        decreases barycenters@.len() - i,
    {
        holds.push(strong_dof_predicate(barycenters[i].as_slice()) == strong);
        i = i + 1;
    }
    proof {
        assert(holds@ =~= face_flags(barycenters@, strong));
    }
    let kidxs = boundary_simplices_where_barycenter(topology, dim, holds.as_slice());
    indices_to_flags(kidxs.as_slice(), barycenters.len())
}

/// The system of a level: the source and the weak data of the solution enter the second
/// equation, the weak data of the first unknown the first. There are no harmonic forms.
pub fn level_system<T: Scalar>(
    galmats: &MixedGalmats<T>,
    sigma_neumann: Vec<T>,
    source: &[T],
    solution_neumann: &[T],
    conditions: &StrongConditions<T>,
) -> (system: Result<(CsrMatrix<T>, Vec<T>), String>)
    requires
        galmats.wf(),
        conditions.wf(*galmats),
        harmonics_match(*galmats, Seq::empty(), conditions.k_mask@),
        source@.len() == solution_neumann@.len(),
    ensures
        match source_rhs_fault(
            *galmats,
            Some(sigma_neumann@),
            sum_of(source@, solution_neumann@),
        ) {
            Some(message) => system matches Err(text) && text@ == message,
            None => system matches Ok(s) && is_source_system(
                s,
                *galmats,
                sigma_neumann@,
                sum_of(source@, solution_neumann@),
                Seq::empty(),
                conditions.k_minus_one_mask@,
                conditions.k_minus_one_data@,
                conditions.k_mask@,
                conditions.k_data@,
            ),
        },
{
    let none: Vec<Vec<T>> = Vec::new();
    proof {
        assert(none@ =~= Seq::<Vec<T>>::empty());
    }
    solve_hodge_laplace_source_with_galmats_and_boundary_conditions(
        galmats,
        Some(sigma_neumann),
        plus(source, solution_neumann),
        none.as_slice(),
        conditions,
    )
}

} // verus!
