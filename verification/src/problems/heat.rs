//! The heat equation, the prototypical parabolic problem.

use crate::assemble::boundary_conditions::{boundary_vertex_list, selected_pairs};
use crate::assemble::boundary_conditions::enforce_dirichlet_bc;
use crate::assemble::dofs::{fixed_flags, fixed_rhs, pair_dofs, unit_entries, zeroed_at};
use crate::assemble::fixed_dofs_law::solves;
use crate::assemble::reconstruction_law::divides_exactly;
use crate::io::fields::Cochain;
use crate::linalg::algebra::matrix_times;
use crate::linalg::algebra::{add_sparse, mul_vec};
use crate::linalg::csr::compressed;
use crate::linalg::csr::CsrMatrix;
use crate::linalg::ring::commutative_ring;
use crate::linalg::scalar::Scalar;
use crate::linalg::sparse::CooMatrix;
use crate::linalg::vectors::{difference_of, multiple_of, multiplied, sum_of};
use crate::linalg::vectors::{minus, multiple, plus, times};
use crate::problems::step_law::{
    counts_exactly, equidistant_times_step_evenly, heat_solution_is_a_step, is_heat_step,
    steps_evenly,
};
use crate::problems::transient::ThetaMethod;
use crate::text::decimal;
use crate::text::{owned, push_decimal};
use crate::topology::complex::Complex;
use vstd::prelude::*;
use vstd::string::*;

verus! {

/// What is wrong with the initial condition on a mesh of `nvertices` vertices.
pub open spec fn initial_fault<T>(initial: Cochain<T>, nvertices: nat) -> Option<Seq<char>> {
    if initial.dim != 0 {
        Some(
            "heat solver expects a 0-cochain initial condition, got grade "@ + decimal(
                initial.dim as nat,
            ) + "."@,
        )
    } else if initial.coeffs@.len() != nvertices {
        Some(
            "heat solver initial condition must have "@ + decimal(nvertices)
                + " coefficients, got "@ + decimal(initial.coeffs@.len()) + "."@,
        )
    } else {
        None
    }
}

/// Fails unless the initial condition has one value for each vertex.
pub fn check_initial_data<T: Scalar>(initial: &Cochain<T>, nvertices: usize) -> (checked: Result<
    (),
    String,
>)
    ensures
        match initial_fault(*initial, nvertices as nat) {
            Some(message) => checked matches Err(text) && text@ == message,
            None => checked is Ok,
        },
{
    if initial.dim() != 0 {
        let mut text = owned("heat solver expects a 0-cochain initial condition, got grade ");
        push_decimal(&mut text, initial.dim());
        text.append(".");
        return Err(text);
    }
    if initial.len() != nvertices {
        let mut text = owned("heat solver initial condition must have ");
        push_decimal(&mut text, nvertices);
        text.append(" coefficients, got ");
        push_decimal(&mut text, initial.len());
        text.append(".");
        return Err(text);
    }
    Ok(())
}

/// What is wrong with the source at a time.
pub open spec fn source_fault<T: Scalar>(source: Cochain<T>, nvertices: nat, time: T) -> Option<
    Seq<char>,
> {
    if source.dim != 0 {
        Some(
            "heat solver source must be a 0-cochain, got grade "@ + decimal(source.dim as nat)
                + " at time "@ + time.display_spec() + "."@,
        )
    } else if source.coeffs@.len() != nvertices {
        Some(
            "heat solver source must have "@ + decimal(nvertices) + " coefficients, got "@
                + decimal(source.coeffs@.len()) + " at time "@ + time.display_spec() + "."@,
        )
    } else {
        None
    }
}

/// The source at a time, weighted with the mass.
pub fn source_vector_at<T: Scalar>(source: &Cochain<T>, mass: &CsrMatrix<T>, time: T) -> (vector:
    Result<Vec<T>, String>)
    requires
        mass.wf(),
        mass.rows() == mass.cols(),
    ensures
        match source_fault(*source, mass.cols(), time) {
            Some(message) => vector matches Err(text) && text@ == message,
            None => vector matches Ok(v) && v@ == matrix_times(
                mass.entries(),
                mass.rows(),
                source.coeffs@,
            ),
        },
{
    if source.dim() != 0 {
        let mut text = owned("heat solver source must be a 0-cochain, got grade ");
        push_decimal(&mut text, source.dim());
        text.append(" at time ");
        let shown = time.display();
        text.append(shown.as_str());
        text.append(".");
        return Err(text);
    }
    if source.len() != mass.ncols() {
        let mut text = owned("heat solver source must have ");
        push_decimal(&mut text, mass.ncols());
        text.append(" coefficients, got ");
        push_decimal(&mut text, source.len());
        text.append(" at time ");
        let shown = time.display();
        text.append(shown.as_str());
        text.append(".");
        return Err(text);
    }
    Ok(mul_vec(mass, source.coeffs.as_slice()))
}

/// The matrix of a step: the mass by the step, and the diffusion at the end of it.
pub open spec fn heat_matrix<T: Scalar>(
    mass: Seq<(usize, usize, T)>,
    laplace: Seq<(usize, usize, T)>,
    diffusion_coeff: T,
    theta: T,
    dt: T,
) -> Seq<(usize, usize, T)> {
    compressed(
        multiplied(T::one_spec().over_spec(dt), mass) + multiplied(
            theta.times_spec(diffusion_coeff),
            laplace,
        ),
    )
}

/// The matrix of a step.
pub fn assemble_heat_system_matrix<T: Scalar>(
    mass: &CsrMatrix<T>,
    laplace: &CsrMatrix<T>,
    diffusion_coeff: T,
    theta: T,
    dt: T,
) -> (m: CsrMatrix<T>)
    requires
        mass.wf(),
        laplace.wf(),
        mass.rows() == laplace.rows(),
        mass.cols() == laplace.cols(),
    ensures
        m.wf(),
        m.rows() == mass.rows(),
        m.cols() == mass.cols(),
        m.entries() == heat_matrix(mass.entries(), laplace.entries(), diffusion_coeff, theta, dt),
{
    add_sparse(
        &multiple(T::one().over(dt), mass),
        &multiple(theta.times(diffusion_coeff), laplace),
    )
}

/// The right-hand side of a step, from the values before it and the sources at its ends.
pub open spec fn heat_rhs<T: Scalar>(
    mass: Seq<(usize, usize, T)>,
    laplace: Seq<(usize, usize, T)>,
    n: nat,
    prev: Seq<T>,
    source_0: Seq<T>,
    source_1: Seq<T>,
    diffusion_coeff: T,
    theta: T,
    dt: T,
) -> Seq<T> {
    let rest = T::one_spec().minus_spec(theta);
    sum_of(
        difference_of(
            multiple_of(T::one_spec().over_spec(dt), matrix_times(mass, n, prev)),
            multiple_of(rest.times_spec(diffusion_coeff), matrix_times(laplace, n, prev)),
        ),
        sum_of(multiple_of(rest, source_0), multiple_of(theta, source_1)),
    )
}

/// Square matrices on the vertices of a mesh of at least one dimension.
pub open spec fn heat_matrices<T>(
    topology: Complex,
    mass: CsrMatrix<T>,
    laplace: CsrMatrix<T>,
) -> bool {
    let n = topology.simplices(0).len();
    &&& topology.wf()
    &&& topology.dimension() >= 1
    &&& mass.wf()
    &&& laplace.wf()
    &&& mass.rows() == n
    &&& mass.cols() == n
    &&& laplace.rows() == n
    &&& laplace.cols() == n
}

/// The system of a step from `t0` to `t1`, with the boundary vertices fixed to the values given
/// for them. The sources are weighted with the mass.
pub fn heat_step<T: Scalar>(
    topology: &Complex,
    mass: &CsrMatrix<T>,
    laplace: &CsrMatrix<T>,
    method: ThetaMethod<T>,
    t0: T,
    t1: T,
    prev: &[T],
    source_0: &[T],
    source_1: &[T],
    boundary_data: &[T],
    diffusion_coeff: T,
) -> (system: (CsrMatrix<T>, Vec<T>))
    requires
        heat_matrices(*topology, *mass, *laplace),
        prev@.len() == topology.simplices(0).len(),
        source_0@.len() == topology.simplices(0).len(),
        source_1@.len() == topology.simplices(0).len(),
        boundary_data@.len() == topology.simplices(0).len(),
    ensures
        ({
            let n = topology.simplices(0).len();
            let dt = t1.minus_spec(t0);
            let pairs = selected_pairs(boundary_vertex_list(topology), None, boundary_data@);
            let lhs = heat_matrix(
                mass.entries(),
                laplace.entries(),
                diffusion_coeff,
                method.value(),
                dt,
            );
            &&& system.0.wf()
            &&& system.0.rows() == n
            &&& system.0.cols() == n
            &&& system.0.entries() == compressed(
                zeroed_at(lhs, fixed_flags(pairs, n)) + unit_entries(pair_dofs(pairs)),
            )
            &&& system.1@ == fixed_rhs(
                heat_rhs(
                    mass.entries(),
                    laplace.entries(),
                    n,
                    prev@,
                    source_0@,
                    source_1@,
                    diffusion_coeff,
                    method.value(),
                    dt,
                ),
                compressed(lhs),
                pairs,
            )
            &&& commutative_ring::<T>() && divides_exactly(dt) ==> forall|next: Seq<T>|
                next.len() == n && #[trigger] solves(system.0.entries(), system.1@, n, next)
                    ==> is_heat_step(
                    topology,
                    mass.entries(),
                    laplace.entries(),
                    prev@,
                    next,
                    source_0@,
                    source_1@,
                    boundary_data@,
                    diffusion_coeff,
                    method.value(),
                    dt,
                )
        }),
{
    let theta = method.theta();
    let dt = t1.minus(t0);
    let rest = T::one().minus(theta);
    let source_theta = plus(
        times(rest, source_0).as_slice(),
        times(theta, source_1).as_slice(),
    );
    let lhs_csr = assemble_heat_system_matrix(mass, laplace, diffusion_coeff, theta, dt);
    let mut lhs: CooMatrix<T> = CooMatrix::from_csr(&lhs_csr);
    let mass_prev = mul_vec(mass, prev);
    let laplace_prev = mul_vec(laplace, prev);
    let storage = times(T::one().over(dt), mass_prev.as_slice());
    let diffusion = times(rest.times(diffusion_coeff), laplace_prev.as_slice());
    let mut rhs = plus(
        minus(storage.as_slice(), diffusion.as_slice()).as_slice(),
        source_theta.as_slice(),
    );
    enforce_dirichlet_bc(topology, boundary_data, &mut lhs, &mut rhs);
    let system = (CsrMatrix::from_coo(&lhs), rhs);
    proof {
        let n = topology.simplices(0).len();
        if commutative_ring::<T>() && divides_exactly(dt) {
            assert forall|next: Seq<T>|
                next.len() == n && #[trigger] solves(
                    system.0.entries(),
                    system.1@,
                    n,
                    next,
                ) implies is_heat_step(
                topology,
                mass.entries(),
                laplace.entries(),
                prev@,
                next,
                source_0@,
                source_1@,
                boundary_data@,
                diffusion_coeff,
                theta,
                dt,
            ) by {
                heat_solution_is_a_step(
                    topology,
                    mass.entries(),
                    laplace.entries(),
                    prev@,
                    next,
                    source_0@,
                    source_1@,
                    boundary_data@,
                    diffusion_coeff,
                    theta,
                    dt,
                );
            }
        }
    }
    system
}

/// Equidistant times from zero.
pub open spec fn equidistant<T: Scalar>(nsteps: nat, dt: T) -> Seq<T> {
    Seq::new(nsteps + 1, |i: int| T::from_count_spec(i as nat).times_spec(dt))
}

/// Equidistant times from zero.
pub fn heat_times<T: Scalar>(nsteps: usize, dt: T) -> (grid: Vec<T>)
    requires
        nsteps < usize::MAX,
    ensures
        grid@ == equidistant(nsteps as nat, dt),
        commutative_ring::<T>() && counts_exactly::<T>() ==> steps_evenly(grid@, nsteps as nat, dt),
{
    let mut grid: Vec<T> = Vec::new();
    let mut i: usize = 0;
    while i < nsteps + 1
        invariant
            i <= nsteps + 1,
            nsteps < usize::MAX,
            grid@ =~= equidistant(nsteps as nat, dt).take(i as int),
        decreases nsteps + 1 - i,
    {
        grid.push(T::from_count(i as u64).times(dt));
        i = i + 1;
    }
    proof {
        if commutative_ring::<T>() && counts_exactly::<T>() {
            equidistant_times_step_evenly(nsteps as nat, dt);
        }
    }
    grid
}

} // verus!
