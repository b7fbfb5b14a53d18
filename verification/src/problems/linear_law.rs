//! What the matrices of linear problems do: the mixed problem and its eigenproblem, loads, and
//! approximate inverses.

use crate::assemble::dirichlet_law::{dirichlet_conditions_hold, dirichlet_rows_hold};
use crate::assemble::fixed_dofs_law::solves;
use crate::assemble::symmetry_law::only_zero_is_zero;
use crate::linalg::action_law::{front_within, row_of_diagonal};
use crate::linalg::algebra::{
    diagonal_total, inverted_spec, negated_entries, row_dot, row_total,
};
use crate::linalg::blocks::{block_entries, block_heights, block_widths, shifted};
use crate::linalg::csr::{compressed, CsrMatrix};
use crate::linalg::matrix_law::{
    ones, ring_cancels, ring_subtracts, row_compressed, row_negated, row_total_of_ones,
};
use crate::linalg::ring::{
    commutative_ring, ring_associates, ring_minus, ring_negated, ring_plus, ring_units,
};
use crate::linalg::scalar::Scalar;
use crate::linalg::sparse::{triplets_within, CooMatrix};
use crate::problems::elimination::fits;
use crate::problems::elimination_law::lemma_block_rows;
use crate::linalg::petsc::{GhiepReducedSolve, GhiepWhich};
use crate::problems::hodge_evp::{compresses_to, is_evp_plan, EvpPlan};
use crate::problems::laplace_beltrami::is_fixed_system;
use crate::problems::lumped_law::{inverted_diagonal_is_inverse, invertible};
use crate::problems::mixed_galmats::{mass_entries, MixedGalmats};
use crate::problems::reduced_linear::{
    inverse_diagonal, inverse_entries, negated_values, zeros_of, MassInverseApproximation,
    ReducedLinearPdeAssembly,
};
use crate::topology::complex::Complex;
use vstd::prelude::*;

verus! {

impl<T: Scalar> MixedGalmats<T> {
    /// What a matrix does to both unknowns is what the mixed problem does to them.
    pub open spec fn acts_mixed(&self, m: Seq<(usize, usize, T)>) -> bool {
        forall|sigma: Seq<T>, u: Seq<T>, r: int|
            #![trigger row_dot(m, sigma + u, r)]
            sigma.len() == self.mass_sigma.rows() && u.len() == self.mass_u.rows() && 0 <= r
                < sigma.len() + u.len() ==> row_dot(m, sigma + u, r) == (if r < sigma.len() {
                row_dot(self.mass_sigma.entries(), sigma, r).minus_spec(
                    row_dot(self.codif_u.entries(), u, r),
                )
            } else {
                row_dot(self.dif_sigma.entries(), sigma, r - sigma.len()).plus_spec(
                    row_dot(self.codifdif_u.entries(), u, r - sigma.len()),
                )
            })
    }

    /// The blocks of the mixed problem tie the first unknown to the second by the mass and the
    /// adjoint, and give what both derivatives give.
    pub proof fn mixed_blocks_act(&self, m: CooMatrix<T>)
        requires
            commutative_ring::<T>(),
            self.wf(),
            self.is_mixed(m),
        ensures
            self.acts_mixed(m.entries()),
    {
        let neg = choose|neg: CooMatrix<T>|
            neg.wf() && neg.rows() == self.codif_u.rows() && neg.cols() == self.codif_u.cols()
                && neg.entries() == negated_entries(self.codif_u.entries()) && m.entries()
                == #[trigger] block_entries(
                self.mass_sigma,
                neg,
                self.dif_sigma,
                self.codifdif_u,
            ) && m.rows() == block_heights(
                self.mass_sigma,
                neg,
                self.dif_sigma,
                self.codifdif_u,
            ).1 && m.cols() == block_widths(
                self.mass_sigma,
                neg,
                self.dif_sigma,
                self.codifdif_u,
            ).1;
        let (ns, nu) = (self.mass_sigma.rows(), self.mass_u.rows());
        assert forall|sigma: Seq<T>, u: Seq<T>, r: int|
            #![trigger row_dot(m.entries(), sigma + u, r)]
            sigma.len() == ns && u.len() == nu && 0 <= r < sigma.len()
                + u.len() implies row_dot(m.entries(), sigma + u, r) == (if r < sigma.len() {
            row_dot(self.mass_sigma.entries(), sigma, r).minus_spec(
                row_dot(self.codif_u.entries(), u, r),
            )
        } else {
            row_dot(self.dif_sigma.entries(), sigma, r - sigma.len()).plus_spec(
                row_dot(self.codifdif_u.entries(), u, r - sigma.len()),
            )
        }) by {
            let x = sigma + u;
            lemma_fits_within(self.mass_sigma, ns, ns);
            lemma_fits_within(neg, ns, nu);
            lemma_fits_within(self.dif_sigma, nu, ns);
            lemma_fits_within(self.codifdif_u, nu, nu);
            lemma_block_rows(
                self.mass_sigma,
                neg,
                self.dif_sigma,
                self.codifdif_u,
                ns,
                nu,
                ns,
                nu,
                x,
                r,
            );
            assert(x.take(ns as int) =~= sigma);
            assert(x.skip(ns as int) =~= u);
            row_negated(self.codif_u.entries(), u, r);
            ring_subtracts(
                row_dot(self.mass_sigma.entries(), sigma, r),
                row_dot(self.codif_u.entries(), u, r),
            );
        }
    }
}

/// The solutions of a system whose selected boundary vertices are fixed: these have the values
/// given for them, and at all other vertices the stiffness gives the source.
pub proof fn fixed_system_solutions<T: Scalar>(
    system: (CsrMatrix<T>, Vec<T>),
    topology: &Complex,
    elmats_stiffness: Seq<Vec<T>>,
    source: Seq<T>,
    data: Seq<T>,
    selector: Option<Seq<bool>>,
    x: Seq<T>,
)
    requires
        commutative_ring::<T>(),
        topology.wf(),
        topology.dimension() >= 1,
        is_fixed_system(system, topology, elmats_stiffness, source, data, selector),
        triplets_within(
            mass_entries(topology, 0, elmats_stiffness),
            topology.simplices(0).len() as int,
            topology.simplices(0).len() as int,
        ),
        source.len() == topology.simplices(0).len(),
    ensures
        solves(system.0.entries(), system.1@, topology.simplices(0).len(), x)
            <==> dirichlet_rows_hold(
            topology,
            mass_entries(topology, 0, elmats_stiffness),
            source,
            selector,
            data,
            x,
        ),
{
    dirichlet_conditions_hold(
        topology,
        mass_entries(topology, 0, elmats_stiffness),
        source,
        selector,
        data,
        x,
    );
}

/// A matrix that is of the shape, or empty, has its entries within the shape.
proof fn lemma_fits_within<T: Scalar>(m: CooMatrix<T>, nrows: nat, ncols: nat)
    requires
        fits(m, nrows, ncols),
    ensures
        triplets_within(m.entries(), nrows as int, ncols as int),
{
    let entries = m.entries();
    assert forall|i: int| 0 <= i < entries.len() implies (#[trigger] entries[i]).0 < nrows
        && entries[i].1 < ncols by {
        assert(entries[i].0 < m.rows());
    }
}

/// The mass of the eigenproblem acts on the second unknown alone: what it makes of both unknowns
/// is nothing for the first and the mass for the second.
pub proof fn shifted_mass_acts_on_second<T: Scalar>(
    mass: Seq<(usize, usize, T)>,
    ns: nat,
    nu: nat,
    sigma: Seq<T>,
    u: Seq<T>,
    r: int,
)
    requires
        commutative_ring::<T>(),
        triplets_within(mass, nu as int, nu as int),
        sigma.len() == ns,
        u.len() == nu,
        ns + nu <= usize::MAX,
        0 <= r < ns + nu,
    ensures
        row_dot(compressed(shifted(mass, ns, ns)), sigma + u, r) == (if r < ns {
            T::zero_spec()
        } else {
            row_dot(mass, u, r - ns)
        }),
{
    let x = sigma + u;
    let all = shifted(mass, ns, ns);
    assert(x.skip(ns as int) =~= u);
    lemma_shifted_mass(mass, ns, nu, x, r);
    row_compressed(all, (ns + nu) as int, (ns + nu) as int, x, r);
}

proof fn lemma_shifted_mass<T: Scalar>(
    mass: Seq<(usize, usize, T)>,
    ns: nat,
    nu: nat,
    x: Seq<T>,
    r: int,
)
    requires
        commutative_ring::<T>(),
        triplets_within(mass, nu as int, nu as int),
        x.len() == ns + nu,
        ns + nu <= usize::MAX,
        0 <= r < ns + nu,
    ensures
        row_dot(shifted(mass, ns, ns), x, r) == (if r < ns {
            T::zero_spec()
        } else {
            row_dot(mass, x.skip(ns as int), r - ns)
        }),
        triplets_within(shifted(mass, ns, ns), (ns + nu) as int, (ns + nu) as int),
    decreases mass.len(),
{
    let all = shifted(mass, ns, ns);
    if mass.len() > 0 {
        let front = mass.drop_last();
        front_within(mass, nu as int, nu as int);
        lemma_shifted_mass(front, ns, nu, x, r);
        let before = shifted(front, ns, ns);
        assert(all.drop_last() =~= before);
        let last = mass.last();
        assert(x.skip(ns as int)[last.1 as int] == x[ns + last.1]);
        assert forall|i: int| 0 <= i < all.len() implies (#[trigger] all[i]).0 < ns + nu
            && all[i].1 < ns + nu by {
            if i < before.len() {
                assert(all[i] == before[i]);
            }
        }
    } else {
        assert(all.len() == 0);
    }
}

/// An eigenpair of the problem for the smallest eigenvalues, on all dofs: the first unknown
/// belongs to the second by the mass and the adjoint, and both derivatives give the eigenvalue
/// times the mass of the second.
pub proof fn eigenpairs_solve_the_mixed_problem<T: Scalar>(
    plan: EvpPlan<T>,
    galmats: MixedGalmats<T>,
    mass_solve: GhiepReducedSolve,
    lambda: T,
    sigma: Seq<T>,
    u: Seq<T>,
    r: int,
)
    requires
        commutative_ring::<T>(),
        galmats.wf(),
        is_evp_plan(plan, galmats, None, None, GhiepWhich::Smallest, mass_solve),
        sigma.len() == galmats.mass_sigma.rows(),
        u.len() == galmats.mass_u.rows(),
        0 <= r < sigma.len() + u.len(),
        plan matches EvpPlan::Mixed { lhs, rhs, .. } && row_dot(
            lhs.entries(),
            sigma + u,
            r,
        ) == lambda.times_spec(row_dot(rhs.entries(), sigma + u, r)),
    ensures
        r < sigma.len() ==> row_dot(galmats.mass_sigma.entries(), sigma, r) == row_dot(
            galmats.codif_u.entries(),
            u,
            r,
        ),
        r >= sigma.len() ==> row_dot(
            galmats.dif_sigma.entries(),
            sigma,
            r - sigma.len(),
        ).plus_spec(row_dot(galmats.codifdif_u.entries(), u, r - sigma.len()))
            == lambda.times_spec(row_dot(galmats.mass_u.entries(), u, r - sigma.len())),
{
    let (ns, nu) = (galmats.mass_sigma.rows(), galmats.mass_u.rows());
    let x = sigma + u;
    match plan {
        EvpPlan::Mixed { lhs, rhs, .. } => {
            let m = choose|m: CooMatrix<T>| #[trigger] compresses_to(lhs, m) && galmats.is_mixed(m);
            galmats.mixed_blocks_act(m);
            lemma_mixed_within(galmats, m);
            row_compressed(m.entries(), (ns + nu) as int, (ns + nu) as int, x, r);
            shifted_mass_acts_on_second(galmats.mass_u.entries(), ns, nu, sigma, u, r);
            assert(row_dot(m.entries(), sigma + u, r) == row_dot(lhs.entries(), x, r));
            ring_units(lambda);
            if r < ns {
                let (a, b) = (
                    row_dot(galmats.mass_sigma.entries(), sigma, r),
                    row_dot(galmats.codif_u.entries(), u, r),
                );
                ring_minus(a, b);
                ring_plus(b, b, b);
            }
        },
        _ => {},
    }
}

/// The matrix of the mixed problem has a row and a column for each dof.
proof fn lemma_mixed_within<T: Scalar>(galmats: MixedGalmats<T>, m: CooMatrix<T>)
    requires
        commutative_ring::<T>(),
        galmats.wf(),
        galmats.is_mixed(m),
        galmats.mass_sigma.rows() + galmats.mass_u.rows() > 0,
    ensures
        triplets_within(
            m.entries(),
            (galmats.mass_sigma.rows() + galmats.mass_u.rows()) as int,
            (galmats.mass_sigma.rows() + galmats.mass_u.rows()) as int,
        ),
{
    let neg = choose|neg: CooMatrix<T>|
        neg.wf() && neg.rows() == galmats.codif_u.rows() && neg.cols() == galmats.codif_u.cols()
            && neg.entries() == negated_entries(galmats.codif_u.entries()) && m.entries()
            == #[trigger] block_entries(
            galmats.mass_sigma,
            neg,
            galmats.dif_sigma,
            galmats.codifdif_u,
        );
    let (ns, nu) = (galmats.mass_sigma.rows(), galmats.mass_u.rows());
    let x = zeros_of::<T>(ns + nu);
    lemma_fits_within(galmats.mass_sigma, ns, ns);
    lemma_fits_within(neg, ns, nu);
    lemma_fits_within(galmats.dif_sigma, nu, ns);
    lemma_fits_within(galmats.codifdif_u, nu, nu);
    lemma_block_rows(
        galmats.mass_sigma,
        neg,
        galmats.dif_sigma,
        galmats.codifdif_u,
        ns,
        nu,
        ns,
        nu,
        x,
        0,
    );
}

/// Forcing and flux enter the residual with the opposite sign.
pub proof fn loads_enter_with_opposite_sign<T: Scalar>(
    assembly: ReducedLinearPdeAssembly<T>,
    load: Seq<T>,
    r: int,
)
    requires
        commutative_ring::<T>(),
        only_zero_is_zero::<T>(),
        assembly.loads_subtract(),
        assembly.layout.active_dofs@.len() <= usize::MAX,
        0 <= r < assembly.layout.active_dofs@.len(),
    ensures
        row_dot(assembly.forcing_operator.entries(), load, r).plus_spec(load[r])
            == T::zero_spec(),
        row_dot(assembly.neumann_operator.entries(), load, r).plus_spec(load[r])
            == T::zero_spec(),
{
    let diag = Seq::new(
        assembly.layout.active_dofs@.len(),
        |i: int| T::one_spec().negated_spec(),
    );
    row_of_diagonal(diag, load, r);
    ring_negated(T::one_spec(), load[r]);
    ring_units(load[r]);
    ring_negated(load[r], load[r]);
}

/// A bias that is the opposite of a right-hand side makes the residual vanish just where the
/// equation holds.
pub proof fn negated_bias_balances<T: Scalar>(rhs: Seq<T>, value: T, r: int)
    requires
        commutative_ring::<T>(),
        0 <= r < rhs.len(),
    ensures
        value.plus_spec(negated_values(rhs)[r]) == T::zero_spec() <==> value == rhs[r],
{
    let n = rhs[r].negated_spec();
    ring_negated(rhs[r], rhs[r]);
    ring_plus(n, rhs[r], n);
    if value.plus_spec(n) == T::zero_spec() {
        ring_cancels(value, rhs[r], n);
    }
}

/// A diagonal inverse undoes a diagonal.
pub proof fn diagonal_inverse_inverts<T: Scalar>(values: Seq<T>, x: Seq<T>, r: int)
    requires
        commutative_ring::<T>(),
        only_zero_is_zero::<T>(),
        values.len() <= usize::MAX,
        0 <= r < values.len(),
        invertible(values[r]),
    ensures
        values[r].times_spec(row_dot(inverse_diagonal(values), x, r)) == x[r],
{
    let inverses = Seq::new(values.len(), |i: int| inverted_spec(values[i]));
    row_of_diagonal(inverses, x, r);
    inverted_diagonal_is_inverse(values[r]);
    ring_associates(values[r], inverted_spec(values[r]), x[r]);
    ring_units(x[r]);
}

/// The approximate inverses that are diagonal undo what they approximate: the row sums of the
/// mass, which are what the mass makes of ones, or the values on its diagonal.
pub proof fn diagonal_mass_inverses_invert<T: Scalar>(
    topology: &Complex,
    grade: int,
    elmats: Seq<Vec<T>>,
    approximation: MassInverseApproximation<T>,
    x: Seq<T>,
    r: int,
)
    requires
        commutative_ring::<T>(),
        only_zero_is_zero::<T>(),
        topology.simplices(grade).len() <= usize::MAX,
        triplets_within(
            mass_entries(topology, grade, elmats),
            topology.simplices(grade).len() as int,
            topology.simplices(grade).len() as int,
        ),
        0 <= r < topology.simplices(grade).len(),
    ensures
        ({
            let n = topology.simplices(grade).len();
            let mass = mass_entries(topology, grade, elmats);
            let inverse = inverse_entries(topology, grade, elmats, approximation);
            &&& approximation is RowSumLumped && invertible(row_dot(mass, ones(n), r))
                ==> row_dot(mass, ones(n), r).times_spec(row_dot(inverse, x, r)) == x[r]
            &&& approximation is ExactTopDegreeDiagonal && invertible(
                diagonal_total(compressed(mass), r),
            ) ==> diagonal_total(compressed(mass), r).times_spec(row_dot(inverse, x, r)) == x[r]
        }),
{
    let n = topology.simplices(grade).len();
    let plain = mass_entries(topology, grade, elmats);
    let mass = compressed(plain);
    row_compressed(plain, n as int, n as int, ones(n), r);
    row_total_of_ones(mass, n as int, n, r);
    let sums = Seq::new(n, |r: int| row_total(mass, r));
    let diagonal = Seq::new(n, |r: int| diagonal_total(mass, r));
    if approximation is RowSumLumped && invertible(row_dot(plain, ones(n), r)) {
        diagonal_inverse_inverts(sums, x, r);
    }
    if approximation is ExactTopDegreeDiagonal && invertible(diagonal_total(mass, r)) {
        diagonal_inverse_inverts(diagonal, x, r);
    }
}

} // verus!
