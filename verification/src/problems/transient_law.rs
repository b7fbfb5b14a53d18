//! What a step of the mixed problem over time balances.

use crate::assemble::dofs::{
    eliminated_rhs, fixed_flags, free_entries, last_value, pair_dofs, unit_entries,
};
use crate::assemble::fixed_dofs_law::{solves, solves_with_fixed, strong_fixing_fixes};
use crate::assemble::reconstruction_law::divides_exactly;
use crate::linalg::algebra::{matrix_times, row_dot};
use crate::linalg::blocks::{block_entries, block_heights, block_widths};
use crate::linalg::csr::{compressed, CsrMatrix};
use crate::linalg::matrix_law::{
    row_compressed, row_multiplied, row_negated, row_of_both, row_of_difference, row_of_multiple,
    row_of_sum,
};
use crate::linalg::ring::{
    commutative_ring, ring_distributes, ring_exchange, ring_negated, ring_plus,
};
use crate::linalg::scalar::Scalar;
use crate::linalg::sparse::{triplets_within, unset_before_bound, CooMatrix};
use crate::linalg::vectors::{difference_of, multiple_of, multiplied, sum_of};
use crate::problems::elimination::{masked_pairs, masked_pairs_values, MixedSystem};
use crate::problems::elimination_law::{
    eliminated_system_solves_the_full_one, free_counts, free_rows_hold,
};
use crate::problems::hodge_transient::{
    can_step, is_sigma_system, is_transient_parts, is_transient_state, step_fault, MixedTransientConfig,
    MixedTransientState,
};
use crate::problems::mixed_galmats::{free_count, MixedGalmats};
use crate::problems::step_law::{lemma_balance, lemma_multiplied_within, quotient_is_product};
use vstd::prelude::*;

verus! {

/// What holds of a dof of the first unknown that belongs to a second one at a time.
pub open spec fn sigma_belongs<T: Scalar>(
    galmats: MixedGalmats<T>,
    sigma: Seq<T>,
    u: Seq<T>,
    config: MixedTransientConfig<T>,
    at: int,
    r: int,
) -> bool {
    if config.k_minus_one_strong_bc_mask is Some && config.k_minus_one_strong_bc_data_at is Some
        && config.sigma_flags(galmats)[r] {
        sigma[r] == config.sigma_data(galmats, at)[r]
    } else {
        row_dot(galmats.mass_sigma.entries(), sigma, r) == config.sigma_rhs_at@[at]@[r].plus_spec(
            row_dot(galmats.codif_u.entries(), u, r),
        )
    }
}

/// A solution of the system for the first unknown belongs to the second one.
pub proof fn sigma_solution_belongs<T: Scalar>(
    system: (CsrMatrix<T>, Vec<T>),
    galmats: MixedGalmats<T>,
    u: Seq<T>,
    config: MixedTransientConfig<T>,
    at: int,
    sigma: Seq<T>,
)
    requires
        commutative_ring::<T>(),
        galmats.wf(),
        galmats.mass_sigma.rows() > 0,
        config.fits(galmats),
        0 <= at < config.times@.len(),
        config.sigma_rhs_at@[at]@.len() == galmats.mass_sigma.rows(),
        is_sigma_system(system, galmats, u, config, at),
        solves(system.0.entries(), system.1@, galmats.mass_sigma.rows(), sigma),
    ensures
        forall|r: int|
            0 <= r < galmats.mass_sigma.rows() ==> #[trigger] sigma_belongs(
                galmats,
                sigma,
                u,
                config,
                at,
                r,
            ),
{
    let ns = galmats.mass_sigma.rows();
    let n = ns as int;
    let mass = galmats.mass_sigma.entries();
    let (flags, data) = (config.sigma_flags(galmats), config.sigma_data(galmats, at));
    let both = config.k_minus_one_strong_bc_mask is Some
        && config.k_minus_one_strong_bc_data_at is Some;
    let pairs = if both {
        masked_pairs(flags, data)
    } else {
        Seq::empty()
    };
    masked_pairs_values(flags, data);
    let rhs = sum_of(
        config.sigma_rhs_at@[at]@,
        matrix_times(compressed(galmats.codif_u.entries()), ns, u),
    );
    strong_fixing_fixes(mass, rhs, pairs, ns, sigma);
    let fixed = fixed_flags(pairs, ns);
    let all = free_entries(mass, fixed, fixed) + unit_entries(pair_dofs(pairs));
    assert(triplets_within(all, n, n)) by {
        free_entries_within(mass, fixed, fixed, n, n);
        assert forall|i: int| 0 <= i < all.len() implies (#[trigger] all[i]).0 < n && all[i].1
            < n by {
            let front = free_entries(mass, fixed, fixed);
            if i < front.len() {
                assert(all[i] == front[i]);
            } else {
                assert(pairs[i - front.len()].0 < n);
            }
        }
    }
    assert forall|i: int| 0 <= i < ns implies #[trigger] row_dot(all, sigma, i)
        == eliminated_rhs(rhs, mass, pairs)[i] by {
        row_compressed(all, n, n, sigma, i);
        assert(row_dot(system.0.entries(), sigma, i) == system.1@[i]);
    }
    assert(solves_with_fixed(mass, rhs, pairs, ns, sigma));
    assert forall|r: int| 0 <= r < ns implies #[trigger] sigma_belongs(
        galmats,
        sigma,
        u,
        config,
        at,
        r,
    ) by {
        row_compressed(
            galmats.codif_u.entries(),
            n,
            galmats.mass_u.rows() as int,
            u,
            r,
        );
        if both && flags[r] {
            assert(last_value(pairs, r) == Some(data[r]));
        } else {
            assert(last_value(pairs, r) is None);
            assert(row_dot(mass, sigma, r) == rhs[r]);
        }
    }
}

proof fn free_entries_within<T: Scalar>(
    entries: Seq<(usize, usize, T)>,
    rows: Seq<bool>,
    cols: Seq<bool>,
    nrows: int,
    ncols: int,
)
    requires
        triplets_within(entries, nrows, ncols),
    ensures
        triplets_within(free_entries(entries, rows, cols), nrows, ncols),
    decreases entries.len(),
{
    if entries.len() > 0 {
        let front = entries.drop_last();
        assert(entries[entries.len() - 1].0 < nrows);
        assert(triplets_within(front, nrows, ncols)) by {
            assert forall|i: int| 0 <= i < front.len() implies (#[trigger] front[i]).0 < nrows
                && front[i].1 < ncols by {
                assert(front[i] == entries[i]);
            }
        }
        free_entries_within(front, rows, cols, nrows, ncols);
    }
}

/// The time from one entry of the grid to the next.
pub open spec fn step_length<T: Scalar>(config: MixedTransientConfig<T>, at: int) -> T {
    config.times@[at + 1].minus_spec(config.times@[at])
}

/// The values at the end of a step and at its beginning, by the part that the method gives each.
pub open spec fn average<T: Scalar>(theta: T, next: Seq<T>, prev: Seq<T>) -> Seq<T> {
    sum_of(multiple_of(theta, next), multiple_of(T::one_spec().minus_spec(theta), prev))
}

/// What holds of a dof of the first unknown at the end of a step: the value given for it, or the
/// equation that ties the first unknown to the second.
pub open spec fn sigma_dof_holds<T: Scalar>(
    galmats: MixedGalmats<T>,
    next: MixedTransientState<T>,
    config: MixedTransientConfig<T>,
    at: int,
    r: int,
) -> bool {
    if config.sigma_flags(galmats)[r] {
        next.sigma.coeffs@[r] == config.sigma_data(galmats, at + 1)[r]
    } else {
        row_dot(galmats.mass_sigma.entries(), next.sigma.coeffs@, r)
            == config.sigma_rhs_at@[at + 1]@[r].plus_spec(
            row_dot(galmats.codif_u.entries(), next.u.coeffs@, r),
        )
    }
}

/// What holds of a dof of the second unknown at the end of a step: the value given for it, or the
/// balance of what the mass gains and of both derivatives, on the average over the step, with
/// the right-hand sides on that average.
pub open spec fn u_dof_holds<T: Scalar>(
    galmats: MixedGalmats<T>,
    prev: MixedTransientState<T>,
    next: MixedTransientState<T>,
    config: MixedTransientConfig<T>,
    at: int,
    r: int,
) -> bool {
    let theta = config.method.value();
    let dt = step_length(config, at);
    if config.u_flags(galmats)[r] {
        next.u.coeffs@[r] == config.u_data(galmats, at + 1)[r]
    } else {
        row_dot(
            galmats.mass_u.entries(),
            difference_of(next.u.coeffs@, prev.u.coeffs@),
            r,
        ).plus_spec(
            dt.times_spec(
                row_dot(
                    galmats.dif_sigma.entries(),
                    average(theta, next.sigma.coeffs@, prev.sigma.coeffs@),
                    r,
                ).plus_spec(
                    row_dot(
                        galmats.codifdif_u.entries(),
                        average(theta, next.u.coeffs@, prev.u.coeffs@),
                        r,
                    ),
                ),
            ),
        ) == dt.times_spec(
            T::one_spec().minus_spec(theta).times_spec(config.u_rhs_at@[at]@[r]).plus_spec(
                theta.times_spec(config.u_rhs_at@[at + 1]@[r]),
            ),
        )
    }
}

/// The state at the end of a step.
pub open spec fn is_transient_step<T: Scalar>(
    galmats: MixedGalmats<T>,
    prev: MixedTransientState<T>,
    next: MixedTransientState<T>,
    config: MixedTransientConfig<T>,
    at: int,
) -> bool {
    &&& forall|r: int|
        0 <= r < galmats.mass_sigma.rows() ==> #[trigger] sigma_dof_holds(
            galmats,
            next,
            config,
            at,
            r,
        )
    &&& forall|r: int|
        0 <= r < galmats.mass_u.rows() ==> #[trigger] u_dof_holds(
            galmats,
            prev,
            next,
            config,
            at,
            r,
        )
}

/// The solutions of a system hold the states at the end of a step.
pub open spec fn solutions_are_steps<T: Scalar>(
    matrix: CsrMatrix<T>,
    rhs: Seq<T>,
    galmats: MixedGalmats<T>,
    prev: MixedTransientState<T>,
    config: MixedTransientConfig<T>,
    at: int,
) -> bool {
    &&& matrix.rows() == free_count(config.sigma_flags(galmats)) + free_count(
        config.u_flags(galmats),
    )
    &&& forall|next: MixedTransientState<T>, x: Seq<T>, grade: int|
        x.len() == matrix.rows() && solves(matrix.entries(), rhs, matrix.rows(), x)
            && #[trigger] is_transient_state(next, galmats, x, config, at + 1, grade)
            ==> is_transient_step(galmats, prev, next, config, at)
}

proof fn lemma_u_row<T: Scalar>(
    galmats: MixedGalmats<T>,
    prev: MixedTransientState<T>,
    next: MixedTransientState<T>,
    config: MixedTransientConfig<T>,
    at: int,
    parts: MixedSystem<T>,
    r: int,
)
    requires
        commutative_ring::<T>(),
        divides_exactly(step_length(config, at)),
        can_step(galmats, prev, config),
        is_transient_parts(parts, galmats, prev, config, at),
        next.sigma.coeffs@.len() == galmats.mass_sigma.rows(),
        next.u.coeffs@.len() == galmats.mass_u.rows(),
        config.u_rhs_at@[at]@.len() == galmats.mass_u.rows(),
        config.u_rhs_at@[at + 1]@.len() == galmats.mass_u.rows(),
        0 <= r < galmats.mass_u.rows(),
        !config.u_flags(galmats)[r],
        row_dot(parts.dif_sigma.entries(), next.sigma.coeffs@, r).plus_spec(
            row_dot(parts.u_block.entries(), next.u.coeffs@, r),
        ) == parts.u_rhs@[r],
    ensures
        u_dof_holds(galmats, prev, next, config, at, r),
{
    let (ns, nu) = (galmats.mass_sigma.rows() as int, galmats.mass_u.rows() as int);
    let theta = config.method.value();
    let rest = T::one_spec().minus_spec(theta);
    let dt = step_length(config, at);
    let e = T::one_spec().over_spec(dt);
    quotient_is_product(dt, dt);
    let (dif, mass, second) = (
        galmats.dif_sigma.entries(),
        galmats.mass_u.entries(),
        galmats.codifdif_u.entries(),
    );
    let (s0, s1) = (prev.sigma.coeffs@, next.sigma.coeffs@);
    let (u0, u1) = (prev.u.coeffs@, next.u.coeffs@);
    row_compressed(dif, nu, ns, s0, r);
    row_compressed(dif, nu, ns, s1, r);
    row_compressed(mass, nu, nu, u0, r);
    row_compressed(mass, nu, nu, u1, r);
    row_compressed(second, nu, nu, u0, r);
    row_compressed(second, nu, nu, u1, r);
    row_multiplied(compressed(dif), theta, s1, r);
    row_multiplied(compressed(mass), e, u1, r);
    row_multiplied(compressed(second), theta, u1, r);
    lemma_multiplied_within(compressed(mass), e, nu, nu);
    lemma_multiplied_within(compressed(second), theta, nu, nu);
    row_of_both(
        multiplied(e, compressed(mass)),
        multiplied(theta, compressed(second)),
        nu,
        nu,
        u1,
        r,
    );
    let (a, b) = (row_dot(mass, u1, r), row_dot(mass, u0, r));
    let (d0, d1) = (row_dot(dif, s0, r), row_dot(dif, s1, r));
    let (c0, c1) = (row_dot(second, u0, r), row_dot(second, u1, r));
    let f = rest.times_spec(config.u_rhs_at@[at]@[r]).plus_spec(
        theta.times_spec(config.u_rhs_at@[at + 1]@[r]),
    );
    let (td, tc) = (theta.times_spec(d1), theta.times_spec(c1));
    let (rd, rc) = (rest.times_spec(d0), rest.times_spec(c0));
    let x = td.plus_spec(tc);
    let y = rest.times_spec(d0.plus_spec(c0));
    let ea = e.times_spec(a);
    // td + (ea + tc) == ea + (td + tc)
    ring_plus(td, ea, tc);
    ring_plus(ea, td, tc);
    lemma_balance(dt, e, a, b, x, y, f);
    ring_distributes(rest, d0, c0);
    ring_exchange(td, tc, rd, rc);
    row_of_difference(mass, nu, u1, u0, r);
    row_of_sum(dif, nu, multiple_of(theta, s1), multiple_of(rest, s0), r);
    row_of_multiple(dif, nu, theta, s1, r);
    row_of_multiple(dif, nu, rest, s0, r);
    row_of_sum(second, nu, multiple_of(theta, u1), multiple_of(rest, u0), r);
    row_of_multiple(second, nu, theta, u1, r);
    row_of_multiple(second, nu, rest, u0, r);
}

/// Over coefficients that compute exactly, a solution of the system of a step holds the state at
/// the end of the step.
pub proof fn transient_solutions_are_steps<T: Scalar>(
    parts: MixedSystem<T>,
    matrix: CsrMatrix<T>,
    rhs: Seq<T>,
    galmats: MixedGalmats<T>,
    prev: MixedTransientState<T>,
    config: MixedTransientConfig<T>,
    at: int,
)
    requires
        commutative_ring::<T>(),
        divides_exactly(step_length(config, at)),
        can_step(galmats, prev, config),
        0 <= at,
        at + 1 < config.times@.len(),
        step_fault(galmats, config, at) is None,
        is_transient_parts(parts, galmats, prev, config, at),
        parts.wf(),
        parts.u_block.rows() == galmats.mass_u.rows(),
        parts.u_block.cols() == galmats.mass_u.rows(),
        parts.gives(matrix, rhs),
    ensures
        solutions_are_steps(matrix, rhs, galmats, prev, config, at),
{
    let (s, u) = (config.sigma_flags(galmats), config.u_flags(galmats));
    let (ns, nu) = (free_count(s), free_count(u));
    assert(free_counts(parts) == (ns, nu));
    unset_before_bound(s, s.len() as int);
    unset_before_bound(u, u.len() as int);
    let (a, b, c, d) = choose|a: CooMatrix<T>, b: CooMatrix<T>, c: CooMatrix<T>, d: CooMatrix<T>|
        #![trigger block_entries(a, b, c, d)]
        parts.is_free_blocks(a, b, c, d) && matrix.rows() == block_heights(a, b, c, d).1
            && matrix.cols() == block_widths(a, b, c, d).1 && matrix.entries() == compressed(
            block_entries(a, b, c, d),
        );
    assert(matrix.rows() == ns + nu && matrix.cols() == ns + nu);
    assert forall|next: MixedTransientState<T>, x: Seq<T>, grade: int|
        x.len() == matrix.rows() && solves(matrix.entries(), rhs, matrix.rows(), x)
            && #[trigger] is_transient_state(
            next,
            galmats,
            x,
            config,
            at + 1,
            grade,
        ) implies is_transient_step(galmats, prev, next, config, at) by {
        eliminated_system_solves_the_full_one(parts, matrix, rhs, x);
        assert(x.take(ns as int) =~= x.subrange(0, ns as int));
        assert(x.skip(ns as int) =~= x.subrange(ns as int, (ns + nu) as int));
        let (sigma, full) = (next.sigma.coeffs@, next.u.coeffs@);
        assert(free_rows_hold(parts, sigma, full));
        assert forall|r: int| 0 <= r < galmats.mass_sigma.rows() implies #[trigger] sigma_dof_holds(
            galmats,
            next,
            config,
            at,
            r,
        ) by {
            if !s[r] {
                let m = row_dot(parts.mass_sigma.entries(), sigma, r);
                let c = row_dot(galmats.codif_u.entries(), full, r);
                row_negated(galmats.codif_u.entries(), full, r);
                let n = c.negated_spec();
                ring_negated(c, c);
                ring_plus(m, n, c);
            }
        }
        assert forall|r: int| 0 <= r < galmats.mass_u.rows() implies #[trigger] u_dof_holds(
            galmats,
            prev,
            next,
            config,
            at,
            r,
        ) by {
            if !u[r] {
                assert(row_dot(parts.dif_sigma.entries(), sigma, r).plus_spec(
                    row_dot(parts.u_block.entries(), full, r),
                ) == parts.u_rhs@[r]);
                lemma_u_row(galmats, prev, next, config, at, parts, r);
            }
        }
    }
}

} // verus!
