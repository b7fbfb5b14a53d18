//! What the steps of the theta method balance.

use crate::assemble::boundary_conditions::{boundary_vertex_list, selected_pairs};
use crate::assemble::dirichlet_law::{dirichlet_conditions_hold, dirichlet_row};
use crate::assemble::dofs::{fixed_flags, fixed_rhs, pair_dofs, unit_entries, zeroed_at};
use crate::assemble::fixed_dofs_law::solves;
use crate::assemble::reconstruction_law::divides_exactly;
use crate::linalg::algebra::row_dot;
use crate::linalg::csr::compressed;
use crate::linalg::matrix_law::{
    ring_cancels, ring_scales_difference, row_multiplied, row_of_both, row_of_difference,
    row_of_multiple, row_of_sum,
};
use crate::linalg::ring::{
    commutative_ring, ring_associates, ring_commutes, ring_distributes, ring_minus, ring_plus,
    ring_units,
};
use crate::linalg::scalar::Scalar;
use crate::linalg::sparse::triplets_within;
use crate::linalg::vectors::{difference_of, multiple_of, multiplied, sum_of};
use crate::problems::heat::{equidistant, heat_matrix, heat_rhs};
use crate::topology::complex::Complex;
use vstd::prelude::*;

verus! {

/// The inverse of a coefficient that divides exactly.
pub proof fn quotient_is_product<T: Scalar>(d: T, a: T)
    requires
        commutative_ring::<T>(),
        divides_exactly(d),
    ensures
        d.times_spec(T::one_spec().over_spec(d)) == T::one_spec(),
        a.over_spec(d) == a.times_spec(T::one_spec().over_spec(d)),
        a.over_spec(d).times_spec(d) == a,
        d.times_spec(a.over_spec(d)) == a,
{
    let e = choose|e: T| #[trigger]
        e.times_spec(d) == T::one_spec() && forall|a: T| #[trigger]
            a.over_spec(d) == a.times_spec(e);
    assert(T::one_spec().over_spec(d) == T::one_spec().times_spec(e));
    assert(a.over_spec(d) == a.times_spec(e));
    ring_units(e);
    ring_units(a);
    ring_commutes(e, d);
    ring_associates(a, e, d);
    ring_commutes(d, a.over_spec(d));
}

/// From `e a + x == (e b - y) + s`, where `e` is the inverse of `d`, follows
/// `(a - b) + d (x + y) == d s`.
pub(crate) proof fn lemma_balance<T: Scalar>(d: T, e: T, a: T, b: T, x: T, y: T, s: T)
    requires
        commutative_ring::<T>(),
        d.times_spec(e) == T::one_spec(),
        e.times_spec(a).plus_spec(x) == e.times_spec(b).minus_spec(y).plus_spec(s),
    ensures
        a.minus_spec(b).plus_spec(d.times_spec(x.plus_spec(y))) == d.times_spec(s),
{
    let (dx, dy, ds) = (d.times_spec(x), d.times_spec(y), d.times_spec(s));
    let (ea, eb) = (e.times_spec(a), e.times_spec(b));
    ring_distributes(d, ea, x);
    ring_associates(d, e, a);
    ring_units(a);
    ring_distributes(d, eb.minus_spec(y), s);
    ring_scales_difference(d, eb, y);
    ring_associates(d, e, b);
    ring_units(b);
    // a + dx == (b - dy) + ds
    let c = a.minus_spec(b);
    let by = b.minus_spec(dy);
    assert(a.plus_spec(dx) == by.plus_spec(ds));
    ring_minus(a, b);
    ring_minus(b, dy);
    ring_distributes(d, x, y);
    // (c + (dx + dy)) + b == (c + b) + (dx + dy)
    let both = dx.plus_spec(dy);
    ring_plus(c, both, b);
    ring_plus(both, b, b);
    ring_plus(c, b, both);
    // a + (dx + dy) == (by + ds) + dy == (by + dy) + ds
    ring_plus(a, dx, dy);
    ring_plus(by, ds, dy);
    ring_plus(ds, dy, dy);
    ring_plus(by, dy, ds);
    ring_plus(b, ds, ds);
    ring_cancels(c.plus_spec(both), ds, b);
}

/// The coefficients count: the one after a count is the count and one.
pub open spec fn counts_exactly<T: Scalar>() -> bool {
    &&& T::from_count_spec(0) == T::zero_spec()
    &&& forall|n: nat| #[trigger]
        T::from_count_spec(n + 1) == T::from_count_spec(n).plus_spec(T::one_spec())
}

/// Times that start at zero and go on by the same step.
pub open spec fn steps_evenly<T: Scalar>(grid: Seq<T>, nsteps: nat, dt: T) -> bool {
    &&& grid.len() == nsteps + 1
    &&& grid[0] == T::zero_spec()
    &&& forall|i: int| 0 <= i < nsteps ==> grid[i + 1] == (#[trigger] grid[i]).plus_spec(dt)
}

/// Equidistant times go on by the same step.
pub proof fn equidistant_times_step_evenly<T: Scalar>(nsteps: nat, dt: T)
    requires
        commutative_ring::<T>(),
        counts_exactly::<T>(),
    ensures
        steps_evenly(equidistant(nsteps, dt), nsteps, dt),
{
    let grid = equidistant(nsteps, dt);
    ring_units(dt);
    assert forall|i: int| 0 <= i < nsteps implies grid[i + 1] == (#[trigger] grid[i]).plus_spec(
        dt,
    ) by {
        assert(T::from_count_spec((i as nat) + 1) == T::from_count_spec(i as nat).plus_spec(
            T::one_spec(),
        ));
        ring_distributes(dt, T::from_count_spec(i as nat), T::one_spec());
    }
}

/// A vertex balances over a step: what its mass gains, and what diffuses on the average of both
/// ends of the step, is what the sources give on that average.
pub open spec fn heat_balances<T: Scalar>(
    mass: Seq<(usize, usize, T)>,
    laplace: Seq<(usize, usize, T)>,
    prev: Seq<T>,
    next: Seq<T>,
    source_0: Seq<T>,
    source_1: Seq<T>,
    diffusion_coeff: T,
    theta: T,
    dt: T,
    r: int,
) -> bool {
    let rest = T::one_spec().minus_spec(theta);
    let average = sum_of(multiple_of(theta, next), multiple_of(rest, prev));
    row_dot(mass, difference_of(next, prev), r).plus_spec(
        dt.times_spec(diffusion_coeff.times_spec(row_dot(laplace, average, r))),
    ) == dt.times_spec(
        rest.times_spec(source_0[r]).plus_spec(theta.times_spec(source_1[r])),
    )
}

/// `x (c p) + y (c q) == c (x p + y q)`.
proof fn lemma_common_factor<T: Scalar>(c: T, x: T, p: T, y: T, q: T)
    requires
        commutative_ring::<T>(),
    ensures
        x.times_spec(c).times_spec(p).plus_spec(y.times_spec(c).times_spec(q)) == c.times_spec(
            x.times_spec(p).plus_spec(y.times_spec(q)),
        ),
{
    ring_commutes(x, c);
    ring_commutes(y, c);
    ring_associates(c, x, p);
    ring_associates(c, y, q);
    ring_distributes(c, x.times_spec(p), y.times_spec(q));
}

/// A row of the system of a step holds exactly if its vertex balances. This half leads from the
/// row to the balance.
pub proof fn heat_row_balances<T: Scalar>(
    mass: Seq<(usize, usize, T)>,
    laplace: Seq<(usize, usize, T)>,
    n: nat,
    prev: Seq<T>,
    next: Seq<T>,
    source_0: Seq<T>,
    source_1: Seq<T>,
    diffusion_coeff: T,
    theta: T,
    dt: T,
    r: int,
)
    requires
        commutative_ring::<T>(),
        divides_exactly(dt),
        triplets_within(mass, n as int, n as int),
        triplets_within(laplace, n as int, n as int),
        prev.len() == n,
        next.len() == n,
        source_0.len() == n,
        source_1.len() == n,
        0 <= r < n,
        row_dot(heat_matrix(mass, laplace, diffusion_coeff, theta, dt), next, r) == heat_rhs(
            mass,
            laplace,
            n,
            prev,
            source_0,
            source_1,
            diffusion_coeff,
            theta,
            dt,
        )[r],
    ensures
        heat_balances(
            mass,
            laplace,
            prev,
            next,
            source_0,
            source_1,
            diffusion_coeff,
            theta,
            dt,
            r,
        ),
{
    let (c, m) = (diffusion_coeff, n as int);
    let rest = T::one_spec().minus_spec(theta);
    let e = T::one_spec().over_spec(dt);
    quotient_is_product(dt, dt);
    let (first, second) = (multiplied(e, mass), multiplied(theta.times_spec(c), laplace));
    lemma_multiplied_within(mass, e, m, m);
    lemma_multiplied_within(laplace, theta.times_spec(c), m, m);
    row_of_both(first, second, m, m, next, r);
    row_multiplied(mass, e, next, r);
    row_multiplied(laplace, theta.times_spec(c), next, r);
    let (a, b) = (row_dot(mass, next, r), row_dot(mass, prev, r));
    let (p, q) = (row_dot(laplace, next, r), row_dot(laplace, prev, r));
    let s = rest.times_spec(source_0[r]).plus_spec(theta.times_spec(source_1[r]));
    let x = theta.times_spec(c).times_spec(p);
    let y = rest.times_spec(c).times_spec(q);
    lemma_balance(dt, e, a, b, x, y, s);
    lemma_common_factor(c, theta, p, rest, q);
    row_of_difference(mass, m, next, prev, r);
    row_of_sum(laplace, m, multiple_of(theta, next), multiple_of(rest, prev), r);
    row_of_multiple(laplace, m, theta, next, r);
    row_of_multiple(laplace, m, rest, prev, r);
}

pub(crate) proof fn lemma_multiplied_within<T: Scalar>(
    entries: Seq<(usize, usize, T)>,
    c: T,
    nrows: int,
    ncols: int,
)
    requires
        triplets_within(entries, nrows, ncols),
    ensures
        triplets_within(multiplied(c, entries), nrows, ncols),
{
    let all = multiplied(c, entries);
    assert forall|i: int| 0 <= i < all.len() implies (#[trigger] all[i]).0 < nrows && all[i].1
        < ncols by {
        assert(entries[i].0 < nrows);
    }
}

/// What holds of a vertex at the end of a step: one on the boundary has the value given for it,
/// and any other balances.
pub open spec fn heat_vertex<T: Scalar>(
    topology: &Complex,
    mass: Seq<(usize, usize, T)>,
    laplace: Seq<(usize, usize, T)>,
    prev: Seq<T>,
    next: Seq<T>,
    source_0: Seq<T>,
    source_1: Seq<T>,
    boundary_data: Seq<T>,
    diffusion_coeff: T,
    theta: T,
    dt: T,
    v: int,
) -> bool {
    if boundary_vertex_list(topology).contains(v as usize) {
        next[v] == boundary_data[v]
    } else {
        heat_balances(
            mass,
            laplace,
            prev,
            next,
            source_0,
            source_1,
            diffusion_coeff,
            theta,
            dt,
            v,
        )
    }
}

/// The values at the end of a step: boundary vertices have the values given for them, and all
/// other vertices balance.
pub open spec fn is_heat_step<T: Scalar>(
    topology: &Complex,
    mass: Seq<(usize, usize, T)>,
    laplace: Seq<(usize, usize, T)>,
    prev: Seq<T>,
    next: Seq<T>,
    source_0: Seq<T>,
    source_1: Seq<T>,
    boundary_data: Seq<T>,
    diffusion_coeff: T,
    theta: T,
    dt: T,
) -> bool {
    forall|v: int| 0 <= v < topology.simplices(0).len() ==> #[trigger] heat_vertex(
        topology,
        mass,
        laplace,
        prev,
        next,
        source_0,
        source_1,
        boundary_data,
        diffusion_coeff,
        theta,
        dt,
        v,
    )
}

/// Over coefficients that compute exactly, a solution of the system of a step holds the values
/// at the end of the step.
pub proof fn heat_solution_is_a_step<T: Scalar>(
    topology: &Complex,
    mass: Seq<(usize, usize, T)>,
    laplace: Seq<(usize, usize, T)>,
    prev: Seq<T>,
    next: Seq<T>,
    source_0: Seq<T>,
    source_1: Seq<T>,
    boundary_data: Seq<T>,
    diffusion_coeff: T,
    theta: T,
    dt: T,
)
    requires
        commutative_ring::<T>(),
        divides_exactly(dt),
        topology.wf(),
        topology.dimension() >= 1,
        triplets_within(
            mass,
            topology.simplices(0).len() as int,
            topology.simplices(0).len() as int,
        ),
        triplets_within(
            laplace,
            topology.simplices(0).len() as int,
            topology.simplices(0).len() as int,
        ),
        prev.len() == topology.simplices(0).len(),
        next.len() == topology.simplices(0).len(),
        source_0.len() == topology.simplices(0).len(),
        source_1.len() == topology.simplices(0).len(),
        ({
            let n = topology.simplices(0).len();
            let pairs = selected_pairs(boundary_vertex_list(topology), None, boundary_data);
            let lhs = heat_matrix(mass, laplace, diffusion_coeff, theta, dt);
            let rhs = heat_rhs(
                mass,
                laplace,
                n,
                prev,
                source_0,
                source_1,
                diffusion_coeff,
                theta,
                dt,
            );
            solves(
                compressed(
                    zeroed_at(lhs, fixed_flags(pairs, n)) + unit_entries(pair_dofs(pairs)),
                ),
                fixed_rhs(rhs, compressed(lhs), pairs),
                n,
                next,
            )
        }),
    ensures
        is_heat_step(
            topology,
            mass,
            laplace,
            prev,
            next,
            source_0,
            source_1,
            boundary_data,
            diffusion_coeff,
            theta,
            dt,
        ),
{
    let n = topology.simplices(0).len();
    let m = n as int;
    let lhs = heat_matrix(mass, laplace, diffusion_coeff, theta, dt);
    let rhs = heat_rhs(mass, laplace, n, prev, source_0, source_1, diffusion_coeff, theta, dt);
    let e = T::one_spec().over_spec(dt);
    lemma_multiplied_within(mass, e, m, m);
    lemma_multiplied_within(laplace, theta.times_spec(diffusion_coeff), m, m);
    row_of_both(
        multiplied(e, mass),
        multiplied(theta.times_spec(diffusion_coeff), laplace),
        m,
        m,
        next,
        0,
    );
    dirichlet_conditions_hold(topology, lhs, rhs, None, boundary_data, next);
    assert forall|r: int| 0 <= r < n implies #[trigger] heat_vertex(
        topology,
        mass,
        laplace,
        prev,
        next,
        source_0,
        source_1,
        boundary_data,
        diffusion_coeff,
        theta,
        dt,
        r,
    ) by {
        assert(dirichlet_row(topology, lhs, rhs, None, boundary_data, next, r));
        if !boundary_vertex_list(topology).contains(r as usize) {
            heat_row_balances(
                mass,
                laplace,
                n,
                prev,
                next,
                source_0,
                source_1,
                diffusion_coeff,
                theta,
                dt,
                r,
            );
        }
    }
}

} // verus!
