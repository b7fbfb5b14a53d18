//! What the operators and the exact fields of the study with sparse inverses are.

use crate::assemble::reconstruction_law::divides_exactly;
use crate::assemble::symmetry_law::only_zero_is_zero;
use crate::linalg::action_law::push_within;
use crate::linalg::algebra::{
    magnitude_spec, matrix_times, product_terms, reciprocal_spec, row_dot, row_total,
    DIAGONAL_RESOLUTION,
};
use crate::linalg::csr::compressed;
use crate::linalg::matrix_law::{
    ring_subtracts, row_compressed, row_multiplied, row_of_both, row_of_product,
};
use crate::linalg::ring::{
    commutative_ring, ring_associates, ring_commutes, ring_distributes, ring_moves, ring_negated,
    ring_plus, ring_units,
};
use crate::linalg::scalar::Scalar;
use crate::linalg::sparse::{
    restricted, triplets_within, unset_before_bound, unset_before_monotone,
};
use crate::problems::mixed_galmats::{free_count, MixedGalmats};
use crate::problems::step_law::{lemma_multiplied_within, quotient_is_product};
use crate::sparse_inverse_hodge_validation::{
    dif_coeff, in_direction, inverse_row_sums, is_full, laplacian_factor, scalar_factor_spec,
    scaled_entries, schur_operator_entries, shifted_entries, with_block,
};
use vstd::prelude::*;

verus! {

/// A row sum that has an inverse and is not taken as zero.
pub open spec fn invertible_sum<T: Scalar>(sum: T) -> bool {
    &&& divides_exactly(sum)
    &&& reciprocal_spec::<T>(DIAGONAL_RESOLUTION as nat).is_below_spec(magnitude_spec(sum))
}

/// The matrix undoes what the row sums of the mass do.
pub open spec fn inverts_row_sums<T: Scalar>(
    inverse: Seq<(usize, usize, T)>,
    mass: Seq<(usize, usize, T)>,
    n: nat,
) -> bool {
    forall|x: Seq<T>, r: int|
        0 <= r < n && invertible_sum(row_total(mass, r)) ==> row_total(mass, r).times_spec(
            #[trigger] row_dot(inverse, x, r),
        ) == x[r]
}

proof fn lemma_inverse_row<T: Scalar>(
    mass: Seq<(usize, usize, T)>,
    n: nat,
    x: Seq<T>,
    r: int,
)
    requires
        commutative_ring::<T>(),
        n <= usize::MAX,
    ensures
        0 <= r < n && invertible_sum(row_total(mass, r)) ==> row_dot(
            inverse_row_sums(mass, n as int),
            x,
            r,
        ) == T::one_spec().over_spec(row_total(mass, r)).times_spec(x[r]),
        r >= n ==> row_dot(inverse_row_sums(mass, n as int), x, r) == T::zero_spec(),
        triplets_within(inverse_row_sums(mass, n as int), n as int, n as int),
    decreases n,
{
    if n > 0 {
        let m = (n - 1) as nat;
        lemma_inverse_row(mass, m, x, r);
        let before = inverse_row_sums(mass, m as int);
        let at = m as usize;
        let v = T::one_spec().over_spec(row_total(mass, m as int));
        assert(triplets_within(before, n as int, n as int)) by {
            assert forall|i: int| 0 <= i < before.len() implies (#[trigger] before[i]).0 < n
                && before[i].1 < n by {
                assert(before[i].0 < m);
            }
        }
        push_within(before, (at, at, v), n as int, n as int);
        let a = v.times_spec(x[m as int]);
        ring_plus(a, a, a);
    }
}

/// The inverse of the row sums undoes the row sums.
pub proof fn row_sum_inverse_inverts<T: Scalar>(mass: Seq<(usize, usize, T)>, n: nat)
    requires
        commutative_ring::<T>(),
        n <= usize::MAX,
    ensures
        inverts_row_sums(compressed(inverse_row_sums(mass, n as int)), mass, n),
{
    let plain = inverse_row_sums(mass, n as int);
    let inverse = compressed(plain);
    assert forall|x: Seq<T>, r: int|
        0 <= r < n && invertible_sum(row_total(mass, r)) implies row_total(mass, r).times_spec(
        #[trigger] row_dot(inverse, x, r),
    ) == x[r] by {
        lemma_inverse_row(mass, n, x, r);
        row_compressed(plain, n as int, n as int, x, r);
        let d = row_total(mass, r);
        quotient_is_product(d, d);
        ring_associates(d, T::one_spec().over_spec(d), x[r]);
        ring_units(x[r]);
    }
}

pub(crate) proof fn lemma_restricted_within<T>(
    entries: Seq<(usize, usize, T)>,
    rows: Seq<bool>,
    cols: Seq<bool>,
)
    requires
        triplets_within(entries, rows.len() as int, cols.len() as int),
        rows.len() <= usize::MAX,
        cols.len() <= usize::MAX,
    ensures
        triplets_within(
            restricted(entries, rows, cols),
            free_count(rows) as int,
            free_count(cols) as int,
        ),
    decreases entries.len(),
{
    let all = restricted(entries, rows, cols);
    if entries.len() > 0 {
        let front = entries.drop_last();
        let last = entries[entries.len() - 1];
        assert(last.0 < rows.len() && last.1 < cols.len());
        assert(triplets_within(front, rows.len() as int, cols.len() as int)) by {
            assert forall|i: int| 0 <= i < front.len() implies (#[trigger] front[i]).0 < rows.len()
                && front[i].1 < cols.len() by {
                assert(front[i] == entries[i]);
            }
        }
        lemma_restricted_within(front, rows, cols);
        let before = restricted(front, rows, cols);
        unset_before_bound(rows, rows.len() as int);
        unset_before_bound(cols, cols.len() as int);
        unset_before_bound(rows, last.0 as int);
        unset_before_bound(cols, last.1 as int);
        unset_before_monotone(rows, last.0 + 1, rows.len() as int);
        unset_before_monotone(cols, last.1 + 1, cols.len() as int);
        assert forall|i: int| 0 <= i < all.len() implies (#[trigger] all[i]).0 < free_count(rows)
            && all[i].1 < free_count(cols) by {
            if i < before.len() {
                assert(all[i] == before[i]);
            }
        }
    }
}

proof fn lemma_scaled_row<T: Scalar>(
    entries: Seq<(usize, usize, T)>,
    c: T,
    nrows: int,
    ncols: int,
    x: Seq<T>,
    r: int,
)
    requires
        commutative_ring::<T>(),
        only_zero_is_zero::<T>(),
        triplets_within(entries, nrows, ncols),
    ensures
        row_dot(scaled_entries(entries, c), x, r) == c.times_spec(row_dot(entries, x, r)),
        triplets_within(scaled_entries(entries, c), nrows, ncols),
{
    row_multiplied(entries, c, x, r);
    lemma_multiplied_within(entries, c, nrows, ncols);
    ring_units(row_dot(entries, x, r));
}

/// What the operator of the second unknown alone does to a vector on the free dofs: what both
/// derivatives do, with the first unknown that the inverse gives, and the mass twice with the
/// shift.
pub open spec fn acts_shifted<T: Scalar>(
    operator: Seq<(usize, usize, T)>,
    galmats: MixedGalmats<T>,
    sigma_bc: Seq<bool>,
    u_bc: Seq<bool>,
    inverse: Seq<(usize, usize, T)>,
    kappa: T,
) -> bool {
    forall|x: Seq<T>, sigma: Seq<T>, i: int|
        #![trigger row_dot(operator, x, i), sigma_of(galmats, sigma_bc, u_bc, inverse, x, sigma)]
        sigma_of(galmats, sigma_bc, u_bc, inverse, x, sigma) ==> row_dot(operator, x, i)
            == row_dot(restricted(galmats.codifdif_u.entries(), u_bc, u_bc), x, i).plus_spec(
            kappa.times_spec(
                kappa.times_spec(
                    row_dot(restricted(galmats.mass_u.entries(), u_bc, u_bc), x, i),
                ),
            ),
        ).plus_spec(
            row_dot(restricted(galmats.dif_sigma.entries(), u_bc, sigma_bc), sigma, i),
        )
}

/// The first unknown that an inverse of its mass gives for the second one, on the free dofs.
pub open spec fn sigma_of<T: Scalar>(
    galmats: MixedGalmats<T>,
    sigma_bc: Seq<bool>,
    u_bc: Seq<bool>,
    inverse: Seq<(usize, usize, T)>,
    x: Seq<T>,
    sigma: Seq<T>,
) -> bool {
    let n = free_count(sigma_bc);
    sigma == matrix_times(
        inverse,
        n,
        matrix_times(restricted(galmats.codif_u.entries(), sigma_bc, u_bc), n, x),
    )
}

/// The operator of the second unknown alone does what the shifted mixed problem does.
pub proof fn schur_operator_acts<T: Scalar>(
    galmats: MixedGalmats<T>,
    sigma_bc: Seq<bool>,
    u_bc: Seq<bool>,
    inverse: Seq<(usize, usize, T)>,
    kappa: T,
)
    requires
        commutative_ring::<T>(),
        only_zero_is_zero::<T>(),
        is_full(galmats, sigma_bc, u_bc),
        triplets_within(inverse, free_count(sigma_bc) as int, free_count(sigma_bc) as int),
    ensures
        acts_shifted(
            schur_operator_entries(galmats, sigma_bc, u_bc, inverse, kappa),
            galmats,
            sigma_bc,
            u_bc,
            inverse,
            kappa,
        ),
{
    let operator = schur_operator_entries(galmats, sigma_bc, u_bc, inverse, kappa);
    assert forall|x: Seq<T>, sigma: Seq<T>, i: int|
        #![trigger row_dot(operator, x, i), sigma_of(galmats, sigma_bc, u_bc, inverse, x, sigma)]
        sigma_of(galmats, sigma_bc, u_bc, inverse, x, sigma) implies row_dot(operator, x, i)
        == row_dot(restricted(galmats.codifdif_u.entries(), u_bc, u_bc), x, i).plus_spec(
        kappa.times_spec(
            kappa.times_spec(row_dot(restricted(galmats.mass_u.entries(), u_bc, u_bc), x, i)),
        ),
    ).plus_spec(row_dot(restricted(galmats.dif_sigma.entries(), u_bc, sigma_bc), sigma, i)) by {
        lemma_operator_row(galmats, sigma_bc, u_bc, inverse, kappa, x, sigma, i);
    }
}

proof fn lemma_operator_row<T: Scalar>(
    galmats: MixedGalmats<T>,
    sigma_bc: Seq<bool>,
    u_bc: Seq<bool>,
    inverse: Seq<(usize, usize, T)>,
    kappa: T,
    x: Seq<T>,
    sigma: Seq<T>,
    i: int,
)
    requires
        commutative_ring::<T>(),
        only_zero_is_zero::<T>(),
        is_full(galmats, sigma_bc, u_bc),
        triplets_within(inverse, free_count(sigma_bc) as int, free_count(sigma_bc) as int),
        sigma_of(galmats, sigma_bc, u_bc, inverse, x, sigma),
    ensures
        row_dot(schur_operator_entries(galmats, sigma_bc, u_bc, inverse, kappa), x, i) == row_dot(
            restricted(galmats.codifdif_u.entries(), u_bc, u_bc),
            x,
            i,
        ).plus_spec(
            kappa.times_spec(
                kappa.times_spec(
                    row_dot(restricted(galmats.mass_u.entries(), u_bc, u_bc), x, i),
                ),
            ),
        ).plus_spec(
            row_dot(restricted(galmats.dif_sigma.entries(), u_bc, sigma_bc), sigma, i),
        ),
{
    let (ns, nu) = (free_count(sigma_bc), free_count(u_bc));
    let (s, u) = (ns as int, nu as int);
    let mass = restricted(galmats.mass_u.entries(), u_bc, u_bc);
    let second = restricted(galmats.codifdif_u.entries(), u_bc, u_bc);
    let dif = restricted(galmats.dif_sigma.entries(), u_bc, sigma_bc);
    let codif = restricted(galmats.codif_u.entries(), sigma_bc, u_bc);
    lemma_restricted_within(galmats.mass_u.entries(), u_bc, u_bc);
    lemma_restricted_within(galmats.codifdif_u.entries(), u_bc, u_bc);
    lemma_restricted_within(galmats.dif_sigma.entries(), u_bc, sigma_bc);
    lemma_restricted_within(galmats.codif_u.entries(), sigma_bc, u_bc);
    row_compressed(mass, u, u, x, i);
    row_compressed(second, u, u, x, i);
    row_compressed(codif, s, u, x, i);
    let kk = kappa.times_spec(kappa);
    let shift = scaled_entries(compressed(mass), kk);
    lemma_scaled_row(compressed(mass), kk, u, u, x, i);
    ring_associates(kappa, kappa, row_dot(mass, x, i));
    row_of_both(compressed(second), shift, u, u, x, i);
    let shifted = compressed(compressed(second) + shift);
    let first = product_terms(compressed(dif), inverse);
    let y = matrix_times(compressed(codif), ns, x);
    row_compressed(dif, u, s, sigma, i);
    row_of_product(compressed(dif), inverse, u, ns, s, y, i);
    row_compressed(first, u, s, y, i);
    let terms = product_terms(compressed(first), compressed(codif));
    row_of_product(compressed(first), compressed(codif), u, ns, u, x, i);
    row_compressed(terms, u, u, x, i);
    row_of_both(shifted, compressed(terms), u, u, x, i);
    assert forall|r: int| 0 <= r < s implies #[trigger] y[r] == matrix_times(codif, ns, x)[r] by {
        row_compressed(codif, s, u, x, r);
    }
    assert(y =~= matrix_times(codif, ns, x));
}

proof fn lemma_shifted_row<T: Scalar>(
    block: Seq<(usize, usize, T)>,
    offset: nat,
    scale: T,
    n: int,
    m: int,
    x: Seq<T>,
    r: int,
)
    requires
        commutative_ring::<T>(),
        triplets_within(block, m, m),
        offset + m <= n <= usize::MAX,
        offset + m <= x.len(),
    ensures
        row_dot(shifted_entries(block, offset, scale), x, r) == (if r < offset {
            T::zero_spec()
        } else {
            scale.times_spec(row_dot(block, x.skip(offset as int), r - offset))
        }),
        triplets_within(shifted_entries(block, offset, scale), n, n),
    decreases block.len(),
{
    let all = shifted_entries(block, offset, scale);
    if block.len() == 0 {
        ring_units(scale);
        assert(all.len() == 0);
    } else {
        let front = block.drop_last();
        let last = block[block.len() - 1];
        assert(last.0 < m && last.1 < m);
        assert(triplets_within(front, m, m)) by {
            assert forall|i: int| 0 <= i < front.len() implies (#[trigger] front[i]).0 < m
                && front[i].1 < m by {
                assert(front[i] == block[i]);
            }
        }
        lemma_shifted_row(front, offset, scale, n, m, x, r);
        let before = shifted_entries(front, offset, scale);
        assert(all.drop_last() =~= before);
        let y = x.skip(offset as int);
        let a = y[last.1 as int];
        assert(a == x[offset + last.1]);
        ring_associates(scale, last.2, a);
        ring_distributes(scale, row_dot(front, y, r - offset), last.2.times_spec(a));
        assert forall|i: int| 0 <= i < all.len() implies (#[trigger] all[i]).0 < n && all[i].1
            < n by {
            if i < before.len() {
                assert(all[i] == before[i]);
            }
        }
    }
}

/// Adding a block further down and to the right adds what it does to the rest of a vector.
pub proof fn block_is_added<T: Scalar>(
    plain: Seq<(usize, usize, T)>,
    block: Seq<(usize, usize, T)>,
    offset: nat,
    scale: T,
    n: int,
    m: int,
    x: Seq<T>,
    r: int,
)
    requires
        commutative_ring::<T>(),
        only_zero_is_zero::<T>(),
        triplets_within(plain, n, n),
        triplets_within(block, m, m),
        offset + m <= n <= usize::MAX,
        x.len() == n,
    ensures
        row_dot(with_block(plain, block, offset, scale), x, r) == (if r < offset {
            row_dot(plain, x, r)
        } else {
            row_dot(plain, x, r).plus_spec(
                scale.times_spec(row_dot(block, x.skip(offset as int), r - offset)),
            )
        }),
{
    let a = row_dot(plain, x, r);
    ring_plus(a, a, a);
    lemma_shifted_row(block, offset, scale, n, m, x, r);
    row_of_both(plain, shifted_entries(block, offset, scale), n, n, x, r);
    row_compressed(plain, n, n, x, r);
    ring_units(row_dot(block, x.skip(offset as int), r - offset));
}

/// A multiple of a block was added to a square matrix, further down and to the right: what the
/// block does to the rest of a vector enters with the factor.
pub open spec fn adds_block<T: Scalar>(
    system: Seq<(usize, usize, T)>,
    plain: Seq<(usize, usize, T)>,
    block: Seq<(usize, usize, T)>,
    offset: nat,
    scale: T,
    n: nat,
) -> bool {
    forall|x: Seq<T>, r: int|
        x.len() == n ==> #[trigger] row_dot(system, x, r) == (if r < offset {
            row_dot(plain, x, r)
        } else {
            row_dot(plain, x, r).plus_spec(
                scale.times_spec(row_dot(block, x.skip(offset as int), r - offset)),
            )
        })
}

/// The mass was added to the block of the second unknown, twice with the shift.
pub open spec fn shifts_second<T: Scalar>(
    system: Seq<(usize, usize, T)>,
    plain: Seq<(usize, usize, T)>,
    mass: Seq<(usize, usize, T)>,
    offset: nat,
    kappa: T,
    n: nat,
) -> bool {
    forall|x: Seq<T>, r: int|
        x.len() == n ==> #[trigger] row_dot(system, x, r) == (if r < offset {
            row_dot(plain, x, r)
        } else {
            row_dot(plain, x, r).plus_spec(
                kappa.times_spec(
                    kappa.times_spec(row_dot(mass, x.skip(offset as int), r - offset)),
                ),
            )
        })
}

/// A block that is added with the square of the shift shifts the second unknown.
pub proof fn squared_shift_shifts<T: Scalar>(
    system: Seq<(usize, usize, T)>,
    plain: Seq<(usize, usize, T)>,
    mass: Seq<(usize, usize, T)>,
    offset: nat,
    kappa: T,
    n: nat,
    m: int,
)
    requires
        commutative_ring::<T>(),
        triplets_within(mass, m, m),
        adds_block(system, plain, compressed(mass), offset, kappa.times_spec(kappa), n),
    ensures
        shifts_second(system, plain, mass, offset, kappa, n),
{
    assert forall|x: Seq<T>, r: int| x.len() == n implies #[trigger] row_dot(system, x, r) == (
    if r < offset {
        row_dot(plain, x, r)
    } else {
        row_dot(plain, x, r).plus_spec(
            kappa.times_spec(kappa.times_spec(row_dot(mass, x.skip(offset as int), r - offset))),
        )
    }) by {
        let y = x.skip(offset as int);
        row_compressed(mass, m, m, y, r - offset);
        ring_associates(kappa, kappa, row_dot(mass, y, r - offset));
    }
}

/// The part of a function that is a product of three, with the second derivative of one.
proof fn lemma_eigen_term<T: Scalar>(l: T, g: T, c: T, p: T, q: T)
    requires
        commutative_ring::<T>(),
        T::from_count_spec(2).times_spec(c) == l.times_spec(g).negated_spec(),
    ensures
        T::from_count_spec(2).negated_spec().times_spec(c.times_spec(p).times_spec(q))
            == l.times_spec(g.times_spec(p).times_spec(q)),
{
    let two = T::from_count_spec(2);
    ring_associates(c, p, q);
    let pq = p.times_spec(q);
    ring_negated(two, c.times_spec(pq));
    ring_associates(two, c, pq);
    let lg = l.times_spec(g);
    ring_negated(lg, pq);
    ring_negated(lg.times_spec(pq), pq);
    ring_associates(l, g, pq);
    ring_associates(g, p, q);
}

/// Where each squared sine is an eigenfunction of the second derivative along its axis, their
/// product is one of the Hodge-Laplacian, and its eigenvalue is the sum of the three.
pub proof fn product_of_eigenfunctions<T: Scalar>(
    sines: Seq<T>,
    double_cosines: Seq<T>,
    l0: T,
    l1: T,
    l2: T,
)
    requires
        commutative_ring::<T>(),
        T::from_count_spec(2).times_spec(double_cosines[0]) == l0.times_spec(
            sines[0].times_spec(sines[0]),
        ).negated_spec(),
        T::from_count_spec(2).times_spec(double_cosines[1]) == l1.times_spec(
            sines[1].times_spec(sines[1]),
        ).negated_spec(),
        T::from_count_spec(2).times_spec(double_cosines[2]) == l2.times_spec(
            sines[2].times_spec(sines[2]),
        ).negated_spec(),
    ensures
        laplacian_factor(sines, double_cosines) == l0.plus_spec(l1).plus_spec(l2).times_spec(
            scalar_factor_spec(sines),
        ),
{
    let n = T::from_count_spec(2).negated_spec();
    let (gx, gy, gz) = (
        sines[0].times_spec(sines[0]),
        sines[1].times_spec(sines[1]),
        sines[2].times_spec(sines[2]),
    );
    let c = double_cosines;
    let f = gx.times_spec(gy).times_spec(gz);
    lemma_eigen_term(l0, gx, c[0], gy, gz);
    lemma_eigen_term(l1, gy, c[1], gx, gz);
    lemma_eigen_term(l2, gz, c[2], gx, gy);
    ring_commutes(gx, gy);
    ring_associates(gz, gx, gy);
    ring_commutes(gz, gx.times_spec(gy));
    let (a, b, d) = (
        c[0].times_spec(gy).times_spec(gz),
        c[1].times_spec(gx).times_spec(gz),
        c[2].times_spec(gx).times_spec(gy),
    );
    ring_distributes(n, a.plus_spec(b), d);
    ring_distributes(n, a, b);
    ring_distributes(f, l0.plus_spec(l1), l2);
    ring_distributes(f, l0, l1);
}

/// The source of the shifted problem is the Hodge-Laplacian of the solution, coefficient by
/// coefficient, and the solution twice with the shift.
pub open spec fn is_shifted_source<T: Scalar>(
    source: Seq<T>,
    solution: Seq<T>,
    laplacian: Seq<T>,
    kappa: T,
) -> bool {
    forall|i: int|
        0 <= i < 3 ==> #[trigger] source[i] == laplacian[i].plus_spec(
            kappa.times_spec(kappa.times_spec(solution[i])),
        )
}

proof fn lemma_directed<T: Scalar>(d: T, a: T, b: T, kappa: T)
    requires
        commutative_ring::<T>(),
    ensures
        d.times_spec(a.plus_spec(kappa.times_spec(kappa).times_spec(b))) == d.times_spec(
            a,
        ).plus_spec(kappa.times_spec(kappa.times_spec(d.times_spec(b)))),
{
    let kk = kappa.times_spec(kappa);
    ring_distributes(d, a, kk.times_spec(b));
    ring_moves(d, kk, b);
    ring_associates(kappa, kappa, d.times_spec(b));
}

/// The exact source belongs to the exact solution.
pub proof fn source_belongs_to_solution<T: Scalar>(f: T, laplacian: T, kappa: T)
    requires
        commutative_ring::<T>(),
    ensures
        is_shifted_source(
            in_direction(laplacian.plus_spec(kappa.times_spec(kappa).times_spec(f))),
            in_direction(f),
            in_direction(laplacian),
            kappa,
        ),
{
    lemma_directed(T::one_spec(), laplacian, f, kappa);
    lemma_directed(T::from_count_spec(2), laplacian, f, kappa);
    lemma_directed(T::one_spec().negated_spec(), laplacian, f, kappa);
}

/// The derivative of the exact solution: of the coefficients for the planes 01, 02 and 12, the
/// derivatives along the axes 2, 1 and 0 enter with alternating signs.
pub proof fn derivative_of_solution<T: Scalar>(sines: Seq<T>, double_sines: Seq<T>)
    requires
        commutative_ring::<T>(),
    ensures
        ({
            let (gx, gy, gz) = (
                sines[0].times_spec(sines[0]),
                sines[1].times_spec(sines[1]),
                sines[2].times_spec(sines[2]),
            );
            let d = double_sines;
            let along_x = in_direction(d[0].times_spec(gy.times_spec(gz)));
            let along_y = in_direction(d[1].times_spec(gx.times_spec(gz)));
            let along_z = in_direction(d[2].times_spec(gx.times_spec(gy)));
            dif_coeff(sines, d) == along_z[0].minus_spec(along_y[1]).plus_spec(along_x[2])
        }),
{
    let (gx, gy, gz) = (
        sines[0].times_spec(sines[0]),
        sines[1].times_spec(sines[1]),
        sines[2].times_spec(sines[2]),
    );
    let d = double_sines;
    ring_associates(d[0], gy, gz);
    ring_moves(gx, d[1], gz);
    ring_associates(gx, d[1], gz);
    ring_commutes(gx.times_spec(gy), d[2]);
    let x = T::one_spec().negated_spec().times_spec(d[0].times_spec(gy.times_spec(gz)));
    let y = T::from_count_spec(2).times_spec(d[1].times_spec(gx.times_spec(gz)));
    let z = T::one_spec().times_spec(d[2].times_spec(gx.times_spec(gy)));
    // (x - y) + z == (z - y) + x
    ring_subtracts(x, y);
    ring_subtracts(z, y);
    let n = y.negated_spec();
    ring_plus(x, n, z);
    ring_plus(n, z, z);
    ring_plus(x, z.plus_spec(n), z);
}

} // verus!
