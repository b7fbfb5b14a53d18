//! Eliminating prescribed dofs from a mixed system keeps the equations of the free ones.

use crate::assemble::dofs::{kept_values_positions, last_value, moved_to_rhs};
use crate::assemble::fixed_dofs_law::{row_dot_concat, solves};
use crate::io::fields::Cochain;
use crate::linalg::algebra::{negated_entries, row_dot};
use crate::linalg::blocks::{block_entries, block_heights, block_widths, shifted};
use crate::linalg::csr::{compressed, compressed_exists, CsrMatrix};
use crate::linalg::ring::{
    commutative_ring, compressing_keeps_products, ring_exchange, ring_is_exact, ring_minus,
    ring_plus,
};
use crate::linalg::scalar::Scalar;
use crate::linalg::sparse::{
    positions_injective, restricted, transposed, triplets_within, unset_before,
    unset_before_bound, unset_before_monotone, CooMatrix,
};
use crate::problems::elimination::{
    all_values, fits, is_free_block, masked_pairs, masked_pairs_values, MixedSystem,
};
use crate::problems::hodge_laplace::{harmonics_match, is_source_solution, is_source_system};
use crate::problems::mixed_galmats::{
    free_count, harmonic_entries, harmonic_rows, restricted_negated, MixedGalmats,
};
use vstd::prelude::*;

verus! {

/// The equations of the free dofs hold for values of both unknowns on all dofs.
pub open spec fn free_rows_hold<T: Scalar>(
    system: MixedSystem<T>,
    sigma: Seq<T>,
    u: Seq<T>,
) -> bool {
    &&& forall|r: int|
        0 <= r < system.sigma_mask@.len() && !system.sigma_mask@[r] ==> (#[trigger] row_dot(
            system.mass_sigma.entries(),
            sigma,
            r,
        )).plus_spec(row_dot(system.codif_u_neg.entries(), u, r)) == system.sigma_rhs@[r]
    &&& forall|r: int|
        0 <= r < system.u_mask@.len() && !system.u_mask@[r] ==> (#[trigger] row_dot(
            system.dif_sigma.entries(),
            sigma,
            r,
        )).plus_spec(row_dot(system.u_block.entries(), u, r)) == system.u_rhs@[r]
}

/// How many dofs of the first and of the second unknown are free.
pub open spec fn free_counts<T: Scalar>(system: MixedSystem<T>) -> (nat, nat) {
    (
        unset_before(system.sigma_mask@, system.sigma_mask@.len() as int),
        unset_before(system.u_mask@, system.u_mask@.len() as int),
    )
}

/// `(a + t) + s == (b + t) + m` where `a + s == b + m`.
proof fn lemma_same_added<T: Scalar>(a: T, b: T, s: T, m: T, t: T)
    requires
        commutative_ring::<T>(),
        a.plus_spec(s) == b.plus_spec(m),
    ensures
        a.plus_spec(t).plus_spec(s) == b.plus_spec(t).plus_spec(m),
{
    ring_plus(a, t, s);
    ring_plus(t, s, s);
    ring_plus(a, s, t);
    ring_plus(b, t, m);
    ring_plus(t, m, m);
    ring_plus(b, m, t);
}

/// `(b + t) + (m - t) == b + m`.
proof fn lemma_moved_term<T: Scalar>(b: T, m: T, t: T)
    requires
        commutative_ring::<T>(),
    ensures
        b.plus_spec(t).plus_spec(m.minus_spec(t)) == b.plus_spec(m),
{
    ring_minus(m, t);
    ring_plus(b, t, m.minus_spec(t));
    ring_plus(t, m.minus_spec(t), t);
}

/// What a free row of a block gives of the free values, and what is moved from it to the
/// right-hand side.
pub(crate) proof fn lemma_block_row<T: Scalar>(
    start: T,
    entries: Seq<(usize, usize, T)>,
    rows: Seq<bool>,
    cols: Seq<bool>,
    data: Seq<T>,
    free: Seq<T>,
    r: int,
)
    requires
        commutative_ring::<T>(),
        triplets_within(entries, rows.len() as int, cols.len() as int),
        rows.len() <= usize::MAX,
        cols.len() <= usize::MAX,
        0 <= r < rows.len(),
        !rows[r],
    ensures
        row_dot(restricted(entries, rows, cols), free, unset_before(rows, r) as int).plus_spec(
            start,
        ) == row_dot(entries, all_values(free, cols, data), r).plus_spec(
            moved_to_rhs(start, entries, masked_pairs(cols, data), r),
        ),
    decreases entries.len(),
{
    if entries.len() > 0 {
        let front = entries.drop_last();
        let (row, col, v) = entries.last();
        let last = entries[entries.len() - 1];
        assert(last == (row, col, v));
        assert forall|i: int| 0 <= i < front.len() implies (#[trigger] front[i]).0 < rows.len()
            && front[i].1 < cols.len() by {
            assert(front[i] == entries[i]);
        }
        lemma_block_row(start, front, rows, cols, data, free, r);
        masked_pairs_values(cols, data);
        let known = last_value(masked_pairs(cols, data), col as int);
        let before = restricted(front, rows, cols);
        let at = unset_before(rows, r) as int;
        let all = all_values(free, cols, data);
        let a = row_dot(before, free, at);
        let b = row_dot(front, all, r);
        let m = moved_to_rhs(start, front, masked_pairs(cols, data), r);
        unset_before_bound(rows, row as int);
        unset_before_bound(cols, col as int);
        if !rows[row as int] && !cols[col as int] {
            let item = (
                unset_before(rows, row as int) as usize,
                unset_before(cols, col as int) as usize,
                v,
            );
            assert(restricted(entries, rows, cols) == before.push(item));
            assert(before.push(item).drop_last() =~= before);
            if item.0 == at {
                unset_before_bound(rows, r);
                positions_injective(rows, row as int, r);
                lemma_same_added(a, b, start, m, v.times_spec(all[col as int]));
            }
        } else {
            assert(restricted(entries, rows, cols) == before);
            if row == r {
                lemma_moved_term(b, m, v.times_spec(data[col as int]));
            }
        }
        if row != r {
            if !rows[row as int] && unset_before(rows, row as int) == at {
                unset_before_bound(rows, r);
                positions_injective(rows, row as int, r);
            }
        }
    }
}

/// A row of entries that were moved down and to the right.
proof fn lemma_shifted_row<T: Scalar>(
    entries: Seq<(usize, usize, T)>,
    nrows: nat,
    ncols: nat,
    down: nat,
    right: nat,
    x: Seq<T>,
    part: Seq<T>,
    r: int,
)
    requires
        triplets_within(entries, nrows as int, ncols as int),
        nrows + down <= usize::MAX,
        ncols + right <= usize::MAX,
        forall|c: int| 0 <= c < ncols ==> #[trigger] part[c] == x[c + right],
    ensures
        row_dot(shifted(entries, down, right), x, r) == row_dot(entries, part, r - down),
    decreases entries.len(),
{
    if entries.len() > 0 {
        let front = entries.drop_last();
        let (row, col, v) = entries.last();
        let last = entries[entries.len() - 1];
        assert(last == (row, col, v));
        assert forall|i: int| 0 <= i < front.len() implies (#[trigger] front[i]).0 < nrows
            && front[i].1 < ncols by {
            assert(front[i] == entries[i]);
        }
        lemma_shifted_row(front, nrows, ncols, down, right, x, part, r);
        let all = shifted(entries, down, right);
        assert(all.drop_last() =~= shifted(front, down, right));
        assert(all.last() == ((row + down) as usize, (col + right) as usize, v));
        assert(part[col as int] == x[col + right]);
    }
}

/// A row without entries of its own.
proof fn lemma_empty_row<T: Scalar>(entries: Seq<(usize, usize, T)>, nrows: nat, x: Seq<T>, r: int)
    requires
        forall|i: int| 0 <= i < entries.len() ==> (#[trigger] entries[i]).0 < nrows,
        r < 0 || r >= nrows,
    ensures
        row_dot(entries, x, r) == T::zero_spec(),
    decreases entries.len(),
{
    if entries.len() > 0 {
        let front = entries.drop_last();
        assert(entries[entries.len() - 1].0 < nrows);
        assert forall|i: int| 0 <= i < front.len() implies (#[trigger] front[i]).0 < nrows by {
            assert(front[i] == entries[i]);
        }
        lemma_empty_row(front, nrows, x, r);
    }
}

/// The entries of a block are within the counts of the dofs, or there are none.
proof fn lemma_within<T>(m: CooMatrix<T>, nrows: nat, ncols: nat)
    requires
        fits(m, nrows, ncols),
    ensures
        triplets_within(m.entries(), nrows as int, ncols as int),
{
    assert forall|i: int| 0 <= i < m.entries().len() implies (#[trigger] m.entries()[i]).0 < nrows
        && m.entries()[i].1 < ncols by {
        assert(m.entries()[i].0 < m.rows());
    }
}

/// The rows of a block matrix: those of the upper blocks, then those of the lower ones.
pub(crate) proof fn lemma_block_rows<T: Scalar>(
    a: CooMatrix<T>,
    b: CooMatrix<T>,
    c: CooMatrix<T>,
    d: CooMatrix<T>,
    height: nat,
    low: nat,
    width: nat,
    right: nat,
    x: Seq<T>,
    r: int,
)
    requires
        commutative_ring::<T>(),
        triplets_within(a.entries(), height as int, width as int),
        triplets_within(b.entries(), height as int, right as int),
        triplets_within(c.entries(), low as int, width as int),
        triplets_within(d.entries(), low as int, right as int),
        block_heights(a, b, c, d).0 == height,
        block_widths(a, b, c, d).0 == width,
        height + low <= usize::MAX,
        width + right <= usize::MAX,
        x.len() == width + right,
        0 <= r < height + low,
    ensures
        row_dot(block_entries(a, b, c, d), x, r) == (if r < height {
            row_dot(a.entries(), x.take(width as int), r).plus_spec(
                row_dot(b.entries(), x.skip(width as int), r),
            )
        } else {
            row_dot(c.entries(), x.take(width as int), r - height).plus_spec(
                row_dot(d.entries(), x.skip(width as int), r - height),
            )
        }),
        triplets_within(
            block_entries(a, b, c, d),
            (height + low) as int,
            (width + right) as int,
        ),
{
    let (sa, sb) = (shifted(a.entries(), 0, 0), shifted(b.entries(), 0, width));
    let (sc, sd) = (shifted(c.entries(), height, 0), shifted(d.entries(), height, width));
    let (x0, x1) = (x.take(width as int), x.skip(width as int));
    row_dot_concat(sa + sb + sc, sd, x, r);
    row_dot_concat(sa + sb, sc, x, r);
    row_dot_concat(sa, sb, x, r);
    lemma_shifted_row(a.entries(), height, width, 0, 0, x, x0, r);
    lemma_shifted_row(b.entries(), height, right, 0, width, x, x1, r);
    lemma_shifted_row(c.entries(), low, width, height, 0, x, x0, r);
    lemma_shifted_row(d.entries(), low, right, height, width, x, x1, r);
    if r < height {
        lemma_empty_row(c.entries(), low, x0, r - height);
        lemma_empty_row(d.entries(), low, x1, r - height);
    } else {
        lemma_empty_row(a.entries(), height, x0, r);
        lemma_empty_row(b.entries(), height, x1, r);
    }
    let (pa, pb) = (row_dot(a.entries(), x0, r), row_dot(b.entries(), x1, r));
    let (pc, pd) = (
        row_dot(c.entries(), x0, r - height),
        row_dot(d.entries(), x1, r - height),
    );
    let z = T::zero_spec();
    ring_plus(pa.plus_spec(pb), z, z);
    ring_plus(z, z, z);
    ring_plus(pc, pd, pd);
    let all = block_entries(a, b, c, d);
    assert forall|i: int| 0 <= i < all.len() implies (#[trigger] all[i]).0 < height + low
        && all[i].1 < width + right by {
        let (na, nb, nc) = (sa.len() as int, sb.len() as int, sc.len() as int);
        if i < na {
            assert(a.entries()[i].0 < height);
        } else if i < na + nb {
            assert(b.entries()[i - na].0 < height);
        } else if i < na + nb + nc {
            assert(c.entries()[i - na - nb].0 < low);
        } else {
            assert(d.entries()[i - na - nb - nc].0 < low);
        }
    }
}

/// Where `a + s == p + m` and `b + m == q + n`, the equations `(a + b) + h == n` and
/// `(p + q) + h == s` say the same.
proof fn lemma_two_moves<T: Scalar>(a: T, b: T, p: T, q: T, s: T, m: T, n: T, h: T)
    requires
        commutative_ring::<T>(),
        a.plus_spec(s) == p.plus_spec(m),
        b.plus_spec(m) == q.plus_spec(n),
    ensures
        (a.plus_spec(b).plus_spec(h) == n) <==> (p.plus_spec(q).plus_spec(h) == s),
{
    // (a + b) + (s + m) == (p + q) + (n + m)
    let (ab, pq) = (a.plus_spec(b), p.plus_spec(q));
    ring_exchange(a, b, s, m);
    ring_exchange(p, m, q, n);
    ring_plus(m, n, n);
    // Without `m` on both sides: (a + b) + s == (p + q) + n.
    ring_plus(ab, s, m);
    ring_plus(pq, n, m);
    ring_minus(ab.plus_spec(s), m);
    ring_minus(pq.plus_spec(n), m);
    assert(ab.plus_spec(s) == pq.plus_spec(n));
    lemma_cancels(ab, s, pq, n, h);
    lemma_cancels(pq, n, ab, s, h);
}

/// Where `x + s == y + n`, from `x + h == n` follows `y + h == s`.
proof fn lemma_cancels<T: Scalar>(x: T, s: T, y: T, n: T, h: T)
    requires
        commutative_ring::<T>(),
        x.plus_spec(s) == y.plus_spec(n),
    ensures
        x.plus_spec(h) == n ==> y.plus_spec(h) == s,
{
    if x.plus_spec(h) == n {
        // s + x == y + (x + h) == (y + h) + x
        ring_plus(x, s, s);
        ring_plus(x, h, h);
        ring_plus(y, h, x);
        ring_minus(s, x);
        ring_minus(y.plus_spec(h), x);
    }
}

proof fn lemma_plus_zero<T: Scalar>()
    requires
        commutative_ring::<T>(),
    ensures
        forall|v: T| #[trigger] v.plus_spec(T::zero_spec()) == v,
{
    assert forall|v: T| #[trigger] v.plus_spec(T::zero_spec()) == v by {
        ring_plus(v, v, v);
    }
}

/// Each new index belongs to an index that stays.
proof fn lemma_index_of_free(flags: Seq<bool>, i: int, n: int) -> (r: int)
    requires
        0 <= n <= flags.len(),
        0 <= i < unset_before(flags, n),
    ensures
        0 <= r < n,
        !flags[r],
        unset_before(flags, r) == i,
    decreases n,
{
    if !flags[n - 1] && unset_before(flags, n - 1) == i {
        n - 1
    } else {
        lemma_index_of_free(flags, i, n - 1)
    }
}

/// What is left of a block is within the counts of the free dofs.
proof fn lemma_free_within<T>(
    reduced: CooMatrix<T>,
    m: CooMatrix<T>,
    rows: Seq<bool>,
    cols: Seq<bool>,
)
    requires
        is_free_block(reduced, m, rows, cols),
    ensures
        triplets_within(
            reduced.entries(),
            unset_before(rows, rows.len() as int) as int,
            unset_before(cols, cols.len() as int) as int,
        ),
{
    assert forall|i: int| 0 <= i < reduced.entries().len() implies (
    #[trigger] reduced.entries()[i]).0 < unset_before(rows, rows.len() as int)
        && reduced.entries()[i].1 < unset_before(cols, cols.len() as int) by {
        assert(reduced.entries()[i].0 < reduced.rows());
    }
}

/// A free row of the first unknown, before and after the elimination.
proof fn lemma_sigma_row<T: Scalar>(system: MixedSystem<T>, x0: Seq<T>, x1: Seq<T>, r: int)
    requires
        commutative_ring::<T>(),
        system.wf(),
        0 <= r < system.sigma_mask@.len(),
        !system.sigma_mask@[r],
    ensures
        ({
            let (s, u) = (system.sigma_mask@, system.u_mask@);
            let at = unset_before(s, r) as int;
            let left = row_dot(
                restricted(system.mass_sigma.entries(), s, s),
                x0,
                at,
            ).plus_spec(row_dot(restricted(system.codif_u_neg.entries(), s, u), x1, at));
            let full = row_dot(
                system.mass_sigma.entries(),
                all_values(x0, s, system.sigma_data@),
                r,
            ).plus_spec(
                row_dot(system.codif_u_neg.entries(), all_values(x1, u, system.u_data@), r),
            );
            (left == system.free_sigma_rhs()[at]) <==> (full == system.sigma_rhs@[r])
        }),
{
    let (s, u) = (system.sigma_mask@, system.u_mask@);
    let (sp, up) = (masked_pairs(s, system.sigma_data@), masked_pairs(u, system.u_data@));
    let (me, ce) = (system.mass_sigma.entries(), system.codif_u_neg.entries());
    let at = unset_before(s, r) as int;
    lemma_within(*system.mass_sigma, s.len(), s.len());
    lemma_within(*system.codif_u_neg, s.len(), u.len());
    let start = system.sigma_rhs@[r];
    let m = moved_to_rhs(start, me, sp, r);
    lemma_block_row(start, me, s, s, system.sigma_data@, x0, r);
    lemma_block_row(m, ce, s, u, system.u_data@, x1, r);
    let whole = Seq::new(
        system.sigma_rhs@.len(),
        |r: int| moved_to_rhs(moved_to_rhs(system.sigma_rhs@[r], me, sp, r), ce, up, r),
    );
    kept_values_positions(whole, s);
    assert(system.free_sigma_rhs()[at] == whole[r]);
    lemma_two_moves(
        row_dot(restricted(me, s, s), x0, at),
        row_dot(restricted(ce, s, u), x1, at),
        row_dot(me, all_values(x0, s, system.sigma_data@), r),
        row_dot(ce, all_values(x1, u, system.u_data@), r),
        start,
        m,
        whole[r],
        T::zero_spec(),
    );
    let a = row_dot(restricted(me, s, s), x0, at);
    let b = row_dot(restricted(ce, s, u), x1, at);
    let p = row_dot(me, all_values(x0, s, system.sigma_data@), r);
    let q = row_dot(ce, all_values(x1, u, system.u_data@), r);
    ring_plus(a.plus_spec(b), a, a);
    ring_plus(p.plus_spec(q), a, a);
}

/// A free row of the second unknown, before and after the elimination, with a term that is added
/// to both.
proof fn lemma_u_row<T: Scalar>(system: MixedSystem<T>, x0: Seq<T>, x1: Seq<T>, r: int, h: T)
    requires
        commutative_ring::<T>(),
        system.wf(),
        0 <= r < system.u_mask@.len(),
        !system.u_mask@[r],
    ensures
        ({
            let (s, u) = (system.sigma_mask@, system.u_mask@);
            let at = unset_before(u, r) as int;
            let left = row_dot(restricted(system.dif_sigma.entries(), u, s), x0, at).plus_spec(
                row_dot(restricted(system.u_block.entries(), u, u), x1, at),
            );
            let full = row_dot(
                system.dif_sigma.entries(),
                all_values(x0, s, system.sigma_data@),
                r,
            ).plus_spec(row_dot(system.u_block.entries(), all_values(x1, u, system.u_data@), r));
            (left.plus_spec(h) == system.free_u_rhs()[at]) <==> (full.plus_spec(h)
                == system.u_rhs@[r])
        }),
{
    let (s, u) = (system.sigma_mask@, system.u_mask@);
    let (sp, up) = (masked_pairs(s, system.sigma_data@), masked_pairs(u, system.u_data@));
    let (de, be) = (system.dif_sigma.entries(), system.u_block.entries());
    let at = unset_before(u, r) as int;
    lemma_within(*system.dif_sigma, u.len(), s.len());
    lemma_within(*system.u_block, u.len(), u.len());
    let start = system.u_rhs@[r];
    let m = moved_to_rhs(start, be, up, r);
    lemma_block_row(start, be, u, u, system.u_data@, x1, r);
    lemma_block_row(m, de, u, s, system.sigma_data@, x0, r);
    let whole = Seq::new(
        system.u_rhs@.len(),
        |r: int| moved_to_rhs(moved_to_rhs(system.u_rhs@[r], be, up, r), de, sp, r),
    );
    kept_values_positions(whole, u);
    assert(system.free_u_rhs()[at] == whole[r]);
    let (a, b) = (row_dot(restricted(be, u, u), x1, at), row_dot(restricted(de, u, s), x0, at));
    let (p, q) = (
        row_dot(be, all_values(x1, u, system.u_data@), r),
        row_dot(de, all_values(x0, s, system.sigma_data@), r),
    );
    lemma_two_moves(a, b, p, q, start, m, whole[r], h);
    ring_plus(a, b, b);
    ring_plus(p, q, q);
}

/// The blocks on the free dofs keep the equations of these: over coefficients that compute
/// exactly, a vector solves the eliminated system if and only if the vector put together with
/// the prescribed values satisfies the free rows of the full system. The blocks have one row and
/// one column for each free dof.
pub proof fn eliminated_blocks_solve_the_full_system<T: Scalar>(
    system: MixedSystem<T>,
    a: CooMatrix<T>,
    b: CooMatrix<T>,
    c: CooMatrix<T>,
    d: CooMatrix<T>,
    x: Seq<T>,
)
    requires
        commutative_ring::<T>(),
        system.wf(),
        system.is_free_blocks(a, b, c, d),
        block_heights(a, b, c, d).1 == free_counts(system).0 + free_counts(system).1,
        block_widths(a, b, c, d).1 == free_counts(system).0 + free_counts(system).1,
        x.len() == free_counts(system).0 + free_counts(system).1,
    ensures
        ({
            let n = free_counts(system).0 as int;
            let rhs = system.free_sigma_rhs() + system.free_u_rhs();
            solves(block_entries(a, b, c, d), rhs, x.len(), x) <==> free_rows_hold(
                system,
                all_values(x.take(n), system.sigma_mask@, system.sigma_data@),
                all_values(x.skip(n), system.u_mask@, system.u_data@),
            )
        }),
        triplets_within(block_entries(a, b, c, d), x.len() as int, x.len() as int),
{
    let (s, u) = (system.sigma_mask@, system.u_mask@);
    let (ns, nu) = free_counts(system);
    let (x0, x1) = (x.take(ns as int), x.skip(ns as int));
    let all = block_entries(a, b, c, d);
    let rhs = system.free_sigma_rhs() + system.free_u_rhs();
    let sigma = all_values(x0, s, system.sigma_data@);
    let full = all_values(x1, u, system.u_data@);
    unset_before_bound(s, s.len() as int);
    unset_before_bound(u, u.len() as int);
    lemma_free_within(a, *system.mass_sigma, s, s);
    lemma_free_within(b, *system.codif_u_neg, s, u);
    lemma_free_within(c, *system.dif_sigma, u, s);
    lemma_free_within(d, *system.u_block, u, u);
    system.free_lengths();
    if x.len() > 0 {
        lemma_block_rows(a, b, c, d, ns, nu, ns, nu, x, 0);
    } else {
        assert(triplets_within(all, 0, 0)) by {
            assert(a.entries().len() == 0) by {
                if a.entries().len() > 0 {
                    assert(a.entries()[0].0 < 0);
                }
            }
            assert(b.entries().len() == 0) by {
                if b.entries().len() > 0 {
                    assert(b.entries()[0].0 < 0);
                }
            }
            assert(c.entries().len() == 0) by {
                if c.entries().len() > 0 {
                    assert(c.entries()[0].0 < 0);
                }
            }
            assert(d.entries().len() == 0) by {
                if d.entries().len() > 0 {
                    assert(d.entries()[0].0 < 0);
                }
            }
        }
    }
    if solves(all, rhs, x.len(), x) {
        assert forall|r: int| 0 <= r < s.len() && !s[r] implies (#[trigger] row_dot(
            system.mass_sigma.entries(),
            sigma,
            r,
        )).plus_spec(row_dot(system.codif_u_neg.entries(), full, r)) == system.sigma_rhs@[r] by {
            let at = unset_before(s, r) as int;
            unset_before_monotone(s, r, s.len() as int);
            assert(row_dot(all, x, at) == rhs[at]);
            lemma_block_rows(a, b, c, d, ns, nu, ns, nu, x, at);
            lemma_sigma_row(system, x0, x1, r);
        }
        assert forall|r: int| 0 <= r < u.len() && !u[r] implies (#[trigger] row_dot(
            system.dif_sigma.entries(),
            sigma,
            r,
        )).plus_spec(row_dot(system.u_block.entries(), full, r)) == system.u_rhs@[r] by {
            let at = unset_before(u, r) as int;
            unset_before_monotone(u, r, u.len() as int);
            assert(row_dot(all, x, ns + at) == rhs[ns + at]);
            lemma_block_rows(a, b, c, d, ns, nu, ns, nu, x, ns + at);
            lemma_u_row(system, x0, x1, r, T::zero_spec());
            lemma_plus_zero::<T>();
        }
    }
    if free_rows_hold(system, sigma, full) {
        assert forall|i: int| 0 <= i < x.len() implies #[trigger] row_dot(all, x, i) == rhs[i] by {
            lemma_block_rows(a, b, c, d, ns, nu, ns, nu, x, i);
            if i < ns {
                let r = lemma_index_of_free(s, i, s.len() as int);
                lemma_sigma_row(system, x0, x1, r);
            } else {
                let r = lemma_index_of_free(u, i - ns, u.len() as int);
                lemma_u_row(system, x0, x1, r, T::zero_spec());
                lemma_plus_zero::<T>();
            }
        }
    }
}

/// The eliminated system is the full one on the free dofs: over coefficients that compute
/// exactly, a vector solves it if and only if the vector put together with the prescribed values
/// satisfies the free rows of the full mixed system. The matrix has one row and one column for
/// each free dof.
pub proof fn eliminated_system_solves_the_full_one<T: Scalar>(
    system: MixedSystem<T>,
    matrix: CsrMatrix<T>,
    rhs: Seq<T>,
    x: Seq<T>,
)
    requires
        commutative_ring::<T>(),
        system.wf(),
        system.gives(matrix, rhs),
        matrix.rows() == free_counts(system).0 + free_counts(system).1,
        matrix.cols() == free_counts(system).0 + free_counts(system).1,
        x.len() == matrix.cols(),
    ensures
        solves(matrix.entries(), rhs, matrix.rows(), x) <==> free_rows_hold(
            system,
            all_values(
                x.take(free_counts(system).0 as int),
                system.sigma_mask@,
                system.sigma_data@,
            ),
            all_values(x.skip(free_counts(system).0 as int), system.u_mask@, system.u_data@),
        ),
{
    let (a, b, c, d) = choose|a: CooMatrix<T>, b: CooMatrix<T>, c: CooMatrix<T>, d: CooMatrix<T>|
        #![trigger block_entries(a, b, c, d)]
        system.is_free_blocks(a, b, c, d) && matrix.rows() == block_heights(a, b, c, d).1
            && matrix.cols() == block_widths(a, b, c, d).1 && matrix.entries() == compressed(
            block_entries(a, b, c, d),
        );
    eliminated_blocks_solve_the_full_system(system, a, b, c, d, x);
    let all = block_entries(a, b, c, d);
    let n = x.len() as int;
    let m = matrix.entries();
    if solves(all, rhs, x.len(), x) {
        assert forall|i: int| 0 <= i < n implies #[trigger] row_dot(m, x, i) == rhs[i] by {
            lemma_compressed_row(all, n, x, i);
            assert(row_dot(all, x, i) == rhs[i]);
        }
    }
    if solves(m, rhs, x.len(), x) {
        assert forall|i: int| 0 <= i < n implies #[trigger] row_dot(all, x, i) == rhs[i] by {
            lemma_compressed_row(all, n, x, i);
            assert(row_dot(m, x, i) == rhs[i]);
        }
    }
}

proof fn lemma_compressed_row<T: Scalar>(
    entries: Seq<(usize, usize, T)>,
    n: int,
    x: Seq<T>,
    i: int,
)
    requires
        commutative_ring::<T>(),
        triplets_within(entries, n, n),
    ensures
        row_dot(compressed(entries), x, i) == row_dot(entries, x, i),
{
    ring_is_exact::<T>();
    compressed_exists(entries, n, n);
    compressing_keeps_products(entries, compressed(entries), n, n, x, i);
}

/// A row of entries depends on the values at their columns only.
proof fn lemma_row_prefix<T: Scalar>(
    entries: Seq<(usize, usize, T)>,
    nrows: int,
    ncols: int,
    x: Seq<T>,
    y: Seq<T>,
    r: int,
)
    requires
        triplets_within(entries, nrows, ncols),
        forall|c: int| 0 <= c < ncols ==> #[trigger] x[c] == y[c],
    ensures
        row_dot(entries, x, r) == row_dot(entries, y, r),
    decreases entries.len(),
{
    if entries.len() > 0 {
        let front = entries.drop_last();
        let last = entries[entries.len() - 1];
        assert(last.1 < ncols);
        assert forall|i: int| 0 <= i < front.len() implies (#[trigger] front[i]).0 < nrows
            && front[i].1 < ncols by {
            assert(front[i] == entries[i]);
        }
        lemma_row_prefix(front, nrows, ncols, x, y, r);
        assert(x[last.1 as int] == y[last.1 as int]);
    }
}

proof fn lemma_place_of(p: int, nrows: int, n: int)
    requires
        0 <= p < nrows * n,
        n >= 0,
    ensures
        0 <= p / n < nrows,
        0 <= p % n < n,
{
    assert(n > 0) by (nonlinear_arith)
        requires
            0 <= p < nrows * n,
            n >= 0,
    ;
    assert(nrows * n == n * nrows) by (nonlinear_arith);
    vstd::arithmetic::div_mod::lemma_multiply_divide_lt(p, n, nrows);
    vstd::arithmetic::div_mod::lemma_div_pos_is_pos(p, n);
    vstd::arithmetic::div_mod::lemma_mod_bound(p, n);
}

/// The harmonic columns stand further down and to the right, and their transpose likewise.
proof fn lemma_harmonic_places<T: Scalar>(
    mass: Seq<(usize, usize, T)>,
    harmonics: Seq<Vec<T>>,
    nrows: nat,
    down: nat,
    right: nat,
)
    requires
        nrows + down <= usize::MAX,
        harmonics.len() + right <= usize::MAX,
    ensures
        ({
            let plain = harmonic_entries(mass, harmonics, nrows, 0, 0);
            let n = harmonics.len() as int;
            &&& harmonic_entries(mass, harmonics, nrows, down, right) == shifted(
                plain,
                down,
                right,
            )
            &&& harmonic_rows(mass, harmonics, nrows, down, right) == shifted(
                transposed(plain),
                right,
                down,
            )
            &&& triplets_within(plain, nrows as int, n)
            &&& triplets_within(transposed(plain), n, nrows as int)
        }),
{
    let plain = harmonic_entries(mass, harmonics, nrows, 0, 0);
    let n = harmonics.len() as int;
    let moved = harmonic_entries(mass, harmonics, nrows, down, right);
    assert forall|p: int| 0 <= p < plain.len() implies #[trigger] plain[p] == (
        (p / n) as usize,
        (p % n) as usize,
        plain[p].2,
    ) && moved[p] == shifted(plain, down, right)[p] by {
        lemma_place_of(p, nrows as int, n);
    }
    assert(moved =~= shifted(plain, down, right));
    assert(transposed(moved) =~= shifted(transposed(plain), right, down));
    assert forall|p: int| 0 <= p < plain.len() implies (#[trigger] plain[p]).0 < nrows
        && plain[p].1 < n by {
        lemma_place_of(p, nrows as int, n);
    }
    assert forall|p: int| 0 <= p < plain.len() implies (#[trigger] transposed(plain)[p]).0 < n
        && transposed(plain)[p].1 < nrows by {
        assert(plain[p].0 < nrows && plain[p].1 < n);
    }
}

/// What the harmonic part contributes to the free row `r` of the second unknown.
pub open spec fn harmonic_term<T: Scalar>(
    galmats: MixedGalmats<T>,
    u: Seq<bool>,
    harmonics: Seq<Vec<T>>,
    p: Seq<T>,
    r: int,
) -> T {
    row_dot(
        harmonic_entries(galmats.free_mass_u(u), harmonics, free_count(u), 0, 0),
        p,
        unset_before(u, r) as int,
    )
}

/// The rows of the bordered system.
proof fn lemma_bordered_row<T: Scalar>(
    inner: Seq<(usize, usize, T)>,
    mass: Seq<(usize, usize, T)>,
    harmonics: Seq<Vec<T>>,
    ns: nat,
    nu: nat,
    x: Seq<T>,
    i: int,
)
    requires
        commutative_ring::<T>(),
        triplets_within(inner, (ns + nu) as int, (ns + nu) as int),
        ns + nu + harmonics.len() <= usize::MAX,
        x.len() == ns + nu + harmonics.len(),
        0 <= i < x.len(),
    ensures
        ({
            let m = (ns + nu) as int;
            let plain = harmonic_entries(mass, harmonics, nu, 0, 0);
            let entries = compressed(
                if harmonics.len() > 0 {
                    inner + harmonic_entries(mass, harmonics, nu, ns, ns + nu) + harmonic_rows(
                        mass,
                        harmonics,
                        nu,
                        ns,
                        ns + nu,
                    )
                } else {
                    inner
                },
            );
            row_dot(entries, x, i) == (if i < m {
                row_dot(inner, x.take(m), i).plus_spec(row_dot(plain, x.skip(m), i - ns))
            } else {
                row_dot(transposed(plain), x.subrange(ns as int, m), i - m)
            })
        }),
{
    let m = (ns + nu) as int;
    let nh = harmonics.len();
    let plain = harmonic_entries(mass, harmonics, nu, 0, 0);
    let columns = harmonic_entries(mass, harmonics, nu, ns, ns + nu);
    let rows = harmonic_rows(mass, harmonics, nu, ns, ns + nu);
    lemma_harmonic_places(mass, harmonics, nu, ns, ns + nu);
    lemma_plus_zero::<T>();
    lemma_row_prefix(inner, m, m, x, x.take(m), i);
    let a = row_dot(inner, x, i);
    if nh > 0 {
        let all = inner + columns + rows;
        assert(triplets_within(all, m + nh, m + nh)) by {
            assert forall|k: int| 0 <= k < all.len() implies (#[trigger] all[k]).0 < m + nh
                && all[k].1 < m + nh by {
                let (li, lc) = (inner.len() as int, columns.len() as int);
                if k < li {
                    assert(inner[k].0 < m);
                } else if k < li + lc {
                    assert(plain[k - li].0 < nu && plain[k - li].1 < nh);
                } else {
                    assert(plain[k - li - lc].0 < nu && plain[k - li - lc].1 < nh);
                }
            }
        }
        lemma_compressed_row(all, m + nh, x, i);
        row_dot_concat(inner + columns, rows, x, i);
        row_dot_concat(inner, columns, x, i);
        lemma_shifted_row(plain, nu, nh, ns, ns + nu, x, x.skip(m), i);
        lemma_shifted_row(
            transposed(plain),
            nh,
            nu,
            ns + nu,
            ns,
            x,
            x.subrange(ns as int, m),
            i,
        );
        if i < m {
            lemma_empty_row(transposed(plain), nh, x.subrange(ns as int, m), i - m);
        } else {
            lemma_empty_row(inner, (ns + nu) as nat, x, i);
            lemma_empty_row(plain, nu, x.skip(m), i - ns);
            let z = T::zero_spec();
            ring_plus(row_dot(rows, x, i), z, z);
        }
    } else {
        lemma_compressed_row(inner, m, x, i);
        assert(nu * nh == 0) by (nonlinear_arith)
            requires
                nh == 0,
        ;
        assert(plain.len() == 0);
    }
}

/// A solution of the source problem satisfies its equations: over coefficients that compute
/// exactly, where a vector solves the system of the source problem, its two unknowns with the
/// prescribed values in place satisfy the free rows of the full mixed problem, in which the
/// harmonic part is taken off the second right-hand side, and the harmonic constraints hold on
/// the free dofs. The system has one row and one column for each free dof and each harmonic form.
pub proof fn source_solution_satisfies_the_equations<T: Scalar>(
    system: (CsrMatrix<T>, Vec<T>),
    galmats: MixedGalmats<T>,
    sigma_rhs: Seq<T>,
    u_rhs: Seq<T>,
    harmonics: Seq<Vec<T>>,
    s: Seq<bool>,
    s_data: Seq<T>,
    u: Seq<bool>,
    u_data: Seq<T>,
    solution: Seq<T>,
    parts: (Cochain<T>, Cochain<T>, Cochain<T>),
    grade: int,
)
    requires
        commutative_ring::<T>(),
        galmats.wf(),
        s.len() == galmats.mass_sigma.rows(),
        u.len() == galmats.mass_u.rows(),
        harmonics_match(galmats, harmonics, u),
        harmonics.len() > 0 ==> galmats.codifdif_u.rows() == galmats.mass_u.rows(),
        is_source_system(
            system,
            galmats,
            sigma_rhs,
            u_rhs,
            harmonics,
            s,
            s_data,
            u,
            u_data,
        ),
        system.0.rows() == free_count(s) + free_count(u) + harmonics.len(),
        system.0.cols() == free_count(s) + free_count(u) + harmonics.len(),
        solution.len() == system.0.cols(),
        solves(system.0.entries(), system.1@, system.0.rows(), solution),
        is_source_solution(parts, solution, grade, s, s_data, u, u_data),
    ensures
        forall|r: int|
            0 <= r < s.len() && !s[r] ==> (#[trigger] row_dot(
                galmats.mass_sigma.entries(),
                parts.0.coeffs@,
                r,
            )).plus_spec(
                row_dot(negated_entries(galmats.codif_u.entries()), parts.1.coeffs@, r),
            ) == sigma_rhs[r],
        forall|r: int|
            0 <= r < u.len() && !u[r] ==> (#[trigger] row_dot(
                galmats.dif_sigma.entries(),
                parts.0.coeffs@,
                r,
            )).plus_spec(
                row_dot(galmats.codifdif_u.entries(), parts.1.coeffs@, r),
            ).plus_spec(harmonic_term(galmats, u, harmonics, parts.2.coeffs@, r)) == u_rhs[r],
        forall|c: int|
            0 <= c < harmonics.len() ==> #[trigger] row_dot(
                transposed(
                    harmonic_entries(galmats.free_mass_u(u), harmonics, free_count(u), 0, 0),
                ),
                solution.subrange(free_count(s) as int, (free_count(s) + free_count(u)) as int),
                c,
            ) == galmats.harmonic_rhs(u, u_data, harmonics)[c],
{
    let (ns, nu) = (free_count(s), free_count(u));
    let m = (ns + nu) as int;
    let (a, b, c, d) = choose|a: CooMatrix<T>, b: CooMatrix<T>, c: CooMatrix<T>, d: CooMatrix<T>|
        #![trigger block_entries(a, b, c, d)]
        galmats.is_bordered_system(
            system.0.entries(),
            system.0.rows(),
            system.0.cols(),
            s,
            u,
            harmonics,
            a,
            b,
            c,
            d,
        );
    let mixed = choose|mixed: MixedSystem<T>| #[trigger]
        galmats.is_system(mixed, s, s_data, u, u_data, sigma_rhs, u_rhs) && system.1@
            == mixed.free_sigma_rhs() + mixed.free_u_rhs() + (if harmonics.len() > 0 {
            galmats.harmonic_rhs(u, u_data, harmonics)
        } else {
            Seq::empty()
        });
    restricted_negated(galmats.codif_u.entries(), s, u);
    assert(mixed.is_free_blocks(a, b, c, d));
    mixed.free_lengths();
    unset_before_bound(s, s.len() as int);
    unset_before_bound(u, u.len() as int);
    let inner = block_entries(a, b, c, d);
    let mass = galmats.free_mass_u(u);
    let plain = harmonic_entries(mass, harmonics, nu, 0, 0);
    let y = solution.take(m);
    let (x0, x1) = (y.take(ns as int), y.skip(ns as int));
    assert(x0 =~= solution.subrange(0, ns as int));
    assert(x1 =~= solution.subrange(ns as int, m));
    let p = solution.skip(m);
    assert(p =~= solution.subrange(m, solution.len() as int));
    eliminated_blocks_solve_the_full_system(mixed, a, b, c, d, y);
    let rhs = system.1@;
    assert forall|i: int| 0 <= i < solution.len() implies rhs[i] == (if i < m {
        row_dot(inner, y, i).plus_spec(row_dot(plain, p, i - ns))
    } else {
        row_dot(transposed(plain), x1, i - m)
    }) by {
        assert(row_dot(system.0.entries(), solution, i) == rhs[i]);
        lemma_bordered_row(inner, mass, harmonics, ns, nu, solution, i);
    }
    lemma_free_within(a, *mixed.mass_sigma, s, s);
    lemma_free_within(b, *mixed.codif_u_neg, s, u);
    lemma_free_within(c, *mixed.dif_sigma, u, s);
    lemma_free_within(d, *mixed.u_block, u, u);
    lemma_harmonic_places(mass, harmonics, nu, 0, 0);
    lemma_plus_zero::<T>();
    assert forall|r: int| 0 <= r < s.len() && !s[r] implies (#[trigger] row_dot(
        galmats.mass_sigma.entries(),
        parts.0.coeffs@,
        r,
    )).plus_spec(row_dot(negated_entries(galmats.codif_u.entries()), parts.1.coeffs@, r))
        == sigma_rhs[r] by {
        let at = unset_before(s, r) as int;
        unset_before_monotone(s, r, s.len() as int);
        lemma_block_rows(a, b, c, d, ns, nu, ns, nu, y, at);
        lemma_empty_row(plain, nu, p, at - ns);
        lemma_sigma_row(mixed, x0, x1, r);
        assert(rhs[at] == mixed.free_sigma_rhs()[at]);
    }
    assert forall|r: int| 0 <= r < u.len() && !u[r] implies (#[trigger] row_dot(
        galmats.dif_sigma.entries(),
        parts.0.coeffs@,
        r,
    )).plus_spec(row_dot(galmats.codifdif_u.entries(), parts.1.coeffs@, r)).plus_spec(
        harmonic_term(galmats, u, harmonics, parts.2.coeffs@, r),
    ) == u_rhs[r] by {
        let at = unset_before(u, r) as int;
        unset_before_monotone(u, r, u.len() as int);
        lemma_block_rows(a, b, c, d, ns, nu, ns, nu, y, ns + at);
        lemma_u_row(mixed, x0, x1, r, row_dot(plain, p, at));
        assert(rhs[ns + at] == mixed.free_u_rhs()[at]);
    }
    assert forall|k: int| 0 <= k < harmonics.len() implies #[trigger] row_dot(
        transposed(plain),
        solution.subrange(ns as int, m),
        k,
    ) == galmats.harmonic_rhs(u, u_data, harmonics)[k] by {
        assert(rhs[m + k] == galmats.harmonic_rhs(u, u_data, harmonics)[k]);
    }
}

} // verus!
