//! What the solutions of a system with fixed dofs are.

use crate::assemble::dofs::{
    eliminated_rhs, fixed_flags, fixed_rhs, free_entries, last_value, moved_to_rhs, or_zero,
    pair_dofs, pairs_within, unit_entries, zero_pairs, zeroed_at, zeroed_rows,
};
use crate::linalg::algebra::row_dot;
use crate::linalg::csr::{compressed, compressed_exists};
use crate::linalg::ring::{
    commutative_ring, compressing_keeps_products, ring_is_exact, ring_minus, ring_plus, ring_units,
};
use crate::linalg::scalar::Scalar;
use crate::linalg::sparse::triplets_within;
use vstd::prelude::*;

verus! {

/// A vector solves the first `n` equations of a system.
pub open spec fn solves<T: Scalar>(
    entries: Seq<(usize, usize, T)>,
    rhs: Seq<T>,
    n: nat,
    x: Seq<T>,
) -> bool {
    forall|i: int| 0 <= i < n ==> #[trigger] row_dot(entries, x, i) == rhs[i]
}

/// A vector takes the fixed values and solves the equations of the other dofs.
pub open spec fn solves_with_fixed<T: Scalar>(
    entries: Seq<(usize, usize, T)>,
    rhs: Seq<T>,
    pairs: Seq<(usize, T)>,
    n: nat,
    x: Seq<T>,
) -> bool {
    &&& forall|i: int|
        0 <= i < n && (#[trigger] last_value(pairs, i) is Some) ==> x[i] == last_value(pairs, i)->0
    &&& forall|i: int|
        0 <= i < n && last_value(pairs, i) is None ==> #[trigger] row_dot(entries, x, i) == rhs[i]
}

/// For each dof its fixed value, or zero.
pub open spec fn fixed_part<T: Scalar>(pairs: Seq<(usize, T)>, n: nat) -> Seq<T> {
    Seq::new(n, |i: int| or_zero(last_value(pairs, i)))
}

/// A row of a matrix whose entries stand one after the other is the sum of the rows.
pub proof fn row_dot_concat<T: Scalar>(
    a: Seq<(usize, usize, T)>,
    b: Seq<(usize, usize, T)>,
    x: Seq<T>,
    r: int,
)
    requires
        commutative_ring::<T>(),
    ensures
        row_dot(a + b, x, r) == row_dot(a, x, r).plus_spec(row_dot(b, x, r)),
    decreases b.len(),
{
    let left = row_dot(a, x, r);
    if b.len() == 0 {
        assert(a + b =~= a);
        ring_plus(left, left, left);
    } else {
        let front = b.drop_last();
        let last = b.last();
        assert((a + b).drop_last() =~= a + front);
        assert((a + b).last() == last);
        row_dot_concat(a, front, x, r);
        ring_plus(left, row_dot(front, x, r), last.2.times_spec(x[last.1 as int]));
    }
}

/// A row of a diagonal of ones picks the value of its dof.
proof fn lemma_unit_row<T: Scalar>(dofs: Seq<usize>, x: Seq<T>, i: int)
    requires
        commutative_ring::<T>(),
        dofs.no_duplicates(),
    ensures
        (forall|k: int| 0 <= k < dofs.len() ==> dofs[k] != i) ==> row_dot(
            unit_entries(dofs),
            x,
            i,
        ) == T::zero_spec(),
        (exists|k: int| 0 <= k < dofs.len() && dofs[k] == i) ==> row_dot(
            unit_entries(dofs),
            x,
            i,
        ) == x[i],
    decreases dofs.len(),
{
    if dofs.len() > 0 {
        let front = dofs.drop_last();
        let units = unit_entries::<T>(dofs);
        let n = dofs.len() - 1;
        assert(units.drop_last() =~= unit_entries::<T>(front));
        assert(front.no_duplicates());
        lemma_unit_row(front, x, i);
        assert(forall|k: int| 0 <= k < n ==> front[k] == dofs[k]);
        assert(units.last() == (dofs[n], dofs[n], T::one_spec()));
        if dofs[n] == i {
            assert(forall|k: int| 0 <= k < n ==> front[k] != dofs[n]);
            ring_units(x[i]);
            ring_plus(x[i], x[i], x[i]);
        } else if exists|k: int| 0 <= k < dofs.len() && dofs[k] == i {
            let k = choose|k: int| 0 <= k < dofs.len() && dofs[k] == i;
            assert(front[k] == i);
        }
    }
}

/// A dof has a fixed value exactly if a pair names it.
proof fn lemma_fixed<T>(pairs: Seq<(usize, T)>, i: int)
    ensures
        last_value(pairs, i) is None ==> forall|k: int|
            0 <= k < pairs.len() ==> pair_dofs(pairs)[k] != i,
        last_value(pairs, i) is Some ==> exists|k: int|
            0 <= k < pairs.len() && pair_dofs(pairs)[k] == i,
    decreases pairs.len(),
{
    if pairs.len() > 0 {
        let front = pairs.drop_last();
        let n = pairs.len() - 1;
        lemma_fixed(front, i);
        assert(forall|k: int| 0 <= k < n ==> pair_dofs(front)[k] == pair_dofs(pairs)[k]);
        assert(pair_dofs(pairs)[n] == pairs.last().0);
        if pairs.last().0 != i && last_value(pairs, i) is Some {
            let k = choose|k: int| 0 <= k < front.len() && pair_dofs(front)[k] == i;
            assert(pair_dofs(pairs)[k] == i);
        }
    }
}

/// Without the flagged rows and columns, a flagged row is empty and another row misses what
/// the flagged columns contribute.
proof fn lemma_zeroed_row<T: Scalar>(
    entries: Seq<(usize, usize, T)>,
    flags: Seq<bool>,
    x: Seq<T>,
    known: Seq<T>,
    i: int,
)
    requires
        commutative_ring::<T>(),
        triplets_within(entries, flags.len() as int, flags.len() as int),
        0 <= i < flags.len(),
    ensures
        flags[i] ==> row_dot(zeroed_at(entries, flags), x, i) == T::zero_spec(),
        flags[i] ==> row_dot(zeroed_rows(entries, flags), x, i) == T::zero_spec(),
        !flags[i] ==> row_dot(zeroed_rows(entries, flags), x, i) == row_dot(entries, x, i),
        row_dot(free_entries(entries, flags, flags), x, i) == row_dot(
            zeroed_at(entries, flags),
            x,
            i,
        ),
        !flags[i] && (forall|c: int|
            0 <= c < flags.len() ==> known[c] == (if flags[c] {
                x[c]
            } else {
                T::zero_spec()
            })) ==> row_dot(entries, x, i) == row_dot(zeroed_at(entries, flags), x, i).plus_spec(
            row_dot(entries, known, i),
        ),
    decreases entries.len(),
{
    let z = T::zero_spec();
    if entries.len() == 0 {
        ring_plus(z, z, z);
    } else {
        let front = entries.drop_last();
        let last = entries.last();
        let zeroed = zeroed_at(entries, flags);
        let rows = zeroed_rows(entries, flags);
        assert(entries[entries.len() - 1] == last);
        assert forall|k: int| 0 <= k < front.len() implies (#[trigger] front[k]).0 < flags.len()
            && front[k].1 < flags.len() by {
            assert(front[k] == entries[k]);
        }
        assert(zeroed.drop_last() =~= zeroed_at(front, flags));
        assert(rows.drop_last() =~= zeroed_rows(front, flags));
        lemma_zeroed_row(front, flags, x, known, i);
        let c = last.1 as int;
        let a = row_dot(zeroed_at(front, flags), x, i);
        let b = row_dot(front, known, i);
        ring_units(x[c]);
        ring_units(last.2);
        ring_plus(a, z, z);
        ring_plus(row_dot(zeroed_rows(front, flags), x, i), z, z);
        let free = free_entries(entries, flags, flags);
        if !(flags[last.0 as int] || flags[c]) {
            assert(free.drop_last() =~= free_entries(front, flags, flags));
        }
        if last.0 == i && !flags[i] {
            let t = last.2.times_spec(x[c]);
            if flags[c] {
                ring_plus(a, b, t);
            } else {
                ring_plus(b, z, z);
                ring_plus(a, b, t);
                ring_plus(b, t, t);
                ring_plus(a, t, b);
            }
        }
    }
}

/// What is moved to the right-hand side entry by entry is what the fixed columns contribute.
proof fn lemma_moved<T: Scalar>(
    start: T,
    entries: Seq<(usize, usize, T)>,
    pairs: Seq<(usize, T)>,
    n: nat,
    i: int,
)
    requires
        commutative_ring::<T>(),
        triplets_within(entries, n as int, n as int),
    ensures
        moved_to_rhs(start, entries, pairs, i).plus_spec(
            row_dot(entries, fixed_part(pairs, n), i),
        ) == start,
    decreases entries.len(),
{
    let z = T::zero_spec();
    if entries.len() == 0 {
        ring_plus(start, z, z);
    } else {
        let front = entries.drop_last();
        let last = entries.last();
        assert(entries[entries.len() - 1] == last);
        assert forall|k: int| 0 <= k < front.len() implies (#[trigger] front[k]).0 < n
            && front[k].1 < n by {
            assert(front[k] == entries[k]);
        }
        lemma_moved(start, front, pairs, n, i);
        let m = moved_to_rhs(start, front, pairs, i);
        let k = row_dot(front, fixed_part(pairs, n), i);
        let t = last.2.times_spec(fixed_part(pairs, n)[last.1 as int]);
        ring_units(last.2);
        ring_plus(k, z, z);
        // (m - t) + (k + t) == ((m - t) + t) + k
        ring_minus(m, t);
        ring_plus(k, t, t);
        ring_plus(m.minus_spec(t), t, k);
    }
}

/// `a == b - k` and `a + k == b` say the same.
proof fn lemma_moves_over<T: Scalar>(a: T, b: T, k: T)
    requires
        commutative_ring::<T>(),
    ensures
        (a == b.minus_spec(k)) <==> (a.plus_spec(k) == b),
{
    ring_minus(b, k);
    ring_minus(a, k);
}

/// A row of a system from which the fixed dofs were taken, and its right-hand side.
proof fn lemma_eliminated_row<T: Scalar>(
    entries: Seq<(usize, usize, T)>,
    b: T,
    pairs: Seq<(usize, T)>,
    n: nat,
    x: Seq<T>,
    i: int,
)
    requires
        commutative_ring::<T>(),
        triplets_within(entries, n as int, n as int),
        pair_dofs(pairs).no_duplicates(),
        0 <= i < n,
    ensures
        ({
            let flags = fixed_flags(pairs, n);
            let units = unit_entries::<T>(pair_dofs(pairs));
            &&& row_dot(free_entries(entries, flags, flags) + units, x, i) == row_dot(
                zeroed_at(entries, flags) + units,
                x,
                i,
            )
            &&& last_value(pairs, i) is Some ==> row_dot(zeroed_at(entries, flags) + units, x, i)
                == x[i]
            &&& last_value(pairs, i) is Some ==> row_dot(zeroed_rows(entries, flags) + units, x, i)
                == x[i]
            &&& last_value(pairs, i) is None ==> row_dot(zeroed_rows(entries, flags) + units, x, i)
                == row_dot(entries, x, i)
            &&& last_value(pairs, i) is None && (forall|c: int|
                0 <= c < n && (#[trigger] last_value(pairs, c) is Some) ==> x[c] == last_value(
                    pairs,
                    c,
                )->0) ==> ((row_dot(zeroed_at(entries, flags) + units, x, i) == b.minus_spec(
                row_dot(entries, fixed_part(pairs, n), i),
            )) <==> (row_dot(entries, x, i) == b))
        }),
{
    let flags = fixed_flags(pairs, n);
    let dofs = pair_dofs(pairs);
    let units = unit_entries::<T>(dofs);
    let known = fixed_part(pairs, n);
    let zeroed = zeroed_at(entries, flags);
    lemma_fixed(pairs, i);
    lemma_unit_row(dofs, x, i);
    row_dot_concat(zeroed, units, x, i);
    row_dot_concat(zeroed_rows(entries, flags), units, x, i);
    row_dot_concat(free_entries(entries, flags, flags), units, x, i);
    lemma_zeroed_row(entries, flags, x, known, i);
    ring_plus(x[i], x[i], x[i]);
    ring_plus(row_dot(zeroed, x, i), x[i], x[i]);
    ring_plus(row_dot(entries, x, i), x[i], x[i]);
    lemma_moves_over(row_dot(zeroed, x, i), b, row_dot(entries, known, i));
    if forall|c: int|
        0 <= c < n && (#[trigger] last_value(pairs, c) is Some) ==> x[c] == last_value(
            pairs,
            c,
        )->0 {
        assert forall|c: int| 0 <= c < flags.len() implies known[c] == (if flags[c] {
            x[c]
        } else {
            T::zero_spec()
        }) by {
            assert(flags[c] == (last_value(pairs, c) is Some));
        }
    }
}

/// Fixing dofs fixes them and keeps the other equations: over coefficients that compute exactly,
/// and with each dof fixed once, the solutions of the new system are the vectors that take the
/// fixed values and solve the old equations of the other dofs.
pub proof fn fixing_fixes<T: Scalar>(
    entries: Seq<(usize, usize, T)>,
    rhs: Seq<T>,
    pairs: Seq<(usize, T)>,
    n: nat,
    x: Seq<T>,
)
    requires
        commutative_ring::<T>(),
        triplets_within(entries, n as int, n as int),
        rhs.len() == n,
        pairs_within(pairs, n as int),
        pair_dofs(pairs).no_duplicates(),
    ensures
        solves(
            zeroed_at(entries, fixed_flags(pairs, n)) + unit_entries(pair_dofs(pairs)),
            fixed_rhs(rhs, compressed(entries), pairs),
            n,
            x,
        ) <==> solves_with_fixed(entries, rhs, pairs, n, x),
{
    let fixed = zeroed_at(entries, fixed_flags(pairs, n)) + unit_entries(pair_dofs(pairs));
    let new_rhs = fixed_rhs(rhs, compressed(entries), pairs);
    let known = fixed_part(pairs, n);
    assert(known =~= Seq::new(rhs.len(), |i: int| or_zero(last_value(pairs, i))));
    ring_is_exact::<T>();
    compressed_exists(entries, n as int, n as int);
    assert forall|i: int| 0 <= i < n implies new_rhs[i] == (match last_value(pairs, i) {
        Some(v) => v,
        None => rhs[i].minus_spec(row_dot(entries, known, i)),
    }) by {
        compressing_keeps_products(
            entries,
            compressed(entries),
            n as int,
            n as int,
            known,
            i,
        );
    }
    lemma_equivalent(entries, rhs, fixed, new_rhs, pairs, n, x);
}

/// The same holds when the columns are eliminated entry by entry and dropped.
pub proof fn strong_fixing_fixes<T: Scalar>(
    entries: Seq<(usize, usize, T)>,
    rhs: Seq<T>,
    pairs: Seq<(usize, T)>,
    n: nat,
    x: Seq<T>,
)
    requires
        commutative_ring::<T>(),
        triplets_within(entries, n as int, n as int),
        rhs.len() == n,
        pairs_within(pairs, n as int),
        pair_dofs(pairs).no_duplicates(),
    ensures
        solves(
            free_entries(entries, fixed_flags(pairs, n), fixed_flags(pairs, n)) + unit_entries(
                pair_dofs(pairs),
            ),
            eliminated_rhs(rhs, entries, pairs),
            n,
            x,
        ) <==> solves_with_fixed(entries, rhs, pairs, n, x),
{
    let flags = fixed_flags(pairs, n);
    let units = unit_entries::<T>(pair_dofs(pairs));
    let fixed = zeroed_at(entries, flags) + units;
    let free = free_entries(entries, flags, flags) + units;
    let new_rhs = eliminated_rhs(rhs, entries, pairs);
    let known = fixed_part(pairs, n);
    assert forall|i: int| 0 <= i < n implies new_rhs[i] == (match last_value(pairs, i) {
        Some(v) => v,
        None => rhs[i].minus_spec(row_dot(entries, known, i)),
    }) by {
        lemma_moved(rhs[i], entries, pairs, n, i);
        lemma_moves_over(
            moved_to_rhs(rhs[i], entries, pairs, i),
            rhs[i],
            row_dot(entries, known, i),
        );
    }
    lemma_equivalent(entries, rhs, fixed, new_rhs, pairs, n, x);
    assert forall|i: int| 0 <= i < n implies #[trigger] row_dot(free, x, i) == row_dot(fixed, x, i)
    by {
        lemma_eliminated_row(entries, rhs[i], pairs, n, x, i);
    }
    if solves(free, new_rhs, n, x) {
        assert forall|i: int| 0 <= i < n implies #[trigger] row_dot(fixed, x, i) == new_rhs[i] by {
            assert(row_dot(free, x, i) == row_dot(fixed, x, i));
        }
    }
}

/// The same holds when only the rows of the fixed dofs are replaced.
pub proof fn replacing_rows_fixes<T: Scalar>(
    entries: Seq<(usize, usize, T)>,
    rhs: Seq<T>,
    pairs: Seq<(usize, T)>,
    n: nat,
    x: Seq<T>,
)
    requires
        commutative_ring::<T>(),
        triplets_within(entries, n as int, n as int),
        rhs.len() == n,
        pairs_within(pairs, n as int),
        pair_dofs(pairs).no_duplicates(),
    ensures
        solves(
            zeroed_rows(entries, fixed_flags(pairs, n)) + unit_entries(pair_dofs(pairs)),
            Seq::new(
                rhs.len(),
                |i: int|
                    match last_value(pairs, i) {
                        Some(v) => v,
                        None => rhs[i],
                    },
            ),
            n,
            x,
        ) <==> solves_with_fixed(entries, rhs, pairs, n, x),
{
    let fixed = zeroed_rows(entries, fixed_flags(pairs, n)) + unit_entries(pair_dofs(pairs));
    let new_rhs = Seq::new(
        rhs.len(),
        |i: int|
            match last_value(pairs, i) {
                Some(v) => v,
                None => rhs[i],
            },
    );
    assert forall|i: int| 0 <= i < n implies (#[trigger] row_dot(fixed, x, i) == new_rhs[i] <==> (
    match last_value(pairs, i) {
        Some(v) => x[i] == v,
        None => row_dot(entries, x, i) == rhs[i],
    })) by {
        lemma_eliminated_row(entries, rhs[i], pairs, n, x, i);
    }
    if solves_with_fixed(entries, rhs, pairs, n, x) {
        assert forall|i: int| 0 <= i < n implies #[trigger] row_dot(fixed, x, i) == new_rhs[i] by {
            if last_value(pairs, i) is None {
                assert(row_dot(entries, x, i) == rhs[i]);
            }
        }
    }
    if solves(fixed, new_rhs, n, x) {
        assert forall|i: int|
            0 <= i < n && (#[trigger] last_value(pairs, i) is Some) implies x[i] == last_value(
            pairs,
            i,
        )->0 by {
            assert(row_dot(fixed, x, i) == new_rhs[i]);
        }
        assert forall|i: int| 0 <= i < n && last_value(pairs, i) is None implies #[trigger] row_dot(
            entries,
            x,
            i,
        ) == rhs[i] by {
            assert(row_dot(fixed, x, i) == new_rhs[i]);
        }
    }
}

proof fn lemma_zero_pairs<T: Scalar>(dofs: Seq<usize>, i: int)
    ensures
        last_value(zero_pairs::<T>(dofs), i) is Some ==> last_value(zero_pairs::<T>(dofs), i)->0
            == T::zero_spec(),
        last_value(zero_pairs::<T>(dofs), i) is Some <==> (exists|k: int|
            0 <= k < dofs.len() && #[trigger] dofs[k] == i),
    decreases dofs.len(),
{
    let pairs = zero_pairs::<T>(dofs);
    if dofs.len() > 0 {
        let front = dofs.drop_last();
        assert(pairs.drop_last() =~= zero_pairs::<T>(front));
        lemma_zero_pairs::<T>(front, i);
        assert(forall|k: int| 0 <= k < front.len() ==> front[k] == dofs[k]);
        if exists|k: int| 0 <= k < front.len() && #[trigger] front[k] == i {
            let k = choose|k: int| 0 <= k < front.len() && #[trigger] front[k] == i;
            assert(dofs[k] == i);
        }
        if dofs.last() != i && exists|k: int| 0 <= k < dofs.len() && #[trigger] dofs[k] == i {
            let k = choose|k: int| 0 <= k < dofs.len() && #[trigger] dofs[k] == i;
            assert(front[k] == i);
        }
        assert(dofs[dofs.len() - 1] == dofs.last());
    }
}

proof fn lemma_row_dot_zero<T: Scalar>(
    entries: Seq<(usize, usize, T)>,
    zeros: Seq<T>,
    n: nat,
    i: int,
)
    requires
        commutative_ring::<T>(),
        triplets_within(entries, n as int, n as int),
        forall|c: int| 0 <= c < n ==> zeros[c] == T::zero_spec(),
    ensures
        row_dot(entries, zeros, i) == T::zero_spec(),
    decreases entries.len(),
{
    if entries.len() > 0 {
        let front = entries.drop_last();
        let last = entries.last();
        assert(entries[entries.len() - 1] == last);
        assert forall|k: int| 0 <= k < front.len() implies (#[trigger] front[k]).0 < n
            && front[k].1 < n by {
            assert(front[k] == entries[k]);
        }
        lemma_row_dot_zero(front, zeros, n, i);
        ring_units(last.2);
        ring_plus(T::zero_spec(), T::zero_spec(), T::zero_spec());
    }
}

/// Fixing dofs to zero keeps the other equations: over coefficients that compute exactly, and
/// with each dof named once, the solutions of the new system are the vectors that vanish at the
/// dofs and solve the old equations of the others.
pub proof fn fixing_to_zero_fixes<T: Scalar>(
    entries: Seq<(usize, usize, T)>,
    rhs: Seq<T>,
    dofs: Seq<usize>,
    n: nat,
    x: Seq<T>,
)
    requires
        commutative_ring::<T>(),
        triplets_within(entries, n as int, n as int),
        rhs.len() == n,
        n <= usize::MAX,
        dofs.no_duplicates(),
    ensures
        solves(
            zeroed_at(entries, Seq::new(n, |i: int| dofs.contains(i as usize))) + unit_entries(
                dofs,
            ),
            Seq::new(
                rhs.len(),
                |i: int|
                    if dofs.contains(i as usize) {
                        T::zero_spec()
                    } else {
                        rhs[i]
                    },
            ),
            n,
            x,
        ) <==> solves_with_fixed(entries, rhs, zero_pairs(dofs), n, x),
{
    let z = T::zero_spec();
    let pairs = zero_pairs::<T>(dofs);
    let flags = Seq::new(n, |i: int| dofs.contains(i as usize));
    let new_rhs = Seq::new(
        rhs.len(),
        |i: int|
            if dofs.contains(i as usize) {
                z
            } else {
                rhs[i]
            },
    );
    let known = fixed_part(pairs, n);
    assert(pair_dofs(pairs) =~= dofs);
    assert forall|i: int| 0 <= i < n implies #[trigger] flags[i] == (last_value(pairs, i) is Some)
        && known[i] == z by {
        lemma_zero_pairs::<T>(dofs, i);
        if dofs.contains(i as usize) {
            let k = choose|k: int| 0 <= k < dofs.len() && dofs[k] == i as usize;
            assert(dofs[k] == i);
        }
    }
    assert(flags =~= fixed_flags(pairs, n));
    let fixed = zeroed_at(entries, flags) + unit_entries(dofs);
    assert forall|i: int| 0 <= i < n implies #[trigger] new_rhs[i] == (match last_value(pairs, i) {
        Some(v) => v,
        None => rhs[i].minus_spec(row_dot(entries, known, i)),
    }) by {
        assert(flags[i] == (last_value(pairs, i) is Some));
        assert forall|c: int| 0 <= c < n implies known[c] == z by {
            assert(flags[c] == (last_value(pairs, c) is Some));
        }
        lemma_zero_pairs::<T>(dofs, i);
        lemma_row_dot_zero(entries, known, n, i);
        ring_plus(rhs[i], z, z);
        ring_minus(rhs[i], z);
    }
    lemma_equivalent(entries, rhs, fixed, new_rhs, pairs, n, x);
}

/// With rows as above and the right-hand side reduced by the fixed part, both systems have
/// the same solutions.
proof fn lemma_equivalent<T: Scalar>(
    entries: Seq<(usize, usize, T)>,
    rhs: Seq<T>,
    fixed: Seq<(usize, usize, T)>,
    new_rhs: Seq<T>,
    pairs: Seq<(usize, T)>,
    n: nat,
    x: Seq<T>,
)
    requires
        commutative_ring::<T>(),
        triplets_within(entries, n as int, n as int),
        rhs.len() == n,
        pair_dofs(pairs).no_duplicates(),
        fixed == zeroed_at(entries, fixed_flags(pairs, n)) + unit_entries(pair_dofs(pairs)),
        forall|i: int|
            0 <= i < n ==> #[trigger] new_rhs[i] == (match last_value(pairs, i) {
                Some(v) => v,
                None => rhs[i].minus_spec(row_dot(entries, fixed_part(pairs, n), i)),
            }),
    ensures
        solves(fixed, new_rhs, n, x) <==> solves_with_fixed(entries, rhs, pairs, n, x),
{
    if solves(fixed, new_rhs, n, x) {
        assert forall|i: int|
            0 <= i < n && (#[trigger] last_value(pairs, i) is Some) implies x[i] == last_value(
            pairs,
            i,
        )->0 by {
            lemma_eliminated_row(entries, rhs[i], pairs, n, x, i);
            assert(row_dot(fixed, x, i) == new_rhs[i]);
        }
        assert forall|i: int| 0 <= i < n && last_value(pairs, i) is None implies #[trigger] row_dot(
            entries,
            x,
            i,
        ) == rhs[i] by {
            lemma_eliminated_row(entries, rhs[i], pairs, n, x, i);
            assert(row_dot(fixed, x, i) == new_rhs[i]);
        }
    }
    if solves_with_fixed(entries, rhs, pairs, n, x) {
        assert forall|i: int| 0 <= i < n implies #[trigger] row_dot(fixed, x, i) == new_rhs[i] by {
            lemma_eliminated_row(entries, rhs[i], pairs, n, x, i);
            if last_value(pairs, i) is None {
                assert(row_dot(entries, x, i) == rhs[i]);
            }
        }
    }
}

} // verus!
