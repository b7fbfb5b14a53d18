//! Minors alternate in their rows.

use crate::linalg::minors::{expansion, minor, signed};
use crate::linalg::ring::{
    commutative_ring, ring_exchange, ring_moves, ring_negated, ring_plus,
    ring_sum_plus, ring_sum_swap, ring_units, scalar_sum, scalar_sum_same,
    scalar_sum_scaled,
};
use crate::linalg::scalar::Scalar;
use vstd::prelude::*;

verus! {

/// The place `i` once `a` is left out.
pub open spec fn skipped(a: int, i: int) -> int {
    if i < a {
        i
    } else {
        i + 1
    }
}

/// A sum is one of its terms and the sum of the others.
pub proof fn sum_without<T: Scalar>(n: int, a: int, f: spec_fn(int) -> T)
    requires
        commutative_ring::<T>(),
        0 <= a < n,
    ensures
        scalar_sum(n, f) == f(a).plus_spec(scalar_sum(n - 1, |i: int| f(skipped(a, i)))),
    decreases n,
{
    let g = |i: int| f(skipped(a, i));
    if a == n - 1 {
        scalar_sum_same(n - 1, f, g);
        ring_plus(scalar_sum(n - 1, f), f(a), f(a));
    } else {
        sum_without(n - 1, a, f);
        assert(g(n - 2) == f(n - 1));
        ring_plus(f(a), scalar_sum(n - 2, g), f(n - 1));
    }
}

/// Opposite terms have the opposite sum.
pub proof fn sum_negated<T: Scalar>(n: int, f: spec_fn(int) -> T)
    requires
        commutative_ring::<T>(),
    ensures
        scalar_sum(n, |k: int| f(k).negated_spec()) == scalar_sum(n, f).negated_spec(),
{
    let c = T::one_spec().negated_spec();
    let g = |k: int| f(k).negated_spec();
    let h = |k: int| c.times_spec(f(k));
    assert forall|k: int| 0 <= k < n implies #[trigger] g(k) == h(k) by {
        ring_negated(T::one_spec(), f(k));
        ring_units(f(k));
    }
    scalar_sum_same(n, g, h);
    scalar_sum_scaled(n, c, f);
    let s = scalar_sum(n, f);
    ring_negated(T::one_spec(), s);
    ring_units(s);
}

/// The opposite of a sum.
proof fn lemma_opposites<T: Scalar>(a: T, b: T)
    requires
        commutative_ring::<T>(),
    ensures
        a.plus_spec(b.negated_spec()).plus_spec(b.plus_spec(a.negated_spec())) == T::zero_spec(),
        a.plus_spec(a.negated_spec()) == T::zero_spec(),
{
    let z = T::zero_spec();
    ring_negated(a, a);
    ring_negated(b, b);
    ring_plus(a, a.negated_spec(), a);
    ring_plus(b.negated_spec(), b, b);
    ring_plus(b, a.negated_spec(), b);
    ring_exchange(a, b.negated_spec(), a.negated_spec(), b);
    ring_plus(z, z, z);
}

/// The sum of all values of an alternating function of two places.
spec fn square_sum<T: Scalar>(n: int, h: spec_fn(int, int) -> T) -> T {
    scalar_sum(n, |a: int| scalar_sum(n, |b: int| h(a, b)))
}

proof fn lemma_alternating_sum<T: Scalar>(n: int, h: spec_fn(int, int) -> T)
    requires
        commutative_ring::<T>(),
        forall|a: int| 0 <= a < n ==> #[trigger] h(a, a) == T::zero_spec(),
        forall|a: int, b: int|
            0 <= a < n && 0 <= b < n && a != b ==> #[trigger] h(a, b) == h(b, a).negated_spec(),
    ensures
        square_sum(n, h) == T::zero_spec(),
    decreases n,
{
    if n > 0 {
        let k = n - 1;
        lemma_alternating_sum(k, h);
        let row = |a: int| scalar_sum(n, |b: int| h(a, b));
        let inner = |a: int| scalar_sum(k, |b: int| h(a, b));
        let right = |a: int| h(a, k);
        let below = |b: int| h(k, b);
        let last = |b: int| h(k, b);
        scalar_sum_same(k, row, |a: int| inner(a).plus_spec(right(a)));
        ring_sum_plus(k, inner, right);
        scalar_sum_same(k, right, |b: int| below(b).negated_spec());
        sum_negated(k, below);
        let s = scalar_sum(k, below);
        assert(row(k) == s.plus_spec(h(k, k)));
        ring_plus(s, s, s);
        lemma_opposites(s, s);
        ring_plus(s.negated_spec(), s, s);
        let z = T::zero_spec();
        ring_plus(z, s.negated_spec(), s);
        ring_plus(z, z, z);
        assert(square_sum(n, h) == square_sum(k, h).plus_spec(s.negated_spec()).plus_spec(s));
    }
}

/// The term of a minor with the first row in column `a` and the second one in column `b`.
spec fn pair_term<T: Scalar>(
    m: spec_fn(int, int) -> T,
    u: int,
    v: int,
    rest: Seq<usize>,
    cols: Seq<usize>,
    a: int,
    b: int,
) -> T {
    let i = if b < a {
        b
    } else {
        b - 1
    };
    if a == b {
        T::zero_spec()
    } else {
        signed(
            a + i,
            m(u, cols[a] as int).times_spec(
                m(v, cols[b] as int).times_spec(minor(m, rest, cols.remove(a).remove(i))),
            ),
        )
    }
}

proof fn lemma_expansion_sum<T: Scalar>(
    m: spec_fn(int, int) -> T,
    rows: Seq<usize>,
    cols: Seq<usize>,
    n: nat,
)
    requires
        rows.len() > 0,
    ensures
        expansion(m, rows, cols, n) == scalar_sum(
            n as int,
            |j: int|
                signed(
                    j,
                    m(rows[0] as int, cols[j] as int).times_spec(
                        minor(m, rows.drop_first(), cols.remove(j)),
                    ),
                ),
        ),
    decreases n,
{
    if n > 0 {
        lemma_expansion_sum(m, rows, cols, (n - 1) as nat);
    }
}

proof fn lemma_signed_sum<T: Scalar>(place: int, c: T, n: int, f: spec_fn(int) -> T)
    requires
        commutative_ring::<T>(),
    ensures
        signed(place, c.times_spec(scalar_sum(n, f))) == scalar_sum(
            n,
            |k: int| signed(place, c.times_spec(f(k))),
        ),
{
    let g = |k: int| c.times_spec(f(k));
    let h = |k: int| signed(place, c.times_spec(f(k)));
    scalar_sum_scaled(n, c, f);
    if place % 2 == 0 {
        scalar_sum_same(n, h, g);
    } else {
        sum_negated(n, g);
        scalar_sum_same(n, h, |k: int| g(k).negated_spec());
    }
}

proof fn lemma_signed_twice<T: Scalar>(a: int, i: int, c: T, x: T)
    requires
        commutative_ring::<T>(),
        a >= 0,
        i >= 0,
    ensures
        signed(a, c.times_spec(signed(i, x))) == signed(a + i, c.times_spec(x)),
{
    ring_negated(x, c);
    ring_negated(c.times_spec(x), c);
}

proof fn lemma_pair_rows<T: Scalar>(
    m: spec_fn(int, int) -> T,
    u: usize,
    v: usize,
    rest: Seq<usize>,
    cols: Seq<usize>,
    a: int,
)
    requires
        commutative_ring::<T>(),
        0 <= a < cols.len(),
    ensures
        signed(
            a,
            m(u as int, cols[a] as int).times_spec(minor(m, seq![v] + rest, cols.remove(a))),
        ) == scalar_sum(
            cols.len() as int,
            |b: int| pair_term(m, u as int, v as int, rest, cols, a, b),
        ),
{
    let n = cols.len() as int;
    let left = cols.remove(a);
    let rows = seq![v] + rest;
    let c = m(u as int, cols[a] as int);
    assert(rows.drop_first() =~= rest);
    lemma_expansion_sum(m, rows, left, left.len());
    let f = |i: int|
        signed(
            i,
            m(rows[0] as int, left[i] as int).times_spec(
                minor(m, rows.drop_first(), left.remove(i)),
            ),
        );
    let term = |b: int| pair_term(m, u as int, v as int, rest, cols, a, b);
    lemma_signed_sum(a, c, n - 1, f);
    let g = |i: int| signed(a, c.times_spec(f(i)));
    let h = |i: int| term(skipped(a, i));
    assert forall|i: int| 0 <= i < n - 1 implies #[trigger] g(i) == h(i) by {
        let x = m(v as int, left[i] as int).times_spec(minor(m, rest, left.remove(i)));
        lemma_signed_twice(a, i, c, x);
        assert(left[i] == cols[skipped(a, i)]);
    }
    scalar_sum_same(n - 1, g, h);
    sum_without(n, a, term);
    let s = scalar_sum(n - 1, h);
    ring_plus(s, s, s);
}

/// A minor by the columns of its first two rows.
proof fn lemma_two_rows<T: Scalar>(
    m: spec_fn(int, int) -> T,
    u: usize,
    v: usize,
    rest: Seq<usize>,
    cols: Seq<usize>,
)
    requires
        commutative_ring::<T>(),
    ensures
        minor(m, seq![u, v] + rest, cols) == square_sum(
            cols.len() as int,
            |a: int, b: int| pair_term(m, u as int, v as int, rest, cols, a, b),
        ),
{
    let n = cols.len() as int;
    let rows = seq![u, v] + rest;
    let h = |a: int, b: int| pair_term(m, u as int, v as int, rest, cols, a, b);
    assert(rows.drop_first() =~= seq![v] + rest);
    lemma_expansion_sum(m, rows, cols, cols.len());
    let f = |j: int|
        signed(
            j,
            m(rows[0] as int, cols[j] as int).times_spec(
                minor(m, rows.drop_first(), cols.remove(j)),
            ),
        );
    let g = |a: int| scalar_sum(n, |b: int| h(a, b));
    assert forall|a: int| 0 <= a < n implies #[trigger] f(a) == g(a) by {
        lemma_pair_rows(m, u, v, rest, cols, a);
        let k = |b: int| pair_term(m, u as int, v as int, rest, cols, a, b);
        scalar_sum_same(n, k, |b: int| h(a, b));
    }
    scalar_sum_same(n, f, g);
}

proof fn lemma_pair_swapped<T: Scalar>(
    m: spec_fn(int, int) -> T,
    u: int,
    v: int,
    rest: Seq<usize>,
    cols: Seq<usize>,
    a: int,
    b: int,
)
    requires
        commutative_ring::<T>(),
        0 <= a < cols.len(),
        0 <= b < cols.len(),
    ensures
        pair_term(m, v, u, rest, cols, a, b) == pair_term(m, u, v, rest, cols, b, a).negated_spec(),
{
    let z = T::zero_spec();
    if a == b {
        ring_negated(z, z);
        ring_plus(z.negated_spec(), z, z);
    } else {
        let i = if b < a {
            b
        } else {
            b - 1
        };
        let j = if a < b {
            a
        } else {
            a - 1
        };
        assert(cols.remove(a).remove(i) =~= cols.remove(b).remove(j));
        let below = minor(m, rest, cols.remove(a).remove(i));
        let x = m(v, cols[a] as int);
        let y = m(u, cols[b] as int);
        ring_moves(x, y, below);
        let p = y.times_spec(x.times_spec(below));
        ring_negated(p, p);
        assert((a + i) % 2 != (b + j) % 2);
    }
}

/// A minor with its first two rows exchanged.
proof fn lemma_first_rows_exchanged<T: Scalar>(
    m: spec_fn(int, int) -> T,
    u: usize,
    v: usize,
    rest: Seq<usize>,
    cols: Seq<usize>,
)
    requires
        commutative_ring::<T>(),
    ensures
        minor(m, seq![v, u] + rest, cols) == minor(m, seq![u, v] + rest, cols).negated_spec(),
        u == v ==> minor(m, seq![u, v] + rest, cols) == T::zero_spec(),
{
    let n = cols.len() as int;
    let h = |a: int, b: int| pair_term(m, u as int, v as int, rest, cols, a, b);
    let k = |a: int, b: int| pair_term(m, v as int, u as int, rest, cols, a, b);
    lemma_two_rows(m, u, v, rest, cols);
    lemma_two_rows(m, v, u, rest, cols);
    let from = |b: int| scalar_sum(n, |a: int| h(b, a));
    let back = |a: int| scalar_sum(n, |b: int| h(b, a));
    let to = |a: int| scalar_sum(n, |b: int| k(a, b));
    assert forall|a: int| 0 <= a < n implies #[trigger] to(a) == back(a).negated_spec() by {
        let f = |b: int| h(b, a);
        let g = |b: int| k(a, b);
        assert forall|b: int| 0 <= b < n implies #[trigger] g(b) == f(b).negated_spec() by {
            lemma_pair_swapped(m, u as int, v as int, rest, cols, a, b);
        }
        scalar_sum_same(n, g, |b: int| f(b).negated_spec());
        sum_negated(n, f);
    }
    scalar_sum_same(n, to, |a: int| back(a).negated_spec());
    sum_negated(n, back);
    ring_sum_swap(n, n, h);
    assert(square_sum(n, k) == scalar_sum(n, to));
    assert(square_sum(n, h) == scalar_sum(n, from));
    if u == v {
        assert forall|a: int, b: int| 0 <= a < n && 0 <= b < n && a != b implies #[trigger] h(a, b)
            == h(b, a).negated_spec() by {
            lemma_pair_swapped(m, u as int, v as int, rest, cols, a, b);
        }
        lemma_alternating_sum(n, h);
    }
}

/// The rows with two neighbours exchanged.
pub open spec fn exchanged(rows: Seq<usize>, p: int) -> Seq<usize> {
    rows.update(p, rows[p + 1]).update(p + 1, rows[p])
}

/// A minor changes its sign when two neighbouring rows are exchanged.
pub proof fn minor_alternates<T: Scalar>(
    m: spec_fn(int, int) -> T,
    rows: Seq<usize>,
    cols: Seq<usize>,
    p: int,
)
    requires
        commutative_ring::<T>(),
        0 <= p < rows.len() - 1,
    ensures
        minor(m, exchanged(rows, p), cols) == minor(m, rows, cols).negated_spec(),
    decreases p,
{
    let other = exchanged(rows, p);
    if p == 0 {
        let rest = rows.skip(2);
        assert(rows =~= seq![rows[0], rows[1]] + rest);
        assert(other =~= seq![rows[1], rows[0]] + rest);
        lemma_first_rows_exchanged(m, rows[0], rows[1], rest, cols);
    } else {
        let n = cols.len() as int;
        lemma_expansion_sum(m, rows, cols, cols.len());
        lemma_expansion_sum(m, other, cols, cols.len());
        let f = |j: int|
            signed(
                j,
                m(rows[0] as int, cols[j] as int).times_spec(
                    minor(m, rows.drop_first(), cols.remove(j)),
                ),
            );
        let g = |j: int|
            signed(
                j,
                m(other[0] as int, cols[j] as int).times_spec(
                    minor(m, other.drop_first(), cols.remove(j)),
                ),
            );
        assert forall|j: int| 0 <= j < n implies #[trigger] g(j) == f(j).negated_spec() by {
            let c = m(rows[0] as int, cols[j] as int);
            let x = minor(m, rows.drop_first(), cols.remove(j));
            assert(other.drop_first() =~= exchanged(rows.drop_first(), p - 1));
            minor_alternates(m, rows.drop_first(), cols.remove(j), p - 1);
            ring_negated(x, c);
            ring_negated(c.times_spec(x), c);
        }
        scalar_sum_same(n, g, |j: int| f(j).negated_spec());
        sum_negated(n, f);
    }
}

/// A row can be moved to the front, with a sign for each row that it passes.
pub proof fn minor_with_row_in_front<T: Scalar>(
    m: spec_fn(int, int) -> T,
    rest: Seq<usize>,
    v: usize,
    cols: Seq<usize>,
    p: int,
)
    requires
        commutative_ring::<T>(),
        0 <= p <= rest.len(),
    ensures
        minor(m, rest.insert(p, v), cols) == signed(p, minor(m, seq![v] + rest, cols)),
    decreases p,
{
    let front = minor(m, seq![v] + rest, cols);
    if p == 0 {
        assert(rest.insert(0, v) =~= seq![v] + rest);
    } else {
        let before = rest.insert(p - 1, v);
        minor_with_row_in_front(m, rest, v, cols, p - 1);
        assert(exchanged(before, p - 1) =~= rest.insert(p, v));
        minor_alternates(m, before, cols, p - 1);
        ring_negated(front, front);
    }
}

/// A minor with a row twice is zero.
pub proof fn minor_with_row_twice<T: Scalar>(
    m: spec_fn(int, int) -> T,
    rest: Seq<usize>,
    v: usize,
    cols: Seq<usize>,
    p: int,
)
    requires
        commutative_ring::<T>(),
        0 <= p <= rest.len(),
    ensures
        minor(m, seq![v] + rest.insert(p, v), cols) == T::zero_spec(),
    decreases p,
{
    let rows = seq![v] + rest.insert(p, v);
    if p == 0 {
        assert(rows =~= seq![v, v] + rest);
        lemma_first_rows_exchanged(m, v, v, rest, cols);
    } else {
        let before = seq![v] + rest.insert(p - 1, v);
        minor_with_row_twice(m, rest, v, cols, p - 1);
        assert(exchanged(before, p) =~= rows);
        minor_alternates(m, before, cols, p);
        let z = T::zero_spec();
        ring_negated(z, z);
        ring_plus(z.negated_spec(), z, z);
    }
}

} // verus!
