//! Finite sums of integers.

use vstd::prelude::*;

verus! {

/// `f(0) + ... + f(n - 1)`.
pub open spec fn int_sum(n: int, f: spec_fn(int) -> int) -> int
    decreases n,
{
    if n <= 0 {
        0
    } else {
        int_sum(n - 1, f) + f(n - 1)
    }
}

/// Sums of equal terms are equal.
pub proof fn sum_ext(n: int, f: spec_fn(int) -> int, g: spec_fn(int) -> int)
    requires
        forall|i: int| 0 <= i < n ==> #[trigger] f(i) == g(i),
    ensures
        int_sum(n, f) == int_sum(n, g),
    decreases n,
{
    if n > 0 {
        sum_ext(n - 1, f, g);
    }
}

/// A sum of zeros is zero.
pub proof fn sum_zero(n: int, f: spec_fn(int) -> int)
    requires
        forall|i: int| 0 <= i < n ==> #[trigger] f(i) == 0,
    ensures
        int_sum(n, f) == 0,
    decreases n,
{
    if n > 0 {
        sum_zero(n - 1, f);
    }
}

/// A sum with at most one term that is not zero is that term.
pub proof fn sum_single(n: int, f: spec_fn(int) -> int, at: int)
    requires
        0 <= at < n,
        forall|i: int| 0 <= i < n && i != at ==> #[trigger] f(i) == 0,
    ensures
        int_sum(n, f) == f(at),
    decreases n,
{
    if at == n - 1 {
        sum_zero(n - 1, f);
    } else {
        sum_single(n - 1, f, at);
    }
}

/// Sums add up term by term.
pub proof fn sum_add(n: int, f: spec_fn(int) -> int, g: spec_fn(int) -> int)
    ensures
        int_sum(n, |i: int| f(i) + g(i)) == int_sum(n, f) + int_sum(n, g),
    decreases n,
{
    if n > 0 {
        sum_add(n - 1, f, g);
    }
}

/// A common factor may be taken out of a sum.
pub proof fn sum_scale(n: int, a: int, f: spec_fn(int) -> int)
    ensures
        int_sum(n, |i: int| a * f(i)) == a * int_sum(n, f),
    decreases n,
{
    if n > 0 {
        sum_scale(n - 1, a, f);
        let s = int_sum(n - 1, f);
        let t = f(n - 1);
        assert(a * s + a * t == a * (s + t)) by (nonlinear_arith);
    } else {
        assert(a * 0 == 0);
    }
}

/// A sum may be taken from the other end.
pub proof fn sum_reverse(n: int, f: spec_fn(int) -> int)
    ensures
        int_sum(n, |i: int| f(n - 1 - i)) == int_sum(n, f),
    decreases n,
{
    if n > 0 {
        let g = |i: int| f(i + 1);
        sum_reverse(n - 1, g);
        sum_ext(n - 1, |i: int| g(n - 2 - i), |i: int| f(n - 1 - i));
        sum_shift(n, f);
    }
}

/// The first term may be split off a sum.
pub proof fn sum_shift(n: int, f: spec_fn(int) -> int)
    requires
        n > 0,
    ensures
        int_sum(n, f) == f(0) + int_sum(n - 1, |i: int| f(i + 1)),
    decreases n,
{
    if n > 1 {
        sum_shift(n - 1, f);
    } else {
        reveal_with_fuel(int_sum, 2);
    }
}

/// A double sum may be taken in either order.
pub proof fn sum_swap(n: int, m: int, g: spec_fn(int, int) -> int)
    ensures
        int_sum(n, |i: int| int_sum(m, |j: int| g(i, j))) == int_sum(
            m,
            |j: int| int_sum(n, |i: int| g(i, j)),
        ),
    decreases n,
{
    let rows = |i: int| int_sum(m, |j: int| g(i, j));
    let cols = |j: int| int_sum(n, |i: int| g(i, j));
    if n <= 0 {
        sum_zero(m, cols);
    } else {
        sum_swap(n - 1, m, g);
        let before = |j: int| int_sum(n - 1, |i: int| g(i, j));
        let last = |j: int| g(n - 1, j);
        sum_add(m, before, last);
        sum_ext(m, cols, |j: int| before(j) + last(j));
    }
}

/// A double sum over an `n` by `n - 1` table vanishes when the entry at `(j, l)` with
/// `l < j` is the opposite of the entry at `(l, j - 1)`.
pub proof fn alternating_double_sum(n: int, g: spec_fn(int, int) -> int)
    requires
        forall|j: int, l: int| 0 <= l < j < n ==> #[trigger] g(j, l) == -g(l, j - 1),
    ensures
        int_sum(n, |j: int| int_sum(n - 1, |l: int| g(j, l))) == 0,
    decreases n,
{
    let full = |j: int| int_sum(n - 1, |l: int| g(j, l));
    if n <= 1 {
        sum_zero(n, full);
    } else {
        alternating_double_sum(n - 1, g);
        let shorter = |j: int| int_sum(n - 2, |l: int| g(j, l));
        let edge = |j: int| g(j, n - 2);
        let last = |l: int| g(n - 1, l);
        assert forall|j: int| 0 <= j < n - 1 implies #[trigger] full(j) == shorter(j) + edge(j) by {
            assert(int_sum(n - 1, |l: int| g(j, l)) == int_sum(n - 2, |l: int| g(j, l)) + g(
                j,
                n - 2,
            ));
        }
        sum_ext(n - 1, full, |j: int| shorter(j) + edge(j));
        sum_add(n - 1, shorter, edge);
        sum_scale(n - 1, -1, edge);
        sum_ext(n - 1, last, |l: int| -1 * edge(l));
        assert(full(n - 1) == int_sum(n - 1, last)) by {
            sum_ext(n - 1, |l: int| g(n - 1, l), last);
        }
    }
}

} // verus!
