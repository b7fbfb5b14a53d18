//! What the Schur complements of mixed systems eliminate.

use crate::assemble::symmetry_law::only_zero_is_zero;
use crate::linalg::action_law::{
    front_within, push_within, row_of_diagonal, row_of_nonzero_multiple,
};
use crate::linalg::algebra::{
    inverted_spec, matrix_times, product_terms, row_dot, row_total, scaled_nonzero,
};
use crate::linalg::csr::compressed;
use crate::linalg::matrix_law::{
    ones, ring_cancels, row_compressed, row_of_both, row_of_product, row_of_sum, row_same,
    row_total_of_ones,
};
use crate::linalg::ring::{
    commutative_ring, ring_associates, ring_distributes, ring_minus, ring_negated, ring_plus,
    ring_units,
};
use crate::linalg::scalar::Scalar;
use crate::linalg::sparse::triplets_within;
use crate::linalg::vectors::sum_of;
use crate::problems::hodge_operators::laplacian_entries;
use crate::problems::lumped_law::{inverted_diagonal_is_inverse, invertible};
use crate::problems::reduced_linear::{
    first_block_inverse, inverse_diagonal, schur_complement, schur_entries, schur_rhs, window,
    zeros_of,
};
use vstd::prelude::*;

verus! {

/// The opposite values.
pub open spec fn opposite_of<T: Scalar>(x: Seq<T>) -> Seq<T> {
    Seq::new(x.len(), |i: int| x[i].negated_spec())
}

/// What a Schur complement does to a vector: what its first matrix does, and what the second
/// matrix makes of the opposite of what the inverse makes of the third.
pub proof fn schur_complement_acts<T: Scalar>(
    k: Seq<(usize, usize, T)>,
    a21: Seq<(usize, usize, T)>,
    inverse: Seq<(usize, usize, T)>,
    a12: Seq<(usize, usize, T)>,
    nu: nat,
    ns: nat,
    x: Seq<T>,
    i: int,
)
    requires
        commutative_ring::<T>(),
        only_zero_is_zero::<T>(),
        triplets_within(k, nu as int, nu as int),
        triplets_within(a21, nu as int, ns as int),
        triplets_within(inverse, ns as int, ns as int),
        triplets_within(a12, ns as int, nu as int),
    ensures
        row_dot(schur_complement(k, a21, inverse, a12), x, i) == row_dot(k, x, i).plus_spec(
            row_dot(
                a21,
                matrix_times(inverse, ns, opposite_of(matrix_times(a12, ns, x))),
                i,
            ),
        ),
        triplets_within(schur_complement(k, a21, inverse, a12), nu as int, nu as int),
{
    let (u, s) = (nu as int, ns as int);
    let minus_one = T::one_spec().negated_spec();
    let first = product_terms(a21, inverse);
    let neg = scaled_nonzero(a12, minus_one);
    let y = matrix_times(neg, ns, x);
    row_of_nonzero_multiple(a12, minus_one, s, u, x, i);
    row_of_product(a21, inverse, u, ns, s, y, i);
    row_compressed(first, u, s, y, i);
    let terms = product_terms(compressed(first), neg);
    row_of_product(compressed(first), neg, u, ns, u, x, i);
    row_compressed(terms, u, u, x, i);
    row_of_both(k, compressed(terms), u, u, x, i);
    let w = opposite_of(matrix_times(a12, ns, x));
    assert forall|r: int| 0 <= r < s implies #[trigger] y[r] == w[r] by {
        row_of_nonzero_multiple(a12, minus_one, s, u, x, r);
        let v = row_dot(a12, x, r);
        ring_negated(T::one_spec(), v);
        ring_units(v);
    }
    assert(y =~= w);
}

/// A row of a window, on the columns of the window.
proof fn lemma_window_row<T: Scalar>(
    entries: Seq<(usize, usize, T)>,
    rows: (int, int),
    cols: (int, int),
    n: int,
    x: Seq<T>,
    y: Seq<T>,
    i: int,
)
    requires
        commutative_ring::<T>(),
        triplets_within(entries, n, n),
        0 <= rows.0 <= rows.1 <= n,
        0 <= cols.0 <= cols.1 <= n,
        n <= usize::MAX,
        0 <= i < rows.1 - rows.0,
        forall|c: int| cols.0 <= c < cols.1 ==> #[trigger] y[c] == x[c - cols.0],
        forall|c: int| 0 <= c < n && !(cols.0 <= c < cols.1) ==> #[trigger] y[c] == T::zero_spec(),
    ensures
        row_dot(window(entries, rows, cols), x, i) == row_dot(entries, y, rows.0 + i),
        triplets_within(window(entries, rows, cols), rows.1 - rows.0, cols.1 - cols.0),
    decreases entries.len(),
{
    if entries.len() > 0 {
        let front = entries.drop_last();
        let (r, c, v) = entries.last();
        front_within(entries, n, n);
        lemma_window_row(front, rows, cols, n, x, y, i);
        let before = window(front, rows, cols);
        ring_units(v);
        ring_plus(row_dot(before, x, i), v, v);
        if rows.0 <= r < rows.1 && cols.0 <= c < cols.1 {
            push_within(
                before,
                ((r - rows.0) as usize, (c - cols.0) as usize, v),
                rows.1 - rows.0,
                cols.1 - cols.0,
            );
            assert(y[c as int] == x[c - cols.0]);
        } else if r == rows.0 + i {
            assert(y[c as int] == T::zero_spec());
        }
    }
}

/// The sum of a row over the columns of the first unknown.
pub open spec fn first_lumped<T: Scalar>(
    mixed: Seq<(usize, usize, T)>,
    s: nat,
    u: nat,
    r: int,
) -> T {
    row_dot(mixed, ones::<T>(s) + zeros_of(u), r)
}

/// The first unknown solves the first equations of a mixed system, where the row sums stand for
/// the first block.
pub open spec fn solves_first_lumped<T: Scalar>(
    mixed: Seq<(usize, usize, T)>,
    rhs: Seq<T>,
    sigma: Seq<T>,
    x: Seq<T>,
) -> bool {
    forall|r: int|
        0 <= r < sigma.len() ==> first_lumped(mixed, sigma.len(), x.len(), r).times_spec(
            #[trigger] sigma[r],
        ).plus_spec(row_dot(mixed, zeros_of::<T>(sigma.len()) + x, r)) == rhs[r]
}

/// The row sums of the first block can be inverted.
pub open spec fn first_invertible<T: Scalar>(
    mixed: Seq<(usize, usize, T)>,
    s: nat,
    u: nat,
) -> bool {
    forall|r: int| 0 <= r < s ==> invertible(#[trigger] first_lumped(mixed, s, u, r))
}

/// An equation of the second unknown alone holds just where the equation of the mixed system
/// holds for both unknowns.
pub open spec fn second_equation_agrees<T: Scalar>(
    mixed: Seq<(usize, usize, T)>,
    rhs: Seq<T>,
    matrix: Seq<(usize, usize, T)>,
    values: Seq<T>,
    sigma: Seq<T>,
    x: Seq<T>,
    i: int,
) -> bool {
    row_dot(matrix, x, i) == values[i] <==> row_dot(mixed, sigma + x, sigma.len() + i)
        == rhs[sigma.len() + i]
}

/// The system of the second unknown alone has the solutions of the mixed one, where the first
/// unknown is eliminated by row sums.
pub open spec fn eliminates_first<T: Scalar>(
    mixed: Seq<(usize, usize, T)>,
    rhs: Seq<T>,
    matrix: Seq<(usize, usize, T)>,
    values: Seq<T>,
    s: nat,
    u: nat,
) -> bool {
    forall|sigma: Seq<T>, x: Seq<T>, i: int|
        sigma.len() == s && x.len() == u && 0 <= i < u && solves_first_lumped(mixed, rhs, sigma, x)
            ==> #[trigger] second_equation_agrees(mixed, rhs, matrix, values, sigma, x, i)
}

/// `k + b == f - (a + b')` just where `k + a' == f`, with the parts of the first unknown.
proof fn lemma_moved_over<T: Scalar>(k: T, whole: T, part: T, rest: T, f: T)
    requires
        commutative_ring::<T>(),
        whole == part.plus_spec(rest),
    ensures
        k.plus_spec(rest) == f.minus_spec(part) <==> whole.plus_spec(k) == f,
{
    ring_minus(f, part);
    // (k + rest) + part == whole + k
    ring_plus(k, rest, part);
    ring_plus(rest, part, part);
    ring_plus(k, whole, whole);
    if whole.plus_spec(k) == f {
        ring_cancels(k.plus_spec(rest), f.minus_spec(part), part);
    }
}

/// Over coefficients that compute exactly, where the row sums of the first block can be
/// inverted, the Schur complement with its right-hand side eliminates the first unknown.
pub proof fn schur_system_eliminates<T: Scalar>(
    mixed: Seq<(usize, usize, T)>,
    rhs: Seq<T>,
    s: nat,
    u: nat,
)
    requires
        commutative_ring::<T>(),
        only_zero_is_zero::<T>(),
        s + u <= usize::MAX,
        triplets_within(mixed, (s + u) as int, (s + u) as int),
        s + u <= rhs.len(),
        first_invertible(mixed, s, u),
    ensures
        eliminates_first(
            mixed,
            rhs,
            schur_entries(mixed, s as int, u as int),
            schur_rhs(mixed, rhs, s as int, u as int),
            s,
            u,
        ),
{
    let matrix = schur_entries(mixed, s as int, u as int);
    let values = schur_rhs(mixed, rhs, s as int, u as int);
    assert forall|sigma: Seq<T>, x: Seq<T>, i: int|
        sigma.len() == s && x.len() == u && 0 <= i < u && solves_first_lumped(
            mixed,
            rhs,
            sigma,
            x,
        ) implies #[trigger] second_equation_agrees(mixed, rhs, matrix, values, sigma, x, i) by {
        lemma_second_equation(mixed, rhs, sigma, x, i);
    }
}

proof fn lemma_first_diagonal<T: Scalar>(
    mixed: Seq<(usize, usize, T)>,
    s: nat,
    u: nat,
    y: Seq<T>,
    r: int,
)
    requires
        commutative_ring::<T>(),
        only_zero_is_zero::<T>(),
        s + u <= usize::MAX,
        triplets_within(mixed, (s + u) as int, (s + u) as int),
        first_invertible(mixed, s, u),
        0 <= r < s,
    ensures
        first_lumped(mixed, s, u, r).times_spec(
            row_dot(first_block_inverse(mixed, s as int), y, r),
        ) == y[r],
        row_dot(first_block_inverse(mixed, s as int), y, r) == inverted_spec(
            first_lumped(mixed, s, u, r),
        ).times_spec(y[r]),
        triplets_within(first_block_inverse(mixed, s as int), s as int, s as int),
{
    let n = (s + u) as int;
    let si = s as int;
    let block = window(mixed, (0, si), (0, si));
    let all = ones::<T>(s) + zeros_of(u);
    lemma_window_row(mixed, (0, si), (0, si), n, ones(s), all, r);
    row_compressed(block, si, si, ones(s), r);
    row_total_of_ones(compressed(block), si, s, r);
    let mass = compressed(block);
    let listed = Seq::new(s, |r: int| row_total(mass, r));
    assert(inverse_diagonal(listed) == first_block_inverse(mixed, si));
    let inverses = Seq::new(listed.len(), |i: int| inverted_spec(listed[i]));
    row_of_diagonal(inverses, y, r);
    let v = first_lumped(mixed, s, u, r);
    inverted_diagonal_is_inverse(v);
    ring_associates(v, inverted_spec(v), y[r]);
    ring_units(y[r]);
}

proof fn lemma_second_equation<T: Scalar>(
    mixed: Seq<(usize, usize, T)>,
    rhs: Seq<T>,
    sigma: Seq<T>,
    x: Seq<T>,
    i: int,
)
    requires
        commutative_ring::<T>(),
        only_zero_is_zero::<T>(),
        sigma.len() + x.len() <= usize::MAX,
        triplets_within(mixed, (sigma.len() + x.len()) as int, (sigma.len() + x.len()) as int),
        sigma.len() + x.len() <= rhs.len(),
        first_invertible(mixed, sigma.len(), x.len()),
        solves_first_lumped(mixed, rhs, sigma, x),
        0 <= i < x.len(),
    ensures
        second_equation_agrees(
            mixed,
            rhs,
            schur_entries(mixed, sigma.len() as int, x.len() as int),
            schur_rhs(mixed, rhs, sigma.len() as int, x.len() as int),
            sigma,
            x,
            i,
        ),
{
    let (ns, nu) = (sigma.len(), x.len());
    let (s, u) = (ns as int, nu as int);
    let n = s + u;
    let k = compressed(window(mixed, (s, n), (s, n)));
    let low = zeros_of::<T>(ns) + x;
    let high = sigma + zeros_of(nu);
    lemma_window_row(mixed, (s, n), (s, n), n, x, low, i);
    row_compressed(window(mixed, (s, n), (s, n)), u, u, x, i);
    if s == 0 {
        assert(low =~= sigma + x);
    } else {
        let a21 = compressed(window(mixed, (s, n), (0, s)));
        let a12 = compressed(window(mixed, (0, s), (s, n)));
        let inverse = first_block_inverse(mixed, s);
        lemma_window_row(mixed, (s, n), (0, s), n, sigma, high, i);
        row_compressed(window(mixed, (s, n), (0, s)), u, s, sigma, i);
        lemma_window_row(mixed, (0, s), (s, n), n, x, low, 0);
        row_compressed(window(mixed, (0, s), (s, n)), s, u, x, 0);
        lemma_first_diagonal(mixed, ns, nu, sigma, 0);
        schur_complement_acts(k, a21, inverse, a12, nu, ns, x, i);
        let f = rhs.subrange(0, s);
        let w = opposite_of(matrix_times(a12, ns, x));
        let (p, q) = (matrix_times(inverse, ns, f), matrix_times(inverse, ns, w));
        assert forall|r: int| 0 <= r < s implies #[trigger] sum_of(p, q)[r] == sigma[r] by {
            let v = first_lumped(mixed, ns, nu, r);
            let e = inverted_spec(v);
            lemma_first_diagonal(mixed, ns, nu, f, r);
            lemma_first_diagonal(mixed, ns, nu, w, r);
            lemma_window_row(mixed, (0, s), (s, n), n, x, low, r);
            row_compressed(window(mixed, (0, s), (s, n)), s, u, x, r);
            let g = row_dot(mixed, low, r);
            // v sigma + g == f, so f - g == v sigma
            ring_distributes(e, f[r], w[r]);
            let vs = v.times_spec(sigma[r]);
            assert(vs.plus_spec(g) == f[r]);
            ring_negated(g, g);
            ring_plus(vs, g, g.negated_spec());
            ring_plus(g, g.negated_spec(), g);
            ring_plus(vs, T::zero_spec(), g);
            inverted_diagonal_is_inverse(v);
            ring_associates(e, v, sigma[r]);
            ring_units(sigma[r]);
        }
        row_of_sum(a21, u, p, q, i);
        row_same(a21, u, s, sum_of(p, q), sigma, i);
        row_of_sum(mixed, n, high, low, s + i);
        assert forall|c: int| 0 <= c < n implies sum_of(high, low)[c] == (sigma + x)[c] by {
            ring_plus(high[c], low[c], low[c]);
            ring_plus(low[c], T::zero_spec(), low[c]);
        }
        assert(sum_of(high, low) =~= sigma + x);
        lemma_moved_over(
            row_dot(k, x, i),
            row_dot(a21, sigma, i),
            row_dot(a21, p, i),
            row_dot(a21, q, i),
            rhs[s + i],
        );
        assert(schur_rhs(mixed, rhs, s, u)[i] == rhs[s + i].minus_spec(row_dot(a21, p, i)));
    }
}

/// The Laplacian of forms is the second row of the mixed matrix without the first unknown: what
/// it makes of a form is what the mixed matrix makes of that form together with the first unknown
/// that the inverse of the first block has for it.
pub proof fn laplacian_eliminates_the_first_unknown<T: Scalar>(
    mixed: Seq<(usize, usize, T)>,
    lower: Seq<(usize, usize, T)>,
    sigma: Seq<T>,
    x: Seq<T>,
    i: int,
)
    requires
        commutative_ring::<T>(),
        only_zero_is_zero::<T>(),
        sigma.len() + x.len() <= usize::MAX,
        triplets_within(mixed, (sigma.len() + x.len()) as int, (sigma.len() + x.len()) as int),
        triplets_within(lower, sigma.len() as int, sigma.len() as int),
        sigma == matrix_times(
            lower,
            sigma.len(),
            opposite_of(matrix_times(mixed, sigma.len(), zeros_of::<T>(sigma.len()) + x)),
        ),
        0 <= i < x.len(),
    ensures
        row_dot(laplacian_entries(mixed, lower, sigma.len() as int, x.len() as int), x, i)
            == row_dot(mixed, sigma + x, sigma.len() + i),
{
    let (ns, nu) = (sigma.len(), x.len());
    let (s, u) = (ns as int, nu as int);
    let n = s + u;
    let k = compressed(window(mixed, (s, n), (s, n)));
    let low = zeros_of::<T>(ns) + x;
    let high = sigma + zeros_of(nu);
    lemma_window_row(mixed, (s, n), (s, n), n, x, low, i);
    row_compressed(window(mixed, (s, n), (s, n)), u, u, x, i);
    if s == 0 {
        assert(low =~= sigma + x);
    } else {
        let a21 = compressed(window(mixed, (s, n), (0, s)));
        let a12 = compressed(window(mixed, (0, s), (s, n)));
        lemma_window_row(mixed, (s, n), (0, s), n, sigma, high, i);
        row_compressed(window(mixed, (s, n), (0, s)), u, s, sigma, i);
        let (w, v) = (matrix_times(a12, ns, x), matrix_times(mixed, ns, low));
        assert forall|r: int| 0 <= r < s implies #[trigger] w[r] == v[r] by {
            lemma_window_row(mixed, (0, s), (s, n), n, x, low, r);
            row_compressed(window(mixed, (0, s), (s, n)), s, u, x, r);
        }
        assert(w =~= v);
        lemma_window_row(mixed, (0, s), (s, n), n, x, low, 0);
        row_compressed(window(mixed, (0, s), (s, n)), s, u, x, 0);
        schur_complement_acts(k, a21, lower, a12, nu, ns, x, i);
        row_of_sum(mixed, n, high, low, s + i);
        assert forall|c: int| 0 <= c < n implies sum_of(high, low)[c] == (sigma + x)[c] by {
            ring_plus(high[c], low[c], low[c]);
            ring_plus(low[c], T::zero_spec(), low[c]);
        }
        assert(sum_of(high, low) =~= sigma + x);
        ring_plus(row_dot(k, x, i), row_dot(a21, sigma, i), T::zero_spec());
    }
}

} // verus!
