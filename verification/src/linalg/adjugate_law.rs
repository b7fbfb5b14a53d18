//! The adjugate of a matrix of three rows inverts it up to its determinant.

use crate::linalg::dense::{adjugate3, determinant3, minor, sum_products};
use crate::linalg::ring::{
    commutative_ring, ring_associates, ring_commutes, ring_distributes, ring_exchange, ring_minus,
    ring_negated, ring_plus,
};
use crate::linalg::scalar::Scalar;
use vstd::prelude::*;

verus! {

/// The product of a row and a column of matrices of three rows.
pub open spec fn product3<T: Scalar>(
    a: spec_fn(int, int) -> T,
    b: spec_fn(int, int) -> T,
    i: int,
    j: int,
) -> T {
    sum_products(|k: int| a(i, k), |k: int| b(k, j), 3)
}

/// The adjugate as a matrix.
pub open spec fn adjugate<T: Scalar>(m: spec_fn(int, int) -> T) -> spec_fn(int, int) -> T {
    |i: int, j: int| adjugate3(m, i, j)
}

/// Three factors in any order.
proof fn lemma_orders<T: Scalar>(a: T, b: T, c: T)
    requires
        commutative_ring::<T>(),
    ensures
        a.times_spec(c).times_spec(b) == a.times_spec(b).times_spec(c),
        b.times_spec(a).times_spec(c) == a.times_spec(b).times_spec(c),
        b.times_spec(c).times_spec(a) == a.times_spec(b).times_spec(c),
        c.times_spec(a).times_spec(b) == a.times_spec(b).times_spec(c),
        c.times_spec(b).times_spec(a) == a.times_spec(b).times_spec(c),
{
    ring_associates(a, b, c);
    ring_associates(a, c, b);
    ring_commutes(b, c);
    ring_commutes(a, b);
    ring_commutes(a, c);
    ring_commutes(a, b.times_spec(c));
}

/// Three summands in any order.
proof fn lemma_sums<T: Scalar>(a: T, b: T, c: T)
    requires
        commutative_ring::<T>(),
    ensures
        a.plus_spec(c).plus_spec(b) == a.plus_spec(b).plus_spec(c),
        b.plus_spec(a).plus_spec(c) == a.plus_spec(b).plus_spec(c),
        b.plus_spec(c).plus_spec(a) == a.plus_spec(b).plus_spec(c),
        c.plus_spec(a).plus_spec(b) == a.plus_spec(b).plus_spec(c),
        c.plus_spec(b).plus_spec(a) == a.plus_spec(b).plus_spec(c),
{
    ring_plus(a, b, c);
    ring_plus(a, c, b);
    ring_plus(b, c, a);
    ring_plus(b, a, c);
    ring_plus(c, a, b);
    ring_plus(a, b.plus_spec(c), a);
}

/// A difference times a factor, with what is taken off put back.
proof fn lemma_difference<T: Scalar>(p: T, n: T, z: T)
    requires
        commutative_ring::<T>(),
    ensures
        p.minus_spec(n).times_spec(z).plus_spec(n.times_spec(z)) == p.times_spec(z),
        p.minus_spec(n).negated_spec() == n.minus_spec(p),
{
    ring_minus(p, n);
    ring_distributes(z, p.minus_spec(n), n);
    // (n - p) + (p - n) is zero.
    let d = p.minus_spec(n);
    let e = n.minus_spec(p);
    ring_minus(n, p);
    ring_negated(d, d);
    ring_plus(e, d, n);
    ring_plus(d, n, n);
    assert(e.plus_spec(d).plus_spec(n) == n);
    ring_minus(e.plus_spec(d), n);
    ring_minus(T::zero_spec(), n);
    ring_plus(n, n, n);
    assert(e.plus_spec(d) == T::zero_spec());
    ring_minus(e, d);
    ring_minus(d.negated_spec(), d);
}

/// Adding the same to two values and getting the same makes them equal.
proof fn lemma_cancels<T: Scalar>(a: T, b: T, c: T)
    requires
        commutative_ring::<T>(),
        a.plus_spec(c) == b.plus_spec(c),
    ensures
        a == b,
{
    ring_minus(a, c);
    ring_minus(b, c);
}

/// The products that are added in a term `(x * y - u * v) * z`.
spec fn added<T: Scalar>(term: (T, T, T, T, T)) -> T {
    term.0.times_spec(term.1).times_spec(term.4)
}

/// The products that are taken off in a term `(x * y - u * v) * z`.
spec fn taken<T: Scalar>(term: (T, T, T, T, T)) -> T {
    term.2.times_spec(term.3).times_spec(term.4)
}

spec fn term_value<T: Scalar>(term: (T, T, T, T, T)) -> T {
    term.0.times_spec(term.1).minus_spec(term.2.times_spec(term.3)).times_spec(term.4)
}

spec fn three_terms<T: Scalar>(
    a: (T, T, T, T, T),
    b: (T, T, T, T, T),
    c: (T, T, T, T, T),
) -> T {
    T::zero_spec().plus_spec(term_value(a)).plus_spec(term_value(b)).plus_spec(term_value(c))
}

/// The sum of three terms, with what is taken off put back; in any order.
proof fn lemma_three<T: Scalar>(
    a: (T, T, T, T, T),
    b: (T, T, T, T, T),
    c: (T, T, T, T, T),
)
    requires
        commutative_ring::<T>(),
    ensures
        three_terms(a, b, c).plus_spec(taken(a).plus_spec(taken(b)).plus_spec(taken(c))) == added(
            a,
        ).plus_spec(added(b)).plus_spec(added(c)),
{
    let x = term_value(a);
    let y = term_value(b);
    let z = term_value(c);
    lemma_difference(a.0.times_spec(a.1), a.2.times_spec(a.3), a.4);
    lemma_difference(b.0.times_spec(b.1), b.2.times_spec(b.3), b.4);
    lemma_difference(c.0.times_spec(c.1), c.2.times_spec(c.3), c.4);
    ring_plus(x, T::zero_spec(), T::zero_spec());
    ring_exchange(x.plus_spec(y), z, taken(a).plus_spec(taken(b)), taken(c));
    ring_exchange(x, y, taken(a), taken(b));
}

/// The determinant with what is taken off put back.
proof fn lemma_determinant<T: Scalar>(m: spec_fn(int, int) -> T)
    requires
        commutative_ring::<T>(),
    ensures
        ({
            let one = m(0, 0).times_spec(m(1, 1)).times_spec(m(2, 2));
            let two = m(0, 1).times_spec(m(1, 2)).times_spec(m(2, 0));
            let three = m(0, 2).times_spec(m(1, 0)).times_spec(m(2, 1));
            let four = m(0, 0).times_spec(m(1, 2)).times_spec(m(2, 1));
            let five = m(0, 1).times_spec(m(1, 0)).times_spec(m(2, 2));
            let six = m(0, 2).times_spec(m(1, 1)).times_spec(m(2, 0));
            determinant3(m).plus_spec(four.plus_spec(five).plus_spec(six)) == one.plus_spec(
                two,
            ).plus_spec(three)
        }),
{
    let m00 = m(0, 0);
    let m01 = m(0, 1);
    let m02 = m(0, 2);
    let m10 = m(1, 0);
    let m11 = m(1, 1);
    let m12 = m(1, 2);
    let m20 = m(2, 0);
    let m21 = m(2, 1);
    let m22 = m(2, 2);
    let first = minor(m, 1, 2, 1, 2);
    let second = minor(m, 1, 2, 0, 2);
    let third = minor(m, 1, 2, 0, 1);
    // The second minor with the opposite sign.
    let opposite = m20.times_spec(m12).minus_spec(m10.times_spec(m22));
    lemma_difference(m10.times_spec(m22), m20.times_spec(m12), m01);
    ring_negated(second, m01);
    ring_commutes(m00, first);
    ring_commutes(m01, second);
    ring_commutes(m02, third);
    let a = m00.times_spec(first);
    let b = m01.times_spec(second);
    // a - b == a + (-b)
    let n = b.negated_spec();
    assert(n == opposite.times_spec(m01));
    ring_minus(a, b);
    ring_negated(b, b);
    ring_plus(a, n, b);
    ring_plus(a, a, a);
    lemma_cancels(a.minus_spec(b), a.plus_spec(n), b);
    ring_plus(a, a, a);
    lemma_orders(m00, m11, m22);
    lemma_orders(m00, m12, m21);
    lemma_orders(m01, m12, m20);
    lemma_orders(m01, m10, m22);
    lemma_orders(m02, m10, m21);
    lemma_orders(m02, m11, m20);
    lemma_three(
        (m11, m22, m21, m12, m00),
        (m20, m12, m10, m22, m01),
        (m10, m21, m20, m11, m02),
    );
}

/// The adjugate times the matrix is the determinant on the diagonal.
pub proof fn adjugate_times_matrix<T: Scalar>(m: spec_fn(int, int) -> T, i: int, j: int)
    requires
        commutative_ring::<T>(),
        0 <= i < 3,
        0 <= j < 3,
    ensures
        product3(adjugate(m), m, i, j) == (if i == j {
            determinant3(m)
        } else {
            T::zero_spec()
        }),
{
    let m00 = m(0, 0);
    let m01 = m(0, 1);
    let m02 = m(0, 2);
    let m10 = m(1, 0);
    let m11 = m(1, 1);
    let m12 = m(1, 2);
    let m20 = m(2, 0);
    let m21 = m(2, 1);
    let m22 = m(2, 2);
    let z = T::zero_spec();
    let value = product3(adjugate(m), m, i, j);
    let left = |k: int| adjugate(m)(i, k);
    let right = |k: int| m(k, j);
    reveal_with_fuel(sum_products, 4);
    assert(value == z.plus_spec(left(0).times_spec(right(0))).plus_spec(
        left(1).times_spec(right(1)),
    ).plus_spec(left(2).times_spec(right(2))));
    ring_commutes(left(0), right(0));
    ring_commutes(left(1), right(1));
    ring_commutes(left(2), right(2));
    lemma_determinant(m);
    // The one entry that is written with a sign.
    lemma_difference(m10.times_spec(m22), m20.times_spec(m12), z);
    let det = determinant3(m);
    let one = m00.times_spec(m11).times_spec(m22);
    let two = m01.times_spec(m12).times_spec(m20);
    let three = m02.times_spec(m10).times_spec(m21);
    let four = m00.times_spec(m12).times_spec(m21);
    let five = m01.times_spec(m10).times_spec(m22);
    let six = m02.times_spec(m11).times_spec(m20);
    lemma_sums(one, two, three);
    lemma_sums(four, five, six);
    if i == 0 && j == 0 {
        lemma_orders(m00, m11, m22);
        lemma_orders(m00, m12, m21);
        lemma_orders(m02, m10, m21);
        lemma_orders(m01, m10, m22);
        lemma_orders(m01, m12, m20);
        lemma_orders(m02, m11, m20);
        lemma_three(
            (m11, m22, m21, m12, m00),
            (m02, m21, m22, m01, m10),
            (m01, m12, m11, m02, m20),
        );
        lemma_cancels(value, det, four.plus_spec(five).plus_spec(six));
    } else if i == 0 && j == 1 {
        lemma_orders(m01, m11, m22);
        lemma_orders(m01, m12, m21);
        lemma_orders(m02, m11, m21);
        lemma_three(
            (m11, m22, m21, m12, m01),
            (m02, m21, m22, m01, m11),
            (m01, m12, m11, m02, m21),
        );
        let a = m21.times_spec(m12).times_spec(m01);
        let b = m22.times_spec(m01).times_spec(m11);
        let c = m11.times_spec(m02).times_spec(m21);
        let all = a.plus_spec(b).plus_spec(c);
        lemma_sums(a, b, c);
        ring_plus(all, all, all);
        lemma_cancels(value, z, all);
    } else if i == 0 && j == 2 {
        lemma_orders(m02, m11, m22);
        lemma_orders(m02, m12, m21);
        lemma_orders(m01, m12, m22);
        lemma_three(
            (m11, m22, m21, m12, m02),
            (m02, m21, m22, m01, m12),
            (m01, m12, m11, m02, m22),
        );
        let a = m21.times_spec(m12).times_spec(m02);
        let b = m22.times_spec(m01).times_spec(m12);
        let c = m11.times_spec(m02).times_spec(m22);
        let all = a.plus_spec(b).plus_spec(c);
        lemma_sums(a, b, c);
        ring_plus(all, all, all);
        lemma_cancels(value, z, all);
    } else if i == 1 && j == 0 {
        lemma_orders(m00, m12, m20);
        lemma_orders(m00, m10, m22);
        lemma_orders(m02, m10, m20);
        lemma_three(
            (m20, m12, m10, m22, m00),
            (m00, m22, m20, m02, m10),
            (m02, m10, m12, m00, m20),
        );
        let a = m10.times_spec(m22).times_spec(m00);
        let b = m20.times_spec(m02).times_spec(m10);
        let c = m12.times_spec(m00).times_spec(m20);
        let all = a.plus_spec(b).plus_spec(c);
        lemma_sums(a, b, c);
        ring_plus(all, all, all);
        lemma_cancels(value, z, all);
    } else if i == 1 && j == 1 {
        lemma_orders(m01, m12, m20);
        lemma_orders(m01, m10, m22);
        lemma_orders(m00, m11, m22);
        lemma_orders(m02, m11, m20);
        lemma_orders(m02, m10, m21);
        lemma_orders(m00, m12, m21);
        lemma_three(
            (m20, m12, m10, m22, m01),
            (m00, m22, m20, m02, m11),
            (m02, m10, m12, m00, m21),
        );
        lemma_cancels(value, det, four.plus_spec(five).plus_spec(six));
    } else if i == 1 && j == 2 {
        lemma_orders(m02, m12, m20);
        lemma_orders(m02, m10, m22);
        lemma_orders(m00, m12, m22);
        lemma_three(
            (m20, m12, m10, m22, m02),
            (m00, m22, m20, m02, m12),
            (m02, m10, m12, m00, m22),
        );
        let a = m10.times_spec(m22).times_spec(m02);
        let b = m20.times_spec(m02).times_spec(m12);
        let c = m12.times_spec(m00).times_spec(m22);
        let all = a.plus_spec(b).plus_spec(c);
        lemma_sums(a, b, c);
        ring_plus(all, all, all);
        lemma_cancels(value, z, all);
    } else if i == 2 && j == 0 {
        lemma_orders(m00, m10, m21);
        lemma_orders(m00, m11, m20);
        lemma_orders(m01, m10, m20);
        lemma_three(
            (m10, m21, m20, m11, m00),
            (m01, m20, m21, m00, m10),
            (m00, m11, m10, m01, m20),
        );
        let a = m20.times_spec(m11).times_spec(m00);
        let b = m21.times_spec(m00).times_spec(m10);
        let c = m10.times_spec(m01).times_spec(m20);
        let all = a.plus_spec(b).plus_spec(c);
        lemma_sums(a, b, c);
        ring_plus(all, all, all);
        lemma_cancels(value, z, all);
    } else if i == 2 && j == 1 {
        lemma_orders(m01, m10, m21);
        lemma_orders(m01, m11, m20);
        lemma_orders(m00, m11, m21);
        lemma_three(
            (m10, m21, m20, m11, m01),
            (m01, m20, m21, m00, m11),
            (m00, m11, m10, m01, m21),
        );
        let a = m20.times_spec(m11).times_spec(m01);
        let b = m21.times_spec(m00).times_spec(m11);
        let c = m10.times_spec(m01).times_spec(m21);
        let all = a.plus_spec(b).plus_spec(c);
        lemma_sums(a, b, c);
        ring_plus(all, all, all);
        lemma_cancels(value, z, all);
    } else if i == 2 && j == 2 {
        lemma_orders(m02, m10, m21);
        lemma_orders(m02, m11, m20);
        lemma_orders(m01, m12, m20);
        lemma_orders(m00, m12, m21);
        lemma_orders(m00, m11, m22);
        lemma_orders(m01, m10, m22);
        lemma_three(
            (m10, m21, m20, m11, m02),
            (m01, m20, m21, m00, m12),
            (m00, m11, m10, m01, m22),
        );
        lemma_cancels(value, det, four.plus_spec(five).plus_spec(six));
    }
}

/// The matrix times its adjugate is the determinant on the diagonal.
pub proof fn matrix_times_adjugate<T: Scalar>(m: spec_fn(int, int) -> T, i: int, j: int)
    requires
        commutative_ring::<T>(),
        0 <= i < 3,
        0 <= j < 3,
    ensures
        product3(m, adjugate(m), i, j) == (if i == j {
            determinant3(m)
        } else {
            T::zero_spec()
        }),
{
    let m00 = m(0, 0);
    let m01 = m(0, 1);
    let m02 = m(0, 2);
    let m10 = m(1, 0);
    let m11 = m(1, 1);
    let m12 = m(1, 2);
    let m20 = m(2, 0);
    let m21 = m(2, 1);
    let m22 = m(2, 2);
    let z = T::zero_spec();
    let value = product3(m, adjugate(m), i, j);
    let left = |k: int| m(i, k);
    let right = |k: int| adjugate(m)(k, j);
    reveal_with_fuel(sum_products, 4);
    assert(value == z.plus_spec(left(0).times_spec(right(0))).plus_spec(
        left(1).times_spec(right(1)),
    ).plus_spec(left(2).times_spec(right(2))));
    ring_commutes(left(0), right(0));
    ring_commutes(left(1), right(1));
    ring_commutes(left(2), right(2));
    lemma_determinant(m);
    // The one entry that is written with a sign.
    lemma_difference(m10.times_spec(m22), m20.times_spec(m12), z);
    let det = determinant3(m);
    let one = m00.times_spec(m11).times_spec(m22);
    let two = m01.times_spec(m12).times_spec(m20);
    let three = m02.times_spec(m10).times_spec(m21);
    let four = m00.times_spec(m12).times_spec(m21);
    let five = m01.times_spec(m10).times_spec(m22);
    let six = m02.times_spec(m11).times_spec(m20);
    lemma_sums(one, two, three);
    lemma_sums(four, five, six);
    if i == 0 && j == 0 {
        lemma_orders(m00, m11, m22);
        lemma_orders(m00, m12, m21);
        lemma_orders(m01, m12, m20);
        lemma_orders(m01, m10, m22);
        lemma_orders(m02, m10, m21);
        lemma_orders(m02, m11, m20);
        lemma_three(
            (m11, m22, m21, m12, m00),
            (m20, m12, m10, m22, m01),
            (m10, m21, m20, m11, m02),
        );
        lemma_cancels(value, det, four.plus_spec(five).plus_spec(six));
    } else if i == 0 && j == 1 {
        lemma_orders(m00, m02, m21);
        lemma_orders(m00, m01, m22);
        lemma_orders(m01, m02, m20);
        lemma_three(
            (m02, m21, m22, m01, m00),
            (m00, m22, m20, m02, m01),
            (m01, m20, m21, m00, m02),
        );
        let a = m22.times_spec(m01).times_spec(m00);
        let b = m20.times_spec(m02).times_spec(m01);
        let c = m21.times_spec(m00).times_spec(m02);
        let all = a.plus_spec(b).plus_spec(c);
        lemma_sums(a, b, c);
        ring_plus(all, all, all);
        lemma_cancels(value, z, all);
    } else if i == 0 && j == 2 {
        lemma_orders(m00, m01, m12);
        lemma_orders(m00, m02, m11);
        lemma_orders(m01, m02, m10);
        lemma_three(
            (m01, m12, m11, m02, m00),
            (m02, m10, m12, m00, m01),
            (m00, m11, m10, m01, m02),
        );
        let a = m11.times_spec(m02).times_spec(m00);
        let b = m12.times_spec(m00).times_spec(m01);
        let c = m10.times_spec(m01).times_spec(m02);
        let all = a.plus_spec(b).plus_spec(c);
        lemma_sums(a, b, c);
        ring_plus(all, all, all);
        lemma_cancels(value, z, all);
    } else if i == 1 && j == 0 {
        lemma_orders(m10, m11, m22);
        lemma_orders(m10, m12, m21);
        lemma_orders(m11, m12, m20);
        lemma_three(
            (m11, m22, m21, m12, m10),
            (m20, m12, m10, m22, m11),
            (m10, m21, m20, m11, m12),
        );
        let a = m21.times_spec(m12).times_spec(m10);
        let b = m10.times_spec(m22).times_spec(m11);
        let c = m20.times_spec(m11).times_spec(m12);
        let all = a.plus_spec(b).plus_spec(c);
        lemma_sums(a, b, c);
        ring_plus(all, all, all);
        lemma_cancels(value, z, all);
    } else if i == 1 && j == 1 {
        lemma_orders(m02, m10, m21);
        lemma_orders(m01, m10, m22);
        lemma_orders(m00, m11, m22);
        lemma_orders(m02, m11, m20);
        lemma_orders(m01, m12, m20);
        lemma_orders(m00, m12, m21);
        lemma_three(
            (m02, m21, m22, m01, m10),
            (m00, m22, m20, m02, m11),
            (m01, m20, m21, m00, m12),
        );
        lemma_cancels(value, det, four.plus_spec(five).plus_spec(six));
    } else if i == 1 && j == 2 {
        lemma_orders(m01, m10, m12);
        lemma_orders(m02, m10, m11);
        lemma_orders(m00, m11, m12);
        lemma_three(
            (m01, m12, m11, m02, m10),
            (m02, m10, m12, m00, m11),
            (m00, m11, m10, m01, m12),
        );
        let a = m11.times_spec(m02).times_spec(m10);
        let b = m12.times_spec(m00).times_spec(m11);
        let c = m10.times_spec(m01).times_spec(m12);
        let all = a.plus_spec(b).plus_spec(c);
        lemma_sums(a, b, c);
        ring_plus(all, all, all);
        lemma_cancels(value, z, all);
    } else if i == 2 && j == 0 {
        lemma_orders(m11, m20, m22);
        lemma_orders(m12, m20, m21);
        lemma_orders(m10, m21, m22);
        lemma_three(
            (m11, m22, m21, m12, m20),
            (m20, m12, m10, m22, m21),
            (m10, m21, m20, m11, m22),
        );
        let a = m21.times_spec(m12).times_spec(m20);
        let b = m10.times_spec(m22).times_spec(m21);
        let c = m20.times_spec(m11).times_spec(m22);
        let all = a.plus_spec(b).plus_spec(c);
        lemma_sums(a, b, c);
        ring_plus(all, all, all);
        lemma_cancels(value, z, all);
    } else if i == 2 && j == 1 {
        lemma_orders(m02, m20, m21);
        lemma_orders(m01, m20, m22);
        lemma_orders(m00, m21, m22);
        lemma_three(
            (m02, m21, m22, m01, m20),
            (m00, m22, m20, m02, m21),
            (m01, m20, m21, m00, m22),
        );
        let a = m22.times_spec(m01).times_spec(m20);
        let b = m20.times_spec(m02).times_spec(m21);
        let c = m21.times_spec(m00).times_spec(m22);
        let all = a.plus_spec(b).plus_spec(c);
        lemma_sums(a, b, c);
        ring_plus(all, all, all);
        lemma_cancels(value, z, all);
    } else if i == 2 && j == 2 {
        lemma_orders(m01, m12, m20);
        lemma_orders(m02, m11, m20);
        lemma_orders(m02, m10, m21);
        lemma_orders(m00, m12, m21);
        lemma_orders(m00, m11, m22);
        lemma_orders(m01, m10, m22);
        lemma_three(
            (m01, m12, m11, m02, m20),
            (m02, m10, m12, m00, m21),
            (m00, m11, m10, m01, m22),
        );
        lemma_cancels(value, det, four.plus_spec(five).plus_spec(six));
    }
}

} // verus!
