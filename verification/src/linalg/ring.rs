//! Laws of sparse matrices over coefficients that compute exactly.

use crate::linalg::algebra::row_dot;
use crate::linalg::csr::{combined, compresses};
use crate::linalg::scalar::sum;
use crate::linalg::scalar::Scalar;
use crate::linalg::sparse::{triplets_within, values_at};
use vstd::prelude::*;

verus! {

/// Addition is associative and commutative with zero as neutral element.
pub open spec fn exact_addition<T: Scalar>() -> bool {
    &&& forall|a: T, b: T, c: T| #[trigger]
        a.plus_spec(b).plus_spec(c) == a.plus_spec(b.plus_spec(c))
    &&& forall|a: T, b: T| #[trigger] a.plus_spec(b) == b.plus_spec(a)
    &&& forall|a: T| #[trigger] a.plus_spec(T::zero_spec()) == a
}

/// Addition is exact and multiplication distributes over it.
pub open spec fn exact_ring<T: Scalar>() -> bool {
    &&& exact_addition::<T>()
    &&& forall|a: T, b: T, x: T| #[trigger]
        a.plus_spec(b).times_spec(x) == a.times_spec(x).plus_spec(b.times_spec(x))
    &&& forall|x: T| #[trigger] T::zero_spec().times_spec(x) == T::zero_spec()
}

/// A coefficient minus itself is zero.
pub open spec fn exact_difference<T: Scalar>() -> bool {
    forall|a: T| #[trigger] a.minus_spec(a) == T::zero_spec()
}

/// Multiplication is commutative.
#[verifier::opaque]
pub open spec fn times_commutes<T: Scalar>() -> bool {
    forall|a: T, b: T| #[trigger] a.times_spec(b) == b.times_spec(a)
}

/// Multiplication is associative.
#[verifier::opaque]
pub open spec fn times_associates<T: Scalar>() -> bool {
    forall|a: T, b: T, c: T| #[trigger]
        a.times_spec(b).times_spec(c) == a.times_spec(b.times_spec(c))
}

/// One is neutral, and two is one and one.
#[verifier::opaque]
pub open spec fn has_unit<T: Scalar>() -> bool {
    &&& forall|a: T| #[trigger] T::one_spec().times_spec(a) == a
    &&& T::from_count_spec(2) == T::one_spec().plus_spec(T::one_spec())
}

/// Subtraction and addition undo one another, and opposites add up to zero.
#[verifier::opaque]
pub open spec fn exact_subtraction<T: Scalar>() -> bool {
    &&& forall|a: T, b: T| #[trigger] a.minus_spec(b).plus_spec(b) == a
    &&& forall|a: T, b: T| #[trigger] a.plus_spec(b).minus_spec(b) == a
    &&& forall|a: T| #[trigger] a.negated_spec().plus_spec(a) == T::zero_spec()
}

/// Sums are exact and multiplication distributes over them.
#[verifier::opaque]
pub open spec fn exact_sums<T: Scalar>() -> bool {
    exact_ring::<T>()
}

/// Coefficients form a commutative ring.
pub open spec fn commutative_ring<T: Scalar>() -> bool {
    &&& exact_sums::<T>()
    &&& times_commutes::<T>()
    &&& times_associates::<T>()
    &&& has_unit::<T>()
    &&& exact_subtraction::<T>()
}

pub proof fn ring_is_exact<T: Scalar>()
    requires
        commutative_ring::<T>(),
    ensures
        exact_ring::<T>(),
{
    reveal(exact_sums);
}

pub proof fn ring_two<T: Scalar>()
    requires
        commutative_ring::<T>(),
    ensures
        T::from_count_spec(2) == T::one_spec().plus_spec(T::one_spec()),
{
    reveal(has_unit);
}

pub proof fn ring_plus<T: Scalar>(a: T, b: T, c: T)
    requires
        commutative_ring::<T>(),
    ensures
        a.plus_spec(b) == b.plus_spec(a),
        a.plus_spec(b).plus_spec(c) == a.plus_spec(b.plus_spec(c)),
        a.plus_spec(T::zero_spec()) == a,
        T::zero_spec().plus_spec(a) == a,
{
    reveal(exact_sums);
    assert(T::zero_spec().plus_spec(a) == a.plus_spec(T::zero_spec()));
}

pub proof fn ring_commutes<T: Scalar>(a: T, b: T)
    requires
        commutative_ring::<T>(),
    ensures
        a.times_spec(b) == b.times_spec(a),
{
    reveal(times_commutes);
}

pub proof fn ring_associates<T: Scalar>(a: T, b: T, c: T)
    requires
        commutative_ring::<T>(),
    ensures
        a.times_spec(b).times_spec(c) == a.times_spec(b.times_spec(c)),
{
    reveal(times_associates);
}

/// Products with one and with zero.
pub proof fn ring_units<T: Scalar>(a: T)
    requires
        commutative_ring::<T>(),
    ensures
        T::one_spec().times_spec(a) == a,
        a.times_spec(T::one_spec()) == a,
        T::zero_spec().times_spec(a) == T::zero_spec(),
        a.times_spec(T::zero_spec()) == T::zero_spec(),
{
    ring_commutes(a, T::zero_spec());
    ring_commutes(a, T::one_spec());
    assert(T::one_spec().times_spec(a) == a) by {
        reveal(has_unit);
    }
    assert(T::zero_spec().times_spec(a) == T::zero_spec()) by {
        reveal(exact_sums);
    }
}

pub proof fn ring_distributes<T: Scalar>(a: T, b: T, c: T)
    requires
        commutative_ring::<T>(),
    ensures
        a.times_spec(b.plus_spec(c)) == a.times_spec(b).plus_spec(a.times_spec(c)),
        b.plus_spec(c).times_spec(a) == b.times_spec(a).plus_spec(c.times_spec(a)),
{
    assert(b.plus_spec(c).times_spec(a) == b.times_spec(a).plus_spec(c.times_spec(a))) by {
        reveal(exact_sums);
    }
    ring_commutes(a, b.plus_spec(c));
    ring_commutes(a, b);
    ring_commutes(a, c);
}

/// Subtraction undoes addition.
pub proof fn ring_minus<T: Scalar>(a: T, b: T)
    requires
        commutative_ring::<T>(),
    ensures
        a.minus_spec(b).plus_spec(b) == a,
        a.plus_spec(b).minus_spec(b) == a,
{
    reveal(exact_subtraction);
}

/// Two coefficients that add up to zero with a third are equal.
proof fn lemma_opposite_unique<T: Scalar>(a: T, b: T, c: T)
    requires
        commutative_ring::<T>(),
        a.plus_spec(c) == T::zero_spec(),
        b.plus_spec(c) == T::zero_spec(),
    ensures
        a == b,
{
    ring_minus(a, c);
    ring_minus(b, c);
}

/// The sign of a factor is the sign of the product.
pub proof fn ring_negated<T: Scalar>(a: T, b: T)
    requires
        commutative_ring::<T>(),
    ensures
        a.negated_spec().plus_spec(a) == T::zero_spec(),
        a.negated_spec().times_spec(b) == a.times_spec(b).negated_spec(),
        b.times_spec(a.negated_spec()) == b.times_spec(a).negated_spec(),
        a.negated_spec().negated_spec() == a,
{
    let n = a.negated_spec();
    let p = a.times_spec(b);
    assert(n.plus_spec(a) == T::zero_spec() && p.negated_spec().plus_spec(p) == T::zero_spec()
        && n.negated_spec().plus_spec(n) == T::zero_spec()) by {
        reveal(exact_subtraction);
    }
    ring_distributes(b, n, a);
    ring_units(b);
    lemma_opposite_unique(n.times_spec(b), p.negated_spec(), p);
    ring_commutes(b, n);
    ring_commutes(a, b);
    ring_plus(a, n, n);
    lemma_opposite_unique(n.negated_spec(), a, n);
}

/// `(a + b) + (c + d) == (a + c) + (b + d)`.
pub proof fn ring_exchange<T: Scalar>(a: T, b: T, c: T, d: T)
    requires
        commutative_ring::<T>(),
    ensures
        a.plus_spec(b).plus_spec(c.plus_spec(d)) == a.plus_spec(c).plus_spec(b.plus_spec(d)),
{
    let cd = c.plus_spec(d);
    let bd = b.plus_spec(d);
    ring_plus(a, b, cd);
    ring_plus(b, c, d);
    ring_plus(c, b, d);
    ring_plus(a, c, bd);
}

/// `a * (t * b) == t * (a * b)`.
pub proof fn ring_moves<T: Scalar>(a: T, t: T, b: T)
    requires
        commutative_ring::<T>(),
    ensures
        a.times_spec(t.times_spec(b)) == t.times_spec(a.times_spec(b)),
        t.times_spec(a).times_spec(b) == t.times_spec(a.times_spec(b)),
{
    ring_associates(a, t, b);
    ring_commutes(a, t);
    ring_associates(t, a, b);
}

/// The size of the range of machine integers.
pub open spec fn word() -> int {
    0x1_0000_0000_0000_0000
}

/// Both integers have the same remainder modulo the range of machine integers.
pub open spec fn same_word(x: int, y: int) -> bool {
    exists|k: int| x - y == #[trigger] (k * word())
}

proof fn lemma_same_word_witness(x: int, y: int, k: int)
    requires
        x - y == k * word(),
    ensures
        same_word(x, y),
{
}

proof fn lemma_same_word_equal(x: i64, y: i64)
    requires
        same_word(x as int, y as int),
    ensures
        x == y,
{
    let k = choose|k: int| x - y == #[trigger] (k * word());
    assert(k == 0) by (nonlinear_arith)
        requires
            x - y == k * 0x1_0000_0000_0000_0000,
            -0x8000_0000_0000_0000 <= x <= 0x7fff_ffff_ffff_ffff,
            -0x8000_0000_0000_0000 <= y <= 0x7fff_ffff_ffff_ffff,
    ;
}

proof fn lemma_same_word_symmetric(x: int, y: int)
    requires
        same_word(x, y),
    ensures
        same_word(y, x),
{
    let k = choose|k: int| x - y == #[trigger] (k * word());
    assert(y - x == (-k) * word());
    lemma_same_word_witness(y, x, -k);
}

proof fn lemma_same_word_transitive(x: int, y: int, z: int)
    requires
        same_word(x, y),
        same_word(y, z),
    ensures
        same_word(x, z),
{
    let k = choose|k: int| x - y == #[trigger] (k * word());
    let l = choose|l: int| y - z == #[trigger] (l * word());
    assert((k + l) * word() == k * word() + l * word());
    lemma_same_word_witness(x, z, k + l);
}

proof fn lemma_same_word_sum(x: int, y: int, a: int, b: int)
    requires
        same_word(x, y),
        same_word(a, b),
    ensures
        same_word(x + a, y + b),
{
    let k = choose|k: int| x - y == #[trigger] (k * word());
    let l = choose|l: int| a - b == #[trigger] (l * word());
    assert((k + l) * word() == k * word() + l * word());
    lemma_same_word_witness(x + a, y + b, k + l);
}

proof fn lemma_same_word_product(x: int, y: int, c: int)
    requires
        same_word(x, y),
    ensures
        same_word(x * c, y * c),
{
    let k = choose|k: int| x - y == #[trigger] (k * word());
    assert(x * c - y * c == (k * c) * word()) by (nonlinear_arith)
        requires
            x - y == k * word(),
    ;
    lemma_same_word_witness(x * c, y * c, k * c);
}

proof fn lemma_plus_word(a: i64, b: i64)
    ensures
        same_word(a.plus_spec(b) as int, a + b),
{
    let s = a.plus_spec(b) as int;
    if a + b > i64::MAX {
        lemma_same_word_witness(s, a + b, -1);
    } else if a + b < i64::MIN {
        lemma_same_word_witness(s, a + b, 1);
    } else {
        lemma_same_word_witness(s, a + b, 0);
    }
}

proof fn lemma_times_word(a: i64, b: i64)
    ensures
        same_word(a.times_spec(b) as int, a * b),
{
    let p = a * b;
    let m = p % word();
    let q = p / word();
    vstd::arithmetic::div_mod::lemma_fundamental_div_mod(p, word());
    assert(p == word() * q + m);
    let s = a.times_spec(b) as int;
    assert(0 <= m < word());
    if m > i64::MAX {
        assert(s == m - word());
        assert(s - p == (-q - 1) * word()) by (nonlinear_arith)
            requires
                s == m - word(),
                p == word() * q + m,
        ;
        lemma_same_word_witness(s, p, -q - 1);
    } else {
        assert(s - p == (-q) * word()) by (nonlinear_arith)
            requires
                s == m,
                p == word() * q + m,
        ;
        lemma_same_word_witness(s, p, -q);
    }
}

/// Machine integers with arithmetic modulo their range compute exactly.
pub proof fn machine_integers_are_exact()
    ensures
        exact_ring::<i64>(),
        exact_difference::<i64>(),
{
    assert forall|a: i64, b: i64, c: i64| #[trigger]
        a.plus_spec(b).plus_spec(c) == a.plus_spec(b.plus_spec(c)) by {
        lemma_plus_word(a, b);
        lemma_plus_word(a.plus_spec(b), c);
        lemma_plus_word(b, c);
        lemma_plus_word(a, b.plus_spec(c));
        lemma_same_word_witness(c as int, c as int, 0);
        lemma_same_word_witness(a as int, a as int, 0);
        lemma_same_word_sum(a.plus_spec(b) as int, a + b, c as int, c as int);
        lemma_same_word_sum(a as int, a as int, b.plus_spec(c) as int, b + c);
        lemma_same_word_transitive(
            a.plus_spec(b).plus_spec(c) as int,
            a.plus_spec(b) + c,
            a + b + c,
        );
        lemma_same_word_transitive(
            a.plus_spec(b.plus_spec(c)) as int,
            a + b.plus_spec(c),
            a + (b + c),
        );
        lemma_same_word_symmetric(a.plus_spec(b.plus_spec(c)) as int, a + b + c);
        lemma_same_word_transitive(
            a.plus_spec(b).plus_spec(c) as int,
            a + b + c,
            a.plus_spec(b.plus_spec(c)) as int,
        );
        lemma_same_word_equal(a.plus_spec(b).plus_spec(c), a.plus_spec(b.plus_spec(c)));
    }
    assert forall|a: i64, b: i64, x: i64| #[trigger]
        a.plus_spec(b).times_spec(x) == a.times_spec(x).plus_spec(b.times_spec(x)) by {
        let lhs = a.plus_spec(b).times_spec(x);
        let rhs = a.times_spec(x).plus_spec(b.times_spec(x));
        let middle = (a + b) * x;
        lemma_plus_word(a, b);
        lemma_times_word(a.plus_spec(b), x);
        lemma_same_word_product(a.plus_spec(b) as int, a + b, x as int);
        lemma_same_word_transitive(lhs as int, a.plus_spec(b) * x, middle);
        lemma_times_word(a, x);
        lemma_times_word(b, x);
        lemma_plus_word(a.times_spec(x), b.times_spec(x));
        lemma_same_word_sum(a.times_spec(x) as int, a * x, b.times_spec(x) as int, b * x);
        assert(a * x + b * x == middle) by (nonlinear_arith)
            requires
                middle == (a + b) * x,
        ;
        lemma_same_word_transitive(rhs as int, a.times_spec(x) + b.times_spec(x), middle);
        lemma_same_word_symmetric(rhs as int, middle);
        lemma_same_word_transitive(lhs as int, middle, rhs as int);
        lemma_same_word_equal(lhs, rhs);
    }
    assert forall|x: i64| #[trigger] i64::zero_spec().times_spec(x) == i64::zero_spec() by {
        assert(0i64 * x == 0) by (nonlinear_arith);
    }
}

proof fn lemma_minus_word(a: i64, b: i64)
    ensures
        same_word(a.minus_spec(b) as int, a - b),
{
    let s = a.minus_spec(b) as int;
    if a - b > i64::MAX {
        lemma_same_word_witness(s, a - b, -1);
    } else if a - b < i64::MIN {
        lemma_same_word_witness(s, a - b, 1);
    } else {
        lemma_same_word_witness(s, a - b, 0);
    }
}

proof fn lemma_times_commutes()
    ensures
        times_commutes::<i64>(),
{
    reveal(times_commutes);
    assert forall|a: i64, b: i64| #[trigger] a.times_spec(b) == b.times_spec(a) by {
        assert(a * b == b * a) by (nonlinear_arith);
    }
}

proof fn lemma_times_associates(a: i64, b: i64, c: i64)
    ensures
        a.times_spec(b).times_spec(c) == a.times_spec(b.times_spec(c)),
{
    let lhs = a.times_spec(b).times_spec(c);
    let rhs = a.times_spec(b.times_spec(c));
    let all = a * b * c;
    lemma_times_word(a, b);
    lemma_times_word(a.times_spec(b), c);
    lemma_same_word_product(a.times_spec(b) as int, a * b, c as int);
    lemma_same_word_transitive(lhs as int, a.times_spec(b) * c, all);
    lemma_times_word(b, c);
    lemma_times_word(a, b.times_spec(c));
    let bc = b.times_spec(c) as int;
    lemma_same_word_product(bc, b * c, a as int);
    assert(bc * a == a * bc) by (nonlinear_arith);
    assert((b * c) * a == a * b * c) by (nonlinear_arith);
    lemma_same_word_transitive(rhs as int, a * bc, all);
    lemma_same_word_symmetric(rhs as int, all);
    lemma_same_word_transitive(lhs as int, all, rhs as int);
    lemma_same_word_equal(lhs, rhs);
}

proof fn lemma_subtraction(a: i64, b: i64)
    ensures
        a.minus_spec(b).plus_spec(b) == a,
        a.plus_spec(b).minus_spec(b) == a,
{
    lemma_minus_word(a, b);
    lemma_plus_word(a.minus_spec(b), b);
    lemma_same_word_witness(b as int, b as int, 0);
    lemma_same_word_sum(a.minus_spec(b) as int, a - b, b as int, b as int);
    lemma_same_word_transitive(
        a.minus_spec(b).plus_spec(b) as int,
        a.minus_spec(b) + b,
        a as int,
    );
    lemma_same_word_equal(a.minus_spec(b).plus_spec(b), a);
    lemma_plus_word(a, b);
    lemma_minus_word(a.plus_spec(b), b);
    lemma_same_word_witness(-b, -b, 0);
    lemma_same_word_sum(a.plus_spec(b) as int, a + b, -b, -b);
    lemma_same_word_transitive(
        a.plus_spec(b).minus_spec(b) as int,
        a.plus_spec(b) - b,
        a as int,
    );
    lemma_same_word_equal(a.plus_spec(b).minus_spec(b), a);
}

/// Machine integers with arithmetic modulo their range are a commutative ring.
pub proof fn machine_integers_are_a_ring()
    ensures
        commutative_ring::<i64>(),
{
    assert(exact_sums::<i64>()) by {
        reveal(exact_sums);
        machine_integers_are_exact();
    }
    lemma_times_commutes();
    assert(times_associates::<i64>()) by {
        reveal(times_associates);
        assert forall|a: i64, b: i64, c: i64| #[trigger]
            a.times_spec(b).times_spec(c) == a.times_spec(b.times_spec(c)) by {
            lemma_times_associates(a, b, c);
        }
    }
    assert(has_unit::<i64>()) by {
        reveal(has_unit);
        assert forall|a: i64| #[trigger] i64::one_spec().times_spec(a) == a by {
            assert(1i64 * a == a) by (nonlinear_arith);
        }
    }
    assert(exact_subtraction::<i64>()) by {
        reveal(exact_subtraction);
        assert forall|a: i64, b: i64| #[trigger] a.minus_spec(b).plus_spec(b) == a by {
            lemma_subtraction(a, b);
        }
        assert forall|a: i64, b: i64| #[trigger] a.plus_spec(b).minus_spec(b) == a by {
            lemma_subtraction(a, b);
        }
        assert(forall|a: i64| #[trigger] a.negated_spec().plus_spec(a) == i64::zero_spec());
    }
}

/// `f(0) + ... + f(n - 1)`.
pub open spec fn scalar_sum<T: Scalar>(n: int, f: spec_fn(int) -> T) -> T
    decreases n,
{
    if n <= 0 {
        T::zero_spec()
    } else {
        scalar_sum(n - 1, f).plus_spec(f(n - 1))
    }
}

/// Zeros add up to zero.
pub proof fn scalar_sum_zero<T: Scalar>(n: int, f: spec_fn(int) -> T)
    requires
        exact_addition::<T>(),
        forall|i: int| 0 <= i < n ==> #[trigger] f(i) == T::zero_spec(),
    ensures
        scalar_sum(n, f) == T::zero_spec(),
    decreases n,
{
    if n > 0 {
        scalar_sum_zero(n - 1, f);
        assert(f(n - 1) == T::zero_spec());
        assert(scalar_sum(n - 1, f).plus_spec(T::zero_spec()) == scalar_sum(n - 1, f));
    }
}

/// A sum depends on its terms only.
pub proof fn scalar_sum_same<T: Scalar>(n: int, f: spec_fn(int) -> T, g: spec_fn(int) -> T)
    requires
        forall|i: int| 0 <= i < n ==> #[trigger] f(i) == g(i),
    ensures
        scalar_sum(n, f) == scalar_sum(n, g),
    decreases n,
{
    if n > 0 {
        scalar_sum_same(n - 1, f, g);
        assert(f(n - 1) == g(n - 1));
    }
}

/// Sums are added term by term.
pub proof fn scalar_sum_plus<T: Scalar>(n: int, f: spec_fn(int) -> T, g: spec_fn(int) -> T)
    requires
        exact_addition::<T>(),
    ensures
        scalar_sum(n, |k: int| f(k).plus_spec(g(k))) == scalar_sum(n, f).plus_spec(
            scalar_sum(n, g),
        ),
    decreases n,
{
    let z = T::zero_spec();
    if n <= 0 {
        assert(z.plus_spec(z) == z);
    } else {
        scalar_sum_plus(n - 1, f, g);
        let a = scalar_sum(n - 1, f);
        let b = scalar_sum(n - 1, g);
        let x = f(n - 1);
        let y = g(n - 1);
        // (a + b) + (x + y) == (a + x) + (b + y)
        assert(a.plus_spec(b).plus_spec(x.plus_spec(y)) == a.plus_spec(
            b.plus_spec(x.plus_spec(y)),
        ));
        assert(b.plus_spec(x).plus_spec(y) == b.plus_spec(x.plus_spec(y)));
        assert(x.plus_spec(b).plus_spec(y) == x.plus_spec(b.plus_spec(y)));
        assert(b.plus_spec(x) == x.plus_spec(b));
        assert(a.plus_spec(x).plus_spec(b.plus_spec(y)) == a.plus_spec(
            x.plus_spec(b.plus_spec(y)),
        ));
    }
}

/// The order of two sums does not matter.
pub proof fn scalar_sum_swap<T: Scalar>(h: int, w: int, g: spec_fn(int, int) -> T)
    requires
        exact_addition::<T>(),
    ensures
        scalar_sum(h, |a: int| scalar_sum(w, |b: int| g(a, b))) == scalar_sum(
            w,
            |b: int| scalar_sum(h, |a: int| g(a, b)),
        ),
    decreases h,
{
    let rows = |a: int| scalar_sum(w, |b: int| g(a, b));
    let cols = |b: int| scalar_sum(h, |a: int| g(a, b));
    if h <= 0 {
        scalar_sum_zero(w, cols);
    } else {
        scalar_sum_swap(h - 1, w, g);
        let less = |b: int| scalar_sum(h - 1, |a: int| g(a, b));
        let last = |b: int| g(h - 1, b);
        scalar_sum_same(w, cols, |b: int| less(b).plus_spec(last(b)));
        scalar_sum_plus(w, less, last);
    }
}

/// In a ring sums are added term by term.
pub proof fn ring_sum_plus<T: Scalar>(n: int, f: spec_fn(int) -> T, g: spec_fn(int) -> T)
    requires
        commutative_ring::<T>(),
    ensures
        scalar_sum(n, |k: int| f(k).plus_spec(g(k))) == scalar_sum(n, f).plus_spec(
            scalar_sum(n, g),
        ),
{
    ring_is_exact::<T>();
    scalar_sum_plus(n, f, g);
}

/// In a ring the order of two sums does not matter.
pub proof fn ring_sum_swap<T: Scalar>(h: int, w: int, g: spec_fn(int, int) -> T)
    requires
        commutative_ring::<T>(),
    ensures
        scalar_sum(h, |a: int| scalar_sum(w, |b: int| g(a, b))) == scalar_sum(
            w,
            |b: int| scalar_sum(h, |a: int| g(a, b)),
        ),
{
    ring_is_exact::<T>();
    scalar_sum_swap(h, w, g);
}

/// In a ring zeros add up to zero.
pub proof fn ring_sum_zero<T: Scalar>(n: int, f: spec_fn(int) -> T)
    requires
        commutative_ring::<T>(),
        forall|i: int| 0 <= i < n ==> #[trigger] f(i) == T::zero_spec(),
    ensures
        scalar_sum(n, f) == T::zero_spec(),
{
    ring_is_exact::<T>();
    scalar_sum_zero(n, f);
}

/// A factor of all terms is a factor of the sum.
pub proof fn scalar_sum_scaled<T: Scalar>(n: int, c: T, f: spec_fn(int) -> T)
    requires
        commutative_ring::<T>(),
    ensures
        scalar_sum(n, |k: int| c.times_spec(f(k))) == c.times_spec(scalar_sum(n, f)),
    decreases n,
{
    if n > 0 {
        scalar_sum_scaled(n - 1, c, f);
        ring_distributes(c, scalar_sum(n - 1, f), f(n - 1));
    } else {
        ring_units(c);
    }
}

/// Adding to one term adds to the sum.
proof fn lemma_scalar_sum_bump<T: Scalar>(
    n: int,
    f: spec_fn(int) -> T,
    g: spec_fn(int) -> T,
    at: int,
    d: T,
)
    requires
        exact_addition::<T>(),
        0 <= at < n,
        forall|i: int| 0 <= i < n && i != at ==> #[trigger] g(i) == f(i),
        g(at) == f(at).plus_spec(d),
    ensures
        scalar_sum(n, g) == scalar_sum(n, f).plus_spec(d),
    decreases n,
{
    let rest = scalar_sum(n - 1, f);
    if at == n - 1 {
        scalar_sum_same(n - 1, g, f);
        assert(rest.plus_spec(f(at)).plus_spec(d) == rest.plus_spec(f(at).plus_spec(d)));
    } else {
        lemma_scalar_sum_bump(n - 1, f, g, at, d);
        let last = f(n - 1);
        assert(g(n - 1) == last);
        assert(rest.plus_spec(d).plus_spec(last) == rest.plus_spec(d.plus_spec(last)));
        assert(d.plus_spec(last) == last.plus_spec(d));
        assert(rest.plus_spec(last).plus_spec(d) == rest.plus_spec(last.plus_spec(d)));
    }
}

/// The sum with one more value.
pub proof fn sum_of_push<T: Scalar>(values: Seq<T>, v: T)
    requires
        exact_addition::<T>(),
    ensures
        sum(values.push(v)) == sum(values).plus_spec(v),
{
    assert(values.push(v).drop_last() =~= values);
    if values.len() == 0 {
        assert(v.plus_spec(T::zero_spec()) == v);
        assert(T::zero_spec().plus_spec(v) == v.plus_spec(T::zero_spec()));
        assert(sum(values) == T::zero_spec());
    }
}

/// With exact coefficients a row times a vector is the sum over the columns of matrix value
/// times vector value.
pub proof fn row_dot_by_columns<T: Scalar>(
    entries: Seq<(usize, usize, T)>,
    nrows: int,
    ncols: int,
    x: Seq<T>,
    r: int,
)
    requires
        exact_ring::<T>(),
        triplets_within(entries, nrows, ncols),
    ensures
        row_dot(entries, x, r) == scalar_sum(
            ncols,
            |c: int| sum(values_at(entries, r, c)).times_spec(x[c]),
        ),
    decreases entries.len(),
{
    let g = |c: int| sum(values_at(entries, r, c)).times_spec(x[c]);
    if entries.len() == 0 {
        assert forall|c: int| 0 <= c < ncols implies #[trigger] g(c) == T::zero_spec() by {
            assert(sum(values_at(entries, r, c)) == T::zero_spec());
            assert(T::zero_spec().times_spec(x[c]) == T::zero_spec());
        }
        scalar_sum_zero(ncols, g);
    } else {
        let front = entries.drop_last();
        let (row, col, v) = entries.last();
        assert(entries[entries.len() - 1] == (row, col, v));
        assert forall|i: int| 0 <= i < front.len() implies (#[trigger] front[i]).0 < nrows
            && front[i].1 < ncols by {
            assert(front[i] == entries[i]);
        }
        row_dot_by_columns(front, nrows, ncols, x, r);
        let f = |c: int| sum(values_at(front, r, c)).times_spec(x[c]);
        if row == r {
            let at = col as int;
            let before = values_at(front, r, at);
            sum_of_push(before, v);
            assert(g(at) == f(at).plus_spec(v.times_spec(x[at]))) by {
                assert(values_at(entries, r, at) == before.push(v));
                assert(sum(before).plus_spec(v).times_spec(x[at]) == sum(before).times_spec(
                    x[at],
                ).plus_spec(v.times_spec(x[at])));
            }
            lemma_scalar_sum_bump(ncols, f, g, at, v.times_spec(x[at]));
        } else {
            scalar_sum_same(ncols, g, f);
        }
    }
}

/// With exact coefficients, compressing a matrix does not change its product with a vector.
pub proof fn compressing_keeps_products<T: Scalar>(
    triplets: Seq<(usize, usize, T)>,
    entries: Seq<(usize, usize, T)>,
    nrows: int,
    ncols: int,
    x: Seq<T>,
    r: int,
)
    requires
        exact_ring::<T>(),
        triplets_within(triplets, nrows, ncols),
        triplets_within(entries, nrows, ncols),
        compresses(entries, triplets),
    ensures
        row_dot(entries, x, r) == row_dot(triplets, x, r),
{
    row_dot_by_columns(triplets, nrows, ncols, x, r);
    row_dot_by_columns(entries, nrows, ncols, x, r);
    let f = |c: int| sum(values_at(entries, r, c)).times_spec(x[c]);
    let g = |c: int| sum(values_at(triplets, r, c)).times_spec(x[c]);
    assert forall|c: int| 0 <= c < ncols implies #[trigger] f(c) == g(c) by {
        assert(values_at(entries, r, c) == combined(values_at(triplets, r, c)));
        assert(sum(combined(values_at(triplets, r, c))) == sum(values_at(triplets, r, c)));
    }
    scalar_sum_same(ncols, f, g);
}

} // verus!
