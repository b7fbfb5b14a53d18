//! Sums of products of exact coefficients.

use crate::linalg::dense::{sum_products, sum_products_same};
use crate::linalg::ring::{
    commutative_ring, ring_associates, ring_commutes, ring_distributes, ring_exchange, ring_plus,
    ring_units,
};
use crate::linalg::scalar::Scalar;
use vstd::prelude::*;

verus! {

/// The factors can be exchanged.
pub proof fn products_commute<T: Scalar>(f: spec_fn(int) -> T, g: spec_fn(int) -> T, n: int)
    requires
        commutative_ring::<T>(),
    ensures
        sum_products(f, g, n) == sum_products(g, f, n),
    decreases n,
{
    if n > 0 {
        products_commute(f, g, n - 1);
        ring_commutes(f(n - 1), g(n - 1));
    }
}

/// A sum of products whose first factors are themselves sums.
pub proof fn products_of_sums<T: Scalar>(
    f: spec_fn(int) -> T,
    h: spec_fn(int) -> T,
    g: spec_fn(int) -> T,
    n: int,
)
    requires
        commutative_ring::<T>(),
    ensures
        sum_products(|k: int| f(k).plus_spec(h(k)), g, n) == sum_products(f, g, n).plus_spec(
            sum_products(h, g, n),
        ),
    decreases n,
{
    let both = |k: int| f(k).plus_spec(h(k));
    if n <= 0 {
        ring_plus(T::zero_spec(), T::zero_spec(), T::zero_spec());
    } else {
        products_of_sums(f, h, g, n - 1);
        ring_distributes(g(n - 1), f(n - 1), h(n - 1));
        ring_exchange(
            sum_products(f, g, n - 1),
            sum_products(h, g, n - 1),
            f(n - 1).times_spec(g(n - 1)),
            h(n - 1).times_spec(g(n - 1)),
        );
    }
}

/// A common factor of the first terms comes out of a sum of products.
pub proof fn products_scaled<T: Scalar>(
    c: T,
    f: spec_fn(int) -> T,
    g: spec_fn(int) -> T,
    n: int,
)
    requires
        commutative_ring::<T>(),
    ensures
        sum_products(|k: int| f(k).times_spec(c), g, n) == c.times_spec(sum_products(f, g, n)),
    decreases n,
{
    if n <= 0 {
        ring_units(c);
    } else {
        products_scaled(c, f, g, n - 1);
        let x = f(n - 1);
        let y = g(n - 1);
        ring_commutes(x, c);
        ring_associates(c, x, y);
        ring_distributes(c, sum_products(f, g, n - 1), x.times_spec(y));
    }
}

/// The order of two sums can be exchanged.
pub proof fn products_swapped<T: Scalar>(
    a: spec_fn(int) -> T,
    m: spec_fn(int, int) -> T,
    b: spec_fn(int) -> T,
    n: int,
    k: int,
)
    requires
        commutative_ring::<T>(),
    ensures
        sum_products(|i: int| sum_products(a, |l: int| m(i, l), k), b, n) == sum_products(
            a,
            |l: int| sum_products(|i: int| m(i, l), b, n),
            k,
        ),
    decreases k,
{
    let rows = |i: int| sum_products(a, |l: int| m(i, l), k);
    let cols = |l: int| sum_products(|i: int| m(i, l), b, n);
    if k <= 0 {
        products_with_zeros(rows, b, n);
    } else {
        products_swapped(a, m, b, n, k - 1);
        let less = |i: int| sum_products(a, |l: int| m(i, l), k - 1);
        let last = |i: int| m(i, k - 1).times_spec(a(k - 1));
        let both = |i: int| less(i).plus_spec(last(i));
        assert forall|i: int| 0 <= i < n implies #[trigger] rows(i) == both(i) by {
            ring_commutes(a(k - 1), m(i, k - 1));
        }
        sum_products_same(rows, b, both, b, n);
        products_of_sums(less, last, b, n);
        products_scaled(a(k - 1), |i: int| m(i, k - 1), b, n);
        sum_products_same(
            last,
            b,
            |i: int| (|i: int| m(i, k - 1))(i).times_spec(a(k - 1)),
            b,
            n,
        );
    }
}

/// Terms with a factor zero add up to zero.
pub proof fn products_with_zeros<T: Scalar>(f: spec_fn(int) -> T, g: spec_fn(int) -> T, n: int)
    requires
        commutative_ring::<T>(),
        forall|i: int| 0 <= i < n ==> #[trigger] f(i) == T::zero_spec(),
    ensures
        sum_products(f, g, n) == T::zero_spec(),
    decreases n,
{
    if n > 0 {
        products_with_zeros(f, g, n - 1);
        assert(f(n - 1) == T::zero_spec());
        ring_units(g(n - 1));
        ring_plus(T::zero_spec(), T::zero_spec(), T::zero_spec());
    }
}

/// The product with a column of the unit matrix.
pub proof fn products_with_unit<T: Scalar>(f: spec_fn(int) -> T, scale: T, at: int, n: int)
    requires
        commutative_ring::<T>(),
    ensures
        sum_products(
            f,
            |k: int|
                if k == at {
                    scale
                } else {
                    T::zero_spec()
                },
            n,
        ) == (if 0 <= at < n {
            f(at).times_spec(scale)
        } else {
            T::zero_spec()
        }),
    decreases n,
{
    let z = T::zero_spec();
    if n > 0 {
        products_with_unit(f, scale, at, n - 1);
        ring_units(f(n - 1));
        ring_plus(f(at).times_spec(scale), z, z);
        ring_plus(z, z, z);
    }
}

} // verus!
