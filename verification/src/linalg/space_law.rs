//! Forms of space on vectors, and the vectors that stand for them.

use crate::linalg::matrix_law::{ring_opposite_of_sum, ring_subtracts};
use crate::linalg::ring::{commutative_ring, ring_negated, ring_plus};
use crate::linalg::scalar::Scalar;
use crate::linalg::vec3::{cross3_spec, dot3_spec};
use vstd::prelude::*;

verus! {

/// The value of a one-form on a vector.
pub open spec fn form_on_vector<T: Scalar>(coeffs: Seq<T>, a: Seq<T>) -> T {
    coeffs[0].times_spec(a[0]).plus_spec(coeffs[1].times_spec(a[1])).plus_spec(
        coeffs[2].times_spec(a[2]),
    )
}

/// The area, with its sign, of the shadow of a parallelogram on the plane of two axes.
pub open spec fn plane_area<T: Scalar>(a: Seq<T>, b: Seq<T>, i: int, j: int) -> T {
    a[i].times_spec(b[j]).minus_spec(a[j].times_spec(b[i]))
}

/// The value of a two-form, with coefficients for the planes 01, 02 and 12, on two vectors.
pub open spec fn form_on_pair<T: Scalar>(coeffs: Seq<T>, a: Seq<T>, b: Seq<T>) -> T {
    coeffs[0].times_spec(plane_area(a, b, 0, 1)).plus_spec(
        coeffs[1].times_spec(plane_area(a, b, 0, 2)),
    ).plus_spec(coeffs[2].times_spec(plane_area(a, b, 1, 2)))
}

/// `b - a` is the opposite of `a - b`.
pub proof fn ring_opposite_of_difference<T: Scalar>(a: T, b: T)
    requires
        commutative_ring::<T>(),
    ensures
        a.minus_spec(b).negated_spec() == b.minus_spec(a),
{
    let (n, m) = (a.negated_spec(), b.negated_spec());
    ring_subtracts(a, b);
    ring_subtracts(b, a);
    ring_opposite_of_sum(a, m);
    ring_negated(b, b);
    ring_plus(n, b, b);
}

/// The components of the vector that stands for a two-form make the form the flux of the vector
/// through parallelograms.
pub(crate) proof fn lemma_flux_through_parallelogram<T: Scalar>(
    v: Seq<T>,
    coeffs: Seq<T>,
    a: Seq<T>,
    b: Seq<T>,
)
    requires
        commutative_ring::<T>(),
        v[0] == coeffs[2],
        v[1] == coeffs[1].negated_spec(),
        v[2] == coeffs[0],
    ensures
        form_on_pair(coeffs, a, b) == dot3_spec(v, cross3_spec(a, b)),
{
    let (x, y) = (a[0].times_spec(b[2]), a[2].times_spec(b[0]));
    let c = coeffs[1];
    let d = x.minus_spec(y);
    ring_opposite_of_difference(x, y);
    ring_negated(d, c);
    ring_negated(c, d.negated_spec());
    ring_negated(c.times_spec(d), c);
    let p = coeffs[0].times_spec(plane_area(a, b, 0, 1));
    let q = c.times_spec(d);
    let r = coeffs[2].times_spec(plane_area(a, b, 1, 2));
    assert(v[1].times_spec(y.minus_spec(x)) == q);
    ring_plus(p, q, r);
    ring_plus(r, q, p);
    ring_plus(q, r, p);
    ring_plus(p, q.plus_spec(r), p);
}

} // verus!
