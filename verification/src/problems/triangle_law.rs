//! What the measures and the shape functions of triangles are.

use crate::assemble::reconstruction_law::divides_exactly;
use crate::io::fields::MeshCoords;
use crate::linalg::algebra::magnitude_spec;
use crate::linalg::matrix_law::{
    ring_difference_of_sums, ring_scales_difference, ring_subtracts,
};
use crate::linalg::ring::{
    commutative_ring, ring_associates, ring_commutes, ring_distributes, ring_exchange, ring_minus,
    ring_negated, ring_plus, ring_two, ring_units,
};
use crate::linalg::scalar::Scalar;
use crate::linalg::space_law::{plane_area, ring_opposite_of_difference};
use crate::problems::flux_elements::FluxElement;
use crate::problems::nonlinear_magnetostatic::{is_triangle, TriangleElement};
use crate::problems::step_law::quotient_is_product;
use vstd::prelude::*;

verus! {

/// From one point of a mesh to another.
pub open spec fn displacement<T: Scalar>(coords: MeshCoords<T>, from: usize, to: usize) -> Seq<T> {
    Seq::new(
        2,
        |axis: int|
            coords.coords@[to as int]@[axis].minus_spec(coords.coords@[from as int]@[axis]),
    )
}

/// The area, with its sign, of the parallelogram on two edges of a triangle.
pub open spec fn parallelogram<T: Scalar>(coords: MeshCoords<T>, v: Seq<usize>) -> T {
    plane_area(displacement(coords, v[0], v[1]), displacement(coords, v[0], v[2]), 0, 1)
}

/// The value of an affine function at a point of the plane.
pub open spec fn affine_value<T: Scalar>(point: Seq<T>, a: T, b: T, c: T) -> T {
    a.times_spec(point[0]).plus_spec(b.times_spec(point[1])).plus_spec(c)
}

/// A state that has the values of an affine function at the corners of a triangle.
pub open spec fn affine_on<T: Scalar>(
    state: Seq<T>,
    coords: MeshCoords<T>,
    v: Seq<usize>,
    a: T,
    b: T,
    c: T,
) -> bool {
    forall|i: int|
        0 <= i < v.len() ==> state[(#[trigger] v[i]) as int] == affine_value(
            coords.coords@[v[i] as int]@,
            a,
            b,
            c,
        )
}

/// The triangle covers half of the parallelogram on its edges.
pub open spec fn covers_half<T: Scalar>(
    triangle: TriangleElement<T>,
    coords: MeshCoords<T>,
    v: Seq<usize>,
) -> bool {
    triangle.element.measure.plus_spec(triangle.element.measure) == magnitude_spec(
        parallelogram(coords, v),
    )
}

/// The flux of an affine function is its gradient.
pub open spec fn differentiates<T: Scalar>(
    element: FluxElement<T>,
    coords: MeshCoords<T>,
    v: Seq<usize>,
) -> bool {
    forall|state: Seq<T>, a: T, b: T, c: T| #[trigger]
        affine_on(state, coords, v, a, b, c) ==> element.flux_spec(state, 2) == seq![a, b]
}

/// The barycenter is as far from the origin, three times over, as the corners together.
pub open spec fn balances_corners<T: Scalar>(
    triangle: TriangleElement<T>,
    coords: MeshCoords<T>,
    v: Seq<usize>,
) -> bool {
    forall|axis: int|
        0 <= axis < 2 ==> T::from_count_spec(3).times_spec(#[trigger] triangle.barycenter@[axis])
            == coords.coords@[v[0] as int]@[axis].plus_spec(
            coords.coords@[v[1] as int]@[axis],
        ).plus_spec(coords.coords@[v[2] as int]@[axis])
}

/// All three, where what each divides by has an inverse.
pub open spec fn measures_and_differentiates<T: Scalar>(
    triangle: TriangleElement<T>,
    coords: MeshCoords<T>,
    v: Seq<usize>,
) -> bool {
    &&& divides_exactly(T::from_count_spec(2)) ==> covers_half(triangle, coords, v)
    &&& divides_exactly(parallelogram(coords, v)) ==> differentiates(triangle.element, coords, v)
    &&& divides_exactly(T::from_count_spec(3)) ==> balances_corners(triangle, coords, v)
}

pub(crate) proof fn lemma_halves<T: Scalar>(m: T)
    requires
        commutative_ring::<T>(),
        divides_exactly(T::from_count_spec(2)),
    ensures
        ({
            let half = T::one_spec().over_spec(T::from_count_spec(2)).times_spec(m);
            half.plus_spec(half) == m
        }),
{
    let two = T::from_count_spec(2);
    let h = T::one_spec().over_spec(two);
    let half = h.times_spec(m);
    quotient_is_product(two, T::one_spec());
    ring_two::<T>();
    ring_distributes(half, T::one_spec(), T::one_spec());
    ring_units(half);
    ring_associates(two, h, m);
    ring_units(m);
}

/// Weights that add up to nothing weigh differences only.
proof fn lemma_weights<T: Scalar>(s0: T, s1: T, s2: T, u: T, v: T, w: T)
    requires
        commutative_ring::<T>(),
        u.plus_spec(v).plus_spec(w) == T::zero_spec(),
    ensures
        s0.times_spec(u).plus_spec(s1.times_spec(v)).plus_spec(s2.times_spec(w)) == s1.minus_spec(
            s0,
        ).times_spec(v).plus_spec(s2.minus_spec(s0).times_spec(w)),
{
    let z = T::zero_spec();
    let (d1, d2) = (s1.minus_spec(s0), s2.minus_spec(s0));
    ring_minus(s1, s0);
    ring_minus(s2, s0);
    ring_distributes(v, d1, s0);
    ring_distributes(w, d2, s0);
    let (p, q) = (d1.times_spec(v), d2.times_spec(w));
    let (a, b, c) = (s0.times_spec(u), s0.times_spec(v), s0.times_spec(w));
    // (a + (p + b)) + (q + c) == (p + q) + ((a + b) + c)
    ring_plus(p, b, b);
    ring_plus(a, b, p);
    ring_plus(a.plus_spec(b), p, p);
    ring_plus(q, c, c);
    ring_exchange(p, a.plus_spec(b), q, c);
    assert(a.plus_spec(p.plus_spec(b)) == p.plus_spec(a.plus_spec(b))) by {
        ring_plus(a, b.plus_spec(p), p);
        ring_plus(b, p, p);
    }
    ring_distributes(s0, u, v);
    ring_distributes(s0, u.plus_spec(v), w);
    ring_units(s0);
    ring_plus(p.plus_spec(q), z, z);
}

/// Slopes from quotients: what the numerators weigh is a multiple of the denominator.
proof fn lemma_quotients<T: Scalar>(
    s0: T,
    s1: T,
    s2: T,
    u: T,
    v: T,
    w: T,
    d: T,
    r: T,
)
    requires
        commutative_ring::<T>(),
        divides_exactly(d),
        s0.times_spec(u).plus_spec(s1.times_spec(v)).plus_spec(s2.times_spec(w)) == r.times_spec(d),
    ensures
        T::zero_spec().plus_spec(s0.times_spec(u.over_spec(d))).plus_spec(
            s1.times_spec(v.over_spec(d)),
        ).plus_spec(s2.times_spec(w.over_spec(d))) == r,
{
    let e = T::one_spec().over_spec(d);
    quotient_is_product(d, u);
    quotient_is_product(d, v);
    quotient_is_product(d, w);
    ring_associates(s0, u, e);
    ring_associates(s1, v, e);
    ring_associates(s2, w, e);
    let (a, b, c) = (s0.times_spec(u), s1.times_spec(v), s2.times_spec(w));
    ring_plus(a.times_spec(e), a, a);
    ring_distributes(e, a, b);
    ring_distributes(e, a.plus_spec(b), c);
    ring_associates(r, d, e);
    ring_units(r);
}

/// The step of an affine function between two points.
proof fn lemma_affine_step<T: Scalar>(p: Seq<T>, q: Seq<T>, a: T, b: T, c: T)
    requires
        commutative_ring::<T>(),
    ensures
        affine_value(q, a, b, c).minus_spec(affine_value(p, a, b, c)) == a.times_spec(
            q[0].minus_spec(p[0]),
        ).plus_spec(b.times_spec(q[1].minus_spec(p[1]))),
{
    let z = T::zero_spec();
    let (aq, bq) = (a.times_spec(q[0]), b.times_spec(q[1]));
    let (ap, bp) = (a.times_spec(p[0]), b.times_spec(p[1]));
    let (x, y) = (aq.plus_spec(bq), ap.plus_spec(bp));
    ring_difference_of_sums(x, c, y, c);
    ring_plus(c, z, z);
    ring_minus(z, c);
    ring_plus(x.minus_spec(y), z, z);
    ring_difference_of_sums(aq, bq, ap, bp);
    ring_scales_difference(a, q[0], p[0]);
    ring_scales_difference(b, q[1], p[1]);
}

/// `(a p + b q) s + (a r + b s) (-q) == a (p s - r q)`.
proof fn lemma_cross<T: Scalar>(a: T, b: T, p: T, q: T, r: T, s: T)
    requires
        commutative_ring::<T>(),
    ensures
        a.times_spec(p).plus_spec(b.times_spec(q)).times_spec(s).plus_spec(
            a.times_spec(r).plus_spec(b.times_spec(s)).times_spec(q.negated_spec()),
        ) == a.times_spec(p.times_spec(s).minus_spec(r.times_spec(q))),
{
    let z = T::zero_spec();
    ring_distributes(s, a.times_spec(p), b.times_spec(q));
    ring_associates(a, p, s);
    ring_associates(b, q, s);
    let right = a.times_spec(r).plus_spec(b.times_spec(s));
    ring_negated(q, right);
    ring_distributes(q, a.times_spec(r), b.times_spec(s));
    ring_associates(a, r, q);
    ring_associates(b, s, q);
    ring_commutes(s, q);
    let (x, y) = (a.times_spec(p.times_spec(s)), a.times_spec(r.times_spec(q)));
    let m = b.times_spec(q.times_spec(s));
    ring_subtracts(x.plus_spec(m), y.plus_spec(m));
    ring_difference_of_sums(x, m, y, m);
    ring_plus(m, z, z);
    ring_minus(z, m);
    ring_plus(x.minus_spec(y), z, z);
    ring_scales_difference(a, p.times_spec(s), r.times_spec(q));
}

/// The differences of three coordinates, taken around, add up to nothing.
proof fn lemma_around<T: Scalar>(y0: T, y1: T, y2: T)
    requires
        commutative_ring::<T>(),
    ensures
        y1.minus_spec(y2).plus_spec(y2.minus_spec(y0)).plus_spec(y0.minus_spec(y1))
            == T::zero_spec(),
{
    let (u, v, w) = (y1.minus_spec(y2), y2.minus_spec(y0), y0.minus_spec(y1));
    ring_minus(y1, y2);
    ring_minus(y2, y0);
    ring_minus(y0, y1);
    let s = u.plus_spec(v).plus_spec(w);
    // ((u + v) + w) + y1 == (u + v) + (w + y1) == (u + v) + y0 == u + y2 == y1
    ring_plus(u.plus_spec(v), w, y1);
    ring_plus(u, v, y0);
    let z = T::zero_spec();
    ring_plus(y1, z, z);
    ring_minus(s, y1);
    ring_minus(z, y1);
}

/// The flux of an affine function on a triangle is its gradient.
proof fn lemma_differentiates<T: Scalar>(
    triangle: TriangleElement<T>,
    coords: MeshCoords<T>,
    vs: Seq<usize>,
    state: Seq<T>,
    a: T,
    b: T,
    c: T,
)
    requires
        commutative_ring::<T>(),
        is_triangle(triangle, coords, vs),
        vs.len() == 3,
        divides_exactly(parallelogram(coords, vs)),
        affine_on(state, coords, vs, a, b, c),
    ensures
        triangle.element.flux_spec(state, 2) == seq![a, b],
{
    let element = triangle.element;
    let (p0, p1, p2) = (
        coords.coords@[vs[0] as int]@,
        coords.coords@[vs[1] as int]@,
        coords.coords@[vs[2] as int]@,
    );
    let d = parallelogram(coords, vs);
    let (s0, s1, s2) = (
        affine_value(p0, a, b, c),
        affine_value(p1, a, b, c),
        affine_value(p2, a, b, c),
    );
    assert(state[vs[0] as int] == s0 && state[vs[1] as int] == s1 && state[vs[2] as int] == s2);
    let (x1, y1) = (p1[0].minus_spec(p0[0]), p1[1].minus_spec(p0[1]));
    let (x2, y2) = (p2[0].minus_spec(p0[0]), p2[1].minus_spec(p0[1]));
    assert(d == x1.times_spec(y2).minus_spec(y1.times_spec(x2)));
    ring_commutes(y1, x2);
    lemma_affine_step(p0, p1, a, b, c);
    lemma_affine_step(p0, p2, a, b, c);
    reveal_with_fuel(FluxElement::flux_to, 4);
    assert(element.dofs@[0] == vs[0] && element.dofs@[1] == vs[1] && element.dofs@[2] == vs[2]);
    assert(element.flux_to(state, 0, 3) == a) by {
        let (u, v, w) = (
            p1[1].minus_spec(p2[1]),
            p2[1].minus_spec(p0[1]),
            p0[1].minus_spec(p1[1]),
        );
        lemma_around(p0[1], p1[1], p2[1]);
        lemma_weights(s0, s1, s2, u, v, w);
        ring_opposite_of_difference(p1[1], p0[1]);
        lemma_cross(a, b, x1, y1, x2, y2);
        lemma_quotients(s0, s1, s2, u, v, w, d, a);
    }
    assert(element.flux_to(state, 1, 3) == b) by {
        let (u, v, w) = (
            p2[0].minus_spec(p1[0]),
            p0[0].minus_spec(p2[0]),
            p1[0].minus_spec(p0[0]),
        );
        lemma_around(p0[0], p2[0], p1[0]);
        ring_plus(u, v, w);
        ring_plus(v, w, w);
        ring_plus(u, w, v);
        lemma_weights(s0, s1, s2, u, v, w);
        ring_opposite_of_difference(p2[0], p0[0]);
        let (ax1, by1) = (a.times_spec(x1), b.times_spec(y1));
        let (ax2, by2) = (a.times_spec(x2), b.times_spec(y2));
        ring_plus(ax1, by1, a);
        ring_plus(ax2, by2, a);
        lemma_cross(b, a, y2, x2, y1, x1);
        ring_plus(
            ax1.plus_spec(by1).times_spec(v),
            ax2.plus_spec(by2).times_spec(w),
            a,
        );
        ring_commutes(y2, x1);
        lemma_quotients(s0, s1, s2, u, v, w, d, b);
    }
    assert(element.flux_spec(state, 2) =~= seq![a, b]);
}

/// A triangle covers half of the parallelogram on its edges, the flux of every affine function
/// on it is the gradient of the function, and its barycenter is the mean of its corners. Each
/// holds over coefficients that compute exactly, where what it divides by has an inverse.
pub proof fn triangle_measures_and_differentiates<T: Scalar>(
    triangle: TriangleElement<T>,
    coords: MeshCoords<T>,
    v: Seq<usize>,
)
    requires
        commutative_ring::<T>(),
        is_triangle(triangle, coords, v),
        v.len() == 3,
    ensures
        measures_and_differentiates(triangle, coords, v),
{
    let (p, q) = (displacement(coords, v[0], v[1]), displacement(coords, v[0], v[2]));
    ring_commutes(p[1], q[0]);
    if divides_exactly(T::from_count_spec(2)) {
        lemma_halves(magnitude_spec(parallelogram(coords, v)));
    }
    if divides_exactly(parallelogram(coords, v)) {
        assert forall|state: Seq<T>, a: T, b: T, c: T| #[trigger]
            affine_on(state, coords, v, a, b, c) implies triangle.element.flux_spec(state, 2)
            == seq![a, b] by {
            lemma_differentiates(triangle, coords, v, state, a, b, c);
        }
    }
    if divides_exactly(T::from_count_spec(3)) {
        assert forall|axis: int| 0 <= axis < 2 implies T::from_count_spec(3).times_spec(
            #[trigger] triangle.barycenter@[axis],
        ) == coords.coords@[v[0] as int]@[axis].plus_spec(
            coords.coords@[v[1] as int]@[axis],
        ).plus_spec(coords.coords@[v[2] as int]@[axis]) by {
            quotient_is_product(
                T::from_count_spec(3),
                coords.coords@[v[0] as int]@[axis].plus_spec(
                    coords.coords@[v[1] as int]@[axis],
                ).plus_spec(coords.coords@[v[2] as int]@[axis]),
            );
        }
    }
}

} // verus!
