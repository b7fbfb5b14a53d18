//! The Jacobian of a flux element is the first-order change of its residual.

use crate::linalg::ring::{
    commutative_ring, ring_associates, ring_commutes, ring_distributes, ring_exchange, ring_moves,
    ring_plus, ring_two, ring_units,
};
use crate::linalg::scalar::Scalar;
use crate::problems::flux_elements::{
    inner, jacobian_value, residual_value, tangent_at, tangent_row, tangent_times, weighted,
    FluxElement, PointValues,
};
use crate::problems::reluctivity::{growing_nu, material_point, NonlinearReluctivityLaw};
use vstd::prelude::*;

verus! {

/// A vector plus a multiple of another.
pub open spec fn shifted<T: Scalar>(a: Seq<T>, t: T, v: Seq<T>) -> Seq<T> {
    Seq::new(a.len(), |k: int| a[k].plus_spec(t.times_spec(v[k])))
}

/// A multiple of a vector.
pub open spec fn scaled<T: Scalar>(c: T, a: Seq<T>) -> Seq<T> {
    Seq::new(a.len(), |k: int| c.times_spec(a[k]))
}

proof fn lemma_inner_shifted<T: Scalar>(a: Seq<T>, t: T, v: Seq<T>, b: Seq<T>, n: int)
    requires
        commutative_ring::<T>(),
        1 <= n <= a.len(),
        v.len() == a.len(),
    ensures
        inner(shifted(a, t, v), b, n) == inner(a, b, n).plus_spec(t.times_spec(inner(v, b, n))),
    decreases n,
{
    let k = n - 1;
    ring_distributes(b[k], a[k], t.times_spec(v[k]));
    ring_associates(t, v[k], b[k]);
    assert(shifted(a, t, v)[k] == a[k].plus_spec(t.times_spec(v[k])));
    if n > 1 {
        lemma_inner_shifted(a, t, v, b, n - 1);
        let x = inner(a, b, n - 1);
        let y = inner(v, b, n - 1);
        let z = a[k].times_spec(b[k]);
        let w = v[k].times_spec(b[k]);
        ring_exchange(x, t.times_spec(y), z, t.times_spec(w));
        ring_distributes(t, y, w);
    }
}

proof fn lemma_inner_symmetric<T: Scalar>(a: Seq<T>, b: Seq<T>, n: int)
    requires
        commutative_ring::<T>(),
        1 <= n,
    ensures
        inner(a, b, n) == inner(b, a, n),
    decreases n,
{
    ring_commutes(a[n - 1], b[n - 1]);
    if n > 1 {
        lemma_inner_symmetric(a, b, n - 1);
    }
}

proof fn lemma_inner_scaled<T: Scalar>(c: T, a: Seq<T>, b: Seq<T>, n: int)
    requires
        commutative_ring::<T>(),
        1 <= n <= a.len(),
    ensures
        inner(scaled(c, a), b, n) == c.times_spec(inner(a, b, n)),
    decreases n,
{
    let k = n - 1;
    ring_associates(c, a[k], b[k]);
    assert(scaled(c, a)[k] == c.times_spec(a[k]));
    if n > 1 {
        lemma_inner_scaled(c, a, b, n - 1);
        ring_distributes(c, inner(a, b, n - 1), a[k].times_spec(b[k]));
    }
}

/// A row of the tangent times the first `m` components of a vector.
proof fn lemma_tangent_row<T: Scalar>(point: PointValues<T>, v: Seq<T>, i: int, m: int)
    requires
        commutative_ring::<T>(),
        1 <= m <= point.0.len(),
        v.len() == point.0.len(),
        0 <= i,
    ensures
        inner(tangent_row(point, i), v, m) == (if i < m {
            point.1.times_spec(v[i])
        } else {
            T::zero_spec()
        }).plus_spec(
            T::from_count_spec(2).times_spec(point.2).times_spec(point.0[i]).times_spec(
                inner(point.0, v, m),
            ),
        ),
    decreases m,
{
    let f = point.0;
    let g = T::from_count_spec(2).times_spec(point.2).times_spec(f[i]);
    let k = m - 1;
    let w = f[k].times_spec(v[k]);
    let entry = tangent_row(point, i)[k];
    assert(entry == tangent_at(point, i, k));
    ring_associates(g, f[k], v[k]);
    if i == k {
        ring_distributes(v[k], point.1, g.times_spec(f[k]));
        assert(entry.times_spec(v[k]) == point.1.times_spec(v[k]).plus_spec(g.times_spec(w)));
    } else {
        assert(entry.times_spec(v[k]) == g.times_spec(w));
    }
    if m == 1 {
        ring_plus(g.times_spec(w), T::zero_spec(), T::zero_spec());
    } else {
        lemma_tangent_row(point, v, i, m - 1);
        let y = inner(f, v, m - 1);
        let gy = g.times_spec(y);
        let gw = g.times_spec(w);
        ring_distributes(g, y, w);
        if i == k {
            let h = point.1.times_spec(v[k]);
            ring_exchange(T::zero_spec(), gy, h, gw);
            ring_plus(h, T::zero_spec(), T::zero_spec());
        } else {
            let h = if i < m - 1 {
                point.1.times_spec(v[i])
            } else {
                T::zero_spec()
            };
            ring_plus(h, gy, gw);
        }
    }
}

/// The tangent in a direction, tested with a shape.
proof fn lemma_tangent<T: Scalar>(point: PointValues<T>, v: Seq<T>, w: Seq<T>)
    requires
        commutative_ring::<T>(),
        point.0.len() >= 1,
        v.len() == point.0.len(),
        w.len() == point.0.len(),
    ensures
        ({
            let n = point.0.len() as int;
            let p = inner(point.0, v, n);
            inner(w, tangent_times(point, v), n) == point.1.times_spec(inner(v, w, n)).plus_spec(
                point.2.times_spec(p.plus_spec(p)).times_spec(inner(point.0, w, n)),
            )
        }),
{
    let n = point.0.len() as int;
    let f = point.0;
    let p = inner(f, v, n);
    let two = T::from_count_spec(2);
    let g2 = two.times_spec(point.2);
    let tt = tangent_times(point, v);
    let a = scaled(point.1, v);
    let b = scaled(g2, f);
    assert forall|i: int| 0 <= i < n implies #[trigger] tt[i] == shifted(a, p, b)[i] by {
        lemma_tangent_row(point, v, i, n);
        ring_commutes(g2.times_spec(f[i]), p);
    }
    assert(tt =~= shifted(a, p, b));
    lemma_inner_symmetric(w, tt, n);
    lemma_inner_shifted(a, p, b, w, n);
    lemma_inner_scaled(point.1, v, w, n);
    lemma_inner_scaled(g2, f, w, n);
    let pp = inner(f, w, n);
    ring_moves(p, g2, pp);
    ring_associates(g2, p, pp);
    // Twice the growth is its sum with itself.
    let d = point.2;
    ring_two::<T>();
    ring_distributes(d, T::one_spec(), T::one_spec());
    ring_units(d);
    assert(g2 == d.plus_spec(d));
    ring_distributes(p, d, d);
    ring_distributes(d, p, p);
    assert(g2.times_spec(p) == d.times_spec(p.plus_spec(p)));
}

/// The change of the squared flux, by the size of the step.
pub open spec fn square_change<T: Scalar>(f: Seq<T>, v: Seq<T>, t: T) -> T {
    let n = f.len() as int;
    let p = inner(f, v, n);
    p.plus_spec(p.plus_spec(t.times_spec(inner(v, v, n))))
}

proof fn lemma_square<T: Scalar>(f: Seq<T>, v: Seq<T>, t: T)
    requires
        commutative_ring::<T>(),
        f.len() >= 1,
        v.len() == f.len(),
    ensures
        inner(shifted(f, t, v), shifted(f, t, v), f.len() as int) == inner(
            f,
            f,
            f.len() as int,
        ).plus_spec(t.times_spec(square_change(f, v, t))),
{
    let n = f.len() as int;
    let g = shifted(f, t, v);
    let s = inner(f, f, n);
    let p = inner(f, v, n);
    let q = inner(v, v, n);
    lemma_inner_shifted(f, t, v, g, n);
    lemma_inner_symmetric(f, g, n);
    lemma_inner_shifted(f, t, v, f, n);
    lemma_inner_symmetric(v, f, n);
    lemma_inner_symmetric(v, g, n);
    lemma_inner_shifted(f, t, v, v, n);
    let rest = p.plus_spec(t.times_spec(q));
    ring_plus(s, t.times_spec(p), t.times_spec(rest));
    ring_distributes(t, p, rest);
}

/// A reluctivity that grows linearly changes by its growth times the change of the square.
proof fn lemma_growing<T: Scalar>(nu0: T, beta: T, s: T, e: T)
    requires
        commutative_ring::<T>(),
    ensures
        growing_nu(nu0, beta, s.plus_spec(e)) == growing_nu(nu0, beta, s).plus_spec(
            nu0.times_spec(beta).times_spec(e),
        ),
{
    let bs = beta.times_spec(s);
    let be = beta.times_spec(e);
    ring_distributes(beta, s, e);
    ring_plus(T::one_spec(), bs, be);
    ring_distributes(nu0, T::one_spec().plus_spec(bs), be);
    ring_associates(nu0, beta, e);
}

/// The product of a changed reluctivity and a changed flux, by powers of the step.
proof fn lemma_expansion<T: Scalar>(nu: T, d: T, t: T, p: T, q: T, a: T, g: T)
    requires
        commutative_ring::<T>(),
    ensures
        ({
            let e = p.plus_spec(p.plus_spec(t.times_spec(q)));
            nu.plus_spec(d.times_spec(t.times_spec(e))).times_spec(
                a.plus_spec(t.times_spec(g)),
            ) == nu.times_spec(a).plus_spec(
                t.times_spec(
                    nu.times_spec(g).plus_spec(d.times_spec(p.plus_spec(p)).times_spec(a)),
                ).plus_spec(
                    t.times_spec(
                        t.times_spec(
                            d.times_spec(q).times_spec(a).plus_spec(
                                d.times_spec(e).times_spec(g),
                            ),
                        ),
                    ),
                ),
            )
        }),
{
    let tq = t.times_spec(q);
    let e = p.plus_spec(p.plus_spec(tq));
    let f = d.times_spec(e);
    let d2 = d.times_spec(p.plus_spec(p));
    let dq = d.times_spec(q);
    let x = nu.plus_spec(t.times_spec(f));
    ring_moves(d, t, e);
    assert(nu.plus_spec(d.times_spec(t.times_spec(e))) == x);
    // The factor of the step splits.
    ring_plus(p, p, tq);
    ring_distributes(d, p.plus_spec(p), tq);
    ring_moves(d, t, q);
    assert(f == d2.plus_spec(t.times_spec(dq)));
    // Both products.
    let tg = t.times_spec(g);
    ring_distributes(x, a, tg);
    ring_distributes(a, nu, t.times_spec(f));
    ring_associates(t, f, a);
    ring_distributes(tg, nu, t.times_spec(f));
    ring_moves(nu, t, g);
    ring_associates(t, f, tg);
    ring_moves(f, t, g);
    let fa = f.times_spec(a);
    let fg = f.times_spec(g);
    let na = nu.times_spec(a);
    let ng = nu.times_spec(g);
    assert(x.times_spec(a) == na.plus_spec(t.times_spec(fa)));
    assert(x.times_spec(tg) == t.times_spec(ng).plus_spec(t.times_spec(t.times_spec(fg))));
    // The first of them by powers.
    let da = d2.times_spec(a);
    let qa = dq.times_spec(a);
    ring_distributes(a, d2, t.times_spec(dq));
    ring_associates(t, dq, a);
    assert(fa == da.plus_spec(t.times_spec(qa)));
    ring_distributes(t, da, t.times_spec(qa));
    let tda = t.times_spec(da);
    let ttqa = t.times_spec(t.times_spec(qa));
    let tng = t.times_spec(ng);
    let ttfg = t.times_spec(t.times_spec(fg));
    ring_plus(na, tda.plus_spec(ttqa), tng.plus_spec(ttfg));
    ring_exchange(tda, ttqa, tng, ttfg);
    ring_distributes(t, da, ng);
    ring_plus(da, ng, ng);
    ring_distributes(t, t.times_spec(qa), t.times_spec(fg));
    ring_distributes(t, qa, fg);
}

/// A flux with the reluctivity of a law that grows linearly.
pub open spec fn at_flux<T: Scalar>(nu0: T, beta: T, f: Seq<T>) -> PointValues<T> {
    (f, growing_nu(nu0, beta, inner(f, f, f.len() as int)), nu0.times_spec(beta))
}

/// What the residual changes by beyond the first order, by the square of the step.
pub open spec fn second_order<T: Scalar>(
    element: FluxElement<T>,
    nu0: T,
    beta: T,
    f: Seq<T>,
    v: Seq<T>,
    t: T,
    l: int,
) -> T {
    let n = f.len() as int;
    let d = nu0.times_spec(beta);
    let w = element.shapes@[l]@;
    element.measure.times_spec(
        d.times_spec(inner(v, v, n)).times_spec(inner(f, w, n)).plus_spec(
            d.times_spec(square_change(f, v, t)).times_spec(inner(v, w, n)),
        ),
    )
}

/// The tangent is the derivative of the weighted flux: over coefficients that compute exactly, a
/// step in the flux changes the residual by the step times the tangent, and by a multiple of the
/// square of the step.
pub proof fn tangent_is_first_order<T: Scalar>(
    element: FluxElement<T>,
    nu0: T,
    beta: T,
    f: Seq<T>,
    v: Seq<T>,
    t: T,
    l: int,
)
    requires
        commutative_ring::<T>(),
        f.len() >= 1,
        v.len() == f.len(),
        element.shapes@[l]@.len() == f.len(),
    ensures
        residual_value(element, at_flux(nu0, beta, shifted(f, t, v)), l) == residual_value(
            element,
            at_flux(nu0, beta, f),
            l,
        ).plus_spec(
            t.times_spec(
                element.measure.times_spec(
                    inner(
                        element.shapes@[l]@,
                        tangent_times(at_flux(nu0, beta, f), v),
                        f.len() as int,
                    ),
                ),
            ).plus_spec(
                t.times_spec(t.times_spec(second_order(element, nu0, beta, f, v, t, l))),
            ),
        ),
{
    let n = f.len() as int;
    let m = element.measure;
    let w = element.shapes@[l]@;
    let g = shifted(f, t, v);
    let before = at_flux(nu0, beta, f);
    let after = at_flux(nu0, beta, g);
    let nu = before.1;
    let d = before.2;
    let e = square_change(f, v, t);
    let p = inner(f, v, n);
    let q = inner(v, v, n);
    let a = inner(f, w, n);
    let gw = inner(v, w, n);
    lemma_square(f, v, t);
    lemma_growing(nu0, beta, inner(f, f, n), t.times_spec(e));
    assert(after.1 == nu.plus_spec(d.times_spec(t.times_spec(e))));
    lemma_inner_shifted(f, t, v, w, n);
    assert(weighted(after) =~= scaled(after.1, g));
    assert(weighted(before) =~= scaled(nu, f));
    lemma_inner_scaled(after.1, g, w, n);
    lemma_inner_scaled(nu, f, w, n);
    lemma_expansion(nu, d, t, p, q, a, gw);
    lemma_tangent(before, v, w);
    let b = nu.times_spec(gw).plus_spec(d.times_spec(p.plus_spec(p)).times_spec(a));
    let c = d.times_spec(q).times_spec(a).plus_spec(d.times_spec(e).times_spec(gw));
    let tb = t.times_spec(b);
    let ttc = t.times_spec(t.times_spec(c));
    ring_distributes(m, nu.times_spec(a), tb.plus_spec(ttc));
    ring_distributes(m, tb, ttc);
    ring_moves(m, t, b);
    ring_moves(m, t, t.times_spec(c));
    ring_moves(m, t, c);
}

/// A state with a step added on one dof.
pub open spec fn stepped<T: Scalar>(state: Seq<T>, dof: int, t: T) -> Seq<T> {
    state.update(dof, state[dof].plus_spec(t))
}

proof fn lemma_flux_stepped<T: Scalar>(
    element: FluxElement<T>,
    state: Seq<T>,
    m: int,
    t: T,
    k: int,
    n: int,
)
    requires
        commutative_ring::<T>(),
        element.dofs@.no_duplicates(),
        0 <= m < element.dofs@.len(),
        0 <= n <= element.dofs@.len(),
        forall|l: int| 0 <= l < element.dofs@.len() ==> (#[trigger] element.dofs@[l]) < state.len(),
    ensures
        element.flux_to(stepped(state, element.dofs@[m] as int, t), k, n) == (if m < n {
            element.flux_to(state, k, n).plus_spec(t.times_spec(element.shapes@[m]@[k]))
        } else {
            element.flux_to(state, k, n)
        }),
    decreases n,
{
    if n > 0 {
        lemma_flux_stepped(element, state, m, t, k, n - 1);
        let next = stepped(state, element.dofs@[m] as int, t);
        let i = n - 1;
        let x = element.flux_to(state, k, n - 1);
        let shape = element.shapes@[i]@[k];
        let y = state[element.dofs@[i] as int].times_spec(shape);
        assert(element.dofs@[i] < state.len());
        if i == m {
            ring_distributes(shape, state[element.dofs@[i] as int], t);
            ring_plus(x, y, t.times_spec(shape));
        } else {
            assert(element.dofs@[i] != element.dofs@[m]);
            assert(next[element.dofs@[i] as int] == state[element.dofs@[i] as int]);
            if m < i {
                let z = t.times_spec(element.shapes@[m]@[k]);
                ring_plus(x, z, y);
                ring_plus(z, y, y);
                ring_plus(x, y, z);
            }
        }
    }
}

/// The Jacobian of an element is the derivative of its residual: over coefficients that compute
/// exactly, a step on one dof changes each entry of the residual by the step times the entry of
/// the Jacobian, and by a multiple of the square of the step.
pub proof fn jacobian_is_first_order<T: Scalar>(
    material: NonlinearReluctivityLaw<T>,
    element: FluxElement<T>,
    center: Seq<T>,
    state: Seq<T>,
    dim: nat,
    l: int,
    m: int,
    t: T,
)
    requires
        commutative_ring::<T>(),
        element.wf(state.len() as int, dim as int),
        element.dofs@.no_duplicates(),
        0 <= l < element.dofs@.len(),
        0 <= m < element.dofs@.len(),
    ensures
        ({
            let before = material_point(material, element, center, state, dim);
            let after = material_point(
                material,
                element,
                center,
                stepped(state, element.dofs@[m] as int, t),
                dim,
            );
            residual_value(element, after, l) == residual_value(element, before, l).plus_spec(
                t.times_spec(jacobian_value(element, before, l, m)).plus_spec(
                    t.times_spec(
                        t.times_spec(
                            second_order(
                                element,
                                material.nu0,
                                material.beta,
                                element.flux_spec(state, dim),
                                element.shapes@[m]@,
                                t,
                                l,
                            ),
                        ),
                    ),
                ),
            )
        }),
{
    let f = element.flux_spec(state, dim);
    let v = element.shapes@[m]@;
    let next = stepped(state, element.dofs@[m] as int, t);
    assert forall|k: int| 0 <= k < dim implies #[trigger] element.flux_spec(next, dim)[k]
        == shifted(f, t, v)[k] by {
        lemma_flux_stepped(element, state, m, t, k, element.dofs@.len() as int);
    }
    assert(element.flux_spec(next, dim) =~= shifted(f, t, v));
    tangent_is_first_order(element, material.nu0, material.beta, f, v, t, l);
}

/// A material whose reluctivity does not grow has a linear problem: over coefficients that compute
/// exactly, the Jacobian of an element is the same at every state, the mass of its shapes by the
/// reluctivity.
pub proof fn constant_reluctivity_is_linear<T: Scalar>(
    material: NonlinearReluctivityLaw<T>,
    element: FluxElement<T>,
    center: Seq<T>,
    state: Seq<T>,
    dim: nat,
    l: int,
    m: int,
)
    requires
        commutative_ring::<T>(),
        material.beta == T::zero_spec(),
        element.wf(state.len() as int, dim as int),
        0 <= l < element.dofs@.len(),
        0 <= m < element.dofs@.len(),
    ensures
        jacobian_value(
            element,
            material_point(material, element, center, state, dim),
            l,
            m,
        ) == element.measure.times_spec(
            material.nu0.times_spec(
                inner(element.shapes@[m]@, element.shapes@[l]@, dim as int),
            ),
        ),
{
    let f = element.flux_spec(state, dim);
    let v = element.shapes@[m]@;
    let w = element.shapes@[l]@;
    let n = dim as int;
    let point = at_flux(material.nu0, material.beta, f);
    let p = inner(f, v, n);
    let z = T::zero_spec();
    ring_units(inner(f, f, n));
    ring_plus(T::one_spec(), z, z);
    ring_units(material.nu0);
    ring_units(p.plus_spec(p));
    ring_units(inner(f, w, n));
    ring_plus(material.nu0.times_spec(inner(v, w, n)), z, z);
    lemma_tangent(point, v, w);
}

} // verus!
