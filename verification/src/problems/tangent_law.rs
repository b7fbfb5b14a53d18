//! What the Jacobians and the sensitivities of fluxes are, tested by states.

use crate::assemble::symmetry_law::only_zero_is_zero;
use crate::linalg::action_law::{push_within, row_of_nonzero};
use crate::linalg::algebra::{matrix_times, nonzero};
use crate::linalg::csr::compressed;
use crate::linalg::dense::sum_products;
use crate::linalg::matrix_law::row_compressed;
use crate::linalg::ring::{
    commutative_ring, ring_associates, ring_commutes, ring_distributes, ring_moves, ring_plus,
    ring_units,
};
use crate::linalg::scalar::Scalar;
use crate::linalg::sparse::triplets_within;
use crate::problems::derivative_law::{bilinear, pairing, pairing_by_entries};
use crate::problems::flux_elements::{
    element_jacobian, flux_jacobian, inner, jacobian_terms, jacobian_value, row_jacobian,
    tangent_row, tangent_times, FluxElement, PointValues,
};
use crate::problems::flux_law::{
    flux_part, lemma_bilinear_concat, lemma_inner_extended, lemma_inner_zero,
};
use crate::problems::layout::reduced_position;
use crate::problems::probe_law::{lemma_spread, spread};
use crate::problems::vector_potential::{
    element_sensitivity, parameter_terms, row_factor, sensitivity_terms,
};
use vstd::prelude::*;

verus! {

proof fn lemma_inner_commutes<T: Scalar>(a: Seq<T>, b: Seq<T>, n: int)
    requires
        commutative_ring::<T>(),
        1 <= n,
    ensures
        inner(a, b, n) == inner(b, a, n),
    decreases n,
{
    ring_commutes(a[n - 1], b[n - 1]);
    if n > 1 {
        lemma_inner_commutes(a, b, n - 1);
    }
}

/// The tangent is linear.
proof fn lemma_tangent_extended<T: Scalar>(
    point: PointValues<T>,
    f: Seq<T>,
    g: Seq<T>,
    h: Seq<T>,
    c: T,
)
    requires
        commutative_ring::<T>(),
        point.0.len() >= 1,
        forall|k: int|
            0 <= k < point.0.len() ==> #[trigger] h[k] == f[k].plus_spec(c.times_spec(g[k])),
    ensures
        forall|k: int|
            0 <= k < point.0.len() ==> #[trigger] tangent_times(point, h)[k] == tangent_times(
                point,
                f,
            )[k].plus_spec(c.times_spec(tangent_times(point, g)[k])),
{
    let n = point.0.len() as int;
    assert forall|k: int| 0 <= k < n implies #[trigger] tangent_times(point, h)[k]
        == tangent_times(point, f)[k].plus_spec(c.times_spec(tangent_times(point, g)[k])) by {
        lemma_inner_extended(tangent_row(point, k), f, g, h, c, n);
    }
}

proof fn lemma_tangent_zero<T: Scalar>(point: PointValues<T>, h: Seq<T>)
    requires
        commutative_ring::<T>(),
        point.0.len() >= 1,
        forall|k: int| 0 <= k < point.0.len() ==> #[trigger] h[k] == T::zero_spec(),
    ensures
        forall|k: int|
            0 <= k < point.0.len() ==> #[trigger] tangent_times(point, h)[k] == T::zero_spec(),
{
    let n = point.0.len() as int;
    assert forall|k: int| 0 <= k < n implies #[trigger] tangent_times(point, h)[k]
        == T::zero_spec() by {
        lemma_inner_zero(tangent_row(point, k), h, n);
    }
}

proof fn lemma_row_tested<T: Scalar>(
    element: FluxElement<T>,
    point: PointValues<T>,
    active: Seq<usize>,
    ndofs: nat,
    l: int,
    row: usize,
    x: Seq<T>,
    y: Seq<T>,
    n: int,
)
    requires
        commutative_ring::<T>(),
        element.wf(ndofs as int, point.0.len() as int),
        0 <= n <= element.dofs@.len(),
        0 <= l < element.dofs@.len(),
        active.len() <= usize::MAX,
        row < active.len(),
    ensures
        bilinear(row_jacobian(element, point, active, l, row, n), x, y)
            == x[row as int].times_spec(
            element.measure.times_spec(
                inner(
                    element.shapes@[l]@,
                    tangent_times(
                        point,
                        flux_part(element, spread(ndofs, active, y), point.0.len(), n),
                    ),
                    point.0.len() as int,
                ),
            ),
        ),
        triplets_within(
            row_jacobian(element, point, active, l, row, n),
            active.len() as int,
            active.len() as int,
        ),
    decreases n,
{
    let dim = point.0.len();
    let full = spread(ndofs, active, y);
    let part = flux_part(element, full, dim, n);
    let left = element.shapes@[l]@;
    let m = element.measure;
    let a = x[row as int];
    if n == 0 {
        lemma_tangent_zero(point, part);
        lemma_inner_zero(left, tangent_times(point, part), dim as int);
        ring_units(m);
        ring_units(a);
    } else {
        lemma_row_tested(element, point, active, ndofs, l, row, x, y, n - 1);
        let before = flux_part(element, full, dim, n - 1);
        let k = n - 1;
        let dof = element.dofs@[k];
        let c = full[dof as int];
        let g = element.shapes@[k]@;
        assert forall|i: int| 0 <= i < dim implies #[trigger] part[i] == before[i].plus_spec(
            c.times_spec(g[i]),
        ) by {}
        lemma_tangent_extended(point, before, g, part, c);
        lemma_inner_extended(
            left,
            tangent_times(point, before),
            tangent_times(point, g),
            tangent_times(point, part),
            c,
            dim as int,
        );
        let p = inner(left, tangent_times(point, before), dim as int);
        let q = inner(left, tangent_times(point, g), dim as int);
        ring_distributes(m, p, c.times_spec(q));
        ring_distributes(a, m.times_spec(p), m.times_spec(c.times_spec(q)));
        ring_moves(m, c, q);
        let value = jacobian_value(element, point, l, k);
        ring_commutes(value, c);
        lemma_spread(ndofs, active, y, dof);
        ring_units(value);
        ring_units(a);
        ring_plus(a.times_spec(m.times_spec(p)), value, value);
        let terms = row_jacobian(element, point, active, l, row, n - 1);
        if reduced_position(active, dof) is Some {
            let col = reduced_position(active, dof)->0;
            assert(active.contains(dof));
            assert(0 <= active.index_of(dof) < active.len());
            push_within(terms, (row, col, value), active.len() as int, active.len() as int);
        }
    }
}

proof fn lemma_element_tested<T: Scalar>(
    element: FluxElement<T>,
    point: PointValues<T>,
    active: Seq<usize>,
    ndofs: nat,
    x: Seq<T>,
    y: Seq<T>,
    n: int,
)
    requires
        commutative_ring::<T>(),
        element.wf(ndofs as int, point.0.len() as int),
        0 <= n <= element.dofs@.len(),
        active.len() <= usize::MAX,
    ensures
        bilinear(element_jacobian(element, point, active, n), x, y) == element.measure.times_spec(
            inner(
                tangent_times(
                    point,
                    element.flux_spec(spread(ndofs, active, y), point.0.len()),
                ),
                flux_part(element, spread(ndofs, active, x), point.0.len(), n),
                point.0.len() as int,
            ),
        ),
        triplets_within(
            element_jacobian(element, point, active, n),
            active.len() as int,
            active.len() as int,
        ),
    decreases n,
{
    let dim = point.0.len();
    let full = spread(ndofs, active, x);
    let part = flux_part(element, full, dim, n);
    let right = element.flux_spec(spread(ndofs, active, y), dim);
    let t = tangent_times(point, right);
    let m = element.measure;
    if n == 0 {
        lemma_inner_zero(t, part, dim as int);
        ring_units(m);
    } else {
        lemma_element_tested(element, point, active, ndofs, x, y, n - 1);
        let before = flux_part(element, full, dim, n - 1);
        let l = n - 1;
        let dof = element.dofs@[l];
        let c = full[dof as int];
        let g = element.shapes@[l]@;
        let count = element.dofs@.len() as int;
        assert forall|i: int| 0 <= i < dim implies #[trigger] part[i] == before[i].plus_spec(
            c.times_spec(g[i]),
        ) by {}
        lemma_inner_extended(t, before, g, part, c, dim as int);
        lemma_inner_commutes(t, g, dim as int);
        let p = inner(t, before, dim as int);
        let q = inner(t, g, dim as int);
        ring_distributes(m, p, c.times_spec(q));
        ring_moves(m, c, q);
        lemma_spread(ndofs, active, x, dof);
        let mq = m.times_spec(q);
        ring_units(mq);
        ring_plus(m.times_spec(p), mq, mq);
        let terms = element_jacobian(element, point, active, n - 1);
        if reduced_position(active, dof) is Some {
            let row = reduced_position(active, dof)->0;
            assert(active.contains(dof));
            assert(0 <= active.index_of(dof) < active.len());
            lemma_row_tested(element, point, active, ndofs, l, row, x, y, count);
            assert(flux_part(element, spread(ndofs, active, y), dim, count) =~= right);
            let added = row_jacobian(element, point, active, l, row, count);
            lemma_bilinear_concat(terms, added, x, y);
            lemma_concat_within(terms, added, active.len() as int, active.len() as int);
        }
    }
}

proof fn lemma_concat_within<T: Scalar>(
    a: Seq<(usize, usize, T)>,
    b: Seq<(usize, usize, T)>,
    nrows: int,
    ncols: int,
)
    requires
        triplets_within(a, nrows, ncols),
        triplets_within(b, nrows, ncols),
    ensures
        triplets_within(a + b, nrows, ncols),
{
    let all = a + b;
    assert forall|i: int| 0 <= i < all.len() implies (#[trigger] all[i]).0 < nrows && all[i].1
        < ncols by {
        if i < a.len() {
            assert(all[i] == a[i]);
        } else {
            assert(all[i] == b[i - a.len()]);
        }
    }
}

/// What the elements contribute where a Jacobian is tested: the measure times the inner product
/// of what the tangent makes of the flux of the change with the flux of the test.
pub open spec fn tangent_by_elements<T: Scalar>(
    elements: Seq<FluxElement<T>>,
    points: Seq<PointValues<T>>,
    test: Seq<T>,
    change: Seq<T>,
    n: int,
) -> T
    decreases n,
{
    if n <= 0 {
        T::zero_spec()
    } else {
        let element = elements[n - 1];
        let point = points[n - 1];
        let dim = point.0.len();
        tangent_by_elements(elements, points, test, change, n - 1).plus_spec(
            element.measure.times_spec(
                inner(
                    tangent_times(point, element.flux_spec(change, dim)),
                    element.flux_spec(test, dim),
                    dim as int,
                ),
            ),
        )
    }
}

proof fn lemma_terms_tested<T: Scalar>(
    elements: Seq<FluxElement<T>>,
    points: Seq<PointValues<T>>,
    active: Seq<usize>,
    ndofs: nat,
    x: Seq<T>,
    y: Seq<T>,
    n: int,
)
    requires
        commutative_ring::<T>(),
        0 <= n <= elements.len(),
        points.len() == elements.len(),
        forall|e: int|
            0 <= e < elements.len() ==> (#[trigger] elements[e]).wf(
                ndofs as int,
                points[e].0.len() as int,
            ),
        active.len() <= usize::MAX,
    ensures
        bilinear(jacobian_terms(elements, points, active, n), x, y) == tangent_by_elements(
            elements,
            points,
            spread(ndofs, active, x),
            spread(ndofs, active, y),
            n,
        ),
        triplets_within(
            jacobian_terms(elements, points, active, n),
            active.len() as int,
            active.len() as int,
        ),
    decreases n,
{
    if n > 0 {
        lemma_terms_tested(elements, points, active, ndofs, x, y, n - 1);
        let element = elements[n - 1];
        let point = points[n - 1];
        assert(element.wf(ndofs as int, point.0.len() as int));
        let count = element.dofs@.len() as int;
        lemma_element_tested(element, point, active, ndofs, x, y, count);
        let full = spread(ndofs, active, x);
        let dim = point.0.len();
        assert(flux_part(element, full, dim, count) =~= element.flux_spec(full, dim));
        let before = jacobian_terms(elements, points, active, n - 1);
        let added = element_jacobian(element, point, active, count);
        lemma_bilinear_concat(before, added, x, y);
        lemma_concat_within(before, added, active.len() as int, active.len() as int);
    }
}

/// The Jacobian of fluxes in weak form: a test on the active dofs, paired with what the Jacobian
/// makes of a change there, is the sum over the elements of the measure times the inner product
/// of what the tangent makes of the flux of the change with the flux of the test.
pub proof fn jacobian_is_weak_form<T: Scalar>(
    elements: Seq<FluxElement<T>>,
    points: Seq<PointValues<T>>,
    active: Seq<usize>,
    ndofs: nat,
    test: Seq<T>,
    change: Seq<T>,
)
    requires
        commutative_ring::<T>(),
        only_zero_is_zero::<T>(),
        points.len() == elements.len(),
        forall|e: int|
            0 <= e < elements.len() ==> (#[trigger] elements[e]).wf(
                ndofs as int,
                points[e].0.len() as int,
            ),
        active.len() <= usize::MAX,
        test.len() == active.len(),
        change.len() == active.len(),
    ensures
        pairing(
            test,
            matrix_times(flux_jacobian(elements, points, active), active.len(), change),
        ) == tangent_by_elements(
            elements,
            points,
            spread(ndofs, active, test),
            spread(ndofs, active, change),
            elements.len() as int,
        ),
{
    let n = active.len() as int;
    let terms = jacobian_terms(elements, points, active, elements.len() as int);
    lemma_terms_tested(elements, points, active, ndofs, test, change, elements.len() as int);
    pairing_by_entries(terms, n, test, change);
    let kept = nonzero(terms);
    let (a, b) = (
        matrix_times(flux_jacobian(elements, points, active), active.len(), change),
        matrix_times(terms, active.len(), change),
    );
    assert forall|r: int| 0 <= r < n implies #[trigger] a[r] == b[r] by {
        row_of_nonzero(terms, n, n, change, r);
        row_compressed(kept, n, n, change, r);
        row_of_nonzero(compressed(kept), n, n, change, r);
    }
    assert(a =~= b);
}

/// The sensitivities of an element, each with the change of its parameter, added up.
pub open spec fn material_change<T: Scalar>(columns: Seq<T>, p: Seq<T>, n: int) -> T {
    sum_products(|j: int| columns[j], |j: int| p[j], n)
}

proof fn lemma_parameters_tested<T: Scalar>(
    row: usize,
    factor: T,
    columns: Seq<T>,
    x: Seq<T>,
    p: Seq<T>,
    n: int,
)
    requires
        commutative_ring::<T>(),
        0 <= n <= columns.len() <= usize::MAX,
    ensures
        bilinear(parameter_terms(row, factor, columns, n), x, p) == x[row as int].times_spec(
            factor.times_spec(material_change(columns, p, n)),
        ),
    decreases n,
{
    let a = x[row as int];
    if n == 0 {
        ring_units(factor);
        ring_units(a);
    } else {
        lemma_parameters_tested(row, factor, columns, x, p, n - 1);
        let before = parameter_terms(row, factor, columns, n - 1);
        let item = (row, (n - 1) as usize, factor.times_spec(columns[n - 1]));
        assert(before.push(item).drop_last() =~= before);
        let s = material_change(columns, p, n - 1);
        let t = columns[n - 1].times_spec(p[n - 1]);
        ring_associates(factor, columns[n - 1], p[n - 1]);
        ring_distributes(factor, s, t);
        ring_distributes(a, factor.times_spec(s), factor.times_spec(t));
    }
}

proof fn lemma_sensitivity_tested<T: Scalar>(
    element: FluxElement<T>,
    flux: Seq<T>,
    active: Seq<usize>,
    columns: Seq<T>,
    ndofs: nat,
    x: Seq<T>,
    p: Seq<T>,
    n: int,
)
    requires
        commutative_ring::<T>(),
        only_zero_is_zero::<T>(),
        element.wf(ndofs as int, 3),
        flux.len() == 3,
        0 <= n <= element.dofs@.len(),
        active.len() <= usize::MAX,
        columns.len() <= usize::MAX,
    ensures
        bilinear(element_sensitivity(element, flux, active, columns, n), x, p)
            == element.measure.times_spec(
            inner(flux, flux_part(element, spread(ndofs, active, x), 3, n), 3),
        ).times_spec(material_change(columns, p, columns.len() as int)),
    decreases n,
{
    let full = spread(ndofs, active, x);
    let part = flux_part(element, full, 3, n);
    let m = element.measure;
    let d = material_change(columns, p, columns.len() as int);
    if n == 0 {
        lemma_inner_zero(flux, part, 3);
        ring_units(m);
        ring_units(d);
    } else {
        lemma_sensitivity_tested(element, flux, active, columns, ndofs, x, p, n - 1);
        let before = flux_part(element, full, 3, n - 1);
        let l = n - 1;
        let dof = element.dofs@[l];
        let c = full[dof as int];
        let g = element.shapes@[l]@;
        assert forall|i: int| 0 <= i < 3 implies #[trigger] part[i] == before[i].plus_spec(
            c.times_spec(g[i]),
        ) by {}
        lemma_inner_extended(flux, before, g, part, c, 3);
        let a = inner(flux, before, 3);
        let b = inner(flux, g, 3);
        ring_distributes(m, a, c.times_spec(b));
        ring_moves(m, c, b);
        let factor = row_factor(element, flux, l);
        ring_distributes(d, m.times_spec(a), c.times_spec(factor));
        ring_associates(c, factor, d);
        lemma_spread(ndofs, active, x, dof);
        ring_units(factor);
        ring_units(d);
        ring_units(c);
        let rest = m.times_spec(a).times_spec(d);
        ring_plus(rest, rest, rest);
        ring_units(factor.times_spec(d));
        let terms = element_sensitivity(element, flux, active, columns, n - 1);
        if reduced_position(active, dof) is Some {
            let row = reduced_position(active, dof)->0;
            if !factor.is_zero_spec() {
                let count = columns.len() as int;
                lemma_parameters_tested(row, factor, columns, x, p, count);
                lemma_bilinear_concat(
                    terms,
                    parameter_terms(row, factor, columns, count),
                    x,
                    p,
                );
            }
        }
    }
}

/// What the elements contribute where a sensitivity is tested: the change of the reluctivity times
/// the measure times the inner product of the flux with the flux of the test.
pub open spec fn sensitivity_by_elements<T: Scalar>(
    elements: Seq<FluxElement<T>>,
    full: Seq<T>,
    outcomes: Seq<Result<Vec<T>, String>>,
    test: Seq<T>,
    p: Seq<T>,
    n: int,
) -> T
    decreases n,
{
    if n <= 0 {
        T::zero_spec()
    } else {
        let element = elements[n - 1];
        let columns = outcomes[n - 1]->Ok_0@;
        sensitivity_by_elements(elements, full, outcomes, test, p, n - 1).plus_spec(
            element.measure.times_spec(
                inner(element.flux_spec(full, 3), element.flux_spec(test, 3), 3),
            ).times_spec(material_change(columns, p, columns.len() as int)),
        )
    }
}

/// The sensitivities in weak form: a test on the active dofs and a change of the parameters give
/// the sum over the elements of the change of the reluctivity times the measure times the inner
/// product of the flux with the flux of the test.
pub proof fn sensitivity_is_weak_form<T: Scalar>(
    elements: Seq<FluxElement<T>>,
    full: Seq<T>,
    active: Seq<usize>,
    outcomes: Seq<Result<Vec<T>, String>>,
    ndofs: nat,
    test: Seq<T>,
    p: Seq<T>,
    n: int,
)
    requires
        commutative_ring::<T>(),
        only_zero_is_zero::<T>(),
        0 <= n <= elements.len(),
        forall|e: int| 0 <= e < elements.len() ==> (#[trigger] elements[e]).wf(ndofs as int, 3),
        forall|e: int|
            0 <= e < elements.len() ==> (#[trigger] outcomes[e])->Ok_0@.len() <= usize::MAX,
        active.len() <= usize::MAX,
    ensures
        bilinear(sensitivity_terms(elements, full, active, outcomes, n), test, p)
            == sensitivity_by_elements(
            elements,
            full,
            outcomes,
            spread(ndofs, active, test),
            p,
            n,
        ),
    decreases n,
{
    if n > 0 {
        sensitivity_is_weak_form(elements, full, active, outcomes, ndofs, test, p, n - 1);
        let element = elements[n - 1];
        assert(element.wf(ndofs as int, 3));
        let columns = outcomes[n - 1]->Ok_0@;
        let count = element.dofs@.len() as int;
        let flux = element.flux_spec(full, 3);
        lemma_sensitivity_tested(element, flux, active, columns, ndofs, test, p, count);
        assert(flux_part(element, spread(ndofs, active, test), 3, count) =~= element.flux_spec(
            spread(ndofs, active, test),
            3,
        ));
        lemma_bilinear_concat(
            sensitivity_terms(elements, full, active, outcomes, n - 1),
            element_sensitivity(element, flux, active, columns, count),
            test,
            p,
        );
    }
}

} // verus!
