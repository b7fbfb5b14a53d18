//! What the residuals of fluxes are, tested by states.

use crate::linalg::action_law::{front_within, push_within};
use crate::linalg::algebra::{
    matrix_times, negated_entries, reciprocal_spec, row_dot, significant, VALUE_RESOLUTION,
};
use crate::linalg::csr::compressed;
use crate::linalg::matrix_law::{
    ones, row_negated, row_of_both, row_of_sum, row_total_of_ones,
};
use crate::linalg::ring::{
    commutative_ring, ring_associates, ring_commutes, ring_distributes, ring_exchange, ring_minus,
    ring_moves, ring_negated, ring_plus, ring_units,
};
use crate::linalg::scalar::Scalar;
use crate::linalg::sparse::triplets_within;
use crate::linalg::vectors::sum_of;
use crate::problems::affine::{dot_onto, with_affine_term};
use crate::problems::derivative_law::{bilinear, pairing, pairing_by_entries};
use crate::problems::flux_elements::{
    element_residual, flux_residual, inner, residual_terms, residual_value, weighted, FluxElement,
    PointValues,
};
use crate::problems::eddy_current::{
    is_screened_model, sinusoidal_value, NonlinearScreenedEddyCurrentAssemblyConfig,
    ReducedEddyCurrent1FormSystem, ReducedNonlinearScreenedEddyCurrent1Form,
};
use crate::problems::layout::reduced_position;
use crate::problems::reduced_linear::{zeros_of, ReducedLinearPdeAssembly};
use crate::problems::reluctivity::{NonlinearReluctivityLaw, SpatialReluctivity};
use crate::problems::tetrahedra::CellForms;
use crate::problems::probe_law::{lemma_spread, spread};
use crate::problems::vector_potential::{
    curl_jacobian, curl_residual, is_gauged, row_factor, ReducedVectorPotentialMagnetostatic3d,
};
use crate::topology::complex::Complex;
use vstd::prelude::*;

verus! {

pub(crate) proof fn lemma_bilinear_concat<T: Scalar>(
    a: Seq<(usize, usize, T)>,
    b: Seq<(usize, usize, T)>,
    x: Seq<T>,
    y: Seq<T>,
)
    requires
        commutative_ring::<T>(),
    ensures
        bilinear(a + b, x, y) == bilinear(a, x, y).plus_spec(bilinear(b, x, y)),
    decreases b.len(),
{
    let left = bilinear(a, x, y);
    if b.len() == 0 {
        assert(a + b =~= a);
        ring_plus(left, left, left);
    } else {
        let front = b.drop_last();
        lemma_bilinear_concat(a, front, x, y);
        assert((a + b).drop_last() =~= a + front);
        let (r, c, v) = b.last();
        ring_plus(left, bilinear(front, x, y), x[r as int].times_spec(v.times_spec(y[c as int])));
    }
}

/// `inner` of a vector with a sum.
pub(crate) proof fn lemma_inner_extended<T: Scalar>(
    q: Seq<T>,
    f: Seq<T>,
    g: Seq<T>,
    h: Seq<T>,
    c: T,
    n: int,
)
    requires
        commutative_ring::<T>(),
        1 <= n,
        forall|k: int| 0 <= k < n ==> #[trigger] h[k] == f[k].plus_spec(c.times_spec(g[k])),
    ensures
        inner(q, h, n) == inner(q, f, n).plus_spec(c.times_spec(inner(q, g, n))),
    decreases n,
{
    let k = n - 1;
    assert(h[k] == f[k].plus_spec(c.times_spec(g[k])));
    ring_distributes(q[k], f[k], c.times_spec(g[k]));
    ring_moves(q[k], c, g[k]);
    if n > 1 {
        lemma_inner_extended(q, f, g, h, c, n - 1);
        let (a, b) = (inner(q, f, n - 1), inner(q, g, n - 1));
        let (s, t) = (q[k].times_spec(f[k]), q[k].times_spec(g[k]));
        ring_exchange(a, c.times_spec(b), s, c.times_spec(t));
        ring_distributes(c, b, t);
    }
}

pub(crate) proof fn lemma_inner_zero<T: Scalar>(q: Seq<T>, h: Seq<T>, n: int)
    requires
        commutative_ring::<T>(),
        1 <= n,
        forall|k: int| 0 <= k < n ==> #[trigger] h[k] == T::zero_spec(),
    ensures
        inner(q, h, n) == T::zero_spec(),
    decreases n,
{
    ring_units(q[n - 1]);
    assert(h[n - 1] == T::zero_spec());
    if n > 1 {
        lemma_inner_zero(q, h, n - 1);
        ring_plus(T::zero_spec(), T::zero_spec(), T::zero_spec());
    }
}

/// The flux of a state over the first dofs of an element.
pub open spec fn flux_part<T: Scalar>(
    element: FluxElement<T>,
    state: Seq<T>,
    dim: nat,
    n: int,
) -> Seq<T> {
    Seq::new(dim, |k: int| element.flux_to(state, k, n))
}

proof fn lemma_element_tested<T: Scalar>(
    element: FluxElement<T>,
    point: PointValues<T>,
    active: Seq<usize>,
    ndofs: nat,
    w: Seq<T>,
    n: int,
)
    requires
        commutative_ring::<T>(),
        element.wf(ndofs as int, point.0.len() as int),
        0 <= n <= element.dofs@.len(),
        active.len() <= usize::MAX,
    ensures
        bilinear(element_residual(element, point, active, n), w, ones(1))
            == element.measure.times_spec(
            inner(
                weighted(point),
                flux_part(element, spread(ndofs, active, w), point.0.len(), n),
                point.0.len() as int,
            ),
        ),
    decreases n,
{
    let dim = point.0.len();
    let q = weighted(point);
    let full = spread(ndofs, active, w);
    let part = flux_part(element, full, dim, n);
    if n == 0 {
        lemma_inner_zero(q, part, dim as int);
        ring_units(element.measure);
    } else {
        lemma_element_tested(element, point, active, ndofs, w, n - 1);
        let before = flux_part(element, full, dim, n - 1);
        let l = n - 1;
        let dof = element.dofs@[l];
        let c = full[dof as int];
        let g = element.shapes@[l]@;
        assert forall|k: int| 0 <= k < dim implies #[trigger] part[k] == before[k].plus_spec(
            c.times_spec(g[k]),
        ) by {}
        lemma_inner_extended(q, before, g, part, c, dim as int);
        let a = inner(q, before, dim as int);
        let b = inner(q, g, dim as int);
        ring_distributes(element.measure, a, c.times_spec(b));
        ring_moves(element.measure, c, b);
        lemma_spread(ndofs, active, w, dof);
        let terms = element_residual(element, point, active, n - 1);
        let value = residual_value(element, point, l);
        ring_units(value);
        ring_units(element.measure.times_spec(b));
        ring_plus(element.measure.times_spec(a), value, value);
        if reduced_position(active, dof) is Some {
            let row = reduced_position(active, dof)->0;
            assert(terms.push((row, 0usize, value)).drop_last() =~= terms);
        }
    }
}

/// What the elements contribute where a residual is tested: the measure times the inner product
/// of the weighted flux with the flux of the test.
pub open spec fn tested_by_elements<T: Scalar>(
    elements: Seq<FluxElement<T>>,
    points: Seq<PointValues<T>>,
    test: Seq<T>,
    n: int,
) -> T
    decreases n,
{
    if n <= 0 {
        T::zero_spec()
    } else {
        let element = elements[n - 1];
        let point = points[n - 1];
        let dim = point.0.len();
        tested_by_elements(elements, points, test, n - 1).plus_spec(
            element.measure.times_spec(
                inner(weighted(point), element.flux_spec(test, dim), dim as int),
            ),
        )
    }
}

proof fn lemma_terms_tested<T: Scalar>(
    elements: Seq<FluxElement<T>>,
    points: Seq<PointValues<T>>,
    active: Seq<usize>,
    ndofs: nat,
    w: Seq<T>,
    n: int,
)
    requires
        commutative_ring::<T>(),
        0 <= n <= elements.len(),
        points.len() == elements.len(),
        forall|e: int|
            0 <= e < elements.len() ==> (#[trigger] elements[e]).wf(
                ndofs as int,
                points[e].0.len() as int,
            ),
        active.len() <= usize::MAX,
        w.len() == active.len(),
    ensures
        bilinear(residual_terms(elements, points, active, n), w, ones(1)) == tested_by_elements(
            elements,
            points,
            spread(ndofs, active, w),
            n,
        ),
        triplets_within(residual_terms(elements, points, active, n), active.len() as int, 1),
    decreases n,
{
    if n > 0 {
        lemma_terms_tested(elements, points, active, ndofs, w, n - 1);
        let element = elements[n - 1];
        assert(element.wf(ndofs as int, points[n - 1].0.len() as int));
        let count = element.dofs@.len() as int;
        lemma_element_tested(element, points[n - 1], active, ndofs, w, count);
        let full = spread(ndofs, active, w);
        let dim = points[n - 1].0.len();
        assert(flux_part(element, full, dim, count) =~= element.flux_spec(full, dim));
        let before = residual_terms(elements, points, active, n - 1);
        let added = element_residual(element, points[n - 1], active, count);
        lemma_bilinear_concat(before, added, w, ones(1));
        lemma_element_within(element, points[n - 1], active, count);
        let all = before + added;
        assert forall|i: int| 0 <= i < all.len() implies (#[trigger] all[i]).0 < active.len()
            && all[i].1 < 1 by {
            if i < before.len() {
                assert(all[i] == before[i]);
            } else {
                assert(all[i] == added[i - before.len()]);
            }
        }
    }
}

proof fn lemma_element_within<T: Scalar>(
    element: FluxElement<T>,
    point: PointValues<T>,
    active: Seq<usize>,
    n: int,
)
    requires
        active.len() <= usize::MAX,
    ensures
        triplets_within(element_residual(element, point, active, n), active.len() as int, 1),
    decreases n,
{
    if n > 0 {
        lemma_element_within(element, point, active, n - 1);
        let before = element_residual(element, point, active, n - 1);
        let dof = element.dofs@[n - 1];
        if reduced_position(active, dof) is Some {
            let row = reduced_position(active, dof)->0;
            assert(active.contains(dof));
            assert(0 <= active.index_of(dof) < active.len());
            push_within(
                before,
                (row, 0usize, residual_value(element, point, n - 1)),
                active.len() as int,
                1,
            );
        }
    }
}

/// The residual of fluxes in weak form: paired with any test on the active dofs, it is the sum
/// over the elements of the measure times the inner product of the weighted flux with the flux of
/// the test.
pub proof fn residual_is_weak_form<T: Scalar>(
    elements: Seq<FluxElement<T>>,
    points: Seq<PointValues<T>>,
    active: Seq<usize>,
    ndofs: nat,
    test: Seq<T>,
)
    requires
        commutative_ring::<T>(),
        points.len() == elements.len(),
        forall|e: int|
            0 <= e < elements.len() ==> (#[trigger] elements[e]).wf(
                ndofs as int,
                points[e].0.len() as int,
            ),
        active.len() <= usize::MAX,
        test.len() == active.len(),
    ensures
        pairing(test, flux_residual(elements, points, active)) == tested_by_elements(
            elements,
            points,
            spread(ndofs, active, test),
            elements.len() as int,
        ),
{
    let n = elements.len() as int;
    let terms = residual_terms(elements, points, active, n);
    lemma_terms_tested(elements, points, active, ndofs, test, n);
    pairing_by_entries(terms, 1, test, ones(1));
    let (a, b) = (flux_residual(elements, points, active), matrix_times(terms, test.len(), ones(1)));
    assert forall|r: int| 0 <= r < active.len() implies #[trigger] a[r] == b[r] by {
        row_total_of_ones(terms, active.len() as int, 1, r);
    }
    assert(a =~= b);
}

/// The sensitivity of a residual to a parameter of the material is first order: where the
/// parameter moves the reluctivity by a multiple of its own sensitivity, each row moves by that
/// multiple of the row's factor times the sensitivity, and by nothing more.
pub proof fn sensitivity_is_exact<T: Scalar>(
    element: FluxElement<T>,
    flux: Seq<T>,
    nu: T,
    dnu: T,
    slope: T,
    t: T,
    l: int,
)
    requires
        commutative_ring::<T>(),
        flux.len() == 3,
    ensures
        residual_value(
            element,
            (flux, nu.plus_spec(t.times_spec(slope)), dnu),
            l,
        ) == residual_value(element, (flux, nu, dnu), l).plus_spec(
            t.times_spec(row_factor(element, flux, l).times_spec(slope)),
        ),
{
    let g = element.shapes@[l]@;
    let c = nu.plus_spec(t.times_spec(slope));
    lemma_weighted_inner((flux, c, dnu), g, 3);
    lemma_weighted_inner((flux, nu, dnu), g, 3);
    let i = inner(flux, g, 3);
    let m = element.measure;
    ring_distributes(i, nu, t.times_spec(slope));
    ring_distributes(m, nu.times_spec(i), t.times_spec(slope).times_spec(i));
    ring_associates(t, slope, i);
    ring_moves(m, t, slope.times_spec(i));
    ring_commutes(slope, i);
    ring_associates(m, i, slope);
}

proof fn lemma_weighted_inner<T: Scalar>(point: PointValues<T>, g: Seq<T>, n: int)
    requires
        commutative_ring::<T>(),
        1 <= n <= point.0.len(),
    ensures
        inner(weighted(point), g, n) == point.1.times_spec(inner(point.0, g, n)),
    decreases n,
{
    let k = n - 1;
    ring_associates(point.1, point.0[k], g[k]);
    if n > 1 {
        lemma_weighted_inner(point, g, n - 1);
        ring_distributes(point.1, inner(point.0, g, n - 1), point.0[k].times_spec(g[k]));
    }
}

proof fn lemma_dot_onto<T: Scalar>(
    start: T,
    entries: Seq<(usize, usize, T)>,
    x: Seq<T>,
    r: int,
)
    requires
        commutative_ring::<T>(),
    ensures
        dot_onto(start, entries, x, r) == start.plus_spec(row_dot(entries, x, r)),
    decreases entries.len(),
{
    if entries.len() == 0 {
        ring_plus(start, start, start);
    } else {
        let front = entries.drop_last();
        lemma_dot_onto(start, front, x, r);
        let (row, col, v) = entries.last();
        ring_plus(start, row_dot(front, x, r), v.times_spec(x[col as int]));
    }
}

/// An affine term is the bias at rest, and a change of the state changes it by what the operator
/// makes of the change.
pub proof fn affine_term_is_affine<T: Scalar>(
    residual: Seq<T>,
    operator: Seq<(usize, usize, T)>,
    bias: Seq<T>,
    state: Seq<T>,
    change: Seq<T>,
    r: int,
)
    requires
        commutative_ring::<T>(),
        0 <= r < residual.len(),
        triplets_within(operator, residual.len() as int, state.len() as int),
        change.len() == state.len(),
    ensures
        with_affine_term(residual, operator, bias, zeros_of(state.len()))[r]
            == residual[r].plus_spec(bias[r]),
        with_affine_term(residual, operator, bias, sum_of(state, change))[r] == with_affine_term(
            residual,
            operator,
            bias,
            state,
        )[r].plus_spec(row_dot(operator, change, r)),
{
    let start = residual[r].plus_spec(bias[r]);
    let zero = zeros_of::<T>(state.len());
    lemma_dot_onto(start, operator, zero, r);
    lemma_dot_onto(start, operator, state, r);
    lemma_dot_onto(start, operator, sum_of(state, change), r);
    row_of_sum(operator, residual.len() as int, state, change, r);
    ring_plus(start, row_dot(operator, state, r), row_dot(operator, change, r));
    lemma_row_of_zeros(operator, residual.len() as int, state.len(), r);
    ring_plus(start, start, start);
}

proof fn lemma_row_of_zeros<T: Scalar>(
    entries: Seq<(usize, usize, T)>,
    nrows: int,
    n: nat,
    r: int,
)
    requires
        commutative_ring::<T>(),
        triplets_within(entries, nrows, n as int),
    ensures
        row_dot(entries, zeros_of::<T>(n), r) == T::zero_spec(),
    decreases entries.len(),
{
    if entries.len() > 0 {
        let front = entries.drop_last();
        front_within(entries, nrows, n as int);
        lemma_row_of_zeros(front, nrows, n, r);
        ring_units(entries.last().2);
        ring_plus(T::zero_spec(), T::zero_spec(), T::zero_spec());
    }
}

/// A correction by the difference of a linear problem and a residual at rest gives the linear
/// problem at rest.
pub proof fn corrected_at_rest<T: Scalar>(
    residual: Seq<T>,
    operator: Seq<(usize, usize, T)>,
    bias: Seq<T>,
    linear_bias: Seq<T>,
    n: nat,
    r: int,
)
    requires
        commutative_ring::<T>(),
        0 <= r < residual.len(),
        triplets_within(operator, residual.len() as int, n as int),
        bias[r] == linear_bias[r].minus_spec(residual[r]),
    ensures
        with_affine_term(residual, operator, bias, zeros_of(n))[r] == linear_bias[r],
{
    let start = residual[r].plus_spec(bias[r]);
    lemma_dot_onto(start, operator, zeros_of(n), r);
    lemma_row_of_zeros(operator, residual.len() as int, n, r);
    ring_plus(start, start, start);
    ring_minus(linear_bias[r], residual[r]);
    ring_plus(residual[r], bias[r], bias[r]);
}

/// The Jacobian with a correction by the difference of a linear operator and the Jacobian at rest
/// acts, at rest, as the linear operator.
pub proof fn corrected_jacobian_at_rest<T: Scalar>(
    jacobian: Seq<(usize, usize, T)>,
    linear: Seq<(usize, usize, T)>,
    n: int,
    x: Seq<T>,
    r: int,
)
    requires
        commutative_ring::<T>(),
        triplets_within(jacobian, n, n),
        triplets_within(linear, n, n),
    ensures
        row_dot(
            compressed(jacobian + compressed(linear + negated_entries(jacobian))),
            x,
            r,
        ) == row_dot(linear, x, r),
{
    let neg = negated_entries(jacobian);
    assert(triplets_within(neg, n, n)) by {
        assert forall|i: int| 0 <= i < neg.len() implies (#[trigger] neg[i]).0 < n && neg[i].1
            < n by {
            assert(jacobian[i].0 < n);
        }
    }
    row_negated(jacobian, x, r);
    row_of_both(linear, neg, n, n, x, r);
    row_of_both(jacobian, compressed(linear + neg), n, n, x, r);
    let (j, l) = (row_dot(jacobian, x, r), row_dot(linear, x, r));
    ring_negated(j, j);
    let m = j.negated_spec();
    // j + (l + m) == l + (m + j)
    ring_plus(j, l.plus_spec(m), l);
    ring_plus(l, m, j);
    ring_plus(l, T::zero_spec(), l);
}

/// At rest, the residual of a gauged model without its source is the bias of the linear problem.
pub proof fn gauged_model_rests_on_the_linear_problem<T: Scalar, M: SpatialReluctivity<T>>(
    model: ReducedVectorPotentialMagnetostatic3d<T, M>,
    linear: ReducedLinearPdeAssembly<T>,
    r: int,
)
    requires
        commutative_ring::<T>(),
        model.wf(),
        is_gauged(model, linear),
        linear.residual_bias@.len() == model.layout.active_dofs@.len(),
        0 <= r < model.layout.active_dofs@.len(),
    ensures
        model.source_free_with(model.material, zeros_of(model.layout.active_dofs@.len()))[r]
            == linear.residual_bias@[r],
{
    let n = model.layout.active_dofs@.len();
    let zero = zeros_of::<T>(n);
    corrected_at_rest(
        curl_residual(model.material, model.cells, model.layout, zero),
        model.hodge_coulomb_operator.entries(),
        model.hodge_coulomb_bias@,
        linear.residual_bias@,
        n,
        r,
    );
}

/// At rest, the Jacobian of a gauged model does what the operator of the linear problem does,
/// where nothing of their difference is small enough to be dropped.
pub proof fn gauged_jacobian_rests_on_the_linear_problem<T: Scalar, M: SpatialReluctivity<T>>(
    model: ReducedVectorPotentialMagnetostatic3d<T, M>,
    linear: ReducedLinearPdeAssembly<T>,
    x: Seq<T>,
    r: int,
)
    requires
        commutative_ring::<T>(),
        is_gauged(model, linear),
        ({
            let n = model.layout.active_dofs@.len();
            let jacobian = curl_jacobian(
                model.material,
                model.cells,
                model.layout,
                zeros_of(n),
            );
            let apart = compressed(linear.operator.entries() + negated_entries(jacobian));
            &&& triplets_within(linear.operator.entries(), n as int, n as int)
            &&& triplets_within(jacobian, n as int, n as int)
            &&& significant(apart, reciprocal_spec(VALUE_RESOLUTION as nat)) == apart
        }),
    ensures
        row_dot(
            model.jacobian_with(model.material, zeros_of(model.layout.active_dofs@.len())),
            x,
            r,
        ) == row_dot(linear.operator.entries(), x, r),
{
    let n = model.layout.active_dofs@.len();
    corrected_jacobian_at_rest(
        curl_jacobian(model.material, model.cells, model.layout, zeros_of(n)),
        linear.operator.entries(),
        n as int,
        x,
        r,
    );
}

/// Without growth of the reluctivity, the operator of a screened problem does what its curls and
/// its conductivity do together, where nothing of it is small enough to be dropped, and its bias
/// is that of both.
pub proof fn screened_operator_adds_conductivity<T: Scalar>(
    model: ReducedNonlinearScreenedEddyCurrent1Form<T>,
    topology: &Complex,
    forms: Seq<CellForms<T>>,
    config: NonlinearScreenedEddyCurrentAssemblyConfig<T>,
    linear: ReducedEddyCurrent1FormSystem<T>,
    n: nat,
    x: Seq<T>,
    r: int,
)
    requires
        commutative_ring::<T>(),
        is_screened_model(model, topology, forms, config, linear),
        triplets_within(linear.curl_curl.entries(), n as int, n as int),
        triplets_within(linear.conductivity_mass.entries(), n as int, n as int),
        linear.curl_curl_fixed_bias@.len() == n,
        linear.conductivity_fixed_bias@.len() == n,
        ({
            let both = compressed(
                linear.curl_curl.entries() + linear.conductivity_mass.entries(),
            );
            significant(both, reciprocal_spec(VALUE_RESOLUTION as nat)) == both
        }),
        0 <= r < n,
    ensures
        row_dot(model.beta_zero_operator.entries(), x, r) == row_dot(
            linear.curl_curl.entries(),
            x,
            r,
        ).plus_spec(row_dot(linear.conductivity_mass.entries(), x, r)),
        model.beta_zero_bias@[r] == linear.curl_curl_fixed_bias@[r].plus_spec(
            linear.conductivity_fixed_bias@[r],
        ),
{
    row_of_both(
        linear.curl_curl.entries(),
        linear.conductivity_mass.entries(),
        n as int,
        n as int,
        x,
        r,
    );
}

/// Each component of the sinusoidal source, times the sine along its own axis, is the amplitude
/// times all three sines.
pub proof fn sinusoidal_source_is_symmetric<T: Scalar>(sines: Seq<T>, amplitude: T, axis: int)
    requires
        commutative_ring::<T>(),
        0 <= axis < 3,
    ensures
        sinusoidal_value(sines, amplitude)[axis].times_spec(sines[axis]) == amplitude.times_spec(
            sines[0].times_spec(sines[1].times_spec(sines[2])),
        ),
{
    let (x, y, z) = (sines[0], sines[1], sines[2]);
    if axis == 0 {
        ring_associates(amplitude, y, z);
        ring_associates(amplitude, y.times_spec(z), x);
        ring_commutes(y.times_spec(z), x);
    } else if axis == 1 {
        ring_associates(amplitude, z, x);
        ring_associates(amplitude, z.times_spec(x), y);
        ring_commutes(z, x);
        ring_associates(x, z, y);
        ring_commutes(z, y);
    } else {
        ring_associates(amplitude, x, y);
        ring_associates(amplitude, x.times_spec(y), z);
        ring_associates(x, y, z);
    }
}

/// A reluctivity grows with the squared flux by its slope, and at rest it is the reference of the
/// linear problem.
pub proof fn reluctivity_grows_by_its_slope<T: Scalar>(
    law: NonlinearReluctivityLaw<T>,
    point: Seq<T>,
    s: T,
    t: T,
)
    requires
        commutative_ring::<T>(),
    ensures
        law.nu_spec(point, s.plus_spec(t)) == law.nu_spec(point, s).plus_spec(
            law.d_nu_ds_spec(point, s).times_spec(t),
        ),
        law.nu_spec(point, T::zero_spec()) == law.linear_reference_spec(point),
        law.linear_reference_spec(point) == law.nu0,
        law.d_nu_ds_spec(point, s) == law.nu0.times_spec(law.beta),
{
    let (nu0, beta) = (law.nu0, law.beta);
    let (bs, bt) = (beta.times_spec(s), beta.times_spec(t));
    ring_distributes(beta, s, t);
    ring_plus(T::one_spec(), bs, bt);
    ring_distributes(nu0, T::one_spec().plus_spec(bs), bt);
    ring_associates(nu0, beta, t);
    ring_units(beta);
    ring_plus(T::one_spec(), bs, bt);
    ring_units(nu0);
}

} // verus!
