//! What the element vectors of sources have to do with the inner products of Whitney forms.

use crate::exterior::exterior_dim_spec;
use crate::linalg::dense::{sum_products, sum_products_same};
use crate::linalg::products::{products_commute, products_of_sums, products_with_zeros};
use crate::linalg::ring::{commutative_ring, ring_distributes, ring_plus, ring_units};
use crate::linalg::scalar::Scalar;
use crate::operators::elements::{
    gramian, hodge_mass_value, inner_value, inner_value_same, sum_terms, sum_terms_same,
    wedge_columns, SimplexGeometry,
};
use crate::operators::mass_laws::{hodge_mass_adds_up_slots, integrates_products, lemma_place};
use crate::operators::quadrature_elements::{
    basis_at, nc_mass_value, whitney_table, whitney_value,
};
use crate::operators::reference::{
    barycentric, slot_coefficient, standard_subsimps_spec, subsimplices_of_reference,
};
use crate::operators::source::source_value;
use crate::operators::weights::{integral, SimplexQuadRule};
use vstd::prelude::*;

verus! {

/// The first columns added up.
spec fn added<T: Scalar>(c: spec_fn(int, int) -> T, m: int) -> spec_fn(int) -> T {
    |p: int| sum_terms(|s: int| c(p, s), m)
}

/// Sums of columns have the sums of the products.
proof fn lemma_products_of_added<T: Scalar>(
    c: spec_fn(int, int) -> T,
    g: spec_fn(int) -> T,
    n: int,
    m: int,
)
    requires
        commutative_ring::<T>(),
    ensures
        sum_products(added(c, m), g, n) == sum_terms(
            |s: int| sum_products(|p: int| c(p, s), g, n),
            m,
        ),
    decreases m,
{
    let products = |s: int| sum_products(|p: int| c(p, s), g, n);
    if m <= 0 {
        products_with_zeros(added(c, m), g, n);
    } else {
        lemma_products_of_added(c, g, n, m - 1);
        let (f, h) = (added(c, m - 1), |p: int| c(p, m - 1));
        sum_products_same(added(c, m), g, |p: int| f(p).plus_spec(h(p)), g, n);
        products_of_sums(f, h, g, n);
        assert(products(m - 1) == sum_products(h, g, n));
    }
}

/// A row of the metric with a column.
spec fn metric_row<T: Scalar>(
    a: spec_fn(int) -> T,
    g: spec_fn(int, int) -> T,
    n: int,
) -> spec_fn(int) -> T {
    |q: int| sum_products(a, |p: int| g(p, q), n)
}

/// The inner product of two columns.
spec fn inner_columns<T: Scalar>(
    a: spec_fn(int) -> T,
    g: spec_fn(int, int) -> T,
    b: spec_fn(int) -> T,
    n: int,
) -> T {
    sum_products(metric_row(a, g, n), b, n)
}

proof fn lemma_same_columns<T: Scalar>(
    a: spec_fn(int) -> T,
    b: spec_fn(int) -> T,
    g: spec_fn(int, int) -> T,
    c: spec_fn(int) -> T,
    d: spec_fn(int) -> T,
    n: int,
)
    requires
        forall|p: int| 0 <= p < n ==> #[trigger] a(p) == c(p),
        forall|p: int| 0 <= p < n ==> #[trigger] b(p) == d(p),
    ensures
        inner_columns(a, g, b, n) == inner_columns(c, g, d, n),
{
    let (rows, others) = (metric_row(a, g, n), metric_row(c, g, n));
    assert forall|q: int| 0 <= q < n implies #[trigger] rows(q) == others(q) by {
        lemma_same_row(a, g, c, n, q);
    }
    sum_products_same(rows, b, others, d, n);
}

proof fn lemma_same_row<T: Scalar>(
    a: spec_fn(int) -> T,
    g: spec_fn(int, int) -> T,
    c: spec_fn(int) -> T,
    n: int,
    q: int,
)
    requires
        forall|p: int| 0 <= p < n ==> #[trigger] a(p) == c(p),
    ensures
        metric_row(a, g, n)(q) == metric_row(c, g, n)(q),
{
    let column = |p: int| g(p, q);
    sum_products_same(a, column, c, column, n);
}

proof fn lemma_row_of_added<T: Scalar>(
    c: spec_fn(int, int) -> T,
    g: spec_fn(int, int) -> T,
    n: int,
    m: int,
    q: int,
)
    requires
        commutative_ring::<T>(),
        m > 0,
    ensures
        metric_row(added(c, m), g, n)(q) == metric_row(added(c, m - 1), g, n)(q).plus_spec(
            metric_row(|p: int| c(p, m - 1), g, n)(q),
        ),
{
    let column = |p: int| g(p, q);
    let (f, h) = (added(c, m - 1), |p: int| c(p, m - 1));
    sum_products_same(added(c, m), column, |p: int| f(p).plus_spec(h(p)), column, n);
    products_of_sums(f, h, column, n);
}

/// The inner product of a sum of columns is the sum of their inner products.
proof fn lemma_inner_of_added<T: Scalar>(
    c: spec_fn(int, int) -> T,
    g: spec_fn(int, int) -> T,
    b: spec_fn(int) -> T,
    n: int,
    m: int,
)
    requires
        commutative_ring::<T>(),
    ensures
        inner_columns(added(c, m), g, b, n) == sum_terms(
            |s: int| inner_columns(|p: int| c(p, s), g, b, n),
            m,
        ),
    decreases m,
{
    let terms = |s: int| inner_columns(|p: int| c(p, s), g, b, n);
    let rows = metric_row(added(c, m), g, n);
    if m <= 0 {
        assert forall|q: int| 0 <= q < n implies #[trigger] rows(q) == T::zero_spec() by {
            products_with_zeros(added(c, m), |p: int| g(p, q), n);
        }
        products_with_zeros(rows, b, n);
    } else {
        lemma_inner_of_added(c, g, b, n, m - 1);
        let front = metric_row(added(c, m - 1), g, n);
        let last = metric_row(|p: int| c(p, m - 1), g, n);
        let both = |q: int| front(q).plus_spec(last(q));
        assert forall|q: int| 0 <= q < n implies #[trigger] rows(q) == both(q) by {
            lemma_row_of_added(c, g, n, m, q);
        }
        sum_products_same(rows, b, both, b, n);
        products_of_sums(front, last, b, n);
        assert(terms(m - 1) == inner_columns(|p: int| c(p, m - 1), g, b, n));
    }
}

proof fn lemma_inner_with_added<T: Scalar>(
    a: spec_fn(int) -> T,
    g: spec_fn(int, int) -> T,
    c: spec_fn(int, int) -> T,
    n: int,
    m: int,
)
    requires
        commutative_ring::<T>(),
    ensures
        inner_columns(a, g, added(c, m), n) == sum_terms(
            |s: int| inner_columns(a, g, |p: int| c(p, s), n),
            m,
        ),
{
    let row = metric_row(a, g, n);
    products_commute(row, added(c, m), n);
    lemma_products_of_added(c, row, n, m);
    let (f, h) = (
        |s: int| sum_products(|p: int| c(p, s), row, n),
        |s: int| inner_columns(a, g, |p: int| c(p, s), n),
    );
    assert forall|s: int| 0 <= s < m implies #[trigger] f(s) == h(s) by {
        products_commute(|p: int| c(p, s), row, n);
    }
    sum_terms_same(f, h, m);
}

proof fn lemma_sums_joined<T: Scalar>(f: spec_fn(int) -> T, first: int, k: int)
    requires
        commutative_ring::<T>(),
        0 <= first,
        0 <= k,
    ensures
        sum_terms(f, first + k) == sum_terms(f, first).plus_spec(
            sum_terms(|b: int| f(first + b), k),
        ),
    decreases k,
{
    let head = sum_terms(f, first);
    if k == 0 {
        ring_plus(head, head, head);
    } else {
        lemma_sums_joined(f, first, k - 1);
        ring_plus(head, sum_terms(|b: int| f(first + b), k - 1), f(first + k - 1));
    }
}

/// A sum of rows is the sum over all places.
proof fn lemma_rows_in_a_line<T: Scalar>(f: spec_fn(int, int) -> T, m: int, k: int)
    requires
        commutative_ring::<T>(),
        0 <= m,
        0 < k,
    ensures
        sum_terms(|a: int| sum_terms(|b: int| f(a, b), k), m) == sum_terms(
            |p: int| f(p / k, p % k),
            m * k,
        ),
    decreases m,
{
    let line = |p: int| f(p / k, p % k);
    let rows = |a: int| sum_terms(|b: int| f(a, b), k);
    if m == 0 {
        assert(m * k == 0) by (nonlinear_arith)
            requires
                m == 0,
        ;
    } else {
        let a = m - 1;
        lemma_rows_in_a_line(f, a, k);
        assert(m * k == a * k + k && a * k >= 0) by (nonlinear_arith)
            requires
                m == a + 1,
                a >= 0,
                k > 0,
        ;
        lemma_sums_joined(line, a * k, k);
        let (tail, row) = (|b: int| line(a * k + b), |b: int| f(a, b));
        assert forall|b: int| 0 <= b < k implies #[trigger] tail(b) == row(b) by {
            vstd::arithmetic::div_mod::lemma_fundamental_div_mod_converse(a * k + b, k, a, b);
        }
        sum_terms_same(tail, row, k);
        assert(rows(a) == sum_terms(row, k));
    }
}

/// The integral of a sum is the sum of the integrals.
proof fn lemma_integral_of_sum<T: Scalar>(
    weights: Seq<T>,
    f: spec_fn(int, int) -> T,
    volume: T,
    m: int,
)
    requires
        commutative_ring::<T>(),
    ensures
        integral(weights, Seq::new(weights.len(), |q: int| sum_terms(|p: int| f(q, p), m)), volume)
            == sum_terms(
            |p: int| integral(weights, Seq::new(weights.len(), |q: int| f(q, p)), volume),
            m,
        ),
    decreases m,
{
    let n = weights.len() as int;
    let w = |q: int| weights[q];
    let sums = Seq::new(weights.len(), |q: int| sum_terms(|p: int| f(q, p), m));
    sum_products_same(w, |q: int| sums[q], w, added(f, m), n);
    products_commute(w, added(f, m), n);
    lemma_products_of_added(f, w, n, m);
    let (plain, parts) = (
        |p: int| sum_products(|q: int| f(q, p), w, n),
        |p: int| integral(weights, Seq::new(weights.len(), |q: int| f(q, p)), volume),
    );
    assert forall|p: int| 0 <= p < m implies #[trigger] parts(p) == volume.times_spec(
        plain(p),
    ) by {
        lemma_integral_at(weights, f, volume, p);
    }
    lemma_sum_scaled(volume, plain, m);
    sum_terms_same(parts, |p: int| volume.times_spec(plain(p)), m);
}

proof fn lemma_integral_at<T: Scalar>(
    weights: Seq<T>,
    f: spec_fn(int, int) -> T,
    volume: T,
    p: int,
)
    requires
        commutative_ring::<T>(),
    ensures
        integral(weights, Seq::new(weights.len(), |q: int| f(q, p)), volume) == volume.times_spec(
            sum_products(|q: int| f(q, p), |q: int| weights[q], weights.len() as int),
        ),
{
    let n = weights.len() as int;
    let w = |q: int| weights[q];
    let column = |q: int| f(q, p);
    let values = Seq::new(weights.len(), column);
    sum_products_same(w, |q: int| values[q], w, column, n);
    products_commute(w, column, n);
}

proof fn lemma_sum_scaled<T: Scalar>(c: T, f: spec_fn(int) -> T, m: int)
    requires
        commutative_ring::<T>(),
    ensures
        c.times_spec(sum_terms(f, m)) == sum_terms(|p: int| c.times_spec(f(p)), m),
    decreases m,
{
    if m <= 0 {
        ring_units(c);
    } else {
        lemma_sum_scaled(c, f, m - 1);
        ring_distributes(c, sum_terms(f, m - 1), f(m - 1));
    }
}

/// The coefficients of the slots of a simplex at a point.
spec fn slots_at<T: Scalar>(dim: nat, simplex: Seq<usize>, coord: Seq<T>) -> spec_fn(
    int,
    int,
) -> T {
    |b: int, s: int| slot_coefficient(dim, simplex, s, barycentric(coord), b)
}

/// The inner product of two Whitney forms at a point is the sum over their slots.
proof fn lemma_inner_at_point<T: Scalar>(
    geometry: SimplexGeometry<T>,
    grade: nat,
    coord: Seq<T>,
    value: Seq<T>,
    k: int,
    l: int,
)
    requires
        commutative_ring::<T>(),
        geometry.dim < usize::MAX,
        0 <= k < standard_subsimps_spec(geometry.dim as nat, grade).len(),
        0 <= l < standard_subsimps_spec(geometry.dim as nat, grade).len(),
        forall|b: int|
            0 <= b < exterior_dim_spec(geometry.dim as nat, grade) ==> #[trigger] value[b]
                == whitney_value(
                geometry.dim as nat,
                standard_subsimps_spec(geometry.dim as nat, grade)[k],
                coord,
                b,
            ),
    ensures
        ({
            let dim = geometry.dim as nat;
            let slots = (grade + 1) as int;
            let n = exterior_dim_spec(dim, grade) as int;
            inner_value(
                |b: int, c: int| value[b],
                gramian(geometry, grade),
                whitney_table(dim, grade, coord),
                n,
                0,
                l,
            ) == sum_terms(
                |p: int|
                    inner_value(
                        basis_at(dim, grade, coord),
                        gramian(geometry, grade),
                        basis_at(dim, grade, coord),
                        n,
                        slots * k + p / slots,
                        slots * l + p % slots,
                    ),
                slots * slots,
            )
        }),
{
    let dim = geometry.dim as nat;
    let slots = (grade + 1) as int;
    let n = exterior_dim_spec(dim, grade) as int;
    let g = gramian(geometry, grade);
    let sets = standard_subsimps_spec(dim, grade);
    subsimplices_of_reference(dim, grade);
    assert(sets[k].len() == slots && sets[l].len() == slots);
    let (left, right) = (slots_at(dim, sets[k], coord), slots_at(dim, sets[l], coord));
    let (whole, table) = (|b: int, c: int| value[b], whitney_table(dim, grade, coord));
    let (first, second) = (|b: int| whole(b, 0), |b: int| table(b, l));
    assert forall|b: int| 0 <= b < n implies #[trigger] first(b) == added(left, slots)(b) by {
        lemma_whitney_is_added(dim, sets[k], coord, b);
        assert(value[b] == whitney_value(dim, sets[k], coord, b));
    }
    assert forall|b: int| 0 <= b < n implies #[trigger] second(b) == added(right, slots)(b) by {
        lemma_whitney_is_added(dim, sets[l], coord, b);
    }
    lemma_inner_is_columns(whole, g, table, n, 0, l);
    lemma_same_columns(first, second, g, added(left, slots), added(right, slots), n);
    lemma_inner_of_added(left, g, added(right, slots), n, slots);
    let pair = |s: int, t: int|
        inner_columns(|p: int| left(p, s), g, |p: int| right(p, t), n);
    let (rows, sums) = (
        |s: int| inner_columns(|p: int| left(p, s), g, added(right, slots), n),
        |s: int| sum_terms(|t: int| pair(s, t), slots),
    );
    assert forall|s: int| 0 <= s < slots implies #[trigger] rows(s) == sums(s) by {
        lemma_row_of_pairs(left, g, right, n, slots, s);
        let plain = |t: int| inner_columns(|p: int| left(p, s), g, |p: int| right(p, t), n);
        sum_terms_same(plain, |t: int| pair(s, t), slots);
    }
    sum_terms_same(rows, sums, slots);
    lemma_rows_in_a_line(pair, slots, slots);
    let line = |p: int| pair(p / slots, p % slots);
    let basis = basis_at(dim, grade, coord);
    let terms = |p: int|
        inner_value(basis, g, basis, n, slots * k + p / slots, slots * l + p % slots);
    assert forall|p: int| 0 <= p < slots * slots implies #[trigger] line(p) == terms(p) by {
        lemma_place(p, slots, slots);
        lemma_slot_pair(dim, grade, coord, g, n, k, l, p / slots, p % slots);
    }
    sum_terms_same(line, terms, slots * slots);
}

proof fn lemma_whitney_is_added<T: Scalar>(dim: nat, simplex: Seq<usize>, coord: Seq<T>, b: int)
    ensures
        whitney_value(dim, simplex, coord, b) == added(
            slots_at(dim, simplex, coord),
            simplex.len() as int,
        )(b),
{
    let f = |slot: int| slot_coefficient(dim, simplex, slot, barycentric(coord), b);
    let c = slots_at(dim, simplex, coord);
    sum_terms_same(f, |s: int| c(b, s), simplex.len() as int);
}

proof fn lemma_inner_is_columns<T: Scalar>(
    a: spec_fn(int, int) -> T,
    g: spec_fn(int, int) -> T,
    b: spec_fn(int, int) -> T,
    n: int,
    i: int,
    j: int,
)
    ensures
        inner_value(a, g, b, n, i, j) == inner_columns(|p: int| a(p, i), g, |q: int| b(q, j), n),
{
    let f = |q: int| sum_products(|p: int| a(p, i), |p: int| g(p, q), n);
    let right = |q: int| b(q, j);
    sum_products_same(f, right, metric_row(|p: int| a(p, i), g, n), right, n);
}

proof fn lemma_row_of_pairs<T: Scalar>(
    left: spec_fn(int, int) -> T,
    g: spec_fn(int, int) -> T,
    right: spec_fn(int, int) -> T,
    n: int,
    slots: int,
    s: int,
)
    requires
        commutative_ring::<T>(),
    ensures
        inner_columns(|p: int| left(p, s), g, added(right, slots), n) == sum_terms(
            |t: int| inner_columns(|p: int| left(p, s), g, |p: int| right(p, t), n),
            slots,
        ),
{
    lemma_inner_with_added(|p: int| left(p, s), g, right, n, slots);
}

proof fn lemma_slot_pair<T: Scalar>(
    dim: nat,
    grade: nat,
    coord: Seq<T>,
    g: spec_fn(int, int) -> T,
    n: int,
    k: int,
    l: int,
    s: int,
    t: int,
)
    requires
        0 <= s <= grade,
        0 <= t <= grade,
        0 <= k,
        0 <= l,
    ensures
        ({
            let slots = (grade + 1) as int;
            let sets = standard_subsimps_spec(dim, grade);
            let (left, right) = (slots_at(dim, sets[k], coord), slots_at(dim, sets[l], coord));
            inner_columns(|p: int| left(p, s), g, |p: int| right(p, t), n) == inner_value(
                basis_at(dim, grade, coord),
                g,
                basis_at(dim, grade, coord),
                n,
                slots * k + s,
                slots * l + t,
            )
        }),
{
    let slots = (grade + 1) as int;
    let sets = standard_subsimps_spec(dim, grade);
    let (left, right) = (slots_at(dim, sets[k], coord), slots_at(dim, sets[l], coord));
    let basis = basis_at(dim, grade, coord);
    assert(slots * k == k * slots && slots * l == l * slots) by (nonlinear_arith);
    vstd::arithmetic::div_mod::lemma_fundamental_div_mod_converse(slots * k + s, slots, k, s);
    vstd::arithmetic::div_mod::lemma_fundamental_div_mod_converse(slots * l + t, slots, l, t);
    lemma_inner_is_columns(basis, g, basis, n, slots * k + s, slots * l + t);
    lemma_same_columns(
        |p: int| left(p, s),
        |p: int| right(p, t),
        g,
        |p: int| basis(p, slots * k + s),
        |p: int| basis(p, slots * l + t),
        n,
    );
}

/// The element vector of a Whitney form is its row of the mass: with a rule that integrates
/// products exactly, a source with the values of the Whitney form of a simplex has the inner
/// products of that form with all Whitney forms.
pub proof fn source_of_whitney_form_is_its_mass<T: Scalar>(
    geometry: SimplexGeometry<T>,
    grade: nat,
    rule: SimplexQuadRule<T>,
    values: Seq<Vec<T>>,
    k: int,
    l: int,
)
    requires
        commutative_ring::<T>(),
        geometry.dim < usize::MAX,
        rule.wf(),
        integrates_products(rule, geometry.volume, geometry.dim as nat),
        0 <= k < standard_subsimps_spec(geometry.dim as nat, grade).len(),
        0 <= l < standard_subsimps_spec(geometry.dim as nat, grade).len(),
        values.len() == rule.points@.len(),
        forall|q: int, b: int|
            0 <= q < values.len() && 0 <= b < exterior_dim_spec(geometry.dim as nat, grade)
                ==> #[trigger] values[q]@[b] == whitney_value(
                geometry.dim as nat,
                standard_subsimps_spec(geometry.dim as nat, grade)[k],
                rule.points@[q]@,
                b,
            ),
    ensures
        source_value(geometry, grade, rule, values, l) == hodge_mass_value(
            geometry,
            grade,
            wedge_columns::<T>(
                geometry.dim as nat,
                standard_subsimps_spec(geometry.dim as nat, grade)[k],
            ),
            k,
            l,
        ),
{
    let dim = geometry.dim as nat;
    let slots = (grade + 1) as int;
    let n = exterior_dim_spec(dim, grade) as int;
    let g = gramian(geometry, grade);
    let count = rule.points@.len();
    hodge_mass_adds_up_slots(geometry, grade, rule, k, l);
    let f = |q: int, p: int|
        inner_value(
            basis_at(dim, grade, rule.points@[q]@),
            g,
            basis_at(dim, grade, rule.points@[q]@),
            n,
            slots * k + p / slots,
            slots * l + p % slots,
        );
    let inner = Seq::new(
        count,
        |q: int|
            inner_value(
                |b: int, c: int| values[q]@[b],
                g,
                whitney_table(dim, grade, rule.points@[q]@),
                n,
                0,
                l,
            ),
    );
    let sums = Seq::new(rule.weights@.len(), |q: int| sum_terms(|p: int| f(q, p), slots * slots));
    assert forall|q: int| 0 <= q < count implies #[trigger] inner[q] == sums[q] by {
        let value = values[q]@;
        assert forall|b: int| 0 <= b < n implies #[trigger] value[b] == whitney_value(
            dim,
            standard_subsimps_spec(dim, grade)[k],
            rule.points@[q]@,
            b,
        ) by {
            assert(values[q]@[b] == value[b]);
        }
        let coord = rule.points@[q]@;
        lemma_inner_at_point(geometry, grade, coord, value, k, l);
        let table = whitney_table(dim, grade, coord);
        let (whole, given) = (|b: int, c: int| value[b], |b: int, c: int| values[q]@[b]);
        inner_value_same(whole, g, table, given, g, table, n, 0, l);
        let plain = |p: int|
            inner_value(
                basis_at(dim, grade, coord),
                g,
                basis_at(dim, grade, coord),
                n,
                slots * k + p / slots,
                slots * l + p % slots,
            );
        sum_terms_same(plain, |p: int| f(q, p), slots * slots);
    }
    assert(inner =~= sums);
    lemma_integral_of_sum(rule.weights@, f, geometry.volume, slots * slots);
    let (parts, masses) = (
        |p: int|
            integral(
                rule.weights@,
                Seq::new(rule.weights@.len(), |q: int| f(q, p)),
                geometry.volume,
            ),
        |p: int|
            nc_mass_value(
                geometry,
                grade,
                rule,
                |q: int| basis_at(dim, grade, rule.points@[q]@),
                slots * k + p / slots,
                slots * l + p % slots,
            ),
    );
    assert forall|p: int| 0 <= p < slots * slots implies #[trigger] parts(p) == masses(p) by {
        lemma_slot_mass(geometry, grade, rule, slots * k + p / slots, slots * l + p % slots);
        assert(Seq::new(rule.weights@.len(), |q: int| f(q, p)) =~= slot_products(
            geometry,
            grade,
            rule,
            slots * k + p / slots,
            slots * l + p % slots,
        ));
    }
    sum_terms_same(parts, masses, slots * slots);
}

spec fn slot_products<T: Scalar>(
    geometry: SimplexGeometry<T>,
    grade: nat,
    rule: SimplexQuadRule<T>,
    i: int,
    j: int,
) -> Seq<T> {
    let dim = geometry.dim as nat;
    Seq::new(
        rule.points@.len(),
        |q: int|
            inner_value(
                basis_at(dim, grade, rule.points@[q]@),
                gramian(geometry, grade),
                basis_at(dim, grade, rule.points@[q]@),
                exterior_dim_spec(dim, grade) as int,
                i,
                j,
            ),
    )
}

proof fn lemma_slot_mass<T: Scalar>(
    geometry: SimplexGeometry<T>,
    grade: nat,
    rule: SimplexQuadRule<T>,
    i: int,
    j: int,
)
    ensures
        nc_mass_value(
            geometry,
            grade,
            rule,
            |q: int| basis_at(geometry.dim as nat, grade, rule.points@[q]@),
            i,
            j,
        ) == integral(
            rule.weights@,
            slot_products(geometry, grade, rule, i, j),
            geometry.volume,
        ),
{
    let dim = geometry.dim as nat;
    let left = |q: int| basis_at(dim, grade, rule.points@[q]@);
    assert(slot_products(geometry, grade, rule, i, j) =~= Seq::new(
        rule.points@.len(),
        |q: int|
            inner_value(
                left(q),
                gramian(geometry, grade),
                basis_at(dim, grade, rule.points@[q]@),
                exterior_dim_spec(dim, grade) as int,
                i,
                j,
            ),
    ));
}

} // verus!
