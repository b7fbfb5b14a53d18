//! How mass matrices depend on their weight, and on the functions they are taken of.

use crate::exterior::exterior_dim_spec;
use crate::linalg::dense::{dot_to, dot_to_is, sum_products, sum_products_same, DenseMatrix};
use crate::linalg::minors::{signed, values_of};
use crate::linalg::products::{products_commute, products_scaled, products_with_unit};
use crate::linalg::ring::{
    commutative_ring, ring_associates, ring_commutes, ring_distributes, ring_moves, ring_negated,
    ring_units,
};
use crate::linalg::scalar::Scalar;
use crate::operators::elements::{
    gramian, hodge_mass_value, inner_value, scalar_mass, sum_terms, sum_terms_same, wedge_columns,
    SimplexGeometry,
};
use crate::operators::quadrature_elements::{basis_at, nc_mass_value};
use crate::operators::reference::{
    barycentric, factorial_spec, standard_subsimps_spec, subsimplices_of_reference,
};
use crate::operators::weights::{integral, ApplyWeight, ScalarWeight, SimplexQuadRule};
use vstd::prelude::*;

verus! {

/// Factors of two columns come out of their inner product.
proof fn lemma_inner_factors<T: Scalar>(
    a: spec_fn(int, int) -> T,
    b: spec_fn(int, int) -> T,
    g: spec_fn(int, int) -> T,
    c: spec_fn(int, int) -> T,
    d: spec_fn(int, int) -> T,
    x: T,
    y: T,
    n: int,
    i: int,
    j: int,
    s: int,
    t: int,
)
    requires
        commutative_ring::<T>(),
        forall|p: int| 0 <= p < n ==> #[trigger] a(p, i) == c(p, s).times_spec(x),
        forall|p: int| 0 <= p < n ==> #[trigger] b(p, j) == d(p, t).times_spec(y),
    ensures
        inner_value(a, g, b, n, i, j) == x.times_spec(
            y.times_spec(inner_value(c, g, d, n, s, t)),
        ),
{
    let rows = |q: int| sum_products(|p: int| a(p, i), |p: int| g(p, q), n);
    let plain = |q: int| sum_products(|p: int| c(p, s), |p: int| g(p, q), n);
    let scaled = |q: int| plain(q).times_spec(x);
    let right = |q: int| b(q, j);
    let dt = |q: int| d(q, t);
    let dy = |q: int| dt(q).times_spec(y);
    assert forall|q: int| 0 <= q < n implies #[trigger] rows(q) == scaled(q) by {
        let cs = |p: int| c(p, s);
        let gq = |p: int| g(p, q);
        sum_products_same(
            |p: int| a(p, i),
            gq,
            |p: int| cs(p).times_spec(x),
            gq,
            n,
        );
        products_scaled(x, cs, gq, n);
        ring_commutes(x, sum_products(cs, gq, n));
    }
    assert forall|q: int| 0 <= q < n implies #[trigger] right(q) == dy(q) by {
        assert(b(q, j) == d(q, t).times_spec(y));
    }
    sum_products_same(rows, right, scaled, right, n);
    products_scaled(x, plain, right, n);
    sum_products_same(plain, right, plain, dy, n);
    products_commute(plain, dy, n);
    products_scaled(y, dt, plain, n);
    products_commute(dt, plain, n);
}

proof fn lemma_signed_factor<T: Scalar>(s: int, t: int, a: T, b: T)
    requires
        commutative_ring::<T>(),
        s >= 0,
        t >= 0,
    ensures
        signed(s, a).times_spec(signed(t, b)) == signed(s + t, a.times_spec(b)),
        signed(s, a).times_spec(b) == signed(s, a.times_spec(b)),
        b.times_spec(signed(s, a)) == signed(s, b.times_spec(a)),
{
    ring_negated(a, b);
    ring_negated(b, a);
    ring_negated(b, a.negated_spec());
    ring_negated(a.times_spec(b), b);
}

proof fn lemma_sum_terms_scaled<T: Scalar>(f: spec_fn(int) -> T, c: T, n: int)
    requires
        commutative_ring::<T>(),
    ensures
        sum_terms(f, n).times_spec(c) == sum_terms(|k: int| f(k).times_spec(c), n),
    decreases n,
{
    if n <= 0 {
        ring_units(c);
    } else {
        lemma_sum_terms_scaled(f, c, n - 1);
        ring_distributes(c, sum_terms(f, n - 1), f(n - 1));
    }
}

/// A constant weight scales the inner products of Whitney forms: over coefficients that compute
/// exactly, with wedge terms weighted by a number, the inner product is that number times the
/// inner product without a weight.
pub proof fn hodge_mass_scales_with_weight<T: Scalar>(
    geometry: SimplexGeometry<T>,
    grade: nat,
    weight: ScalarWeight<T>,
    weighted: DenseMatrix<T>,
    terms: DenseMatrix<T>,
    i: int,
    j: int,
)
    requires
        commutative_ring::<T>(),
        weight.is_weighted(weighted, terms),
        terms.rows() == exterior_dim_spec(geometry.dim as nat, grade),
        terms.cols() == grade + 1,
    ensures
        hodge_mass_value(geometry, grade, values_of(weighted), i, j) == hodge_mass_value(
            geometry,
            grade,
            values_of(terms),
            i,
            j,
        ).times_spec(weight.value),
{
    let c = weight.value;
    let dim = geometry.dim as nat;
    let sets = standard_subsimps_spec(dim, grade);
    let slots = (grade + 1) as int;
    let n = exterior_dim_spec(dim, grade) as int;
    let g = gramian(geometry, grade);
    let right = wedge_columns::<T>(dim, sets[j]);
    let single = T::from_count_spec(factorial_spec(grade));
    let factor = single.times_spec(single);
    let term = |p: int|
        signed(
            p / slots + p % slots,
            inner_value(values_of(terms), g, right, n, p / slots, p % slots),
        ).times_spec(
            scalar_mass(
                geometry.volume,
                dim,
                sets[i][p / slots] as int,
                sets[j][p % slots] as int,
            ),
        );
    let with_weight = |p: int|
        signed(
            p / slots + p % slots,
            inner_value(values_of(weighted), g, right, n, p / slots, p % slots),
        ).times_spec(
            scalar_mass(
                geometry.volume,
                dim,
                sets[i][p / slots] as int,
                sets[j][p % slots] as int,
            ),
        );
    let scaled = |p: int| term(p).times_spec(c);
    assert forall|p: int| 0 <= p < slots * slots implies #[trigger] with_weight(p) == scaled(p) by {
        lemma_place(p, slots, slots);
        let s = p / slots;
        let t = p % slots;
        let m = scalar_mass(geometry.volume, dim, sets[i][s] as int, sets[j][t] as int);
        let one = T::one_spec();
        let v = inner_value(values_of(terms), g, right, n, s, t);
        assert forall|b: int| 0 <= b < n implies #[trigger] values_of(weighted)(b, s) == values_of(
            terms,
        )(b, s).times_spec(c) by {
            assert(weighted.at(b, s) == terms.at(b, s).times_spec(c));
        }
        assert forall|b: int| 0 <= b < n implies #[trigger] right(b, t) == right(b, t).times_spec(
            one,
        ) by {
            ring_units(right(b, t));
        }
        lemma_inner_factors(
            values_of(weighted),
            right,
            g,
            values_of(terms),
            right,
            c,
            one,
            n,
            s,
            t,
            s,
            t,
        );
        ring_units(v);
        ring_commutes(c, v);
        lemma_signed_factor(s + t, 0, v, c);
        let sv = signed(s + t, v);
        ring_associates(sv, c, m);
        ring_commutes(c, m);
        ring_associates(sv, m, c);
    }
    sum_terms_same(with_weight, scaled, slots * slots);
    lemma_sum_terms_scaled(term, c, slots * slots);
    let total = sum_terms(term, slots * slots);
    ring_associates(total, c, factor);
    ring_commutes(c, factor);
    ring_associates(total, factor, c);
}

pub(crate) proof fn lemma_place(p: int, rows: int, cols: int)
    requires
        0 <= p < rows * cols,
        cols > 0,
    ensures
        0 <= p / cols < rows,
        0 <= p % cols < cols,
        p == cols * (p / cols) + p % cols,
{
    vstd::arithmetic::div_mod::lemma_fundamental_div_mod(p, cols);
    vstd::arithmetic::div_mod::lemma_mod_bound(p, cols);
    assert(0 <= p / cols < rows) by (nonlinear_arith)
        requires
            p == cols * (p / cols) + p % cols,
            0 <= p % cols < cols,
            0 <= p < rows * cols,
    ;
}

/// The rule integrates products of two barycentric coordinates exactly.
pub open spec fn integrates_products<T: Scalar>(
    rule: SimplexQuadRule<T>,
    volume: T,
    dim: nat,
) -> bool {
    forall|a: int, b: int|
        0 <= a <= dim && 0 <= b <= dim ==> #[trigger] integral(
            rule.weights@,
            barycentric_products(rule, a, b),
            volume,
        ) == scalar_mass(volume, dim, a, b)
}

/// The products of two barycentric coordinates at the points of a rule.
pub open spec fn barycentric_products<T: Scalar>(
    rule: SimplexQuadRule<T>,
    a: int,
    b: int,
) -> Seq<T> {
    Seq::new(
        rule.points@.len(),
        |q: int| barycentric(rule.points@[q]@)[a].times_spec(barycentric(rule.points@[q]@)[b]),
    )
}

/// An inner product of two functions of slots, with a rule that integrates exactly.
proof fn lemma_slots<T: Scalar>(
    geometry: SimplexGeometry<T>,
    grade: nat,
    rule: SimplexQuadRule<T>,
    k: int,
    l: int,
    s: int,
    t: int,
)
    requires
        commutative_ring::<T>(),
        geometry.dim < usize::MAX,
        rule.wf(),
        integrates_products(rule, geometry.volume, geometry.dim as nat),
        0 <= k < standard_subsimps_spec(geometry.dim as nat, grade).len(),
        0 <= l < standard_subsimps_spec(geometry.dim as nat, grade).len(),
        0 <= s <= grade,
        0 <= t <= grade,
    ensures
        ({
            let dim = geometry.dim as nat;
            let sets = standard_subsimps_spec(dim, grade);
            let slots = (grade + 1) as int;
            let f = T::from_count_spec(factorial_spec(grade));
            nc_mass_value(
                geometry,
                grade,
                rule,
                |q: int| basis_at(dim, grade, rule.points@[q]@),
                slots * k + s,
                slots * l + t,
            ) == signed(
                s + t,
                inner_value(
                    wedge_columns::<T>(dim, sets[k]),
                    gramian(geometry, grade),
                    wedge_columns::<T>(dim, sets[l]),
                    exterior_dim_spec(dim, grade) as int,
                    s,
                    t,
                ),
            ).times_spec(
                scalar_mass(geometry.volume, dim, sets[k][s] as int, sets[l][t] as int),
            ).times_spec(f.times_spec(f))
        }),
{
    let dim = geometry.dim as nat;
    let sets = standard_subsimps_spec(dim, grade);
    let slots = (grade + 1) as int;
    let n = exterior_dim_spec(dim, grade) as int;
    let g = gramian(geometry, grade);
    let f = T::from_count_spec(factorial_spec(grade));
    let i = slots * k + s;
    let j = slots * l + t;
    subsimplices_of_reference(dim, grade);
    vstd::arithmetic::div_mod::lemma_fundamental_div_mod_converse(i, slots, k, s);
    vstd::arithmetic::div_mod::lemma_fundamental_div_mod_converse(j, slots, l, t);
    let left = wedge_columns::<T>(dim, sets[k]);
    let right = wedge_columns::<T>(dim, sets[l]);
    let v = inner_value(left, g, right, n, s, t);
    let a = sets[k][s] as int;
    let b = sets[l][t] as int;
    assert(sets[k].len() == slots && sets[l].len() == slots);
    let sign = signed(s + t, f.times_spec(f));
    let factor = sign.times_spec(v);
    let basis = |q: int| basis_at::<T>(dim, grade, rule.points@[q]@);
    let values = Seq::new(
        rule.points@.len(),
        |q: int|
            inner_value(
                basis(q),
                g,
                basis_at(dim, grade, rule.points@[q]@),
                n,
                i,
                j,
            ),
    );
    let products = barycentric_products(rule, a, b);
    let weights = |q: int| rule.weights@[q];
    let value = |q: int| values[q];
    let plain = |q: int| products[q];
    let scaled = |q: int| plain(q).times_spec(factor);
    let m = rule.weights@.len() as int;
    assert forall|q: int| 0 <= q < m implies #[trigger] value(q) == scaled(q) by {
        let barys = barycentric(rule.points@[q]@);
        let x = signed(s, f).times_spec(barys[a]);
        let y = signed(t, f).times_spec(barys[b]);
        let col = basis_at::<T>(dim, grade, rule.points@[q]@);
        assert forall|p: int| 0 <= p < n implies #[trigger] col(p, i) == left(p, s).times_spec(
            x,
        ) by {
            ring_commutes(x, left(p, s));
        }
        assert forall|p: int| 0 <= p < n implies #[trigger] col(p, j) == right(p, t).times_spec(
            y,
        ) by {
            ring_commutes(y, right(p, t));
        }
        lemma_inner_factors(col, col, g, left, right, x, y, n, i, j, s, t);
        // x * (y * v) == (barys[a] * barys[b]) * (sign * v)
        ring_associates(x, y, v);
        lemma_signed_factor(s, t, f, f);
        lemma_four(signed(s, f), barys[a], signed(t, f), barys[b]);
        let ab = barys[a].times_spec(barys[b]);
        ring_commutes(sign, ab);
        ring_associates(ab, sign, v);
    }
    sum_products_same(weights, value, weights, scaled, m);
    products_commute(weights, scaled, m);
    products_scaled(factor, plain, weights, m);
    products_commute(plain, weights, m);
    let sum = sum_products(weights, plain, m);
    let mass = scalar_mass(geometry.volume, dim, a, b);
    assert(0 <= a <= dim && 0 <= b <= dim);
    assert(integral(rule.weights@, products, geometry.volume) == mass);
    ring_moves(geometry.volume, factor, sum);
    // factor * mass == (signed(v) * mass) * (f * f)
    let ff = f.times_spec(f);
    lemma_signed_factor(s + t, 0, ff, v);
    lemma_signed_factor(s + t, 0, v, ff);
    ring_commutes(ff, v);
    let sv = signed(s + t, v);
    assert(factor == sv.times_spec(ff));
    ring_associates(sv, ff, mass);
    ring_commutes(ff, mass);
    ring_associates(sv, mass, ff);
}

/// `(a * b) * (c * d) == (a * c) * (b * d)`.
proof fn lemma_four<T: Scalar>(a: T, b: T, c: T, d: T)
    requires
        commutative_ring::<T>(),
    ensures
        a.times_spec(b).times_spec(c.times_spec(d)) == a.times_spec(c).times_spec(b.times_spec(d)),
{
    ring_associates(a, b, c.times_spec(d));
    ring_moves(b, c, d);
    ring_associates(a, c, b.times_spec(d));
}

/// Whitney forms are the sums of the functions of their slots: over coefficients that compute
/// exactly, with a rule that integrates exactly, the inner product of two Whitney forms is the
/// sum of the inner products of their slots.
pub proof fn hodge_mass_adds_up_slots<T: Scalar>(
    geometry: SimplexGeometry<T>,
    grade: nat,
    rule: SimplexQuadRule<T>,
    k: int,
    l: int,
)
    requires
        commutative_ring::<T>(),
        geometry.dim < usize::MAX,
        rule.wf(),
        integrates_products(rule, geometry.volume, geometry.dim as nat),
        0 <= k < standard_subsimps_spec(geometry.dim as nat, grade).len(),
        0 <= l < standard_subsimps_spec(geometry.dim as nat, grade).len(),
    ensures
        ({
            let dim = geometry.dim as nat;
            let slots = (grade + 1) as int;
            sum_terms(
                |p: int|
                    nc_mass_value(
                        geometry,
                        grade,
                        rule,
                        |q: int| basis_at(dim, grade, rule.points@[q]@),
                        slots * k + p / slots,
                        slots * l + p % slots,
                    ),
                slots * slots,
            ) == hodge_mass_value(
                geometry,
                grade,
                wedge_columns::<T>(dim, standard_subsimps_spec(dim, grade)[k]),
                k,
                l,
            )
        }),
{
    let dim = geometry.dim as nat;
    let sets = standard_subsimps_spec(dim, grade);
    let slots = (grade + 1) as int;
    let f = T::from_count_spec(factorial_spec(grade));
    let nc = |p: int|
        nc_mass_value(
            geometry,
            grade,
            rule,
            |q: int| basis_at(dim, grade, rule.points@[q]@),
            slots * k + p / slots,
            slots * l + p % slots,
        );
    let term = |p: int|
        signed(
            p / slots + p % slots,
            inner_value(
                wedge_columns::<T>(dim, sets[k]),
                gramian(geometry, grade),
                wedge_columns::<T>(dim, sets[l]),
                exterior_dim_spec(dim, grade) as int,
                p / slots,
                p % slots,
            ),
        ).times_spec(
            scalar_mass(
                geometry.volume,
                dim,
                sets[k][p / slots] as int,
                sets[l][p % slots] as int,
            ),
        );
    let ff = f.times_spec(f);
    let scaled = |p: int| term(p).times_spec(ff);
    assert forall|p: int| 0 <= p < slots * slots implies #[trigger] nc(p) == scaled(p) by {
        lemma_place(p, slots, slots);
        lemma_slots(geometry, grade, rule, k, l, p / slots, p % slots);
    }
    sum_terms_same(nc, scaled, slots * slots);
    lemma_sum_terms_scaled(term, ff, slots * slots);
}

/// A constant weight scales the inner products of the functions of slots in the same way.
pub proof fn nc_mass_scales_with_weight<T: Scalar>(
    geometry: SimplexGeometry<T>,
    grade: nat,
    rule: SimplexQuadRule<T>,
    weight: ScalarWeight<T>,
    weighted: Seq<DenseMatrix<T>>,
    bases: Seq<DenseMatrix<T>>,
    i: int,
    j: int,
)
    requires
        commutative_ring::<T>(),
        rule.wf(),
        forall|q: int|
            0 <= q < rule.points@.len() ==> weight.is_weighted(#[trigger] weighted[q], bases[q])
                && bases[q].rows() == exterior_dim_spec(geometry.dim as nat, grade)
                && i < bases[q].cols(),
        0 <= i,
    ensures
        nc_mass_value(geometry, grade, rule, |q: int| values_of(weighted[q]), i, j)
            == nc_mass_value(geometry, grade, rule, |q: int| values_of(bases[q]), i, j).times_spec(
            weight.value,
        ),
{
    let c = weight.value;
    let one = T::one_spec();
    let dim = geometry.dim as nat;
    let n = exterior_dim_spec(dim, grade) as int;
    let g = gramian(geometry, grade);
    let m = rule.weights@.len() as int;
    let plain = Seq::new(
        rule.points@.len(),
        |q: int|
            inner_value(
                (|q: int| values_of(bases[q]))(q),
                g,
                basis_at(dim, grade, rule.points@[q]@),
                n,
                i,
                j,
            ),
    );
    let values = Seq::new(
        rule.points@.len(),
        |q: int|
            inner_value(
                (|q: int| values_of(weighted[q]))(q),
                g,
                basis_at(dim, grade, rule.points@[q]@),
                n,
                i,
                j,
            ),
    );
    let weights = |q: int| rule.weights@[q];
    let value = |q: int| values[q];
    let before = |q: int| plain[q];
    let scaled = |q: int| before(q).times_spec(c);
    assert forall|q: int| 0 <= q < m implies #[trigger] value(q) == scaled(q) by {
        let right = basis_at::<T>(dim, grade, rule.points@[q]@);
        let a = values_of(weighted[q]);
        let b = values_of(bases[q]);
        assert forall|p: int| 0 <= p < n implies #[trigger] a(p, i) == b(p, i).times_spec(c) by {
            assert(weighted[q].at(p, i) == bases[q].at(p, i).times_spec(c));
        }
        assert forall|p: int| 0 <= p < n implies #[trigger] right(p, j) == right(p, j).times_spec(
            one,
        ) by {
            ring_units(right(p, j));
        }
        lemma_inner_factors(a, right, g, b, right, c, one, n, i, j, i, j);
        let v = inner_value(b, g, right, n, i, j);
        ring_units(v);
        ring_commutes(c, v);
    }
    sum_products_same(weights, value, weights, scaled, m);
    products_commute(weights, scaled, m);
    products_scaled(c, before, weights, m);
    products_commute(before, weights, m);
    let sum = sum_products(weights, before, m);
    ring_moves(geometry.volume, c, sum);
    ring_commutes(c, geometry.volume.times_spec(sum));
}

/// A row of the unit matrix picks a coefficient.
proof fn lemma_unit_weight<T: Scalar>(
    weight: DenseMatrix<T>,
    coeffs: DenseMatrix<T>,
    i: int,
    j: int,
)
    requires
        commutative_ring::<T>(),
        forall|a: int, b: int|
            0 <= a < coeffs.rows() && 0 <= b < coeffs.rows() ==> #[trigger] weight.at(a, b) == (
            if a == b {
                T::one_spec()
            } else {
                T::zero_spec()
            }),
        0 <= i < coeffs.rows(),
    ensures
        dot_to(weight, coeffs, i, j, coeffs.rows() as int) == coeffs.at(i, j),
{
    let n = coeffs.rows() as int;
    let one = T::one_spec();
    let unit = |k: int|
        if k == i {
            one
        } else {
            T::zero_spec()
        };
    let column = |k: int| coeffs.at(k, j);
    dot_to_is(weight, coeffs, i, j, n, unit, column);
    products_commute(unit, column, n);
    products_with_unit(column, one, i, n);
    ring_units(column(i));
}

/// The unit matrix as a weight changes nothing: over coefficients that compute exactly, the
/// weighted coefficients are the coefficients.
pub proof fn unit_weight_changes_nothing<T: Scalar>(
    weight: DenseMatrix<T>,
    weighted: DenseMatrix<T>,
    coeffs: DenseMatrix<T>,
)
    requires
        commutative_ring::<T>(),
        weight.fits(coeffs.rows()),
        weight.is_weighted(weighted, coeffs),
        forall|i: int, j: int|
            0 <= i < coeffs.rows() && 0 <= j < coeffs.rows() ==> #[trigger] weight.at(i, j) == (
            if i == j {
                T::one_spec()
            } else {
                T::zero_spec()
            }),
    ensures
        forall|i: int, j: int|
            0 <= i < coeffs.rows() && 0 <= j < coeffs.cols() ==> #[trigger] weighted.at(i, j)
                == coeffs.at(i, j),
{
    assert forall|i: int, j: int|
        0 <= i < coeffs.rows() && 0 <= j < coeffs.cols() implies #[trigger] weighted.at(i, j)
        == coeffs.at(i, j) by {
        lemma_unit_weight(weight, coeffs, i, j);
    }
}

} // verus!
