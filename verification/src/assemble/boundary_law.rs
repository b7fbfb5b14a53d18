//! What integrals over the boundary have to do with wedge products and with the facets.

use crate::assemble::boundary_terms::{
    below, boundary_value, inversions, reference_volume, share, wedge_sign, wedge_top,
};
use crate::assemble::reconstruction_law::divides_exactly;
use crate::exterior::{axes, basis};
use crate::linalg::dense::sum_products;
use crate::linalg::minors::signed;
use crate::linalg::ring::{
    commutative_ring, ring_associates, ring_commutes, ring_negated, ring_plus, ring_sum_swap,
    ring_units, scalar_sum, scalar_sum_same, scalar_sum_scaled,
};
use crate::linalg::scalar::Scalar;
use crate::operators::elements::sum_terms;
use crate::operators::quadrature_elements::whitney_value;
use crate::operators::reference::{
    barycentric, factorial_spec, slot_coefficient, standard_subsimps_spec,
};
use crate::operators::weights::SimplexQuadRule;
use crate::problems::step_law::{counts_exactly, quotient_is_product};
use crate::topology::simplex::{binomial, combinations};
use crate::whitney_law::barycentrics_add_up_to_one;
use vstd::prelude::*;

verus! {

/// How many entries are greater.
spec fn above(x: usize, b: Seq<usize>) -> nat
    decreases b.len(),
{
    if b.len() == 0 {
        0
    } else {
        above(x, b.drop_last()) + if x < b.last() {
            1nat
        } else {
            0nat
        }
    }
}

proof fn lemma_below_or_above(x: usize, b: Seq<usize>)
    requires
        !b.contains(x),
    ensures
        below(x, b) + above(x, b) == b.len(),
    decreases b.len(),
{
    if b.len() > 0 {
        let front = b.drop_last();
        assert forall|i: int| 0 <= i < front.len() implies front[i] != x by {
            assert(b[i] != x);
        }
        assert(b[b.len() - 1] != x);
        lemma_below_or_above(x, front);
    }
}

proof fn lemma_inversions_over_last(b: Seq<usize>, a: Seq<usize>)
    requires
        a.len() > 0,
    ensures
        inversions(b, a) == inversions(b, a.drop_last()) + above(a.last(), b),
    decreases b.len(),
{
    if b.len() > 0 {
        lemma_inversions_over_last(b.drop_last(), a);
    }
}

proof fn lemma_inversions_both(a: Seq<usize>, b: Seq<usize>)
    requires
        !share(a, b),
    ensures
        inversions(a, b) + inversions(b, a) == a.len() * b.len(),
    decreases a.len(),
{
    if a.len() == 0 {
        lemma_inversions_none(b, a);
        assert(a.len() * b.len() == 0) by (nonlinear_arith)
            requires
                a.len() == 0,
        ;
    } else {
        let front = a.drop_last();
        if share(front, b) {
            let (i, j) = choose|i: int, j: int|
                0 <= i < front.len() && 0 <= j < b.len() && front[i] == b[j];
            assert(a[i] == b[j]);
        }
        lemma_inversions_both(front, b);
        lemma_inversions_over_last(b, a);
        if b.contains(a.last()) {
            let j = choose|j: int| 0 <= j < b.len() && b[j] == a.last();
            assert(a[a.len() - 1] == b[j]);
        }
        lemma_below_or_above(a.last(), b);
        assert(a.len() * b.len() == front.len() * b.len() + b.len()) by (nonlinear_arith)
            requires
                a.len() == front.len() + 1,
        ;
    }
}

proof fn lemma_inversions_none(a: Seq<usize>, b: Seq<usize>)
    requires
        b.len() == 0,
    ensures
        inversions(a, b) == 0,
    decreases a.len(),
{
    if a.len() > 0 {
        lemma_inversions_none(a.drop_last(), b);
    }
}

/// A wedge product changes its sign as often as there are pairs of a factor on the left and one
/// on the right, when the sides change places.
pub proof fn wedge_sign_of_swapped_sides<T: Scalar>(a: Seq<usize>, b: Seq<usize>)
    requires
        commutative_ring::<T>(),
    ensures
        wedge_sign::<T>(a, b) == signed((a.len() * b.len()) as int, wedge_sign::<T>(b, a)),
{
    let (zero, one) = (T::zero_spec(), T::one_spec());
    ring_negated(zero, one);
    ring_plus(zero.negated_spec(), zero, zero);
    ring_negated(one, one);
    if share(a, b) {
        let (i, j) = choose|i: int, j: int| 0 <= i < a.len() && 0 <= j < b.len() && a[i] == b[j];
        assert(b[j] == a[i]);
        assert(share(b, a));
    } else {
        if share(b, a) {
            let (i, j) = choose|i: int, j: int|
                0 <= i < b.len() && 0 <= j < a.len() && b[i] == a[j];
            assert(a[j] == b[i]);
        }
        lemma_inversions_both(a, b);
    }
}

/// A wedge product of axes that are in order already has no sign.
pub proof fn wedge_sign_in_order<T: Scalar>(a: Seq<usize>, b: Seq<usize>)
    requires
        forall|i: int, j: int|
            0 <= i < a.len() && 0 <= j < b.len() ==> #[trigger] a[i] < #[trigger] b[j],
    ensures
        wedge_sign::<T>(a, b) == T::one_spec(),
{
    lemma_no_inversions(a, b);
}

proof fn lemma_none_below(x: usize, b: Seq<usize>)
    requires
        forall|j: int| 0 <= j < b.len() ==> x < #[trigger] b[j],
    ensures
        below(x, b) == 0,
    decreases b.len(),
{
    if b.len() > 0 {
        assert(x < b[b.len() - 1]);
        lemma_none_below(x, b.drop_last());
    }
}

proof fn lemma_no_inversions(a: Seq<usize>, b: Seq<usize>)
    requires
        forall|i: int, j: int|
            0 <= i < a.len() && 0 <= j < b.len() ==> #[trigger] a[i] < #[trigger] b[j],
    ensures
        inversions(a, b) == 0,
    decreases a.len(),
{
    if a.len() > 0 {
        let x = a[a.len() - 1];
        lemma_no_inversions(a.drop_last(), b);
        lemma_none_below(x, b);
    }
}

/// The sign of a wedge product with factors added on the left is the product of the signs.
pub proof fn wedge_sign_of_more_factors<T: Scalar>(a: Seq<usize>, c: Seq<usize>, b: Seq<usize>)
    requires
        commutative_ring::<T>(),
    ensures
        wedge_sign::<T>(a + c, b) == wedge_sign::<T>(a, b).times_spec(wedge_sign::<T>(c, b)),
{
    let one = T::one_spec();
    ring_units(wedge_sign::<T>(a, b));
    ring_units(wedge_sign::<T>(c, b));
    ring_negated(one, one.negated_spec());
    lemma_inversions_add(a, c, b);
    if share(a, b) {
        let (i, j) = choose|i: int, j: int| 0 <= i < a.len() && 0 <= j < b.len() && a[i] == b[j];
        assert((a + c)[i] == b[j]);
        assert(share(a + c, b));
    } else if share(c, b) {
        let (i, j) = choose|i: int, j: int| 0 <= i < c.len() && 0 <= j < b.len() && c[i] == b[j];
        assert((a + c)[a.len() + i] == b[j]);
        assert(share(a + c, b));
    } else if share(a + c, b) {
        let (i, j) = choose|i: int, j: int|
            0 <= i < (a + c).len() && 0 <= j < b.len() && (a + c)[i] == b[j];
        if i < a.len() {
            assert(a[i] == b[j]);
        } else {
            assert(c[i - a.len()] == b[j]);
        }
    }
}

proof fn lemma_inversions_add(a: Seq<usize>, c: Seq<usize>, b: Seq<usize>)
    ensures
        inversions(a + c, b) == inversions(a, b) + inversions(c, b),
    decreases c.len(),
{
    if c.len() == 0 {
        assert(a + c =~= a);
    } else {
        lemma_inversions_add(a, c.drop_last(), b);
        assert((a + c).drop_last() =~= a + c.drop_last());
    }
}

proof fn lemma_no_choices(s: Seq<usize>, m: nat)
    requires
        s.len() < m,
    ensures
        combinations(s, m).len() == 0,
    decreases s.len(),
{
    if s.len() > 0 {
        lemma_no_choices(s.drop_first(), (m - 1) as nat);
        lemma_no_choices(s.drop_first(), m);
    }
}

proof fn lemma_one_choice(s: Seq<usize>)
    ensures
        combinations(s, s.len()).len() == 1,
    decreases s.len(),
{
    if s.len() > 0 {
        lemma_one_choice(s.drop_first());
        lemma_no_choices(s.drop_first(), s.len());
    }
}

proof fn lemma_single_choices(s: Seq<usize>, i: int)
    requires
        0 <= i < s.len(),
    ensures
        combinations(s, 1).len() == s.len(),
        combinations(s, 1)[i] == seq![s[i]],
    decreases s.len(),
{
    let tail = s.drop_first();
    assert(combinations(tail, 0) =~= seq![Seq::<usize>::empty()]);
    if tail.len() == 0 {
        assert(combinations(tail, 1).len() == 0);
        assert(combinations(s, 1)[0] =~= seq![s[0]]);
    } else {
        lemma_single_choices(tail, 0);
        if i == 0 {
            assert(combinations(s, 1)[0] =~= seq![s[0]]);
        } else {
            lemma_single_choices(tail, i - 1);
            assert(combinations(s, 1)[i] == combinations(tail, 1)[i - 1]);
        }
    }
}

/// The wedge product of a function with a form of the highest degree is their product.
pub proof fn wedge_with_function<T: Scalar>(dim: nat, first: Seq<T>, second: Seq<T>)
    requires
        commutative_ring::<T>(),
    ensures
        wedge_top(dim, 0, first, second) == first[0].times_spec(second[0]),
{
    let (left, right) = (basis(dim, 0), basis(dim, dim));
    lemma_one_choice(axes(dim));
    assert(left =~= seq![Seq::<usize>::empty()]);
    assert(right.len() == 1);
    wedge_sign_in_order::<T>(left[0], right[0]);
    let f = |p: int|
        wedge_sign::<T>(left[p / 1], right[p % 1]).times_spec(first[p / 1]).times_spec(
            second[p % 1],
        );
    let v = first[0].times_spec(second[0]);
    ring_units(first[0]);
    ring_plus(v, v, v);
    assert(f(0) == v);
    assert(sum_terms(f, 0) == T::zero_spec());
    assert(sum_terms(f, 1) == v);
}

/// The wedge product of two one-forms on a plane is the area that they span: nothing for a form
/// with itself, and the opposite for the forms in the other order.
pub proof fn wedge_of_one_forms<T: Scalar>(first: Seq<T>, second: Seq<T>)
    requires
        commutative_ring::<T>(),
    ensures
        wedge_top(2, 1, first, second) == first[0].times_spec(second[1]).plus_spec(
            first[1].times_spec(second[0]).negated_spec(),
        ),
{
    let sets = basis(2, 1);
    lemma_single_choices(axes(2), 0);
    lemma_single_choices(axes(2), 1);
    let (x, y) = (sets[0], sets[1]);
    assert(x == seq![0usize] && y == seq![1usize]);
    assert(x[0] == y[0] - 1);
    wedge_sign_in_order::<T>(x, y);
    wedge_sign_of_swapped_sides::<T>(y, x);
    assert(share(x, x)) by {
        assert(x[0] == x[0]);
    }
    assert(share(y, y)) by {
        assert(y[0] == y[0]);
    }
    let f = |p: int|
        wedge_sign::<T>(sets[p / 2], sets[p % 2]).times_spec(first[p / 2]).times_spec(
            second[p % 2],
        );
    let (a, b) = (first[0].times_spec(second[1]), first[1].times_spec(second[0]));
    let (zero, one) = (T::zero_spec(), T::one_spec());
    ring_units(first[0]);
    ring_units(first[1]);
    ring_units(second[0]);
    ring_units(second[1]);
    ring_negated(one, first[1]);
    ring_negated(first[1], second[0]);
    ring_plus(zero, zero, zero);
    ring_plus(a, a, a);
    let sum = a.plus_spec(b.negated_spec());
    ring_plus(sum, sum, sum);
    assert(f(0) == zero);
    assert(f(1) == a);
    assert(f(2) == b.negated_spec());
    assert(f(3) == zero);
    reveal_with_fuel(sum_terms, 5);
    assert(sum_terms(f, 4) == sum);
}

/// The Whitney form of a vertex is its barycentric coordinate.
pub proof fn vertex_form_is_barycentric<T: Scalar>(dim: nat, coord: Seq<T>, s: int)
    requires
        commutative_ring::<T>(),
        counts_exactly::<T>(),
        0 <= s <= dim,
        dim < usize::MAX,
        coord.len() == dim,
    ensures
        whitney_value(dim, standard_subsimps_spec(dim, 0)[s], coord, 0) == barycentric(coord)[s],
{
    lemma_single_choices(axes(dim + 1), s);
    let simplex = standard_subsimps_spec(dim, 0)[s];
    assert(simplex == seq![s as usize]);
    let barys = barycentric(coord);
    let f = |slot: int| slot_coefficient(dim, simplex, slot, barys, 0);
    assert(simplex.remove(0) =~= Seq::<usize>::empty());
    assert(basis(dim, 0) =~= seq![Seq::<usize>::empty()]);
    assert(factorial_spec(0) == 1);
    assert(T::from_count_spec(0 + 1) == T::from_count_spec(0).plus_spec(T::one_spec()));
    ring_plus(T::one_spec(), T::one_spec(), T::one_spec());
    ring_units(barys[s]);
    ring_plus(barys[s], barys[s], barys[s]);
    assert(f(0) == barys[s]);
    assert(sum_terms(f, 0) == T::zero_spec());
    assert(sum_terms(f, 1) == barys[s]);
}

pub(crate) proof fn lemma_products_are_sum<T: Scalar>(
    f: spec_fn(int) -> T,
    g: spec_fn(int) -> T,
    n: int,
)
    ensures
        sum_products(f, g, n) == scalar_sum(n, |q: int| f(q).times_spec(g(q))),
    decreases n,
{
    if n > 0 {
        lemma_products_are_sum(f, g, n - 1);
    }
}

/// One point's part in the entry of a vertex.
proof fn lemma_point_of_vertex<T: Scalar>(
    rule: SimplexQuadRule<T>,
    data: Seq<Vec<T>>,
    orientation: T,
    s: int,
    q: int,
)
    requires
        commutative_ring::<T>(),
        counts_exactly::<T>(),
        rule.wf(),
        rule.dim < usize::MAX,
        0 <= q < rule.points@.len(),
        0 <= s <= rule.dim,
    ensures
        ({
            let dim = rule.dim as nat;
            let hat = Seq::new(
                binomial(dim, 0),
                |b: int|
                    whitney_value(
                        dim,
                        standard_subsimps_spec(dim, 0)[s],
                        rule.points@[q]@,
                        b,
                    ),
            );
            rule.weights@[q].times_spec(
                orientation.times_spec(wedge_top(dim, 0, hat, data[q]@)),
            ) == rule.weights@[q].times_spec(orientation.times_spec(data[q]@[0])).times_spec(
                barycentric(rule.points@[q]@)[s],
            )
        }),
{
    let dim = rule.dim as nat;
    let point = rule.points@[q]@;
    let hat = Seq::new(
        binomial(dim, 0),
        |b: int| whitney_value(dim, standard_subsimps_spec(dim, 0)[s], point, b),
    );
    vertex_form_is_barycentric(dim, point, s);
    wedge_with_function(dim, hat, data[q]@);
    let (w, c, l) = (rule.weights@[q], data[q]@[0], barycentric(point)[s]);
    assert(hat[0] == l);
    ring_commutes(l, c);
    ring_associates(orientation, c, l);
    ring_associates(w, orientation.times_spec(c), l);
}

/// The functions of the vertices add up to one, so the entries of a facet add up to the integral
/// of the data over the reference simplex. As many of these fill the cube as there are orders of
/// the axes.
pub proof fn vertex_entries_add_up_to_the_integral<T: Scalar>(
    rule: SimplexQuadRule<T>,
    data: Seq<Vec<T>>,
    orientation: T,
)
    requires
        commutative_ring::<T>(),
        counts_exactly::<T>(),
        divides_exactly(T::from_count_spec(factorial_spec(rule.dim as nat))),
        rule.wf(),
        rule.dim < usize::MAX,
        data.len() == rule.points@.len(),
    ensures
        T::from_count_spec(factorial_spec(rule.dim as nat)).times_spec(
            scalar_sum(
                rule.dim as int + 1,
                |s: int| boundary_value(0, rule, data, orientation, s),
            ),
        ) == sum_products(
            |q: int| rule.weights@[q],
            |q: int| orientation.times_spec(data[q]@[0]),
            rule.weights@.len() as int,
        ),
{
    let n = rule.dim as int + 1;
    let m = rule.weights@.len() as int;
    let count = T::from_count_spec(factorial_spec(rule.dim as nat));
    let volume = reference_volume::<T>(rule.dim as nat);
    let part = |q: int| rule.weights@[q].times_spec(orientation.times_spec(data[q]@[0]));
    let g = |s: int, q: int| part(q).times_spec(barycentric(rule.points@[q]@)[s]);
    let entry = |s: int| boundary_value(0, rule, data, orientation, s);
    let inner = |s: int| scalar_sum(m, |q: int| g(s, q));
    let scaled = |s: int| volume.times_spec(inner(s));
    assert forall|s: int| 0 <= s < n implies #[trigger] entry(s) == scaled(s) by {
        lemma_entry_of_vertex(rule, data, orientation, s);
        scalar_sum_same(
            m,
            |q: int|
                rule.weights@[q].times_spec(orientation.times_spec(data[q]@[0])).times_spec(
                    barycentric(rule.points@[q]@)[s],
                ),
            |q: int| g(s, q),
        );
    }
    scalar_sum_same(n, entry, scaled);
    scalar_sum_scaled(n, volume, inner);
    ring_sum_swap(n, m, g);
    let cols = |q: int| scalar_sum(n, |s: int| g(s, q));
    assert forall|q: int| 0 <= q < m implies #[trigger] cols(q) == part(q) by {
        let point = rule.points@[q]@;
        let coordinate = |s: int| barycentric(point)[s];
        scalar_sum_same(n, |s: int| g(s, q), |s: int| part(q).times_spec(coordinate(s)));
        scalar_sum_scaled(n, part(q), coordinate);
        barycentrics_add_up_to_one(point);
        ring_units(part(q));
    }
    scalar_sum_same(m, cols, part);
    let (f, h) = (|q: int| rule.weights@[q], |q: int| orientation.times_spec(data[q]@[0]));
    lemma_products_are_sum(f, h, m);
    scalar_sum_same(m, part, |q: int| f(q).times_spec(h(q)));
    let total = scalar_sum(m, part);
    quotient_is_product(count, T::one_spec());
    ring_associates(count, volume, total);
    ring_units(total);
}

proof fn lemma_entry_of_vertex<T: Scalar>(
    rule: SimplexQuadRule<T>,
    data: Seq<Vec<T>>,
    orientation: T,
    s: int,
)
    requires
        commutative_ring::<T>(),
        counts_exactly::<T>(),
        rule.wf(),
        rule.dim < usize::MAX,
        data.len() == rule.points@.len(),
        0 <= s <= rule.dim,
    ensures
        boundary_value(0, rule, data, orientation, s) == reference_volume::<T>(
            rule.dim as nat,
        ).times_spec(
            scalar_sum(
                rule.weights@.len() as int,
                |q: int|
                    rule.weights@[q].times_spec(orientation.times_spec(data[q]@[0])).times_spec(
                        barycentric(rule.points@[q]@)[s],
                    ),
            ),
        ),
{
    let dim = rule.dim as nat;
    let m = rule.weights@.len() as int;
    let sets = standard_subsimps_spec(dim, 0);
    let values = Seq::new(
        rule.points@.len(),
        |q: int|
            orientation.times_spec(
                wedge_top(
                    dim,
                    0,
                    Seq::new(
                        binomial(dim, 0),
                        |b: int| whitney_value(dim, sets[s], rule.points@[q]@, b),
                    ),
                    data[q]@,
                ),
            ),
    );
    let (f, h) = (|q: int| rule.weights@[q], |q: int| values[q]);
    lemma_products_are_sum(f, h, m);
    let terms = |q: int| f(q).times_spec(h(q));
    let parts = |q: int|
        rule.weights@[q].times_spec(orientation.times_spec(data[q]@[0])).times_spec(
            barycentric(rule.points@[q]@)[s],
        );
    assert forall|q: int| 0 <= q < m implies #[trigger] terms(q) == parts(q) by {
        lemma_point_of_vertex(rule, data, orientation, s, q);
    }
    scalar_sum_same(m, terms, parts);
}

} // verus!
