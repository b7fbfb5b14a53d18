//! Derivatives of Whitney forms: what they have to do with the Whitney forms of the next degree.

use crate::exterior::{axes, basis, basis_of_space};
use crate::linalg::minor_law::{
    minor_with_row_in_front, minor_with_row_twice, skipped, sum_negated, sum_without,
};
use crate::linalg::minors::{all_below, expansion, minor, signed};
use crate::linalg::ring::{
    commutative_ring, ring_associates, ring_commutes, ring_minus, ring_negated, ring_plus,
    ring_sum_plus, ring_sum_swap, ring_sum_zero, ring_units, scalar_sum, scalar_sum_same,
    scalar_sum_scaled,
};
use crate::linalg::scalar::Scalar;
use crate::operators::elements::sum_terms;
use crate::operators::quadrature_elements::whitney_value;
use crate::operators::reference::{
    barycentric, difbary, factorial_spec, slot_coefficient, standard_subsimps_spec,
    subsimplices_of_reference, total, wedge,
};
use crate::topology::simplex::{
    combinations_are_subsequences, combinations_distinct, is_subsequence, subsequence_entries,
};
use crate::whitney::dif_whitney_value;
use vstd::prelude::*;

verus! {

/// A vertex in front of a simplex.
pub open spec fn in_front(vertex: int, simplex: Seq<usize>) -> Seq<usize> {
    seq![vertex as usize] + simplex
}

proof fn lemma_same_sums<T: Scalar>(f: spec_fn(int) -> T, n: int)
    ensures
        sum_terms(f, n) == scalar_sum(n, f),
    decreases n,
{
    if n > 0 {
        lemma_same_sums(f, n - 1);
    }
}

proof fn lemma_signed_times<T: Scalar>(place: int, a: T, b: T)
    requires
        commutative_ring::<T>(),
    ensures
        signed(place, a.times_spec(b)) == signed(place, a).times_spec(b),
        signed(place, a.times_spec(b)) == b.times_spec(signed(place, a)),
{
    ring_negated(a, b);
    ring_commutes(signed(place, a), b);
}

/// The barycentric coordinates of the reference simplex add up to a constant.
proof fn lemma_differentials_cancel<T: Scalar>(axis: int, n: int)
    requires
        commutative_ring::<T>(),
        0 <= axis,
    ensures
        scalar_sum(n, |v: int| difbary::<T>()(v, axis)) == (if n <= 0 || n >= axis + 2 {
            T::zero_spec()
        } else {
            T::one_spec().negated_spec()
        }),
    decreases n,
{
    let one = T::one_spec();
    if n > 0 {
        lemma_differentials_cancel::<T>(axis, n - 1);
        let before = scalar_sum(n - 1, |v: int| difbary::<T>()(v, axis));
        ring_plus(before, before, before);
        ring_plus(one.negated_spec(), one, one);
        ring_negated(one, one);
    }
}

proof fn lemma_total_is_sum<T: Scalar>(coord: Seq<T>, n: int)
    requires
        commutative_ring::<T>(),
        0 <= n <= coord.len(),
    ensures
        scalar_sum(n + 1, |v: int| barycentric(coord)[v]) == T::one_spec().minus_spec(
            total(coord),
        ).plus_spec(total(coord.take(n))),
    decreases n,
{
    let f = |v: int| barycentric(coord)[v];
    let first = T::one_spec().minus_spec(total(coord));
    if n == 0 {
        assert(coord.take(0) =~= Seq::<T>::empty());
        assert(scalar_sum(0, f) == T::zero_spec());
        assert(scalar_sum(1, f) == T::zero_spec().plus_spec(first));
        ring_plus(first, first, first);
    } else {
        lemma_total_is_sum(coord, n - 1);
        assert(coord.take(n).drop_last() =~= coord.take(n - 1));
        assert(coord.take(n).last() == coord[n - 1]);
        assert(f(n) == coord[n - 1]);
        ring_plus(first, total(coord.take(n - 1)), coord[n - 1]);
    }
}

/// The barycentric coordinates of a point add up to one.
pub proof fn barycentrics_add_up_to_one<T: Scalar>(coord: Seq<T>)
    requires
        commutative_ring::<T>(),
    ensures
        scalar_sum(coord.len() as int + 1, |v: int| barycentric(coord)[v]) == T::one_spec(),
{
    lemma_total_is_sum(coord, coord.len() as int);
    assert(coord.take(coord.len() as int) =~= coord);
    ring_minus(T::one_spec(), total(coord));
}

proof fn lemma_front_expansion<T: Scalar>(dim: int, rest: Seq<usize>, cols: Seq<usize>, n: nat)
    requires
        commutative_ring::<T>(),
        0 <= dim < usize::MAX,
        n <= cols.len(),
        all_below(cols, dim as nat),
    ensures
        scalar_sum(dim + 1, |v: int| expansion(difbary::<T>(), in_front(v, rest), cols, n))
            == T::zero_spec(),
    decreases n,
{
    let m = difbary::<T>();
    let f = |v: int| expansion(m, in_front(v, rest), cols, n);
    if n == 0 {
        ring_sum_zero(dim + 1, f);
    } else {
        lemma_front_expansion::<T>(dim, rest, cols, (n - 1) as nat);
        let j = n - 1;
        let axis = cols[j] as int;
        let below = minor(m, rest, cols.remove(j));
        let before = |v: int| expansion(m, in_front(v, rest), cols, j as nat);
        let entry = |v: int| m(v, axis);
        let c = signed(j, below);
        let last = |v: int| c.times_spec(entry(v));
        assert forall|v: int| 0 <= v < dim + 1 implies #[trigger] f(v) == before(v).plus_spec(
            last(v),
        ) by {
            let rows = in_front(v, rest);
            assert(rows.drop_first() =~= rest);
            assert(rows[0] == v);
            lemma_signed_times(j, below, entry(v));
            ring_commutes(below, entry(v));
        }
        scalar_sum_same(dim + 1, f, |v: int| before(v).plus_spec(last(v)));
        ring_sum_plus(dim + 1, before, last);
        scalar_sum_scaled(dim + 1, c, entry);
        assert(cols[j] < dim);
        lemma_differentials_cancel::<T>(axis, dim + 1);
        ring_units(c);
        ring_plus(T::zero_spec(), T::zero_spec(), T::zero_spec());
    }
}

/// The wedge products with each of the differentials in front add up to zero.
proof fn lemma_front_wedges<T: Scalar>(dim: int, rest: Seq<usize>, b: int)
    requires
        commutative_ring::<T>(),
        0 <= dim < usize::MAX,
        0 <= b < basis(dim as nat, rest.len() + 1).len(),
    ensures
        scalar_sum(dim + 1, |v: int| wedge::<T>(dim as nat, in_front(v, rest))[b])
            == T::zero_spec(),
{
    let cols = basis(dim as nat, rest.len() + 1)[b];
    basis_of_space(dim as nat, rest.len() + 1);
    lemma_front_expansion::<T>(dim, rest, cols, cols.len());
    let f = |v: int| wedge::<T>(dim as nat, in_front(v, rest))[b];
    let g = |v: int| expansion(difbary::<T>(), in_front(v, rest), cols, cols.len());
    scalar_sum_same(dim + 1, f, g);
}

proof fn lemma_front_slot<T: Scalar>(dim: int, simplex: Seq<usize>, v: int, slot: int)
    requires
        0 <= slot <= simplex.len(),
    ensures
        slot == 0 ==> in_front(v, simplex).remove(slot) == simplex,
        slot > 0 ==> in_front(v, simplex).remove(slot) == in_front(v, simplex.remove(slot - 1)),
        slot > 0 ==> in_front(v, simplex)[slot] == simplex[slot - 1],
{
    if slot == 0 {
        assert(in_front(v, simplex).remove(0) =~= simplex);
    } else {
        assert(in_front(v, simplex).remove(slot) =~= in_front(v, simplex.remove(slot - 1)));
    }
}

/// The terms of one slot, for all vertices in front of a simplex.
proof fn lemma_front_slot_sum<T: Scalar>(
    dim: int,
    simplex: Seq<usize>,
    coord: Seq<T>,
    slot: int,
    b: int,
)
    requires
        commutative_ring::<T>(),
        0 <= dim < usize::MAX,
        coord.len() == dim,
        simplex.len() >= 1,
        0 <= slot <= simplex.len(),
        0 <= b < basis(dim as nat, simplex.len()).len(),
    ensures
        scalar_sum(
            dim + 1,
            |v: int|
                slot_coefficient(dim as nat, in_front(v, simplex), slot, barycentric(coord), b),
        ) == (if slot == 0 {
            dif_whitney_value::<T>(dim as nat, simplex, b)
        } else {
            T::zero_spec()
        }),
{
    let barys = barycentric(coord);
    let scale = T::from_count_spec(factorial_spec(simplex.len()));
    let f = |v: int| slot_coefficient(dim as nat, in_front(v, simplex), slot, barys, b);
    if slot == 0 {
        let w = wedge::<T>(dim as nat, simplex)[b];
        let c = scale.times_spec(w);
        let entry = |v: int| barys[v];
        let g = |v: int| c.times_spec(entry(v));
        assert forall|v: int| 0 <= v < dim + 1 implies #[trigger] f(v) == g(v) by {
            lemma_front_slot::<T>(dim, simplex, v, 0);
            ring_associates(scale, barys[v], w);
            ring_commutes(barys[v], w);
            ring_associates(scale, w, barys[v]);
        }
        scalar_sum_same(dim + 1, f, g);
        scalar_sum_scaled(dim + 1, c, entry);
        barycentrics_add_up_to_one(coord);
        ring_units(c);
    } else {
        let rest = simplex.remove(slot - 1);
        let c = signed(slot, scale).times_spec(barys[simplex[slot - 1] as int]);
        let entry = |v: int| wedge::<T>(dim as nat, in_front(v, rest))[b];
        let g = |v: int| c.times_spec(entry(v));
        assert forall|v: int| 0 <= v < dim + 1 implies #[trigger] f(v) == g(v) by {
            lemma_front_slot::<T>(dim, simplex, v, slot);
        }
        scalar_sum_same(dim + 1, f, g);
        scalar_sum_scaled(dim + 1, c, entry);
        lemma_front_wedges::<T>(dim, rest, b);
        ring_units(c);
    }
}

/// The derivative of the Whitney form of a simplex is the sum of the Whitney forms of the simplices
/// that each vertex of the reference simplex in front of it makes, at any point, over coefficients
/// that compute exactly.
pub proof fn derivative_is_sum_over_vertices<T: Scalar>(
    dim: int,
    simplex: Seq<usize>,
    coord: Seq<T>,
    b: int,
)
    requires
        commutative_ring::<T>(),
        0 <= dim < usize::MAX,
        coord.len() == dim,
        simplex.len() >= 1,
        0 <= b < basis(dim as nat, simplex.len()).len(),
    ensures
        scalar_sum(dim + 1, |v: int| whitney_value(dim as nat, in_front(v, simplex), coord, b))
            == dif_whitney_value::<T>(dim as nat, simplex, b),
{
    let barys = barycentric(coord);
    let n = simplex.len() as int + 1;
    let g = |v: int, slot: int|
        slot_coefficient(dim as nat, in_front(v, simplex), slot, barys, b);
    let f = |v: int| whitney_value(dim as nat, in_front(v, simplex), coord, b);
    let rows = |v: int| scalar_sum(n, |slot: int| g(v, slot));
    assert forall|v: int| 0 <= v < dim + 1 implies #[trigger] f(v) == rows(v) by {
        let h = |slot: int| slot_coefficient(dim as nat, in_front(v, simplex), slot, barys, b);
        lemma_same_sums(h, n);
        scalar_sum_same(n, h, |slot: int| g(v, slot));
    }
    scalar_sum_same(dim + 1, f, rows);
    ring_sum_swap(dim + 1, n, g);
    let cols = |slot: int| scalar_sum(dim + 1, |v: int| g(v, slot));
    let d = dif_whitney_value::<T>(dim as nat, simplex, b);
    let expected = |slot: int|
        if slot == 0 {
            d
        } else {
            T::zero_spec()
        };
    assert forall|slot: int| 0 <= slot < n implies #[trigger] cols(slot) == expected(slot) by {
        lemma_front_slot_sum(dim, simplex, coord, slot, b);
        let h = |v: int| slot_coefficient(dim as nat, in_front(v, simplex), slot, barys, b);
        scalar_sum_same(dim + 1, h, |v: int| g(v, slot));
    }
    scalar_sum_same(n, cols, expected);
    lemma_first_term(n, d);
}

proof fn lemma_first_term<T: Scalar>(n: int, d: T)
    requires
        commutative_ring::<T>(),
        n >= 1,
    ensures
        scalar_sum(
            n,
            |slot: int|
                if slot == 0 {
                    d
                } else {
                    T::zero_spec()
                },
        ) == d,
    decreases n,
{
    let f = |slot: int|
        if slot == 0 {
            d
        } else {
            T::zero_spec()
        };
    ring_plus(d, d, d);
    if n == 1 {
        assert(scalar_sum(0, f) == T::zero_spec());
        assert(scalar_sum(1, f) == scalar_sum(0, f).plus_spec(f(0)));
    } else {
        lemma_first_term(n - 1, d);
    }
}

proof fn lemma_signs<T: Scalar>(j: int, q: int, scale: T, bary: T, w: T)
    requires
        commutative_ring::<T>(),
        j >= 0,
        q >= 0,
    ensures
        signed(j, scale).times_spec(bary).times_spec(signed(q, w)) == signed(
            j + q,
            scale.times_spec(bary).times_spec(w),
        ),
{
    let c = scale.times_spec(bary);
    let x = c.times_spec(w);
    ring_negated(scale, bary);
    ring_negated(c, w);
    ring_negated(w, c);
    ring_negated(w, c.negated_spec());
    ring_negated(x, x);
}

proof fn lemma_wedge_front<T: Scalar>(dim: nat, rest: Seq<usize>, v: usize, p: int, b: int)
    requires
        commutative_ring::<T>(),
        0 <= p <= rest.len(),
        0 <= b < basis(dim, rest.len() + 1).len(),
    ensures
        wedge::<T>(dim, rest.insert(p, v))[b] == signed(
            p,
            wedge::<T>(dim, in_front(v as int, rest))[b],
        ),
        wedge::<T>(dim, in_front(v as int, rest.insert(p, v))).len() == basis(
            dim,
            rest.len() + 2,
        ).len(),
{
    let cols = basis(dim, rest.len() + 1)[b];
    minor_with_row_in_front(difbary::<T>(), rest, v, cols, p);
    assert(rest.insert(p, v).len() == rest.len() + 1);
    assert(in_front(v as int, rest) == seq![v] + rest);
}

/// The terms of the slots of a simplex with a vertex put in, and of the simplex with that vertex in
/// front.
proof fn lemma_inserted_slot<T: Scalar>(
    dim: nat,
    simplex: Seq<usize>,
    v: usize,
    p: int,
    barys: Seq<T>,
    b: int,
    i: int,
)
    requires
        commutative_ring::<T>(),
        simplex.len() >= 1,
        0 <= p <= simplex.len(),
        0 <= b < basis(dim, simplex.len()).len(),
        -1 <= i < simplex.len(),
    ensures
        slot_coefficient(
            dim,
            simplex.insert(p, v),
            if i < 0 {
                p
            } else {
                skipped(p, i)
            },
            barys,
            b,
        ) == signed(p, slot_coefficient(dim, in_front(v as int, simplex), i + 1, barys, b)),
{
    let t = simplex.insert(p, v);
    let scale = T::from_count_spec(factorial_spec(simplex.len()));
    assert(in_front(v as int, simplex).len() == simplex.len() + 1);
    lemma_front_slot::<T>(dim as int, simplex, v as int, i + 1);
    if i < 0 {
        assert(t.remove(p) =~= simplex);
        let w = wedge::<T>(dim, simplex)[b];
        let bary = barys[v as int];
        lemma_signs(p, 0, scale, bary, w);
        assert(t[p] == v);
    } else {
        let j = skipped(p, i);
        let rest = simplex.remove(i);
        let q = if i < p {
            p - 1
        } else {
            p
        };
        assert(t.remove(j) =~= rest.insert(q, v));
        assert(t[j] == simplex[i]);
        lemma_wedge_front::<T>(dim, rest, v, q, b);
        let w = wedge::<T>(dim, in_front(v as int, rest))[b];
        let bary = barys[simplex[i] as int];
        lemma_signs(j, q, scale, bary, w);
        lemma_signs(i + 1, 0, scale, bary, w);
        let x = scale.times_spec(bary).times_spec(w);
        ring_negated(x, x);
        assert((j + q) % 2 == (p + i + 1) % 2);
    }
}

/// A vertex can be moved to the front of a simplex, with a sign for each vertex that it passes: the
/// Whitney form alternates in the vertices.
pub proof fn whitney_with_vertex_in_front<T: Scalar>(
    dim: nat,
    simplex: Seq<usize>,
    v: usize,
    p: int,
    coord: Seq<T>,
    b: int,
)
    requires
        commutative_ring::<T>(),
        simplex.len() >= 1,
        0 <= p <= simplex.len(),
        0 <= b < basis(dim, simplex.len()).len(),
    ensures
        whitney_value(dim, simplex.insert(p, v), coord, b) == signed(
            p,
            whitney_value(dim, in_front(v as int, simplex), coord, b),
        ),
{
    let n = simplex.len() as int + 1;
    let barys = barycentric(coord);
    let f = |slot: int| slot_coefficient(dim, simplex.insert(p, v), slot, barys, b);
    let g = |slot: int| slot_coefficient(dim, in_front(v as int, simplex), slot, barys, b);
    let h = |slot: int| signed(p, g(slot));
    lemma_same_sums(f, n);
    lemma_same_sums(g, n);
    assert(in_front(v as int, simplex).len() == n);
    sum_without(n, p, f);
    sum_without(n, 0, h);
    let left = |i: int| f(skipped(p, i));
    let right = |i: int| h(skipped(0, i));
    assert forall|i: int| 0 <= i < n - 1 implies #[trigger] left(i) == right(i) by {
        lemma_inserted_slot(dim, simplex, v, p, barys, b, i);
    }
    scalar_sum_same(n - 1, left, right);
    lemma_inserted_slot(dim, simplex, v, p, barys, b, -1);
    if p % 2 == 0 {
        scalar_sum_same(n, h, g);
    } else {
        sum_negated(n, g);
        scalar_sum_same(n, h, |slot: int| g(slot).negated_spec());
    }
}

/// A Whitney form with a vertex twice is zero.
pub proof fn whitney_with_vertex_twice<T: Scalar>(
    dim: nat,
    simplex: Seq<usize>,
    l: int,
    coord: Seq<T>,
    b: int,
)
    requires
        commutative_ring::<T>(),
        0 <= l < simplex.len(),
        0 <= b < basis(dim, simplex.len()).len(),
    ensures
        whitney_value(dim, in_front(simplex[l] as int, simplex), coord, b) == T::zero_spec(),
{
    let v = simplex[l];
    let n = simplex.len() as int + 1;
    let barys = barycentric(coord);
    let g = |slot: int| slot_coefficient(dim, in_front(v as int, simplex), slot, barys, b);
    let scale = T::from_count_spec(factorial_spec(simplex.len()));
    let bary = barys[v as int];
    let rest = simplex.remove(l);
    let w = wedge::<T>(dim, in_front(v as int, rest))[b];
    let x = scale.times_spec(bary).times_spec(w);
    assert(in_front(v as int, simplex).len() == n);
    lemma_same_sums(g, n);
    assert(rest.insert(l, v) =~= simplex);
    lemma_wedge_front::<T>(dim, rest, v, l, b);
    lemma_front_slot::<T>(dim as int, simplex, v as int, 0);
    lemma_front_slot::<T>(dim as int, simplex, v as int, l + 1);
    lemma_signs(0, l, scale, bary, w);
    lemma_signs(l + 1, 0, scale, bary, w);
    assert(g(0) == signed(l, x));
    assert(g(l + 1) == signed(l + 1, x));
    let h = |i: int| g(skipped(0, i));
    sum_without(n, 0, g);
    sum_without(n - 1, l, h);
    let others = |i: int| h(skipped(l, i));
    assert forall|i: int| 0 <= i < n - 2 implies #[trigger] others(i) == T::zero_spec() by {
        let k = skipped(l, i);
        lemma_front_slot::<T>(dim as int, simplex, v as int, k + 1);
        let less = simplex.remove(k);
        let q = if l < k {
            l
        } else {
            l - 1
        };
        let both = less.remove(q);
        assert(both.insert(q, v) =~= less);
        let cols = basis(dim, simplex.len())[b];
        minor_with_row_twice(difbary::<T>(), both, v, cols, q);
        assert(in_front(v as int, less) == seq![v] + both.insert(q, v));
        ring_units(signed(k + 1, scale).times_spec(barys[simplex[k] as int]));
    }
    ring_sum_zero(n - 2, others);
    assert(h(l) == g(l + 1));
    ring_plus(g(l + 1), g(l + 1), g(l + 1));
    ring_negated(x, x);
    ring_plus(x.negated_spec(), x, x);
}

/// A sum with one term that may be other than zero.
pub proof fn single_term<T: Scalar>(n: int, at: int, f: spec_fn(int) -> T)
    requires
        commutative_ring::<T>(),
        0 <= at < n,
        forall|i: int| 0 <= i < n && i != at ==> #[trigger] f(i) == T::zero_spec(),
    ensures
        scalar_sum(n, f) == f(at),
{
    sum_without(n, at, f);
    let g = |i: int| f(skipped(at, i));
    ring_sum_zero(n - 1, g);
    ring_plus(f(at), f(at), f(at));
}

/// Each vertex is above those before it.
pub open spec fn ascends(simplex: Seq<usize>) -> bool {
    forall|i: int, j: int|
        0 <= i < j < simplex.len() ==> #[trigger] simplex[i] < #[trigger] simplex[j]
}

proof fn lemma_subsequence_ascends(t: Seq<usize>, s: Seq<usize>)
    requires
        ascends(s),
        is_subsequence(t, s),
    ensures
        ascends(t),
    decreases s.len(),
{
    if t.len() > 0 {
        let tail = s.drop_first();
        assert(ascends(tail)) by {
            assert forall|i: int, j: int| 0 <= i < j < tail.len() implies #[trigger] tail[i]
                < #[trigger] tail[j] by {
                assert(tail[i] == s[i + 1] && tail[j] == s[j + 1]);
            }
        }
        if t[0] == s[0] && is_subsequence(t.drop_first(), tail) {
            let rest = t.drop_first();
            lemma_subsequence_ascends(rest, tail);
            assert forall|i: int, j: int| 0 <= i < j < t.len() implies #[trigger] t[i]
                < #[trigger] t[j] by {
                assert(rest[j - 1] == t[j]);
                if i == 0 {
                    let at = subsequence_entries(rest, tail, j - 1);
                    assert(tail[at] == s[at + 1]);
                    assert(s[0] < s[at + 1]);
                } else {
                    assert(rest[i - 1] == t[i]);
                }
            }
        } else {
            lemma_subsequence_ascends(t, tail);
        }
    }
}

proof fn lemma_ascending_is_subsequence(t: Seq<usize>, s: Seq<usize>)
    requires
        ascends(s),
        ascends(t),
        forall|i: int| 0 <= i < t.len() ==> s.contains(#[trigger] t[i]),
    ensures
        is_subsequence(t, s),
    decreases s.len(),
{
    if t.len() > 0 {
        assert(s.contains(t[0]));
        let tail = s.drop_first();
        assert(ascends(tail)) by {
            assert forall|i: int, j: int| 0 <= i < j < tail.len() implies #[trigger] tail[i]
                < #[trigger] tail[j] by {
                assert(tail[i] == s[i + 1] && tail[j] == s[j + 1]);
            }
        }
        let at = choose|at: int| 0 <= at < s.len() && s[at] == t[0];
        if at > 0 {
            assert(s[0] < s[at]);
        }
        let rest = if t[0] == s[0] {
            t.drop_first()
        } else {
            t
        };
        assert(ascends(rest)) by {
            assert forall|i: int, j: int| 0 <= i < j < rest.len() implies #[trigger] rest[i]
                < #[trigger] rest[j] by {
                if t[0] == s[0] {
                    assert(rest[i] == t[i + 1] && rest[j] == t[j + 1]);
                }
            }
        }
        assert forall|i: int| 0 <= i < rest.len() implies tail.contains(#[trigger] rest[i]) by {
            let k = if t[0] == s[0] {
                i + 1
            } else {
                i
            };
            assert(rest[i] == t[k]);
            assert(s.contains(t[k]));
            let place = choose|place: int| 0 <= place < s.len() && s[place] == t[k];
            if k > 0 {
                assert(t[0] < t[k]);
            }
            assert(place > 0);
            assert(tail[place - 1] == t[k]);
        }
        lemma_ascending_is_subsequence(rest, tail);
    }
}

proof fn lemma_axes_ascend(n: nat)
    requires
        n <= usize::MAX,
    ensures
        ascends(axes(n)),
{
}

/// The subsimplices of the reference simplex ascend.
pub proof fn subsimps_ascend(dim: nat, grade: nat, t: int)
    requires
        dim < usize::MAX,
        0 <= t < standard_subsimps_spec(dim, grade).len(),
    ensures
        ascends(standard_subsimps_spec(dim, grade)[t]),
        standard_subsimps_spec(dim, grade)[t].len() == grade + 1,
        all_below(standard_subsimps_spec(dim, grade)[t], dim + 1),
{
    let set = standard_subsimps_spec(dim, grade)[t];
    subsimplices_of_reference(dim, grade);
    assert(standard_subsimps_spec(dim, grade).contains(set));
    combinations_are_subsequences(axes(dim + 1), grade + 1, set);
    lemma_axes_ascend(dim + 1);
    lemma_subsequence_ascends(set, axes(dim + 1));
}

/// The place of a vertex among the ascending vertices of a simplex.
spec fn place_among(simplex: Seq<usize>, v: usize, n: int) -> int
    decreases n,
{
    if n <= 0 {
        0
    } else if simplex[n - 1] < v {
        n
    } else {
        place_among(simplex, v, n - 1)
    }
}

proof fn lemma_place_among(simplex: Seq<usize>, v: usize, n: int)
    requires
        ascends(simplex),
        0 <= n <= simplex.len(),
        forall|i: int| n <= i < simplex.len() ==> v < #[trigger] simplex[i],
        forall|i: int| 0 <= i < simplex.len() ==> #[trigger] simplex[i] != v,
    ensures
        0 <= place_among(simplex, v, n) <= simplex.len(),
        ascends(simplex.insert(place_among(simplex, v, n), v)),
    decreases n,
{
    if n > 0 && simplex[n - 1] > v {
        lemma_place_among(simplex, v, n - 1);
    } else {
        let all = simplex.insert(n, v);
        assert forall|i: int, j: int| 0 <= i < j < all.len() implies #[trigger] all[i]
            < #[trigger] all[j] by {
            if i < n {
                assert(all[i] == simplex[i]);
                if i < n - 1 {
                    assert(simplex[i] < simplex[n - 1]);
                }
            }
            if j < n {
                assert(all[j] == simplex[j]);
            } else if j > n {
                assert(all[j] == simplex[j - 1]);
            }
            if i > n {
                assert(all[i] == simplex[i - 1]);
            }
        }
    }
}

/// A simplex with a vertex of the reference simplex put in is a subsimplex of the next dimension.
proof fn lemma_coface(dim: nat, simplex: Seq<usize>, v: usize) -> (found: (int, int))
    requires
        dim < usize::MAX,
        simplex.len() >= 1,
        ascends(simplex),
        all_below(simplex, dim + 1),
        v <= dim,
        forall|i: int| 0 <= i < simplex.len() ==> #[trigger] simplex[i] != v,
    ensures
        0 <= found.0 < standard_subsimps_spec(dim, simplex.len()).len(),
        0 <= found.1 <= simplex.len(),
        standard_subsimps_spec(dim, simplex.len())[found.0] == simplex.insert(found.1, v),
{
    let n = simplex.len() as int;
    let p = place_among(simplex, v, n);
    lemma_place_among(simplex, v, n);
    let all = simplex.insert(p, v);
    let whole = axes(dim + 1);
    assert forall|i: int| 0 <= i < all.len() implies whole.contains(#[trigger] all[i]) by {
        assert(all[i] <= dim) by {
            if i < p {
                assert(all[i] == simplex[i]);
            } else if i > p {
                assert(all[i] == simplex[i - 1]);
            }
        }
        assert(whole[all[i] as int] == all[i]);
    }
    lemma_axes_ascend(dim + 1);
    lemma_ascending_is_subsequence(all, whole);
    combinations_are_subsequences(whole, (n + 1) as nat, all);
    let sets = standard_subsimps_spec(dim, simplex.len());
    assert(sets.contains(all));
    let t = choose|t: int| 0 <= t < sets.len() && sets[t] == all;
    (t, p)
}

/// What a face of a subsimplex contributes to the derivative of the form of a simplex.
pub open spec fn face_term<T: Scalar>(
    dim: nat,
    simplex: Seq<usize>,
    coord: Seq<T>,
    b: int,
    t: int,
    j: int,
) -> T {
    let set = standard_subsimps_spec(dim, simplex.len())[t];
    if set.remove(j) == simplex {
        signed(j, whitney_value(dim, set, coord, b))
    } else {
        T::zero_spec()
    }
}

/// The same, for one vertex that the face leaves out.
spec fn vertex_term<T: Scalar>(
    dim: nat,
    simplex: Seq<usize>,
    coord: Seq<T>,
    b: int,
    t: int,
    j: int,
    v: int,
) -> T {
    let set = standard_subsimps_spec(dim, simplex.len())[t];
    if set.remove(j) == simplex && set[j] == v {
        whitney_value(dim, in_front(v, simplex), coord, b)
    } else {
        T::zero_spec()
    }
}

proof fn lemma_face_term<T: Scalar>(
    dim: nat,
    simplex: Seq<usize>,
    coord: Seq<T>,
    b: int,
    t: int,
    j: int,
)
    requires
        commutative_ring::<T>(),
        dim < usize::MAX,
        simplex.len() >= 1,
        0 <= b < basis(dim, simplex.len()).len(),
        0 <= t < standard_subsimps_spec(dim, simplex.len()).len(),
        0 <= j <= simplex.len(),
    ensures
        face_term(dim, simplex, coord, b, t, j) == scalar_sum(
            dim as int + 1,
            |v: int| vertex_term(dim, simplex, coord, b, t, j, v),
        ),
{
    let set = standard_subsimps_spec(dim, simplex.len())[t];
    let f = |v: int| vertex_term(dim, simplex, coord, b, t, j, v);
    subsimps_ascend(dim, simplex.len(), t);
    if set.remove(j) == simplex {
        let v = set[j];
        assert(simplex.insert(j, v) =~= set);
        whitney_with_vertex_in_front(dim, simplex, v, j, coord, b);
        let x = whitney_value(dim, in_front(v as int, simplex), coord, b);
        ring_negated(x, x);
        single_term(dim as int + 1, v as int, f);
    } else {
        ring_sum_zero(dim as int + 1, f);
    }
}

/// All terms of one vertex.
proof fn lemma_vertex_terms<T: Scalar>(
    dim: nat,
    simplex: Seq<usize>,
    coord: Seq<T>,
    b: int,
    v: int,
)
    requires
        commutative_ring::<T>(),
        dim < usize::MAX,
        simplex.len() >= 1,
        ascends(simplex),
        all_below(simplex, dim + 1),
        0 <= b < basis(dim, simplex.len()).len(),
        0 <= v <= dim,
    ensures
        scalar_sum(
            standard_subsimps_spec(dim, simplex.len()).len() as int,
            |t: int|
                scalar_sum(
                    simplex.len() as int + 1,
                    |j: int| vertex_term(dim, simplex, coord, b, t, j, v),
                ),
        ) == whitney_value(dim, in_front(v, simplex), coord, b),
{
    let sets = standard_subsimps_spec(dim, simplex.len());
    let n = simplex.len() as int + 1;
    let rows = |t: int| scalar_sum(n, |j: int| vertex_term(dim, simplex, coord, b, t, j, v));
    if simplex.contains(v as usize) {
        let l = choose|l: int| 0 <= l < simplex.len() && simplex[l] == v as usize;
        whitney_with_vertex_twice(dim, simplex, l, coord, b);
        assert forall|t: int| 0 <= t < sets.len() implies #[trigger] rows(t) == T::zero_spec() by {
            let f = |j: int| vertex_term(dim, simplex, coord, b, t, j, v);
            subsimps_ascend(dim, simplex.len(), t);
            let set = sets[t];
            assert forall|j: int| 0 <= j < n implies #[trigger] f(j) == T::zero_spec() by {
                if set.remove(j) == simplex && set[j] == v {
                    let k = if l < j {
                        l
                    } else {
                        l + 1
                    };
                    assert(set.remove(j)[l] == set[k]);
                    if k < j {
                        assert(set[k] < set[j]);
                    } else {
                        assert(set[j] < set[k]);
                    }
                }
            }
            ring_sum_zero(n, f);
        }
        ring_sum_zero(sets.len() as int, rows);
    } else {
        assert forall|i: int| 0 <= i < simplex.len() implies #[trigger] simplex[i] != v as usize by {
            assert(simplex.contains(simplex[i]));
        }
        let (t0, j0) = lemma_coface(dim, simplex, v as usize);
        let found = sets[t0];
        subsimps_ascend(dim, simplex.len(), t0);
        distinct_subsimps(dim, simplex.len());
        assert(found.remove(j0) =~= simplex);
        assert(found[j0] == v);
        assert forall|t: int, j: int|
            0 <= t < sets.len() && 0 <= j < n && (t != t0 || j != j0) implies
            #[trigger] vertex_term(dim, simplex, coord, b, t, j, v) == T::zero_spec() by {
            let set = sets[t];
            subsimps_ascend(dim, simplex.len(), t);
            if set.remove(j) == simplex && set[j] == v {
                assert(set =~= simplex.insert(j, v as usize));
                if j < j0 {
                    assert(found[j] == simplex[j]);
                    assert(found[j] < found[j0]);
                    assert(set[j + 1] == simplex[j]);
                    assert(set[j] < set[j + 1]);
                } else if j > j0 {
                    assert(set[j0] == simplex[j0]);
                    assert(set[j0] < set[j]);
                    assert(found[j0 + 1] == simplex[j0]);
                    assert(found[j0] < found[j0 + 1]);
                }
                assert(sets[t] == sets[t0]);
            }
        }
        assert forall|t: int| 0 <= t < sets.len() && t != t0 implies #[trigger] rows(t)
            == T::zero_spec() by {
            let f = |j: int| vertex_term(dim, simplex, coord, b, t, j, v);
            ring_sum_zero(n, f);
        }
        single_term(sets.len() as int, t0, rows);
        let f = |j: int| vertex_term(dim, simplex, coord, b, t0, j, v);
        single_term(n, j0, f);
    }
}

/// No subsimplex of the reference simplex is listed twice.
pub proof fn distinct_subsimps(dim: nat, grade: nat)
    requires
        dim < usize::MAX,
    ensures
        standard_subsimps_spec(dim, grade).no_duplicates(),
{
    assert(axes(dim + 1).no_duplicates());
    combinations_distinct(axes(dim + 1), grade + 1);
}

/// The derivative of the Whitney form of a subsimplex of the reference simplex is the sum of the
/// Whitney forms of the subsimplices that have it as a face, each with the sign of the face: the
/// Whitney form of its coboundary. This holds at any point, over coefficients that compute exactly.
pub proof fn derivative_is_form_of_coboundary<T: Scalar>(
    dim: nat,
    simplex: Seq<usize>,
    coord: Seq<T>,
    b: int,
)
    requires
        commutative_ring::<T>(),
        dim < usize::MAX,
        coord.len() == dim,
        simplex.len() >= 1,
        ascends(simplex),
        all_below(simplex, dim + 1),
        0 <= b < basis(dim, simplex.len()).len(),
    ensures
        dif_whitney_value::<T>(dim, simplex, b) == scalar_sum(
            standard_subsimps_spec(dim, simplex.len()).len() as int,
            |t: int|
                scalar_sum(
                    simplex.len() as int + 1,
                    |j: int| face_term(dim, simplex, coord, b, t, j),
                ),
        ),
{
    let nsets = standard_subsimps_spec(dim, simplex.len()).len() as int;
    let n = simplex.len() as int + 1;
    let nv = dim as int + 1;
    let rows = |t: int| scalar_sum(n, |j: int| face_term(dim, simplex, coord, b, t, j));
    let g = |t: int, v: int|
        scalar_sum(n, |j: int| vertex_term(dim, simplex, coord, b, t, j, v));
    let by_vertex = |t: int| scalar_sum(nv, |v: int| g(t, v));
    assert forall|t: int| 0 <= t < nsets implies #[trigger] rows(t) == by_vertex(t) by {
        let h = |j: int, v: int| vertex_term(dim, simplex, coord, b, t, j, v);
        let f = |j: int| face_term(dim, simplex, coord, b, t, j);
        let k = |j: int| scalar_sum(nv, |v: int| h(j, v));
        assert forall|j: int| 0 <= j < n implies #[trigger] f(j) == k(j) by {
            lemma_face_term(dim, simplex, coord, b, t, j);
            let x = |v: int| vertex_term(dim, simplex, coord, b, t, j, v);
            scalar_sum_same(nv, x, |v: int| h(j, v));
        }
        scalar_sum_same(n, f, k);
        ring_sum_swap(n, nv, h);
        let y = |v: int| scalar_sum(n, |j: int| h(j, v));
        let z = |v: int| g(t, v);
        assert forall|v: int| 0 <= v < nv implies #[trigger] y(v) == z(v) by {
            let p = |j: int| h(j, v);
            let q = |j: int| vertex_term(dim, simplex, coord, b, t, j, v);
            scalar_sum_same(n, p, q);
        }
        scalar_sum_same(nv, y, z);
    }
    scalar_sum_same(nsets, rows, by_vertex);
    ring_sum_swap(nsets, nv, g);
    let cols = |v: int| scalar_sum(nsets, |t: int| g(t, v));
    let front = |v: int| whitney_value(dim, in_front(v, simplex), coord, b);
    assert forall|v: int| 0 <= v < nv implies #[trigger] cols(v) == front(v) by {
        lemma_vertex_terms(dim, simplex, coord, b, v);
        let p = |t: int| g(t, v);
        let q = |t: int|
            scalar_sum(
                simplex.len() as int + 1,
                |j: int| vertex_term(dim, simplex, coord, b, t, j, v),
            );
        scalar_sum_same(nsets, p, q);
    }
    scalar_sum_same(nv, cols, front);
    derivative_is_sum_over_vertices(dim as int, simplex, coord, b);
}

} // verus!
