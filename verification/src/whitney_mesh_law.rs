//! On a mesh, the derivative of the Whitney form of a cochain is the Whitney form of its
//! derivative.

use crate::exterior::{axes, basis_of_space};
use crate::io::fields::Cochain;
use crate::linalg::algebra::row_dot;
use crate::linalg::blocks::sign_entries;
use crate::linalg::csr::{compressed, compressed_exists};
use crate::linalg::dense::sum_products;
use crate::linalg::minor_law::{skipped, sum_without};
use crate::linalg::minors::signed;
use crate::linalg::ring::{
    commutative_ring, compressing_keeps_products, ring_commutes, ring_is_exact, ring_negated,
    ring_plus, ring_sum_swap, ring_units, scalar_sum, scalar_sum_same, scalar_sum_scaled,
};
use crate::linalg::scalar::Scalar;
use crate::linalg::sparse::{transposed, triplets_within};
use crate::operators::quadrature_elements::whitney_value;
use crate::operators::reference::standard_subsimps_spec;
use crate::topology::complex::Complex;
use crate::topology::incidence::{boundary_column, incidence, incidence_within};
use crate::topology::simplex::{
    boundary_faces, combinations, combinations_are_subsequences, combinations_count, prepend_all,
    subsequence_remove,
};
use crate::whitney::{
    derivative_entries, dif_whitney_on, dif_whitney_value, is_derivative, whitney_at,
};
use crate::whitney::{DifWhitneyForm, WhitneyForm};
use crate::whitney_law::{
    derivative_is_form_of_coboundary, distinct_subsimps, face_term, single_term, subsimps_ascend,
};
use vstd::prelude::*;

verus! {

proof fn lemma_products_sum<T: Scalar>(f: spec_fn(int) -> T, g: spec_fn(int) -> T, n: int)
    ensures
        sum_products(f, g, n) == scalar_sum(n, |k: int| f(k).times_spec(g(k))),
    decreases n,
{
    if n > 0 {
        lemma_products_sum(f, g, n - 1);
    }
}

/// A sum from behind.
proof fn lemma_sum_reversed<T: Scalar>(n: int, f: spec_fn(int) -> T)
    requires
        commutative_ring::<T>(),
    ensures
        scalar_sum(n, |i: int| f(n - 1 - i)) == scalar_sum(n, f),
    decreases n,
{
    let g = |i: int| f(n - 1 - i);
    if n > 0 {
        let tail = |i: int| f(i + 1);
        lemma_sum_reversed(n - 1, tail);
        let back = |i: int| tail(n - 2 - i);
        scalar_sum_same(n - 1, g, back);
        sum_without(n, 0, f);
        let rest = |i: int| f(skipped(0, i));
        scalar_sum_same(n - 1, rest, tail);
        assert(g(n - 1) == f(0));
        ring_plus(scalar_sum(n - 1, tail), f(0), f(0));
    }
}

proof fn lemma_row_concat<T: Scalar>(
    a: Seq<(usize, usize, T)>,
    b: Seq<(usize, usize, T)>,
    x: Seq<T>,
    r: int,
)
    requires
        commutative_ring::<T>(),
    ensures
        row_dot(a + b, x, r) == row_dot(a, x, r).plus_spec(row_dot(b, x, r)),
    decreases b.len(),
{
    let left = row_dot(a, x, r);
    if b.len() == 0 {
        assert(a + b =~= a);
        ring_plus(left, left, left);
    } else {
        let last = b.last();
        assert((a + b).drop_last() =~= a + b.drop_last());
        assert((a + b).last() == last);
        lemma_row_concat(a, b.drop_last(), x, r);
        ring_plus(left, row_dot(b.drop_last(), x, r), last.2.times_spec(x[last.1 as int]));
    }
}

proof fn lemma_other_rows<T: Scalar>(entries: Seq<(usize, usize, T)>, x: Seq<T>, r: int)
    requires
        forall|i: int| 0 <= i < entries.len() ==> (#[trigger] entries[i]).0 != r,
    ensures
        row_dot(entries, x, r) == T::zero_spec(),
    decreases entries.len(),
{
    if entries.len() > 0 {
        let front = entries.drop_last();
        assert forall|i: int| 0 <= i < front.len() implies (#[trigger] front[i]).0 != r by {
            assert(front[i] == entries[i]);
        }
        assert(entries[entries.len() - 1].0 != r);
        lemma_other_rows(front, x, r);
    }
}

proof fn lemma_one_row<T: Scalar>(entries: Seq<(usize, usize, T)>, x: Seq<T>, r: int)
    requires
        forall|i: int| 0 <= i < entries.len() ==> (#[trigger] entries[i]).0 == r,
    ensures
        row_dot(entries, x, r) == scalar_sum(
            entries.len() as int,
            |i: int| entries[i].2.times_spec(x[entries[i].1 as int]),
        ),
    decreases entries.len(),
{
    let f = |i: int| entries[i].2.times_spec(x[entries[i].1 as int]);
    if entries.len() > 0 {
        let front = entries.drop_last();
        assert forall|i: int| 0 <= i < front.len() implies (#[trigger] front[i]).0 == r by {
            assert(front[i] == entries[i]);
        }
        lemma_one_row(front, x, r);
        assert(entries[entries.len() - 1].0 == r);
        let g = |i: int| front[i].2.times_spec(x[front[i].1 as int]);
        scalar_sum_same(front.len() as int, g, f);
    }
}

/// The values of a cochain on the faces of a simplex, with the signs of the faces.
pub open spec fn face_sum<T: Scalar>(
    sup: Seq<usize>,
    subs: Seq<Seq<usize>>,
    x: Seq<T>,
) -> T {
    scalar_sum(
        sup.len() as int,
        |j: int| signed(j, x[(subs.index_of(sup.remove(j)) as usize) as int]),
    )
}

/// The boundaries with rows and columns exchanged, as coefficients.
spec fn coboundary_entries<T: Scalar>(sups: Seq<Seq<usize>>, subs: Seq<Seq<usize>>) -> Seq<
    (usize, usize, T),
> {
    sign_entries::<T>(transposed(incidence(sups, subs)))
}

proof fn lemma_column_sum<T: Scalar>(
    sup: Seq<usize>,
    c: int,
    subs: Seq<Seq<usize>>,
    x: Seq<T>,
)
    requires
        commutative_ring::<T>(),
        0 <= c <= usize::MAX,
    ensures
        row_dot(sign_entries::<T>(transposed(boundary_column(sup, c, subs))), x, c) == face_sum(
            sup,
            subs,
            x,
        ),
{
    let n = sup.len() as int;
    let entries = sign_entries::<T>(transposed(boundary_column(sup, c, subs)));
    lemma_one_row(entries, x, c);
    let f = |i: int| entries[i].2.times_spec(x[entries[i].1 as int]);
    let g = |j: int| signed(j, x[(subs.index_of(sup.remove(j)) as usize) as int]);
    let back = |i: int| g(n - 1 - i);
    assert forall|i: int| 0 <= i < n implies #[trigger] f(i) == back(i) by {
        let j = n - 1 - i;
        let value = x[(subs.index_of(sup.remove(j)) as usize) as int];
        assert(boundary_faces(sup)[i].0 == sup.remove(j));
        ring_units(value);
        ring_negated(T::one_spec(), value);
    }
    scalar_sum_same(n, f, back);
    lemma_sum_reversed(n, g);
}

proof fn lemma_coboundary_row<T: Scalar>(
    sups: Seq<Seq<usize>>,
    subs: Seq<Seq<usize>>,
    x: Seq<T>,
    r: int,
)
    requires
        commutative_ring::<T>(),
        sups.len() <= usize::MAX,
        0 <= r < usize::MAX,
    ensures
        row_dot(coboundary_entries::<T>(sups, subs), x, r) == (if r < sups.len() {
            face_sum(sups[r], subs, x)
        } else {
            T::zero_spec()
        }),
    decreases sups.len(),
{
    if sups.len() > 0 {
        let front = sups.drop_last();
        let c = sups.len() - 1;
        lemma_coboundary_row(front, subs, x, r);
        let before = coboundary_entries::<T>(front, subs);
        let added = sign_entries::<T>(transposed(boundary_column(sups.last(), c, subs)));
        assert(coboundary_entries::<T>(sups, subs) =~= before + added);
        lemma_row_concat(before, added, x, r);
        let s = row_dot(before, x, r);
        ring_plus(s, s, s);
        if r == c {
            lemma_column_sum(sups.last(), c, subs, x);
            let t = row_dot(added, x, r);
            ring_plus(t, t, t);
        } else {
            lemma_other_rows(added, x, r);
            if r < c {
                assert(front[r] == sups[r]);
            }
        }
    }
}

/// The derivative of a cochain has on a simplex the values on its faces, with their signs.
pub proof fn derivative_adds_up_faces<T: Scalar>(
    d: Cochain<T>,
    cochain: Cochain<T>,
    complex: Complex,
    r: int,
)
    requires
        commutative_ring::<T>(),
        complex.wf(),
        cochain.on(complex),
        cochain.dim < complex.dimension(),
        is_derivative(d, cochain, complex),
        0 <= r < complex.simplices(cochain.dim + 1).len(),
    ensures
        d.coeffs@[r] == face_sum(
            complex.simplices(cochain.dim + 1)[r],
            complex.simplices(cochain.dim as int),
            cochain.coeffs@,
        ),
{
    let k = cochain.dim + 1;
    let sups = complex.simplices(k);
    let subs = complex.simplices(k - 1);
    let x = cochain.coeffs@;
    complex.faces_are_listed(k);
    complex.machine_sized_levels(k);
    incidence_within(sups, subs, k);
    let entries = coboundary_entries::<T>(sups, subs);
    let list = incidence(sups, subs);
    assert(triplets_within(entries, sups.len() as int, subs.len() as int)) by {
        assert forall|i: int| 0 <= i < entries.len() implies (#[trigger] entries[i]).0
            < sups.len() && entries[i].1 < subs.len() by {
            assert(list[i].0 < subs.len() && list[i].1 < sups.len());
        }
    }
    assert(derivative_entries::<T>(complex, cochain.dim as int) == compressed(entries));
    compressed_exists(entries, sups.len() as int, subs.len() as int);
    assert(row_dot(compressed(entries), x, r) == row_dot(entries, x, r)) by {
        ring_is_exact::<T>();
        compressing_keeps_products(
            entries,
            compressed(entries),
            sups.len() as int,
            subs.len() as int,
            x,
            r,
        );
    }
    lemma_coboundary_row(sups, subs, x, r);
}

/// The entries of a list at the given places.
pub open spec fn picked(list: Seq<usize>, places: Seq<usize>) -> Seq<usize> {
    Seq::new(places.len(), |i: int| list[places[i] as int])
}

proof fn lemma_picked_combinations(list: Seq<usize>, places: Seq<usize>, m: nat, i: int)
    requires
        0 <= i < combinations(places, m).len(),
    ensures
        combinations(picked(list, places), m).len() == combinations(places, m).len(),
        combinations(picked(list, places), m)[i] == picked(list, combinations(places, m)[i]),
    decreases places.len(),
{
    let all = picked(list, places);
    combinations_count(all, m);
    combinations_count(places, m);
    if m == 0 {
        assert(picked(list, combinations(places, m)[i]) =~= Seq::<usize>::empty());
    } else {
        let tail = places.drop_first();
        assert(all.drop_first() =~= picked(list, tail));
        let shorter = combinations(tail, (m - 1) as nat);
        let taken = prepend_all(places[0], shorter);
        let left = combinations(tail, m);
        combinations_count(tail, (m - 1) as nat);
        combinations_count(all.drop_first(), (m - 1) as nat);
        combinations_count(tail, m);
        if i < taken.len() {
            lemma_picked_combinations(list, tail, (m - 1) as nat, i);
            assert(combinations(places, m)[i] == seq![places[0]] + shorter[i]);
            assert(combinations(all, m)[i] == seq![all[0]] + combinations(
                all.drop_first(),
                (m - 1) as nat,
            )[i]);
            assert(picked(list, seq![places[0]] + shorter[i]) =~= seq![all[0]] + picked(
                list,
                shorter[i],
            ));
        } else {
            lemma_picked_combinations(list, tail, m, i - taken.len());
            assert(combinations(places, m)[i] == left[i - taken.len()]);
            assert(combinations(all, m)[i] == combinations(all.drop_first(), m)[i - taken.len()]);
        }
    }
}

/// The subsimplices of a cell are those of the reference simplex with the vertices of the cell.
proof fn lemma_cell_subsimplex(complex: Complex, cell: int, grade: nat, s: int)
    requires
        complex.wf(),
        0 <= cell < complex.simplices(complex.dimension()).len(),
        0 <= s < standard_subsimps_spec(complex.dimension() as nat, grade).len(),
    ensures
        ({
            let vertices = complex.simplices(complex.dimension())[cell];
            let set = standard_subsimps_spec(complex.dimension() as nat, grade)[s];
            &&& complex.subsimplices(complex.dimension(), cell, grade as int).len()
                == standard_subsimps_spec(complex.dimension() as nat, grade).len()
            &&& combinations(vertices, grade + 1)[s] == picked(vertices, set)
            &&& complex.subsimplices(complex.dimension(), cell, grade as int)[s]
                == complex.simplices(grade as int).index_of(picked(vertices, set)) as usize
        }),
{
    let dim = complex.dimension();
    complex.has_dimension();
    complex.machine_sized_levels(dim);
    complex.simplex_facts(dim);
    let vertices = complex.simplices(dim)[cell];
    let places = axes((dim + 1) as nat);
    assert(vertices.len() == dim + 1);
    assert(picked(vertices, places) =~= vertices);
    lemma_picked_combinations(vertices, places, grade + 1, s);
}

/// A face of a subsimplex of the reference simplex is a subsimplex.
proof fn lemma_face_place(dim: nat, grade: nat, t: int, j: int) -> (s: int)
    requires
        dim < usize::MAX,
        0 <= t < standard_subsimps_spec(dim, grade + 1).len(),
        0 <= j <= grade + 1,
    ensures
        0 <= s < standard_subsimps_spec(dim, grade).len(),
        standard_subsimps_spec(dim, grade)[s] == standard_subsimps_spec(dim, grade + 1)[t].remove(
            j,
        ),
{
    let set = standard_subsimps_spec(dim, grade + 1)[t];
    let whole = axes(dim + 1);
    subsimps_ascend(dim, grade + 1, t);
    assert(standard_subsimps_spec(dim, grade + 1).contains(set));
    combinations_are_subsequences(whole, grade + 2, set);
    subsequence_remove(set, whole, j);
    combinations_are_subsequences(whole, grade + 1, set.remove(j));
    let sets = standard_subsimps_spec(dim, grade);
    assert(sets.contains(set.remove(j)));
    choose|s: int| 0 <= s < sets.len() && sets[s] == set.remove(j)
}

/// The term of a face in the product of the derivative of a cochain with a Whitney form, over all
/// subsimplices that the face may be.
proof fn lemma_face_terms<T: Scalar>(
    cochain: Cochain<T>,
    complex: Complex,
    cell: int,
    local: Seq<T>,
    b: int,
    t: int,
    j: int,
)
    requires
        commutative_ring::<T>(),
        complex.wf(),
        cochain.on(complex),
        cochain.dim < complex.dimension(),
        0 <= cell < complex.simplices(complex.dimension()).len(),
        0 <= t < standard_subsimps_spec(
            complex.dimension() as nat,
            (cochain.dim + 1) as nat,
        ).len(),
        0 <= j <= cochain.dim + 1,
    ensures
        ({
            let dim = complex.dimension() as nat;
            let grade = cochain.dim as nat;
            let sets = standard_subsimps_spec(dim, grade);
            let dofs = complex.subsimplices(complex.dimension(), cell, grade as int);
            let vertices = complex.simplices(complex.dimension())[cell];
            let set = standard_subsimps_spec(dim, grade + 1)[t];
            let at = complex.simplices(grade as int).index_of(picked(vertices, set).remove(j))
                as usize;
            signed(j, cochain.coeffs@[at as int]).times_spec(whitney_value(dim, set, local, b))
                == scalar_sum(
                sets.len() as int,
                |s: int|
                    cochain.coeffs@[dofs[s] as int].times_spec(
                        face_term(dim, sets[s], local, b, t, j),
                    ),
            )
        }),
{
    let dim = complex.dimension() as nat;
    let grade = cochain.dim as nat;
    let sets = standard_subsimps_spec(dim, grade);
    let dofs = complex.subsimplices(complex.dimension(), cell, grade as int);
    let vertices = complex.simplices(complex.dimension())[cell];
    let set = standard_subsimps_spec(dim, grade + 1)[t];
    let w = whitney_value(dim, set, local, b);
    complex.has_dimension();
    complex.machine_sized_levels(0);
    subsimps_ascend(dim, grade + 1, t);
    let s0 = lemma_face_place(dim, grade, t, j);
    lemma_cell_subsimplex(complex, cell, grade, s0);
    assert(picked(vertices, set).remove(j) =~= picked(vertices, set.remove(j)));
    let c = cochain.coeffs@[dofs[s0] as int];
    let f = |s: int|
        cochain.coeffs@[dofs[s] as int].times_spec(face_term(dim, sets[s], local, b, t, j));
    distinct_subsimps(dim, grade);
    assert forall|s: int| 0 <= s < sets.len() && s != s0 implies #[trigger] f(s)
        == T::zero_spec() by {
        subsimps_ascend(dim, grade, s);
        assert(sets[s] != sets[s0]);
        ring_units(cochain.coeffs@[dofs[s] as int]);
    }
    subsimps_ascend(dim, grade, s0);
    single_term(sets.len() as int, s0, f);
    ring_negated(c, w);
    ring_negated(w, c);
}

/// The product of a sum with a sign in each term.
proof fn lemma_sum_times<T: Scalar>(n: int, f: spec_fn(int) -> T, w: T)
    requires
        commutative_ring::<T>(),
    ensures
        scalar_sum(n, f).times_spec(w) == scalar_sum(n, |j: int| f(j).times_spec(w)),
{
    scalar_sum_scaled(n, w, f);
    let g = |j: int| w.times_spec(f(j));
    let h = |j: int| f(j).times_spec(w);
    assert forall|j: int| 0 <= j < n implies #[trigger] g(j) == h(j) by {
        ring_commutes(w, f(j));
    }
    scalar_sum_same(n, g, h);
    ring_commutes(w, scalar_sum(n, f));
}

/// What one subsimplex contributes to the Whitney form of the derivative.
proof fn lemma_subsimplex_terms<T: Scalar>(
    d: Cochain<T>,
    cochain: Cochain<T>,
    complex: Complex,
    cell: int,
    local: Seq<T>,
    b: int,
    t: int,
)
    requires
        commutative_ring::<T>(),
        complex.wf(),
        cochain.on(complex),
        cochain.dim < complex.dimension(),
        is_derivative(d, cochain, complex),
        0 <= cell < complex.simplices(complex.dimension()).len(),
        0 <= t < standard_subsimps_spec(
            complex.dimension() as nat,
            (cochain.dim + 1) as nat,
        ).len(),
    ensures
        ({
            let dim = complex.dimension() as nat;
            let grade = cochain.dim as nat;
            let sets = standard_subsimps_spec(dim, grade);
            let dofs = complex.subsimplices(complex.dimension(), cell, grade as int);
            let above = complex.subsimplices(complex.dimension(), cell, grade as int + 1);
            let set = standard_subsimps_spec(dim, grade + 1)[t];
            d.coeffs@[above[t] as int].times_spec(whitney_value(dim, set, local, b)) == scalar_sum(
                sets.len() as int,
                |s: int|
                    cochain.coeffs@[dofs[s] as int].times_spec(
                        scalar_sum(
                            grade as int + 2,
                            |j: int| face_term(dim, sets[s], local, b, t, j),
                        ),
                    ),
            )
        }),
{
    let dim = complex.dimension() as nat;
    let grade = cochain.dim as nat;
    let sets = standard_subsimps_spec(dim, grade);
    let dofs = complex.subsimplices(complex.dimension(), cell, grade as int);
    let above = complex.subsimplices(complex.dimension(), cell, grade as int + 1);
    let vertices = complex.simplices(complex.dimension())[cell];
    let set = standard_subsimps_spec(dim, grade + 1)[t];
    let sups = complex.simplices(grade as int + 1);
    let subs = complex.simplices(grade as int);
    let x = cochain.coeffs@;
    let w = whitney_value(dim, set, local, b);
    let n = grade as int + 2;
    let nsets = sets.len() as int;
    complex.has_dimension();
    complex.machine_sized_levels(grade as int + 1);
    subsimps_ascend(dim, grade + 1, t);
    lemma_cell_subsimplex(complex, cell, grade + 1, t);
    let sup = picked(vertices, set);
    assert(sups.contains(sup)) by {
        assert(combinations(vertices, grade + 2).contains(sup));
        combinations_are_subsequences(vertices, grade + 2, sup);
        complex.closed_under_subsimplices(complex.dimension(), cell, sup);
    }
    let r = sups.index_of(sup);
    assert(0 <= r < sups.len() && sups[r] == sup);
    derivative_adds_up_faces(d, cochain, complex, r);
    let f = |j: int| signed(j, x[(subs.index_of(sup.remove(j)) as usize) as int]);
    lemma_sum_times(n, f, w);
    let g = |j: int, s: int|
        x[dofs[s] as int].times_spec(face_term(dim, sets[s], local, b, t, j));
    let p = |j: int| f(j).times_spec(w);
    let q = |j: int| scalar_sum(nsets, |s: int| g(j, s));
    assert forall|j: int| 0 <= j < n implies #[trigger] p(j) == q(j) by {
        lemma_face_terms(cochain, complex, cell, local, b, t, j);
        let h = |s: int| x[dofs[s] as int].times_spec(face_term(dim, sets[s], local, b, t, j));
        scalar_sum_same(nsets, h, |s: int| g(j, s));
    }
    scalar_sum_same(n, p, q);
    ring_sum_swap(n, nsets, g);
    let cols = |s: int| scalar_sum(n, |j: int| g(j, s));
    let expected = |s: int|
        x[dofs[s] as int].times_spec(
            scalar_sum(n, |j: int| face_term(dim, sets[s], local, b, t, j)),
        );
    assert forall|s: int| 0 <= s < nsets implies #[trigger] cols(s) == expected(s) by {
        let c = x[dofs[s] as int];
        let h = |j: int| face_term(dim, sets[s], local, b, t, j);
        scalar_sum_scaled(n, c, h);
        scalar_sum_same(n, |j: int| g(j, s), |j: int| c.times_spec(h(j)));
    }
    scalar_sum_same(nsets, cols, expected);
}

/// The derivative of the Whitney form of a cochain is the Whitney form of the derivative of the
/// cochain, at any point of any cell, over coefficients that compute exactly.
pub proof fn whitney_commutes_with_derivative<T: Scalar>(
    d: Cochain<T>,
    cochain: Cochain<T>,
    complex: Complex,
    cell: int,
    local: Seq<T>,
)
    requires
        commutative_ring::<T>(),
        complex.wf(),
        cochain.on(complex),
        cochain.dim < complex.dimension(),
        is_derivative(d, cochain, complex),
        0 <= cell < complex.simplices(complex.dimension()).len(),
        local.len() == complex.dimension(),
    ensures
        dif_whitney_on(cochain, complex, cell) == whitney_at(d, complex, cell, local),
{
    let left = dif_whitney_on(cochain, complex, cell);
    let right = whitney_at(d, complex, cell, local);
    assert forall|b: int| 0 <= b < left.len() implies left[b] == right[b] by {
        lemma_coefficients_agree(d, cochain, complex, cell, local, b);
    }
    assert(left =~= right);
}

/// The derivative of a Whitney form has, at any point of any cell, the values of the form that
/// `WhitneyForm::dif` makes, over coefficients that compute exactly.
pub proof fn dif_has_the_values_of_the_derivative<T: Scalar>(
    form: WhitneyForm<T>,
    dif: WhitneyForm<T>,
    derivative: DifWhitneyForm<T>,
    cell: int,
    local: Seq<T>,
)
    requires
        commutative_ring::<T>(),
        form.wf(),
        form.values().dim < form.topology().dimension(),
        dif.topology() == form.topology(),
        is_derivative(dif.values(), form.values(), form.topology()),
        derivative.values() == form.values(),
        derivative.topology() == form.topology(),
        0 <= cell < form.topology().simplices(form.topology().dimension()).len(),
        local.len() == form.topology().dimension(),
    ensures
        dif.values().dim == form.values().dim + 1,
        whitney_at(dif.values(), dif.topology(), cell, local) == dif_whitney_on(
            derivative.values(),
            derivative.topology(),
            cell,
        ),
{
    whitney_commutes_with_derivative(
        dif.values(),
        form.values(),
        form.topology(),
        cell,
        local,
    );
}

proof fn lemma_coefficients_agree<T: Scalar>(
    d: Cochain<T>,
    cochain: Cochain<T>,
    complex: Complex,
    cell: int,
    local: Seq<T>,
    b: int,
)
    requires
        commutative_ring::<T>(),
        complex.wf(),
        cochain.on(complex),
        cochain.dim < complex.dimension(),
        is_derivative(d, cochain, complex),
        0 <= cell < complex.simplices(complex.dimension()).len(),
        local.len() == complex.dimension(),
        0 <= b < dif_whitney_on(cochain, complex, cell).len(),
    ensures
        dif_whitney_on(cochain, complex, cell)[b] == whitney_at(d, complex, cell, local)[b],
{
    let dim = complex.dimension() as nat;
    let grade = cochain.dim as nat;
    let sets = standard_subsimps_spec(dim, grade);
    let tops = standard_subsimps_spec(dim, grade + 1);
    let dofs = complex.subsimplices(complex.dimension(), cell, grade as int);
    let above = complex.subsimplices(complex.dimension(), cell, grade as int + 1);
    let x = cochain.coeffs@;
    let n = grade as int + 2;
    let nsets = sets.len() as int;
    let ntops = tops.len() as int;
    complex.has_dimension();
    complex.machine_sized_levels(0);
    basis_of_space(dim, grade + 1);
    let a = |t: int| d.coeffs@[above[t] as int];
    let w = |t: int| whitney_value(dim, tops[t], local, b);
    lemma_products_sum(a, w, ntops);
    let terms = |t: int| a(t).times_spec(w(t));
    let faces = |s: int, t: int| scalar_sum(n, |j: int| face_term(dim, sets[s], local, b, t, j));
    let g = |t: int, s: int| x[dofs[s] as int].times_spec(faces(s, t));
    let rows = |t: int| scalar_sum(nsets, |s: int| g(t, s));
    assert forall|t: int| 0 <= t < ntops implies #[trigger] terms(t) == rows(t) by {
        lemma_subsimplex_terms(d, cochain, complex, cell, local, b, t);
        let h = |s: int|
            x[dofs[s] as int].times_spec(
                scalar_sum(grade as int + 2, |j: int| face_term(dim, sets[s], local, b, t, j)),
            );
        scalar_sum_same(nsets, h, |s: int| g(t, s));
    }
    scalar_sum_same(ntops, terms, rows);
    ring_sum_swap(ntops, nsets, g);
    let cols = |s: int| scalar_sum(ntops, |t: int| g(t, s));
    let p = |s: int| x[dofs[s] as int];
    let q = |s: int| dif_whitney_value::<T>(dim, sets[s], b);
    let expected = |s: int| p(s).times_spec(q(s));
    assert forall|s: int| 0 <= s < nsets implies #[trigger] cols(s) == expected(s) by {
        subsimps_ascend(dim, grade, s);
        derivative_is_form_of_coboundary(dim, sets[s], local, b);
        let c = x[dofs[s] as int];
        let h = |t: int| faces(s, t);
        scalar_sum_scaled(ntops, c, h);
        scalar_sum_same(ntops, |t: int| g(t, s), |t: int| c.times_spec(h(t)));
        let k = |t: int|
            scalar_sum(
                sets[s].len() as int + 1,
                |j: int| face_term(dim, sets[s], local, b, t, j),
            );
        scalar_sum_same(ntops, h, k);
    }
    scalar_sum_same(nsets, cols, expected);
    lemma_products_sum(p, q, nsets);
}

} // verus!
