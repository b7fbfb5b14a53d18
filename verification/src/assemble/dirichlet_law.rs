//! Systems with fixed boundary vertices.

use crate::assemble::boundary_conditions::{boundary_vertex_list, selected_pairs};
use crate::assemble::dofs::{
    fixed_flags, fixed_rhs, last_value, pair_dofs, pairs_within, unit_entries, zeroed_at,
};
use crate::assemble::fixed_dofs_law::{fixing_fixes, solves, solves_with_fixed};
use crate::linalg::algebra::row_dot;
use crate::linalg::csr::compressed;
use crate::linalg::matrix_law::row_compressed;
use crate::linalg::ring::commutative_ring;
use crate::linalg::scalar::Scalar;
use crate::linalg::sparse::triplets_within;
use crate::topology::boundary::flatten_members;
use crate::topology::complex::Complex;
use crate::topology::skeleton::{insert_all_members, insert_all_no_duplicates};
use vstd::prelude::*;

verus! {

/// A dof takes a value exactly if it is listed and selected, and then its own.
pub proof fn selected_pairs_values<T>(
    dofs: Seq<usize>,
    selected: Option<Seq<bool>>,
    coeffs: Seq<T>,
    i: int,
)
    requires
        0 <= i <= usize::MAX,
    ensures
        last_value(selected_pairs(dofs, selected, coeffs), i) == (if dofs.contains(i as usize) && (
        selected is None || selected->0[i]) {
            Some(coeffs[i])
        } else {
            None
        }),
    decreases dofs.len(),
{
    if dofs.len() > 0 {
        let front = dofs.drop_last();
        selected_pairs_values(front, selected, coeffs, i);
        let before = selected_pairs(front, selected, coeffs);
        let dof = dofs.last();
        if selected is None || selected->0[dof as int] {
            assert(before.push((dof, coeffs[dof as int])).drop_last() =~= before);
        }
        if front.contains(i as usize) {
            let k = choose|k: int| 0 <= k < front.len() && front[k] == i as usize;
            assert(dofs[k] == i as usize);
        }
        if dofs.contains(i as usize) && dof != i as usize {
            let k = choose|k: int| 0 <= k < dofs.len() && dofs[k] == i as usize;
            assert(front[k] == i as usize);
        }
        assert(dofs[dofs.len() - 1] == dof);
    }
}

/// No dof takes two values if none is listed twice.
pub proof fn selected_pairs_distinct<T>(
    dofs: Seq<usize>,
    selected: Option<Seq<bool>>,
    coeffs: Seq<T>,
    n: int,
)
    requires
        dofs.no_duplicates(),
        forall|i: int| 0 <= i < dofs.len() ==> (#[trigger] dofs[i]) < n,
    ensures
        pair_dofs(selected_pairs(dofs, selected, coeffs)).no_duplicates(),
        pairs_within(selected_pairs(dofs, selected, coeffs), n),
        forall|k: int|
            0 <= k < selected_pairs(dofs, selected, coeffs).len() ==> dofs.contains(
                (#[trigger] selected_pairs(dofs, selected, coeffs)[k]).0,
            ),
    decreases dofs.len(),
{
    if dofs.len() > 0 {
        let front = dofs.drop_last();
        let dof = dofs.last();
        assert(dofs[dofs.len() - 1] == dof);
        assert forall|i: int| 0 <= i < front.len() implies (#[trigger] front[i]) < n by {
            assert(front[i] == dofs[i]);
        }
        selected_pairs_distinct(front, selected, coeffs, n);
        let before = selected_pairs(front, selected, coeffs);
        let all = selected_pairs(dofs, selected, coeffs);
        assert forall|k: int| 0 <= k < before.len() implies dofs.contains(
            (#[trigger] before[k]).0,
        ) && before[k].0 != dof by {
            let j = choose|j: int| 0 <= j < front.len() && front[j] == before[k].0;
            assert(dofs[j] == before[k].0);
            assert(dofs[j] != dofs[dofs.len() - 1]);
        }
        assert forall|k: int| 0 <= k < all.len() implies dofs.contains((#[trigger] all[k]).0) && (
        all[k]).0 < n by {
            if k < before.len() {
                assert(all[k] == before[k]);
            }
        }
        assert forall|a: int, b: int|
            0 <= a < all.len() && 0 <= b < all.len() && a != b implies pair_dofs(all)[a]
            != pair_dofs(all)[b] by {
            if a < before.len() && b < before.len() {
                assert(pair_dofs(before)[a] != pair_dofs(before)[b]);
            } else if a < before.len() {
                assert(before[a].0 != dof);
            } else {
                assert(before[b].0 != dof);
            }
        }
    }
}

/// The listed boundary vertices are those of the facets that belong to one cell only.
pub proof fn boundary_vertex_members(complex: &Complex, v: usize)
    requires
        complex.wf(),
        complex.dimension() >= 1,
    ensures
        boundary_vertex_list(complex).contains(v) <==> exists|f: int|
            0 <= f < complex.simplices(complex.dimension() - 1).len() && complex.on_boundary(f) && (
            #[trigger] complex.simplices(complex.dimension() - 1)[f]).contains(v),
{
    let lists = complex.boundary_facet_vertices();
    let kidxs = complex.boundary_facet_kidxs();
    let top = complex.dimension() - 1;
    insert_all_members(Seq::<usize>::empty(), lists.flatten(), v);
    flatten_members(lists, v);
    complex.machine_sized_levels(top);
    if exists|a: int| 0 <= a < lists.len() && (#[trigger] lists[a]).contains(v) {
        let a = choose|a: int| 0 <= a < lists.len() && (#[trigger] lists[a]).contains(v);
        complex.lemma_boundary_facet(a);
        complex.boundary_facet_members(kidxs[a] as int);
        assert(kidxs.contains(kidxs[a]));
        assert(complex.simplices(top)[kidxs[a] as int].contains(v));
    }
    if exists|f: int|
        0 <= f < complex.simplices(top).len() && complex.on_boundary(f) && (
        #[trigger] complex.simplices(top)[f]).contains(v) {
        let f = choose|f: int|
            0 <= f < complex.simplices(top).len() && complex.on_boundary(f) && (
            #[trigger] complex.simplices(top)[f]).contains(v);
        complex.boundary_facet_members(f);
        let a = choose|a: int| 0 <= a < kidxs.len() && kidxs[a] == f as usize;
        complex.lemma_boundary_facet(a);
        assert(lists[a].contains(v));
    }
}

/// Each boundary vertex is a vertex of the mesh and is listed once.
pub proof fn boundary_vertices_are_vertices(complex: &Complex)
    requires
        complex.wf(),
        complex.dimension() >= 1,
    ensures
        boundary_vertex_list(complex).no_duplicates(),
        forall|i: int|
            0 <= i < boundary_vertex_list(complex).len() ==> (#[trigger] boundary_vertex_list(
                complex,
            )[i]) < complex.simplices(0).len(),
{
    let list = boundary_vertex_list(complex);
    let top = complex.dimension() - 1;
    insert_all_no_duplicates(
        Seq::<usize>::empty(),
        complex.boundary_facet_vertices().flatten(),
    );
    complex.simplex_facts(top);
    assert forall|i: int| 0 <= i < list.len() implies (#[trigger] list[i])
        < complex.simplices(0).len() by {
        assert(list.contains(list[i]));
        boundary_vertex_members(complex, list[i]);
        let f = choose|f: int|
            0 <= f < complex.simplices(top).len() && complex.on_boundary(f) && (
            #[trigger] complex.simplices(top)[f]).contains(list[i]);
        let facet = complex.simplices(top)[f];
        let k = choose|k: int| 0 <= k < facet.len() && facet[k] == list[i];
        assert(facet[k] < complex.simplices(0).len());
    }
}

/// Fixing boundary vertices fixes them and keeps the other equations: over coefficients that
/// compute exactly, the solutions of the new system are the vectors that take the coefficients
/// given for the selected boundary vertices and solve the old equations of the other vertices.
pub proof fn dirichlet_conditions_hold<T: Scalar>(
    complex: &Complex,
    entries: Seq<(usize, usize, T)>,
    rhs: Seq<T>,
    selected: Option<Seq<bool>>,
    coeffs: Seq<T>,
    x: Seq<T>,
)
    requires
        commutative_ring::<T>(),
        complex.wf(),
        complex.dimension() >= 1,
        triplets_within(
            entries,
            complex.simplices(0).len() as int,
            complex.simplices(0).len() as int,
        ),
        rhs.len() == complex.simplices(0).len(),
    ensures
        ({
            let n = complex.simplices(0).len();
            let pairs = selected_pairs(boundary_vertex_list(complex), selected, coeffs);
            solves(
                compressed(
                    zeroed_at(entries, fixed_flags(pairs, n)) + unit_entries(pair_dofs(pairs)),
                ),
                fixed_rhs(rhs, compressed(entries), pairs),
                n,
                x,
            ) <==> dirichlet_rows_hold(complex, entries, rhs, selected, coeffs, x)
        }),
{
    let n = complex.simplices(0).len();
    let list = boundary_vertex_list(complex);
    let pairs = selected_pairs(list, selected, coeffs);
    complex.machine_sized_levels(0);
    boundary_vertices_are_vertices(complex);
    selected_pairs_distinct(list, selected, coeffs, n as int);
    fixing_fixes(entries, rhs, pairs, n, x);
    let plain = zeroed_at(entries, fixed_flags(pairs, n)) + unit_entries(pair_dofs(pairs));
    let new_rhs = fixed_rhs(rhs, compressed(entries), pairs);
    lemma_fixed_within(entries, pairs, n);
    assert forall|i: int| #[trigger]
        row_dot(compressed(plain), x, i) == row_dot(plain, x, i) by {
        row_compressed(plain, n as int, n as int, x, i);
    }
    assert(solves(compressed(plain), new_rhs, n, x) == solves(plain, new_rhs, n, x)) by {
        assert forall|i: int| #[trigger]
            row_dot(plain, x, i) == row_dot(compressed(plain), x, i) by {}
    }
    assert forall|i: int| 0 <= i < n implies last_value(pairs, i) == (if list.contains(i as usize)
        && (selected is None || selected->0[i]) {
        Some(coeffs[i])
    } else {
        None
    }) by {
        selected_pairs_values(list, selected, coeffs, i);
    }
    if solves_with_fixed(entries, rhs, pairs, n, x) {
        assert forall|i: int| 0 <= i < n implies #[trigger] dirichlet_row(
            complex,
            entries,
            rhs,
            selected,
            coeffs,
            x,
            i,
        ) by {
            let known = last_value(pairs, i);
            if known is None {
                assert(row_dot(entries, x, i) == rhs[i]);
            }
        }
    }
    if dirichlet_rows_hold(complex, entries, rhs, selected, coeffs, x) {
        assert forall|i: int| 0 <= i < n && (#[trigger] last_value(pairs, i) is Some) implies x[i]
            == last_value(pairs, i)->0 by {
            assert(dirichlet_row(complex, entries, rhs, selected, coeffs, x, i));
        }
        assert forall|i: int| 0 <= i < n && last_value(pairs, i) is None implies
            #[trigger] row_dot(entries, x, i) == rhs[i] by {
            assert(dirichlet_row(complex, entries, rhs, selected, coeffs, x, i));
        }
    }
}

/// A selected boundary vertex has its coefficient, and at another vertex the equation holds.
pub open spec fn dirichlet_row<T: Scalar>(
    complex: &Complex,
    entries: Seq<(usize, usize, T)>,
    rhs: Seq<T>,
    selected: Option<Seq<bool>>,
    coeffs: Seq<T>,
    x: Seq<T>,
    i: int,
) -> bool {
    if boundary_vertex_list(complex).contains(i as usize) && (selected is None || selected->0[i]) {
        x[i] == coeffs[i]
    } else {
        row_dot(entries, x, i) == rhs[i]
    }
}

/// Selected boundary vertices have their coefficients, and at the other vertices the equations
/// hold.
pub open spec fn dirichlet_rows_hold<T: Scalar>(
    complex: &Complex,
    entries: Seq<(usize, usize, T)>,
    rhs: Seq<T>,
    selected: Option<Seq<bool>>,
    coeffs: Seq<T>,
    x: Seq<T>,
) -> bool {
    forall|i: int|
        0 <= i < complex.simplices(0).len() ==> #[trigger] dirichlet_row(
            complex,
            entries,
            rhs,
            selected,
            coeffs,
            x,
            i,
        )
}

/// The matrix with fixed dofs stays within its shape.
proof fn lemma_fixed_within<T: Scalar>(
    entries: Seq<(usize, usize, T)>,
    pairs: Seq<(usize, T)>,
    n: nat,
)
    requires
        triplets_within(entries, n as int, n as int),
        pairs_within(pairs, n as int),
    ensures
        triplets_within(
            zeroed_at(entries, fixed_flags(pairs, n)) + unit_entries(pair_dofs(pairs)),
            n as int,
            n as int,
        ),
{
    let zeroed = zeroed_at(entries, fixed_flags(pairs, n));
    let units = unit_entries::<T>(pair_dofs(pairs));
    lemma_zeroed_within(entries, fixed_flags(pairs, n), n as int);
    let all = zeroed + units;
    assert forall|i: int| 0 <= i < all.len() implies (#[trigger] all[i]).0 < n && all[i].1 < n by {
        if i < zeroed.len() {
            assert(all[i] == zeroed[i]);
        } else {
            assert(all[i] == units[i - zeroed.len()]);
            assert(pairs[i - zeroed.len()].0 < n);
        }
    }
}

proof fn lemma_zeroed_within<T: Scalar>(
    entries: Seq<(usize, usize, T)>,
    flags: Seq<bool>,
    n: int,
)
    requires
        triplets_within(entries, n, n),
    ensures
        triplets_within(zeroed_at(entries, flags), n, n),
    decreases entries.len(),
{
    let all = zeroed_at(entries, flags);
    assert forall|i: int| 0 <= i < all.len() implies (#[trigger] all[i]).0 < n && all[i].1 < n by {
        assert(entries[i].0 < n);
    }
}

} // verus!
