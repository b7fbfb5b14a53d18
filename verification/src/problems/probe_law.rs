//! How the fields of cells belong to the operators that give them.

use crate::assemble::symmetry_law::only_zero_is_zero;
use crate::assemble::fixed_dofs_law::row_dot_concat;
use crate::linalg::algebra::{matrix_times, row_dot, row_times};
use crate::linalg::csr::compressed;
use crate::linalg::matrix_law::{lemma_row_times, row_compressed};
use crate::linalg::ring::{commutative_ring, ring_commutes, ring_plus, ring_units};
use crate::linalg::scalar::Scalar;
use crate::linalg::sparse::triplets_within;
use crate::problems::eddy_current::{cell_potential_terms, potential_terms};
use crate::problems::layout::{lifted, reduced_position};
use crate::problems::probe::{
    component_terms, edge_terms, field_at, field_to, probe_residual, probe_terms,
};
use crate::problems::tetrahedra::Tetrahedra;
use crate::reduction::{dof_indices, PrescribedDof};
use vstd::prelude::*;

verus! {

/// Values of the active dofs on all dofs, zero elsewhere.
pub open spec fn spread<T: Scalar>(ndofs: nat, active: Seq<usize>, reduced: Seq<T>) -> Seq<T> {
    lifted(ndofs, active, Seq::<PrescribedDof<T>>::empty(), reduced)
}

pub(crate) proof fn lemma_spread<T: Scalar>(ndofs: nat, active: Seq<usize>, reduced: Seq<T>, dof: usize)
    requires
        dof < ndofs,
    ensures
        spread(ndofs, active, reduced)[dof as int] == (match reduced_position(active, dof) {
            Some(position) => reduced[position as int],
            None => T::zero_spec(),
        }),
{
    let none = Seq::<PrescribedDof<T>>::empty();
    assert(dof_indices(none).len() == 0);
    assert(!dof_indices(none).contains(dof));
}

proof fn lemma_component_row<T: Scalar>(
    value: Seq<T>,
    jacobian: Seq<(usize, usize, T)>,
    row: int,
    place: int,
    n: int,
    x: Seq<T>,
    r: int,
)
    requires
        commutative_ring::<T>(),
        only_zero_is_zero::<T>(),
        0 <= n <= 3,
        0 <= place,
        place + 3 <= usize::MAX,
    ensures
        row_dot(component_terms(value, jacobian, row, place, n), x, r) == (if place <= r < place
            + n {
            value[r - place].times_spec(row_dot(jacobian, x, row))
        } else {
            T::zero_spec()
        }),
    decreases n,
{
    if n > 0 {
        lemma_component_row(value, jacobian, row, place, n - 1, x, r);
        let before = component_terms(value, jacobian, row, place, n - 1);
        let at = (place + n - 1) as usize;
        let v = value[n - 1];
        let d = row_dot(jacobian, x, row);
        lemma_row_times(jacobian, row, at, v, x, r);
        row_dot_concat(before, row_times(jacobian, row, at, v), x, r);
        ring_units(d);
        ring_plus(v.times_spec(d), v, v);
        ring_plus(value[r - place].times_spec(d), v, v);
        ring_plus(T::zero_spec(), v, v);
    }
}

proof fn lemma_edge_rows<T: Scalar>(
    edges: Seq<usize>,
    values: Seq<Vec<T>>,
    active: Seq<usize>,
    jacobian: Seq<(usize, usize, T)>,
    place: int,
    n: int,
    ndofs: nat,
    x: Seq<T>,
    r: int,
)
    requires
        commutative_ring::<T>(),
        only_zero_is_zero::<T>(),
        0 <= n <= edges.len(),
        forall|l: int| 0 <= l < edges.len() ==> (#[trigger] edges[l]) < ndofs,
        0 <= place,
        place + 3 <= usize::MAX,
        active.len() <= usize::MAX,
    ensures
        row_dot(edge_terms(edges, values, active, jacobian, place, n), x, r) == (if place <= r
            < place + 3 {
            field_to(
                edges,
                values,
                spread(ndofs, active, matrix_times(jacobian, active.len(), x)),
                r - place,
                n,
            )
        } else {
            T::zero_spec()
        }),
    decreases n,
{
    if n > 0 {
        lemma_edge_rows(edges, values, active, jacobian, place, n - 1, ndofs, x, r);
        let y = matrix_times(jacobian, active.len(), x);
        let edge = edges[n - 1];
        lemma_spread(ndofs, active, y, edge);
        let before = row_dot(edge_terms(edges, values, active, jacobian, place, n - 1), x, r);
        let v = values[n - 1]@[r - place];
        ring_units(v);
        ring_plus(before, v, v);
        if reduced_position(active, edge) is Some {
            let row = reduced_position(active, edge)->0 as int;
            assert(active.contains(edge));
            assert(0 <= active.index_of(edge) < active.len());
            lemma_component_row(values[n - 1]@, jacobian, row, place, 3, x, r);
            row_dot_concat(
                edge_terms(edges, values, active, jacobian, place, n - 1),
                component_terms(values[n - 1]@, jacobian, row, place, 3),
                x,
                r,
            );
            ring_commutes(v, y[row]);
            ring_plus(T::zero_spec(), v, v);
        }
    }
}

proof fn lemma_probe_rows<T: Scalar>(
    cells: Tetrahedra<T>,
    selected: Seq<usize>,
    active: Seq<usize>,
    jacobian: Seq<(usize, usize, T)>,
    n: int,
    ndofs: nat,
    x: Seq<T>,
    i: int,
    k: int,
)
    requires
        commutative_ring::<T>(),
        only_zero_is_zero::<T>(),
        cells.wf(ndofs as int),
        0 <= n <= selected.len(),
        forall|c: int| 0 <= c < selected.len() ==> (#[trigger] selected[c]) < cells.elements@.len(),
        3 * selected.len() <= usize::MAX,
        active.len() <= usize::MAX,
        0 <= i,
        0 <= k < 3,
    ensures
        row_dot(probe_terms(cells, selected, active, jacobian, n), x, 3 * i + k) == (if i < n {
            field_at(
                cells,
                selected[i] as int,
                spread(ndofs, active, matrix_times(jacobian, active.len(), x)),
                k,
            )
        } else {
            T::zero_spec()
        }),
    decreases n,
{
    if n > 0 {
        lemma_probe_rows(cells, selected, active, jacobian, n - 1, ndofs, x, i, k);
        let cell = selected[n - 1] as int;
        let edges = cells.elements@[cell].dofs@;
        assert(cells.elements@[cell].wf(ndofs as int, 3));
        let place = 3 * (n - 1);
        lemma_edge_rows(
            edges,
            cells.values@[cell]@,
            active,
            jacobian,
            place,
            edges.len() as int,
            ndofs,
            x,
            3 * i + k,
        );
        let before = probe_terms(cells, selected, active, jacobian, n - 1);
        row_dot_concat(
            before,
            edge_terms(
                edges,
                cells.values@[cell]@,
                active,
                jacobian,
                place,
                edges.len() as int,
            ),
            x,
            3 * i + k,
        );
        let a = row_dot(before, x, 3 * i + k);
        ring_plus(a, a, a);
        let f = field_at(
            cells,
            cell,
            spread(ndofs, active, matrix_times(jacobian, active.len(), x)),
            k,
        );
        ring_plus(f, f, f);
    }
}

/// The Jacobian on chosen cells is the derivative of what is probed there: what it makes of a
/// change is the field, at the barycenter of the cell, of what the Jacobian makes of the change.
pub proof fn probe_of_jacobian_is_jacobian_of_probe<T: Scalar>(
    cells: Tetrahedra<T>,
    selected: Seq<usize>,
    active: Seq<usize>,
    jacobian: Seq<(usize, usize, T)>,
    ndofs: nat,
    change: Seq<T>,
    i: int,
    k: int,
)
    requires
        commutative_ring::<T>(),
        only_zero_is_zero::<T>(),
        cells.wf(ndofs as int),
        forall|c: int| 0 <= c < selected.len() ==> (#[trigger] selected[c]) < cells.elements@.len(),
        3 * selected.len() <= usize::MAX,
        active.len() <= usize::MAX,
        0 <= i < selected.len(),
        0 <= k < 3,
    ensures
        row_dot(
            probe_terms(cells, selected, active, jacobian, selected.len() as int),
            change,
            3 * i + k,
        ) == probe_residual(
            cells,
            selected,
            spread(ndofs, active, matrix_times(jacobian, active.len(), change)),
        )[3 * i + k],
{
    lemma_probe_rows(
        cells,
        selected,
        active,
        jacobian,
        selected.len() as int,
        ndofs,
        change,
        i,
        k,
    );
    vstd::arithmetic::div_mod::lemma_fundamental_div_mod_converse(3 * i + k, 3, i, k);
}

proof fn lemma_potential_cell<T: Scalar>(
    edges: Seq<usize>,
    values: Seq<Vec<T>>,
    active: Seq<usize>,
    place: int,
    n: int,
    ndofs: nat,
    x: Seq<T>,
    r: int,
)
    requires
        commutative_ring::<T>(),
        0 <= n <= edges.len(),
        forall|l: int| 0 <= l < edges.len() ==> (#[trigger] edges[l]) < ndofs,
        0 <= place,
        place + 3 <= usize::MAX,
        active.len() <= usize::MAX,
    ensures
        row_dot(cell_potential_terms(edges, values, active, place, n), x, r) == (if place <= r
            < place + 3 {
            field_to(edges, values, spread(ndofs, active, x), r - place, n)
        } else {
            T::zero_spec()
        }),
    decreases n,
{
    if n > 0 {
        lemma_potential_cell(edges, values, active, place, n - 1, ndofs, x, r);
        let edge = edges[n - 1];
        lemma_spread(ndofs, active, x, edge);
        let before = cell_potential_terms(edges, values, active, place, n - 1);
        let d = row_dot(before, x, r);
        let v = values[n - 1]@[r - place];
        ring_units(v);
        ring_plus(d, v, v);
        if reduced_position(active, edge) is Some {
            let col = reduced_position(active, edge)->0;
            assert(active.contains(edge));
            assert(0 <= active.index_of(edge) < active.len());
            let a = (place as usize, col, values[n - 1]@[0]);
            let b = ((place + 1) as usize, col, values[n - 1]@[1]);
            let c = ((place + 2) as usize, col, values[n - 1]@[2]);
            let all = cell_potential_terms(edges, values, active, place, n);
            assert(all =~= before.push(a).push(b).push(c));
            assert(all.drop_last() =~= before.push(a).push(b));
            assert(before.push(a).push(b).drop_last() =~= before.push(a));
            assert(before.push(a).drop_last() =~= before);
            reveal_with_fuel(row_dot, 4);
            ring_commutes(v, x[col as int]);
        }
    }
}

proof fn lemma_potential_rows<T: Scalar>(
    cells: Tetrahedra<T>,
    active: Seq<usize>,
    n: int,
    ndofs: nat,
    x: Seq<T>,
    c: int,
    k: int,
)
    requires
        commutative_ring::<T>(),
        cells.wf(ndofs as int),
        0 <= n <= cells.elements@.len(),
        3 * cells.elements@.len() <= usize::MAX,
        active.len() <= usize::MAX,
        0 <= c,
        0 <= k < 3,
    ensures
        row_dot(potential_terms(cells, active, n), x, 3 * c + k) == (if c < n {
            field_at(cells, c, spread(ndofs, active, x), k)
        } else {
            T::zero_spec()
        }),
    decreases n,
{
    if n > 0 {
        lemma_potential_rows(cells, active, n - 1, ndofs, x, c, k);
        let edges = cells.elements@[n - 1].dofs@;
        assert(cells.elements@[n - 1].wf(ndofs as int, 3));
        let place = 3 * (n - 1);
        let added = cell_potential_terms(
            edges,
            cells.values@[n - 1]@,
            active,
            place,
            edges.len() as int,
        );
        lemma_potential_cell(
            edges,
            cells.values@[n - 1]@,
            active,
            place,
            edges.len() as int,
            ndofs,
            x,
            3 * c + k,
        );
        let before = potential_terms(cells, active, n - 1);
        row_dot_concat(before, added, x, 3 * c + k);
        let a = row_dot(before, x, 3 * c + k);
        let b = row_dot(added, x, 3 * c + k);
        ring_plus(a, b, b);
        ring_plus(b, a, a);
    }
}

/// An operator that gives, of the values on the active dofs, the field at the barycenter of each
/// cell, three components for each.
pub open spec fn gives_fields<T: Scalar>(
    operator: Seq<(usize, usize, T)>,
    cells: Tetrahedra<T>,
    active: Seq<usize>,
    ndofs: nat,
) -> bool {
    forall|x: Seq<T>, c: int, k: int|
        #![trigger row_dot(operator, x, 3 * c + k)]
        0 <= c < cells.elements@.len() && 0 <= k < 3 ==> row_dot(operator, x, 3 * c + k)
            == field_at(cells, c, spread(ndofs, active, x), k)
}

/// The operator of the vector potential gives the field of the edge functions.
pub proof fn potential_operator_gives_fields<T: Scalar>(
    cells: Tetrahedra<T>,
    active: Seq<usize>,
    ndofs: nat,
)
    requires
        commutative_ring::<T>(),
        cells.wf(ndofs as int),
        3 * cells.elements@.len() <= usize::MAX,
        active.len() <= usize::MAX,
        triplets_within(
            potential_terms(cells, active, cells.elements@.len() as int),
            3 * cells.elements@.len() as int,
            active.len() as int,
        ),
    ensures
        gives_fields(
            compressed(potential_terms(cells, active, cells.elements@.len() as int)),
            cells,
            active,
            ndofs,
        ),
{
    let n = cells.elements@.len() as int;
    let plain = potential_terms(cells, active, n);
    let operator = compressed(plain);
    assert forall|x: Seq<T>, c: int, k: int|
        #![trigger row_dot(operator, x, 3 * c + k)]
        0 <= c < cells.elements@.len() && 0 <= k < 3 implies row_dot(operator, x, 3 * c + k)
        == field_at(cells, c, spread(ndofs, active, x), k) by {
        lemma_potential_rows(cells, active, n, ndofs, x, c, k);
        row_compressed(plain, 3 * n, active.len() as int, x, 3 * c + k);
    }
}

} // verus!
