//! Residuals of an edge problem at the barycenters of chosen cells.

use crate::linalg::algebra::{
    lemma_row_list_within, lemma_row_times, matrix_times, nonzero, product_terms,
    reciprocal_spec, row_list, row_times, significant, VALUE_RESOLUTION,
};
use crate::linalg::algebra::{
    csr_from_triplets, drop_insignificant, sparse_matmul, sparse_mul_vec, sparse_rows,
};
use crate::linalg::csr::compressed;
use crate::linalg::csr::CsrMatrix;
use crate::linalg::scalar::Scalar;
use crate::linalg::sparse::triplets_within;
use crate::problems::layout::{lifted, reduced_position};
use crate::problems::layout::{lift_active_to_full_zero_fixed, reduced_index_map};
use crate::problems::residual::is_evaluation;
use crate::problems::residual::ResidualEvaluation;
use crate::problems::tetrahedra::values_fit;
use crate::problems::tetrahedra::Tetrahedra;
use crate::reduction::{DofLayout, PrescribedDof};
use crate::text::{decimal, first_fault, first_fault_ends, first_fault_step};
use crate::text::{owned, push_decimal};
use vstd::prelude::*;
use vstd::string::*;

verus! {

/// A component of a vector field at the barycenter of a cell, added up over the first `n`
/// edges.
pub open spec fn field_to<T: Scalar>(
    edges: Seq<usize>,
    values: Seq<Vec<T>>,
    full: Seq<T>,
    component: int,
    n: int,
) -> T
    decreases n,
{
    if n <= 0 {
        T::zero_spec()
    } else {
        field_to(edges, values, full, component, n - 1).plus_spec(
            full[edges[n - 1] as int].times_spec(values[n - 1]@[component]),
        )
    }
}

/// A component of a vector field at the barycenter of a cell.
pub open spec fn field_at<T: Scalar>(
    cells: Tetrahedra<T>,
    cell: int,
    full: Seq<T>,
    component: int,
) -> T {
    field_to(
        cells.elements@[cell].dofs@,
        cells.values@[cell]@,
        full,
        component,
        cells.elements@[cell].dofs@.len() as int,
    )
}

/// The residual on the chosen cells, three components for each.
pub open spec fn probe_residual<T: Scalar>(
    cells: Tetrahedra<T>,
    selected: Seq<usize>,
    full: Seq<T>,
) -> Seq<T> {
    Seq::new(
        3 * selected.len(),
        |i: int| field_at(cells, selected[i / 3] as int, full, i % 3),
    )
}

/// What the first `n` components of an edge function contribute to the Jacobian.
pub open spec fn component_terms<T: Scalar>(
    value: Seq<T>,
    jacobian: Seq<(usize, usize, T)>,
    row: int,
    place: int,
    n: int,
) -> Seq<(usize, usize, T)>
    decreases n,
{
    if n <= 0 {
        Seq::empty()
    } else {
        let before = component_terms(value, jacobian, row, place, n - 1);
        if value[n - 1].is_zero_spec() {
            before
        } else {
            before + row_times(jacobian, row, (place + n - 1) as usize, value[n - 1])
        }
    }
}

/// What the first `n` edges of a cell contribute to the Jacobian.
pub open spec fn edge_terms<T: Scalar>(
    edges: Seq<usize>,
    values: Seq<Vec<T>>,
    active: Seq<usize>,
    jacobian: Seq<(usize, usize, T)>,
    place: int,
    n: int,
) -> Seq<(usize, usize, T)>
    decreases n,
{
    if n <= 0 {
        Seq::empty()
    } else {
        let before = edge_terms(edges, values, active, jacobian, place, n - 1);
        match reduced_position(active, edges[n - 1]) {
            Some(row) => before + component_terms(
                values[n - 1]@,
                jacobian,
                row as int,
                place,
                3,
            ),
            None => before,
        }
    }
}

/// What the first `n` chosen cells contribute to the Jacobian.
pub open spec fn probe_terms<T: Scalar>(
    cells: Tetrahedra<T>,
    selected: Seq<usize>,
    active: Seq<usize>,
    jacobian: Seq<(usize, usize, T)>,
    n: int,
) -> Seq<(usize, usize, T)>
    decreases n,
{
    if n <= 0 {
        Seq::empty()
    } else {
        let cell = selected[n - 1] as int;
        probe_terms(cells, selected, active, jacobian, n - 1) + edge_terms(
            cells.elements@[cell].dofs@,
            cells.values@[cell]@,
            active,
            jacobian,
            3 * (n - 1),
            cells.elements@[cell].dofs@.len() as int,
        )
    }
}

/// The Jacobian on the chosen cells.
pub open spec fn probe_jacobian<T: Scalar>(
    cells: Tetrahedra<T>,
    selected: Seq<usize>,
    active: Seq<usize>,
    jacobian: Seq<(usize, usize, T)>,
) -> Seq<(usize, usize, T)> {
    significant(
        compressed(
            nonzero(
                probe_terms(cells, selected, active, jacobian, selected.len() as int),
            ),
        ),
        T::zero_spec(),
    )
}

/// What is wrong with a chosen cell.
pub open spec fn selection_fault(
    name: Seq<char>,
    selected: Seq<usize>,
    ncells: nat,
    i: int,
) -> Option<Seq<char>> {
    let subject = "selected "@ + name + " probe cell "@ + decimal(selected[i] as nat);
    if selected[i] >= ncells {
        Some(subject + " is outside cell count "@ + decimal(ncells))
    } else if selected.take(i).contains(selected[i]) {
        Some(subject + " appears more than once"@)
    } else {
        None
    }
}

/// What is wrong with the chosen cells.
pub open spec fn selected_fault(name: Seq<char>, selected: Seq<usize>, ncells: nat) -> Option<
    Seq<char>,
> {
    first_fault(
        Seq::new(selected.len(), |i: int| selection_fault(name, selected, ncells, i)),
    )
}

/// All chosen cells are there.
pub open spec fn selected_within(selected: Seq<usize>, ncells: nat) -> bool {
    forall|i: int| 0 <= i < selected.len() ==> (#[trigger] selected[i]) < ncells
}

fn listed_earlier(selected: &[usize], i: usize) -> (found: bool)
    requires
        i < selected@.len(),
    ensures
        found == selected@.take(i as int).contains(selected@[i as int]),
{
    let mut j: usize = 0;
    while j < i
        invariant
            j <= i,
            i < selected@.len(),
            forall|k: int| 0 <= k < j ==> (#[trigger] selected@[k]) != selected@[i as int],
        decreases i - j,
    {
        if selected[j] == selected[i] {
            proof {
                assert(selected@.take(i as int)[j as int] == selected@[i as int]);
            }
            return true;
        }
        j = j + 1;
    }
    proof {
        if selected@.take(i as int).contains(selected@[i as int]) {
            let k = choose|k: int|
                0 <= k < i && selected@.take(i as int)[k] == selected@[i as int];
            assert(selected@[k] != selected@[i as int]);
        }
    }
    false
}

/// Fails unless all chosen cells are there and none is chosen twice.
pub fn check_selected(name: &str, selected: &[usize], ncells: usize) -> (checked: Result<
    (),
    String,
>)
    ensures
        match selected_fault(name@, selected@, ncells as nat) {
            Some(message) => checked matches Err(text) && text@ == message,
            None => checked is Ok && selected_within(selected@, ncells as nat),
        },
{
    let ghost faults = Seq::new(
        selected@.len(),
        |i: int| selection_fault(name@, selected@, ncells as nat, i),
    );
    let mut i: usize = 0;
    proof {
        first_fault_ends(faults);
    }
    while i < selected.len()
        invariant
            i <= selected@.len(),
            faults == Seq::new(
                selected@.len(),
                |j: int| selection_fault(name@, selected@, ncells as nat, j),
            ),
            first_fault(faults.take(i as int)) is None,
            forall|j: int| 0 <= j < i ==> (#[trigger] selected@[j]) < ncells,
        decreases selected@.len() - i,
    {
        let cell: usize = selected[i];
        proof {
            first_fault_step(faults, i as int);
        }
        let mut text = owned("selected ");
        text.append(name);
        text.append(" probe cell ");
        push_decimal(&mut text, cell);
        if cell >= ncells {
            text.append(" is outside cell count ");
            push_decimal(&mut text, ncells);
            return Err(text);
        }
        if listed_earlier(selected, i) {
            text.append(" appears more than once");
            return Err(text);
        }
        i = i + 1;
    }
    proof {
        first_fault_ends(faults);
    }
    Ok(())
}

fn residual_on_cells<T: Scalar>(
    cells: &Tetrahedra<T>,
    selected: &[usize],
    full: &[T],
) -> (residual: Vec<T>)
    requires
        cells.wf(full@.len() as int),
        selected_within(selected@, cells.elements@.len()),
        3 * selected@.len() <= usize::MAX,
    ensures
        residual@ == probe_residual(*cells, selected@, full@),
{
    let mut residual: Vec<T> = Vec::new();
    let mut p: usize = 0;
    while p < selected.len()
        invariant
            p <= selected@.len(),
            cells.wf(full@.len() as int),
            selected_within(selected@, cells.elements@.len()),
            3 * selected@.len() <= usize::MAX,
            residual@ =~= probe_residual(*cells, selected@, full@).take(3 * p),
        decreases selected@.len() - p,
    {
        let cell: usize = selected[p];
        proof {
            assert(selected@[p as int] < cells.elements@.len());
            assert(cells.elements@[cell as int].wf(full@.len() as int, 3));
            assert(values_fit(
                cells.values@[cell as int]@,
                cells.elements@[cell as int].dofs@.len(),
            ));
        }
        let element = &cells.elements[cell];
        let values = &cells.values[cell];
        let mut component: usize = 0;
        while component < 3
            invariant
                component <= 3,
                p < selected@.len(),
                cell == selected@[p as int],
                cell < cells.elements@.len(),
                *element == cells.elements@[cell as int],
                *values == cells.values@[cell as int],
                element.wf(full@.len() as int, 3),
                values_fit(values@, element.dofs@.len()),
                residual@ =~= probe_residual(*cells, selected@, full@).take(3 * p + component),
            decreases 3 - component,
        {
            let mut sum = T::zero();
            let mut l: usize = 0;
            while l < element.dofs.len()
                invariant
                    l <= element.dofs@.len(),
                    component < 3,
                    element.wf(full@.len() as int, 3),
                    values_fit(values@, element.dofs@.len()),
                    sum == field_to(element.dofs@, values@, full@, component as int, l as int),
                decreases element.dofs@.len() - l,
            {
                proof {
                    assert(element.dofs@[l as int] < full@.len());
                    assert(values@[l as int]@.len() == 3);
                }
                sum = sum.plus(full[element.dofs[l]].times(values[l][component]));
                l = l + 1;
            }
            residual.push(sum);
            proof {
                let at = 3 * p + component;
                assert(at / 3 == p && at % 3 == component);
                assert(probe_residual(*cells, selected@, full@)[at] == sum);
            }
            component = component + 1;
        }
        p = p + 1;
    }
    proof {
        assert(probe_residual(*cells, selected@, full@).take(3 * p) =~= probe_residual(
            *cells,
            selected@,
            full@,
        ));
    }
    residual
}

fn push_row_times<T: Scalar>(
    rows: &Vec<Vec<(usize, T)>>,
    row: usize,
    place: usize,
    factor: T,
    terms: &mut Vec<(usize, usize, T)>,
    nrows: usize,
    ncols: usize,
    Ghost(jacobian): Ghost<Seq<(usize, usize, T)>>,
)
    requires
        row < rows@.len(),
        place < nrows,
        rows@[row as int]@ == row_list(jacobian, row as int),
        triplets_within(jacobian, rows@.len() as int, ncols as int),
        triplets_within(old(terms)@, nrows as int, ncols as int),
    ensures
        final(terms)@ == old(terms)@ + row_times(jacobian, row as int, place, factor),
        triplets_within(final(terms)@, nrows as int, ncols as int),
{
    let ghost start = terms@;
    let ghost added = row_times(jacobian, row as int, place, factor);
    proof {
        lemma_row_times(jacobian, row as int, place, factor);
        lemma_row_list_within(jacobian, rows@.len() as int, ncols as int, row as int);
    }
    let list = &rows[row];
    let mut k: usize = 0;
    while k < list.len()
        invariant
            k <= list@.len(),
            place < nrows,
            list@ == row_list(jacobian, row as int),
            added == row_times(jacobian, row as int, place, factor),
            added.len() == list@.len(),
            forall|j: int|
                0 <= j < list@.len() ==> #[trigger] added[j] == (
                    place,
                    list@[j].0,
                    factor.times_spec(list@[j].1),
                ),
            forall|j: int| 0 <= j < list@.len() ==> (#[trigger] list@[j]).0 < ncols,
            terms@ =~= start + added.take(k as int),
            triplets_within(terms@, nrows as int, ncols as int),
        decreases list@.len() - k,
    {
        let (col, value): (usize, T) = list[k];
        proof {
            assert(list@[k as int].0 < ncols);
            assert(added[k as int] == (place, col, factor.times_spec(value)));
        }
        terms.push((place, col, factor.times(value)));
        k = k + 1;
    }
    proof {
        assert(added.take(k as int) =~= added);
    }
}

fn push_components<T: Scalar>(
    value: &Vec<T>,
    rows: &Vec<Vec<(usize, T)>>,
    row: usize,
    place: usize,
    terms: &mut Vec<(usize, usize, T)>,
    nrows: usize,
    ncols: usize,
    Ghost(jacobian): Ghost<Seq<(usize, usize, T)>>,
)
    requires
        value@.len() == 3,
        row < rows@.len(),
        place + 3 <= nrows,
        rows@[row as int]@ == row_list(jacobian, row as int),
        triplets_within(jacobian, rows@.len() as int, ncols as int),
        triplets_within(old(terms)@, nrows as int, ncols as int),
    ensures
        final(terms)@ == old(terms)@ + component_terms(
            value@,
            jacobian,
            row as int,
            place as int,
            3,
        ),
        triplets_within(final(terms)@, nrows as int, ncols as int),
{
    let ghost start = terms@;
    let mut c: usize = 0;
    while c < 3
        invariant
            c <= 3,
            value@.len() == 3,
            row < rows@.len(),
            place + 3 <= nrows,
            rows@[row as int]@ == row_list(jacobian, row as int),
            triplets_within(jacobian, rows@.len() as int, ncols as int),
            triplets_within(terms@, nrows as int, ncols as int),
            terms@ =~= start + component_terms(
                value@,
                jacobian,
                row as int,
                place as int,
                c as int,
            ),
        decreases 3 - c,
    {
        let factor = value[c];
        if !factor.is_zero() {
            push_row_times(
                rows,
                row,
                place + c,
                factor,
                terms,
                nrows,
                ncols,
                Ghost(jacobian),
            );
        }
        c = c + 1;
    }
}

fn jacobian_on_cells<T: Scalar>(
    cells: &Tetrahedra<T>,
    selected: &[usize],
    layout: &DofLayout<T>,
    jacobian: &CsrMatrix<T>,
) -> (probed: CsrMatrix<T>)
    requires
        layout.wf(),
        cells.wf(layout.full_dimension as int),
        selected_within(selected@, cells.elements@.len()),
        3 * selected@.len() <= usize::MAX,
        jacobian.wf(),
        jacobian.rows() == layout.active_dofs@.len(),
    ensures
        probed.wf(),
        probed.rows() == 3 * selected@.len(),
        probed.cols() == jacobian.cols(),
        probed.entries() == probe_jacobian(
            *cells,
            selected@,
            layout.active_dofs@,
            jacobian.entries(),
        ),
{
    let map = reduced_index_map(layout);
    let rows = sparse_rows(jacobian);
    let nrows: usize = 3 * selected.len();
    let ncols: usize = jacobian.ncols();
    let ghost active = layout.active_dofs@;
    let ghost entries = jacobian.entries();
    let mut terms: Vec<(usize, usize, T)> = Vec::new();
    let mut p: usize = 0;
    while p < selected.len()
        invariant
            p <= selected@.len(),
            nrows == 3 * selected@.len(),
            cells.wf(map@.len() as int),
            selected_within(selected@, cells.elements@.len()),
            entries == jacobian.entries(),
            triplets_within(entries, rows@.len() as int, ncols as int),
            forall|r: int|
                0 <= r < rows@.len() ==> (#[trigger] rows@[r])@ == row_list(entries, r),
            forall|i: int|
                0 <= i < map@.len() ==> #[trigger] map@[i] == reduced_position(active, i as usize),
            forall|i: int|
                0 <= i < map@.len() && (#[trigger] map@[i]) is Some ==> map@[i]->0 < rows@.len(),
            triplets_within(terms@, nrows as int, ncols as int),
            terms@ =~= probe_terms(*cells, selected@, active, entries, p as int),
        decreases selected@.len() - p,
    {
        let cell: usize = selected[p];
        proof {
            assert(selected@[p as int] < cells.elements@.len());
            assert(cells.elements@[cell as int].wf(map@.len() as int, 3));
            assert(values_fit(
                cells.values@[cell as int]@,
                cells.elements@[cell as int].dofs@.len(),
            ));
        }
        let element = &cells.elements[cell];
        let values = &cells.values[cell];
        let ghost start = terms@;
        let mut l: usize = 0;
        while l < element.dofs.len()
            invariant
                l <= element.dofs@.len(),
                p < selected@.len(),
                nrows == 3 * selected@.len(),
                element.wf(map@.len() as int, 3),
                values_fit(values@, element.dofs@.len()),
                triplets_within(entries, rows@.len() as int, ncols as int),
                forall|r: int|
                    0 <= r < rows@.len() ==> (#[trigger] rows@[r])@ == row_list(entries, r),
                forall|i: int|
                    0 <= i < map@.len() ==> #[trigger] map@[i] == reduced_position(
                        active,
                        i as usize,
                    ),
                forall|i: int|
                    0 <= i < map@.len() && (#[trigger] map@[i]) is Some ==> map@[i]->0
                        < rows@.len(),
                triplets_within(terms@, nrows as int, ncols as int),
                terms@ =~= start + edge_terms(
                    element.dofs@,
                    values@,
                    active,
                    entries,
                    3 * p,
                    l as int,
                ),
            decreases element.dofs@.len() - l,
        {
            let edge: usize = element.dofs[l];
            proof {
                assert(element.dofs@[l as int] < map@.len());
                assert(values@[l as int]@.len() == 3);
                assert(map@[edge as int] == reduced_position(active, edge));
            }
            if let Some(row) = map[edge] {
                push_components(
                    &values[l],
                    &rows,
                    row,
                    3 * p,
                    &mut terms,
                    nrows,
                    ncols,
                    Ghost(entries),
                );
            }
            l = l + 1;
        }
        p = p + 1;
    }
    drop_insignificant(&csr_from_triplets(nrows, ncols, terms.as_slice()), T::zero())
}

/// The residual of the weak problem as coefficients of edge functions.
pub open spec fn projected_residual<T: Scalar>(
    inverse: Seq<(usize, usize, T)>,
    n: nat,
    residual: Seq<T>,
) -> Seq<T> {
    matrix_times(inverse, n, residual)
}

/// The Jacobian of the weak problem in coefficients of edge functions.
pub open spec fn projected_jacobian<T: Scalar>(
    inverse: Seq<(usize, usize, T)>,
    jacobian: Seq<(usize, usize, T)>,
) -> Seq<(usize, usize, T)> {
    significant(
        compressed(product_terms(inverse, jacobian)),
        reciprocal_spec::<T>(VALUE_RESOLUTION as nat),
    )
}

/// The residual on the chosen cells that belongs to a residual of the weak problem.
pub open spec fn probed_residual<T: Scalar>(
    cells: Tetrahedra<T>,
    selected: Seq<usize>,
    layout: DofLayout<T>,
    inverse: Seq<(usize, usize, T)>,
    residual: Seq<T>,
) -> Seq<T> {
    probe_residual(
        cells,
        selected,
        lifted(
            layout.full_dimension as nat,
            layout.active_dofs@,
            Seq::<PrescribedDof<T>>::empty(),
            projected_residual(inverse, layout.active_dofs@.len(), residual),
        ),
    )
}

/// The Jacobian on the chosen cells that belongs to a Jacobian of the weak problem.
pub open spec fn probed_jacobian<T: Scalar>(
    cells: Tetrahedra<T>,
    selected: Seq<usize>,
    layout: DofLayout<T>,
    inverse: Seq<(usize, usize, T)>,
    jacobian: Seq<(usize, usize, T)>,
) -> Seq<(usize, usize, T)> {
    probe_jacobian(
        cells,
        selected,
        layout.active_dofs@,
        projected_jacobian(inverse, jacobian),
    )
}

/// The residual and the Jacobian on the chosen cells, from those of the weak problem.
pub fn probe_weak_residual<T: Scalar>(
    cells: &Tetrahedra<T>,
    selected: &[usize],
    layout: &DofLayout<T>,
    inverse: &CsrMatrix<T>,
    weak: &ResidualEvaluation<T>,
) -> (outcome: Result<ResidualEvaluation<T>, String>)
    requires
        layout.wf(),
        cells.wf(layout.full_dimension as int),
        selected_within(selected@, cells.elements@.len()),
        3 * selected@.len() <= usize::MAX,
        inverse.wf(),
        inverse.rows() == layout.active_dofs@.len(),
        inverse.cols() == layout.active_dofs@.len(),
        weak.jacobian.wf(),
        weak.jacobian.rows() == layout.active_dofs@.len(),
        weak.jacobian.cols() == layout.active_dofs@.len(),
        weak.residual@.len() == layout.active_dofs@.len(),
    ensures
        outcome matches Ok(e) && is_evaluation(
            e,
            probed_residual(*cells, selected@, *layout, inverse.entries(), weak.residual@),
            probed_jacobian(*cells, selected@, *layout, inverse.entries(), weak.jacobian.entries()),
            3 * selected@.len(),
            layout.active_dofs@.len(),
        ),
{
    let coefficients: Vec<T> = match sparse_mul_vec(inverse, weak.residual.as_slice()) {
        Err(text) => return Err(text),
        Ok(coefficients) => coefficients,
    };
    let jacobian: CsrMatrix<T> = match sparse_matmul(inverse, &weak.jacobian) {
        Err(text) => return Err(text),
        Ok(jacobian) => jacobian,
    };
    let full: Vec<T> = match lift_active_to_full_zero_fixed(layout, coefficients.as_slice()) {
        Err(text) => return Err(text),
        Ok(full) => full,
    };
    Ok(
        ResidualEvaluation {
            residual: residual_on_cells(cells, selected, full.as_slice()),
            jacobian: jacobian_on_cells(cells, selected, layout, &jacobian),
        },
    )
}

} // verus!
