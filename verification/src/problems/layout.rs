//! Restriction of matrices and vectors to the active dofs of a layout, and back.

use crate::linalg::algebra::{row_dot, shape_text};
use crate::linalg::algebra::{push_shape, zero_vector};
use crate::linalg::csr::{compressed, compressed_exists, compresses};
use crate::linalg::csr::CsrMatrix;
use crate::linalg::ring::{compressing_keeps_products, exact_addition, exact_ring};
use crate::linalg::scalar::Scalar;
use crate::linalg::sparse::triplets_within;
use crate::linalg::sparse::CooMatrix;
use crate::reduction::dof_indices;
use crate::reduction::{DofLayout, PrescribedDof};
use crate::text::decimal;
use crate::text::{owned, push_decimal};
use vstd::prelude::*;
use vstd::string::*;

verus! {

/// The position of a dof among the active ones.
pub open spec fn reduced_position(active: Seq<usize>, dof: usize) -> Option<usize> {
    if active.contains(dof) {
        Some(active.index_of(dof) as usize)
    } else {
        None
    }
}

/// The value prescribed for a dof.
pub open spec fn prescribed_value<T>(prescribed: Seq<PrescribedDof<T>>, dof: usize) -> Option<T> {
    let ids = dof_indices(prescribed);
    if ids.contains(dof) {
        Some(prescribed[ids.index_of(dof)].value)
    } else {
        None
    }
}

/// The entries between active dofs, by their positions.
pub open spec fn reduced_triplets<T>(entries: Seq<(usize, usize, T)>, active: Seq<usize>) -> Seq<
    (usize, usize, T),
>
    decreases entries.len(),
{
    if entries.len() == 0 {
        Seq::empty()
    } else {
        let before = reduced_triplets(entries.drop_last(), active);
        let (r, c, v) = entries.last();
        match (reduced_position(active, r), reduced_position(active, c)) {
            (Some(row), Some(col)) => before.push((row, col, v)),
            _ => before,
        }
    }
}

/// What the prescribed values contribute to row `r` of the reduced system: the sum over the
/// entries between an active row and a prescribed column of entry times prescribed value.
pub open spec fn bias_at<T: Scalar>(
    entries: Seq<(usize, usize, T)>,
    active: Seq<usize>,
    prescribed: Seq<PrescribedDof<T>>,
    r: int,
) -> T
    decreases entries.len(),
{
    if entries.len() == 0 {
        T::zero_spec()
    } else {
        let before = bias_at(entries.drop_last(), active, prescribed, r);
        let (row, col, v) = entries.last();
        match (reduced_position(active, row), prescribed_value(prescribed, col)) {
            (Some(position), Some(value)) => if position == r {
                before.plus_spec(v.times_spec(value))
            } else {
                before
            },
            _ => before,
        }
    }
}

/// The full vector with the given values at the active dofs and the prescribed ones elsewhere.
pub open spec fn lifted<T: Scalar>(
    layout_dimension: nat,
    active: Seq<usize>,
    prescribed: Seq<PrescribedDof<T>>,
    reduced: Seq<T>,
) -> Seq<T> {
    Seq::new(
        layout_dimension,
        |i: int|
            match reduced_position(active, i as usize) {
                Some(position) => reduced[position as int],
                None => match prescribed_value(prescribed, i as usize) {
                    Some(value) => value,
                    None => T::zero_spec(),
                },
            },
    )
}

/// The values of a full vector at the active dofs.
pub open spec fn restricted_vector<T>(full: Seq<T>, active: Seq<usize>) -> Seq<T> {
    Seq::new(active.len(), |i: int| full[active[i] as int])
}

proof fn lemma_position(active: Seq<usize>, i: int)
    requires
        active.no_duplicates(),
        0 <= i < active.len(),
    ensures
        active.contains(active[i]),
        active.index_of(active[i]) == i,
{
    assert(active.contains(active[i]));
}

proof fn lemma_index_in(items: Seq<usize>, x: usize)
    requires
        items.contains(x),
    ensures
        0 <= items.index_of(x) < items.len(),
        items[items.index_of(x)] == x,
{
    let i = choose|i: int| 0 <= i < items.len() && items[i] == x;
    assert(0 <= items.index_of(x) < items.len() && items[items.index_of(x)] == x);
}

/// The position of each dof among the active ones.
pub fn reduced_index_map<T: Scalar>(layout: &DofLayout<T>) -> (map: Vec<Option<usize>>)
    requires
        layout.wf(),
    ensures
        map@.len() == layout.full_dimension,
        forall|i: int|
            0 <= i < map@.len() ==> #[trigger] map@[i] == reduced_position(
                layout.active_dofs@,
                i as usize,
            ),
        forall|i: int|
            0 <= i < map@.len() && (#[trigger] map@[i]) is Some ==> map@[i]->0
                < layout.active_dofs@.len(),
{
    let ghost active = layout.active_dofs@;
    let mut map: Vec<Option<usize>> = vec![None; layout.full_dimension];
    let mut i: usize = 0;
    while i < layout.active_dofs.len()
        invariant
            i <= active.len(),
            layout.wf(),
            active == layout.active_dofs@,
            map@.len() == layout.full_dimension,
            forall|j: int|
                0 <= j < map@.len() ==> #[trigger] map@[j] == (if active.contains(j as usize)
                    && active.index_of(j as usize) < i {
                    Some(active.index_of(j as usize) as usize)
                } else {
                    None::<usize>
                }),
        decreases active.len() - i,
    {
        let full: usize = layout.active_dofs[i];
        let ghost before = map@;
        proof {
            assert(active[i as int] < layout.full_dimension);
            lemma_position(active, i as int);
        }
        map[full] = Some(i);
        proof {
            assert forall|j: int| 0 <= j < map@.len() implies #[trigger] map@[j] == (
            if active.contains(j as usize) && active.index_of(j as usize) < i + 1 {
                Some(active.index_of(j as usize) as usize)
            } else {
                None::<usize>
            }) by {
                if j != full {
                    assert(map@[j] == before[j]);
                    if active.contains(j as usize) {
                        lemma_index_in(active, j as usize);
                    }
                }
            }
        }
        i = i + 1;
    }
    proof {
        assert forall|j: int| 0 <= j < map@.len() implies #[trigger] map@[j] == reduced_position(
            active,
            j as usize,
        ) by {
            if active.contains(j as usize) {
                lemma_index_in(active, j as usize);
            }
        }
        assert forall|j: int| 0 <= j < map@.len() && (#[trigger] map@[j]) is Some implies map@[j]->0
            < active.len() by {
            lemma_index_in(active, j as usize);
        }
    }
    map
}

/// For each dof the value prescribed for it, if any.
pub fn fixed_map<T: Scalar>(full_dimension: usize, fixed_dofs: &[PrescribedDof<T>]) -> (map: Vec<
    Option<T>,
>)
    requires
        dof_indices(fixed_dofs@).no_duplicates(),
        forall|i: int|
            0 <= i < fixed_dofs@.len() ==> (#[trigger] fixed_dofs@[i]).index < full_dimension,
    ensures
        map@.len() == full_dimension,
        forall|i: int|
            0 <= i < map@.len() ==> #[trigger] map@[i] == prescribed_value(
                fixed_dofs@,
                i as usize,
            ),
{
    let ghost ids = dof_indices(fixed_dofs@);
    let mut map: Vec<Option<T>> = Vec::new();
    let mut n: usize = 0;
    while n < full_dimension
        invariant
            n <= full_dimension,
            map@.len() == n,
            forall|j: int| 0 <= j < n ==> #[trigger] map@[j] == None::<T>,
        decreases full_dimension - n,
    {
        map.push(None);
        n = n + 1;
    }
    let mut i: usize = 0;
    while i < fixed_dofs.len()
        invariant
            i <= fixed_dofs@.len(),
            ids == dof_indices(fixed_dofs@),
            ids.no_duplicates(),
            forall|j: int|
                0 <= j < fixed_dofs@.len() ==> (#[trigger] fixed_dofs@[j]).index < full_dimension,
            map@.len() == full_dimension,
            forall|j: int|
                0 <= j < map@.len() ==> #[trigger] map@[j] == (if ids.contains(j as usize)
                    && ids.index_of(j as usize) < i {
                    Some(fixed_dofs@[ids.index_of(j as usize)].value)
                } else {
                    None::<T>
                }),
        decreases fixed_dofs@.len() - i,
    {
        let entry = fixed_dofs[i];
        let ghost before = map@;
        proof {
            assert(fixed_dofs@[i as int].index < full_dimension);
            assert(ids[i as int] == entry.index);
            lemma_position(ids, i as int);
        }
        map[entry.index] = Some(entry.value);
        proof {
            assert forall|j: int| 0 <= j < map@.len() implies #[trigger] map@[j] == (if ids.contains(
                j as usize,
            ) && ids.index_of(j as usize) < i + 1 {
                Some(fixed_dofs@[ids.index_of(j as usize)].value)
            } else {
                None::<T>
            }) by {
                if j != entry.index {
                    assert(map@[j] == before[j]);
                    if ids.contains(j as usize) {
                        lemma_index_in(ids, j as usize);
                    }
                }
            }
        }
        i = i + 1;
    }
    proof {
        assert forall|j: int| 0 <= j < map@.len() implies #[trigger] map@[j] == prescribed_value(
            fixed_dofs@,
            j as usize,
        ) by {
            if ids.contains(j as usize) {
                lemma_index_in(ids, j as usize);
            }
        }
    }
    map
}

/// The matrix between active dofs, if the matrix has the dimension of the layout.
pub fn reduce_square_with_layout<T: Scalar>(
    matrix: &CsrMatrix<T>,
    layout: &DofLayout<T>,
) -> (reduced: Result<CsrMatrix<T>, String>)
    requires
        matrix.wf(),
        layout.wf(),
    ensures
        reduced is Ok <==> matrix.rows() == layout.full_dimension && matrix.cols()
            == layout.full_dimension,
        match reduced {
            Ok(m) => {
                &&& m.wf()
                &&& m.rows() == layout.active_dofs@.len()
                &&& m.cols() == layout.active_dofs@.len()
                &&& m.entries() == compressed(
                    reduced_triplets(matrix.entries(), layout.active_dofs@),
                )
                &&& compresses(
                    m.entries(),
                    reduced_triplets(matrix.entries(), layout.active_dofs@),
                )
            },
            Err(e) => e@ == "matrix reduction expected a "@ + shape_text(
                layout.full_dimension as nat,
                layout.full_dimension as nat,
            ) + " operator, got "@ + shape_text(matrix.rows(), matrix.cols()),
        },
{
    if matrix.nrows() != layout.full_dimension || matrix.ncols() != layout.full_dimension {
        let mut message = owned("matrix reduction expected a ");
        push_shape(&mut message, layout.full_dimension, layout.full_dimension);
        message.append(" operator, got ");
        push_shape(&mut message, matrix.nrows(), matrix.ncols());
        return Err(message);
    }
    let map = reduced_index_map(layout);
    let n: usize = layout.reduced_dimension();
    let entries = matrix.triplets();
    let ghost active = layout.active_dofs@;
    let mut coo: CooMatrix<T> = CooMatrix::zeros(n, n);
    let mut i: usize = 0;
    proof {
        assert(entries@.take(0) =~= Seq::<(usize, usize, T)>::empty());
    }
    while i < entries.len()
        invariant
            i <= entries@.len(),
            entries@ == matrix.entries(),
            matrix.wf(),
            matrix.rows() == layout.full_dimension,
            matrix.cols() == layout.full_dimension,
            active == layout.active_dofs@,
            n == active.len(),
            map@.len() == layout.full_dimension,
            forall|j: int|
                0 <= j < map@.len() ==> #[trigger] map@[j] == reduced_position(active, j as usize),
            forall|j: int|
                0 <= j < map@.len() && (#[trigger] map@[j]) is Some ==> map@[j]->0 < n,
            coo.wf(),
            coo.rows() == n,
            coo.cols() == n,
            coo.entries() == reduced_triplets(entries@.take(i as int), active),
        decreases entries@.len() - i,
    {
        let (r, c, v) = entries[i];
        proof {
            assert(entries@[i as int].0 < matrix.rows() && entries@[i as int].1 < matrix.cols());
            assert(entries@.take(i + 1).drop_last() =~= entries@.take(i as int));
            assert(entries@.take(i + 1).last() == entries@[i as int]);
            assert(map@[r as int] == reduced_position(active, r));
            assert(map@[c as int] == reduced_position(active, c));
        }
        if let Some(row) = map[r] {
            if let Some(col) = map[c] {
                coo.push(row, col, v);
            }
        }
        i = i + 1;
    }
    proof {
        assert(entries@.take(i as int) =~= entries@);
    }
    Ok(CsrMatrix::from_coo(&coo))
}

/// What the prescribed values contribute to the reduced system.
pub fn hard_dirichlet_bias<T: Scalar>(matrix: &CsrMatrix<T>, layout: &DofLayout<T>) -> (bias: Vec<
    T,
>)
    requires
        matrix.wf(),
        layout.wf(),
        matrix.rows() == layout.full_dimension,
        matrix.cols() == layout.full_dimension,
    ensures
        bias@ == Seq::new(
            layout.active_dofs@.len(),
            |r: int|
                bias_at(matrix.entries(), layout.active_dofs@, layout.prescribed_dofs@, r),
        ),
{
    let map = reduced_index_map(layout);
    let fixed = fixed_map(layout.full_dimension, layout.prescribed_dofs.as_slice());
    let n: usize = layout.reduced_dimension();
    let entries = matrix.triplets();
    let ghost active = layout.active_dofs@;
    let ghost prescribed = layout.prescribed_dofs@;
    let mut bias: Vec<T> = zero_vector(n);
    let mut i: usize = 0;
    proof {
        assert(entries@.take(0) =~= Seq::<(usize, usize, T)>::empty());
    }
    while i < entries.len()
        invariant
            i <= entries@.len(),
            entries@ == matrix.entries(),
            matrix.wf(),
            matrix.rows() == layout.full_dimension,
            matrix.cols() == layout.full_dimension,
            active == layout.active_dofs@,
            prescribed == layout.prescribed_dofs@,
            n == active.len(),
            map@.len() == layout.full_dimension,
            fixed@.len() == layout.full_dimension,
            forall|j: int|
                0 <= j < map@.len() ==> #[trigger] map@[j] == reduced_position(active, j as usize),
            forall|j: int|
                0 <= j < map@.len() && (#[trigger] map@[j]) is Some ==> map@[j]->0 < n,
            forall|j: int|
                0 <= j < fixed@.len() ==> #[trigger] fixed@[j] == prescribed_value(
                    prescribed,
                    j as usize,
                ),
            bias@ =~= Seq::new(
                n as nat,
                |r: int| bias_at(entries@.take(i as int), active, prescribed, r),
            ),
        decreases entries@.len() - i,
    {
        let (r, c, v) = entries[i];
        proof {
            assert(entries@[i as int].0 < matrix.rows() && entries@[i as int].1 < matrix.cols());
            assert(entries@.take(i + 1).drop_last() =~= entries@.take(i as int));
            assert(entries@.take(i + 1).last() == entries@[i as int]);
            assert(map@[r as int] == reduced_position(active, r));
            assert(fixed@[c as int] == prescribed_value(prescribed, c));
        }
        if let Some(row) = map[r] {
            if let Some(value) = fixed[c] {
                bias[row] = bias[row].plus(v.times(value));
            }
        }
        i = i + 1;
    }
    proof {
        assert(entries@.take(i as int) =~= entries@);
    }
    bias
}

fn reduced_length_mismatch(len: usize, active: usize) -> (text: String)
    ensures
        text@ == "reduced vector length "@ + decimal(len as nat)
            + " does not match layout active dimension "@ + decimal(active as nat),
{
    let mut text = owned("reduced vector length ");
    push_decimal(&mut text, len);
    text.append(" does not match layout active dimension ");
    push_decimal(&mut text, active);
    text
}

/// Puts the reduced values at the active dofs of a full vector.
fn place_active<T: Scalar>(layout: &DofLayout<T>, reduced_state: &[T], full: &mut Vec<T>)
    requires
        layout.wf(),
        reduced_state@.len() == layout.active_dofs@.len(),
        old(full)@.len() == layout.full_dimension,
    ensures
        final(full)@.len() == layout.full_dimension,
        forall|i: int|
            0 <= i < layout.full_dimension ==> #[trigger] final(full)@[i] == (
            match reduced_position(layout.active_dofs@, i as usize) {
                Some(position) => reduced_state@[position as int],
                None => old(full)@[i],
            }),
{
    let ghost active = layout.active_dofs@;
    let ghost start = full@;
    let mut i: usize = 0;
    while i < layout.active_dofs.len()
        invariant
            i <= active.len(),
            layout.wf(),
            active == layout.active_dofs@,
            reduced_state@.len() == active.len(),
            full@.len() == layout.full_dimension,
            start.len() == layout.full_dimension,
            forall|j: int|
                0 <= j < full@.len() ==> #[trigger] full@[j] == (if active.contains(j as usize)
                    && active.index_of(j as usize) < i {
                    reduced_state@[active.index_of(j as usize)]
                } else {
                    start[j]
                }),
        decreases active.len() - i,
    {
        let dof: usize = layout.active_dofs[i];
        let ghost before = full@;
        proof {
            assert(active[i as int] < layout.full_dimension);
            lemma_position(active, i as int);
        }
        full[dof] = reduced_state[i];
        proof {
            assert forall|j: int| 0 <= j < full@.len() implies #[trigger] full@[j] == (
            if active.contains(j as usize) && active.index_of(j as usize) < i + 1 {
                reduced_state@[active.index_of(j as usize)]
            } else {
                start[j]
            }) by {
                if j != dof {
                    assert(full@[j] == before[j]);
                    if active.contains(j as usize) {
                        lemma_index_in(active, j as usize);
                    }
                }
            }
        }
        i = i + 1;
    }
    proof {
        assert forall|j: int| 0 <= j < layout.full_dimension implies #[trigger] full@[j] == (
        match reduced_position(active, j as usize) {
            Some(position) => reduced_state@[position as int],
            None => start[j],
        }) by {
            if active.contains(j as usize) {
                lemma_index_in(active, j as usize);
            }
        }
    }
}

/// The full vector of a reduced one: reduced values at the active dofs, prescribed values
/// elsewhere.
pub fn lift_reduced_with_layout<T: Scalar>(
    layout: &DofLayout<T>,
    reduced_state: &[T],
) -> (full: Result<Vec<T>, String>)
    requires
        layout.wf(),
    ensures
        full is Ok <==> reduced_state@.len() == layout.active_dofs@.len(),
        match full {
            Ok(full) => full@ == lifted(
                layout.full_dimension as nat,
                layout.active_dofs@,
                layout.prescribed_dofs@,
                reduced_state@,
            ),
            Err(e) => e@ == "reduced vector length "@ + decimal(reduced_state@.len())
                + " does not match layout active dimension "@ + decimal(
                layout.active_dofs@.len(),
            ),
        },
{
    if reduced_state.len() != layout.reduced_dimension() {
        return Err(reduced_length_mismatch(reduced_state.len(), layout.reduced_dimension()));
    }
    let fixed = fixed_map(layout.full_dimension, layout.prescribed_dofs.as_slice());
    let mut full: Vec<T> = Vec::new();
    let mut i: usize = 0;
    while i < layout.full_dimension
        invariant
            i <= layout.full_dimension,
            fixed@.len() == layout.full_dimension,
            forall|j: int|
                0 <= j < fixed@.len() ==> #[trigger] fixed@[j] == prescribed_value(
                    layout.prescribed_dofs@,
                    j as usize,
                ),
            full@.len() == i,
            forall|j: int|
                0 <= j < i ==> #[trigger] full@[j] == (match prescribed_value(
                    layout.prescribed_dofs@,
                    j as usize,
                ) {
                    Some(value) => value,
                    None => T::zero_spec(),
                }),
        decreases layout.full_dimension - i,
    {
        proof {
            assert(fixed@[i as int] == prescribed_value(layout.prescribed_dofs@, i));
        }
        match fixed[i] {
            Some(value) => full.push(value),
            None => full.push(T::zero()),
        }
        i = i + 1;
    }
    place_active(layout, reduced_state, &mut full);
    proof {
        assert(full@ =~= lifted(
            layout.full_dimension as nat,
            layout.active_dofs@,
            layout.prescribed_dofs@,
            reduced_state@,
        ));
    }
    Ok(full)
}

/// The full vector of a reduced one, zero at the prescribed dofs.
pub fn lift_active_to_full_zero_fixed<T: Scalar>(
    layout: &DofLayout<T>,
    reduced_state: &[T],
) -> (full: Result<Vec<T>, String>)
    requires
        layout.wf(),
    ensures
        full is Ok <==> reduced_state@.len() == layout.active_dofs@.len(),
        match full {
            Ok(full) => full@ == lifted(
                layout.full_dimension as nat,
                layout.active_dofs@,
                Seq::empty(),
                reduced_state@,
            ),
            Err(e) => e@ == "reduced vector length "@ + decimal(reduced_state@.len())
                + " does not match layout active dimension "@ + decimal(
                layout.active_dofs@.len(),
            ),
        },
{
    if reduced_state.len() != layout.reduced_dimension() {
        return Err(reduced_length_mismatch(reduced_state.len(), layout.reduced_dimension()));
    }
    let mut full: Vec<T> = zero_vector(layout.full_dimension);
    place_active(layout, reduced_state, &mut full);
    proof {
        let none = Seq::<PrescribedDof<T>>::empty();
        assert(dof_indices(none) =~= Seq::<usize>::empty());
        assert(full@ =~= lifted(
            layout.full_dimension as nat,
            layout.active_dofs@,
            none,
            reduced_state@,
        ));
    }
    Ok(full)
}

/// The values of a full vector at the active dofs.
pub fn reduce_vector_with_layout<T: Scalar>(layout: &DofLayout<T>, full: &[T]) -> (reduced: Result<
    Vec<T>,
    String,
>)
    requires
        layout.wf(),
    ensures
        reduced is Ok <==> full@.len() == layout.full_dimension,
        match reduced {
            Ok(reduced) => reduced@ == restricted_vector(full@, layout.active_dofs@),
            Err(e) => e@ == "full vector length "@ + decimal(full@.len())
                + " does not match layout dimension "@ + decimal(layout.full_dimension as nat),
        },
{
    if full.len() != layout.full_dimension {
        let mut message = owned("full vector length ");
        push_decimal(&mut message, full.len());
        message.append(" does not match layout dimension ");
        push_decimal(&mut message, layout.full_dimension);
        return Err(message);
    }
    let mut reduced: Vec<T> = Vec::new();
    let mut i: usize = 0;
    while i < layout.active_dofs.len()
        invariant
            i <= layout.active_dofs@.len(),
            layout.wf(),
            full@.len() == layout.full_dimension,
            reduced@ =~= restricted_vector(full@, layout.active_dofs@).take(i as int),
        decreases layout.active_dofs@.len() - i,
    {
        proof {
            assert(layout.active_dofs@[i as int] < layout.full_dimension);
        }
        reduced.push(full[layout.active_dofs[i]]);
        i = i + 1;
    }
    proof {
        let all = restricted_vector(full@, layout.active_dofs@);
        assert(all.take(i as int) =~= all);
    }
    Ok(reduced)
}

/// Restricting a lifted vector to the active dofs gives the reduced vector back.
pub proof fn reduce_undoes_lift<T: Scalar>(layout: &DofLayout<T>, reduced: Seq<T>)
    requires
        layout.wf(),
        reduced.len() == layout.active_dofs@.len(),
    ensures
        restricted_vector(
            lifted(
                layout.full_dimension as nat,
                layout.active_dofs@,
                layout.prescribed_dofs@,
                reduced,
            ),
            layout.active_dofs@,
        ) == reduced,
{
    let active = layout.active_dofs@;
    let full = lifted(layout.full_dimension as nat, active, layout.prescribed_dofs@, reduced);
    assert forall|i: int| 0 <= i < active.len() implies #[trigger] restricted_vector(
        full,
        active,
    )[i] == reduced[i] by {
        assert(active[i] < layout.full_dimension);
        lemma_position(active, i);
    }
    assert(restricted_vector(full, active) =~= reduced);
}

/// A lifted vector has the prescribed value at each prescribed dof.
pub proof fn lift_keeps_prescribed<T: Scalar>(layout: &DofLayout<T>, reduced: Seq<T>, i: int)
    requires
        layout.wf(),
        0 <= i < layout.prescribed_dofs@.len(),
    ensures
        lifted(
            layout.full_dimension as nat,
            layout.active_dofs@,
            layout.prescribed_dofs@,
            reduced,
        )[layout.prescribed_dofs@[i].index as int] == layout.prescribed_dofs@[i].value,
{
    let ids = dof_indices(layout.prescribed_dofs@);
    assert(ids[i] == layout.prescribed_dofs@[i].index);
    assert(layout.prescribed_dofs@[i].index < layout.full_dimension);
    lemma_position(ids, i);
}


proof fn lemma_affine_rows<T: Scalar>(
    layout: &DofLayout<T>,
    entries: Seq<(usize, usize, T)>,
    reduced: Seq<T>,
    r: int,
)
    requires
        exact_addition::<T>(),
        layout.wf(),
        triplets_within(
            entries,
            layout.full_dimension as int,
            layout.full_dimension as int,
        ),
        reduced.len() == layout.active_dofs@.len(),
        0 <= r < layout.active_dofs@.len(),
    ensures
        row_dot(
            entries,
            lifted(
                layout.full_dimension as nat,
                layout.active_dofs@,
                layout.prescribed_dofs@,
                reduced,
            ),
            layout.active_dofs@[r] as int,
        ) == row_dot(reduced_triplets(entries, layout.active_dofs@), reduced, r).plus_spec(
            bias_at(entries, layout.active_dofs@, layout.prescribed_dofs@, r),
        ),
    decreases entries.len(),
{
    let active = layout.active_dofs@;
    let prescribed = layout.prescribed_dofs@;
    let full = lifted(layout.full_dimension as nat, active, prescribed, reduced);
    let at = active[r] as int;
    if entries.len() == 0 {
        assert(T::zero_spec().plus_spec(T::zero_spec()) == T::zero_spec());
    } else {
        let front = entries.drop_last();
        let (row, col, v) = entries.last();
        assert(entries[entries.len() - 1] == (row, col, v));
        assert forall|i: int| 0 <= i < front.len() implies (#[trigger] front[i]).0
            < layout.full_dimension && front[i].1 < layout.full_dimension by {
            assert(front[i] == entries[i]);
        }
        lemma_affine_rows(layout, front, reduced, r);
        lemma_position(active, r);
        layout.active_or_prescribed(col);
        let a = row_dot(reduced_triplets(front, active), reduced, r);
        let b = bias_at(front, active, prescribed, r);
        if active.contains(row) {
            lemma_index_in(active, row);
        }
        if active.contains(col) {
            lemma_index_in(active, col);
        }
        let position = reduced_position(active, row);
        if position is Some && reduced_position(active, col) is Some {
            let item = (position->0, reduced_position(active, col)->0, v);
            let before = reduced_triplets(front, active);
            assert(reduced_triplets(entries, active) == before.push(item));
            assert(before.push(item).drop_last() =~= before);
        }
        if row == at {
            let t = v.times_spec(full[col as int]);
            if active.contains(col) {
                assert(a.plus_spec(b).plus_spec(t) == a.plus_spec(b.plus_spec(t)));
                assert(b.plus_spec(t) == t.plus_spec(b));
                assert(a.plus_spec(t).plus_spec(b) == a.plus_spec(t.plus_spec(b)));
            } else {
                assert(prescribed_value(prescribed, col) is Some);
                assert(a.plus_spec(b).plus_spec(t) == a.plus_spec(b.plus_spec(t)));
            }
        } else {
            assert(position != Some(r as usize)) by {
                if active.contains(row) {
                    assert(active[active.index_of(row)] == row);
                }
            }
        }
    }
}

/// Prescribed values enter the reduced system as an affine term and nowhere else: applied to
/// a lifted vector, an operator gives in each active row what the reduced operator gives of
/// the reduced vector, plus the bias of the prescribed values. This holds for coefficients
/// that compute exactly.
pub proof fn prescribed_values_enter_as_bias<T: Scalar>(
    layout: &DofLayout<T>,
    entries: Seq<(usize, usize, T)>,
    reduced_matrix: &CsrMatrix<T>,
    reduced: Seq<T>,
    r: int,
)
    requires
        exact_ring::<T>(),
        layout.wf(),
        triplets_within(entries, layout.full_dimension as int, layout.full_dimension as int),
        reduced_matrix.wf(),
        reduced_matrix.rows() == layout.active_dofs@.len(),
        reduced_matrix.cols() == layout.active_dofs@.len(),
        reduced_matrix.entries() == compressed(reduced_triplets(entries, layout.active_dofs@)),
        reduced.len() == layout.active_dofs@.len(),
        0 <= r < layout.active_dofs@.len(),
    ensures
        row_dot(
            entries,
            lifted(
                layout.full_dimension as nat,
                layout.active_dofs@,
                layout.prescribed_dofs@,
                reduced,
            ),
            layout.active_dofs@[r] as int,
        ) == row_dot(reduced_matrix.entries(), reduced, r).plus_spec(
            bias_at(entries, layout.active_dofs@, layout.prescribed_dofs@, r),
        ),
{
    let n = layout.active_dofs@.len() as int;
    let triplets = reduced_triplets(entries, layout.active_dofs@);
    lemma_affine_rows(layout, entries, reduced, r);
    lemma_reduced_within(entries, layout.active_dofs@);
    compressed_exists(triplets, n, n);
    compressing_keeps_products(triplets, reduced_matrix.entries(), n, n, reduced, r);
}

proof fn lemma_reduced_within<T>(entries: Seq<(usize, usize, T)>, active: Seq<usize>)
    ensures
        triplets_within(
            reduced_triplets(entries, active),
            active.len() as int,
            active.len() as int,
        ),
    decreases entries.len(),
{
    if entries.len() > 0 {
        let front = entries.drop_last();
        lemma_reduced_within(front, active);
        let (row, col, v) = entries.last();
        if active.contains(row) {
            lemma_index_in(active, row);
        }
        if active.contains(col) {
            lemma_index_in(active, col);
        }
    }
}

} // verus!
