//! Affine terms of residuals.

use crate::linalg::csr::CsrMatrix;
use crate::linalg::scalar::Scalar;
use vstd::prelude::*;

verus! {

/// A value to which a row of a matrix times a vector is added, entry by entry.
pub open spec fn dot_onto<T: Scalar>(
    start: T,
    entries: Seq<(usize, usize, T)>,
    vector: Seq<T>,
    r: int,
) -> T
    decreases entries.len(),
{
    if entries.len() == 0 {
        start
    } else {
        let before = dot_onto(start, entries.drop_last(), vector, r);
        let (row, col, v) = entries.last();
        if row == r {
            before.plus_spec(v.times_spec(vector[col as int]))
        } else {
            before
        }
    }
}

/// A residual to which a bias and an operator applied to a state are added.
pub open spec fn with_affine_term<T: Scalar>(
    residual: Seq<T>,
    operator: Seq<(usize, usize, T)>,
    bias: Seq<T>,
    state: Seq<T>,
) -> Seq<T> {
    Seq::new(
        residual.len(),
        |r: int| dot_onto(residual[r].plus_spec(bias[r]), operator, state, r),
    )
}

/// Adds a bias and an operator applied to a state to a residual.
pub fn add_sparse_affine_residual<T: Scalar>(
    residual: &mut Vec<T>,
    operator: &CsrMatrix<T>,
    bias: &[T],
    state: &[T],
)
    requires
        operator.wf(),
        old(residual)@.len() == operator.rows(),
        bias@.len() == operator.rows(),
        state@.len() == operator.cols(),
    ensures
        final(residual)@ == with_affine_term(
            old(residual)@,
            operator.entries(),
            bias@,
            state@,
        ),
{
    let ghost start = residual@;
    let entries = operator.triplets();
    let mut r: usize = 0;
    while r < bias.len()
        invariant
            r <= bias@.len(),
            residual@.len() == bias@.len(),
            start.len() == bias@.len(),
            forall|i: int| 0 <= i < r ==> #[trigger] residual@[i] == start[i].plus_spec(bias@[i]),
            forall|i: int| r <= i < bias@.len() ==> #[trigger] residual@[i] == start[i],
        decreases bias@.len() - r,
    {
        let before = residual[r];
        residual[r] = before.plus(bias[r]);
        r = r + 1;
    }
    let mut i: usize = 0;
    proof {
        assert(entries@.take(0) =~= Seq::<(usize, usize, T)>::empty());
    }
    while i < entries.len()
        invariant
            i <= entries@.len(),
            operator.wf(),
            entries@ == operator.entries(),
            start.len() == operator.rows(),
            bias@.len() == operator.rows(),
            state@.len() == operator.cols(),
            residual@ =~= with_affine_term(start, entries@.take(i as int), bias@, state@),
        decreases entries@.len() - i,
    {
        let (row, col, v): (usize, usize, T) = entries[i];
        proof {
            assert(entries@[i as int].0 < operator.rows() && entries@[i as int].1
                < operator.cols());
            assert(entries@.take(i + 1).drop_last() =~= entries@.take(i as int));
            assert(entries@.take(i + 1).last() == entries@[i as int]);
        }
        let before = residual[row];
        residual[row] = before.plus(v.times(state[col]));
        i = i + 1;
    }
    proof {
        assert(entries@.take(i as int) =~= entries@);
    }
}

} // verus!
