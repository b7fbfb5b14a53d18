//! Fixing, dropping and reintroducing dofs of Galerkin systems.

use crate::linalg::algebra::{matrix_times, row_dot};
use crate::linalg::algebra::mul_vec;
use crate::linalg::csr::{compressed, CsrMatrix};
use crate::linalg::scalar::Scalar;
use crate::linalg::sparse::{restricted, unset_before, unset_before_monotone};
use crate::linalg::sparse::CooMatrix;
use crate::topology::skeleton::{insert_all_members, unique};
use crate::topology::skeleton::unique_indices;
use vstd::prelude::*;

verus! {

/// Index of a degree of freedom.
pub type DofIdx = usize;

/// The value that the last pair for dof `i` gives.
pub open spec fn last_value<T>(pairs: Seq<(usize, T)>, i: int) -> Option<T>
    decreases pairs.len(),
{
    if pairs.len() == 0 {
        None
    } else if pairs.last().0 == i {
        Some(pairs.last().1)
    } else {
        last_value(pairs.drop_last(), i)
    }
}

/// All dofs of the pairs are below `n`.
pub open spec fn pairs_within<T>(pairs: Seq<(usize, T)>, n: int) -> bool {
    forall|i: int| 0 <= i < pairs.len() ==> (#[trigger] pairs[i]).0 < n
}

/// A value or zero.
pub open spec fn or_zero<T: Scalar>(value: Option<T>) -> T {
    match value {
        Some(v) => v,
        None => T::zero_spec(),
    }
}

/// For each dof below `n` the value that its last pair gives.
pub fn sparse_to_dense_data<T: Copy>(pairs: &[(usize, T)], n: usize) -> (dense: Vec<Option<T>>)
    requires
        pairs_within(pairs@, n as int),
    ensures
        dense@ == Seq::new(n as nat, |i: int| last_value(pairs@, i)),
{
    let mut dense: Vec<Option<T>> = Vec::new();
    let mut k: usize = 0;
    while k < n
        invariant
            k <= n,
            dense@ =~= Seq::new(k as nat, |i: int| None::<T>),
        decreases n - k,
    {
        dense.push(None);
        k = k + 1;
    }
    let mut j: usize = 0;
    proof {
        assert(pairs@.take(0) =~= Seq::<(usize, T)>::empty());
    }
    while j < pairs.len()
        invariant
            j <= pairs@.len(),
            pairs_within(pairs@, n as int),
            dense@ =~= Seq::new(n as nat, |i: int| last_value(pairs@.take(j as int), i)),
        decreases pairs@.len() - j,
    {
        let (i, v) = pairs[j];
        proof {
            assert(pairs@[j as int].0 < n);
            assert(pairs@.take(j + 1).drop_last() =~= pairs@.take(j as int));
            assert(pairs@.take(j + 1).last() == pairs@[j as int]);
        }
        dense[i] = Some(v);
        j = j + 1;
    }
    proof {
        assert(pairs@.take(j as int) =~= pairs@);
    }
    dense
}

/// For each index below `n` whether it is listed.
pub fn indices_to_flags(indices: &[usize], n: usize) -> (flags: Vec<bool>)
    requires
        forall|i: int| 0 <= i < indices@.len() ==> (#[trigger] indices@[i]) < n,
    ensures
        flags@ == Seq::new(n as nat, |i: int| indices@.contains(i as usize)),
{
    let mut flags: Vec<bool> = vec![false; n];
    let mut j: usize = 0;
    while j < indices.len()
        invariant
            j <= indices@.len(),
            flags@.len() == n,
            forall|i: int| 0 <= i < indices@.len() ==> (#[trigger] indices@[i]) < n,
            forall|v: int|
                0 <= v < n ==> (#[trigger] flags@[v] <==> exists|i: int|
                    0 <= i < j && indices@[i] == v),
        decreases indices@.len() - j,
    {
        let ghost before = flags@;
        let at: usize = indices[j];
        proof {
            assert(indices@[j as int] < n);
        }
        flags[at] = true;
        proof {
            assert forall|v: int| 0 <= v < n implies (#[trigger] flags@[v] <==> exists|i: int|
                0 <= i < j + 1 && indices@[i] == v) by {
                if v == at {
                    assert(indices@[j as int] == v);
                } else {
                    assert(flags@[v] == before[v]);
                }
            }
        }
        j = j + 1;
    }
    proof {
        assert(flags@ =~= Seq::new(n as nat, |i: int| indices@.contains(i as usize))) by {
            assert forall|v: int| 0 <= v < n implies flags@[v] == indices@.contains(v as usize) by {
                if flags@[v] {
                    let i = choose|i: int| 0 <= i < j && indices@[i] == v;
                    assert(indices@[i] == v as usize);
                }
            }
        }
    }
    flags
}

/// The entries, with zero in place of those whose row or column is flagged.
pub open spec fn zeroed_at<T: Scalar>(
    entries: Seq<(usize, usize, T)>,
    flags: Seq<bool>,
) -> Seq<(usize, usize, T)> {
    Seq::new(
        entries.len(),
        |i: int|
            (
                entries[i].0,
                entries[i].1,
                if flags[entries[i].0 as int] || flags[entries[i].1 as int] {
                    T::zero_spec()
                } else {
                    entries[i].2
                },
            ),
    )
}

/// The entries, with zero in place of those whose row is flagged.
pub open spec fn zeroed_rows<T: Scalar>(
    entries: Seq<(usize, usize, T)>,
    flags: Seq<bool>,
) -> Seq<(usize, usize, T)> {
    Seq::new(
        entries.len(),
        |i: int|
            (
                entries[i].0,
                entries[i].1,
                if flags[entries[i].0 as int] {
                    T::zero_spec()
                } else {
                    entries[i].2
                },
            ),
    )
}

/// Ones on the diagonal at the given dofs.
pub open spec fn unit_entries<T: Scalar>(dofs: Seq<usize>) -> Seq<(usize, usize, T)> {
    Seq::new(dofs.len(), |i: int| (dofs[i], dofs[i], T::one_spec()))
}

/// The dofs of a list of pairs.
pub open spec fn pair_dofs<T>(pairs: Seq<(usize, T)>) -> Seq<usize> {
    Seq::new(pairs.len(), |i: int| pairs[i].0)
}

fn pair_dof_list<T: Copy>(pairs: &[(usize, T)]) -> (dofs: Vec<usize>)
    ensures
        dofs@ == pair_dofs(pairs@),
{
    let mut dofs: Vec<usize> = Vec::new();
    let mut i: usize = 0;
    while i < pairs.len()
        invariant
            i <= pairs@.len(),
            dofs@ =~= pair_dofs(pairs@).take(i as int),
        decreases pairs@.len() - i,
    {
        dofs.push(pairs[i].0);
        i = i + 1;
    }
    proof {
        assert(pair_dofs(pairs@).take(i as int) =~= pair_dofs(pairs@));
    }
    dofs
}

/// Lists ones on the diagonal at the given dofs.
fn push_units<T: Scalar>(galmat: &mut CooMatrix<T>, dofs: &[usize])
    requires
        old(galmat).wf(),
        old(galmat).rows() == old(galmat).cols(),
        forall|i: int| 0 <= i < dofs@.len() ==> (#[trigger] dofs@[i]) < old(galmat).rows(),
    ensures
        final(galmat).wf(),
        final(galmat).rows() == old(galmat).rows(),
        final(galmat).cols() == old(galmat).cols(),
        final(galmat).entries() == old(galmat).entries() + unit_entries(dofs@),
{
    let ghost before = galmat.entries();
    let ghost n = galmat.rows();
    let mut i: usize = 0;
    while i < dofs.len()
        invariant
            i <= dofs@.len(),
            galmat.wf(),
            galmat.rows() == n,
            galmat.cols() == n,
            forall|j: int| 0 <= j < dofs@.len() ==> (#[trigger] dofs@[j]) < n,
            galmat.entries() =~= before + unit_entries::<T>(dofs@).take(i as int),
        decreases dofs@.len() - i,
    {
        proof {
            assert(dofs@[i as int] < n);
        }
        galmat.push(dofs[i], dofs[i], T::one());
        i = i + 1;
    }
    proof {
        assert(unit_entries::<T>(dofs@).take(i as int) =~= unit_entries::<T>(dofs@));
    }
}

fn zero_flagged<T: Scalar>(galmat: &CooMatrix<T>, flags: &[bool], rows_only: bool) -> (m: CooMatrix<
    T,
>)
    requires
        galmat.wf(),
        galmat.rows() == galmat.cols(),
        flags@.len() == galmat.rows(),
    ensures
        m.wf(),
        m.rows() == galmat.rows(),
        m.cols() == galmat.cols(),
        m.entries() == (if rows_only {
            zeroed_rows(galmat.entries(), flags@)
        } else {
            zeroed_at(galmat.entries(), flags@)
        }),
{
    let entries = galmat.triplets();
    let ghost wanted = if rows_only {
        zeroed_rows(galmat.entries(), flags@)
    } else {
        zeroed_at(galmat.entries(), flags@)
    };
    let mut m: CooMatrix<T> = CooMatrix::zeros(galmat.nrows(), galmat.ncols());
    let mut i: usize = 0;
    while i < entries.len()
        invariant
            i <= entries@.len(),
            entries@ == galmat.entries(),
            galmat.wf(),
            galmat.rows() == galmat.cols(),
            flags@.len() == galmat.rows(),
            m.wf(),
            m.rows() == galmat.rows(),
            m.cols() == galmat.cols(),
            wanted == (if rows_only {
                zeroed_rows(galmat.entries(), flags@)
            } else {
                zeroed_at(galmat.entries(), flags@)
            }),
            m.entries() =~= wanted.take(i as int),
        decreases entries@.len() - i,
    {
        let (r, c, v) = entries[i];
        proof {
            assert(entries@[i as int].0 < galmat.rows() && entries@[i as int].1 < galmat.cols());
        }
        if flags[r] || (!rows_only && flags[c]) {
            m.push(r, c, T::zero());
        } else {
            m.push(r, c, v);
        }
        i = i + 1;
    }
    proof {
        assert(wanted.take(i as int) =~= wanted);
    }
    m
}

/// Fixes dofs of a Galerkin system to zero: couplings of the dofs become zero, their diagonal
/// one and their right-hand side zero.
pub fn fix_dofs_zero<T: Scalar>(dofs: &[DofIdx], galmat: &mut CooMatrix<T>, galvec: &mut Vec<T>)
    requires
        old(galmat).wf(),
        old(galmat).rows() == old(galmat).cols(),
        old(galvec)@.len() == old(galmat).rows(),
        forall|i: int| 0 <= i < dofs@.len() ==> (#[trigger] dofs@[i]) < old(galmat).rows(),
    ensures
        final(galmat).wf(),
        final(galmat).rows() == old(galmat).rows(),
        final(galmat).cols() == old(galmat).cols(),
        final(galmat).entries() == zeroed_at(
            old(galmat).entries(),
            Seq::new(old(galmat).rows(), |i: int| dofs@.contains(i as usize)),
        ) + unit_entries(dofs@),
        final(galvec)@ == Seq::new(
            old(galvec)@.len(),
            |i: int|
                if dofs@.contains(i as usize) {
                    T::zero_spec()
                } else {
                    old(galvec)@[i]
                },
        ),
{
    let n: usize = galmat.nrows();
    let ghost start = galvec@;
    let flags = indices_to_flags(dofs, n);
    let mut m = zero_flagged(galmat, flags.as_slice(), false);
    push_units(&mut m, dofs);
    *galmat = m;
    let mut i: usize = 0;
    while i < n
        invariant
            i <= n,
            start.len() == n,
            flags@ == Seq::new(n as nat, |j: int| dofs@.contains(j as usize)),
            galvec@ =~= Seq::new(
                n as nat,
                |j: int|
                    if j < i && dofs@.contains(j as usize) {
                        T::zero_spec()
                    } else {
                        start[j]
                    },
            ),
        decreases n - i,
    {
        if flags[i] {
            galvec[i] = T::zero();
        }
        i = i + 1;
    }
    proof {
        assert(galvec@ =~= Seq::new(
            start.len(),
            |i: int|
                if dofs@.contains(i as usize) {
                    T::zero_spec()
                } else {
                    start[i]
                },
        ));
    }
}

/// The right-hand side of a system with fixed dofs: the fixed values, and elsewhere the old
/// value without what the fixed values contribute.
pub open spec fn fixed_rhs<T: Scalar>(
    rhs: Seq<T>,
    entries: Seq<(usize, usize, T)>,
    pairs: Seq<(usize, T)>,
) -> Seq<T> {
    let coeffs = Seq::new(rhs.len(), |i: int| or_zero(last_value(pairs, i)));
    Seq::new(
        rhs.len(),
        |i: int|
            match last_value(pairs, i) {
                Some(v) => v,
                None => rhs[i].minus_spec(row_dot(entries, coeffs, i)),
            },
    )
}

/// For each dof whether a pair fixes it.
pub open spec fn fixed_flags<T>(pairs: Seq<(usize, T)>, n: nat) -> Seq<bool> {
    Seq::new(n, |i: int| last_value(pairs, i) is Some)
}

fn flags_of<T: Copy>(dense: &[Option<T>]) -> (flags: Vec<bool>)
    ensures
        flags@ == Seq::new(dense@.len(), |i: int| dense@[i] is Some),
{
    let mut flags: Vec<bool> = Vec::new();
    let mut i: usize = 0;
    while i < dense.len()
        invariant
            i <= dense@.len(),
            flags@ =~= Seq::new(i as nat, |j: int| dense@[j] is Some),
        decreases dense@.len() - i,
    {
        let set = match dense[i] {
            Some(_) => true,
            None => false,
        };
        flags.push(set);
        i = i + 1;
    }
    flags
}

fn values_or_zero<T: Scalar>(dense: &[Option<T>]) -> (values: Vec<T>)
    ensures
        values@ == Seq::new(dense@.len(), |i: int| or_zero(dense@[i])),
{
    let mut values: Vec<T> = Vec::new();
    let mut i: usize = 0;
    while i < dense.len()
        invariant
            i <= dense@.len(),
            values@ =~= Seq::new(i as nat, |j: int| or_zero(dense@[j])),
        decreases dense@.len() - i,
    {
        match dense[i] {
            Some(v) => values.push(v),
            None => values.push(T::zero()),
        }
        i = i + 1;
    }
    values
}

/// Fixes dofs of a Galerkin system to given values: what they contribute moves to the
/// right-hand side, their couplings become zero and their diagonal one.
pub fn fix_dofs_coeff<T: Scalar>(
    dof_coeffs: &[(DofIdx, T)],
    galmat: &mut CooMatrix<T>,
    galvec: &mut Vec<T>,
)
    requires
        old(galmat).wf(),
        old(galmat).rows() == old(galmat).cols(),
        old(galvec)@.len() == old(galmat).rows(),
        pairs_within(dof_coeffs@, old(galmat).rows() as int),
    ensures
        final(galmat).wf(),
        final(galmat).rows() == old(galmat).rows(),
        final(galmat).cols() == old(galmat).cols(),
        final(galmat).entries() == zeroed_at(
            old(galmat).entries(),
            fixed_flags(dof_coeffs@, old(galmat).rows()),
        ) + unit_entries(pair_dofs(dof_coeffs@)),
        final(galvec)@ == fixed_rhs(
            old(galvec)@,
            compressed(old(galmat).entries()),
            dof_coeffs@,
        ),
{
    let n: usize = galmat.nrows();
    let ghost start = galvec@;
    let dense = sparse_to_dense_data(dof_coeffs, n);
    let flags = flags_of(dense.as_slice());
    let coeffs = values_or_zero(dense.as_slice());
    let ghost wanted = Seq::new(start.len(), |i: int| or_zero(last_value(dof_coeffs@, i)));
    proof {
        assert(flags@ =~= fixed_flags(dof_coeffs@, n as nat));
        assert(coeffs@ =~= wanted);
    }
    let csr = CsrMatrix::from_coo(galmat);
    let known = mul_vec(&csr, coeffs.as_slice());
    let ghost rhs = fixed_rhs(start, csr.entries(), dof_coeffs@);
    let mut i: usize = 0;
    while i < n
        invariant
            i <= n,
            start.len() == n,
            n == csr.rows(),
            dense@ == Seq::new(n as nat, |j: int| last_value(dof_coeffs@, j)),
            wanted == Seq::new(start.len(), |j: int| or_zero(last_value(dof_coeffs@, j))),
            known@ == matrix_times(csr.entries(), csr.rows(), wanted),
            rhs == fixed_rhs(start, csr.entries(), dof_coeffs@),
            galvec@ =~= Seq::new(
                n as nat,
                |j: int|
                    if j < i {
                        rhs[j]
                    } else {
                        start[j]
                    },
            ),
        decreases n - i,
    {
        match dense[i] {
            Some(v) => {
                galvec[i] = v;
            },
            None => {
                galvec[i] = galvec[i].minus(known[i]);
            },
        }
        i = i + 1;
    }
    proof {
        assert(galvec@ =~= rhs);
    }
    let mut m = zero_flagged(galmat, flags.as_slice(), false);
    let dofs = pair_dof_list(dof_coeffs);
    proof {
        assert forall|j: int| 0 <= j < dofs@.len() implies (#[trigger] dofs@[j]) < n by {
            assert(dof_coeffs@[j].0 < n);
        }
    }
    push_units(&mut m, dofs.as_slice());
    *galmat = m;
}

/// Fixes dofs of a Galerkin system to given values by replacing their rows alone.
pub fn fix_dofs_coeff_alt<T: Scalar>(
    dof_coeffs: &[(DofIdx, T)],
    galmat: &mut CooMatrix<T>,
    galvec: &mut Vec<T>,
)
    requires
        old(galmat).wf(),
        old(galmat).rows() == old(galmat).cols(),
        old(galvec)@.len() == old(galmat).rows(),
        pairs_within(dof_coeffs@, old(galmat).rows() as int),
    ensures
        final(galmat).wf(),
        final(galmat).rows() == old(galmat).rows(),
        final(galmat).cols() == old(galmat).cols(),
        final(galmat).entries() == zeroed_rows(
            old(galmat).entries(),
            fixed_flags(dof_coeffs@, old(galmat).rows()),
        ) + unit_entries(pair_dofs(dof_coeffs@)),
        final(galvec)@ == Seq::new(
            old(galvec)@.len(),
            |i: int|
                match last_value(dof_coeffs@, i) {
                    Some(v) => v,
                    None => old(galvec)@[i],
                },
        ),
{
    let n: usize = galmat.nrows();
    let ghost start = galvec@;
    let dense = sparse_to_dense_data(dof_coeffs, n);
    let flags = flags_of(dense.as_slice());
    proof {
        assert(flags@ =~= fixed_flags(dof_coeffs@, n as nat));
    }
    let mut m = zero_flagged(galmat, flags.as_slice(), true);
    let dofs = pair_dof_list(dof_coeffs);
    proof {
        assert forall|j: int| 0 <= j < dofs@.len() implies (#[trigger] dofs@[j]) < n by {
            assert(dof_coeffs@[j].0 < n);
        }
    }
    push_units(&mut m, dofs.as_slice());
    *galmat = m;
    set_fixed(dense.as_slice(), galvec);
}

/// Sets the entries for which a value is given.
fn set_fixed<T: Scalar>(dense: &[Option<T>], vector: &mut Vec<T>)
    requires
        old(vector)@.len() == dense@.len(),
    ensures
        final(vector)@ == Seq::new(
            dense@.len(),
            |i: int|
                match dense@[i] {
                    Some(v) => v,
                    None => old(vector)@[i],
                },
        ),
{
    let ghost start = vector@;
    let mut i: usize = 0;
    while i < dense.len()
        invariant
            i <= dense@.len(),
            start.len() == dense@.len(),
            vector@ =~= Seq::new(
                dense@.len(),
                |j: int|
                    if j < i {
                        match dense@[j] {
                            Some(v) => v,
                            None => start[j],
                        }
                    } else {
                        start[j]
                    },
            ),
        decreases dense@.len() - i,
    {
        if let Some(v) = dense[i] {
            vector[i] = v;
        }
        i = i + 1;
    }
    proof {
        assert(vector@ =~= Seq::new(
            dense@.len(),
            |i: int|
                match dense@[i] {
                    Some(v) => v,
                    None => start[i],
                },
        ));
    }
}

/// The entries in rows and columns that are not flagged.
pub open spec fn free_entries<T>(
    entries: Seq<(usize, usize, T)>,
    rows: Seq<bool>,
    cols: Seq<bool>,
) -> Seq<(usize, usize, T)>
    decreases entries.len(),
{
    if entries.len() == 0 {
        Seq::empty()
    } else {
        let before = free_entries(entries.drop_last(), rows, cols);
        let last = entries.last();
        if rows[last.0 as int] || cols[last.1 as int] {
            before
        } else {
            before.push(last)
        }
    }
}

/// `start` without what the fixed columns contribute to row `r`, taken off entry by entry.
pub open spec fn moved_to_rhs<T: Scalar>(
    start: T,
    entries: Seq<(usize, usize, T)>,
    pairs: Seq<(usize, T)>,
    r: int,
) -> T
    decreases entries.len(),
{
    if entries.len() == 0 {
        start
    } else {
        let before = moved_to_rhs(start, entries.drop_last(), pairs, r);
        let last = entries.last();
        match last_value(pairs, last.1 as int) {
            Some(v) => if last.0 == r {
                before.minus_spec(last.2.times_spec(v))
            } else {
                before
            },
            None => before,
        }
    }
}

/// Moves the contribution of fixed columns to the right-hand side, outside flagged rows,
/// and returns the entries that are left.
fn eliminate_columns<T: Scalar>(
    col_dof_coeffs: &[(DofIdx, T)],
    excluded_rows: &[bool],
    galmat: &CooMatrix<T>,
    galvec: &mut Vec<T>,
) -> (m: CooMatrix<T>)
    requires
        galmat.wf(),
        excluded_rows@.len() == galmat.rows(),
        old(galvec)@.len() == galmat.rows(),
        pairs_within(col_dof_coeffs@, galmat.cols() as int),
    ensures
        m.wf(),
        m.rows() == galmat.rows(),
        m.cols() == galmat.cols(),
        m.entries() == free_entries(
            galmat.entries(),
            excluded_rows@,
            fixed_flags(col_dof_coeffs@, galmat.cols()),
        ),
        final(galvec)@ == Seq::new(
            old(galvec)@.len(),
            |r: int|
                if excluded_rows@[r] {
                    old(galvec)@[r]
                } else {
                    moved_to_rhs(old(galvec)@[r], galmat.entries(), col_dof_coeffs@, r)
                },
        ),
{
    let nrows: usize = galmat.nrows();
    let ncols: usize = galmat.ncols();
    let fixed = sparse_to_dense_data(col_dof_coeffs, ncols);
    let entries = galmat.triplets();
    let ghost start = galvec@;
    let ghost cols = fixed_flags(col_dof_coeffs@, galmat.cols());
    let mut m: CooMatrix<T> = CooMatrix::zeros(nrows, ncols);
    let mut i: usize = 0;
    proof {
        assert(entries@.take(0) =~= Seq::<(usize, usize, T)>::empty());
    }
    while i < entries.len()
        invariant
            i <= entries@.len(),
            entries@ == galmat.entries(),
            galmat.wf(),
            nrows == galmat.rows(),
            ncols == galmat.cols(),
            excluded_rows@.len() == nrows,
            start.len() == nrows,
            fixed@ == Seq::new(ncols as nat, |c: int| last_value(col_dof_coeffs@, c)),
            cols == fixed_flags(col_dof_coeffs@, galmat.cols()),
            m.wf(),
            m.rows() == nrows,
            m.cols() == ncols,
            m.entries() == free_entries(entries@.take(i as int), excluded_rows@, cols),
            galvec@ =~= Seq::new(
                nrows as nat,
                |r: int|
                    if excluded_rows@[r] {
                        start[r]
                    } else {
                        moved_to_rhs(start[r], entries@.take(i as int), col_dof_coeffs@, r)
                    },
            ),
        decreases entries@.len() - i,
    {
        let (r, c, a) = entries[i];
        proof {
            assert(entries@[i as int].0 < nrows && entries@[i as int].1 < ncols);
            assert(entries@.take(i + 1).drop_last() =~= entries@.take(i as int));
            assert(entries@.take(i + 1).last() == entries@[i as int]);
        }
        if !excluded_rows[r] {
            match fixed[c] {
                Some(v) => {
                    galvec[r] = galvec[r].minus(a.times(v));
                },
                None => {
                    m.push(r, c, a);
                },
            }
        }
        i = i + 1;
    }
    proof {
        assert(entries@.take(i as int) =~= entries@);
    }
    m
}

/// The right-hand side after eliminating fixed dofs entry by entry.
pub open spec fn eliminated_rhs<T: Scalar>(
    rhs: Seq<T>,
    entries: Seq<(usize, usize, T)>,
    pairs: Seq<(usize, T)>,
) -> Seq<T> {
    Seq::new(
        rhs.len(),
        |r: int|
            match last_value(pairs, r) {
                Some(v) => v,
                None => moved_to_rhs(rhs[r], entries, pairs, r),
            },
    )
}

/// Fixes dofs of a Galerkin system to given values: what they contribute moves to the
/// right-hand side, their couplings are dropped and their diagonal is set to one.
pub fn fix_dofs_coeff_strong_coo<T: Scalar>(
    dof_coeffs: &[(DofIdx, T)],
    galmat: &mut CooMatrix<T>,
    galvec: &mut Vec<T>,
)
    requires
        old(galmat).wf(),
        old(galmat).rows() == old(galmat).cols(),
        old(galvec)@.len() == old(galmat).rows(),
        pairs_within(dof_coeffs@, old(galmat).rows() as int),
    ensures
        final(galmat).wf(),
        final(galmat).rows() == old(galmat).rows(),
        final(galmat).cols() == old(galmat).cols(),
        final(galmat).entries() == free_entries(
            old(galmat).entries(),
            fixed_flags(dof_coeffs@, old(galmat).rows()),
            fixed_flags(dof_coeffs@, old(galmat).rows()),
        ) + unit_entries(pair_dofs(dof_coeffs@)),
        final(galvec)@ == eliminated_rhs(old(galvec)@, old(galmat).entries(), dof_coeffs@),
{
    let n: usize = galmat.nrows();
    let ghost start = galvec@;
    let ghost entries = galmat.entries();
    let dense = sparse_to_dense_data(dof_coeffs, n);
    let flags = flags_of(dense.as_slice());
    proof {
        assert(flags@ =~= fixed_flags(dof_coeffs@, n as nat));
    }
    let mut m = eliminate_columns(dof_coeffs, flags.as_slice(), galmat, galvec);
    set_fixed(dense.as_slice(), galvec);
    proof {
        assert(galvec@ =~= eliminated_rhs(start, entries, dof_coeffs@));
    }
    let dofs = pair_dof_list(dof_coeffs);
    proof {
        assert forall|j: int| 0 <= j < dofs@.len() implies (#[trigger] dofs@[j]) < n by {
            assert(dof_coeffs@[j].0 < n);
        }
    }
    push_units(&mut m, dofs.as_slice());
    *galmat = m;
}

/// Eliminates fixed columns of a rectangular block: outside the flagged rows, what they
/// contribute moves to the right-hand side; the flagged rows and the fixed columns are dropped.
pub fn fix_dofs_coeff_strong_coo_rectangular<T: Scalar>(
    col_dof_coeffs: &[(DofIdx, T)],
    excluded_rows: &[bool],
    galmat: &mut CooMatrix<T>,
    galvec: &mut Vec<T>,
)
    requires
        old(galmat).wf(),
        excluded_rows@.len() == old(galmat).rows(),
        old(galvec)@.len() == old(galmat).rows(),
        pairs_within(col_dof_coeffs@, old(galmat).cols() as int),
    ensures
        final(galmat).wf(),
        final(galmat).rows() == old(galmat).rows(),
        final(galmat).cols() == old(galmat).cols(),
        final(galmat).entries() == free_entries(
            old(galmat).entries(),
            excluded_rows@,
            fixed_flags(col_dof_coeffs@, old(galmat).cols()),
        ),
        final(galvec)@ == Seq::new(
            old(galvec)@.len(),
            |r: int|
                if excluded_rows@[r] {
                    old(galvec)@[r]
                } else {
                    moved_to_rhs(old(galvec)@[r], old(galmat).entries(), col_dof_coeffs@, r)
                },
        ),
{
    let m = eliminate_columns(col_dof_coeffs, excluded_rows, galmat, galvec);
    *galmat = m;
}


/// The values at the indices that are not flagged.
pub open spec fn kept_values<T>(values: Seq<T>, flags: Seq<bool>) -> Seq<T>
    decreases values.len(),
{
    if values.len() == 0 {
        Seq::empty()
    } else {
        let before = kept_values(values.drop_last(), flags);
        if flags[values.len() - 1] {
            before
        } else {
            before.push(values.last())
        }
    }
}

/// The kept values are as many as there are indices that are not flagged, and each stands
/// at the new position of its index.
pub proof fn kept_values_positions<T>(values: Seq<T>, flags: Seq<bool>)
    requires
        values.len() <= flags.len(),
    ensures
        kept_values(values, flags).len() == unset_before(flags, values.len() as int),
        forall|i: int|
            0 <= i < values.len() && !flags[i] ==> #[trigger] kept_values(
                values,
                flags,
            )[unset_before(flags, i) as int] == values[i],
    decreases values.len(),
{
    if values.len() > 0 {
        let front = values.drop_last();
        let n = values.len() - 1;
        kept_values_positions(front, flags);
        assert forall|i: int| 0 <= i < values.len() && !flags[i] implies #[trigger] kept_values(
            values,
            flags,
        )[unset_before(flags, i) as int] == values[i] by {
            if i < n {
                unset_before_monotone(flags, i, n);
                assert(kept_values(front, flags)[unset_before(flags, i) as int] == front[i]);
            }
        }
    }
}

/// Drops the flagged rows and columns of a Galerkin matrix.
pub fn drop_dofs_rectangular_galmat<T: Copy>(
    drop_rows: &[bool],
    drop_cols: &[bool],
    galmat: &mut CooMatrix<T>,
)
    requires
        old(galmat).wf(),
        drop_rows@.len() == old(galmat).rows(),
        drop_cols@.len() == old(galmat).cols(),
    ensures
        final(galmat).wf(),
        final(galmat).rows() == unset_before(drop_rows@, drop_rows@.len() as int),
        final(galmat).cols() == unset_before(drop_cols@, drop_cols@.len() as int),
        final(galmat).entries() == restricted(old(galmat).entries(), drop_rows@, drop_cols@),
{
    let m = galmat.restrict(drop_rows, drop_cols);
    *galmat = m;
}

/// Drops the flagged dofs of a square Galerkin matrix.
pub fn drop_dofs_galmat<T: Copy>(dofs: &[bool], galmat: &mut CooMatrix<T>)
    requires
        old(galmat).wf(),
        dofs@.len() == old(galmat).rows(),
        dofs@.len() == old(galmat).cols(),
    ensures
        final(galmat).wf(),
        final(galmat).rows() == unset_before(dofs@, dofs@.len() as int),
        final(galmat).cols() == unset_before(dofs@, dofs@.len() as int),
        final(galmat).entries() == restricted(old(galmat).entries(), dofs@, dofs@),
{
    drop_dofs_rectangular_galmat(dofs, dofs, galmat);
}

/// Drops the flagged entries of a vector.
pub fn drop_dofs_galvec<T: Copy>(dofs: &[bool], galvec: &mut Vec<T>)
    requires
        dofs@.len() == old(galvec)@.len(),
    ensures
        final(galvec)@ == kept_values(old(galvec)@, dofs@),
{
    let ghost start = galvec@;
    let mut kept: Vec<T> = Vec::new();
    let mut i: usize = 0;
    proof {
        assert(start.take(0) =~= Seq::<T>::empty());
    }
    while i < dofs.len()
        invariant
            i <= dofs@.len(),
            dofs@.len() == start.len(),
            galvec@ == start,
            kept@ == kept_values(start.take(i as int), dofs@),
        decreases dofs@.len() - i,
    {
        proof {
            assert(start.take(i + 1).drop_last() =~= start.take(i as int));
        }
        if !dofs[i] {
            kept.push(galvec[i]);
        }
        i = i + 1;
    }
    proof {
        assert(start.take(i as int) =~= start);
    }
    *galvec = kept;
}

/// Values with further dofs put in at their places: the dofs of the pairs have the values of
/// the pairs, all others the given values in order.
pub open spec fn reintroduced<T>(kept: Seq<T>, pairs: Seq<(usize, T)>) -> Seq<T> {
    let n = kept.len() + pairs.len();
    Seq::new(
        n,
        |i: int|
            match last_value(pairs, i) {
                Some(v) => v,
                None => kept[unset_before(fixed_flags(pairs, n), i) as int],
            },
    )
}

proof fn lemma_flag_one_more(flags: Seq<bool>, at: int, n: int)
    requires
        0 <= at < flags.len(),
        0 <= n <= flags.len(),
        !flags[at],
    ensures
        unset_before(flags.update(at, true), n) == (if n > at {
            unset_before(flags, n) - 1
        } else {
            unset_before(flags, n) as int
        }),
    decreases n,
{
    if n > 0 {
        lemma_flag_one_more(flags, at, n - 1);
        if n - 1 > at {
            unset_before_monotone(flags, at, n - 1);
        }
    }
}

proof fn lemma_last_value_listed<T>(pairs: Seq<(usize, T)>, i: int)
    ensures
        last_value(pairs, i) is Some <==> exists|j: int|
            0 <= j < pairs.len() && (#[trigger] pairs[j]).0 == i,
    decreases pairs.len(),
{
    if pairs.len() > 0 {
        let front = pairs.drop_last();
        lemma_last_value_listed(front, i);
        if last_value(pairs, i) is Some {
            if pairs.last().0 == i {
                assert(pairs[pairs.len() - 1].0 == i);
            } else {
                let j = choose|j: int| 0 <= j < front.len() && (#[trigger] front[j]).0 == i;
                assert(pairs[j].0 == i);
            }
        }
        if exists|j: int| 0 <= j < pairs.len() && (#[trigger] pairs[j]).0 == i {
            let j = choose|j: int| 0 <= j < pairs.len() && (#[trigger] pairs[j]).0 == i;
            if j < front.len() {
                assert(front[j].0 == i);
            }
        }
    }
}

proof fn lemma_unset_all(flags: Seq<bool>, n: int)
    requires
        0 <= n <= flags.len(),
        forall|i: int| 0 <= i < n ==> !(#[trigger] flags[i]),
    ensures
        unset_before(flags, n) == n,
    decreases n,
{
    if n > 0 {
        lemma_unset_all(flags, n - 1);
    }
}

/// Pairs for different dofs flag as many dofs as there are pairs.
pub proof fn distinct_pairs_flag<T>(pairs: Seq<(usize, T)>, n: nat)
    requires
        pair_dofs(pairs).no_duplicates(),
        pairs_within(pairs, n as int),
    ensures
        unset_before(fixed_flags(pairs, n), n as int) + pairs.len() == n,
    decreases pairs.len(),
{
    let flags = fixed_flags(pairs, n);
    if pairs.len() == 0 {
        lemma_unset_all(flags, n as int);
    } else {
        let front = pairs.drop_last();
        let at = pairs.last().0 as int;
        assert(pairs[pairs.len() - 1].0 < n);
        assert(pair_dofs(front) =~= pair_dofs(pairs).drop_last());
        assert forall|i: int| 0 <= i < front.len() implies (#[trigger] front[i]).0 < n by {
            assert(front[i] == pairs[i]);
        }
        distinct_pairs_flag(front, n);
        let before = fixed_flags(front, n);
        assert(!before[at]) by {
            lemma_last_value_listed(front, at);
            if before[at] {
                let j = choose|j: int| 0 <= j < front.len() && (#[trigger] front[j]).0 == at;
                assert(pair_dofs(pairs)[j] == pair_dofs(pairs)[pairs.len() - 1]);
            }
        }
        assert(flags =~= before.update(at, true));
        lemma_flag_one_more(before, at, n as int);
    }
}

/// Puts dofs with given values back into a vector from which they were dropped.
pub fn reintroduce_non_homogenous_dofs_galsols<T: Copy>(
    dof_coeffs: &[(DofIdx, T)],
    galsols: &mut Vec<T>,
)
    requires
        pair_dofs(dof_coeffs@).no_duplicates(),
        pairs_within(dof_coeffs@, (old(galsols)@.len() + dof_coeffs@.len()) as int),
        old(galsols)@.len() + dof_coeffs@.len() <= usize::MAX,
    ensures
        final(galsols)@ == reintroduced(old(galsols)@, dof_coeffs@),
{
    let n: usize = galsols.len() + dof_coeffs.len();
    let dense = sparse_to_dense_data(dof_coeffs, n);
    let ghost kept = galsols@;
    let ghost flags = fixed_flags(dof_coeffs@, n as nat);
    let mut full: Vec<T> = Vec::new();
    let mut next: usize = 0;
    let mut i: usize = 0;
    proof {
        distinct_pairs_flag(dof_coeffs@, n as nat);
    }
    while i < n
        invariant
            i <= n,
            n == kept.len() + dof_coeffs@.len(),
            galsols@ == kept,
            dense@ == Seq::new(n as nat, |j: int| last_value(dof_coeffs@, j)),
            flags == fixed_flags(dof_coeffs@, n as nat),
            unset_before(flags, n as int) == kept.len(),
            next == unset_before(flags, i as int),
            full@ =~= reintroduced(kept, dof_coeffs@).take(i as int),
        decreases n - i,
    {
        match dense[i] {
            Some(v) => {
                full.push(v);
            },
            None => {
                proof {
                    unset_before_monotone(flags, i as int, n as int);
                }
                full.push(galsols[next]);
                next = next + 1;
            },
        }
        i = i + 1;
    }
    proof {
        assert(reintroduced(kept, dof_coeffs@).take(i as int) =~= reintroduced(
            kept,
            dof_coeffs@,
        ));
    }
    *galsols = full;
}

/// Dofs paired with zero.
pub open spec fn zero_pairs<T: Scalar>(dofs: Seq<usize>) -> Seq<(usize, T)> {
    Seq::new(dofs.len(), |i: int| (dofs[i], T::zero_spec()))
}

/// Puts dropped dofs back, as zeros, into each column of a solution.
pub fn reintroduce_dropped_dofs_galsols<T: Scalar>(dofs: &[DofIdx], galsols: &mut Vec<Vec<T>>)
    requires
        forall|i: int, j: int|
            0 <= i < dofs@.len() && 0 <= j < old(galsols)@.len() ==> (#[trigger] dofs@[i]) < (
            #[trigger] old(galsols)@[j])@.len() + unique(dofs@).len(),
        forall|j: int|
            0 <= j < old(galsols)@.len() ==> (#[trigger] old(galsols)@[j])@.len() + unique(
                dofs@,
            ).len() <= usize::MAX,
    ensures
        final(galsols)@.len() == old(galsols)@.len(),
        forall|j: int|
            0 <= j < final(galsols)@.len() ==> (#[trigger] final(galsols)@[j])@ == reintroduced(
                old(galsols)@[j]@,
                zero_pairs(unique(dofs@)),
            ),
{
    let ghost start = galsols@;
    if galsols.len() == 0 {
        return ;
    }
    let mut bound: usize = 0;
    let mut k: usize = 0;
    while k < dofs.len()
        invariant
            k <= dofs@.len(),
            start.len() > 0,
            forall|i: int, j: int|
                0 <= i < dofs@.len() && 0 <= j < start.len() ==> (#[trigger] dofs@[i]) < (
                #[trigger] start[j])@.len() + unique(dofs@).len(),
            forall|j: int|
                0 <= j < start.len() ==> (#[trigger] start[j])@.len() + unique(dofs@).len()
                    <= usize::MAX,
            forall|i: int| 0 <= i < k ==> (#[trigger] dofs@[i]) < bound,
        decreases dofs@.len() - k,
    {
        proof {
            assert(dofs@[k as int] < start[0]@.len() + unique(dofs@).len());
        }
        if dofs[k] + 1 > bound {
            bound = dofs[k] + 1;
        }
        k = k + 1;
    }
    let distinct = unique_indices(dofs, bound);
    let mut pairs: Vec<(usize, T)> = Vec::new();
    let mut i: usize = 0;
    while i < distinct.len()
        invariant
            i <= distinct@.len(),
            pairs@ =~= zero_pairs(distinct@).take(i as int),
        decreases distinct@.len() - i,
    {
        pairs.push((distinct[i], T::zero()));
        i = i + 1;
    }
    proof {
        assert(pairs@ =~= zero_pairs(distinct@));
        assert(pair_dofs(pairs@) =~= distinct@);
    }
    let mut j: usize = 0;
    while j < galsols.len()
        invariant
            j <= galsols@.len(),
            galsols@.len() == start.len(),
            distinct@ == unique(dofs@),
            pairs@ == zero_pairs::<T>(distinct@),
            pair_dofs(pairs@) == distinct@,
            distinct@.no_duplicates(),
            forall|i: int, j: int|
                0 <= i < dofs@.len() && 0 <= j < start.len() ==> (#[trigger] dofs@[i]) < (
                #[trigger] start[j])@.len() + unique(dofs@).len(),
            forall|j: int|
                0 <= j < start.len() ==> (#[trigger] start[j])@.len() + unique(dofs@).len()
                    <= usize::MAX,
            forall|l: int| j <= l < start.len() ==> galsols@[l] == start[l],
            forall|l: int|
                0 <= l < j ==> (#[trigger] galsols@[l])@ == reintroduced(start[l]@, pairs@),
        decreases galsols@.len() - j,
    {
        proof {
            assert(galsols@[j as int] == start[j as int]);
            assert forall|i: int| 0 <= i < pairs@.len() implies (#[trigger] pairs@[i]).0
                < start[j as int]@.len() + pairs@.len() by {
                assert(distinct@.contains(distinct@[i]));
                insert_all_members(Seq::<usize>::empty(), dofs@, distinct@[i]);
                let a = choose|a: int| 0 <= a < dofs@.len() && dofs@[a] == distinct@[i];
                assert(dofs@[a] < start[j as int]@.len() + unique(dofs@).len());
            }
        }
        reintroduce_non_homogenous_dofs_galsols(pairs.as_slice(), &mut galsols[j]);
        j = j + 1;
    }
}

/// Dropping dofs and reintroducing them with their values gives the vector back.
pub proof fn reintroduce_undoes_drop<T>(values: Seq<T>, pairs: Seq<(usize, T)>)
    requires
        pair_dofs(pairs).no_duplicates(),
        pairs_within(pairs, values.len() as int),
        forall|i: int|
            0 <= i < pairs.len() ==> (#[trigger] pairs[i]).1 == values[pairs[i].0 as int],
    ensures
        reintroduced(kept_values(values, fixed_flags(pairs, values.len())), pairs) == values,
{
    let n = values.len();
    let flags = fixed_flags(pairs, n);
    distinct_pairs_flag(pairs, n);
    kept_values_positions(values, flags);
    let kept = kept_values(values, flags);
    assert(kept.len() + pairs.len() == n);
    let full = reintroduced(kept, pairs);
    assert forall|i: int| 0 <= i < n implies full[i] == values[i] by {
        if last_value(pairs, i) is Some {
            let j = lemma_last_value_pair(pairs, i);
            assert(pairs[j].1 == values[pairs[j].0 as int]);
        } else {
            assert(!flags[i]);
            assert(kept[unset_before(flags, i) as int] == values[i]);
        }
    }
    assert(full =~= values);
}

/// Reintroduced dofs have the values of their pairs, and dropping them again gives back what
/// was there before.
pub proof fn drop_undoes_reintroduce<T>(kept: Seq<T>, pairs: Seq<(usize, T)>)
    requires
        pair_dofs(pairs).no_duplicates(),
        pairs_within(pairs, (kept.len() + pairs.len()) as int),
    ensures
        kept_values(
            reintroduced(kept, pairs),
            fixed_flags(pairs, kept.len() + pairs.len()),
        ) == kept,
{
    let n = kept.len() + pairs.len();
    let flags = fixed_flags(pairs, n);
    let full = reintroduced(kept, pairs);
    distinct_pairs_flag(pairs, n);
    kept_values_positions(full, flags);
    let again = kept_values(full, flags);
    assert forall|k: int| 0 <= k < kept.len() implies again[k] == kept[k] by {
        let i = lemma_index_of_position(flags, n as int, k);
        assert(again[unset_before(flags, i) as int] == full[i]);
    }
    assert(again =~= kept);
}

proof fn lemma_last_value_pair<T>(pairs: Seq<(usize, T)>, i: int) -> (j: int)
    requires
        last_value(pairs, i) is Some,
    ensures
        0 <= j < pairs.len(),
        pairs[j].0 == i,
        last_value(pairs, i) == Some(pairs[j].1),
    decreases pairs.len(),
{
    if pairs.last().0 == i {
        pairs.len() - 1
    } else {
        lemma_last_value_pair(pairs.drop_last(), i)
    }
}

proof fn lemma_index_of_position(flags: Seq<bool>, n: int, k: int) -> (i: int)
    requires
        0 <= n <= flags.len(),
        0 <= k < unset_before(flags, n),
    ensures
        0 <= i < n,
        !flags[i],
        unset_before(flags, i) == k,
    decreases n,
{
    if !flags[n - 1] && unset_before(flags, n - 1) == k {
        n - 1
    } else {
        lemma_index_of_position(flags, n - 1, k)
    }
}

} // verus!
