//! Elimination of strongly prescribed dofs from mixed systems of two unknowns.

use crate::assemble::dofs::{
    fixed_flags, free_entries, kept_values, kept_values_positions, last_value, moved_to_rhs,
    pair_dofs, pairs_within,
};
use crate::assemble::dofs::{
    drop_dofs_galvec, fix_dofs_coeff_strong_coo_rectangular,
    reintroduce_non_homogenous_dofs_galsols,
};
use crate::assemble::galerkin::GalMat;
use crate::linalg::blocks::{block_entries, block_heights, block_widths};
use crate::linalg::blocks::block;
use crate::linalg::csr::compressed;
use crate::linalg::csr::CsrMatrix;
use crate::linalg::scalar::Scalar;
use crate::linalg::sparse::{restricted, unset_before, unset_before_bound};
use crate::linalg::sparse::CooMatrix;
use vstd::prelude::*;

verus! {

/// The prescribed dofs with their values.
pub open spec fn masked_pairs<T>(mask: Seq<bool>, data: Seq<T>) -> Seq<(usize, T)>
    decreases mask.len(),
{
    if mask.len() == 0 {
        Seq::empty()
    } else {
        let before = masked_pairs(mask.drop_last(), data);
        if mask.last() {
            before.push(((mask.len() - 1) as usize, data[mask.len() - 1]))
        } else {
            before
        }
    }
}

/// A prescribed dof has its value, another has none; no dof is prescribed twice.
pub proof fn masked_pairs_values<T>(mask: Seq<bool>, data: Seq<T>)
    requires
        mask.len() <= usize::MAX,
    ensures
        pairs_within(masked_pairs(mask, data), mask.len() as int),
        forall|i: int|
            0 <= i < mask.len() ==> #[trigger] last_value(masked_pairs(mask, data), i) == (
            if mask[i] {
                Some(data[i])
            } else {
                None
            }),
        forall|i: int|
            i >= mask.len() ==> #[trigger] last_value(masked_pairs(mask, data), i) is None,
        masked_pairs(mask, data).len() + unset_before(mask, mask.len() as int) == mask.len(),
        pair_dofs(masked_pairs(mask, data)).no_duplicates(),
    decreases mask.len(),
{
    if mask.len() > 0 {
        let front = mask.drop_last();
        masked_pairs_values(front, data);
        let before = masked_pairs(front, data);
        let all = masked_pairs(mask, data);
        lemma_unset_prefix(mask, front.len() as int);
        if mask.last() {
            assert(all.drop_last() =~= before);
        }
        assert forall|i: int| 0 <= i < mask.len() implies #[trigger] last_value(all, i) == (
        if mask[i] {
            Some(data[i])
        } else {
            None
        }) by {
            if i < front.len() {
                assert(front[i] == mask[i]);
                assert(last_value(before, i) == (if front[i] {
                    Some(data[i])
                } else {
                    None
                }));
            } else {
                assert(last_value(before, i) is None);
            }
        }
        assert forall|a: int, b: int|
            0 <= a < all.len() && 0 <= b < all.len() && a != b implies pair_dofs(all)[a]
            != pair_dofs(all)[b] by {
            if a < before.len() && b < before.len() {
                assert(pair_dofs(before)[a] != pair_dofs(before)[b]);
            } else if a < before.len() {
                assert(before[a].0 < front.len());
            } else if b < before.len() {
                assert(before[b].0 < front.len());
            }
        }
    }
}

proof fn lemma_unset_prefix(mask: Seq<bool>, n: int)
    requires
        0 <= n < mask.len(),
    ensures
        unset_before(mask.drop_last(), n) == unset_before(mask, n),
    decreases n,
{
    if n > 0 {
        lemma_unset_prefix(mask, n - 1);
        assert(mask.drop_last()[n - 1] == mask[n - 1]);
    }
}

/// The prescribed dofs with their values.
pub fn boundary_data_pairs<T: Copy>(mask: &[bool], data: &[T]) -> (pairs: Vec<(usize, T)>)
    requires
        data@.len() == mask@.len(),
    ensures
        pairs@ == masked_pairs(mask@, data@),
{
    let mut pairs: Vec<(usize, T)> = Vec::new();
    let mut i: usize = 0;
    proof {
        assert(mask@.take(0).len() == 0);
    }
    while i < mask.len()
        invariant
            i <= mask@.len(),
            data@.len() == mask@.len(),
            pairs@ == masked_pairs(mask@.take(i as int), data@),
        decreases mask@.len() - i,
    {
        proof {
            let next = mask@.take(i + 1);
            assert(next.drop_last() =~= mask@.take(i as int));
            assert(next.last() == mask@[i as int]);
        }
        if mask[i] {
            pairs.push((i, data[i]));
        }
        i = i + 1;
    }
    proof {
        assert(mask@.take(i as int) =~= mask@);
    }
    pairs
}

/// Leaving out the flagged entries first does not change what is left of a matrix.
proof fn lemma_restricted_free<T>(
    entries: Seq<(usize, usize, T)>,
    rows: Seq<bool>,
    cols: Seq<bool>,
)
    ensures
        restricted(free_entries(entries, rows, cols), rows, cols) == restricted(
            entries,
            rows,
            cols,
        ),
    decreases entries.len(),
{
    if entries.len() > 0 {
        lemma_restricted_free(entries.drop_last(), rows, cols);
        let before = free_entries(entries.drop_last(), rows, cols);
        let last = entries.last();
        if !(rows[last.0 as int] || cols[last.1 as int]) {
            assert(before.push(last).drop_last() =~= before);
        }
    }
}

/// What is kept depends on the kept values only.
proof fn lemma_kept_same<T>(a: Seq<T>, b: Seq<T>, flags: Seq<bool>)
    requires
        a.len() == b.len(),
        a.len() <= flags.len(),
        forall|i: int| 0 <= i < a.len() && !flags[i] ==> #[trigger] a[i] == b[i],
    ensures
        kept_values(a, flags) == kept_values(b, flags),
    decreases a.len(),
{
    if a.len() > 0 {
        assert forall|i: int| 0 <= i < a.len() - 1 && !flags[i] implies #[trigger] a.drop_last()[i]
            == b.drop_last()[i] by {
            assert(a[i] == b[i]);
        }
        lemma_kept_same(a.drop_last(), b.drop_last(), flags);
        if !flags[a.len() - 1] {
            assert(a[a.len() - 1] == b[a.len() - 1]);
        }
    }
}

/// A block with the given rows and columns, or none at all.
pub open spec fn fits<T>(m: CooMatrix<T>, nrows: nat, ncols: nat) -> bool {
    &&& m.wf()
    &&& (m.rows() == nrows && m.cols() == ncols) || (m.rows() == 0 && m.cols() == 0)
}

/// Moves what the prescribed columns of a block contribute to the right-hand side, and leaves
/// out the prescribed rows and columns.
fn eliminate_block<T: Scalar>(
    m: &CooMatrix<T>,
    rows: &[bool],
    cols: &[bool],
    data: &[T],
    rhs: &mut Vec<T>,
) -> (reduced: CooMatrix<T>)
    requires
        fits(*m, rows@.len(), cols@.len()),
        data@.len() == cols@.len(),
        old(rhs)@.len() == rows@.len(),
    ensures
        reduced.wf(),
        reduced.rows() == (if m.rows() == rows@.len() && m.cols() == cols@.len() {
            unset_before(rows@, rows@.len() as int)
        } else {
            0
        }),
        reduced.cols() == (if m.rows() == rows@.len() && m.cols() == cols@.len() {
            unset_before(cols@, cols@.len() as int)
        } else {
            0
        }),
        reduced.entries() == restricted(m.entries(), rows@, cols@),
        final(rhs)@.len() == old(rhs)@.len(),
        forall|r: int|
            0 <= r < rows@.len() && !rows@[r] ==> #[trigger] final(rhs)@[r] == moved_to_rhs(
                old(rhs)@[r],
                m.entries(),
                masked_pairs(cols@, data@),
                r,
            ),
{
    let ghost start = rhs@;
    if m.nrows() == rows.len() && m.ncols() == cols.len() {
        let pairs = boundary_data_pairs(cols, data);
        let n: usize = cols.len();
        proof {
            assert(n <= usize::MAX);
            masked_pairs_values(cols@, data@);
            assert(fixed_flags(pairs@, n as nat) =~= cols@);
            lemma_restricted_free(m.entries(), rows@, cols@);
        }
        let mut left = m.copied();
        fix_dofs_coeff_strong_coo_rectangular(pairs.as_slice(), rows, &mut left, rhs);
        left.restrict(rows, cols)
    } else {
        proof {
            if m.entries().len() > 0 {
                assert(m.entries()[0].0 < m.rows());
            }
            assert(m.entries() =~= Seq::<(usize, usize, T)>::empty());
            assert forall|r: int| 0 <= r < rows@.len() && !rows@[r] implies #[trigger] rhs@[r]
                == moved_to_rhs(start[r], m.entries(), masked_pairs(cols@, data@), r) by {}
        }
        CooMatrix::zeros(0, 0)
    }
}

/// The blocks of a mixed system, the right-hand sides, and which dofs of the two unknowns are
/// prescribed with which values.
pub struct MixedSystem<'a, T> {
    pub mass_sigma: &'a GalMat<T>,
    pub codif_u_neg: &'a GalMat<T>,
    pub dif_sigma: &'a GalMat<T>,
    pub u_block: &'a GalMat<T>,
    pub sigma_rhs: &'a [T],
    pub u_rhs: &'a [T],
    pub sigma_mask: &'a [bool],
    pub sigma_data: &'a [T],
    pub u_mask: &'a [bool],
    pub u_data: &'a [T],
}

impl<'a, T: Scalar> MixedSystem<'a, T> {
    /// Shapes agree. Blocks may be missing.
    pub open spec fn wf(&self) -> bool {
        let ns = self.sigma_mask@.len();
        let nu = self.u_mask@.len();
        &&& fits(*self.mass_sigma, ns, ns)
        &&& fits(*self.codif_u_neg, ns, nu)
        &&& fits(*self.dif_sigma, nu, ns)
        &&& fits(*self.u_block, nu, nu)
        &&& self.sigma_rhs@.len() == ns
        &&& self.u_rhs@.len() == nu
        &&& self.sigma_data@.len() == ns
        &&& self.u_data@.len() == nu
        &&& ns + nu <= usize::MAX
    }

    /// The first right-hand side without what the prescribed dofs contribute.
    pub open spec fn free_sigma_rhs(&self) -> Seq<T> {
        let sigma = masked_pairs(self.sigma_mask@, self.sigma_data@);
        let u = masked_pairs(self.u_mask@, self.u_data@);
        kept_values(
            Seq::new(
                self.sigma_rhs@.len(),
                |r: int|
                    moved_to_rhs(
                        moved_to_rhs(self.sigma_rhs@[r], self.mass_sigma.entries(), sigma, r),
                        self.codif_u_neg.entries(),
                        u,
                        r,
                    ),
            ),
            self.sigma_mask@,
        )
    }

    /// The second right-hand side without what the prescribed dofs contribute.
    pub open spec fn free_u_rhs(&self) -> Seq<T> {
        let sigma = masked_pairs(self.sigma_mask@, self.sigma_data@);
        let u = masked_pairs(self.u_mask@, self.u_data@);
        kept_values(
            Seq::new(
                self.u_rhs@.len(),
                |r: int|
                    moved_to_rhs(
                        moved_to_rhs(self.u_rhs@[r], self.u_block.entries(), u, r),
                        self.dif_sigma.entries(),
                        sigma,
                        r,
                    ),
            ),
            self.u_mask@,
        )
    }

    /// The four blocks without the prescribed rows and columns.
    pub open spec fn is_free_blocks(
        &self,
        a: CooMatrix<T>,
        b: CooMatrix<T>,
        c: CooMatrix<T>,
        d: CooMatrix<T>,
    ) -> bool {
        let s = self.sigma_mask@;
        let u = self.u_mask@;
        &&& is_free_block(a, *self.mass_sigma, s, s)
        &&& is_free_block(b, *self.codif_u_neg, s, u)
        &&& is_free_block(c, *self.dif_sigma, u, s)
        &&& is_free_block(d, *self.u_block, u, u)
    }

    /// The right-hand sides on the free dofs have one value for each of these.
    pub proof fn free_lengths(&self)
        requires
            self.sigma_rhs@.len() == self.sigma_mask@.len(),
            self.u_rhs@.len() == self.u_mask@.len(),
        ensures
            self.free_sigma_rhs().len() == unset_before(
                self.sigma_mask@,
                self.sigma_mask@.len() as int,
            ),
            self.free_u_rhs().len() == unset_before(self.u_mask@, self.u_mask@.len() as int),
    {
        let sigma = masked_pairs(self.sigma_mask@, self.sigma_data@);
        let u = masked_pairs(self.u_mask@, self.u_data@);
        kept_values_positions(
            Seq::new(
                self.sigma_rhs@.len(),
                |r: int|
                    moved_to_rhs(
                        moved_to_rhs(self.sigma_rhs@[r], self.mass_sigma.entries(), sigma, r),
                        self.codif_u_neg.entries(),
                        u,
                        r,
                    ),
            ),
            self.sigma_mask@,
        );
        kept_values_positions(
            Seq::new(
                self.u_rhs@.len(),
                |r: int|
                    moved_to_rhs(
                        moved_to_rhs(self.u_rhs@[r], self.u_block.entries(), u, r),
                        self.dif_sigma.entries(),
                        sigma,
                        r,
                    ),
            ),
            self.u_mask@,
        );
    }

    /// A system on the free dofs.
    pub open spec fn gives(&self, matrix: CsrMatrix<T>, rhs: Seq<T>) -> bool {
        &&& exists|a: CooMatrix<T>, b: CooMatrix<T>, c: CooMatrix<T>, d: CooMatrix<T>|
            #![trigger block_entries(a, b, c, d)]
            self.is_free_blocks(a, b, c, d) && matrix.rows() == block_heights(a, b, c, d).1
                && matrix.cols() == block_widths(a, b, c, d).1 && matrix.entries() == compressed(
                block_entries(a, b, c, d),
            )
        &&& rhs == self.free_sigma_rhs() + self.free_u_rhs()
    }

    /// Eliminates the prescribed dofs: the blocks on the free dofs as one matrix, and the
    /// right-hand sides on the free dofs.
    pub fn eliminate(&self) -> (system: (CooMatrix<T>, Vec<T>, Vec<T>))
        requires
            self.wf(),
        ensures
            system.0.wf(),
            exists|a: CooMatrix<T>, b: CooMatrix<T>, c: CooMatrix<T>, d: CooMatrix<T>|
                #![trigger block_entries(a, b, c, d)]
                self.is_free_blocks(a, b, c, d) && system.0.rows() == block_heights(a, b, c, d).1
                    && system.0.cols() == block_widths(a, b, c, d).1 && system.0.entries()
                    == block_entries(a, b, c, d),
            system.1@ == self.free_sigma_rhs(),
            system.2@ == self.free_u_rhs(),
    {
        let mut sigma_rhs: Vec<T> = copy_of(self.sigma_rhs);
        let mut u_rhs: Vec<T> = copy_of(self.u_rhs);
        let a = eliminate_block(
            self.mass_sigma,
            self.sigma_mask,
            self.sigma_mask,
            self.sigma_data,
            &mut sigma_rhs,
        );
        let d = eliminate_block(
            self.u_block,
            self.u_mask,
            self.u_mask,
            self.u_data,
            &mut u_rhs,
        );
        let c = eliminate_block(
            self.dif_sigma,
            self.u_mask,
            self.sigma_mask,
            self.sigma_data,
            &mut u_rhs,
        );
        let b = eliminate_block(
            self.codif_u_neg,
            self.sigma_mask,
            self.u_mask,
            self.u_data,
            &mut sigma_rhs,
        );
        let ghost sigma = masked_pairs(self.sigma_mask@, self.sigma_data@);
        let ghost u = masked_pairs(self.u_mask@, self.u_data@);
        proof {
            let whole = Seq::new(
                self.sigma_rhs@.len(),
                |r: int|
                    moved_to_rhs(
                        moved_to_rhs(self.sigma_rhs@[r], self.mass_sigma.entries(), sigma, r),
                        self.codif_u_neg.entries(),
                        u,
                        r,
                    ),
            );
            lemma_kept_same(sigma_rhs@, whole, self.sigma_mask@);
            let whole_u = Seq::new(
                self.u_rhs@.len(),
                |r: int|
                    moved_to_rhs(
                        moved_to_rhs(self.u_rhs@[r], self.u_block.entries(), u, r),
                        self.dif_sigma.entries(),
                        sigma,
                        r,
                    ),
            );
            lemma_kept_same(u_rhs@, whole_u, self.u_mask@);
            unset_before_bound(self.sigma_mask@, self.sigma_mask@.len() as int);
            unset_before_bound(self.u_mask@, self.u_mask@.len() as int);
        }
        drop_dofs_galvec(self.sigma_mask, &mut sigma_rhs);
        drop_dofs_galvec(self.u_mask, &mut u_rhs);
        let m = block(&a, &b, &c, &d);
        proof {
            assert(self.is_free_blocks(a, b, c, d));
            assert(m.entries() == block_entries(a, b, c, d));
        }
        (m, sigma_rhs, u_rhs)
    }
}

/// A block without the prescribed rows and columns.
pub open spec fn is_free_block<T>(
    reduced: CooMatrix<T>,
    m: CooMatrix<T>,
    rows: Seq<bool>,
    cols: Seq<bool>,
) -> bool {
    &&& reduced.wf()
    &&& reduced.entries() == restricted(m.entries(), rows, cols)
    &&& reduced.rows() == (if m.rows() == rows.len() && m.cols() == cols.len() {
        unset_before(rows, rows.len() as int)
    } else {
        0
    })
    &&& reduced.cols() == (if m.rows() == rows.len() && m.cols() == cols.len() {
        unset_before(cols, cols.len() as int)
    } else {
        0
    })
}

/// The same values once more.
pub fn copy_of<T: Copy>(values: &[T]) -> (copy: Vec<T>)
    ensures
        copy@ == values@,
{
    let mut copy: Vec<T> = Vec::new();
    let mut i: usize = 0;
    while i < values.len()
        invariant
            i <= values@.len(),
            copy@ =~= values@.take(i as int),
        decreases values@.len() - i,
    {
        copy.push(values[i]);
        i = i + 1;
    }
    copy
}

/// A part of a list.
pub fn part_of<T: Copy>(values: &[T], from: usize, to: usize) -> (part: Vec<T>)
    requires
        from <= to <= values@.len(),
    ensures
        part@ == values@.subrange(from as int, to as int),
{
    let mut part: Vec<T> = Vec::new();
    let mut i: usize = from;
    while i < to
        invariant
            from <= i <= to <= values@.len(),
            part@ =~= values@.subrange(from as int, i as int),
        decreases to - i,
    {
        part.push(values[i]);
        i = i + 1;
    }
    part
}

/// The values on all dofs: the prescribed ones and, in order, the free ones.
pub open spec fn all_values<T>(free: Seq<T>, mask: Seq<bool>, data: Seq<T>) -> Seq<T> {
    Seq::new(
        mask.len(),
        |i: int|
            if mask[i] {
                data[i]
            } else {
                free[unset_before(mask, i) as int]
            },
    )
}

/// Puts prescribed values back among the free ones.
pub fn with_prescribed<T: Copy>(free: &[T], mask: &[bool], data: &[T]) -> (values: Vec<T>)
    requires
        data@.len() == mask@.len(),
        free@.len() == unset_before(mask@, mask@.len() as int),
    ensures
        values@ == all_values(free@, mask@, data@),
{
    let pairs = boundary_data_pairs(mask, data);
    let n: usize = mask.len();
    let mut values = copy_of(free);
    proof {
        masked_pairs_values(mask@, data@);
        assert(fixed_flags(pairs@, n as nat) =~= mask@);
    }
    reintroduce_non_homogenous_dofs_galsols(pairs.as_slice(), &mut values);
    proof {
        assert(values@ =~= all_values(free@, mask@, data@));
    }
    values
}

/// Prescribed dofs have their values in the solution.
pub proof fn prescribed_values_hold<T>(free: Seq<T>, mask: Seq<bool>, data: Seq<T>, i: int)
    requires
        0 <= i < mask.len(),
        mask[i],
    ensures
        all_values(free, mask, data)[i] == data[i],
{
}

/// The free values are what is left when the prescribed dofs are dropped.
pub proof fn free_values_kept<T>(free: Seq<T>, mask: Seq<bool>, data: Seq<T>)
    requires
        free.len() == unset_before(mask, mask.len() as int),
    ensures
        kept_values(all_values(free, mask, data), mask) == free,
{
    let all = all_values(free, mask, data);
    kept_values_positions(all, mask);
    lemma_free_kept(free, mask, data, mask.len() as int);
    assert(all.take(mask.len() as int) =~= all);
    assert(free.take(free.len() as int) =~= free);
}

proof fn lemma_free_kept<T>(free: Seq<T>, mask: Seq<bool>, data: Seq<T>, n: int)
    requires
        0 <= n <= mask.len(),
        free.len() == unset_before(mask, mask.len() as int),
    ensures
        unset_before(mask, n) <= free.len(),
        kept_values(all_values(free, mask, data).take(n), mask) == free.take(
            unset_before(mask, n) as int,
        ),
    decreases n,
{
    crate::linalg::sparse::unset_before_monotone(mask, n, mask.len() as int);
    let all = all_values(free, mask, data);
    if n > 0 {
        lemma_free_kept(free, mask, data, n - 1);
        assert(all.take(n).drop_last() =~= all.take(n - 1));
        let before = unset_before(mask, n - 1) as int;
        if !mask[n - 1] {
            assert(free.take(before + 1) =~= free.take(before).push(free[before]));
        }
    } else {
        assert(kept_values(all.take(0), mask) =~= free.take(0));
    }
}

} // verus!
