//! Matrices made of blocks.

use crate::linalg::algebra::negated_entries;
use crate::linalg::csr::CsrMatrix;
use crate::linalg::scalar::Scalar;
use crate::linalg::sparse::CooMatrix;
use vstd::prelude::*;

verus! {

/// The larger of two numbers.
pub open spec fn max_nat(a: nat, b: nat) -> nat {
    if a < b {
        b
    } else {
        a
    }
}

/// Entries moved down and to the right.
pub open spec fn shifted<T>(entries: Seq<(usize, usize, T)>, down: nat, right: nat) -> Seq<
    (usize, usize, T),
> {
    Seq::new(
        entries.len(),
        |i: int|
            ((entries[i].0 + down) as usize, (entries[i].1 + right) as usize, entries[i].2),
    )
}

/// Appends the entries of a matrix, moved down and to the right.
pub fn push_shifted<T: Copy>(
    target: &mut CooMatrix<T>,
    block: &CooMatrix<T>,
    down: usize,
    right: usize,
)
    requires
        old(target).wf(),
        block.wf(),
        block.rows() + down <= old(target).rows(),
        block.cols() + right <= old(target).cols(),
    ensures
        final(target).wf(),
        final(target).rows() == old(target).rows(),
        final(target).cols() == old(target).cols(),
        final(target).entries() == old(target).entries() + shifted(
            block.entries(),
            down as nat,
            right as nat,
        ),
{
    let ghost before = target.entries();
    let ghost nrows = target.rows();
    let ghost ncols = target.cols();
    let ghost moved = shifted(block.entries(), down as nat, right as nat);
    let triplets = block.triplets();
    let height: usize = target.nrows();
    let width: usize = target.ncols();
    let mut i: usize = 0;
    while i < triplets.len()
        invariant
            i <= triplets@.len(),
            block.wf(),
            triplets@ == block.entries(),
            height == nrows,
            width == ncols,
            block.rows() + down <= nrows,
            block.cols() + right <= ncols,
            moved == shifted(block.entries(), down as nat, right as nat),
            target.wf(),
            target.rows() == nrows,
            target.cols() == ncols,
            target.entries() =~= before + moved.take(i as int),
        decreases triplets@.len() - i,
    {
        let (r, c, v): (usize, usize, T) = triplets[i];
        proof {
            assert(triplets@[i as int].0 < block.rows() && triplets@[i as int].1 < block.cols());
        }
        target.push(r + down, c + right, v);
        i = i + 1;
    }
    proof {
        assert(moved.take(i as int) =~= moved);
    }
}

/// The height of the first row of blocks and of both.
pub open spec fn block_heights<T>(
    a: CooMatrix<T>,
    b: CooMatrix<T>,
    c: CooMatrix<T>,
    d: CooMatrix<T>,
) -> (nat, nat) {
    let first = max_nat(a.rows(), b.rows());
    (first, first + max_nat(c.rows(), d.rows()))
}

/// The width of the first column of blocks and of both.
pub open spec fn block_widths<T>(
    a: CooMatrix<T>,
    b: CooMatrix<T>,
    c: CooMatrix<T>,
    d: CooMatrix<T>,
) -> (nat, nat) {
    let first = max_nat(a.cols(), c.cols());
    (first, first + max_nat(b.cols(), d.cols()))
}

/// The entries of four blocks.
pub open spec fn block_entries<T>(
    a: CooMatrix<T>,
    b: CooMatrix<T>,
    c: CooMatrix<T>,
    d: CooMatrix<T>,
) -> Seq<(usize, usize, T)> {
    let height = block_heights(a, b, c, d).0;
    let width = block_widths(a, b, c, d).0;
    shifted(a.entries(), 0, 0) + shifted(b.entries(), 0, width) + shifted(c.entries(), height, 0)
        + shifted(d.entries(), height, width)
}

/// Four blocks, two above and two below. Each row of blocks is as high as the highest of its
/// blocks, each column as wide as the widest.
pub fn block<T: Copy>(
    a: &CooMatrix<T>,
    b: &CooMatrix<T>,
    c: &CooMatrix<T>,
    d: &CooMatrix<T>,
) -> (m: CooMatrix<T>)
    requires
        a.wf(),
        b.wf(),
        c.wf(),
        d.wf(),
        block_heights(*a, *b, *c, *d).1 <= usize::MAX,
        block_widths(*a, *b, *c, *d).1 <= usize::MAX,
    ensures
        m.wf(),
        m.rows() == block_heights(*a, *b, *c, *d).1,
        m.cols() == block_widths(*a, *b, *c, *d).1,
        m.entries() == block_entries(*a, *b, *c, *d),
{
    let height: usize = larger(a.nrows(), b.nrows());
    let width: usize = larger(a.ncols(), c.ncols());
    let mut m: CooMatrix<T> = CooMatrix::zeros(
        height + larger(c.nrows(), d.nrows()),
        width + larger(b.ncols(), d.ncols()),
    );
    push_shifted(&mut m, a, 0, 0);
    push_shifted(&mut m, b, 0, width);
    push_shifted(&mut m, c, height, 0);
    push_shifted(&mut m, d, height, width);
    proof {
        assert(m.entries() =~= block_entries(*a, *b, *c, *d));
    }
    m
}

fn larger(a: usize, b: usize) -> (r: usize)
    ensures
        r == max_nat(a as nat, b as nat),
{
    if a < b {
        b
    } else {
        a
    }
}

/// Blocks whose shapes agree fill the whole matrix.
pub proof fn agreeing_blocks<T>(
    a: CooMatrix<T>,
    b: CooMatrix<T>,
    c: CooMatrix<T>,
    d: CooMatrix<T>,
)
    requires
        a.rows() == b.rows(),
        c.rows() == d.rows(),
        a.cols() == c.cols(),
        b.cols() == d.cols(),
    ensures
        block_heights(a, b, c, d) == (a.rows(), a.rows() + c.rows()),
        block_widths(a, b, c, d) == (a.cols(), a.cols() + b.cols()),
{
}

impl<T: Scalar> CooMatrix<T> {
    /// The matrix with each entry negated.
    pub fn neg(&self) -> (m: Self)
        requires
            self.wf(),
        ensures
            m.wf(),
            m.rows() == self.rows(),
            m.cols() == self.cols(),
            m.entries() == negated_entries(self.entries()),
    {
        let triplets = self.triplets();
        let mut m: CooMatrix<T> = CooMatrix::zeros(self.nrows(), self.ncols());
        let mut i: usize = 0;
        while i < triplets.len()
            invariant
                i <= triplets@.len(),
                self.wf(),
                triplets@ == self.entries(),
                m.wf(),
                m.rows() == self.rows(),
                m.cols() == self.cols(),
                m.entries() =~= negated_entries(self.entries()).take(i as int),
            decreases triplets@.len() - i,
        {
            let (r, c, v): (usize, usize, T) = triplets[i];
            proof {
                assert(triplets@[i as int].0 < self.rows() && triplets@[i as int].1 < self.cols());
            }
            m.push(r, c, v.negated());
            i = i + 1;
        }
        m
    }
}

impl<T: Copy> CooMatrix<T> {
    /// The entries of a sparse matrix.
    pub fn from_csr(csr: &CsrMatrix<T>) -> (m: Self)
        requires
            csr.wf(),
        ensures
            m.wf(),
            m.rows() == csr.rows(),
            m.cols() == csr.cols(),
            m.entries() == csr.entries(),
    {
        let triplets = csr.triplets();
        let mut m: CooMatrix<T> = CooMatrix::zeros(csr.nrows(), csr.ncols());
        let mut i: usize = 0;
        while i < triplets.len()
            invariant
                i <= triplets@.len(),
                csr.wf(),
                triplets@ == csr.entries(),
                m.wf(),
                m.rows() == csr.rows(),
                m.cols() == csr.cols(),
                m.entries() =~= csr.entries().take(i as int),
            decreases triplets@.len() - i,
        {
            let (r, c, v): (usize, usize, T) = triplets[i];
            proof {
                assert(triplets@[i as int].0 < csr.rows() && triplets@[i as int].1 < csr.cols());
            }
            m.push(r, c, v);
            i = i + 1;
        }
        m
    }

    /// The same matrix once more.
    pub fn copied(&self) -> (m: Self)
        requires
            self.wf(),
        ensures
            m.wf(),
            m.rows() == self.rows(),
            m.cols() == self.cols(),
            m.entries() == self.entries(),
    {
        let triplets = self.triplets();
        let mut m: CooMatrix<T> = CooMatrix::zeros(self.nrows(), self.ncols());
        let mut i: usize = 0;
        while i < triplets.len()
            invariant
                i <= triplets@.len(),
                self.wf(),
                triplets@ == self.entries(),
                m.wf(),
                m.rows() == self.rows(),
                m.cols() == self.cols(),
                m.entries() =~= self.entries().take(i as int),
            decreases triplets@.len() - i,
        {
            let (r, c, v): (usize, usize, T) = triplets[i];
            proof {
                assert(triplets@[i as int].0 < self.rows() && triplets@[i as int].1 < self.cols());
            }
            m.push(r, c, v);
            i = i + 1;
        }
        m
    }
}

/// A sign as a coefficient.
pub open spec fn sign_coefficient<T: Scalar>(v: i64) -> T {
    if v > 0 {
        T::one_spec()
    } else if v < 0 {
        T::one_spec().negated_spec()
    } else {
        T::zero_spec()
    }
}

/// Signs as coefficients.
pub open spec fn sign_entries<T: Scalar>(entries: Seq<(usize, usize, i64)>) -> Seq<
    (usize, usize, T),
> {
    Seq::new(
        entries.len(),
        |i: int| (entries[i].0, entries[i].1, sign_coefficient::<T>(entries[i].2)),
    )
}

/// A matrix of signs as a matrix of coefficients.
pub fn sign_matrix<T: Scalar>(signs: &CooMatrix<i64>) -> (m: CooMatrix<T>)
    requires
        signs.wf(),
    ensures
        m.wf(),
        m.rows() == signs.rows(),
        m.cols() == signs.cols(),
        m.entries() == sign_entries::<T>(signs.entries()),
{
    let triplets = signs.triplets();
    let mut m: CooMatrix<T> = CooMatrix::zeros(signs.nrows(), signs.ncols());
    let mut i: usize = 0;
    while i < triplets.len()
        invariant
            i <= triplets@.len(),
            signs.wf(),
            triplets@ == signs.entries(),
            m.wf(),
            m.rows() == signs.rows(),
            m.cols() == signs.cols(),
            m.entries() =~= sign_entries::<T>(signs.entries()).take(i as int),
        decreases triplets@.len() - i,
    {
        let (r, c, v): (usize, usize, i64) = triplets[i];
        proof {
            assert(triplets@[i as int].0 < signs.rows() && triplets@[i as int].1 < signs.cols());
        }
        let value = if v > 0 {
            T::one()
        } else if v < 0 {
            T::one().negated()
        } else {
            T::zero()
        };
        m.push(r, c, value);
        i = i + 1;
    }
    m
}

} // verus!
