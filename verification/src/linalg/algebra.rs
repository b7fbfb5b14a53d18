//! Sums, products and diagonals of sparse matrices.

use crate::linalg::csr::{before_in_rows, compressed, row_major};
use crate::linalg::csr::CsrMatrix;
use crate::linalg::scalar::Scalar;
use crate::linalg::sparse::triplets_within;
use crate::linalg::sparse::CooMatrix;
use crate::text::decimal;
use crate::text::{owned, push_decimal};
use vstd::prelude::*;
use vstd::string::*;

verus! {

/// The entries of a sparse matrix.
pub type Triplets<T> = Vec<(usize, usize, T)>;

/// The absolute value.
pub open spec fn magnitude_spec<T: Scalar>(v: T) -> T {
    if v.is_below_spec(T::zero_spec()) {
        v.negated_spec()
    } else {
        v
    }
}

/// The absolute value.
pub fn magnitude<T: Scalar>(v: T) -> (r: T)
    ensures
        r == magnitude_spec(v),
{
    if v.is_below(T::zero()) {
        v.negated()
    } else {
        v
    }
}

/// One part in `n`.
pub open spec fn reciprocal_spec<T: Scalar>(n: nat) -> T {
    T::one_spec().over_spec(T::from_count_spec(n))
}

/// One part in `n`.
pub fn reciprocal<T: Scalar>(n: u64) -> (r: T)
    ensures
        r == reciprocal_spec::<T>(n as nat),
{
    T::one().over(T::from_count(n))
}

/// Diagonal values of smaller magnitude than one part in this many are taken as zero.
pub const DIAGONAL_RESOLUTION: u64 = 1_000_000_000_000;

/// Matrix values of no larger magnitude than one part in this many are dropped from sums
/// and products.
pub const VALUE_RESOLUTION: u64 = 100_000_000_000_000;

/// The sum of the values in row `r`.
pub open spec fn row_total<T: Scalar>(entries: Seq<(usize, usize, T)>, r: int) -> T
    decreases entries.len(),
{
    if entries.len() == 0 {
        T::zero_spec()
    } else {
        let before = row_total(entries.drop_last(), r);
        if entries.last().0 == r {
            before.plus_spec(entries.last().2)
        } else {
            before
        }
    }
}

/// The sum of the values on the diagonal in row `r`.
pub open spec fn diagonal_total<T: Scalar>(entries: Seq<(usize, usize, T)>, r: int) -> T
    decreases entries.len(),
{
    if entries.len() == 0 {
        T::zero_spec()
    } else {
        let before = diagonal_total(entries.drop_last(), r);
        let last = entries.last();
        if last.0 == r && last.0 == last.1 {
            before.plus_spec(last.2)
        } else {
            before
        }
    }
}

/// The inverse of a diagonal value; zero where the value is negligible.
pub open spec fn inverted_spec<T: Scalar>(v: T) -> T {
    if magnitude_spec(v).is_below_spec(reciprocal_spec(DIAGONAL_RESOLUTION as nat)) {
        T::zero_spec()
    } else {
        T::one_spec().over_spec(v)
    }
}

/// The entries of a diagonal matrix: its values that are not zero.
pub open spec fn nonzero_diagonal<T: Scalar>(diag: Seq<T>) -> Seq<(usize, usize, T)>
    decreases diag.len(),
{
    if diag.len() == 0 {
        Seq::empty()
    } else {
        let before = nonzero_diagonal(diag.drop_last());
        let i = (diag.len() - 1) as usize;
        if diag.last().is_zero_spec() {
            before
        } else {
            before.push((i, i, diag.last()))
        }
    }
}

/// The entries times `scale`, without those that become zero.
pub open spec fn scaled_nonzero<T: Scalar>(entries: Seq<(usize, usize, T)>, scale: T) -> Seq<
    (usize, usize, T),
>
    decreases entries.len(),
{
    if entries.len() == 0 {
        Seq::empty()
    } else {
        let before = scaled_nonzero(entries.drop_last(), scale);
        let (r, c, v) = entries.last();
        let scaled = v.times_spec(scale);
        if scaled.is_zero_spec() {
            before
        } else {
            before.push((r, c, scaled))
        }
    }
}

/// The entries of larger magnitude than `tolerance`.
pub open spec fn significant<T: Scalar>(entries: Seq<(usize, usize, T)>, tolerance: T) -> Seq<
    (usize, usize, T),
>
    decreases entries.len(),
{
    if entries.len() == 0 {
        Seq::empty()
    } else {
        let before = significant(entries.drop_last(), tolerance);
        if tolerance.is_below_spec(magnitude_spec(entries.last().2)) {
            before.push(entries.last())
        } else {
            before
        }
    }
}

/// The entries that are not zero.
pub open spec fn nonzero<T: Scalar>(entries: Seq<(usize, usize, T)>) -> Seq<(usize, usize, T)>
    decreases entries.len(),
{
    if entries.len() == 0 {
        Seq::empty()
    } else {
        let before = nonzero(entries.drop_last());
        if entries.last().2.is_zero_spec() {
            before
        } else {
            before.push(entries.last())
        }
    }
}

/// The entries with opposite values.
pub open spec fn negated_entries<T: Scalar>(entries: Seq<(usize, usize, T)>) -> Seq<
    (usize, usize, T),
> {
    Seq::new(entries.len(), |i: int| (entries[i].0, entries[i].1, entries[i].2.negated_spec()))
}

/// Row `k` of the entries, times `x`, as part of row `r` of a product.
pub open spec fn row_times<T: Scalar>(
    entries: Seq<(usize, usize, T)>,
    k: int,
    r: usize,
    x: T,
) -> Seq<(usize, usize, T)>
    decreases entries.len(),
{
    if entries.len() == 0 {
        Seq::empty()
    } else {
        let before = row_times(entries.drop_last(), k, r, x);
        let last = entries.last();
        if last.0 == k {
            before.push((r, last.1, x.times_spec(last.2)))
        } else {
            before
        }
    }
}

/// The terms of the product of two matrices, for each entry of the left one the row of the
/// right one that it meets.
pub open spec fn product_terms<T: Scalar>(
    lhs: Seq<(usize, usize, T)>,
    rhs: Seq<(usize, usize, T)>,
) -> Seq<(usize, usize, T)>
    decreases lhs.len(),
{
    if lhs.len() == 0 {
        Seq::empty()
    } else {
        let (r, k, x) = lhs.last();
        product_terms(lhs.drop_last(), rhs) + row_times(rhs, k as int, r, x)
    }
}

/// Row `r` of the entries times a vector.
pub open spec fn row_dot<T: Scalar>(
    entries: Seq<(usize, usize, T)>,
    vector: Seq<T>,
    r: int,
) -> T
    decreases entries.len(),
{
    if entries.len() == 0 {
        T::zero_spec()
    } else {
        let before = row_dot(entries.drop_last(), vector, r);
        let last = entries.last();
        if last.0 == r {
            before.plus_spec(last.2.times_spec(vector[last.1 as int]))
        } else {
            before
        }
    }
}

/// The product of a matrix with `nrows` rows and a vector.
pub open spec fn matrix_times<T: Scalar>(
    entries: Seq<(usize, usize, T)>,
    nrows: nat,
    vector: Seq<T>,
) -> Seq<T> {
    Seq::new(nrows, |r: int| row_dot(entries, vector, r))
}

/// A list of `n` zeros.
pub fn zero_vector<T: Scalar>(n: usize) -> (zeros: Vec<T>)
    ensures
        zeros@ == Seq::new(n as nat, |i: int| T::zero_spec()),
{
    let mut zeros: Vec<T> = Vec::new();
    let mut i: usize = 0;
    while i < n
        invariant
            i <= n,
            zeros@ =~= Seq::new(i as nat, |j: int| T::zero_spec()),
        decreases n - i,
    {
        zeros.push(T::zero());
        i = i + 1;
    }
    zeros
}

/// The opposite vector.
pub fn vector_negated<T: Scalar>(vector: &[T]) -> (opposite: Vec<T>)
    ensures
        opposite@ == Seq::new(vector@.len(), |i: int| vector@[i].negated_spec()),
{
    let mut opposite: Vec<T> = Vec::new();
    let mut i: usize = 0;
    while i < vector.len()
        invariant
            i <= vector@.len(),
            opposite@ =~= Seq::new(i as nat, |j: int| vector@[j].negated_spec()),
        decreases vector@.len() - i,
    {
        opposite.push(vector[i].negated());
        i = i + 1;
    }
    opposite
}

/// The row sums of a matrix, the diagonal of the lumped matrix.
pub fn lumped_diag<T: Scalar>(mat: &CsrMatrix<T>) -> (diag: Vec<T>)
    requires
        mat.wf(),
    ensures
        diag@ == Seq::new(mat.rows(), |r: int| row_total(mat.entries(), r)),
{
    let entries = mat.triplets();
    let nrows: usize = mat.nrows();
    let mut diag: Vec<T> = zero_vector(nrows);
    let mut i: usize = 0;
    proof {
        assert(entries@.take(0) =~= Seq::<(usize, usize, T)>::empty());
    }
    while i < entries.len()
        invariant
            i <= entries@.len(),
            entries@ == mat.entries(),
            mat.wf(),
            nrows == mat.rows(),
            diag@ =~= Seq::new(nrows as nat, |r: int| row_total(entries@.take(i as int), r)),
        decreases entries@.len() - i,
    {
        let (r, _, v) = entries[i];
        proof {
            assert(entries@[i as int].0 < nrows);
            assert(entries@.take(i + 1).drop_last() =~= entries@.take(i as int));
            assert(entries@.take(i + 1).last() == entries@[i as int]);
        }
        diag[r] = diag[r].plus(v);
        i = i + 1;
    }
    proof {
        assert(entries@.take(i as int) =~= entries@);
    }
    diag
}

/// The diagonal of a matrix.
pub fn matrix_diag<T: Scalar>(mat: &CsrMatrix<T>) -> (diag: Vec<T>)
    requires
        mat.wf(),
    ensures
        diag@ == Seq::new(mat.rows(), |r: int| diagonal_total(mat.entries(), r)),
{
    let entries = mat.triplets();
    let nrows: usize = mat.nrows();
    let mut diag: Vec<T> = zero_vector(nrows);
    let mut i: usize = 0;
    proof {
        assert(entries@.take(0) =~= Seq::<(usize, usize, T)>::empty());
    }
    while i < entries.len()
        invariant
            i <= entries@.len(),
            entries@ == mat.entries(),
            mat.wf(),
            nrows == mat.rows(),
            diag@ =~= Seq::new(nrows as nat, |r: int| diagonal_total(entries@.take(i as int), r)),
        decreases entries@.len() - i,
    {
        let (r, c, v) = entries[i];
        proof {
            assert(entries@[i as int].0 < nrows);
            assert(entries@.take(i + 1).drop_last() =~= entries@.take(i as int));
            assert(entries@.take(i + 1).last() == entries@[i as int]);
        }
        if r == c {
            diag[r] = diag[r].plus(v);
        }
        i = i + 1;
    }
    proof {
        assert(entries@.take(i as int) =~= entries@);
    }
    diag
}

/// The inverse of a diagonal, with zero where the diagonal is negligible.
pub fn invert_diag<T: Scalar>(diag: &[T]) -> (inverse: Vec<T>)
    ensures
        inverse@ == Seq::new(diag@.len(), |i: int| inverted_spec(diag@[i])),
{
    let eps: T = reciprocal(DIAGONAL_RESOLUTION);
    let mut inverse: Vec<T> = Vec::new();
    let mut i: usize = 0;
    while i < diag.len()
        invariant
            i <= diag@.len(),
            eps == reciprocal_spec::<T>(DIAGONAL_RESOLUTION as nat),
            inverse@ =~= Seq::new(i as nat, |j: int| inverted_spec(diag@[j])),
        decreases diag@.len() - i,
    {
        let v: T = diag[i];
        if magnitude(v).is_below(eps) {
            inverse.push(T::zero());
        } else {
            inverse.push(T::one().over(v));
        }
        i = i + 1;
    }
    inverse
}

/// The diagonal matrix with the given diagonal.
pub fn diag_matrix<T: Scalar>(diag: &[T]) -> (m: CsrMatrix<T>)
    ensures
        m.wf(),
        m.rows() == diag@.len(),
        m.cols() == diag@.len(),
        m.entries() == nonzero_diagonal(diag@),
{
    let n: usize = diag.len();
    let mut entries: Triplets<T> = Vec::new();
    let mut i: usize = 0;
    proof {
        assert(diag@.take(0) =~= Seq::<T>::empty());
    }
    while i < n
        invariant
            i <= n,
            n == diag@.len(),
            entries@ == nonzero_diagonal(diag@.take(i as int)),
            forall|j: int|
                0 <= j < entries@.len() ==> (#[trigger] entries@[j]).0 < i && entries@[j].1 < i,
            row_major(entries@),
        decreases n - i,
    {
        let v: T = diag[i];
        proof {
            assert(diag@.take(i + 1).drop_last() =~= diag@.take(i as int));
            assert(diag@.take(i + 1).last() == v);
        }
        if !v.is_zero() {
            entries.push((i, i, v));
        }
        i = i + 1;
    }
    proof {
        assert(diag@.take(i as int) =~= diag@);
    }
    CsrMatrix::from_row_major(n, n, entries)
}

/// `scale` times the identity matrix.
pub fn scaled_identity<T: Scalar>(dimension: usize, scale: T) -> (m: CsrMatrix<T>)
    ensures
        m.wf(),
        m.rows() == dimension,
        m.cols() == dimension,
        m.entries() == nonzero_diagonal(Seq::new(dimension as nat, |i: int| scale)),
{
    let mut diag: Vec<T> = Vec::new();
    let mut i: usize = 0;
    while i < dimension
        invariant
            i <= dimension,
            diag@ =~= Seq::new(i as nat, |j: int| scale),
        decreases dimension - i,
    {
        diag.push(scale);
        i = i + 1;
    }
    diag_matrix(diag.as_slice())
}

/// The matrix times `scale`.
pub fn scale_matrix<T: Scalar>(matrix: &CsrMatrix<T>, scale: T) -> (m: CsrMatrix<T>)
    requires
        matrix.wf(),
    ensures
        m.wf(),
        m.rows() == matrix.rows(),
        m.cols() == matrix.cols(),
        m.entries() == scaled_nonzero(matrix.entries(), scale),
{
    let entries = matrix.triplets();
    let nrows: usize = matrix.nrows();
    let ncols: usize = matrix.ncols();
    let mut scaled: Triplets<T> = Vec::new();
    let mut i: usize = 0;
    proof {
        assert(entries@.take(0) =~= Seq::<(usize, usize, T)>::empty());
    }
    while i < entries.len()
        invariant
            i <= entries@.len(),
            entries@ == matrix.entries(),
            matrix.wf(),
            nrows == matrix.rows(),
            ncols == matrix.cols(),
            scaled@ == scaled_nonzero(entries@.take(i as int), scale),
            triplets_within(scaled@, nrows as int, ncols as int),
            row_major(scaled@),
            listed_before(scaled@, entries@, i as int),
        decreases entries@.len() - i,
    {
        let (r, c, v) = entries[i];
        let value: T = v.times(scale);
        proof {
            assert(entries@[i as int].0 < nrows && entries@[i as int].1 < ncols);
            assert(entries@.take(i + 1).drop_last() =~= entries@.take(i as int));
            assert(entries@.take(i + 1).last() == entries@[i as int]);
            lemma_listed_extends(scaled@, entries@, i as int, value);
        }
        if !value.is_zero() {
            scaled.push((r, c, value));
        }
        i = i + 1;
    }
    proof {
        assert(entries@.take(i as int) =~= entries@);
    }
    CsrMatrix::from_row_major(nrows, ncols, scaled)
}

/// Every place of `part` is the place of one of the first `n` entries of `whole`.
pub open spec fn listed_before<T>(
    part: Seq<(usize, usize, T)>,
    whole: Seq<(usize, usize, T)>,
    n: int,
) -> bool {
    forall|j: int|
        0 <= j < part.len() ==> exists|k: int|
            0 <= k < n && (#[trigger] whole[k]).0 == (#[trigger] part[j]).0 && whole[k].1
                == part[j].1
}

proof fn lemma_listed_extends<T>(
    part: Seq<(usize, usize, T)>,
    whole: Seq<(usize, usize, T)>,
    n: int,
    v: T,
)
    requires
        row_major(part),
        row_major(whole),
        0 <= n < whole.len(),
        listed_before(part, whole, n),
    ensures
        row_major(part.push((whole[n].0, whole[n].1, v))),
        listed_before(part.push((whole[n].0, whole[n].1, v)), whole, n + 1),
        listed_before(part, whole, n + 1),
{
    let item = (whole[n].0, whole[n].1, v);
    let all = part.push(item);
    assert forall|j: int| 0 <= j < part.len() implies exists|k: int|
        0 <= k < n + 1 && (#[trigger] whole[k]).0 == (#[trigger] part[j]).0 && whole[k].1
            == part[j].1 by {
        let k = choose|k: int|
            0 <= k < n && (#[trigger] whole[k]).0 == part[j].0 && whole[k].1 == part[j].1;
        assert(whole[k].0 == part[j].0);
    }
    assert forall|j: int| 0 <= j < all.len() implies exists|k: int|
        0 <= k < n + 1 && (#[trigger] whole[k]).0 == (#[trigger] all[j]).0 && whole[k].1
            == all[j].1 by {
        if j < part.len() {
            let k = choose|k: int|
                0 <= k < n && (#[trigger] whole[k]).0 == part[j].0 && whole[k].1 == part[j].1;
            assert(whole[k].0 == all[j].0);
        } else {
            assert(whole[n].0 == all[j].0);
        }
    }
    assert forall|i: int, j: int| 0 <= i < j < all.len() implies before_in_rows(
        (#[trigger] all[i]).0,
        all[i].1,
        (#[trigger] all[j]).0,
        all[j].1,
    ) by {
        assert(all[i] == part[i]);
        if j < part.len() {
            assert(all[j] == part[j]);
        } else {
            let k = choose|k: int|
                0 <= k < n && (#[trigger] whole[k]).0 == part[i].0 && whole[k].1 == part[i].1;
            assert(before_in_rows(whole[k].0, whole[k].1, whole[n].0, whole[n].1));
        }
    }
}

/// The matrix without its entries of no larger magnitude than `tolerance`.
pub fn drop_insignificant<T: Scalar>(matrix: &CsrMatrix<T>, tolerance: T) -> (m: CsrMatrix<T>)
    requires
        matrix.wf(),
    ensures
        m.wf(),
        m.rows() == matrix.rows(),
        m.cols() == matrix.cols(),
        m.entries() == significant(matrix.entries(), tolerance),
{
    let entries = matrix.triplets();
    let nrows: usize = matrix.nrows();
    let ncols: usize = matrix.ncols();
    let mut kept: Triplets<T> = Vec::new();
    let mut i: usize = 0;
    proof {
        assert(entries@.take(0) =~= Seq::<(usize, usize, T)>::empty());
    }
    while i < entries.len()
        invariant
            i <= entries@.len(),
            entries@ == matrix.entries(),
            matrix.wf(),
            nrows == matrix.rows(),
            ncols == matrix.cols(),
            kept@ == significant(entries@.take(i as int), tolerance),
            triplets_within(kept@, nrows as int, ncols as int),
            row_major(kept@),
            listed_before(kept@, entries@, i as int),
        decreases entries@.len() - i,
    {
        let (r, c, v) = entries[i];
        proof {
            assert(entries@[i as int].0 < nrows && entries@[i as int].1 < ncols);
            assert(entries@.take(i + 1).drop_last() =~= entries@.take(i as int));
            assert(entries@.take(i + 1).last() == entries@[i as int]);
            lemma_listed_extends(kept@, entries@, i as int, v);
        }
        if tolerance.is_below(magnitude(v)) {
            kept.push((r, c, v));
        }
        i = i + 1;
    }
    proof {
        assert(entries@.take(i as int) =~= entries@);
    }
    CsrMatrix::from_row_major(nrows, ncols, kept)
}

/// The matrix without its entries that are zero.
pub fn drop_zeros<T: Scalar>(matrix: &CsrMatrix<T>) -> (m: CsrMatrix<T>)
    requires
        matrix.wf(),
    ensures
        m.wf(),
        m.rows() == matrix.rows(),
        m.cols() == matrix.cols(),
        m.entries() == nonzero(matrix.entries()),
{
    let entries = matrix.triplets();
    let nrows: usize = matrix.nrows();
    let ncols: usize = matrix.ncols();
    let mut kept: Triplets<T> = Vec::new();
    let mut i: usize = 0;
    proof {
        assert(entries@.take(0) =~= Seq::<(usize, usize, T)>::empty());
    }
    while i < entries.len()
        invariant
            i <= entries@.len(),
            entries@ == matrix.entries(),
            matrix.wf(),
            nrows == matrix.rows(),
            ncols == matrix.cols(),
            kept@ == nonzero(entries@.take(i as int)),
            triplets_within(kept@, nrows as int, ncols as int),
            row_major(kept@),
            listed_before(kept@, entries@, i as int),
        decreases entries@.len() - i,
    {
        let (r, c, v) = entries[i];
        proof {
            assert(entries@[i as int].0 < nrows && entries@[i as int].1 < ncols);
            assert(entries@.take(i + 1).drop_last() =~= entries@.take(i as int));
            assert(entries@.take(i + 1).last() == entries@[i as int]);
            lemma_listed_extends(kept@, entries@, i as int, v);
        }
        if !v.is_zero() {
            kept.push((r, c, v));
        }
        i = i + 1;
    }
    proof {
        assert(entries@.take(i as int) =~= entries@);
    }
    CsrMatrix::from_row_major(nrows, ncols, kept)
}


/// Lists the entries of `matrix` behind those of `coo`.
fn push_all<T: Scalar>(coo: &mut CooMatrix<T>, matrix: &CsrMatrix<T>)
    requires
        old(coo).wf(),
        matrix.wf(),
        matrix.rows() == old(coo).rows(),
        matrix.cols() == old(coo).cols(),
    ensures
        final(coo).wf(),
        final(coo).rows() == old(coo).rows(),
        final(coo).cols() == old(coo).cols(),
        final(coo).entries() == old(coo).entries() + matrix.entries(),
{
    let entries = matrix.triplets();
    let ghost before = coo.entries();
    let mut i: usize = 0;
    while i < entries.len()
        invariant
            i <= entries@.len(),
            entries@ == matrix.entries(),
            matrix.wf(),
            coo.wf(),
            coo.rows() == matrix.rows(),
            coo.cols() == matrix.cols(),
            coo.entries() =~= before + entries@.take(i as int),
        decreases entries@.len() - i,
    {
        let (r, c, v) = entries[i];
        proof {
            assert(entries@[i as int].0 < matrix.rows() && entries@[i as int].1 < matrix.cols());
        }
        coo.push(r, c, v);
        i = i + 1;
    }
    proof {
        assert(entries@.take(i as int) =~= entries@);
    }
}

/// The sum of two matrices of the same shape.
pub fn add_sparse<T: Scalar>(lhs: &CsrMatrix<T>, rhs: &CsrMatrix<T>) -> (m: CsrMatrix<T>)
    requires
        lhs.wf(),
        rhs.wf(),
        lhs.rows() == rhs.rows(),
        lhs.cols() == rhs.cols(),
    ensures
        m.wf(),
        m.rows() == lhs.rows(),
        m.cols() == lhs.cols(),
        m.entries() == compressed(lhs.entries() + rhs.entries()),
{
    let mut coo: CooMatrix<T> = CooMatrix::zeros(lhs.nrows(), lhs.ncols());
    push_all(&mut coo, lhs);
    push_all(&mut coo, rhs);
    proof {
        assert(coo.entries() =~= lhs.entries() + rhs.entries());
    }
    CsrMatrix::from_coo(&coo)
}

/// The matrix with opposite values.
pub fn negate_matrix<T: Scalar>(matrix: &CsrMatrix<T>) -> (m: CsrMatrix<T>)
    requires
        matrix.wf(),
    ensures
        m.wf(),
        m.rows() == matrix.rows(),
        m.cols() == matrix.cols(),
        m.entries() == negated_entries(matrix.entries()),
{
    let entries = matrix.triplets();
    let mut opposite: Triplets<T> = Vec::new();
    let mut i: usize = 0;
    while i < entries.len()
        invariant
            i <= entries@.len(),
            entries@ == matrix.entries(),
            opposite@ =~= negated_entries(entries@).take(i as int),
        decreases entries@.len() - i,
    {
        let (r, c, v) = entries[i];
        opposite.push((r, c, v.negated()));
        i = i + 1;
    }
    proof {
        assert(negated_entries(entries@).take(i as int) =~= negated_entries(entries@));
        let all = opposite@;
        assert forall|i: int| 0 <= i < all.len() implies (#[trigger] all[i]).0 < matrix.rows()
            && all[i].1 < matrix.cols() by {
            assert(entries@[i].0 < matrix.rows() && entries@[i].1 < matrix.cols());
        }
        assert forall|i: int, j: int| 0 <= i < j < all.len() implies before_in_rows(
            (#[trigger] all[i]).0,
            all[i].1,
            (#[trigger] all[j]).0,
            all[j].1,
        ) by {
            assert(before_in_rows(entries@[i].0, entries@[i].1, entries@[j].0, entries@[j].1));
        }
    }
    CsrMatrix::from_row_major(matrix.nrows(), matrix.ncols(), opposite)
}

/// A shape as text.
pub open spec fn shape_text(nrows: nat, ncols: nat) -> Seq<char> {
    decimal(nrows) + "x"@ + decimal(ncols)
}

/// Appends a shape.
pub fn push_shape(text: &mut String, nrows: usize, ncols: usize)
    ensures
        final(text)@ == old(text)@ + shape_text(nrows as nat, ncols as nat),
{
    let ghost before = text@;
    push_decimal(text, nrows);
    text.append("x");
    push_decimal(text, ncols);
    proof {
        assert(text@ =~= before + shape_text(nrows as nat, ncols as nat));
    }
}

fn mismatch<T>(what: &str, lhs: &CsrMatrix<T>, rhs: &CsrMatrix<T>) -> (text: String)
    ensures
        text@ == what@ + " dimension mismatch: "@ + shape_text(lhs.rows(), lhs.cols()) + " vs "@
            + shape_text(rhs.rows(), rhs.cols()),
{
    let mut text = owned(what);
    text.append(" dimension mismatch: ");
    push_shape(&mut text, lhs.nrows(), lhs.ncols());
    text.append(" vs ");
    push_shape(&mut text, rhs.nrows(), rhs.ncols());
    text
}

/// The sum of two matrices without negligible values.
pub fn sparse_sum<T: Scalar>(lhs: &CsrMatrix<T>, rhs: &CsrMatrix<T>) -> (m: Result<
    CsrMatrix<T>,
    String,
>)
    requires
        lhs.wf(),
        rhs.wf(),
    ensures
        m is Ok <==> lhs.rows() == rhs.rows() && lhs.cols() == rhs.cols(),
        match m {
            Ok(m) => {
                &&& m.wf()
                &&& m.rows() == lhs.rows()
                &&& m.cols() == lhs.cols()
                &&& m.entries() == significant(
                    compressed(lhs.entries() + rhs.entries()),
                    reciprocal_spec(VALUE_RESOLUTION as nat),
                )
            },
            Err(e) => e@ == "sparse sum dimension mismatch: "@ + shape_text(lhs.rows(), lhs.cols())
                + " vs "@ + shape_text(rhs.rows(), rhs.cols()),
        },
{
    if lhs.nrows() != rhs.nrows() || lhs.ncols() != rhs.ncols() {
        proof {
            reveal_strlit("sparse sum");
            reveal_strlit(" dimension mismatch: ");
            reveal_strlit("sparse sum dimension mismatch: ");
            assert("sparse sum"@ + " dimension mismatch: "@ =~= "sparse sum dimension mismatch: "@);
        }
        return Err(mismatch("sparse sum", lhs, rhs));
    }
    let total = add_sparse(lhs, rhs);
    Ok(drop_insignificant(&total, reciprocal(VALUE_RESOLUTION)))
}

/// The difference of two matrices without negligible values.
pub fn sparse_difference<T: Scalar>(lhs: &CsrMatrix<T>, rhs: &CsrMatrix<T>) -> (m: Result<
    CsrMatrix<T>,
    String,
>)
    requires
        lhs.wf(),
        rhs.wf(),
    ensures
        m is Ok <==> lhs.rows() == rhs.rows() && lhs.cols() == rhs.cols(),
        match m {
            Ok(m) => {
                &&& m.wf()
                &&& m.rows() == lhs.rows()
                &&& m.cols() == lhs.cols()
                &&& m.entries() == significant(
                    compressed(lhs.entries() + negated_entries(rhs.entries())),
                    reciprocal_spec(VALUE_RESOLUTION as nat),
                )
            },
            Err(e) => e@ == "sparse difference dimension mismatch: "@ + shape_text(
                lhs.rows(),
                lhs.cols(),
            ) + " vs "@ + shape_text(rhs.rows(), rhs.cols()),
        },
{
    if lhs.nrows() != rhs.nrows() || lhs.ncols() != rhs.ncols() {
        proof {
            reveal_strlit("sparse difference");
            reveal_strlit(" dimension mismatch: ");
            reveal_strlit("sparse difference dimension mismatch: ");
            assert("sparse difference"@ + " dimension mismatch: "@
                =~= "sparse difference dimension mismatch: "@);
        }
        return Err(mismatch("sparse difference", lhs, rhs));
    }
    let opposite = negate_matrix(rhs);
    let total = add_sparse(lhs, &opposite);
    Ok(drop_insignificant(&total, reciprocal(VALUE_RESOLUTION)))
}


/// The columns and values of row `r`.
pub open spec fn row_list<T>(entries: Seq<(usize, usize, T)>, r: int) -> Seq<(usize, T)>
    decreases entries.len(),
{
    if entries.len() == 0 {
        Seq::empty()
    } else {
        let before = row_list(entries.drop_last(), r);
        let last = entries.last();
        if last.0 == r {
            before.push((last.1, last.2))
        } else {
            before
        }
    }
}

pub(crate) proof fn lemma_row_times<T: Scalar>(entries: Seq<(usize, usize, T)>, k: int, r: usize, x: T)
    ensures
        row_times(entries, k, r, x).len() == row_list(entries, k).len(),
        forall|j: int|
            0 <= j < row_list(entries, k).len() ==> #[trigger] row_times(entries, k, r, x)[j] == (
                r,
                row_list(entries, k)[j].0,
                x.times_spec(row_list(entries, k)[j].1),
            ),
    decreases entries.len(),
{
    if entries.len() > 0 {
        lemma_row_times(entries.drop_last(), k, r, x);
        let before = row_times(entries.drop_last(), k, r, x);
        let listed = row_list(entries.drop_last(), k);
        assert forall|j: int| 0 <= j < row_list(entries, k).len() implies #[trigger] row_times(
            entries,
            k,
            r,
            x,
        )[j] == (r, row_list(entries, k)[j].0, x.times_spec(row_list(entries, k)[j].1)) by {
            if j < listed.len() {
                assert(before[j] == (r, listed[j].0, x.times_spec(listed[j].1)));
            }
        }
    }
}

pub(crate) proof fn lemma_row_list_within<T>(
    entries: Seq<(usize, usize, T)>,
    nrows: int,
    ncols: int,
    r: int,
)
    requires
        triplets_within(entries, nrows, ncols),
    ensures
        forall|j: int|
            0 <= j < row_list(entries, r).len() ==> (#[trigger] row_list(entries, r)[j]).0 < ncols,
    decreases entries.len(),
{
    if entries.len() > 0 {
        let front = entries.drop_last();
        assert forall|i: int| 0 <= i < front.len() implies (#[trigger] front[i]).0 < nrows
            && front[i].1 < ncols by {
            assert(front[i] == entries[i]);
        }
        lemma_row_list_within(front, nrows, ncols, r);
        let last = entries[entries.len() - 1];
        assert(last.1 < ncols);
        assert forall|j: int| 0 <= j < row_list(entries, r).len() implies (#[trigger] row_list(
            entries,
            r,
        )[j]).0 < ncols by {
            if j < row_list(front, r).len() {
                assert(row_list(front, r)[j].0 < ncols);
            }
        }
    }
}

/// The rows of a matrix, as lists of columns and values.
pub fn sparse_rows<T: Copy>(matrix: &CsrMatrix<T>) -> (rows: Vec<Vec<(usize, T)>>)
    requires
        matrix.wf(),
    ensures
        rows@.len() == matrix.rows(),
        forall|r: int|
            0 <= r < rows@.len() ==> (#[trigger] rows@[r])@ == row_list(matrix.entries(), r),
{
    let entries = matrix.triplets();
    let nrows: usize = matrix.nrows();
    let mut rows: Vec<Vec<(usize, T)>> = Vec::new();
    let mut r: usize = 0;
    while r < nrows
        invariant
            r <= nrows,
            rows@.len() == r,
            forall|i: int| 0 <= i < r ==> (#[trigger] rows@[i])@ == Seq::<(usize, T)>::empty(),
        decreases nrows - r,
    {
        rows.push(Vec::new());
        r = r + 1;
    }
    let mut i: usize = 0;
    proof {
        assert(entries@.take(0) =~= Seq::<(usize, usize, T)>::empty());
    }
    while i < entries.len()
        invariant
            i <= entries@.len(),
            entries@ == matrix.entries(),
            matrix.wf(),
            nrows == matrix.rows(),
            rows@.len() == nrows,
            forall|a: int|
                0 <= a < nrows ==> (#[trigger] rows@[a])@ == row_list(entries@.take(i as int), a),
        decreases entries@.len() - i,
    {
        let (r, c, v) = entries[i];
        let ghost before = rows@;
        proof {
            assert(entries@[i as int].0 < nrows);
            assert(entries@.take(i + 1).drop_last() =~= entries@.take(i as int));
            assert(entries@.take(i + 1).last() == entries@[i as int]);
        }
        rows[r].push((c, v));
        proof {
            assert forall|a: int| 0 <= a < nrows implies (#[trigger] rows@[a])@ == row_list(
                entries@.take(i + 1),
                a,
            ) by {
                assert(before[a]@ == row_list(entries@.take(i as int), a));
            }
        }
        i = i + 1;
    }
    proof {
        assert(entries@.take(i as int) =~= entries@);
    }
    rows
}

/// The product of two matrices whose inner dimensions agree.
pub fn product<T: Scalar>(lhs: &CsrMatrix<T>, rhs: &CsrMatrix<T>) -> (m: CsrMatrix<T>)
    requires
        lhs.wf(),
        rhs.wf(),
        lhs.cols() == rhs.rows(),
    ensures
        m.wf(),
        m.rows() == lhs.rows(),
        m.cols() == rhs.cols(),
        m.entries() == compressed(product_terms(lhs.entries(), rhs.entries())),
{
    let rows = sparse_rows(rhs);
    let entries = lhs.triplets();
    let nrows: usize = lhs.nrows();
    let ncols: usize = rhs.ncols();
    let ghost right = rhs.entries();
    let mut coo: CooMatrix<T> = CooMatrix::zeros(nrows, ncols);
    let mut i: usize = 0;
    proof {
        assert(entries@.take(0) =~= Seq::<(usize, usize, T)>::empty());
    }
    while i < entries.len()
        invariant
            i <= entries@.len(),
            entries@ == lhs.entries(),
            right == rhs.entries(),
            lhs.wf(),
            rhs.wf(),
            lhs.cols() == rhs.rows(),
            nrows == lhs.rows(),
            ncols == rhs.cols(),
            rows@.len() == rhs.rows(),
            forall|r: int| 0 <= r < rows@.len() ==> (#[trigger] rows@[r])@ == row_list(right, r),
            coo.wf(),
            coo.rows() == nrows,
            coo.cols() == ncols,
            coo.entries() == product_terms(entries@.take(i as int), right),
        decreases entries@.len() - i,
    {
        let (r, k, x) = entries[i];
        let ghost before = coo.entries();
        let ghost terms = row_times(right, k as int, r, x);
        proof {
            assert(entries@[i as int].0 < nrows && entries@[i as int].1 < lhs.cols());
            assert(entries@.take(i + 1).drop_last() =~= entries@.take(i as int));
            assert(entries@.take(i + 1).last() == entries@[i as int]);
            lemma_row_times(right, k as int, r, x);
            lemma_row_list_within(right, rhs.rows() as int, ncols as int, k as int);
        }
        let row = &rows[k];
        let mut j: usize = 0;
        while j < row.len()
            invariant
                j <= row@.len(),
                row@ == row_list(right, k as int),
                r < nrows,
                terms.len() == row@.len(),
                forall|a: int|
                    0 <= a < row@.len() ==> #[trigger] terms[a] == (
                        r,
                        row@[a].0,
                        x.times_spec(row@[a].1),
                    ),
                forall|a: int| 0 <= a < row@.len() ==> (#[trigger] row@[a]).0 < ncols,
                coo.wf(),
                coo.rows() == nrows,
                coo.cols() == ncols,
                coo.entries() =~= before + terms.take(j as int),
            decreases row@.len() - j,
        {
            let (c, y) = row[j];
            proof {
                assert(row@[j as int].0 < ncols);
                assert(terms[j as int] == (r, c, x.times_spec(y)));
            }
            coo.push(r, c, x.times(y));
            j = j + 1;
        }
        proof {
            assert(terms.take(j as int) =~= terms);
        }
        i = i + 1;
    }
    proof {
        assert(entries@.take(i as int) =~= entries@);
    }
    CsrMatrix::from_coo(&coo)
}

/// The product of two matrices without negligible values.
pub fn sparse_matmul<T: Scalar>(lhs: &CsrMatrix<T>, rhs: &CsrMatrix<T>) -> (m: Result<
    CsrMatrix<T>,
    String,
>)
    requires
        lhs.wf(),
        rhs.wf(),
    ensures
        m is Ok <==> lhs.cols() == rhs.rows(),
        match m {
            Ok(m) => {
                &&& m.wf()
                &&& m.rows() == lhs.rows()
                &&& m.cols() == rhs.cols()
                &&& m.entries() == significant(
                    compressed(product_terms(lhs.entries(), rhs.entries())),
                    reciprocal_spec(VALUE_RESOLUTION as nat),
                )
            },
            Err(e) => e@ == "sparse matrix product dimension mismatch: lhs is "@ + shape_text(
                lhs.rows(),
                lhs.cols(),
            ) + ", rhs is "@ + shape_text(rhs.rows(), rhs.cols()),
        },
{
    if lhs.ncols() != rhs.nrows() {
        let mut message = owned("sparse matrix product dimension mismatch: lhs is ");
        push_shape(&mut message, lhs.nrows(), lhs.ncols());
        message.append(", rhs is ");
        push_shape(&mut message, rhs.nrows(), rhs.ncols());
        return Err(message);
    }
    let full = product(lhs, rhs);
    Ok(drop_insignificant(&full, reciprocal(VALUE_RESOLUTION)))
}

/// The product of a matrix and a vector of matching length.
pub fn mul_vec<T: Scalar>(matrix: &CsrMatrix<T>, vector: &[T]) -> (out: Vec<T>)
    requires
        matrix.wf(),
        vector@.len() == matrix.cols(),
    ensures
        out@ == matrix_times(matrix.entries(), matrix.rows(), vector@),
{
    let entries = matrix.triplets();
    let nrows: usize = matrix.nrows();
    let mut out: Vec<T> = zero_vector(nrows);
    let mut i: usize = 0;
    proof {
        assert(entries@.take(0) =~= Seq::<(usize, usize, T)>::empty());
    }
    while i < entries.len()
        invariant
            i <= entries@.len(),
            entries@ == matrix.entries(),
            matrix.wf(),
            vector@.len() == matrix.cols(),
            nrows == matrix.rows(),
            out@ =~= matrix_times(entries@.take(i as int), nrows as nat, vector@),
        decreases entries@.len() - i,
    {
        let (r, c, v) = entries[i];
        proof {
            assert(entries@[i as int].0 < nrows && entries@[i as int].1 < matrix.cols());
            assert(entries@.take(i + 1).drop_last() =~= entries@.take(i as int));
            assert(entries@.take(i + 1).last() == entries@[i as int]);
        }
        out[r] = out[r].plus(v.times(vector[c]));
        i = i + 1;
    }
    proof {
        assert(entries@.take(i as int) =~= entries@);
    }
    out
}

/// The product of a matrix and a vector, if their dimensions agree.
pub fn sparse_mul_vec<T: Scalar>(matrix: &CsrMatrix<T>, vector: &[T]) -> (out: Result<
    Vec<T>,
    String,
>)
    requires
        matrix.wf(),
    ensures
        out is Ok <==> vector@.len() == matrix.cols(),
        match out {
            Ok(out) => out@ == matrix_times(matrix.entries(), matrix.rows(), vector@),
            Err(e) => e@ == "sparse matrix-vector dimension mismatch: matrix has "@ + decimal(
                matrix.cols(),
            ) + " columns but vector has length "@ + decimal(vector@.len()),
        },
{
    if matrix.ncols() != vector.len() {
        let mut message = owned("sparse matrix-vector dimension mismatch: matrix has ");
        push_decimal(&mut message, matrix.ncols());
        message.append(" columns but vector has length ");
        push_decimal(&mut message, vector.len());
        return Err(message);
    }
    Ok(mul_vec(matrix, vector))
}

/// The matrix of the given entries that are not zero.
pub fn csr_from_triplets<T: Scalar>(
    nrows: usize,
    ncols: usize,
    triplets: &[(usize, usize, T)],
) -> (m: CsrMatrix<T>)
    requires
        triplets_within(triplets@, nrows as int, ncols as int),
    ensures
        m.wf(),
        m.rows() == nrows,
        m.cols() == ncols,
        m.entries() == compressed(nonzero(triplets@)),
{
    let mut coo: CooMatrix<T> = CooMatrix::zeros(nrows, ncols);
    let mut i: usize = 0;
    proof {
        assert(triplets@.take(0) =~= Seq::<(usize, usize, T)>::empty());
    }
    while i < triplets.len()
        invariant
            i <= triplets@.len(),
            triplets_within(triplets@, nrows as int, ncols as int),
            coo.wf(),
            coo.rows() == nrows,
            coo.cols() == ncols,
            coo.entries() == nonzero(triplets@.take(i as int)),
        decreases triplets@.len() - i,
    {
        let (r, c, v) = triplets[i];
        proof {
            assert(triplets@[i as int].0 < nrows && triplets@[i as int].1 < ncols);
            assert(triplets@.take(i + 1).drop_last() =~= triplets@.take(i as int));
            assert(triplets@.take(i + 1).last() == triplets@[i as int]);
        }
        if !v.is_zero() {
            coo.push(r, c, v);
        }
        i = i + 1;
    }
    proof {
        assert(triplets@.take(i as int) =~= triplets@);
    }
    CsrMatrix::from_coo(&coo)
}

} // verus!
