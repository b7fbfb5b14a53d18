//! Minors of matrices.

use crate::linalg::dense::DenseMatrix;
use crate::linalg::scalar::Scalar;
use crate::topology::simplex::{simplex_views, Simplex};
use vstd::prelude::*;

verus! {

/// A value, or its opposite at odd places.
pub open spec fn signed<T: Scalar>(place: int, v: T) -> T {
    if place % 2 == 0 {
        v
    } else {
        v.negated_spec()
    }
}

pub fn with_sign<T: Scalar>(place: usize, v: T) -> (r: T)
    ensures
        r == signed(place as int, v),
{
    if place % 2 == 0 {
        v
    } else {
        v.negated()
    }
}

/// The determinant of the part of a matrix in the given rows and columns.
pub open spec fn minor<T: Scalar>(
    m: spec_fn(int, int) -> T,
    rows: Seq<usize>,
    cols: Seq<usize>,
) -> T
    decreases rows.len(), cols.len() + 1,
{
    if rows.len() == 0 {
        T::one_spec()
    } else {
        expansion(m, rows, cols, cols.len())
    }
}

/// The first `n` terms of the expansion of a minor along its first row.
pub open spec fn expansion<T: Scalar>(
    m: spec_fn(int, int) -> T,
    rows: Seq<usize>,
    cols: Seq<usize>,
    n: nat,
) -> T
    decreases rows.len(), n,
{
    if n == 0 || rows.len() == 0 {
        T::zero_spec()
    } else {
        expansion(m, rows, cols, (n - 1) as nat).plus_spec(
            signed(
                n - 1,
                m(rows[0] as int, cols[n - 1] as int).times_spec(
                    minor(m, rows.drop_first(), cols.remove(n - 1)),
                ),
            ),
        )
    }
}

/// The values of a matrix.
pub open spec fn values_of<T: Scalar>(m: DenseMatrix<T>) -> spec_fn(int, int) -> T {
    |i: int, j: int| m.at(i, j)
}

/// A minor depends on the values in its rows and columns only.
pub proof fn minor_same<T: Scalar>(
    f: spec_fn(int, int) -> T,
    g: spec_fn(int, int) -> T,
    rows: Seq<usize>,
    cols: Seq<usize>,
)
    requires
        rows.len() == cols.len(),
        forall|i: int, j: int|
            0 <= i < rows.len() && 0 <= j < cols.len() ==> f(
                #[trigger] rows[i] as int,
                #[trigger] cols[j] as int,
            ) == g(rows[i] as int, cols[j] as int),
    ensures
        minor(f, rows, cols) == minor(g, rows, cols),
    decreases rows.len(), cols.len() + 1,
{
    if rows.len() > 0 {
        expansion_same(f, g, rows, cols, cols.len());
    }
}

proof fn expansion_same<T: Scalar>(
    f: spec_fn(int, int) -> T,
    g: spec_fn(int, int) -> T,
    rows: Seq<usize>,
    cols: Seq<usize>,
    n: nat,
)
    requires
        rows.len() == cols.len(),
        n <= cols.len(),
        forall|i: int, j: int|
            0 <= i < rows.len() && 0 <= j < cols.len() ==> f(
                #[trigger] rows[i] as int,
                #[trigger] cols[j] as int,
            ) == g(rows[i] as int, cols[j] as int),
    ensures
        expansion(f, rows, cols, n) == expansion(g, rows, cols, n),
    decreases rows.len(), n,
{
    if n > 0 {
        expansion_same(f, g, rows, cols, (n - 1) as nat);
        let below = rows.drop_first();
        let rest = cols.remove(n - 1);
        assert forall|i: int, j: int| 0 <= i < below.len() && 0 <= j < rest.len() implies f(
            #[trigger] below[i] as int,
            #[trigger] rest[j] as int,
        ) == g(below[i] as int, rest[j] as int) by {
            assert(below[i] == rows[i + 1]);
            if j < n - 1 {
                assert(rest[j] == cols[j]);
            } else {
                assert(rest[j] == cols[j + 1]);
            }
        }
        minor_same(f, g, below, rest);
        assert(f(rows[0] as int, cols[n - 1] as int) == g(rows[0] as int, cols[n - 1] as int));
    }
}

/// All indices are below a bound.
pub open spec fn all_below(indices: Seq<usize>, n: nat) -> bool {
    forall|i: int| 0 <= i < indices.len() ==> #[trigger] indices[i] < n
}

fn without(indices: &[usize], at: usize) -> (rest: Vec<usize>)
    requires
        at < indices@.len(),
    ensures
        rest@ == indices@.remove(at as int),
{
    let mut rest: Vec<usize> = Vec::new();
    let mut i: usize = 0;
    while i < indices.len()
        invariant
            i <= indices@.len(),
            at < indices@.len(),
            rest@ == if i <= at {
                indices@.take(i as int)
            } else {
                indices@.remove(at as int).take(i - 1)
            },
        decreases indices@.len() - i,
    {
        let ghost before = rest@;
        if i != at {
            rest.push(indices[i]);
        }
        i = i + 1;
        proof {
            if i <= at {
                assert(rest@ =~= indices@.take(i as int));
            } else {
                assert(rest@ =~= indices@.remove(at as int).take(i - 1));
            }
        }
    }
    proof {
        assert(rest@ =~= indices@.remove(at as int));
    }
    rest
}

pub fn minor_of<T: Scalar>(m: &DenseMatrix<T>, rows: &[usize], cols: &[usize]) -> (v: T)
    requires
        m.wf(),
        rows@.len() == cols@.len(),
        all_below(rows@, m.rows()),
        all_below(cols@, m.cols()),
    ensures
        v == minor(values_of(*m), rows@, cols@),
    decreases rows@.len(),
{
    if rows.len() == 0 {
        return T::one();
    }
    let below = without(rows, 0);
    proof {
        assert(below@ =~= rows@.drop_first());
        assert forall|i: int| 0 <= i < below@.len() implies #[trigger] below@[i] < m.rows() by {
            assert(below@[i] == rows@[i + 1]);
        }
    }
    let mut v = T::zero();
    let mut n: usize = 0;
    while n < cols.len()
        invariant
            n <= cols@.len(),
            m.wf(),
            rows@.len() == cols@.len(),
            rows@.len() > 0,
            below@ == rows@.drop_first(),
            all_below(rows@, m.rows()),
            all_below(below@, m.rows()),
            all_below(cols@, m.cols()),
            v == expansion(values_of(*m), rows@, cols@, n as nat),
        decreases cols@.len() - n,
    {
        let rest = without(cols, n);
        proof {
            assert forall|i: int| 0 <= i < rest@.len() implies #[trigger] rest@[i] < m.cols() by {
                if i < n {
                    assert(rest@[i] == cols@[i]);
                } else {
                    assert(rest@[i] == cols@[i + 1]);
                }
            }
        }
        let small = minor_of(m, below.as_slice(), rest.as_slice());
        v = v.plus(with_sign(n, m.get(rows[0], cols[n]).times(small)));
        n = n + 1;
    }
    v
}

/// A matrix of the given size with the given values.
pub open spec fn is_matrix<T: Scalar>(
    m: DenseMatrix<T>,
    rows: nat,
    cols: nat,
    value: spec_fn(int, int) -> T,
) -> bool {
    &&& m.wf()
    &&& m.rows() == rows
    &&& m.cols() == cols
    &&& forall|i: int, j: int|
        0 <= i < rows && 0 <= j < cols ==> #[trigger] m.at(i, j) == value(i, j)
}

/// The minors of a matrix for every set of rows and every set of columns.
pub open spec fn is_compound<T: Scalar>(
    c: DenseMatrix<T>,
    m: DenseMatrix<T>,
    rows: Seq<Seq<usize>>,
    cols: Seq<Seq<usize>>,
) -> bool {
    is_matrix(c, rows.len(), cols.len(), |i: int, j: int| minor(values_of(m), rows[i], cols[j]))
}

/// Sets of indices of one size below a bound.
pub open spec fn are_choices(sets: Seq<Seq<usize>>, size: nat, n: nat) -> bool {
    forall|i: int|
        0 <= i < sets.len() ==> (#[trigger] sets[i]).len() == size && all_below(sets[i], n)
}

pub(crate) fn compound<T: Scalar>(
    m: &DenseMatrix<T>,
    rows: &Vec<Simplex>,
    cols: &Vec<Simplex>,
    Ghost(size): Ghost<nat>,
) -> (c: DenseMatrix<T>)
    requires
        m.wf(),
        are_choices(simplex_views(rows@), size, m.rows()),
        are_choices(simplex_views(cols@), size, m.cols()),
        rows@.len() * cols@.len() <= usize::MAX,
    ensures
        is_compound(c, *m, simplex_views(rows@), simplex_views(cols@)),
{
    let ghost row_sets = simplex_views(rows@);
    let ghost col_sets = simplex_views(cols@);
    let mut c = DenseMatrix::zeros(rows.len(), cols.len());
    let mut i: usize = 0;
    while i < rows.len()
        invariant
            i <= rows@.len(),
            m.wf(),
            c.wf(),
            c.rows() == rows@.len(),
            c.cols() == cols@.len(),
            row_sets == simplex_views(rows@),
            col_sets == simplex_views(cols@),
            are_choices(row_sets, size, m.rows()),
            are_choices(col_sets, size, m.cols()),
            forall|r: int, s: int|
                0 <= r < i && 0 <= s < cols@.len() ==> #[trigger] c.at(r, s) == minor(values_of(*m), row_sets[r],
                    col_sets[s],
                ),
        decreases rows@.len() - i,
    {
        let mut j: usize = 0;
        while j < cols.len()
            invariant
                i < rows@.len(),
                j <= cols@.len(),
                m.wf(),
                c.wf(),
                c.rows() == rows@.len(),
                c.cols() == cols@.len(),
                row_sets == simplex_views(rows@),
                col_sets == simplex_views(cols@),
                are_choices(row_sets, size, m.rows()),
                are_choices(col_sets, size, m.cols()),
                forall|r: int, s: int|
                    0 <= r < rows@.len() && 0 <= s < cols@.len() && (r < i || (r == i && s < j))
                        ==> #[trigger] c.at(r, s) == minor(values_of(*m), row_sets[r], col_sets[s]),
            decreases cols@.len() - j,
        {
            proof {
                assert(row_sets[i as int] == rows@[i as int]@);
                assert(col_sets[j as int] == cols@[j as int]@);
            }
            let v = minor_of(m, rows[i].vertices.as_slice(), cols[j].vertices.as_slice());
            c.set(i, j, v);
            j = j + 1;
        }
        i = i + 1;
    }
    c
}

} // verus!
