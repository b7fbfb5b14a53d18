//! Dense matrices.

use crate::linalg::scalar::Scalar;
use vstd::prelude::*;

verus! {

/// A dense matrix, held row by row.
#[derive(Debug, Clone, PartialEq)]
pub struct DenseMatrix<T> {
    nrows: usize,
    ncols: usize,
    values: Vec<T>,
}

proof fn lemma_place(i: int, j: int, n: int, m: int)
    requires
        0 <= i < n,
        0 <= j < m,
    ensures
        0 <= i * m + j < n * m,
{
    assert(0 <= i * m + j < n * m) by (nonlinear_arith)
        requires
            0 <= i < n,
            0 <= j < m,
    ;
}

proof fn lemma_places_differ(i: int, j: int, r: int, c: int, m: int)
    requires
        0 <= j < m,
        0 <= c < m,
        i * m + j == r * m + c,
    ensures
        i == r,
        j == c,
{
    assert(i == r) by (nonlinear_arith)
        requires
            0 <= j < m,
            0 <= c < m,
            i * m + j == r * m + c,
    ;
}

impl<T: Scalar> DenseMatrix<T> {
    pub closed spec fn rows(&self) -> nat {
        self.nrows as nat
    }

    pub closed spec fn cols(&self) -> nat {
        self.ncols as nat
    }

    /// The value in row `i` and column `j`.
    pub closed spec fn at(&self, i: int, j: int) -> T {
        self.values@[i * self.ncols + j]
    }

    /// The values, row by row.
    pub closed spec fn listed(&self) -> Seq<T> {
        self.values@
    }

    pub closed spec fn wf(&self) -> bool {
        self.values@.len() == self.nrows * self.ncols
    }

    /// The list holds the value in row `i` and column `j` at place `i * cols + j`.
    pub proof fn listed_at(&self)
        requires
            self.wf(),
        ensures
            self.listed().len() == self.rows() * self.cols(),
            forall|i: int, j: int|
                0 <= i < self.rows() && 0 <= j < self.cols() ==> #[trigger] self.at(i, j)
                    == self.listed()[i * self.cols() + j],
    {
    }

    pub fn nrows(&self) -> (n: usize)
        ensures
            n == self.rows(),
    {
        self.nrows
    }

    pub fn ncols(&self) -> (n: usize)
        ensures
            n == self.cols(),
    {
        self.ncols
    }

    /// The values, row by row.
    pub fn as_slice(&self) -> (values: &[T])
        ensures
            values@ == self.listed(),
    {
        self.values.as_slice()
    }

    /// A matrix of zeros.
    pub fn zeros(nrows: usize, ncols: usize) -> (m: Self)
        requires
            nrows * ncols <= usize::MAX,
        ensures
            m.wf(),
            m.rows() == nrows,
            m.cols() == ncols,
            forall|i: int, j: int|
                0 <= i < nrows && 0 <= j < ncols ==> #[trigger] m.at(i, j) == T::zero_spec(),
    {
        let n: usize = nrows * ncols;
        let mut values: Vec<T> = Vec::new();
        let mut p: usize = 0;
        while p < n
            invariant
                p <= n,
                values@.len() == p,
                forall|q: int| 0 <= q < p ==> #[trigger] values@[q] == T::zero_spec(),
            decreases n - p,
        {
            values.push(T::zero());
            p = p + 1;
        }
        let m = DenseMatrix { nrows, ncols, values };
        proof {
            assert forall|i: int, j: int| 0 <= i < nrows && 0 <= j < ncols implies #[trigger] m.at(
                i,
                j,
            ) == T::zero_spec() by {
                lemma_place(i, j, nrows as int, ncols as int);
            }
        }
        m
    }

    /// The matrix with the given values, row by row.
    pub fn from_rows(nrows: usize, ncols: usize, values: Vec<T>) -> (m: Self)
        requires
            values@.len() == nrows * ncols,
        ensures
            m.wf(),
            m.rows() == nrows,
            m.cols() == ncols,
            m.listed() == values@,
    {
        DenseMatrix { nrows, ncols, values }
    }

    pub fn get(&self, i: usize, j: usize) -> (v: T)
        requires
            self.wf(),
            i < self.rows(),
            j < self.cols(),
        ensures
            v == self.at(i as int, j as int),
    {
        let len: usize = self.values.len();
        proof {
            assert(len == self.nrows * self.ncols);
            lemma_place(i as int, j as int, self.nrows as int, self.ncols as int);
            assert(0 <= i * self.ncols) by (nonlinear_arith);
        }
        self.values[i * self.ncols + j]
    }

    pub fn set(&mut self, i: usize, j: usize, v: T)
        requires
            old(self).wf(),
            i < old(self).rows(),
            j < old(self).cols(),
        ensures
            final(self).wf(),
            final(self).rows() == old(self).rows(),
            final(self).cols() == old(self).cols(),
            forall|r: int, c: int|
                0 <= r < old(self).rows() && 0 <= c < old(self).cols() ==> (
                #[trigger] final(self).at(r, c)) == (if r == i && c == j {
                    v
                } else {
                    old(self).at(r, c)
                }),
    {
        let m: usize = self.ncols;
        let len: usize = self.values.len();
        proof {
            assert(len == self.nrows * m);
            lemma_place(i as int, j as int, self.nrows as int, m as int);
            assert(0 <= i * m) by (nonlinear_arith);
        }
        let ghost before = *self;
        let p: usize = i * m + j;
        self.values.set(p, v);
        proof {
            assert forall|r: int, c: int| 0 <= r < before.rows() && 0 <= c < before.cols() implies
                #[trigger] self.at(r, c) == (if r == i && c == j {
                v
            } else {
                before.at(r, c)
            }) by {
                lemma_place(r, c, before.nrows as int, m as int);
                if r * m + c == p {
                    lemma_places_differ(r, c, i as int, j as int, m as int);
                }
            }
        }
    }
}

/// The first `n` terms of a row times a column, added up from zero.
pub open spec fn dot_to<T: Scalar>(
    a: DenseMatrix<T>,
    b: DenseMatrix<T>,
    i: int,
    j: int,
    n: int,
) -> T
    decreases n,
{
    if n <= 0 {
        T::zero_spec()
    } else {
        dot_to(a, b, i, j, n - 1).plus_spec(a.at(i, n - 1).times_spec(b.at(n - 1, j)))
    }
}

/// Products of terms, added up from zero.
pub open spec fn sum_products<T: Scalar>(f: spec_fn(int) -> T, g: spec_fn(int) -> T, n: int) -> T
    decreases n,
{
    if n <= 0 {
        T::zero_spec()
    } else {
        sum_products(f, g, n - 1).plus_spec(f(n - 1).times_spec(g(n - 1)))
    }
}

/// A row times a column depends on their values only.
pub proof fn dot_to_is<T: Scalar>(
    a: DenseMatrix<T>,
    b: DenseMatrix<T>,
    i: int,
    j: int,
    n: int,
    f: spec_fn(int) -> T,
    g: spec_fn(int) -> T,
)
    requires
        forall|k: int| 0 <= k < n ==> #[trigger] a.at(i, k) == f(k),
        forall|k: int| 0 <= k < n ==> #[trigger] b.at(k, j) == g(k),
    ensures
        dot_to(a, b, i, j, n) == sum_products(f, g, n),
    decreases n,
{
    if n > 0 {
        dot_to_is(a, b, i, j, n - 1, f, g);
        assert(a.at(i, n - 1) == f(n - 1));
        assert(b.at(n - 1, j) == g(n - 1));
    }
}

/// A sum of products depends on the terms below `n` only.
pub proof fn sum_products_same<T: Scalar>(
    f: spec_fn(int) -> T,
    g: spec_fn(int) -> T,
    h: spec_fn(int) -> T,
    k: spec_fn(int) -> T,
    n: int,
)
    requires
        forall|i: int| 0 <= i < n ==> #[trigger] f(i) == h(i),
        forall|i: int| 0 <= i < n ==> #[trigger] g(i) == k(i),
    ensures
        sum_products(f, g, n) == sum_products(h, k, n),
    decreases n,
{
    if n > 0 {
        sum_products_same(f, g, h, k, n - 1);
        assert(f(n - 1) == h(n - 1));
        assert(g(n - 1) == k(n - 1));
    }
}

/// The first `n` values on the diagonal, added up from zero.
pub open spec fn trace_to<T: Scalar>(a: DenseMatrix<T>, n: int) -> T
    decreases n,
{
    if n <= 0 {
        T::zero_spec()
    } else {
        trace_to(a, n - 1).plus_spec(a.at(n - 1, n - 1))
    }
}

/// The product of two matrices.
pub open spec fn is_product<T: Scalar>(
    m: DenseMatrix<T>,
    a: DenseMatrix<T>,
    b: DenseMatrix<T>,
) -> bool {
    &&& m.wf()
    &&& m.rows() == a.rows()
    &&& m.cols() == b.cols()
    &&& forall|i: int, j: int|
        0 <= i < m.rows() && 0 <= j < m.cols() ==> #[trigger] m.at(i, j) == dot_to(
            a,
            b,
            i,
            j,
            a.cols() as int,
        )
}

/// The same matrix with rows and columns interchanged.
pub open spec fn is_transpose<T: Scalar>(m: DenseMatrix<T>, a: DenseMatrix<T>) -> bool {
    &&& m.wf()
    &&& m.rows() == a.cols()
    &&& m.cols() == a.rows()
    &&& forall|i: int, j: int|
        0 <= i < m.rows() && 0 <= j < m.cols() ==> #[trigger] m.at(i, j) == a.at(j, i)
}

/// A multiple of the identity.
pub open spec fn is_diagonal<T: Scalar>(m: DenseMatrix<T>, n: nat, v: T) -> bool {
    &&& m.wf()
    &&& m.rows() == n
    &&& m.cols() == n
    &&& forall|i: int, j: int|
        0 <= i < n && 0 <= j < n ==> #[trigger] m.at(i, j) == (if i == j {
            v
        } else {
            T::zero_spec()
        })
}

/// Each value of a matrix by the same operation.
pub open spec fn is_mapped<T: Scalar>(
    m: DenseMatrix<T>,
    a: DenseMatrix<T>,
    f: spec_fn(T) -> T,
) -> bool {
    &&& m.wf()
    &&& m.rows() == a.rows()
    &&& m.cols() == a.cols()
    &&& forall|i: int, j: int|
        0 <= i < m.rows() && 0 <= j < m.cols() ==> #[trigger] m.at(i, j) == f(a.at(i, j))
}

/// The values of two matrices of the same shape, place by place.
pub open spec fn is_zipped<T: Scalar>(
    m: DenseMatrix<T>,
    a: DenseMatrix<T>,
    b: DenseMatrix<T>,
    f: spec_fn(T, T) -> T,
) -> bool {
    &&& m.wf()
    &&& m.rows() == a.rows()
    &&& m.cols() == a.cols()
    &&& forall|i: int, j: int|
        0 <= i < m.rows() && 0 <= j < m.cols() ==> #[trigger] m.at(i, j) == f(
            a.at(i, j),
            b.at(i, j),
        )
}

impl<T: Scalar> DenseMatrix<T> {
    /// The product with another matrix.
    pub fn product(&self, other: &Self) -> (m: Self)
        requires
            self.wf(),
            other.wf(),
            self.cols() == other.rows(),
            self.rows() * other.cols() <= usize::MAX,
        ensures
            is_product(m, *self, *other),
    {
        let mut m = DenseMatrix::zeros(self.nrows, other.ncols);
        let mut i: usize = 0;
        while i < self.nrows
            invariant
                i <= self.nrows,
                self.wf(),
                other.wf(),
                self.cols() == other.rows(),
                m.wf(),
                m.rows() == self.rows(),
                m.cols() == other.cols(),
                forall|r: int, c: int|
                    0 <= r < i && 0 <= c < m.cols() ==> #[trigger] m.at(r, c) == dot_to(
                        *self,
                        *other,
                        r,
                        c,
                        self.cols() as int,
                    ),
            decreases self.nrows - i,
        {
            let mut j: usize = 0;
            while j < other.ncols
                invariant
                    j <= other.ncols,
                    i < self.nrows,
                    self.wf(),
                    other.wf(),
                    self.cols() == other.rows(),
                    m.wf(),
                    m.rows() == self.rows(),
                    m.cols() == other.cols(),
                    forall|r: int, c: int|
                        0 <= r <= i && 0 <= c < m.cols() && (r < i || c < j) ==> #[trigger] m.at(
                            r,
                            c,
                        ) == dot_to(*self, *other, r, c, self.cols() as int),
                decreases other.ncols - j,
            {
                let mut sum = T::zero();
                let mut k: usize = 0;
                while k < self.ncols
                    invariant
                        k <= self.ncols,
                        i < self.nrows,
                        j < other.ncols,
                        self.wf(),
                        other.wf(),
                        self.cols() == other.rows(),
                        sum == dot_to(*self, *other, i as int, j as int, k as int),
                    decreases self.ncols - k,
                {
                    sum = sum.plus(self.get(i, k).times(other.get(k, j)));
                    k = k + 1;
                }
                m.set(i, j, sum);
                j = j + 1;
            }
            i = i + 1;
        }
        m
    }

    /// The transposed matrix.
    pub fn transpose(&self) -> (m: Self)
        requires
            self.wf(),
            self.rows() * self.cols() <= usize::MAX,
        ensures
            is_transpose(m, *self),
    {
        proof {
            assert(self.cols() * self.rows() == self.rows() * self.cols()) by (nonlinear_arith);
        }
        let mut m = DenseMatrix::zeros(self.ncols, self.nrows);
        let mut i: usize = 0;
        while i < self.ncols
            invariant
                i <= self.ncols,
                self.wf(),
                m.wf(),
                m.rows() == self.cols(),
                m.cols() == self.rows(),
                forall|r: int, c: int|
                    0 <= r < i && 0 <= c < m.cols() ==> #[trigger] m.at(r, c) == self.at(c, r),
            decreases self.ncols - i,
        {
            let mut j: usize = 0;
            while j < self.nrows
                invariant
                    j <= self.nrows,
                    i < self.ncols,
                    self.wf(),
                    m.wf(),
                    m.rows() == self.cols(),
                    m.cols() == self.rows(),
                    forall|r: int, c: int|
                        0 <= r <= i && 0 <= c < m.cols() && (r < i || c < j) ==> #[trigger] m.at(
                            r,
                            c,
                        ) == self.at(c, r),
                decreases self.nrows - j,
            {
                m.set(i, j, self.get(j, i));
                j = j + 1;
            }
            i = i + 1;
        }
        m
    }

    /// A multiple of the identity.
    pub fn diagonal(n: usize, v: T) -> (m: Self)
        requires
            n * n <= usize::MAX,
        ensures
            is_diagonal(m, n as nat, v),
    {
        let mut m = DenseMatrix::zeros(n, n);
        let mut i: usize = 0;
        while i < n
            invariant
                i <= n,
                m.wf(),
                m.rows() == n,
                m.cols() == n,
                forall|r: int, c: int|
                    0 <= r < n && 0 <= c < n ==> #[trigger] m.at(r, c) == (if r == c && r < i {
                        v
                    } else {
                        T::zero_spec()
                    }),
            decreases n - i,
        {
            m.set(i, i, v);
            i = i + 1;
        }
        m
    }

    /// The sum of the values on the diagonal.
    pub fn trace(&self) -> (t: T)
        requires
            self.wf(),
            self.rows() == self.cols(),
        ensures
            t == trace_to(*self, self.rows() as int),
    {
        let mut t = T::zero();
        let mut i: usize = 0;
        while i < self.nrows
            invariant
                i <= self.nrows,
                self.wf(),
                self.rows() == self.cols(),
                t == trace_to(*self, i as int),
            decreases self.nrows - i,
        {
            t = t.plus(self.get(i, i));
            i = i + 1;
        }
        t
    }

    /// Each value times a factor.
    pub fn scaled(&self, factor: T) -> (m: Self)
        requires
            self.wf(),
        ensures
            is_mapped(m, *self, |x: T| x.times_spec(factor)),
    {
        let mut values: Vec<T> = Vec::new();
        let mut p: usize = 0;
        while p < self.values.len()
            invariant
                p <= self.values@.len(),
                values@.len() == p,
                forall|q: int|
                    0 <= q < p ==> #[trigger] values@[q] == self.values@[q].times_spec(factor),
            decreases self.values@.len() - p,
        {
            values.push(self.values[p].times(factor));
            p = p + 1;
        }
        let m = DenseMatrix { nrows: self.nrows, ncols: self.ncols, values };
        proof {
            assert forall|i: int, j: int| 0 <= i < m.rows() && 0 <= j < m.cols() implies
                #[trigger] m.at(i, j) == self.at(i, j).times_spec(factor) by {
                lemma_place(i, j, m.nrows as int, m.ncols as int);
            }
        }
        m
    }

    /// Each value by a divisor.
    pub fn divided(&self, divisor: T) -> (m: Self)
        requires
            self.wf(),
        ensures
            is_mapped(m, *self, |x: T| x.over_spec(divisor)),
    {
        let mut values: Vec<T> = Vec::new();
        let mut p: usize = 0;
        while p < self.values.len()
            invariant
                p <= self.values@.len(),
                values@.len() == p,
                forall|q: int|
                    0 <= q < p ==> #[trigger] values@[q] == self.values@[q].over_spec(divisor),
            decreases self.values@.len() - p,
        {
            values.push(self.values[p].over(divisor));
            p = p + 1;
        }
        let m = DenseMatrix { nrows: self.nrows, ncols: self.ncols, values };
        proof {
            assert forall|i: int, j: int| 0 <= i < m.rows() && 0 <= j < m.cols() implies
                #[trigger] m.at(i, j) == self.at(i, j).over_spec(divisor) by {
                lemma_place(i, j, m.nrows as int, m.ncols as int);
            }
        }
        m
    }

    /// The sum with a matrix of the same shape.
    pub fn sum(&self, other: &Self) -> (m: Self)
        requires
            self.wf(),
            other.wf(),
            self.rows() == other.rows(),
            self.cols() == other.cols(),
        ensures
            is_zipped(m, *self, *other, |x: T, y: T| x.plus_spec(y)),
    {
        let mut values: Vec<T> = Vec::new();
        let mut p: usize = 0;
        while p < self.values.len()
            invariant
                p <= self.values@.len(),
                self.values@.len() == other.values@.len(),
                values@.len() == p,
                forall|q: int|
                    0 <= q < p ==> #[trigger] values@[q] == self.values@[q].plus_spec(
                        other.values@[q],
                    ),
            decreases self.values@.len() - p,
        {
            values.push(self.values[p].plus(other.values[p]));
            p = p + 1;
        }
        let m = DenseMatrix { nrows: self.nrows, ncols: self.ncols, values };
        proof {
            assert forall|i: int, j: int| 0 <= i < m.rows() && 0 <= j < m.cols() implies
                #[trigger] m.at(i, j) == self.at(i, j).plus_spec(other.at(i, j)) by {
                lemma_place(i, j, m.nrows as int, m.ncols as int);
            }
        }
        m
    }

    /// The difference to a matrix of the same shape.
    pub fn difference(&self, other: &Self) -> (m: Self)
        requires
            self.wf(),
            other.wf(),
            self.rows() == other.rows(),
            self.cols() == other.cols(),
        ensures
            is_zipped(m, *self, *other, |x: T, y: T| x.minus_spec(y)),
    {
        let mut values: Vec<T> = Vec::new();
        let mut p: usize = 0;
        while p < self.values.len()
            invariant
                p <= self.values@.len(),
                self.values@.len() == other.values@.len(),
                values@.len() == p,
                forall|q: int|
                    0 <= q < p ==> #[trigger] values@[q] == self.values@[q].minus_spec(
                        other.values@[q],
                    ),
            decreases self.values@.len() - p,
        {
            values.push(self.values[p].minus(other.values[p]));
            p = p + 1;
        }
        let m = DenseMatrix { nrows: self.nrows, ncols: self.ncols, values };
        proof {
            assert forall|i: int, j: int| 0 <= i < m.rows() && 0 <= j < m.cols() implies
                #[trigger] m.at(i, j) == self.at(i, j).minus_spec(other.at(i, j)) by {
                lemma_place(i, j, m.nrows as int, m.ncols as int);
            }
        }
        m
    }
}

/// The determinant of two rows and two columns.
pub open spec fn minor<T: Scalar>(
    m: spec_fn(int, int) -> T,
    r: int,
    s: int,
    c: int,
    d: int,
) -> T {
    m(r, c).times_spec(m(s, d)).minus_spec(m(s, c).times_spec(m(r, d)))
}

/// The determinant of a matrix of three rows.
pub open spec fn determinant3<T: Scalar>(m: spec_fn(int, int) -> T) -> T {
    m(0, 0).times_spec(minor(m, 1, 2, 1, 2)).minus_spec(
        m(0, 1).times_spec(minor(m, 1, 2, 0, 2)),
    ).plus_spec(m(0, 2).times_spec(minor(m, 1, 2, 0, 1)))
}

/// The adjugate of a matrix of three rows.
pub open spec fn adjugate3<T: Scalar>(m: spec_fn(int, int) -> T, i: int, j: int) -> T {
    if i == 0 {
        if j == 0 {
            minor(m, 1, 2, 1, 2)
        } else if j == 1 {
            m(0, 2).times_spec(m(2, 1)).minus_spec(m(2, 2).times_spec(m(0, 1)))
        } else {
            minor(m, 0, 1, 1, 2)
        }
    } else if i == 1 {
        if j == 0 {
            minor(m, 1, 2, 0, 2).negated_spec()
        } else if j == 1 {
            minor(m, 0, 2, 0, 2)
        } else {
            m(0, 2).times_spec(m(1, 0)).minus_spec(m(1, 2).times_spec(m(0, 0)))
        }
    } else {
        if j == 0 {
            minor(m, 1, 2, 0, 1)
        } else if j == 1 {
            m(0, 1).times_spec(m(2, 0)).minus_spec(m(2, 1).times_spec(m(0, 0)))
        } else {
            minor(m, 0, 1, 0, 1)
        }
    }
}

impl<T: Scalar> DenseMatrix<T> {
    /// The values by row and column.
    pub open spec fn values_fn(self) -> spec_fn(int, int) -> T {
        |i: int, j: int| self.at(i, j)
    }

    fn minor_of(&self, r: usize, s: usize, c: usize, d: usize) -> (v: T)
        requires
            self.wf(),
            self.rows() == 3,
            self.cols() == 3,
            r < 3,
            s < 3,
            c < 3,
            d < 3,
        ensures
            v == minor(self.values_fn(), r as int, s as int, c as int, d as int),
    {
        self.get(r, c).times(self.get(s, d)).minus(self.get(s, c).times(self.get(r, d)))
    }

    /// The inverse of a matrix of three rows: the adjugate by the determinant, unless the
    /// determinant is zero.
    pub fn inverse3(&self) -> (inverse: Option<Self>)
        requires
            self.wf(),
            self.rows() == 3,
            self.cols() == 3,
        ensures
            inverse is None == determinant3(self.values_fn()).is_zero_spec(),
            inverse matches Some(m) ==> {
                &&& m.wf()
                &&& m.rows() == 3
                &&& m.cols() == 3
                &&& forall|i: int, j: int|
                    0 <= i < 3 && 0 <= j < 3 ==> #[trigger] m.at(i, j) == adjugate3(
                        self.values_fn(),
                        i,
                        j,
                    ).over_spec(determinant3(self.values_fn()))
            },
    {
        let minor00 = self.minor_of(1, 2, 1, 2);
        let minor01 = self.minor_of(1, 2, 0, 2);
        let minor02 = self.minor_of(1, 2, 0, 1);
        let det = self.get(0, 0).times(minor00).minus(self.get(0, 1).times(minor01)).plus(
            self.get(0, 2).times(minor02),
        );
        if det.is_zero() {
            return None;
        }
        let a01 = self.get(0, 2).times(self.get(2, 1)).minus(
            self.get(2, 2).times(self.get(0, 1)),
        );
        let a02 = self.minor_of(0, 1, 1, 2);
        let a11 = self.minor_of(0, 2, 0, 2);
        let a12 = self.get(0, 2).times(self.get(1, 0)).minus(
            self.get(1, 2).times(self.get(0, 0)),
        );
        let a21 = self.get(0, 1).times(self.get(2, 0)).minus(
            self.get(2, 1).times(self.get(0, 0)),
        );
        let a22 = self.minor_of(0, 1, 0, 1);
        proof {
            assert(3int * 3int == 9) by (nonlinear_arith);
        }
        let mut m = DenseMatrix::zeros(3, 3);
        m.set(0, 0, minor00.over(det));
        m.set(0, 1, a01.over(det));
        m.set(0, 2, a02.over(det));
        m.set(1, 0, minor01.negated().over(det));
        m.set(1, 1, a11.over(det));
        m.set(1, 2, a12.over(det));
        m.set(2, 0, minor02.over(det));
        m.set(2, 1, a21.over(det));
        m.set(2, 2, a22.over(det));
        Some(m)
    }
}

} // verus!
