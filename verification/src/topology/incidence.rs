//! Incidence matrices of a complex: boundary operators and exterior derivatives.

use crate::linalg::sparse::{
    all_unset, int_at, int_at_concat, int_at_restricted, int_at_transposed, none_set, restricted,
    restricted_by_nothing, sum_over_kept, transposed, triplets_within, unset_before,
};
use crate::linalg::sparse::{positions, CooMatrix};
use crate::linalg::sums::{
    alternating_double_sum, int_sum, sum_ext, sum_reverse, sum_scale, sum_single, sum_swap,
    sum_zero,
};
use crate::topology::complex::Complex;
use crate::topology::simplex::{boundary_faces, parity_sign, remove_twice, signed_views};
use crate::topology::simplex::Dim;
use vstd::prelude::*;

verus! {

/// The boundary of simplex `sup`, which is column `c`, in terms of the faces listed in `subs`.
pub open spec fn boundary_column(sup: Seq<usize>, c: int, subs: Seq<Seq<usize>>) -> Seq<
    (usize, usize, i64),
> {
    Seq::new(
        sup.len(),
        |i: int|
            (
                subs.index_of(boundary_faces(sup)[i].0) as usize,
                c as usize,
                boundary_faces(sup)[i].1 as i64,
            ),
    )
}

/// The boundaries of the simplices `sups`, column by column.
pub open spec fn incidence(sups: Seq<Seq<usize>>, subs: Seq<Seq<usize>>) -> Seq<
    (usize, usize, i64),
>
    decreases sups.len(),
{
    if sups.len() == 0 {
        Seq::empty()
    } else {
        incidence(sups.drop_last(), subs) + boundary_column(sups.last(), sups.len() - 1, subs)
    }
}

/// The sign with which `sub` occurs in the boundary of `sup`: the sum over the vertices
/// of `sup` whose removal leaves `sub`, of the sign of their position.
pub open spec fn incidence_number(sup: Seq<usize>, sub: Seq<usize>) -> int {
    int_sum(sup.len() as int, |j: int| face_sign(sup, sub, j))
}

/// The sign of position `j`, if leaving out vertex `j` of `sup` gives `sub`.
pub open spec fn face_sign(sup: Seq<usize>, sub: Seq<usize>, j: int) -> int {
    if sup.remove(j) == sub {
        parity_sign(j)
    } else {
        0
    }
}

/// Every face of every simplex of `sups` is listed in `subs`, which lists nothing twice.
pub open spec fn faces_listed(sups: Seq<Seq<usize>>, subs: Seq<Seq<usize>>, k: int) -> bool {
    &&& subs.no_duplicates()
    &&& subs.len() <= usize::MAX
    &&& sups.len() <= usize::MAX
    &&& forall|c: int| 0 <= c < sups.len() ==> (#[trigger] sups[c]).len() == k + 1
    &&& forall|c: int, j: int|
        0 <= c < sups.len() && 0 <= j <= k ==> subs.contains(#[trigger] sups[c].remove(j))
}

proof fn lemma_index_of(subs: Seq<Seq<usize>>, face: Seq<usize>, r: int)
    requires
        subs.no_duplicates(),
        subs.contains(face),
        0 <= r < subs.len(),
    ensures
        0 <= subs.index_of(face) < subs.len(),
        subs[subs.index_of(face)] == face,
        subs.index_of(face) == r <==> subs[r] == face,
{
    let i = choose|i: int| 0 <= i < subs.len() && subs[i] == face;
    assert(0 <= subs.index_of(face) < subs.len() && subs[subs.index_of(face)] == face);
}

proof fn lemma_column_prefix(
    sup: Seq<usize>,
    c: int,
    subs: Seq<Seq<usize>>,
    n: int,
    r: int,
    col: int,
)
    requires
        subs.no_duplicates(),
        subs.len() <= usize::MAX,
        forall|j: int| 0 <= j < sup.len() ==> subs.contains(#[trigger] sup.remove(j)),
        0 <= n <= sup.len(),
        0 <= r < subs.len(),
        0 <= c <= usize::MAX,
    ensures
        int_at(boundary_column(sup, c, subs).take(n), r, col) == (if col == c {
            int_sum(n, |i: int| face_sign(sup, subs[r], sup.len() - 1 - i))
        } else {
            0
        }),
    decreases n,
{
    let column = boundary_column(sup, c, subs);
    if n > 0 {
        lemma_column_prefix(sup, c, subs, n - 1, r, col);
        assert(column.take(n).drop_last() =~= column.take(n - 1));
        let face = sup.remove(sup.len() - 1 - (n - 1));
        assert(subs.contains(face));
        lemma_index_of(subs, face, r);
        assert(column.take(n).last() == column[n - 1]);
        assert(boundary_faces(sup)[n - 1].0 == face);
    }
}

/// What the boundary column of a simplex holds at row `r`: the incidence number of the
/// simplex and the `r`-th face; nothing in any other column.
proof fn lemma_column(sup: Seq<usize>, c: int, subs: Seq<Seq<usize>>, r: int, col: int)
    requires
        subs.no_duplicates(),
        subs.len() <= usize::MAX,
        forall|j: int| 0 <= j < sup.len() ==> subs.contains(#[trigger] sup.remove(j)),
        0 <= r < subs.len(),
        0 <= c <= usize::MAX,
    ensures
        int_at(boundary_column(sup, c, subs), r, col) == (if col == c {
            incidence_number(sup, subs[r])
        } else {
            0
        }),
{
    let n = sup.len() as int;
    lemma_column_prefix(sup, c, subs, n, r, col);
    assert(boundary_column(sup, c, subs).take(n) =~= boundary_column(sup, c, subs));
    let term = |j: int| face_sign(sup, subs[r], j);
    sum_reverse(n, term);
    sum_ext(n, |i: int| term(n - 1 - i), |i: int| face_sign(sup, subs[r], n - 1 - i));
}

/// The incidence matrix holds at row `r` and column `c` the incidence number of
/// the `c`-th simplex and the `r`-th face.
pub proof fn incidence_entry(
    sups: Seq<Seq<usize>>,
    subs: Seq<Seq<usize>>,
    k: int,
    r: int,
    c: int,
)
    requires
        faces_listed(sups, subs, k),
        0 <= r < subs.len(),
        0 <= c,
    ensures
        int_at(incidence(sups, subs), r, c) == (if c < sups.len() {
            incidence_number(sups[c], subs[r])
        } else {
            0
        }),
    decreases sups.len(),
{
    if sups.len() > 0 {
        let front = sups.drop_last();
        assert forall|d: int| 0 <= d < front.len() implies (#[trigger] front[d]).len() == k + 1 by {
            assert(front[d] == sups[d]);
        }
        assert forall|d: int, j: int| 0 <= d < front.len() && 0 <= j <= k implies subs.contains(
            #[trigger] front[d].remove(j),
        ) by {
            assert(front[d] == sups[d]);
            assert(subs.contains(sups[d].remove(j)));
        }
        incidence_entry(front, subs, k, r, c);
        let last = sups.len() - 1;
        assert(sups[last].len() == k + 1);
        assert forall|j: int| 0 <= j < sups.last().len() implies subs.contains(
            #[trigger] sups.last().remove(j),
        ) by {
            assert(subs.contains(sups[last].remove(j)));
        }
        lemma_column(sups.last(), last, subs, r, c);
        int_at_concat(incidence(front, subs), boundary_column(sups.last(), last, subs), r, c);
    }
}

/// The entry at row `p` and column `c` of the product of two boundary operators.
pub open spec fn product_at(
    lower: Seq<(usize, usize, i64)>,
    upper: Seq<(usize, usize, i64)>,
    inner: int,
    p: int,
    c: int,
) -> int {
    int_sum(inner, |r: int| int_at(lower, p, r) * int_at(upper, r, c))
}

proof fn lemma_parity_product(j: int, l: int)
    requires
        0 <= l < j,
    ensures
        parity_sign(j) * parity_sign(l) == -(parity_sign(l) * parity_sign(j - 1)),
{
    assert(parity_sign(j) == -parity_sign(j - 1));
    assert(-parity_sign(j - 1) * parity_sign(l) == -(parity_sign(l) * parity_sign(j - 1)))
        by (nonlinear_arith);
}

proof fn lemma_scaled_incidence(face: Seq<usize>, target: Seq<usize>, a: int)
    ensures
        int_sum(face.len() as int, |l: int| a * face_sign(face, target, l)) == a * incidence_number(
            face,
            target,
        ),
{
    let f = |l: int| face_sign(face, target, l);
    sum_scale(face.len() as int, a, f);
    sum_ext(face.len() as int, |l: int| a * f(l), |l: int| a * face_sign(face, target, l));
}

/// The signed count of the ways to reach `target` from `simplex` by leaving out two
/// vertices one after the other is zero.
pub proof fn double_faces_cancel(simplex: Seq<usize>, target: Seq<usize>)
    ensures
        int_sum(
            simplex.len() as int,
            |j: int| parity_sign(j) * incidence_number(simplex.remove(j), target),
        ) == 0,
{
    let n = simplex.len() as int;
    let g = |j: int, l: int| parity_sign(j) * face_sign(simplex.remove(j), target, l);
    assert forall|j: int, l: int| 0 <= l < j < n implies #[trigger] g(j, l) == -g(l, j - 1) by {
        remove_twice(simplex, j, l);
        lemma_parity_product(j, l);
    }
    alternating_double_sum(n, g);
    let rows = |j: int| int_sum(n - 1, |l: int| g(j, l));
    let terms = |j: int| parity_sign(j) * incidence_number(simplex.remove(j), target);
    assert forall|j: int| 0 <= j < n implies #[trigger] rows(j) == terms(j) by {
        lemma_scaled_incidence(simplex.remove(j), target, parity_sign(j));
        sum_ext(
            n - 1,
            |l: int| g(j, l),
            |l: int| parity_sign(j) * face_sign(simplex.remove(j), target, l),
        );
    }
    sum_ext(n, rows, terms);
}

/// The boundary of a boundary is zero, for lists of simplices closed under faces.
pub proof fn boundary_squared(
    tops: Seq<Seq<usize>>,
    mids: Seq<Seq<usize>>,
    lows: Seq<Seq<usize>>,
    k: int,
    p: int,
    c: int,
)
    requires
        k >= 1,
        faces_listed(tops, mids, k),
        faces_listed(mids, lows, k - 1),
        0 <= p < lows.len(),
        0 <= c < tops.len(),
    ensures
        product_at(incidence(mids, lows), incidence(tops, mids), mids.len() as int, p, c) == 0,
{
    let n = k + 1;
    let m = mids.len() as int;
    let simplex = tops[c];
    let target = lows[p];
    let lower = |r: int| incidence_number(mids[r], target);
    let hit = |r: int, j: int| face_sign(simplex, mids[r], j);
    let product = |r: int|
        int_at(incidence(mids, lows), p, r) * int_at(incidence(tops, mids), r, c);
    let table = |r: int, j: int| lower(r) * hit(r, j);
    let rows = |r: int| int_sum(n, |j: int| table(r, j));
    assert(simplex.len() == n);
    assert forall|r: int| 0 <= r < m implies #[trigger] product(r) == rows(r) by {
        incidence_entry(mids, lows, k - 1, p, r);
        incidence_entry(tops, mids, k, r, c);
        let f = |j: int| hit(r, j);
        sum_scale(n, lower(r), f);
        sum_ext(n, |j: int| table(r, j), |j: int| lower(r) * f(j));
        sum_ext(n, f, |j: int| face_sign(simplex, mids[r], j));
    }
    sum_ext(m, product, rows);
    sum_swap(m, n, table);
    let cols = |j: int| int_sum(m, |r: int| table(r, j));
    let terms = |j: int| parity_sign(j) * incidence_number(simplex.remove(j), target);
    assert forall|j: int| 0 <= j < n implies #[trigger] cols(j) == terms(j) by {
        assert(mids.contains(tops[c].remove(j)));
        let at = mids.index_of(simplex.remove(j));
        lemma_index_of(mids, simplex.remove(j), 0);
        let f = |r: int| table(r, j);
        assert forall|r: int| 0 <= r < m && r != at implies #[trigger] f(r) == 0 by {
            assert(mids[r] != mids[at]);
            assert(hit(r, j) == 0);
            assert(lower(r) * 0 == 0);
        }
        sum_single(m, f, at);
        assert(f(at) == lower(at) * parity_sign(j));
        assert(lower(at) * parity_sign(j) == parity_sign(j) * lower(at)) by (nonlinear_arith);
    }
    sum_ext(n, cols, terms);
    double_faces_cancel(simplex, target);
}

impl Complex {
    /// The simplices of dimension `k`; none above the dimension of the complex.
    pub open spec fn level(&self, k: int) -> Seq<Seq<usize>> {
        if k <= self.dimension() {
            self.simplices(k)
        } else {
            Seq::empty()
        }
    }

    /// The entries of the boundary operator of the `k`-simplices.
    pub open spec fn boundary_entries(&self, k: int) -> Seq<(usize, usize, i64)> {
        if k <= 0 {
            Seq::empty()
        } else {
            incidence(self.level(k), self.simplices(k - 1))
        }
    }

    /// In a complex all faces of `k`-simplices are listed among the `k - 1`-simplices.
    pub proof fn faces_are_listed(&self, k: int)
        requires
            self.wf(),
            1 <= k <= self.dimension() + 1,
        ensures
            faces_listed(self.level(k), self.simplices(k - 1), k),
    {
        self.simplex_facts(k - 1);
        self.machine_sized_levels(k - 1);
        if k <= self.dimension() {
            self.simplex_facts(k);
            self.machine_sized_levels(k);
            assert forall|c: int, j: int|
                0 <= c < self.simplices(k).len() && 0 <= j <= k implies self.simplices(
                k - 1,
            ).contains(#[trigger] self.simplices(k)[c].remove(j)) by {
                self.closed_under_faces(k, c, j);
            }
        }
    }

    /// The boundary of a boundary is zero: the product of two successive boundary operators
    /// of a complex vanishes in every entry.
    pub proof fn boundary_of_boundary(&self, k: int, p: int, c: int)
        requires
            self.wf(),
            2 <= k <= self.dimension(),
            0 <= p < self.simplices(k - 2).len(),
            0 <= c < self.simplices(k).len(),
        ensures
            product_at(
                self.boundary_entries(k - 1),
                self.boundary_entries(k),
                self.simplices(k - 1).len() as int,
                p,
                c,
            ) == 0,
    {
        self.faces_are_listed(k);
        self.faces_are_listed(k - 1);
        boundary_squared(
            self.simplices(k),
            self.simplices(k - 1),
            self.simplices(k - 2),
            k,
            p,
            c,
        );
    }
}


/// The entries of boundaries are inside the shape of the boundary operator.
pub proof fn incidence_within(sups: Seq<Seq<usize>>, subs: Seq<Seq<usize>>, k: int)
    requires
        faces_listed(sups, subs, k),
    ensures
        triplets_within(incidence(sups, subs), subs.len() as int, sups.len() as int),
    decreases sups.len(),
{
    if sups.len() > 0 {
        let front = sups.drop_last();
        let last = sups.len() - 1;
        assert forall|d: int| 0 <= d < front.len() implies (#[trigger] front[d]).len() == k + 1 by {
            assert(front[d] == sups[d]);
        }
        assert forall|d: int, j: int| 0 <= d < front.len() && 0 <= j <= k implies subs.contains(
            #[trigger] front[d].remove(j),
        ) by {
            assert(front[d] == sups[d]);
            assert(subs.contains(sups[d].remove(j)));
        }
        incidence_within(front, subs, k);
        let head = incidence(front, subs);
        let column = boundary_column(sups.last(), last, subs);
        assert forall|i: int| 0 <= i < column.len() implies (#[trigger] column[i]).0 < subs.len()
            && column[i].1 < sups.len() by {
            let face = boundary_faces(sups.last())[i].0;
            assert(sups[last].len() == k + 1);
            assert(subs.contains(sups[last].remove(k - i)));
            assert(subs.len() > 0);
            lemma_index_of(subs, face, 0);
        }
        let all = incidence(sups, subs);
        assert forall|i: int| 0 <= i < all.len() implies (#[trigger] all[i]).0 < subs.len()
            && all[i].1 < sups.len() by {
            if i < head.len() {
                assert(head[i] == all[i]);
            } else {
                assert(column[i - head.len()] == all[i]);
            }
        }
    }
}

impl Complex {
    /// The exterior derivative of an exterior derivative is zero: the product of two
    /// successive exterior derivative operators of a complex vanishes in every entry.
    pub proof fn derivative_of_derivative(&self, k: int, p: int, c: int)
        requires
            self.wf(),
            0 <= k <= self.dimension() - 2,
            0 <= p < self.simplices(k + 2).len(),
            0 <= c < self.simplices(k).len(),
        ensures
            product_at(
                transposed(self.boundary_entries(k + 2)),
                transposed(self.boundary_entries(k + 1)),
                self.simplices(k + 1).len() as int,
                p,
                c,
            ) == 0,
    {
        let upper = self.boundary_entries(k + 2);
        let lower = self.boundary_entries(k + 1);
        let m = self.simplices(k + 1).len() as int;
        self.boundary_of_boundary(k + 2, c, p);
        let turned = |r: int| int_at(transposed(upper), p, r) * int_at(transposed(lower), r, c);
        let straight = |r: int| int_at(lower, c, r) * int_at(upper, r, p);
        assert forall|r: int| 0 <= r < m implies #[trigger] turned(r) == straight(r) by {
            int_at_transposed(upper, r, p);
            int_at_transposed(lower, c, r);
            let a = int_at(upper, r, p);
            let b = int_at(lower, c, r);
            assert(a * b == b * a) by (nonlinear_arith);
        }
        sum_ext(m, turned, straight);
    }

    /// The faces of flagged `k`-simplices are flagged.
    pub open spec fn flags_closed(&self, k: int, lower: Seq<bool>, upper: Seq<bool>) -> bool {
        forall|i: int, r: int, j: int|
            #![trigger self.simplices(k)[i].remove(j), lower[r]]
            0 <= i < self.simplices(k).len() && 0 <= r < self.simplices(k - 1).len() && 0 <= j <= k
                && upper[i] && self.simplices(k - 1)[r] == self.simplices(k)[i].remove(j)
                ==> lower[r]
    }

    /// Relative to a flagged subcomplex, too, the boundary of a boundary is zero: the product
    /// of two successive restricted boundary operators vanishes in every entry.
    pub proof fn relative_boundary_of_boundary(
        &self,
        k: int,
        low: Seq<bool>,
        mid: Seq<bool>,
        top: Seq<bool>,
        p: int,
        c: int,
    )
        requires
            self.wf(),
            2 <= k <= self.dimension(),
            low.len() == self.simplices(k - 2).len(),
            mid.len() == self.simplices(k - 1).len(),
            top.len() == self.simplices(k).len(),
            self.flags_closed(k - 1, low, mid),
            0 <= p < low.len(),
            0 <= c < top.len(),
            !low[p],
            !top[c],
        ensures
            product_at(
                restricted(self.boundary_entries(k - 1), low, mid),
                restricted(self.boundary_entries(k), mid, top),
                unset_before(mid, mid.len() as int) as int,
                unset_before(low, p) as int,
                unset_before(top, c) as int,
            ) == 0,
    {
        let lower = self.boundary_entries(k - 1);
        let upper = self.boundary_entries(k);
        let n = mid.len() as int;
        self.faces_are_listed(k);
        self.faces_are_listed(k - 1);
        self.machine_sized_levels(k);
        incidence_within(self.simplices(k), self.simplices(k - 1), k);
        incidence_within(self.simplices(k - 1), self.simplices(k - 2), k - 1);
        let kept = |r: int|
            int_at(restricted(lower, low, mid), unset_before(low, p) as int, r) * int_at(
                restricted(upper, mid, top),
                r,
                unset_before(top, c) as int,
            );
        let all = |r: int| int_at(lower, p, r) * int_at(upper, r, c);
        assert forall|r: int| 0 <= r < n && !mid[r] implies kept(unset_before(mid, r) as int)
            == #[trigger] all(r) by {
            int_at_restricted(lower, low, mid, p, r);
            int_at_restricted(upper, mid, top, r, c);
        }
        sum_over_kept(mid, n, kept, all);
        let masked = |r: int|
            if mid[r] {
                0
            } else {
                all(r)
            };
        assert forall|r: int| 0 <= r < n implies #[trigger] masked(r) == all(r) by {
            if mid[r] {
                incidence_entry(self.simplices(k - 1), self.simplices(k - 2), k - 1, p, r);
                let sup = self.simplices(k - 1)[r];
                let sub = self.simplices(k - 2)[p];
                assert(sup.len() == k);
                let f = |j: int| face_sign(sup, sub, j);
                assert forall|j: int| 0 <= j < k implies #[trigger] f(j) == 0 by {
                    if sup.remove(j) == sub {
                        assert(self.simplices(k - 1)[r].remove(j) == sub);
                        assert(low[p]);
                    }
                }
                sum_zero(k, f);
                assert(int_at(lower, p, r) == 0);
                assert(0 * int_at(upper, r, c) == 0);
            }
        }
        sum_ext(n, masked, all);
        self.boundary_of_boundary(k, p, c);
    }
}

impl Complex {
    /// The boundary operator from `dim`-simplices to `dim - 1`-simplices. It has no rows
    /// for vertices and no columns above the dimension of the complex.
    pub fn boundary_operator(&self, dim: Dim) -> (m: CooMatrix<i64>)
        requires
            self.wf(),
            dim <= self.dimension() + 1,
        ensures
            m.wf(),
            m.rows() == (if dim == 0 {
                0
            } else {
                self.simplices(dim - 1).len()
            }),
            m.cols() == self.level(dim as int).len(),
            m.entries() == self.boundary_entries(dim as int),
    {
        let ncols: usize = if dim <= self.dim() {
            self.nsimplices(dim)
        } else {
            0
        };
        if dim == 0 {
            return CooMatrix::zeros(0, ncols);
        }
        let ghost sups = self.level(dim as int);
        let ghost subs = self.simplices(dim - 1);
        proof {
            self.faces_are_listed(dim as int);
            assert(sups.take(0) =~= Seq::<Seq<usize>>::empty());
        }
        let mut m: CooMatrix<i64> = CooMatrix::zeros(self.nsimplices(dim - 1), ncols);
        let mut isup: usize = 0;
        while isup < ncols
            invariant
                isup <= ncols,
                ncols == sups.len(),
                self.wf(),
                1 <= dim <= self.dimension() + 1,
                sups == self.level(dim as int),
                subs == self.simplices(dim - 1),
                faces_listed(sups, subs, dim as int),
                m.wf(),
                m.rows() == subs.len(),
                m.cols() == ncols,
                m.entries() == incidence(sups.take(isup as int), subs),
            decreases ncols - isup,
        {
            let faces = self.simplex_at(dim, isup).boundary();
            let ghost sup = sups[isup as int];
            let ghost column = boundary_column(sup, isup as int, subs);
            let ghost before = m.entries();
            let mut i: usize = 0;
            while i < faces.len()
                invariant
                    i <= faces@.len(),
                    isup < ncols,
                    ncols == sups.len(),
                    self.wf(),
                    1 <= dim <= self.dimension(),
                    sups == self.level(dim as int),
                    subs == self.simplices(dim - 1),
                    faces_listed(sups, subs, dim as int),
                    sup == sups[isup as int],
                    column == boundary_column(sup, isup as int, subs),
                    signed_views(faces@) == boundary_faces(sup),
                    m.wf(),
                    m.rows() == subs.len(),
                    m.cols() == ncols,
                    m.entries() =~= before + column.take(i as int),
                decreases faces@.len() - i,
            {
                proof {
                    assert(sup.len() == dim + 1);
                    assert(faces@.len() == signed_views(faces@).len());
                    assert(signed_views(faces@)[i as int] == boundary_faces(sup)[i as int]);
                    assert(subs.contains(sups[isup as int].remove(dim - i)));
                    lemma_index_of(subs, faces@[i as int].simplex@, 0);
                }
                if let Some(isub) = self.index_of(dim - 1, &faces[i].simplex) {
                    proof {
                        lemma_index_of(subs, faces@[i as int].simplex@, isub as int);
                        assert(column.take(i + 1) =~= column.take(i as int).push(column[i as int]));
                    }
                    m.push(isub, isup, faces[i].sign.as_i64());
                }
                i = i + 1;
            }
            proof {
                assert(faces@.len() == signed_views(faces@).len());
                assert(column.take(i as int) =~= column);
                assert(sups.take(isup + 1).drop_last() =~= sups.take(isup as int));
                assert(sups.take(isup + 1).last() == sup);
            }
            isup = isup + 1;
        }
        proof {
            assert(sups.take(isup as int) =~= sups);
        }
        m
    }

    /// The exterior derivative operator from cochains on `grade`-simplices to cochains on
    /// `grade + 1`-simplices: the transpose of the boundary operator.
    pub fn exterior_derivative_operator(&self, grade: Dim) -> (m: CooMatrix<i64>)
        requires
            self.wf(),
            grade <= self.dimension(),
        ensures
            m.wf(),
            m.rows() == self.level(grade + 1).len(),
            m.cols() == self.simplices(grade as int).len(),
            m.entries() == transposed(self.boundary_entries(grade + 1)),
    {
        proof {
            self.machine_sized_levels(0);
        }
        self.boundary_operator(grade + 1).transpose()
    }

    /// The boundary operator without the flagged `k - 1`-simplices and `k`-simplices.
    pub fn restricted_boundary_operator(
        &self,
        k: Dim,
        k_minus_one_strong_dofs: &[bool],
        k_strong_dofs: &[bool],
    ) -> (m: CooMatrix<i64>)
        requires
            self.wf(),
            k <= self.dimension() + 1,
            k >= 1 ==> k_minus_one_strong_dofs@.len() == self.simplices(k - 1).len(),
            k_strong_dofs@.len() == self.level(k as int).len(),
        ensures
            m.wf(),
            m.rows() == (if k == 0 {
                0
            } else {
                unset_before(k_minus_one_strong_dofs@, k_minus_one_strong_dofs@.len() as int)
            }),
            m.cols() == unset_before(k_strong_dofs@, k_strong_dofs@.len() as int),
            m.entries() == restricted(
                self.boundary_entries(k as int),
                k_minus_one_strong_dofs@,
                k_strong_dofs@,
            ),
    {
        let full = self.boundary_operator(k);
        if k == 0 {
            let none: Vec<bool> = Vec::new();
            return full.restrict(none.as_slice(), k_strong_dofs);
        }
        full.restrict(k_minus_one_strong_dofs, k_strong_dofs)
    }

    /// Dimension of the homology group of the `dim`-simplices, the Betti number, from the ranks
    /// of the boundary operators of this dimension and of the next.
    pub fn homology_dim(&self, dim: Dim, rank_this: usize, rank_plus: usize) -> (betti: usize)
        requires
            self.wf(),
            dim <= self.dimension(),
            rank_this + rank_plus <= self.simplices(dim as int).len(),
        ensures
            betti == self.simplices(dim as int).len() - rank_this - rank_plus,
    {
        let dim_cycles: usize = self.nsimplices(dim) - rank_this;
        dim_cycles - rank_plus
    }

    /// Dimension of the homology group of the `k`-simplices relative to the flagged ones, from
    /// the ranks of the restricted boundary operators of this dimension and of the next.
    pub fn relative_homology_dim(
        &self,
        k: Dim,
        k_strong_dofs: &[bool],
        rank_k: usize,
        rank_k_plus_one: usize,
    ) -> (betti: usize)
        requires
            self.wf(),
            k <= self.dimension(),
            k_strong_dofs@.len() == self.simplices(k as int).len(),
            rank_k + rank_k_plus_one <= unset_before(k_strong_dofs@, k_strong_dofs@.len() as int),
        ensures
            betti == unset_before(k_strong_dofs@, k_strong_dofs@.len() as int) - rank_k
                - rank_k_plus_one,
            none_set(k_strong_dofs@) ==> betti == self.simplices(k as int).len() - rank_k
                - rank_k_plus_one,
    {
        proof {
            if none_set(k_strong_dofs@) {
                all_unset(k_strong_dofs@, k_strong_dofs@.len() as int);
            }
        }
        let (_, free) = positions(k_strong_dofs);
        let dim_cycles: usize = free - rank_k;
        dim_cycles - rank_k_plus_one
    }

    /// Without a flagged simplex the restricted boundary operator is the boundary operator, and
    /// all simplices stay: from the same ranks the relative homology has the dimension of the
    /// homology.
    pub proof fn relative_to_nothing(
        &self,
        k: int,
        k_minus_one_strong_dofs: Seq<bool>,
        k_strong_dofs: Seq<bool>,
    )
        requires
            self.wf(),
            0 <= k <= self.dimension() + 1,
            k >= 1 ==> k_minus_one_strong_dofs.len() == self.simplices(k - 1).len(),
            k_strong_dofs.len() == self.level(k).len(),
            none_set(k_minus_one_strong_dofs),
            none_set(k_strong_dofs),
        ensures
            restricted(self.boundary_entries(k), k_minus_one_strong_dofs, k_strong_dofs)
                == self.boundary_entries(k),
            k >= 1 ==> unset_before(
                k_minus_one_strong_dofs,
                k_minus_one_strong_dofs.len() as int,
            ) == self.simplices(k - 1).len(),
            unset_before(k_strong_dofs, k_strong_dofs.len() as int) == self.level(k).len(),
    {
        all_unset(k_minus_one_strong_dofs, k_minus_one_strong_dofs.len() as int);
        all_unset(k_strong_dofs, k_strong_dofs.len() as int);
        if k >= 1 {
            self.faces_are_listed(k);
            incidence_within(self.level(k), self.simplices(k - 1), k);
            restricted_by_nothing(
                self.boundary_entries(k),
                k_minus_one_strong_dofs,
                k_strong_dofs,
            );
        } else {
            assert(restricted(
                self.boundary_entries(k),
                k_minus_one_strong_dofs,
                k_strong_dofs,
            ) =~= self.boundary_entries(k));
        }
    }
}

} // verus!
