//! Indices of the simplices of a complex, and handles that pair them with their complex.

use crate::topology::complex::Complex;
use crate::topology::simplex::{combinations, combinations_are_subsequences, is_subsequence};
use crate::topology::simplex::{simplex_views, Dim, Simplex};
use vstd::prelude::*;

verus! {

/// Index of a simplex among those of its dimension.
pub type KSimplexIdx = usize;

/// Index of a simplex in a complex.
#[derive(Clone, Copy, PartialEq, Eq, Structural, Debug, Hash)]
pub struct SimplexIdx {
    pub dim: Dim,
    pub kidx: KSimplexIdx,
}

impl SimplexIdx {
    pub fn new(dim: Dim, kidx: KSimplexIdx) -> (idx: Self)
        ensures
            idx.dim == dim,
            idx.kidx == kidx,
    {
        SimplexIdx { dim, kidx }
    }

    /// The handle of the simplex in its complex.
    pub fn handle<'c>(self, complex: &'c Complex) -> (handle: SimplexHandle<'c>)
        requires
            complex.wf(),
            self.dim <= complex.dimension(),
            self.kidx < complex.simplices(self.dim as int).len(),
        ensures
            handle.wf(),
            handle.complex() == *complex,
            handle.index() == self,
    {
        SimplexHandle { complex, idx: self }
    }
}

/// The indices below `n` for which `holds` is true, in ascending order.
pub open spec fn indices_where(n: int, holds: spec_fn(int) -> bool) -> Seq<int>
    decreases n,
{
    if n <= 0 {
        Seq::empty()
    } else if holds(n - 1) {
        indices_where(n - 1, holds).push(n - 1)
    } else {
        indices_where(n - 1, holds)
    }
}

/// `indices_where` lists exactly the indices for which the condition is true.
pub proof fn indices_where_members(n: int, holds: spec_fn(int) -> bool, i: int)
    ensures
        indices_where(n, holds).contains(i) <==> 0 <= i < n && holds(i),
    decreases n,
{
    if n > 0 {
        let before = indices_where(n - 1, holds);
        let all = indices_where(n, holds);
        indices_where_members(n - 1, holds, i);
        if before.contains(i) {
            let j = choose|j: int| 0 <= j < before.len() && before[j] == i;
            assert(all[j] == i);
        }
        if i == n - 1 && holds(i) {
            assert(all[before.len() as int] == i);
        }
    }
}

/// The listed indices ascend.
pub proof fn indices_where_ascend(n: int, holds: spec_fn(int) -> bool)
    ensures
        forall|a: int, b: int|
            0 <= a < b < indices_where(n, holds).len() ==> indices_where(n, holds)[a]
                < indices_where(n, holds)[b],
        forall|a: int|
            0 <= a < indices_where(n, holds).len() ==> 0 <= #[trigger] indices_where(n, holds)[a]
                < n,
    decreases n,
{
    if n > 0 {
        indices_where_ascend(n - 1, holds);
        let before = indices_where(n - 1, holds);
        let all = indices_where(n, holds);
        assert forall|a: int| 0 <= a < all.len() implies 0 <= #[trigger] all[a] < n by {
            if a < before.len() {
                assert(all[a] == before[a]);
            }
        }
        assert forall|a: int, b: int| 0 <= a < b < all.len() implies all[a] < all[b] by {
            assert(all[a] == before[a]);
            if b < before.len() {
                assert(all[b] == before[b]);
            }
        }
    }
}

/// All simplices of one dimension of a complex.
#[derive(Clone, Copy)]
pub struct SkeletonHandle<'c> {
    complex: &'c Complex,
    dim: Dim,
}

impl<'c> SkeletonHandle<'c> {
    pub closed spec fn complex(&self) -> Complex {
        *self.complex
    }

    pub closed spec fn dimension(&self) -> Dim {
        self.dim
    }

    pub open spec fn wf(&self) -> bool {
        self.complex().wf() && self.dimension() <= self.complex().dimension()
    }

    /// The simplices as vertex lists.
    pub open spec fn simplices(&self) -> Seq<Seq<usize>> {
        self.complex().simplices(self.dimension() as int)
    }

    pub fn new(complex: &'c Complex, dim: Dim) -> (handle: Self)
        requires
            complex.wf(),
            dim <= complex.dimension(),
        ensures
            handle.wf(),
            handle.complex() == *complex,
            handle.dimension() == dim,
    {
        SkeletonHandle { complex, dim }
    }

    pub fn dim(&self) -> (dim: Dim)
        ensures
            dim == self.dimension(),
    {
        self.dim
    }

    /// Number of simplices.
    pub fn len(&self) -> (n: usize)
        requires
            self.wf(),
        ensures
            n == self.simplices().len(),
    {
        self.complex.nsimplices(self.dim)
    }

    /// The simplex with the given index.
    pub fn handle_by_kidx(&self, kidx: KSimplexIdx) -> (handle: SimplexHandle<'c>)
        requires
            self.wf(),
            kidx < self.simplices().len(),
        ensures
            handle.wf(),
            handle.complex() == self.complex(),
            handle.index() == (SimplexIdx { dim: self.dimension(), kidx }),
    {
        SimplexHandle { complex: self.complex, idx: SimplexIdx { dim: self.dim, kidx } }
    }

    /// The handle of a simplex of this dimension, if the complex has it.
    pub fn handle_by_simplex(&self, simplex: &Simplex) -> (handle: Option<SimplexHandle<'c>>)
        requires
            self.wf(),
        ensures
            handle is Some <==> self.simplices().contains(simplex@),
            match handle {
                Some(handle) => handle.wf() && handle.complex() == self.complex()
                    && handle.index().dim == self.dimension() && handle.vertices() == simplex@,
                None => true,
            },
    {
        match self.complex.index_of(self.dim, simplex) {
            Some(kidx) => Some(
                SimplexHandle { complex: self.complex, idx: SimplexIdx { dim: self.dim, kidx } },
            ),
            None => None,
        }
    }

    /// The handles of all simplices, in order.
    pub fn handle_iter(&self) -> (handles: Vec<SimplexHandle<'c>>)
        requires
            self.wf(),
        ensures
            handles@.len() == self.simplices().len(),
            forall|i: int|
                0 <= i < handles@.len() ==> (#[trigger] handles@[i]).wf() && handles@[i].complex()
                    == self.complex() && handles@[i].index() == (SimplexIdx {
                    dim: self.dimension(),
                    kidx: i as usize,
                }),
    {
        let n: usize = self.len();
        let mut handles: Vec<SimplexHandle<'c>> = Vec::new();
        let mut i: usize = 0;
        while i < n
            invariant
                i <= n,
                n == self.simplices().len(),
                self.wf(),
                handles@.len() == i,
                forall|j: int|
                    0 <= j < i ==> (#[trigger] handles@[j]).wf() && handles@[j].complex()
                        == self.complex() && handles@[j].index() == (SimplexIdx {
                        dim: self.dimension(),
                        kidx: j as usize,
                    }),
            decreases n - i,
        {
            handles.push(self.handle_by_kidx(i));
            i = i + 1;
        }
        handles
    }
}

/// A simplex of a complex.
#[derive(Clone, Copy)]
pub struct SimplexHandle<'c> {
    complex: &'c Complex,
    idx: SimplexIdx,
}

impl<'c> SimplexHandle<'c> {
    pub closed spec fn complex(&self) -> Complex {
        *self.complex
    }

    pub closed spec fn index(&self) -> SimplexIdx {
        self.idx
    }

    pub open spec fn wf(&self) -> bool {
        &&& self.complex().wf()
        &&& self.index().dim <= self.complex().dimension()
        &&& self.index().kidx < self.complex().simplices(self.index().dim as int).len()
    }

    /// The vertices of the simplex.
    pub open spec fn vertices(&self) -> Seq<usize> {
        self.complex().simplices(self.index().dim as int)[self.index().kidx as int]
    }

    pub fn idx(&self) -> (idx: SimplexIdx)
        ensures
            idx == self.index(),
    {
        self.idx
    }

    pub fn kidx(&self) -> (kidx: KSimplexIdx)
        ensures
            kidx == self.index().kidx,
    {
        self.idx.kidx
    }

    pub fn dim(&self) -> (dim: Dim)
        ensures
            dim == self.index().dim,
    {
        self.idx.dim
    }

    /// The simplex itself.
    pub fn simplex(&self) -> (simplex: &'c Simplex)
        requires
            self.wf(),
        ensures
            simplex@ == self.vertices(),
    {
        self.complex.simplex_at(self.idx.dim, self.idx.kidx)
    }

    /// The cells that hold the simplex.
    pub fn cocells(&self) -> (cells: &'c Vec<SimplexIdx>)
        requires
            self.wf(),
        ensures
            cells@ == self.complex().cocells(self.index().dim as int, self.index().kidx as int),
    {
        self.complex.cocells_of(self.idx.dim, self.idx.kidx)
    }

    /// The subsimplices of dimension `dim`, in lexicographic order.
    pub fn mesh_subsimps(&self, dim: Dim) -> (subs: Vec<SimplexHandle<'c>>)
        requires
            self.wf(),
            dim <= self.complex().dimension(),
        ensures
            subs@.len() == combinations(self.vertices(), (dim + 1) as nat).len(),
            forall|i: int|
                0 <= i < subs@.len() ==> (#[trigger] subs@[i]).wf() && subs@[i].complex()
                    == self.complex() && subs@[i].index().dim == dim && subs@[i].vertices()
                    == combinations(self.vertices(), (dim + 1) as nat)[i],
    {
        proof {
            self.complex.machine_sized_levels(0);
        }
        let simplices = self.simplex().subsequences(dim);
        let ghost views = combinations(self.vertices(), (dim + 1) as nat);
        let mut subs: Vec<SimplexHandle<'c>> = Vec::new();
        let mut i: usize = 0;
        while i < simplices.len()
            invariant
                i <= simplices@.len(),
                self.wf(),
                dim <= self.complex().dimension(),
                simplex_views(simplices@) == views,
                views == combinations(self.vertices(), (dim + 1) as nat),
                subs@.len() == i,
                forall|j: int|
                    0 <= j < i ==> (#[trigger] subs@[j]).wf() && subs@[j].complex()
                        == self.complex() && subs@[j].index().dim == dim && subs@[j].vertices()
                        == views[j],
            decreases simplices@.len() - i,
        {
            proof {
                let t = views[i as int];
                assert(simplices@[i as int]@ == t);
                assert(views.contains(t));
                combinations_are_subsequences(self.vertices(), (dim + 1) as nat, t);
                self.complex.simplex_facts(self.idx.dim as int);
                lemma_subsequence_shorter(t, self.vertices());
                self.complex.closed_under_subsimplices(
                    self.idx.dim as int,
                    self.idx.kidx as int,
                    t,
                );
            }
            if let Some(kidx) = self.complex.index_of(dim, &simplices[i]) {
                subs.push(SimplexHandle { complex: self.complex, idx: SimplexIdx { dim, kidx } });
            }
            i = i + 1;
        }
        proof {
            assert(simplices@.len() == simplex_views(simplices@).len());
        }
        subs
    }

    /// The simplices of dimension `dim` that hold this one, in ascending order of their index.
    pub fn mesh_supersimps(&self, dim: Dim) -> (sups: Vec<SimplexHandle<'c>>)
        requires
            self.wf(),
            dim <= self.complex().dimension(),
        ensures
            ({
                let all = self.complex().simplices(dim as int);
                let holding = indices_where(
                    all.len() as int,
                    |i: int| is_subsequence(self.vertices(), all[i]),
                );
                &&& sups@.len() == holding.len()
                &&& forall|i: int|
                    0 <= i < sups@.len() ==> (#[trigger] sups@[i]).wf() && sups@[i].complex()
                        == self.complex() && sups@[i].index().dim == dim && sups@[i].index().kidx
                        == holding[i]
            }),
    {
        let ghost all = self.complex().simplices(dim as int);
        let ghost holds = |i: int| is_subsequence(self.vertices(), all[i]);
        let n: usize = self.complex.nsimplices(dim);
        let mut sups: Vec<SimplexHandle<'c>> = Vec::new();
        let mut i: usize = 0;
        while i < n
            invariant
                i <= n,
                self.wf(),
                dim <= self.complex().dimension(),
                all == self.complex().simplices(dim as int),
                n == all.len(),
                holds == (|i: int| is_subsequence(self.vertices(), all[i])),
                sups@.len() == indices_where(i as int, holds).len(),
                forall|j: int|
                    0 <= j < sups@.len() ==> (#[trigger] sups@[j]).wf() && sups@[j].complex()
                        == self.complex() && sups@[j].index().dim == dim && sups@[j].index().kidx
                        == indices_where(i as int, holds)[j],
            decreases n - i,
        {
            if self.simplex().is_subsequence_of(self.complex.simplex_at(dim, i)) {
                sups.push(
                    SimplexHandle { complex: self.complex, idx: SimplexIdx { dim, kidx: i } },
                );
            }
            i = i + 1;
        }
        sups
    }
}

impl Complex {
    /// The indices of the `k`-subsimplices of simplex `i` of dimension `dim`, in
    /// lexicographic order.
    pub open spec fn subsimplices(&self, dim: int, i: int, k: int) -> Seq<usize> {
        let subs = combinations(self.simplices(dim)[i], (k + 1) as nat);
        Seq::new(subs.len(), |j: int| self.simplices(k).index_of(subs[j]) as usize)
    }

    /// The indices of the `k`-subsimplices of a simplex, in lexicographic order.
    pub fn subsimplex_indices(&self, dim: Dim, kidx: KSimplexIdx, k: Dim) -> (indices: Vec<
        KSimplexIdx,
    >)
        requires
            self.wf(),
            dim <= self.dimension(),
            k <= self.dimension(),
            kidx < self.simplices(dim as int).len(),
        ensures
            indices@ == self.subsimplices(dim as int, kidx as int, k as int),
            forall|j: int|
                0 <= j < indices@.len() ==> (#[trigger] indices@[j]) < self.simplices(
                    k as int,
                ).len() && self.simplices(k as int)[indices@[j] as int] == combinations(
                    self.simplices(dim as int)[kidx as int],
                    (k + 1) as nat,
                )[j],
    {
        let subs = SimplexIdx::new(dim, kidx).handle(self).mesh_subsimps(k);
        let ghost views = combinations(self.simplices(dim as int)[kidx as int], (k + 1) as nat);
        let ghost level = self.simplices(k as int);
        let mut indices: Vec<usize> = Vec::new();
        let mut j: usize = 0;
        proof {
            self.simplex_facts(k as int);
        }
        while j < subs.len()
            invariant
                j <= subs@.len(),
                self.wf(),
                k <= self.dimension(),
                level == self.simplices(k as int),
                level.no_duplicates(),
                subs@.len() == views.len(),
                forall|a: int|
                    0 <= a < subs@.len() ==> (#[trigger] subs@[a]).wf() && subs@[a].complex()
                        == *self && subs@[a].index().dim == k && subs@[a].vertices() == views[a],
                indices@.len() == j,
                forall|a: int|
                    0 <= a < j ==> (#[trigger] indices@[a]) < level.len() && level[indices@[a] as int]
                        == views[a] && indices@[a] == level.index_of(views[a]) as usize,
            decreases subs@.len() - j,
        {
            let at: usize = subs[j].kidx();
            proof {
                assert(subs@[j as int].wf());
                assert(level[at as int] == views[j as int]);
                assert(level.contains(views[j as int]));
                assert(level.index_of(views[j as int]) == at);
            }
            indices.push(at);
            j = j + 1;
        }
        proof {
            assert(indices@ =~= self.subsimplices(dim as int, kidx as int, k as int));
        }
        indices
    }
}

/// A subsequence is no longer than the whole.
pub proof fn lemma_subsequence_shorter(t: Seq<usize>, s: Seq<usize>)
    requires
        is_subsequence(t, s),
    ensures
        t.len() <= s.len(),
    decreases s.len(),
{
    if t.len() > 0 {
        if t[0] == s[0] && is_subsequence(t.drop_first(), s.drop_first()) {
            lemma_subsequence_shorter(t.drop_first(), s.drop_first());
        } else {
            lemma_subsequence_shorter(t, s.drop_first());
        }
    }
}

impl Complex {
    /// The skeletons of all dimensions, from the vertices up.
    pub fn skeletons(&self) -> (handles: Vec<SkeletonHandle<'_>>)
        requires
            self.wf(),
        ensures
            handles@.len() == self.dimension() + 1,
            forall|k: int|
                0 <= k < handles@.len() ==> (#[trigger] handles@[k]).wf() && handles@[k].complex()
                    == *self && handles@[k].dimension() == k,
    {
        let dim: Dim = self.dim();
        proof {
            self.machine_sized_levels(0);
        }
        let mut handles: Vec<SkeletonHandle<'_>> = Vec::new();
        let mut k: usize = 0;
        while k <= dim
            invariant
                k <= dim + 1,
                self.wf(),
                dim == self.dimension(),
                dim < usize::MAX,
                handles@.len() == k,
                forall|j: int|
                    0 <= j < k ==> (#[trigger] handles@[j]).wf() && handles@[j].complex() == *self
                        && handles@[j].dimension() == j,
            decreases dim + 1 - k,
        {
            handles.push(SkeletonHandle::new(self, k));
            k = k + 1;
        }
        handles
    }

    /// The simplices of dimension `dim`.
    pub fn skeleton(&self, dim: Dim) -> (handle: SkeletonHandle<'_>)
        requires
            self.wf(),
            dim <= self.dimension(),
        ensures
            handle.wf(),
            handle.complex() == *self,
            handle.dimension() == dim,
    {
        SkeletonHandle::new(self, dim)
    }

    /// The vertices.
    pub fn vertices(&self) -> (handle: SkeletonHandle<'_>)
        requires
            self.wf(),
        ensures
            handle.wf(),
            handle.complex() == *self,
            handle.dimension() == 0,
    {
        proof {
            self.has_dimension();
        }
        self.skeleton(0)
    }

    /// The edges.
    pub fn edges(&self) -> (handle: SkeletonHandle<'_>)
        requires
            self.wf(),
            self.dimension() >= 1,
        ensures
            handle.wf(),
            handle.complex() == *self,
            handle.dimension() == 1,
    {
        self.skeleton(1)
    }

    /// The simplices of one dimension less than the complex.
    pub fn facets(&self) -> (handle: SkeletonHandle<'_>)
        requires
            self.wf(),
            self.dimension() >= 1,
        ensures
            handle.wf(),
            handle.complex() == *self,
            handle.dimension() == self.dimension() - 1,
    {
        self.skeleton(self.dim() - 1)
    }

    /// The simplices of the dimension of the complex.
    pub fn cells(&self) -> (handle: SkeletonHandle<'_>)
        requires
            self.wf(),
        ensures
            handle.wf(),
            handle.complex() == *self,
            handle.dimension() == self.dimension(),
    {
        self.skeleton(self.dim())
    }
}

} // verus!
