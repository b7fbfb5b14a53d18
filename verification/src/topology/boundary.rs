//! The boundary of a manifold complex.

use crate::topology::complex::Complex;
use crate::topology::handle::{indices_where, indices_where_ascend, indices_where_members};
use crate::topology::handle::{lemma_subsequence_shorter, SimplexIdx};
use crate::topology::simplex::{
    combinations, combinations_are_subsequences, is_subsequence, Dim,
};
use crate::topology::skeleton::{insert_all_members, unique, unique_indices};
use vstd::prelude::*;

verus! {

/// Indices of simplices of one dimension.
pub open spec fn of_dim(dim: int, kidxs: Seq<usize>) -> Seq<SimplexIdx> {
    Seq::new(kidxs.len(), |i: int| SimplexIdx { dim: dim as usize, kidx: kidxs[i] })
}

fn with_dim(dim: Dim, kidxs: &[usize]) -> (idxs: Vec<SimplexIdx>)
    ensures
        idxs@ == of_dim(dim as int, kidxs@),
{
    let mut idxs: Vec<SimplexIdx> = Vec::new();
    let mut i: usize = 0;
    while i < kidxs.len()
        invariant
            i <= kidxs@.len(),
            idxs@ =~= of_dim(dim as int, kidxs@).take(i as int),
        decreases kidxs@.len() - i,
    {
        idxs.push(SimplexIdx::new(dim, kidxs[i]));
        i = i + 1;
    }
    proof {
        assert(of_dim(dim as int, kidxs@).take(i as int) =~= of_dim(dim as int, kidxs@));
    }
    idxs
}

impl Complex {
    /// Whether facet `i` belongs to one cell only.
    pub open spec fn on_boundary(&self, i: int) -> bool {
        self.cocells(self.dimension() - 1, i).len() == 1
    }

    /// The indices of the facets that belong to one cell only, in ascending order.
    pub open spec fn boundary_facet_kidxs(&self) -> Seq<usize> {
        let listed = indices_where(
            self.simplices(self.dimension() - 1).len() as int,
            |i: int| self.on_boundary(i),
        );
        Seq::new(listed.len(), |i: int| listed[i] as usize)
    }

    /// The cells of the boundary facets, facet by facet.
    pub open spec fn boundary_facet_cells(&self) -> Seq<usize> {
        let facets = self.boundary_facet_kidxs();
        Seq::new(
            facets.len(),
            |i: int| self.cocells(self.dimension() - 1, facets[i] as int)[0].kidx,
        )
    }

    /// The vertices of the boundary facets, facet by facet.
    pub open spec fn boundary_facet_vertices(&self) -> Seq<Seq<usize>> {
        let facets = self.boundary_facet_kidxs();
        Seq::new(facets.len(), |i: int| self.simplices(self.dimension() - 1)[facets[i] as int])
    }

    /// The indices of the `k`-subsimplices of facet `facet`.
    pub open spec fn facet_subsimplices(&self, facet: int, k: int) -> Seq<usize> {
        let subs = combinations(self.simplices(self.dimension() - 1)[facet], (k + 1) as nat);
        Seq::new(subs.len(), |i: int| self.simplices(k).index_of(subs[i]) as usize)
    }

    /// The indices of the `k`-subsimplices of the boundary facets, facet by facet.
    pub open spec fn boundary_facet_subsimplices(&self, k: int) -> Seq<Seq<usize>> {
        let facets = self.boundary_facet_kidxs();
        Seq::new(facets.len(), |i: int| self.facet_subsimplices(facets[i] as int, k))
    }

    /// A listed boundary facet is a facet that belongs to one cell only.
    pub(crate) proof fn lemma_boundary_facet(&self, i: int)
        requires
            self.wf(),
            self.dimension() >= 1,
            0 <= i < self.boundary_facet_kidxs().len(),
        ensures
            self.boundary_facet_kidxs()[i] < self.simplices(self.dimension() - 1).len(),
            self.on_boundary(self.boundary_facet_kidxs()[i] as int),
    {
        let k = self.dimension() - 1;
        let n = self.simplices(k).len() as int;
        let holds = |i: int| self.on_boundary(i);
        self.machine_sized_levels(k);
        let listed = indices_where(n, holds);
        assert(listed.contains(listed[i]));
        indices_where_members(n, holds, listed[i]);
    }

    /// The boundary of the complex: the facets that belong to one cell only.
    pub fn boundary_facets(&self) -> (facets: Vec<SimplexIdx>)
        requires
            self.wf(),
            self.dimension() >= 1,
        ensures
            facets@ == of_dim(self.dimension() - 1, self.boundary_facet_kidxs()),
    {
        let kidxs = self.boundary_facet_indices();
        with_dim(self.dim() - 1, kidxs.as_slice())
    }

    fn boundary_facet_indices(&self) -> (kidxs: Vec<usize>)
        requires
            self.wf(),
            self.dimension() >= 1,
        ensures
            kidxs@ == self.boundary_facet_kidxs(),
    {
        let dim: Dim = self.dim() - 1;
        let n: usize = self.nsimplices(dim);
        let ghost holds = |i: int| self.on_boundary(i);
        let mut kidxs: Vec<usize> = Vec::new();
        let mut i: usize = 0;
        while i < n
            invariant
                i <= n,
                self.wf(),
                self.dimension() >= 1,
                dim == self.dimension() - 1,
                n == self.simplices(dim as int).len(),
                holds == (|i: int| self.on_boundary(i)),
                kidxs@.len() == indices_where(i as int, holds).len(),
                forall|j: int|
                    0 <= j < kidxs@.len() ==> #[trigger] kidxs@[j] == indices_where(
                        i as int,
                        holds,
                    )[j] as usize,
            decreases n - i,
        {
            if self.cocells_of(dim, i).len() == 1 {
                kidxs.push(i);
            }
            i = i + 1;
        }
        proof {
            assert(kidxs@ =~= self.boundary_facet_kidxs());
        }
        kidxs
    }

    /// Whether there is a facet that belongs to one cell only.
    pub fn has_boundary(&self) -> (has: bool)
        requires
            self.wf(),
            self.dimension() >= 1,
        ensures
            has == exists|i: int|
                0 <= i < self.simplices(self.dimension() - 1).len() && self.on_boundary(i),
    {
        let facets = self.boundary_facet_indices();
        let ghost n = self.simplices(self.dimension() - 1).len() as int;
        let ghost holds = |i: int| self.on_boundary(i);
        proof {
            let listed = indices_where(n, holds);
            assert(facets@.len() == listed.len());
            if facets@.len() > 0 {
                self.lemma_boundary_facet(0);
            }
            if exists|i: int| 0 <= i < n && self.on_boundary(i) {
                let i = choose|i: int| 0 <= i < n && self.on_boundary(i);
                indices_where_members(n, holds, i);
                assert(listed.contains(i));
            }
        }
        !facets.is_empty()
    }

    /// The cells of the boundary facets, each once.
    pub fn boundary_cells(&self) -> (cells: Vec<SimplexIdx>)
        requires
            self.wf(),
            self.dimension() >= 1,
        ensures
            cells@ == of_dim(self.dimension(), unique(self.boundary_facet_cells())),
    {
        let dim: Dim = self.dim();
        let facets = self.boundary_facet_indices();
        let mut kidxs: Vec<usize> = Vec::new();
        let mut i: usize = 0;
        while i < facets.len()
            invariant
                i <= facets@.len(),
                self.wf(),
                self.dimension() >= 1,
                dim == self.dimension(),
                facets@ == self.boundary_facet_kidxs(),
                kidxs@ =~= self.boundary_facet_cells().take(i as int),
                forall|j: int|
                    0 <= j < kidxs@.len() ==> #[trigger] kidxs@[j] < self.source_cells().len(),
            decreases facets@.len() - i,
        {
            proof {
                self.lemma_boundary_facet(i as int);
                self.cocells_are_cells(dim - 1, facets@[i as int] as int, 0);
            }
            let cell = self.cocells_of(dim - 1, facets[i])[0];
            kidxs.push(cell.kidx);
            i = i + 1;
        }
        proof {
            assert(kidxs@ =~= self.boundary_facet_cells());
            self.simplex_facts(dim as int);
        }
        let distinct = unique_indices(kidxs.as_slice(), self.nsimplices(dim));
        with_dim(dim, distinct.as_slice())
    }

    /// The vertices of the boundary facets, each once.
    pub fn boundary_vertices(&self) -> (vertices: Vec<usize>)
        requires
            self.wf(),
            self.dimension() >= 1,
        ensures
            vertices@ == unique(self.boundary_facet_vertices().flatten()),
            vertices@.no_duplicates(),
            forall|i: int|
                0 <= i < vertices@.len() ==> (#[trigger] vertices@[i]) < self.simplices(0).len(),
    {
        let dim: Dim = self.dim() - 1;
        let facets = self.boundary_facet_indices();
        let ghost lists = self.boundary_facet_vertices();
        let ghost nvertices = self.simplices(0).len();
        let mut all: Vec<usize> = Vec::new();
        let mut i: usize = 0;
        proof {
            assert(lists.take(0) =~= Seq::<Seq<usize>>::empty());
        }
        while i < facets.len()
            invariant
                i <= facets@.len(),
                self.wf(),
                self.dimension() >= 1,
                dim == self.dimension() - 1,
                facets@ == self.boundary_facet_kidxs(),
                lists == self.boundary_facet_vertices(),
                nvertices == self.simplices(0).len(),
                all@ == lists.take(i as int).flatten(),
                forall|j: int| 0 <= j < all@.len() ==> #[trigger] all@[j] < nvertices,
            decreases facets@.len() - i,
        {
            proof {
                self.lemma_boundary_facet(i as int);
                self.simplex_facts(dim as int);
                assert(lists.take(i + 1) =~= lists.take(i as int).push(lists[i as int]));
                lists.take(i as int).lemma_flatten_push(lists[i as int]);
            }
            let facet = self.simplex_at(dim, facets[i]);
            let ghost before = all@;
            let mut j: usize = 0;
            while j < facet.vertices.len()
                invariant
                    j <= facet@.len(),
                    facet@ == lists[i as int],
                    all@ =~= before + facet@.take(j as int),
                    forall|a: int| 0 <= a < facet@.len() ==> #[trigger] facet@[a] < nvertices,
                    forall|a: int| 0 <= a < all@.len() ==> #[trigger] all@[a] < nvertices,
                decreases facet@.len() - j,
            {
                all.push(facet.vertices[j]);
                j = j + 1;
            }
            proof {
                assert(facet@.take(j as int) =~= facet@);
            }
            i = i + 1;
        }
        proof {
            assert(lists.take(i as int) =~= lists);
            self.has_dimension();
        }
        unique_indices(all.as_slice(), self.nsimplices(0))
    }

    /// The `k`-simplices of the boundary: the boundary facets themselves in their own
    /// dimension, their subsimplices, each once, below; none above.
    pub fn boundary_subcomplex_simplices(&self, k: Dim) -> (simplices: Vec<SimplexIdx>)
        requires
            self.wf(),
        ensures
            simplices@ == (if k >= self.dimension() {
                Seq::<SimplexIdx>::empty()
            } else if k == self.dimension() - 1 {
                of_dim(k as int, self.boundary_facet_kidxs())
            } else {
                of_dim(k as int, unique(self.boundary_facet_subsimplices(k as int).flatten()))
            }),
            forall|i: int|
                0 <= i < simplices@.len() ==> (#[trigger] simplices@[i]).dim == k
                    && simplices@[i].kidx < self.simplices(k as int).len(),
    {
        let top: Dim = self.dim();
        if top == 0 || k > top - 1 {
            return Vec::new();
        }
        if k == top - 1 {
            let facets = self.boundary_facets();
            proof {
                assert forall|i: int| 0 <= i < facets@.len() implies (#[trigger] facets@[i]).dim
                    == k && facets@[i].kidx < self.simplices(k as int).len() by {
                    self.lemma_boundary_facet(i);
                }
            }
            return facets;
        }
        let facets = self.boundary_facet_indices();
        let ghost lists = self.boundary_facet_subsimplices(k as int);
        let n: usize = self.nsimplices(k);
        let mut all: Vec<usize> = Vec::new();
        let mut i: usize = 0;
        proof {
            assert(lists.take(0) =~= Seq::<Seq<usize>>::empty());
        }
        while i < facets.len()
            invariant
                i <= facets@.len(),
                self.wf(),
                self.dimension() >= 1,
                top == self.dimension(),
                k < top - 1,
                facets@ == self.boundary_facet_kidxs(),
                lists == self.boundary_facet_subsimplices(k as int),
                n == self.simplices(k as int).len(),
                all@ == lists.take(i as int).flatten(),
                forall|j: int| 0 <= j < all@.len() ==> #[trigger] all@[j] < n,
            decreases facets@.len() - i,
        {
            let ghost facet = facets@[i as int] as int;
            proof {
                self.lemma_boundary_facet(i as int);
                self.simplex_facts(k as int);
                assert(lists.take(i + 1) =~= lists.take(i as int).push(lists[i as int]));
                lists.take(i as int).lemma_flatten_push(lists[i as int]);
            }
            let subs = SimplexIdx::new(top - 1, facets[i]).handle(self).mesh_subsimps(k);
            let ghost before = all@;
            let ghost views = combinations(self.simplices(top - 1)[facet], (k + 1) as nat);
            let mut j: usize = 0;
            while j < subs.len()
                invariant
                    j <= subs@.len(),
                    self.wf(),
                    k <= self.dimension(),
                    n == self.simplices(k as int).len(),
                    self.simplices(k as int).no_duplicates(),
                    subs@.len() == views.len(),
                    lists[i as int] == Seq::new(
                        views.len(),
                        |a: int| self.simplices(k as int).index_of(views[a]) as usize,
                    ),
                    forall|a: int|
                        0 <= a < subs@.len() ==> (#[trigger] subs@[a]).wf() && subs@[a].complex()
                            == *self && subs@[a].index().dim == k && subs@[a].vertices()
                            == views[a],
                    all@ =~= before + lists[i as int].take(j as int),
                    forall|a: int| 0 <= a < all@.len() ==> #[trigger] all@[a] < n,
                decreases subs@.len() - j,
            {
                let kidx: usize = subs[j].kidx();
                proof {
                    assert(subs@[j as int].wf());
                    let level = self.simplices(k as int);
                    assert(level[kidx as int] == views[j as int]);
                    assert(level.contains(views[j as int]));
                    assert(level.index_of(views[j as int]) == kidx);
                }
                all.push(kidx);
                j = j + 1;
            }
            proof {
                assert(lists[i as int].take(j as int) =~= lists[i as int]);
            }
            i = i + 1;
        }
        proof {
            assert(lists.take(i as int) =~= lists);
        }
        let distinct = unique_indices(all.as_slice(), n);
        with_dim(k, distinct.as_slice())
    }
}

/// A flattened list holds what one of its parts holds.
pub proof fn flatten_members<A>(lists: Seq<Seq<A>>, x: A)
    ensures
        lists.flatten().contains(x) <==> exists|a: int|
            0 <= a < lists.len() && (#[trigger] lists[a]).contains(x),
    decreases lists.len(),
{
    if lists.len() > 0 {
        let head = lists[0];
        let tail = lists.drop_first();
        flatten_members(tail, x);
        let all = head + tail.flatten();
        assert(lists.flatten() == all);
        if head.contains(x) {
            let i = choose|i: int| 0 <= i < head.len() && head[i] == x;
            assert(all[i] == x);
        }
        if tail.flatten().contains(x) {
            let rest = tail.flatten();
            let i = choose|i: int| 0 <= i < rest.len() && rest[i] == x;
            assert(all[head.len() + i] == x);
            let a = choose|a: int| 0 <= a < tail.len() && (#[trigger] tail[a]).contains(x);
            assert(lists[a + 1].contains(x));
        }
        if exists|a: int| 0 <= a < lists.len() && (#[trigger] lists[a]).contains(x) {
            let a = choose|a: int| 0 <= a < lists.len() && (#[trigger] lists[a]).contains(x);
            if a > 0 {
                assert(tail[a - 1].contains(x));
            }
        }
        if all.contains(x) {
            let i = choose|i: int| 0 <= i < all.len() && all[i] == x;
            if i < head.len() {
                assert(lists[0].contains(x));
            } else {
                assert(tail.flatten()[i - head.len()] == x);
            }
        }
    } else {
        assert(lists.flatten() =~= Seq::<A>::empty());
    }
}

impl Complex {
    /// The boundary lists exactly the facets that belong to one cell only.
    pub proof fn boundary_facet_members(&self, i: int)
        requires
            self.wf(),
            self.dimension() >= 1,
            0 <= i < self.simplices(self.dimension() - 1).len(),
        ensures
            self.boundary_facet_kidxs().contains(i as usize) <==> self.on_boundary(i),
    {
        let k = self.dimension() - 1;
        let n = self.simplices(k).len() as int;
        let holds = |i: int| self.on_boundary(i);
        let listed = indices_where(n, holds);
        let kidxs = self.boundary_facet_kidxs();
        self.machine_sized_levels(k);
        indices_where_members(n, holds, i);
        indices_where_ascend(n, holds);
        if listed.contains(i) {
            let j = choose|j: int| 0 <= j < listed.len() && listed[j] == i;
            assert(kidxs[j] == i as usize);
        }
        if kidxs.contains(i as usize) {
            let j = choose|j: int| 0 <= j < kidxs.len() && kidxs[j] == i as usize;
            assert(0 <= listed[j] < n);
            assert(listed[j] == i);
        }
    }

    /// Below the facets, the boundary lists exactly the simplices that some boundary
    /// facet holds.
    pub proof fn boundary_subcomplex_members(&self, k: int, i: int)
        requires
            self.wf(),
            0 <= k < self.dimension() - 1,
            0 <= i < self.simplices(k).len(),
        ensures
            unique(self.boundary_facet_subsimplices(k).flatten()).contains(i as usize)
                <==> exists|f: int|
                0 <= f < self.simplices(self.dimension() - 1).len() && self.on_boundary(f)
                    && is_subsequence(
                    self.simplices(k)[i],
                    #[trigger] self.simplices(self.dimension() - 1)[f],
                ),
    {
        let top = self.dimension() - 1;
        let lists = self.boundary_facet_subsimplices(k);
        let facets = self.boundary_facet_kidxs();
        let s = self.simplices(k)[i];
        self.simplex_facts(k);
        self.simplex_facts(top);
        self.machine_sized_levels(k);
        self.machine_sized_levels(top);
        insert_all_members(Seq::<usize>::empty(), lists.flatten(), i as usize);
        flatten_members(lists, i as usize);
        if exists|a: int| 0 <= a < lists.len() && (#[trigger] lists[a]).contains(i as usize) {
            let a = choose|a: int| 0 <= a < lists.len() && (#[trigger] lists[a]).contains(
                i as usize,
            );
            self.lemma_boundary_facet(a);
            let f = facets[a] as int;
            let subs = combinations(self.simplices(top)[f], (k + 1) as nat);
            let b = choose|b: int| 0 <= b < lists[a].len() && lists[a][b] == i as usize;
            assert(subs.contains(subs[b]));
            combinations_are_subsequences(self.simplices(top)[f], (k + 1) as nat, subs[b]);
            lemma_subsequence_shorter(subs[b], self.simplices(top)[f]);
            self.closed_under_subsimplices(top, f, subs[b]);
            let at = self.simplices(k).index_of(subs[b]);
            assert(0 <= at < self.simplices(k).len() && self.simplices(k)[at] == subs[b]);
            assert(subs[b] == s);
        }
        if exists|f: int|
            0 <= f < self.simplices(top).len() && self.on_boundary(f) && is_subsequence(
                s,
                #[trigger] self.simplices(top)[f],
            ) {
            let f = choose|f: int|
                0 <= f < self.simplices(top).len() && self.on_boundary(f) && is_subsequence(
                    s,
                    #[trigger] self.simplices(top)[f],
                );
            self.boundary_facet_members(f);
            let a = choose|a: int| 0 <= a < facets.len() && facets[a] == f as usize;
            let subs = combinations(self.simplices(top)[f], (k + 1) as nat);
            combinations_are_subsequences(self.simplices(top)[f], (k + 1) as nat, s);
            let b = choose|b: int| 0 <= b < subs.len() && subs[b] == s;
            let at = self.simplices(k).index_of(s);
            assert(self.simplices(k).contains(s));
            assert(0 <= at < self.simplices(k).len() && self.simplices(k)[at] == s);
            assert(at == i);
            assert(self.facet_subsimplices(f, k)[b] == i as usize);
            assert(lists[a] == self.facet_subsimplices(f, k));
            assert(lists[a].contains(i as usize));
        }
    }
}

} // verus!
