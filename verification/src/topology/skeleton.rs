//! Skeletons: duplicate-free lists of simplices of one dimension.

use crate::topology::simplex::simplex_views;
use crate::topology::simplex::{Dim, Simplex};
use vstd::prelude::*;

verus! {

/// `base` followed by the entries of `items` that are not listed yet,
/// each once, in the order in which they first occur.
pub open spec fn insert_all<A>(base: Seq<A>, items: Seq<A>) -> Seq<A>
    decreases items.len(),
{
    if items.len() == 0 {
        base
    } else {
        let before = insert_all(base, items.drop_last());
        if before.contains(items.last()) {
            before
        } else {
            before.push(items.last())
        }
    }
}

/// The entries of `items`, each once, in the order in which they first occur.
pub open spec fn unique<A>(items: Seq<A>) -> Seq<A> {
    insert_all(Seq::empty(), items)
}

/// An entry is listed by `insert_all` exactly if the base or the items hold it.
pub proof fn insert_all_members<A>(base: Seq<A>, items: Seq<A>, x: A)
    ensures
        insert_all(base, items).contains(x) <==> base.contains(x) || items.contains(x),
    decreases items.len(),
{
    if items.len() > 0 {
        let before = insert_all(base, items.drop_last());
        insert_all_members(base, items.drop_last(), x);
        assert(items =~= items.drop_last().push(items.last()));
        let all = insert_all(base, items);
        if before.contains(x) {
            let i = choose|i: int| 0 <= i < before.len() && before[i] == x;
            assert(all[i] == x);
        }
        if items.contains(x) && !items.drop_last().contains(x) {
            let i = choose|i: int| 0 <= i < items.len() && items[i] == x;
            if i < items.len() - 1 {
                assert(items.drop_last()[i] == x);
            }
            if !before.contains(x) {
                assert(all[before.len() as int] == x);
            }
        }
        if items.drop_last().contains(x) {
            let i = choose|i: int| 0 <= i < items.drop_last().len() && items.drop_last()[i] == x;
            assert(items[i] == x);
        }
        if all.contains(x) && !before.contains(x) {
            assert(items[items.len() - 1] == x);
        }
    }
}

/// `insert_all` lists nothing twice where the base does not.
pub proof fn insert_all_no_duplicates<A>(base: Seq<A>, items: Seq<A>)
    requires
        base.no_duplicates(),
    ensures
        insert_all(base, items).no_duplicates(),
    decreases items.len(),
{
    if items.len() > 0 {
        insert_all_no_duplicates(base, items.drop_last());
    }
}

/// `insert_all` keeps the base as a prefix.
pub proof fn insert_all_keeps_base<A>(base: Seq<A>, items: Seq<A>)
    ensures
        insert_all(base, items).len() >= base.len(),
        insert_all(base, items).take(base.len() as int) == base,
    decreases items.len(),
{
    if items.len() > 0 {
        insert_all_keeps_base(base, items.drop_last());
    }
    assert(insert_all(base, items).take(base.len() as int) =~= base);
}

/// A list without duplicates is its own list of unique entries.
pub proof fn unique_of_distinct<A>(items: Seq<A>)
    requires
        items.no_duplicates(),
    ensures
        unique(items) == items,
    decreases items.len(),
{
    if items.len() > 0 {
        let front = items.drop_last();
        unique_of_distinct(front);
        assert(!front.contains(items.last())) by {
            if front.contains(items.last()) {
                let i = choose|i: int| 0 <= i < front.len() && front[i] == items.last();
                assert(items[i] == items[items.len() - 1]);
            }
        }
        assert(front.push(items.last()) =~= items);
    }
}

/// The entries of `items`, each once, in the order in which they first occur.
pub fn unique_indices(items: &[usize], bound: usize) -> (distinct: Vec<usize>)
    requires
        forall|i: int| 0 <= i < items@.len() ==> items@[i] < bound,
    ensures
        distinct@ == unique(items@),
        distinct@.no_duplicates(),
        forall|i: int| 0 <= i < distinct@.len() ==> (#[trigger] distinct@[i]) < bound,
{
    let mut seen: Vec<bool> = vec![false; bound];
    let mut distinct: Vec<usize> = Vec::new();
    let mut i: usize = 0;
    while i < items.len()
        invariant
            i <= items@.len(),
            seen@.len() == bound,
            forall|j: int| 0 <= j < items@.len() ==> items@[j] < bound,
            distinct@ == unique(items@.take(i as int)),
            forall|j: int| 0 <= j < distinct@.len() ==> (#[trigger] distinct@[j]) < bound,
            forall|v: usize| v < bound ==> (#[trigger] seen@[v as int] <==> distinct@.contains(v)),
        decreases items@.len() - i,
    {
        let v: usize = items[i];
        proof {
            assert(items@.take(i + 1).drop_last() =~= items@.take(i as int));
        }
        if !seen[v] {
            let ghost before = distinct@;
            distinct.push(v);
            seen[v] = true;
            proof {
                assert(distinct@[before.len() as int] == v);
                assert forall|w: usize| w < bound implies (#[trigger] seen@[w as int]
                    <==> distinct@.contains(w)) by {
                    if before.contains(w) {
                        let k = choose|k: int| 0 <= k < before.len() && before[k] == w;
                        assert(distinct@[k] == w);
                    }
                }
            }
        }
        i = i + 1;
    }
    proof {
        assert(items@.take(i as int) =~= items@);
        insert_all_no_duplicates(Seq::<usize>::empty(), items@);
    }
    distinct
}

/// A duplicate-free list of simplices of one dimension.
#[derive(Debug, Clone)]
pub struct Skeleton {
    simplices: Vec<Simplex>,
    nvertices: usize,
}

impl Default for Skeleton {
    /// No simplices.
    fn default() -> (skeleton: Self)
        ensures
            skeleton@.len() == 0,
    {
        Skeleton { simplices: Vec::new(), nvertices: 0 }
    }
}

/// All simplices have `n` vertices, none of them beyond `nvertices`.
pub open spec fn uniform(simplices: Seq<Seq<usize>>, n: int, nvertices: int) -> bool {
    forall|i: int|
        0 <= i < simplices.len() ==> (#[trigger] simplices[i]).len() == n && forall|j: int|
            0 <= j < n ==> simplices[i][j] < nvertices
}

/// The least number above every vertex of the list.
pub open spec fn vertex_bound(simplex: Seq<usize>) -> nat
    decreases simplex.len(),
{
    if simplex.len() == 0 {
        0
    } else {
        let before = vertex_bound(simplex.drop_last());
        if simplex.last() + 1 > before {
            (simplex.last() + 1) as nat
        } else {
            before
        }
    }
}

/// The least number above every vertex of every simplex of the list.
pub open spec fn vertex_bound_all(simplices: Seq<Seq<usize>>) -> nat
    decreases simplices.len(),
{
    if simplices.len() == 0 {
        0
    } else {
        let before = vertex_bound_all(simplices.drop_last());
        let here = vertex_bound(simplices.last());
        if here > before {
            here
        } else {
            before
        }
    }
}

proof fn lemma_vertex_bound(simplex: Seq<usize>)
    ensures
        forall|j: int| 0 <= j < simplex.len() ==> simplex[j] < vertex_bound(simplex),
    decreases simplex.len(),
{
    if simplex.len() > 0 {
        let front = simplex.drop_last();
        lemma_vertex_bound(front);
        assert forall|j: int| 0 <= j < simplex.len() implies simplex[j] < vertex_bound(simplex) by {
            if j < front.len() {
                assert(front[j] == simplex[j]);
            }
        }
    }
}

/// A list whose entries stay below `bound` has no larger vertex bound.
pub proof fn vertex_bound_at_most(simplex: Seq<usize>, bound: nat)
    requires
        forall|j: int| 0 <= j < simplex.len() ==> simplex[j] < bound,
    ensures
        vertex_bound(simplex) <= bound,
    decreases simplex.len(),
{
    if simplex.len() > 0 {
        vertex_bound_at_most(simplex.drop_last(), bound);
    }
}

proof fn lemma_vertex_bound_all(simplices: Seq<Seq<usize>>)
    ensures
        forall|i: int, j: int|
            0 <= i < simplices.len() && 0 <= j < simplices[i].len() ==> simplices[i][j]
                < vertex_bound_all(simplices),
    decreases simplices.len(),
{
    if simplices.len() > 0 {
        let front = simplices.drop_last();
        lemma_vertex_bound_all(front);
        lemma_vertex_bound(simplices.last());
        assert forall|i: int, j: int|
            0 <= i < simplices.len() && 0 <= j < simplices[i].len() implies simplices[i][j]
            < vertex_bound_all(simplices) by {
            if i < front.len() {
                assert(front[i] == simplices[i]);
            }
        }
    }
}

impl View for Skeleton {
    type V = Seq<Seq<usize>>;

    closed spec fn view(&self) -> Seq<Seq<usize>> {
        simplex_views(self.simplices@)
    }
}

impl Skeleton {
    /// One more than the largest vertex the skeleton was built with.
    pub closed spec fn vertex_count(&self) -> nat {
        self.nvertices as nat
    }

    /// No simplex is listed twice, all have the same number of vertices, at least one.
    pub open spec fn wf(&self) -> bool {
        &&& self@.no_duplicates()
        &&& self@.len() > 0 ==> self@[0].len() >= 1 && uniform(
            self@,
            self@[0].len() as int,
            self.vertex_count() as int,
        )
    }

    /// The skeleton without simplices.
    pub fn empty() -> (skeleton: Self)
        ensures
            skeleton.wf(),
            skeleton@ == Seq::<Seq<usize>>::empty(),
            skeleton.vertex_count() == 0,
    {
        let skeleton = Skeleton { simplices: Vec::new(), nvertices: 0 };
        proof {
            assert(skeleton@ =~= Seq::<Seq<usize>>::empty());
        }
        skeleton
    }

    /// The skeleton of the given simplices, each listed once.
    pub fn new(simplices: Vec<Simplex>) -> (skeleton: Self)
        requires
            simplices@.len() > 0,
            simplices@[0]@.len() >= 1,
            forall|i: int|
                0 <= i < simplices@.len() ==> (#[trigger] simplices@[i])@.len()
                    == simplices@[0]@.len(),
            vertex_bound_all(simplex_views(simplices@)) <= usize::MAX,
        ensures
            skeleton.wf(),
            skeleton@ == unique(simplex_views(simplices@)),
            skeleton@.len() > 0,
            skeleton@[0] == simplices@[0]@,
            skeleton.vertex_count() == vertex_bound_all(simplex_views(simplices@)),
    {
        let ghost views = simplex_views(simplices@);
        let mut skeleton = Skeleton::empty();
        let mut i: usize = 0;
        proof {
            assert(views.take(0) =~= Seq::<Seq<usize>>::empty());
        }
        while i < simplices.len()
            invariant
                i <= simplices@.len(),
                views == simplex_views(simplices@),
                simplices@.len() > 0,
                simplices@[0]@.len() >= 1,
                forall|j: int|
                    0 <= j < simplices@.len() ==> (#[trigger] simplices@[j])@.len()
                        == simplices@[0]@.len(),
                vertex_bound_all(views) <= usize::MAX,
                skeleton.wf(),
                skeleton@ == unique(views.take(i as int)),
                i > 0 ==> skeleton@.len() > 0 && skeleton@[0] == views[0],
                skeleton.vertex_count() == vertex_bound_all(views.take(i as int)),
            decreases simplices@.len() - i,
        {
            proof {
                assert(views.take(i + 1).drop_last() =~= views.take(i as int));
                assert(views.take(i + 1).last() == simplices@[i as int]@);
                lemma_vertex_bound_mono(views, i + 1);
            }
            let (_, _) = skeleton.insert(simplices[i].clone());
            i = i + 1;
        }
        proof {
            assert(views.take(i as int) =~= views);
        }
        skeleton
    }

    /// The skeleton of the reference simplex alone.
    pub fn standard(dim: Dim) -> (skeleton: Self)
        requires
            dim < usize::MAX - 1,
        ensures
            skeleton.wf(),
            skeleton@ == seq![Seq::new((dim + 1) as nat, |i: int| i as usize)],
            skeleton.vertex_count() == dim + 1,
    {
        let simplex = Simplex::standard(dim);
        let ghost standard = simplex@;
        let mut simplices: Vec<Simplex> = Vec::new();
        simplices.push(simplex);
        proof {
            lemma_standard_bound((dim + 1) as nat);
            let views = simplex_views(simplices@);
            assert(views =~= seq![standard]);
            assert(views.drop_last() =~= Seq::<Seq<usize>>::empty());
            assert(vertex_bound_all(views.drop_last()) == 0);
            assert(vertex_bound_all(views) == dim + 1);
            unique_of_distinct(views);
        }
        Skeleton::new(simplices)
    }

    /// Number of simplices.
    pub fn len(&self) -> (n: usize)
        ensures
            n == self@.len(),
    {
        self.simplices.len()
    }

    /// Whether there is no simplex.
    pub fn is_empty(&self) -> (none: bool)
        ensures
            none == (self@.len() == 0),
    {
        self.simplices.len() == 0
    }

    /// One more than the largest vertex.
    pub fn nvertices(&self) -> (n: usize)
        ensures
            n == self.vertex_count(),
    {
        self.nvertices
    }

    /// The common dimension of the simplices.
    pub fn dim(&self) -> (dim: Dim)
        requires
            self.wf(),
            self@.len() > 0,
        ensures
            dim == self@[0].len() - 1,
    {
        self.simplices[0].dim()
    }

    /// The simplex with index `kidx`.
    pub fn simplex_by_kidx(&self, kidx: usize) -> (simplex: &Simplex)
        requires
            kidx < self@.len(),
        ensures
            simplex@ == self@[kidx as int],
    {
        &self.simplices[kidx]
    }

    /// The index of a simplex, if it is listed.
    pub fn kidx_by_simplex(&self, simplex: &Simplex) -> (kidx: Option<usize>)
        ensures
            match kidx {
                Some(i) => i < self@.len() && self@[i as int] == simplex@,
                None => !self@.contains(simplex@),
            },
    {
        let mut i: usize = 0;
        while i < self.simplices.len()
            invariant
                i <= self.simplices@.len(),
                forall|j: int| 0 <= j < i ==> self@[j] != simplex@,
            decreases self.simplices@.len() - i,
        {
            if self.simplices[i].same(simplex) {
                return Some(i);
            }
            i = i + 1;
        }
        None
    }

    /// Lists the simplex if it is not listed yet; its index, and whether it is new.
    pub fn insert(&mut self, simplex: Simplex) -> (at: (usize, bool))
        requires
            old(self).wf(),
            simplex@.len() >= 1,
            old(self)@.len() > 0 ==> old(self)@[0].len() == simplex@.len(),
            vertex_bound(simplex@) <= usize::MAX,
        ensures
            final(self).wf(),
            at.0 < final(self)@.len(),
            final(self)@[at.0 as int] == simplex@,
            at.1 == !old(self)@.contains(simplex@),
            final(self)@ == (if at.1 {
                old(self)@.push(simplex@)
            } else {
                old(self)@
            }),
            final(self).vertex_count() == (if vertex_bound(simplex@) > old(self).vertex_count() {
                vertex_bound(simplex@)
            } else {
                old(self).vertex_count()
            }),
    {
        let mut bound: usize = 0;
        let mut j: usize = 0;
        proof {
            lemma_vertex_bound(simplex@);
        }
        while j < simplex.vertices.len()
            invariant
                j <= simplex@.len(),
                vertex_bound(simplex@) <= usize::MAX,
                forall|a: int| 0 <= a < simplex@.len() ==> simplex@[a] < vertex_bound(simplex@),
                bound == vertex_bound(simplex@.take(j as int)),
            decreases simplex@.len() - j,
        {
            proof {
                assert(simplex@.take(j + 1).drop_last() =~= simplex@.take(j as int));
            }
            let v: usize = simplex.vertices[j];
            assert(simplex@[j as int] < vertex_bound(simplex@));
            if v + 1 > bound {
                bound = v + 1;
            }
            j = j + 1;
        }
        proof {
            assert(simplex@.take(j as int) =~= simplex@);
        }
        let ghost before = self@;
        if bound > self.nvertices {
            self.nvertices = bound;
        }
        match self.kidx_by_simplex(&simplex) {
            Some(kidx) => {
                proof {
                    assert(self@ =~= before);
                    assert forall|i: int| 0 <= i < self@.len() implies (
                    #[trigger] self@[i]).len() == self@[0].len() && forall|j: int|
                        0 <= j < self@[0].len() ==> self@[i][j] < self.vertex_count() by {
                        assert(before[i].len() == before[0].len());
                    }
                }
                (kidx, false)
            },
            None => {
                let ghost view = simplex@;
                let kidx: usize = self.simplices.len();
                self.simplices.push(simplex);
                proof {
                    assert(self@ =~= before.push(view));
                    assert(self@.no_duplicates());
                    assert(self@[0].len() == view.len());
                    assert forall|i: int| 0 <= i < self@.len() implies (
                    #[trigger] self@[i]).len() == self@[0].len() && forall|j: int|
                        0 <= j < self@[0].len() ==> self@[i][j] < self.vertex_count() by {
                        if i < before.len() {
                            assert(before[i].len() == before[0].len());
                        }
                    }
                }
                (kidx, true)
            },
        }
    }
}

/// A skeleton is held in memory, so its sizes are machine numbers.
pub proof fn machine_sized(skeleton: &Skeleton)
    requires
        skeleton@.len() > 0,
    ensures
        skeleton@[0].len() <= usize::MAX,
        skeleton@.len() <= usize::MAX,
        skeleton.vertex_count() <= usize::MAX,
{
    assert(skeleton.simplices.len() == skeleton@.len());
    assert(skeleton@[0] == skeleton.simplices@[0].vertices@);
    assert(skeleton.simplices@[0].vertices.len() == skeleton.simplices@[0].vertices@.len());
}

proof fn lemma_vertex_bound_mono(simplices: Seq<Seq<usize>>, n: int)
    requires
        0 < n <= simplices.len(),
    ensures
        vertex_bound_all(simplices.take(n)) <= vertex_bound_all(simplices),
        vertex_bound(simplices[n - 1]) <= vertex_bound_all(simplices),
    decreases simplices.len(),
{
    if n < simplices.len() {
        lemma_vertex_bound_mono(simplices.drop_last(), n);
        assert(simplices.drop_last().take(n) =~= simplices.take(n));
    } else {
        assert(simplices.take(n) =~= simplices);
    }
}

proof fn lemma_standard_bound(n: nat)
    requires
        n <= usize::MAX,
    ensures
        vertex_bound(Seq::new(n, |i: int| i as usize)) == n,
    decreases n,
{
    if n > 0 {
        let s = Seq::new(n, |i: int| i as usize);
        lemma_standard_bound((n - 1) as nat);
        assert(s.drop_last() =~= Seq::new((n - 1) as nat, |i: int| i as usize));
    }
}

} // verus!
