//! Simplicial complexes built from their cells.

use crate::topology::handle::{KSimplexIdx, SimplexIdx};
use crate::topology::simplex::{
    combinations, combinations_are_subsequences, combinations_distinct, is_subsequence, simplex_views, subsequence_entries,
    lemma_single_entry, subsequence_reflexive, subsequence_remove, subsequence_transitive,
};
use crate::topology::simplex::{Dim, Simplex};
use crate::topology::skeleton::{
    insert_all, insert_all_members, machine_sized, uniform, unique_of_distinct,
    vertex_bound_at_most,
};
use crate::topology::skeleton::Skeleton;
use vstd::prelude::*;

verus! {

/// The subsimplices `subs` of cell `icell`.
pub open spec fn tagged(subs: Seq<Seq<usize>>, icell: int) -> Seq<(Seq<usize>, int)> {
    Seq::new(subs.len(), |i: int| (subs[i], icell))
}

/// The `k`-subsimplices of all cells, cell by cell, each with the cell it was met in.
pub open spec fn occurrences(cells: Seq<Seq<usize>>, k: nat) -> Seq<(Seq<usize>, int)>
    decreases cells.len(),
{
    if cells.len() == 0 {
        Seq::empty()
    } else {
        occurrences(cells.drop_last(), k) + tagged(
            combinations(cells.last(), k + 1),
            cells.len() - 1,
        )
    }
}

/// The simplices of a list of occurrences.
pub open spec fn occurring(list: Seq<(Seq<usize>, int)>) -> Seq<Seq<usize>> {
    Seq::new(list.len(), |i: int| list[i].0)
}

/// The cells in which `simplex` was met, in order.
pub open spec fn holders(list: Seq<(Seq<usize>, int)>, simplex: Seq<usize>) -> Seq<int>
    decreases list.len(),
{
    if list.len() == 0 {
        Seq::empty()
    } else {
        let before = holders(list.drop_last(), simplex);
        if list.last().0 == simplex {
            before.push(list.last().1)
        } else {
            before
        }
    }
}

/// The vertices `0..n` as simplices.
pub open spec fn vertex_simplices(n: nat) -> Seq<Seq<usize>> {
    Seq::new(n, |i: int| seq![i as usize])
}

/// What the skeleton of dimension `k` lists before any cell is looked at.
pub open spec fn skeleton_base(nvertices: nat, k: nat) -> Seq<Seq<usize>> {
    if k == 0 {
        vertex_simplices(nvertices)
    } else {
        Seq::empty()
    }
}

/// The `k`-simplices of the complex of the given cells.
pub open spec fn skeleton_simplices(cells: Seq<Seq<usize>>, nvertices: nat, k: nat) -> Seq<
    Seq<usize>,
> {
    insert_all(skeleton_base(nvertices, k), occurring(occurrences(cells, k)))
}

/// Cell numbers as indices of `dim`-simplices.
pub open spec fn cell_indices(dim: nat, numbers: Seq<int>) -> Seq<SimplexIdx> {
    Seq::new(numbers.len(), |i: int| SimplexIdx { dim: dim as usize, kidx: numbers[i] as usize })
}

/// Every facet belongs to one cell or to two.
pub open spec fn manifold(cells: Seq<Seq<usize>>, nvertices: nat, dim: nat) -> bool {
    dim >= 1 ==> forall|i: int|
        0 <= i < skeleton_simplices(cells, nvertices, (dim - 1) as nat).len() ==> 1 <= holders(
            occurrences(cells, (dim - 1) as nat),
            #[trigger] skeleton_simplices(cells, nvertices, (dim - 1) as nat)[i],
        ).len() <= 2
}

/// The cells that hold a simplex of a complex.
#[derive(Debug, Clone)]
pub struct SimplexComplexData {
    pub cocells: Vec<SimplexIdx>,
}

impl Default for SimplexComplexData {
    /// No cells.
    fn default() -> (data: Self)
        ensures
            data.cocells@.len() == 0,
    {
        SimplexComplexData { cocells: Vec::new() }
    }
}

/// The cell data of the simplices of a skeleton.
pub type SkeletonComplexData = Vec<SimplexComplexData>;

/// A skeleton inside of a complex.
#[derive(Debug, Clone)]
pub struct ComplexSkeleton {
    skeleton: Skeleton,
    complex_data: SkeletonComplexData,
}

impl ComplexSkeleton {
    /// The simplices.
    pub closed spec fn simplices(&self) -> Seq<Seq<usize>> {
        self.skeleton@
    }

    /// The cell data, simplex by simplex.
    pub closed spec fn data(&self) -> Seq<SimplexComplexData> {
        self.complex_data@
    }

    /// The skeleton of dimension `k` of the complex of the given cells.
    pub closed spec fn built_from(
        &self,
        cells: Seq<Seq<usize>>,
        nvertices: nat,
        dim: nat,
        k: nat,
    ) -> bool {
        &&& self.skeleton.wf()
        &&& self.skeleton@ == skeleton_simplices(cells, nvertices, k)
        &&& self.complex_data@.len() == self.skeleton@.len()
        &&& forall|i: int|
            0 <= i < self.complex_data@.len() ==> (#[trigger] self.complex_data@[i]).cocells@
                == cell_indices(dim, holders(occurrences(cells, k), self.skeleton@[i]))
    }

    pub fn skeleton(&self) -> (skeleton: &Skeleton)
        ensures
            skeleton@ == self.simplices(),
    {
        &self.skeleton
    }

    pub fn complex_data(&self) -> (data: &[SimplexComplexData])
        ensures
            data@ == self.data(),
    {
        self.complex_data.as_slice()
    }
}

impl Default for ComplexSkeleton {
    /// No simplices.
    fn default() -> (skeleton: Self)
        ensures
            skeleton.simplices().len() == 0,
            skeleton.data().len() == 0,
    {
        ComplexSkeleton { skeleton: Skeleton::default(), complex_data: Vec::new() }
    }
}

/// A simplicial manifold complex.
#[derive(Clone)]
pub struct Complex {
    skeletons: Vec<ComplexSkeleton>,
    source: Ghost<Seq<Seq<usize>>>,
}

impl Default for Complex {
    /// No skeletons, and so no dimension.
    fn default() -> (complex: Self)
        ensures
            complex.dimension() == -1,
            complex.source_cells().len() == 0,
    {
        Complex { skeletons: Vec::new(), source: Ghost(Seq::empty()) }
    }
}

impl Complex {
    /// Dimension of the complex.
    pub closed spec fn dimension(&self) -> int {
        self.skeletons@.len() - 1
    }

    /// The `k`-simplices as vertex lists.
    pub closed spec fn simplices(&self, k: int) -> Seq<Seq<usize>> {
        self.skeletons@[k].skeleton@
    }

    /// The cells that hold simplex `i` of dimension `k`.
    pub closed spec fn cocells(&self, k: int, i: int) -> Seq<SimplexIdx> {
        self.skeletons@[k].complex_data@[i].cocells@
    }

    /// The cells from which the complex was built.
    pub closed spec fn source_cells(&self) -> Seq<Seq<usize>> {
        self.source@
    }

    /// The complex is the one of its source cells, and a manifold.
    pub closed spec fn wf(&self) -> bool {
        let cells = self.source@;
        let nvertices = self.simplices(0).len();
        let dim = self.dimension();
        &&& dim >= 0
        &&& cells.len() > 0
        &&& cells.len() <= usize::MAX
        &&& cells.no_duplicates()
        &&& uniform(cells, dim + 1, nvertices as int)
        &&& forall|k: int|
            0 <= k <= dim ==> (#[trigger] self.skeletons@[k]).built_from(
                cells,
                nvertices,
                dim as nat,
                k as nat,
            )
        &&& manifold(cells, nvertices, dim as nat)
    }
}

proof fn lemma_occurrences_members(cells: Seq<Seq<usize>>, k: nat, s: Seq<usize>, c: int)
    ensures
        occurrences(cells, k).contains((s, c)) <==> 0 <= c < cells.len() && combinations(
            cells[c],
            k + 1,
        ).contains(s),
    decreases cells.len(),
{
    if cells.len() > 0 {
        let front = cells.drop_last();
        lemma_occurrences_members(front, k, s, c);
        let head = occurrences(front, k);
        let subs = combinations(cells.last(), k + 1);
        let tail = tagged(subs, cells.len() - 1);
        if head.contains((s, c)) {
            let i = choose|i: int| 0 <= i < head.len() && head[i] == (s, c);
            assert((head + tail)[i] == (s, c));
        }
        if c == cells.len() - 1 && subs.contains(s) {
            let i = choose|i: int| 0 <= i < subs.len() && subs[i] == s;
            assert((head + tail)[head.len() + i] == (s, c));
        }
        if occurrences(cells, k).contains((s, c)) {
            let i = choose|i: int| 0 <= i < (head + tail).len() && (head + tail)[i] == (s, c);
            if i < head.len() {
                assert(head[i] == (s, c));
                assert(front[c] == cells[c]);
            } else {
                assert(tail[i - head.len()] == (s, c));
                assert(subs[i - head.len()] == s);
            }
        }
        if 0 <= c < front.len() {
            assert(front[c] == cells[c]);
        }
    }
}

proof fn lemma_occurring_members(list: Seq<(Seq<usize>, int)>, s: Seq<usize>)
    ensures
        occurring(list).contains(s) <==> exists|c: int| list.contains((s, c)),
{
    if occurring(list).contains(s) {
        let i = choose|i: int| 0 <= i < occurring(list).len() && occurring(list)[i] == s;
        assert(list[i] == (s, list[i].1));
        assert(list.contains((s, list[i].1)));
    }
    if exists|c: int| list.contains((s, c)) {
        let c = choose|c: int| list.contains((s, c));
        let i = choose|i: int| 0 <= i < list.len() && list[i] == (s, c);
        assert(occurring(list)[i] == s);
    }
}

proof fn lemma_holders_members(list: Seq<(Seq<usize>, int)>, s: Seq<usize>, c: int)
    ensures
        holders(list, s).contains(c) <==> list.contains((s, c)),
    decreases list.len(),
{
    if list.len() > 0 {
        let front = list.drop_last();
        let before = holders(front, s);
        let all = holders(list, s);
        lemma_holders_members(front, s, c);
        if before.contains(c) {
            let i = choose|i: int| 0 <= i < before.len() && before[i] == c;
            assert(all[i] == c);
        }
        if front.contains((s, c)) {
            let i = choose|i: int| 0 <= i < front.len() && front[i] == (s, c);
            assert(list[i] == (s, c));
        }
        if list.contains((s, c)) && !front.contains((s, c)) {
            let i = choose|i: int| 0 <= i < list.len() && list[i] == (s, c);
            if i < front.len() {
                assert(front[i] == (s, c));
            }
            assert(all[before.len() as int] == c);
        }
        if all.contains(c) && !before.contains(c) {
            assert(list[list.len() - 1] == (s, c));
        }
    }
}

/// The `k`-simplices of a complex are the `k`-subsimplices of its cells,
/// together with all vertices in dimension zero.
pub proof fn skeleton_members(cells: Seq<Seq<usize>>, nvertices: nat, k: nat, s: Seq<usize>)
    ensures
        skeleton_simplices(cells, nvertices, k).contains(s) <==> (k == 0 && vertex_simplices(
            nvertices,
        ).contains(s)) || (s.len() == k + 1 && exists|c: int|
            0 <= c < cells.len() && is_subsequence(s, #[trigger] cells[c])),
{
    let list = occurrences(cells, k);
    insert_all_members(skeleton_base(nvertices, k), occurring(list), s);
    lemma_occurring_members(list, s);
    if exists|c: int| list.contains((s, c)) {
        let c = choose|c: int| list.contains((s, c));
        lemma_occurrences_members(cells, k, s, c);
        combinations_are_subsequences(cells[c], k + 1, s);
    }
    if s.len() == k + 1 && exists|c: int|
        0 <= c < cells.len() && is_subsequence(s, #[trigger] cells[c]) {
        let c = choose|c: int| 0 <= c < cells.len() && is_subsequence(s, #[trigger] cells[c]);
        lemma_occurrences_members(cells, k, s, c);
        combinations_are_subsequences(cells[c], k + 1, s);
        assert(list.contains((s, c)));
    }
}

proof fn lemma_holders_push(list: Seq<(Seq<usize>, int)>, item: (Seq<usize>, int), s: Seq<usize>)
    ensures
        holders(list.push(item), s) == (if item.0 == s {
            holders(list, s).push(item.1)
        } else {
            holders(list, s)
        }),
{
    assert(list.push(item).drop_last() =~= list);
}

proof fn lemma_no_holder(list: Seq<(Seq<usize>, int)>, base: Seq<Seq<usize>>, s: Seq<usize>)
    requires
        !insert_all(base, occurring(list)).contains(s),
    ensures
        holders(list, s) == Seq::<int>::empty(),
{
    insert_all_members(base, occurring(list), s);
    lemma_occurring_members(list, s);
    if holders(list, s).len() > 0 {
        let c = holders(list, s)[0];
        assert(holders(list, s).contains(c));
        lemma_holders_members(list, s, c);
    }
    assert(holders(list, s) =~= Seq::<int>::empty());
}

proof fn lemma_sub_of_uniform(cells: Seq<Seq<usize>>, n: int, nvertices: int, c: int, m: nat, i: int)
    requires
        uniform(cells, n, nvertices),
        0 <= c < cells.len(),
        0 <= i < combinations(cells[c], m).len(),
        nvertices >= 0,
    ensures
        combinations(cells[c], m)[i].len() == m,
        forall|j: int| 0 <= j < m ==> combinations(cells[c], m)[i][j] < nvertices,
{
    let s = combinations(cells[c], m)[i];
    assert(combinations(cells[c], m).contains(s));
    combinations_are_subsequences(cells[c], m, s);
    assert forall|j: int| 0 <= j < m implies s[j] < nvertices by {
        let at = subsequence_entries(s, cells[c], j);
        assert(cells[c][at] < nvertices);
    }
}

impl ComplexSkeleton {
    /// The vertices `0..n`, held by no cell yet.
    fn of_vertices(n: usize) -> (result: Self)
        ensures
            result.skeleton.wf(),
            result.skeleton@ == vertex_simplices(n as nat),
            result.complex_data@.len() == n,
            forall|i: int|
                0 <= i < n ==> (#[trigger] result.complex_data@[i]).cocells@ == Seq::<
                    SimplexIdx,
                >::empty(),
    {
        let mut skeleton = Skeleton::empty();
        let mut complex_data: SkeletonComplexData = Vec::new();
        let mut v: usize = 0;
        while v < n
            invariant
                v <= n,
                skeleton.wf(),
                skeleton@ == vertex_simplices(v as nat),
                complex_data@.len() == v,
                forall|i: int|
                    0 <= i < v ==> (#[trigger] complex_data@[i]).cocells@ == Seq::<
                        SimplexIdx,
                    >::empty(),
            decreases n - v,
        {
            let simplex = Simplex::single(v);
            proof {
                vertex_bound_at_most(simplex@, (v + 1) as nat);
                assert(!skeleton@.contains(simplex@)) by {
                    if skeleton@.contains(simplex@) {
                        let i = choose|i: int| 0 <= i < v && skeleton@[i] == simplex@;
                        assert(skeleton@[i][0] == i as usize);
                        assert(simplex@[0] == v);
                    }
                }
            }
            let (_, _) = skeleton.insert(simplex);
            complex_data.push(SimplexComplexData { cocells: Vec::new() });
            v = v + 1;
            proof {
                assert(skeleton@ =~= vertex_simplices(v as nat));
            }
        }
        ComplexSkeleton { skeleton, complex_data }
    }

    /// The simplices that were met so far, with the cells in which they were met.
    closed spec fn lists(
        &self,
        base: Seq<Seq<usize>>,
        list: Seq<(Seq<usize>, int)>,
        dim: nat,
        k: nat,
    ) -> bool {
        &&& self.skeleton.wf()
        &&& self.skeleton@ == insert_all(base, occurring(list))
        &&& self.skeleton@.len() > 0 ==> self.skeleton@[0].len() == k + 1
        &&& self.complex_data@.len() == self.skeleton@.len()
        &&& forall|i: int|
            0 <= i < self.complex_data@.len() ==> (#[trigger] self.complex_data@[i]).cocells@
                == cell_indices(dim, holders(list, self.skeleton@[i]))
    }

    /// Notes that a simplex was met in a cell.
    fn note(
        &mut self,
        sub: Simplex,
        dim: Dim,
        icell: usize,
        Ghost(base): Ghost<Seq<Seq<usize>>>,
        Ghost(list): Ghost<Seq<(Seq<usize>, int)>>,
        Ghost(k): Ghost<nat>,
        Ghost(n): Ghost<nat>,
    )
        requires
            old(self).lists(base, list, dim as nat, k),
            base == skeleton_base(n, k),
            sub@.len() == k + 1,
            crate::topology::skeleton::vertex_bound(sub@) <= n,
            n <= usize::MAX,
        ensures
            final(self).lists(base, list.push((sub@, icell as int)), dim as nat, k),
    {
        let ghost s = sub@;
        let ghost item = (s, icell as int);
        let ghost next = list.push(item);
        let ghost before = self.skeleton@;
        let ghost data_before = self.complex_data@;
        proof {
            assert(occurring(next).drop_last() =~= occurring(list));
            assert(occurring(next).last() == s);
            if !before.contains(s) {
                lemma_no_holder(list, base, s);
            }
        }
        let (at, is_new) = self.skeleton.insert(sub);
        if is_new {
            self.complex_data.push(SimplexComplexData { cocells: Vec::new() });
        }
        let ghost data_mid = self.complex_data@;
        self.complex_data[at].cocells.push(SimplexIdx::new(dim, icell));
        proof {
            assert forall|i: int| 0 <= i < self.complex_data@.len() implies (
            #[trigger] self.complex_data@[i]).cocells@ == cell_indices(
                dim as nat,
                holders(next, self.skeleton@[i]),
            ) by {
                lemma_holders_push(list, item, self.skeleton@[i]);
                if i == at {
                    assert(self.complex_data@[i].cocells@ =~= cell_indices(
                        dim as nat,
                        holders(next, self.skeleton@[i]),
                    ));
                } else {
                    assert(self.complex_data@[i] == data_mid[i]);
                    assert(i < before.len());
                    assert(data_before[i] == data_mid[i]);
                    assert(self.skeleton@[i] != s);
                }
            }
        }
    }

    /// The skeleton of dimension `k` of the complex of the given cells.
    fn of_cells(cells: &Skeleton, dim: Dim, k: Dim) -> (result: Self)
        requires
            cells.wf(),
            cells@.len() > 0,
            cells@[0].len() == dim + 1,
            k <= dim,
            dim < usize::MAX,
        ensures
            result.built_from(cells@, cells.vertex_count(), dim as nat, k as nat),
    {
        let n: usize = cells.nvertices();
        let mut result = if k == 0 {
            ComplexSkeleton::of_vertices(n)
        } else {
            ComplexSkeleton { skeleton: Skeleton::empty(), complex_data: Vec::new() }
        };
        let ghost base = skeleton_base(n as nat, k as nat);
        let ghost mut list: Seq<(Seq<usize>, int)> = Seq::empty();
        proof {
            assert(result.skeleton@ =~= base);
            assert(occurring(list) =~= Seq::<Seq<usize>>::empty());
            assert(cells@.take(0) =~= Seq::<Seq<usize>>::empty());
            assert forall|i: int| 0 <= i < result.complex_data@.len() implies (
            #[trigger] result.complex_data@[i]).cocells@ == cell_indices(
                dim as nat,
                holders(list, result.skeleton@[i]),
            ) by {
                assert(cell_indices(dim as nat, holders(list, result.skeleton@[i])) =~= Seq::<
                    SimplexIdx,
                >::empty());
            }
        }
        let mut icell: usize = 0;
        while icell < cells.len()
            invariant
                icell <= cells@.len(),
                cells.wf(),
                cells@.len() > 0,
                cells@[0].len() == dim + 1,
                k <= dim,
                dim < usize::MAX,
                base == skeleton_base(n as nat, k as nat),
                n == cells.vertex_count(),
                list == occurrences(cells@.take(icell as int), k as nat),
                result.lists(base, list, dim as nat, k as nat),
            decreases cells@.len() - icell,
        {
            let subs = cells.simplex_by_kidx(icell).subsequences(k);
            let ghost views = combinations(cells@[icell as int], (k + 1) as nat);
            let ghost start = list;
            let mut j: usize = 0;
            proof {
                assert(start + tagged(views, icell as int).take(0) =~= start);
            }
            while j < subs.len()
                invariant
                    j <= subs@.len(),
                    icell < cells@.len(),
                    simplex_views(subs@) == views,
                    views == combinations(cells@[icell as int], (k + 1) as nat),
                    cells.wf(),
                    cells@.len() > 0,
                    cells@[0].len() == dim + 1,
                    k <= dim,
                    dim < usize::MAX,
                    base == skeleton_base(n as nat, k as nat),
                    n == cells.vertex_count(),
                    list == start + tagged(views, icell as int).take(j as int),
                    result.lists(base, list, dim as nat, k as nat),
                decreases subs@.len() - j,
            {
                let sub = subs[j].clone();
                let ghost s = sub@;
                let ghost next = list.push((s, icell as int));
                proof {
                    assert(s == views[j as int]);
                    lemma_sub_of_uniform(
                        cells@,
                        dim + 1,
                        n as int,
                        icell as int,
                        (k + 1) as nat,
                        j as int,
                    );
                    vertex_bound_at_most(s, n as nat);
                    assert(start + tagged(views, icell as int).take(j + 1) =~= next);
                }
                result.note(
                    sub,
                    dim,
                    icell,
                    Ghost(base),
                    Ghost(list),
                    Ghost(k as nat),
                    Ghost(n as nat),
                );
                proof {
                    list = next;
                }
                j = j + 1;
            }
            proof {
                assert(tagged(views, icell as int).take(j as int) =~= tagged(views, icell as int));
                assert(cells@.take(icell + 1).drop_last() =~= cells@.take(icell as int));
                assert(cells@.take(icell + 1).last() == cells@[icell as int]);
            }
            icell = icell + 1;
        }
        proof {
            assert(cells@.take(icell as int) =~= cells@);
        }
        result
    }
}

proof fn lemma_insert_known<A>(base: Seq<A>, items: Seq<A>)
    requires
        forall|i: int| 0 <= i < items.len() ==> base.contains(#[trigger] items[i]),
    ensures
        insert_all(base, items) == base,
    decreases items.len(),
{
    if items.len() > 0 {
        let front = items.drop_last();
        assert forall|i: int| 0 <= i < front.len() implies base.contains(#[trigger] front[i]) by {
            assert(front[i] == items[i]);
        }
        lemma_insert_known(base, front);
        assert(base.contains(items[items.len() - 1]));
    }
}

/// In dimension zero a complex lists exactly the vertices, in order.
pub proof fn vertex_skeleton(cells: Seq<Seq<usize>>, n: int, nvertices: nat)
    requires
        uniform(cells, n, nvertices as int),
        nvertices <= usize::MAX,
    ensures
        skeleton_simplices(cells, nvertices, 0) == vertex_simplices(nvertices),
{
    let list = occurrences(cells, 0);
    let items = occurring(list);
    let base = vertex_simplices(nvertices);
    assert forall|i: int| 0 <= i < items.len() implies base.contains(#[trigger] items[i]) by {
        let s = items[i];
        let c = list[i].1;
        assert(list.contains((s, c)));
        lemma_occurrences_members(cells, 0, s, c);
        combinations_are_subsequences(cells[c], 1, s);
        let at = subsequence_entries(s, cells[c], 0);
        assert(cells[c][at] < nvertices);
        assert(s =~= seq![s[0]]);
        assert(base[s[0] as int] == s);
    }
    lemma_insert_known(base, items);
}

proof fn lemma_only_choice(s: Seq<usize>)
    ensures
        combinations(s, s.len()) == seq![s],
    decreases s.len(),
{
    if s.len() == 0 {
        assert(s =~= Seq::<usize>::empty());
    } else {
        let tail = s.drop_first();
        lemma_only_choice(tail);
        lemma_too_many(tail, s.len());
        assert(seq![s[0]] + tail =~= s);
        assert(combinations(s, s.len()) =~= seq![s]);
    }
}

proof fn lemma_too_many(s: Seq<usize>, m: nat)
    requires
        m > s.len(),
    ensures
        combinations(s, m) == Seq::<Seq<usize>>::empty(),
    decreases s.len(),
{
    if s.len() > 0 {
        lemma_too_many(s.drop_first(), m);
        lemma_too_many(s.drop_first(), (m - 1) as nat);
    }
    assert(combinations(s, m) =~= Seq::<Seq<usize>>::empty());
}

proof fn lemma_cells_occur_once(cells: Seq<Seq<usize>>, dim: nat)
    requires
        forall|c: int| 0 <= c < cells.len() ==> (#[trigger] cells[c]).len() == dim + 1,
    ensures
        occurring(occurrences(cells, dim)) == cells,
    decreases cells.len(),
{
    if cells.len() > 0 {
        let front = cells.drop_last();
        assert forall|c: int| 0 <= c < front.len() implies (#[trigger] front[c]).len() == dim
            + 1 by {
            assert(front[c] == cells[c]);
        }
        lemma_cells_occur_once(front, dim);
        lemma_only_choice(cells.last());
        assert(occurring(occurrences(front, dim)).len() == front.len());
        let all = occurring(occurrences(cells, dim));
        assert forall|i: int| 0 <= i < cells.len() implies all[i] == cells[i] by {
            if i < front.len() {
                assert(occurring(occurrences(front, dim))[i] == front[i]);
            }
        }
        assert(all =~= cells);
    } else {
        assert(occurring(occurrences(cells, dim)) =~= cells);
    }
}

/// The cells of a complex of positive dimension are the cells it was built from, in order.
pub proof fn cell_skeleton(cells: Seq<Seq<usize>>, nvertices: nat, dim: nat)
    requires
        dim >= 1,
        cells.no_duplicates(),
        uniform(cells, (dim + 1) as int, nvertices as int),
    ensures
        skeleton_simplices(cells, nvertices, dim) == cells,
{
    lemma_cells_occur_once(cells, dim);
    unique_of_distinct(cells);
}

proof fn lemma_holders_of_cell(
    head: Seq<(Seq<usize>, int)>,
    subs: Seq<Seq<usize>>,
    c: int,
    n: int,
    s: Seq<usize>,
)
    requires
        subs.no_duplicates(),
        0 <= n <= subs.len(),
    ensures
        holders(head + tagged(subs, c).take(n), s) == (if subs.take(n).contains(s) {
            holders(head, s).push(c)
        } else {
            holders(head, s)
        }),
    decreases n,
{
    let list = head + tagged(subs, c).take(n);
    if n > 0 {
        lemma_holders_of_cell(head, subs, c, n - 1, s);
        assert(list.drop_last() =~= head + tagged(subs, c).take(n - 1));
        assert(list.last() == (subs[n - 1], c));
        let front = subs.take(n - 1);
        if front.contains(s) {
            let i = choose|i: int| 0 <= i < front.len() && front[i] == s;
            assert(subs.take(n)[i] == s);
            assert(subs[i] == s);
            assert(subs[n - 1] != s);
        } else if subs[n - 1] == s {
            assert(subs.take(n)[n - 1] == s);
        } else if subs.take(n).contains(s) {
            let i = choose|i: int| 0 <= i < n && subs.take(n)[i] == s;
            assert(front[i] == s);
        }
    } else {
        assert(list =~= head);
    }
}

proof fn lemma_holders_ascend(cells: Seq<Seq<usize>>, k: nat, s: Seq<usize>)
    requires
        forall|c: int| 0 <= c < cells.len() ==> (#[trigger] cells[c]).no_duplicates(),
    ensures
        forall|a: int|
            0 <= a < holders(occurrences(cells, k), s).len() ==> 0 <= #[trigger] holders(
                occurrences(cells, k),
                s,
            )[a] < cells.len(),
        forall|a: int, b: int|
            0 <= a < b < holders(occurrences(cells, k), s).len() ==> #[trigger] holders(
                occurrences(cells, k),
                s,
            )[a] < #[trigger] holders(occurrences(cells, k), s)[b],
    decreases cells.len(),
{
    if cells.len() > 0 {
        let front = cells.drop_last();
        let c = cells.len() - 1;
        let subs = combinations(cells.last(), k + 1);
        assert forall|d: int| 0 <= d < front.len() implies (#[trigger] front[d]).no_duplicates() by {
            assert(front[d] == cells[d]);
        }
        assert(cells[c].no_duplicates());
        lemma_holders_ascend(front, k, s);
        combinations_distinct(cells.last(), k + 1);
        lemma_holders_of_cell(occurrences(front, k), subs, c, subs.len() as int, s);
        assert(tagged(subs, c).take(subs.len() as int) =~= tagged(subs, c));
        assert(subs.take(subs.len() as int) =~= subs);
    }
}

impl Complex {
    /// What every complex satisfies: its simplices have the length of their
    /// dimension, are listed once, and have vertices of the complex; dimension
    /// zero lists the vertices in order, the top dimension the source cells.
    pub proof fn simplex_facts(&self, k: int)
        requires
            self.wf(),
            0 <= k <= self.dimension(),
        ensures
            self.simplices(k).no_duplicates(),
            uniform(self.simplices(k), k + 1, self.simplices(0).len() as int),
            self.simplices(0) == vertex_simplices(self.simplices(0).len()),
            self.simplices(0).len() <= usize::MAX,
            self.dimension() >= 1 ==> self.simplices(self.dimension()) == self.source_cells(),
            uniform(
                self.source_cells(),
                self.dimension() + 1,
                self.simplices(0).len() as int,
            ),
            self.simplices(k) == skeleton_simplices(
                self.source_cells(),
                self.simplices(0).len(),
                k as nat,
            ),
    {
        let cells = self.source@;
        let n = self.simplices(0).len();
        let dim = self.dimension();
        assert(self.skeletons@[k].built_from(cells, n, dim as nat, k as nat));
        assert(self.skeletons@[0].built_from(cells, n, dim as nat, 0));
        assert(self.skeletons@[0].complex_data@.len() == n);
        assert(n == self.skeletons@[0].complex_data.len());
        vertex_skeleton(cells, dim + 1, n);
        if dim >= 1 {
            assert(self.skeletons@[dim].built_from(cells, n, dim as nat, dim as nat));
            cell_skeleton(cells, n, dim as nat);
        }
        assert forall|i: int| 0 <= i < self.simplices(k).len() implies (
        #[trigger] self.simplices(k)[i]).len() == k + 1 && forall|j: int|
            0 <= j < k + 1 ==> self.simplices(k)[i][j] < n by {
            let s = self.simplices(k)[i];
            assert(self.simplices(k).contains(s));
            skeleton_members(cells, n, k as nat, s);
            if k == 0 {
                assert(self.simplices(0)[i] == vertex_simplices(n)[i]);
            } else {
                let c = choose|c: int|
                    0 <= c < cells.len() && is_subsequence(s, #[trigger] cells[c]);
                assert forall|j: int| 0 <= j < k + 1 implies s[j] < n by {
                    let at = subsequence_entries(s, cells[c], j);
                    assert(cells[c][at] < n);
                }
            }
        }
    }

    /// A complex is held in memory, so each dimension lists a machine number of simplices.
    pub proof fn machine_sized_levels(&self, k: int)
        requires
            self.wf(),
            0 <= k <= self.dimension(),
        ensures
            self.simplices(k).len() <= usize::MAX,
            self.dimension() < usize::MAX,
    {
        assert(self.skeletons@[k].built_from(
            self.source@,
            self.simplices(0).len(),
            self.dimension() as nat,
            k as nat,
        ));
        assert(self.skeletons@[k].complex_data.len() == self.simplices(k).len());
        assert(self.skeletons.len() == self.dimension() + 1);
    }

    /// A complex has at least its vertices.
    pub proof fn has_dimension(&self)
        requires
            self.wf(),
        ensures
            self.dimension() >= 0,
            self.source_cells().len() > 0,
    {
    }

    /// A complex is closed: each subsimplex of a simplex of the complex belongs to it.
    pub proof fn closed_under_subsimplices(&self, k: int, i: int, t: Seq<usize>)
        requires
            self.wf(),
            0 <= k <= self.dimension(),
            0 <= i < self.simplices(k).len(),
            is_subsequence(t, self.simplices(k)[i]),
            1 <= t.len() <= k + 1,
        ensures
            self.simplices(t.len() - 1).contains(t),
    {
        let cells = self.source@;
        let n = self.simplices(0).len();
        let s = self.simplices(k)[i];
        let m = (t.len() - 1) as nat;
        self.simplex_facts(k);
        self.simplex_facts(m as int);
        assert(self.simplices(k).contains(s));
        skeleton_members(cells, n, k as nat, s);
        skeleton_members(cells, n, m, t);
        if k == 0 && vertex_simplices(n).contains(s) {
            assert(t =~= s) by {
                let at = subsequence_entries(t, s, 0);
            }
        } else {
            let c = choose|c: int| 0 <= c < cells.len() && is_subsequence(s, #[trigger] cells[c]);
            subsequence_transitive(t, s, cells[c]);
        }
    }

    /// A complex is closed under taking faces.
    pub proof fn closed_under_faces(&self, k: int, i: int, j: int)
        requires
            self.wf(),
            1 <= k <= self.dimension(),
            0 <= i < self.simplices(k).len(),
            0 <= j <= k,
        ensures
            self.simplices(k)[i].len() == k + 1,
            self.simplices(k - 1).contains(self.simplices(k)[i].remove(j)),
    {
        self.simplex_facts(k);
        let s = self.simplices(k)[i];
        subsequence_reflexive(s);
        subsequence_remove(s, s, j);
        self.closed_under_subsimplices(k, i, s.remove(j));
    }

    /// The cells listed for a simplex are exactly the source cells that hold it.
    pub proof fn cocells_hold_simplex(&self, k: int, i: int, c: int)
        requires
            self.wf(),
            0 <= k <= self.dimension(),
            0 <= i < self.simplices(k).len(),
            0 <= c < self.source_cells().len(),
        ensures
            self.cocells(k, i).contains(
                SimplexIdx { dim: self.dimension() as usize, kidx: c as usize },
            ) <==> is_subsequence(self.simplices(k)[i], self.source_cells()[c]),
    {
        let cells = self.source@;
        let n = self.simplices(0).len();
        let s = self.simplices(k)[i];
        let list = occurrences(cells, k as nat);
        let idx = SimplexIdx { dim: self.dimension() as usize, kidx: c as usize };
        self.simplex_facts(k);
        assert(self.skeletons@[k].built_from(cells, n, self.dimension() as nat, k as nat));
        assert(self.cocells(k, i) == cell_indices(self.dimension() as nat, holders(list, s)));
        lemma_holders_members(list, s, c);
        lemma_occurrences_members(cells, k as nat, s, c);
        combinations_are_subsequences(cells[c], (k + 1) as nat, s);
        if holders(list, s).contains(c) {
            let j = choose|j: int| 0 <= j < holders(list, s).len() && holders(list, s)[j] == c;
            assert(self.cocells(k, i)[j] == idx);
        }
        if self.cocells(k, i).contains(idx) {
            let j = choose|j: int| 0 <= j < self.cocells(k, i).len() && self.cocells(k, i)[j] == idx;
            let d = holders(list, s)[j];
            assert(holders(list, s).contains(d));
            lemma_holders_members(list, s, d);
            lemma_occurrences_members(cells, k as nat, s, d);
            assert(d as usize == c as usize);
        }
    }

    /// The cells of a simplex are listed in ascending order, each of them once, if no cell has a
    /// vertex twice.
    pub proof fn cocells_ascend(&self, k: int, i: int, a: int, b: int)
        requires
            self.wf(),
            0 <= k <= self.dimension(),
            0 <= i < self.simplices(k).len(),
            0 <= a < b < self.cocells(k, i).len(),
            forall|c: int|
                0 <= c < self.source_cells().len() ==> (
                #[trigger] self.source_cells()[c]).no_duplicates(),
        ensures
            self.cocells(k, i)[a].kidx < self.cocells(k, i)[b].kidx,
    {
        let cells = self.source@;
        let n = self.simplices(0).len();
        let s = self.simplices(k)[i];
        let list = occurrences(cells, k as nat);
        assert(self.skeletons@[k].built_from(cells, n, self.dimension() as nat, k as nat));
        assert(self.cocells(k, i) == cell_indices(self.dimension() as nat, holders(list, s)));
        assert forall|c: int| 0 <= c < cells.len() implies (
        #[trigger] cells[c]).no_duplicates() by {
            assert(self.source_cells()[c] == cells[c]);
        }
        lemma_holders_ascend(cells, k as nat, s);
    }

    /// Every cell listed for a simplex is an index of a source cell.
    pub proof fn cocells_are_cells(&self, k: int, i: int, j: int)
        requires
            self.wf(),
            0 <= k <= self.dimension(),
            0 <= i < self.simplices(k).len(),
            0 <= j < self.cocells(k, i).len(),
        ensures
            self.cocells(k, i)[j].dim == self.dimension(),
            self.cocells(k, i)[j].kidx < self.source_cells().len(),
    {
        let cells = self.source@;
        let n = self.simplices(0).len();
        let s = self.simplices(k)[i];
        let list = occurrences(cells, k as nat);
        assert(self.skeletons@[k].built_from(cells, n, self.dimension() as nat, k as nat));
        let d = holders(list, s)[j];
        assert(holders(list, s).contains(d));
        lemma_holders_members(list, s, d);
        lemma_occurrences_members(cells, k as nat, s, d);
        assert(self.skeletons.len() == self.skeletons@.len());
    }

    /// Every facet of a manifold complex belongs to one cell or to two.
    pub proof fn facets_are_manifold(&self, i: int)
        requires
            self.wf(),
            self.dimension() >= 1,
            0 <= i < self.simplices(self.dimension() - 1).len(),
        ensures
            1 <= self.cocells(self.dimension() - 1, i).len() <= 2,
    {
        let cells = self.source@;
        let n = self.simplices(0).len();
        let k = self.dimension() - 1;
        assert(self.skeletons@[k].built_from(cells, n, self.dimension() as nat, k as nat));
        assert(self.simplices(k)[i] == skeleton_simplices(cells, n, k as nat)[i]);
    }
}

impl Complex {
    /// The complex of the given cells, if it is a manifold.
    pub fn try_from_cells(cells: Skeleton) -> (complex: Option<Self>)
        requires
            cells.wf(),
            cells@.len() > 0,
        ensures
            complex is Some <==> manifold(
                cells@,
                cells.vertex_count(),
                (cells@[0].len() - 1) as nat,
            ),
            match complex {
                Some(complex) => {
                    &&& complex.wf()
                    &&& complex.source_cells() == cells@
                    &&& complex.dimension() == cells@[0].len() - 1
                    &&& complex.simplices(0).len() == cells.vertex_count()
                },
                None => true,
            },
    {
        let dim: Dim = cells.dim();
        let ghost n = cells.vertex_count();
        let mut skeletons: Vec<ComplexSkeleton> = Vec::new();
        let mut k: usize = 0;
        proof {
            machine_sized(&cells);
        }
        while k <= dim
            invariant
                k <= dim + 1,
                cells.wf(),
                cells@.len() > 0,
                cells@[0].len() == dim + 1,
                dim < usize::MAX,
                n == cells.vertex_count(),
                skeletons@.len() == k,
                forall|i: int|
                    0 <= i < k ==> (#[trigger] skeletons@[i]).built_from(
                        cells@,
                        n,
                        dim as nat,
                        i as nat,
                    ),
            decreases dim + 1 - k,
        {
            let skeleton = ComplexSkeleton::of_cells(&cells, dim, k);
            skeletons.push(skeleton);
            k = k + 1;
        }
        let complex = Complex { skeletons, source: Ghost(cells@) };
        proof {
            vertex_skeleton(cells@, dim + 1, n);
            assert(complex.skeletons@[0].built_from(cells@, n, dim as nat, 0));
            assert(complex.simplices(0).len() == n);
        }
        if dim >= 1 {
            let facets = &complex.skeletons[dim - 1].complex_data;
            let ghost sk = skeleton_simplices(cells@, n, (dim - 1) as nat);
            let ghost list = occurrences(cells@, (dim - 1) as nat);
            proof {
                assert(complex.skeletons@[dim - 1].built_from(
                    cells@,
                    n,
                    dim as nat,
                    (dim - 1) as nat,
                ));
            }
            let mut i: usize = 0;
            while i < facets.len()
                invariant
                    i <= facets@.len(),
                    dim >= 1,
                    cells@.len() > 0,
                    cells@[0].len() == dim + 1,
                    n == cells.vertex_count(),
                    sk == skeleton_simplices(cells@, n, (dim - 1) as nat),
                    list == occurrences(cells@, (dim - 1) as nat),
                    facets@.len() == sk.len(),
                    forall|j: int|
                        0 <= j < facets@.len() ==> (#[trigger] facets@[j]).cocells@
                            == cell_indices(dim as nat, holders(list, sk[j])),
                    forall|j: int| 0 <= j < i ==> 1 <= holders(list, #[trigger] sk[j]).len() <= 2,
                decreases facets@.len() - i,
            {
                let nparents: usize = facets[i].cocells.len();
                proof {
                    assert(nparents == holders(list, sk[i as int]).len());
                }
                if nparents != 1 && nparents != 2 {
                    return None;
                }
                i = i + 1;
            }
        }
        Some(complex)
    }

    /// The complex of the given cells, which must form a manifold.
    pub fn from_cells(cells: Skeleton) -> (complex: Self)
        requires
            cells.wf(),
            cells@.len() > 0,
            manifold(cells@, cells.vertex_count(), (cells@[0].len() - 1) as nat),
        ensures
            complex.wf(),
            complex.source_cells() == cells@,
            complex.dimension() == cells@[0].len() - 1,
            complex.simplices(0).len() == cells.vertex_count(),
    {
        match Complex::try_from_cells(cells) {
            Some(complex) => complex,
            None => {
                proof {
                    assert(false);
                }
                Complex { skeletons: Vec::new(), source: Ghost(Seq::empty()) }
            },
        }
    }
}


proof fn lemma_single_cell_occurrences(cell: Seq<usize>, k: nat)
    ensures
        occurrences(seq![cell], k) == tagged(combinations(cell, k + 1), 0),
{
    let cells = seq![cell];
    assert(cells.drop_last() =~= Seq::<Seq<usize>>::empty());
    assert(occurrences(cells.drop_last(), k) =~= Seq::<(Seq<usize>, int)>::empty());
    assert(occurrences(cells, k) =~= tagged(combinations(cell, k + 1), 0));
}

impl Complex {
    /// The complex of the reference simplex.
    pub fn standard(dim: Dim) -> (complex: Self)
        requires
            dim < usize::MAX - 1,
        ensures
            complex.wf(),
            complex.dimension() == dim,
            complex.source_cells() == seq![Seq::new((dim + 1) as nat, |i: int| i as usize)],
            complex.simplices(0).len() == dim + 1,
    {
        let cells = Skeleton::standard(dim);
        proof {
            let cell = Seq::new((dim + 1) as nat, |i: int| i as usize);
            let n = (dim + 1) as nat;
            assert(cells@[0] == cell);
            if dim >= 1 {
                let k = (dim - 1) as nat;
                let subs = combinations(cell, k + 1);
                let list = occurrences(cells@, k);
                lemma_single_cell_occurrences(cell, k);
                combinations_distinct(cell, k + 1);
                assert forall|i: int| 0 <= i < skeleton_simplices(cells@, n, k).len() implies 1
                    <= holders(list, #[trigger] skeleton_simplices(cells@, n, k)[i]).len() <= 2 by {
                    let s = skeleton_simplices(cells@, n, k)[i];
                    assert(skeleton_simplices(cells@, n, k).contains(s));
                    skeleton_members(cells@, n, k, s);
                    combinations_are_subsequences(cell, k + 1, s);
                    if k == 0 && vertex_simplices(n).contains(s) {
                        let v = choose|v: int| 0 <= v < n && vertex_simplices(n)[v] == s;
                        lemma_single_entry(cell, v);
                        assert(s =~= seq![cell[v]]);
                    }
                    let none = Seq::<(Seq<usize>, int)>::empty();
                    lemma_holders_of_cell(none, subs, 0, subs.len() as int, s);
                    assert(none + tagged(subs, 0) =~= tagged(subs, 0));
                    assert(subs.take(subs.len() as int) =~= subs);
                    assert(tagged(subs, 0).take(subs.len() as int) =~= tagged(subs, 0));
                }
            }
        }
        Complex::from_cells(cells)
    }

    /// Dimension of the complex.
    pub fn dim(&self) -> (dim: Dim)
        requires
            self.wf(),
        ensures
            dim == self.dimension(),
    {
        self.skeletons.len() - 1
    }

    /// The skeleton of dimension `dim` with its cell data.
    pub fn mesh_skeleton_raw(&self, dim: Dim) -> (skeleton: &ComplexSkeleton)
        requires
            self.wf(),
            dim <= self.dimension(),
        ensures
            skeleton.simplices() == self.simplices(dim as int),
            skeleton.data().len() == self.simplices(dim as int).len(),
            forall|i: int|
                0 <= i < skeleton.data().len() ==> (#[trigger] skeleton.data()[i]).cocells@
                    == self.cocells(dim as int, i),
    {
        proof {
            assert(self.skeletons@[dim as int].built_from(
                self.source@,
                self.simplices(0).len(),
                self.dimension() as nat,
                dim as nat,
            ));
        }
        &self.skeletons[dim]
    }

    /// Number of simplices of dimension `dim`.
    pub fn nsimplices(&self, dim: Dim) -> (n: usize)
        requires
            self.wf(),
            dim <= self.dimension(),
        ensures
            n == self.simplices(dim as int).len(),
    {
        self.skeletons[dim].skeleton.len()
    }

    /// The simplex with the given index.
    pub fn simplex_at(&self, dim: Dim, kidx: KSimplexIdx) -> (simplex: &Simplex)
        requires
            self.wf(),
            dim <= self.dimension(),
            kidx < self.simplices(dim as int).len(),
        ensures
            simplex@ == self.simplices(dim as int)[kidx as int],
    {
        self.skeletons[dim].skeleton.simplex_by_kidx(kidx)
    }

    /// The index of a simplex of the complex among those of its dimension.
    pub fn index_of(&self, dim: Dim, simplex: &Simplex) -> (kidx: Option<KSimplexIdx>)
        requires
            self.wf(),
            dim <= self.dimension(),
        ensures
            match kidx {
                Some(i) => i < self.simplices(dim as int).len() && self.simplices(
                    dim as int,
                )[i as int] == simplex@,
                None => !self.simplices(dim as int).contains(simplex@),
            },
    {
        self.skeletons[dim].skeleton.kidx_by_simplex(simplex)
    }

    /// The cells that hold the simplex with the given index.
    pub fn cocells_of(&self, dim: Dim, kidx: KSimplexIdx) -> (cells: &Vec<SimplexIdx>)
        requires
            self.wf(),
            dim <= self.dimension(),
            kidx < self.simplices(dim as int).len(),
        ensures
            cells@ == self.cocells(dim as int, kidx as int),
    {
        proof {
            assert(self.skeletons@[dim as int].built_from(
                self.source@,
                self.simplices(0).len(),
                self.dimension() as nat,
                dim as nat,
            ));
        }
        &self.skeletons[dim].complex_data[kidx].cocells
    }
}

} // verus!
