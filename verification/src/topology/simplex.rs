//! Abstract simplices: ordered vertex lists, their subsequences and their boundary.

use vstd::prelude::*;

verus! {

/// Dimension of a simplex, a skeleton or a complex.
pub type Dim = usize;

/// Index of a vertex of the mesh.
pub type VertexIdx = usize;

/// Orientation of a face relative to the simplex it bounds.
#[derive(Clone, Copy, PartialEq, Eq, Structural, Debug)]
pub enum Sign {
    Pos,
    Neg,
}

/// `(-1)^n`.
pub open spec fn parity_sign(n: int) -> int {
    if n % 2 == 0 {
        1
    } else {
        -1
    }
}

impl Sign {
    /// The sign as an integer, `1` or `-1`.
    pub open spec fn value(self) -> int {
        match self {
            Sign::Pos => 1,
            Sign::Neg => -1,
        }
    }

    /// The sign `(-1)^n`.
    pub fn from_parity(n: usize) -> (sign: Sign)
        ensures
            sign.value() == parity_sign(n as int),
    {
        if n % 2 == 0 {
            Sign::Pos
        } else {
            Sign::Neg
        }
    }

    /// The sign as a machine integer.
    pub fn as_i64(self) -> (value: i64)
        ensures
            value == self.value(),
    {
        match self {
            Sign::Pos => 1,
            Sign::Neg => -1,
        }
    }

    /// The opposite sign.
    pub fn other(self) -> (sign: Sign)
        ensures
            sign.value() == -self.value(),
    {
        match self {
            Sign::Pos => Sign::Neg,
            Sign::Neg => Sign::Pos,
        }
    }
}

/// Number of ways to pick `k` items out of `n`.
pub open spec fn binomial(n: nat, k: nat) -> nat
    decreases n,
{
    if k == 0 {
        1
    } else if n == 0 {
        0
    } else {
        binomial((n - 1) as nat, (k - 1) as nat) + binomial((n - 1) as nat, k)
    }
}

/// All choices of `m` entries of `s`, each in the order of `s`,
/// listed lexicographically by the positions picked.
pub open spec fn combinations(s: Seq<usize>, m: nat) -> Seq<Seq<usize>>
    decreases s.len(),
{
    if m == 0 {
        seq![Seq::empty()]
    } else if s.len() == 0 {
        Seq::empty()
    } else {
        prepend_all(s[0], combinations(s.drop_first(), (m - 1) as nat)) + combinations(
            s.drop_first(),
            m,
        )
    }
}

/// Each list of `lists` with `head` put in front.
pub open spec fn prepend_all(head: usize, lists: Seq<Seq<usize>>) -> Seq<Seq<usize>> {
    Seq::new(lists.len(), |i: int| seq![head] + lists[i])
}

/// The pairs and the triples of four entries.
pub proof fn combinations_of_four(s: Seq<usize>)
    requires
        s.len() == 4,
    ensures
        combinations(s, 2) == seq![
            seq![s[0], s[1]],
            seq![s[0], s[2]],
            seq![s[0], s[3]],
            seq![s[1], s[2]],
            seq![s[1], s[3]],
            seq![s[2], s[3]],
        ],
        combinations(s, 3) == seq![
            seq![s[0], s[1], s[2]],
            seq![s[0], s[1], s[3]],
            seq![s[0], s[2], s[3]],
            seq![s[1], s[2], s[3]],
        ],
{
    let t = s.drop_first();
    let u = t.drop_first();
    let w = u.drop_first();
    let e = w.drop_first();
    let none = Seq::<Seq<usize>>::empty();
    assert(combinations(e, 0) =~~= seq![Seq::<usize>::empty()]);
    assert(combinations(w, 0) =~~= seq![Seq::<usize>::empty()]);
    assert(combinations(u, 0) =~~= seq![Seq::<usize>::empty()]);
    assert(combinations(e, 1) =~~= none);
    assert(combinations(e, 2) =~~= none);
    assert(combinations(e, 3) =~~= none);
    assert(combinations(w, 1) =~~= seq![seq![s[3]]]);
    assert(combinations(w, 2) =~~= none);
    assert(combinations(w, 3) =~~= none);
    assert(combinations(u, 1) =~~= seq![seq![s[2]], seq![s[3]]]);
    assert(combinations(u, 2) =~~= seq![seq![s[2], s[3]]]);
    assert(combinations(u, 3) =~~= none);
    assert(combinations(t, 1) =~~= seq![seq![s[1]], seq![s[2]], seq![s[3]]]);
    assert(combinations(t, 2) =~~= seq![seq![s[1], s[2]], seq![s[1], s[3]], seq![s[2], s[3]]]);
    assert(combinations(t, 3) =~~= seq![seq![s[1], s[2], s[3]]]);
    assert(combinations(s, 2) =~~= seq![
        seq![s[0], s[1]],
        seq![s[0], s[2]],
        seq![s[0], s[3]],
        seq![s[1], s[2]],
        seq![s[1], s[3]],
        seq![s[2], s[3]],
    ]);
    assert(combinations(s, 3) =~~= seq![
        seq![s[0], s[1], s[2]],
        seq![s[0], s[1], s[3]],
        seq![s[0], s[2], s[3]],
        seq![s[1], s[2], s[3]],
    ]);
}

/// Whether `t` arises from `s` by leaving out entries.
pub open spec fn is_subsequence(t: Seq<usize>, s: Seq<usize>) -> bool
    decreases s.len(),
{
    if t.len() == 0 {
        true
    } else if s.len() == 0 {
        false
    } else {
        (t[0] == s[0] && is_subsequence(t.drop_first(), s.drop_first())) || is_subsequence(
            t,
            s.drop_first(),
        )
    }
}

/// Ascending order.
pub open spec fn sorted(s: Seq<usize>) -> bool {
    forall|i: int, j: int| 0 <= i <= j < s.len() ==> s[i] <= s[j]
}

/// The faces of a simplex with their orientations: face `i` leaves out the
/// `i`-th vertex from the end and carries the sign of that vertex's position.
pub open spec fn boundary_faces(s: Seq<usize>) -> Seq<(Seq<usize>, int)> {
    Seq::new(s.len(), |i: int| (s.remove(s.len() - 1 - i), parity_sign(s.len() - 1 - i)))
}

/// There are `binomial(n, m)` choices of `m` out of `n` entries.
pub proof fn combinations_count(s: Seq<usize>, m: nat)
    ensures
        combinations(s, m).len() == binomial(s.len(), m),
    decreases s.len(),
{
    if m > 0 && s.len() > 0 {
        combinations_count(s.drop_first(), (m - 1) as nat);
        combinations_count(s.drop_first(), m);
    }
}

/// The choices of `m` entries of `s` are exactly its subsequences of length `m`.
pub proof fn combinations_are_subsequences(s: Seq<usize>, m: nat, t: Seq<usize>)
    ensures
        combinations(s, m).contains(t) <==> t.len() == m && is_subsequence(t, s),
    decreases s.len(),
{
    if m == 0 {
        assert(combinations(s, m) =~= seq![Seq::<usize>::empty()]);
        if t.len() == 0 {
            assert(t =~= Seq::<usize>::empty());
            assert(combinations(s, m)[0] == t);
        }
    } else if s.len() > 0 {
        let tail = s.drop_first();
        let taken = prepend_all(s[0], combinations(tail, (m - 1) as nat));
        let left = combinations(tail, m);
        combinations_are_subsequences(tail, m, t);
        if t.len() > 0 {
            combinations_are_subsequences(tail, (m - 1) as nat, t.drop_first());
        }
        if t.len() == m && is_subsequence(t, s) {
            if left.contains(t) {
                let i = choose|i: int| 0 <= i < left.len() && left[i] == t;
                assert((taken + left)[taken.len() + i] == t);
            } else {
                let shorter = combinations(tail, (m - 1) as nat);
                let i = choose|i: int| 0 <= i < shorter.len() && shorter[i] == t.drop_first();
                assert(t =~= seq![s[0]] + t.drop_first());
                assert((taken + left)[i] == t);
            }
        }
        if combinations(s, m).contains(t) {
            let i = choose|i: int| 0 <= i < combinations(s, m).len() && combinations(s, m)[i] == t;
            if i < taken.len() {
                let rest = combinations(tail, (m - 1) as nat)[i];
                assert(t == seq![s[0]] + rest);
                assert(t.drop_first() =~= rest);
                assert(combinations(tail, (m - 1) as nat).contains(rest));
            } else {
                assert(left[i - taken.len()] == t);
            }
        }
    }
}

/// A subsequence of the tail is one of the whole.
proof fn lemma_subsequence_of_tail(t: Seq<usize>, s: Seq<usize>)
    requires
        s.len() > 0,
        is_subsequence(t, s.drop_first()),
    ensures
        is_subsequence(t, s),
{
}

/// Leaving out one more entry of a subsequence gives a subsequence.
pub proof fn subsequence_remove(t: Seq<usize>, s: Seq<usize>, j: int)
    requires
        is_subsequence(t, s),
        0 <= j < t.len(),
    ensures
        is_subsequence(t.remove(j), s),
    decreases s.len(),
{
    if t[0] == s[0] && is_subsequence(t.drop_first(), s.drop_first()) {
        if j == 0 {
            assert(t.remove(0) =~= t.drop_first());
            lemma_subsequence_of_tail(t.drop_first(), s);
        } else {
            subsequence_remove(t.drop_first(), s.drop_first(), j - 1);
            assert(t.remove(j).drop_first() =~= t.drop_first().remove(j - 1));
        }
    } else {
        subsequence_remove(t, s.drop_first(), j);
        lemma_subsequence_of_tail(t.remove(j), s);
    }
}

/// Every list is a subsequence of itself.
pub proof fn subsequence_reflexive(s: Seq<usize>)
    ensures
        is_subsequence(s, s),
    decreases s.len(),
{
    if s.len() > 0 {
        subsequence_reflexive(s.drop_first());
    }
}

/// Subsequences of subsequences are subsequences.
pub proof fn subsequence_transitive(a: Seq<usize>, b: Seq<usize>, c: Seq<usize>)
    requires
        is_subsequence(a, b),
        is_subsequence(b, c),
    ensures
        is_subsequence(a, c),
    decreases c.len(),
{
    if a.len() > 0 {
        if b[0] == c[0] && is_subsequence(b.drop_first(), c.drop_first()) {
            if a[0] == b[0] && is_subsequence(a.drop_first(), b.drop_first()) {
                subsequence_transitive(a.drop_first(), b.drop_first(), c.drop_first());
            } else {
                subsequence_transitive(a, b.drop_first(), c.drop_first());
            }
        } else {
            subsequence_transitive(a, b, c.drop_first());
        }
    }
}

/// The entries of a subsequence are entries of the whole.
pub proof fn subsequence_entries(t: Seq<usize>, s: Seq<usize>, j: int) -> (i: int)
    requires
        is_subsequence(t, s),
        0 <= j < t.len(),
    ensures
        0 <= i < s.len(),
        s[i] == t[j],
    decreases s.len(),
{
    if t[0] == s[0] && is_subsequence(t.drop_first(), s.drop_first()) {
        if j == 0 {
            0
        } else {
            subsequence_entries(t.drop_first(), s.drop_first(), j - 1) + 1
        }
    } else {
        subsequence_entries(t, s.drop_first(), j) + 1
    }
}

/// Different positions are never picked to the same list where all entries differ.
pub proof fn combinations_distinct(s: Seq<usize>, m: nat)
    requires
        s.no_duplicates(),
    ensures
        combinations(s, m).no_duplicates(),
    decreases s.len(),
{
    if m > 0 && s.len() > 0 {
        let tail = s.drop_first();
        let shorter = combinations(tail, (m - 1) as nat);
        let taken = prepend_all(s[0], shorter);
        let left = combinations(tail, m);
        combinations_distinct(tail, (m - 1) as nat);
        combinations_distinct(tail, m);
        assert forall|i: int, j: int|
            0 <= i < j < combinations(s, m).len() implies combinations(s, m)[i] != combinations(
            s,
            m,
        )[j] by {
            if j < taken.len() {
                assert((seq![s[0]] + shorter[i]).drop_first() =~= shorter[i]);
                assert((seq![s[0]] + shorter[j]).drop_first() =~= shorter[j]);
            } else if i < taken.len() {
                let t = left[j - taken.len()];
                assert(left.contains(t));
                combinations_are_subsequences(tail, m, t);
                let at = subsequence_entries(t, tail, 0);
                assert(tail[at] == s[at + 1]);
            }
        }
    }
}

/// One entry is a subsequence.
pub proof fn lemma_single_entry(s: Seq<usize>, i: int)
    requires
        0 <= i < s.len(),
    ensures
        is_subsequence(seq![s[i]], s),
    decreases s.len(),
{
    if i > 0 {
        lemma_single_entry(s.drop_first(), i - 1);
    } else {
        assert(is_subsequence(seq![s[0]].drop_first(), s.drop_first()));
    }
}

/// Leaving out two entries in either order gives the same list.
pub proof fn remove_twice(s: Seq<usize>, i: int, j: int)
    requires
        0 <= j < i < s.len(),
    ensures
        s.remove(i).remove(j) == s.remove(j).remove(i - 1),
{
    assert(s.remove(i).remove(j) =~= s.remove(j).remove(i - 1));
}

/// Number of `dim_sub`-dimensional subsimplices of a `dim`-simplex.
pub fn nsubsequence_simplices(dim: Dim, dim_sub: Dim) -> (n: usize)
    requires
        binomial((dim + 1) as nat, (dim_sub + 1) as nat) <= usize::MAX,
        dim < usize::MAX,
        dim_sub < usize::MAX,
    ensures
        n == binomial((dim + 1) as nat, (dim_sub + 1) as nat),
{
    choose_count(dim + 1, dim_sub + 1)
}

fn choose_count(n: usize, k: usize) -> (c: usize)
    requires
        binomial(n as nat, k as nat) <= usize::MAX,
    ensures
        c == binomial(n as nat, k as nat),
    decreases n,
{
    if k == 0 {
        1
    } else if n == 0 {
        0
    } else {
        choose_count(n - 1, k - 1) + choose_count(n - 1, k)
    }
}

/// A simplex, given by its vertices in order.
#[derive(Debug, PartialEq, Eq, Hash)]
pub struct Simplex {
    pub vertices: Vec<VertexIdx>,
}

/// A simplex with an orientation.
#[derive(Debug, Clone, PartialEq, Eq)]
pub struct SignedSimplex {
    pub simplex: Simplex,
    pub sign: Sign,
}

impl View for Simplex {
    type V = Seq<usize>;

    open spec fn view(&self) -> Seq<usize> {
        self.vertices@
    }
}

impl Clone for Simplex {
    fn clone(&self) -> (copy: Self)
        ensures
            copy@ == self@,
    {
        let mut vertices: Vec<VertexIdx> = Vec::new();
        let mut i: usize = 0;
        while i < self.vertices.len()
            invariant
                i <= self.vertices.len(),
                vertices@ == self.vertices@.take(i as int),
            decreases self.vertices.len() - i,
        {
            proof {
                assert(self.vertices@.take(i + 1) =~= self.vertices@.take(i as int).push(
                    self.vertices@[i as int],
                ));
            }
            vertices.push(self.vertices[i]);
            i = i + 1;
        }
        proof {
            assert(self.vertices@.take(i as int) =~= self.vertices@);
        }
        Simplex { vertices }
    }
}

/// The vertex lists of a list of simplices.
pub open spec fn simplex_views(simplices: Seq<Simplex>) -> Seq<Seq<usize>> {
    Seq::new(simplices.len(), |i: int| simplices[i]@)
}

/// The faces of a list of signed simplices, as vertex lists with integer signs.
pub open spec fn signed_views(faces: Seq<SignedSimplex>) -> Seq<(Seq<usize>, int)> {
    Seq::new(faces.len(), |i: int| (faces[i].simplex@, faces[i].sign.value()))
}

impl Simplex {
    /// The simplex on the given vertices.
    pub fn new(vertices: Vec<VertexIdx>) -> (simplex: Self)
        ensures
            simplex@ == vertices@,
    {
        Simplex { vertices }
    }

    /// The vertex `v` as a simplex.
    pub fn single(v: VertexIdx) -> (simplex: Self)
        ensures
            simplex@ == seq![v],
    {
        let mut vertices: Vec<VertexIdx> = Vec::new();
        vertices.push(v);
        Simplex { vertices }
    }

    /// The reference simplex on the vertices `0..=dim`.
    pub fn standard(dim: Dim) -> (simplex: Self)
        requires
            dim < usize::MAX,
        ensures
            simplex@ == Seq::new((dim + 1) as nat, |i: int| i as usize),
    {
        let mut vertices: Vec<VertexIdx> = Vec::new();
        let mut i: usize = 0;
        while i < dim + 1
            invariant
                dim < usize::MAX,
                i <= dim + 1,
                vertices@ == Seq::new(i as nat, |j: int| j as usize),
            decreases dim + 1 - i,
        {
            vertices.push(i);
            i = i + 1;
            proof {
                assert(vertices@ =~= Seq::new(i as nat, |j: int| j as usize));
            }
        }
        Simplex { vertices }
    }

    /// Number of vertices.
    pub fn nvertices(&self) -> (n: usize)
        ensures
            n == self@.len(),
    {
        self.vertices.len()
    }

    /// Dimension: one less than the number of vertices.
    pub fn dim(&self) -> (dim: Dim)
        requires
            self@.len() >= 1,
        ensures
            dim == self@.len() - 1,
    {
        self.vertices.len() - 1
    }

    /// Whether both simplices list the same vertices in the same order.
    pub fn same(&self, other: &Simplex) -> (equal: bool)
        ensures
            equal == (self@ == other@),
    {
        if self.vertices.len() != other.vertices.len() {
            return false;
        }
        let mut i: usize = 0;
        while i < self.vertices.len()
            invariant
                i <= self.vertices.len(),
                self.vertices.len() == other.vertices.len(),
                forall|j: int| 0 <= j < i ==> self@[j] == other@[j],
            decreases self.vertices.len() - i,
        {
            if self.vertices[i] != other.vertices[i] {
                return false;
            }
            i = i + 1;
        }
        proof {
            assert(self@ =~= other@);
        }
        true
    }

    /// Whether the vertices ascend.
    pub fn is_sorted(&self) -> (ascending: bool)
        ensures
            ascending == sorted(self@),
    {
        let mut i: usize = 0;
        while i < self.vertices.len()
            invariant
                i <= self.vertices.len(),
                forall|a: int, b: int| 0 <= a <= b < i ==> self@[a] <= self@[b],
            decreases self.vertices.len() - i,
        {
            if i > 0 && self.vertices[i - 1] > self.vertices[i] {
                return false;
            }
            i = i + 1;
        }
        true
    }

    /// The same vertices in ascending order.
    pub fn sorted(self) -> (simplex: Self)
        ensures
            sorted(simplex@),
            simplex@.to_multiset() == self@.to_multiset(),
    {
        let mut vertices: Vec<VertexIdx> = Vec::new();
        let mut i: usize = 0;
        proof {
            assert(self@.take(0) =~= Seq::<usize>::empty());
        }
        while i < self.vertices.len()
            invariant
                i <= self.vertices.len(),
                sorted(vertices@),
                vertices@.len() == i,
                vertices@.to_multiset() == self@.take(i as int).to_multiset(),
            decreases self.vertices.len() - i,
        {
            let v: usize = self.vertices[i];
            let mut at: usize = vertices.len();
            while at > 0 && vertices[at - 1] > v
                invariant
                    at <= vertices.len(),
                    sorted(vertices@),
                    forall|j: int| at <= j < vertices.len() ==> vertices@[j] > v,
                decreases at,
            {
                at = at - 1;
            }
            let ghost before = vertices@;
            vertices.insert(at, v);
            proof {
                vstd::seq_lib::to_multiset_insert(before, at as int, v);
                assert(self@.take(i + 1) =~= self@.take(i as int).push(v));
                vstd::seq_lib::to_multiset_build(self@.take(i as int), v);
                assert(vertices@ =~= before.insert(at as int, v));
            }
            i = i + 1;
        }
        proof {
            assert(self@.take(i as int) =~= self@);
        }
        Simplex { vertices }
    }

    /// The subsimplices of dimension `dim`, in lexicographic order.
    pub fn subsequences(&self, dim: Dim) -> (subs: Vec<Simplex>)
        requires
            dim < usize::MAX,
        ensures
            simplex_views(subs@) == combinations(self@, (dim + 1) as nat),
    {
        proof {
            assert(self@.skip(0) =~= self@);
        }
        self.choices_from(0, dim + 1)
    }

    /// The choices of `m` vertices, in lexicographic order.
    pub fn choices(&self, m: usize) -> (subs: Vec<Simplex>)
        ensures
            simplex_views(subs@) == combinations(self@, m as nat),
    {
        proof {
            assert(self@.skip(0) =~= self@);
        }
        self.choices_from(0, m)
    }

    fn choices_from(&self, start: usize, m: usize) -> (subs: Vec<Simplex>)
        requires
            start <= self@.len(),
        ensures
            simplex_views(subs@) == combinations(self@.skip(start as int), m as nat),
        decreases self@.len() - start,
    {
        let mut subs: Vec<Simplex> = Vec::new();
        let ghost s = self@.skip(start as int);
        if m == 0 {
            subs.push(Simplex { vertices: Vec::new() });
            proof {
                assert(simplex_views(subs@) =~= seq![Seq::<usize>::empty()]);
            }
            return subs;
        }
        if start == self.vertices.len() {
            proof {
                assert(simplex_views(subs@) =~= Seq::<Seq<usize>>::empty());
            }
            return subs;
        }
        proof {
            assert(s.drop_first() =~= self@.skip(start + 1));
        }
        let taken: Vec<Simplex> = self.choices_from(start + 1, m - 1);
        let ghost taken_views = simplex_views(taken@);
        let mut i: usize = 0;
        while i < taken.len()
            invariant
                i <= taken.len(),
                start < self@.len(),
                taken_views == simplex_views(taken@),
                simplex_views(subs@) =~= prepend_all(self@[start as int], taken_views).take(
                    i as int,
                ),
            decreases taken.len() - i,
        {
            let mut vertices: Vec<VertexIdx> = Vec::new();
            vertices.push(self.vertices[start]);
            let mut j: usize = 0;
            while j < taken[i].vertices.len()
                invariant
                    i < taken.len(),
                    start < self@.len(),
                    j <= taken[i as int]@.len(),
                    vertices@ =~= seq![self@[start as int]] + taken[i as int]@.take(j as int),
                decreases taken[i as int]@.len() - j,
            {
                vertices.push(taken[i].vertices[j]);
                j = j + 1;
            }
            proof {
                assert(taken[i as int]@.take(j as int) =~= taken_views[i as int]);
            }
            let ghost before = subs@;
            subs.push(Simplex { vertices });
            proof {
                let all = prepend_all(self@[start as int], taken_views);
                assert(simplex_views(subs@) =~= simplex_views(before).push(vertices@));
                assert(all.take(i + 1) =~= all.take(i as int).push(all[i as int]));
            }
            i = i + 1;
        }
        let left: Vec<Simplex> = self.choices_from(start + 1, m);
        let mut rest = left;
        let ghost head = subs@;
        let ghost tail = rest@;
        subs.append(&mut rest);
        proof {
            assert(prepend_all(self@[start as int], taken_views).take(i as int) =~= prepend_all(
                self@[start as int],
                taken_views,
            ));
            assert(s[0] == self@[start as int]);
            assert(simplex_views(subs@) =~= simplex_views(head) + simplex_views(tail));
        }
        subs
    }

    /// The oriented faces of the simplex, in lexicographic order.
    pub fn boundary(&self) -> (faces: Vec<SignedSimplex>)
        ensures
            signed_views(faces@) == boundary_faces(self@),
    {
        let mut faces: Vec<SignedSimplex> = Vec::new();
        let n: usize = self.vertices.len();
        let mut i: usize = 0;
        while i < n
            invariant
                i <= n,
                n == self@.len(),
                signed_views(faces@) =~= boundary_faces(self@).take(i as int),
            decreases n - i,
        {
            let omit: usize = n - 1 - i;
            let mut face = self.clone();
            let dropped: usize = face.vertices.remove(omit);
            let sign = Sign::from_parity(omit);
            let ghost before = faces@;
            faces.push(SignedSimplex { simplex: face, sign });
            proof {
                let all = boundary_faces(self@);
                assert(face@ =~= self@.remove(omit as int));
                assert(signed_views(faces@) =~= signed_views(before).push((face@, sign.value())));
                assert(all.take(i + 1) =~= all.take(i as int).push(all[i as int]));
            }
            i = i + 1;
        }
        proof {
            assert(boundary_faces(self@).take(n as int) =~= boundary_faces(self@));
        }
        faces
    }

    /// The positions in `other` at which the vertices of `self` first occur.
    pub fn relative_to(&self, other: &Simplex) -> (local: Simplex)
        requires
            forall|i: int| 0 <= i < self@.len() ==> other@.contains(#[trigger] self@[i]),
        ensures
            local@.len() == self@.len(),
            forall|i: int|
                0 <= i < self@.len() ==> (#[trigger] local@[i]) < other@.len()
                    && other@[local@[i] as int] == self@[i] && forall|j: int|
                    0 <= j < local@[i] ==> other@[j] != self@[i],
    {
        let mut vertices: Vec<VertexIdx> = Vec::new();
        let mut i: usize = 0;
        while i < self.vertices.len()
            invariant
                i <= self@.len(),
                forall|a: int| 0 <= a < self@.len() ==> other@.contains(#[trigger] self@[a]),
                vertices@.len() == i,
                forall|a: int|
                    0 <= a < i ==> (#[trigger] vertices@[a]) < other@.len()
                        && other@[vertices@[a] as int] == self@[a] && forall|j: int|
                        0 <= j < vertices@[a] ==> other@[j] != self@[a],
            decreases self@.len() - i,
        {
            let v: usize = self.vertices[i];
            let mut at: usize = 0;
            assert(other@.contains(self@[i as int]));
            while at < other.vertices.len() && other.vertices[at] != v
                invariant
                    at <= other@.len(),
                    forall|j: int| 0 <= j < at ==> other@[j] != v,
                decreases other@.len() - at,
            {
                at = at + 1;
            }
            vertices.push(at);
            i = i + 1;
        }
        Simplex { vertices }
    }

    /// Whether the vertices of `self` occur in `other` in the same order.
    pub fn is_subsequence_of(&self, other: &Simplex) -> (contained: bool)
        ensures
            contained == is_subsequence(self@, other@),
    {
        proof {
            assert(self@.skip(0) =~= self@);
            assert(other@.skip(0) =~= other@);
        }
        self.matches_from(0, other, 0)
    }

    fn matches_from(&self, at: usize, other: &Simplex, from: usize) -> (contained: bool)
        requires
            at <= self@.len(),
            from <= other@.len(),
        ensures
            contained == is_subsequence(self@.skip(at as int), other@.skip(from as int)),
        decreases other@.len() - from,
    {
        if at == self.vertices.len() {
            return true;
        }
        if from == other.vertices.len() {
            return false;
        }
        proof {
            assert(self@.skip(at as int).drop_first() =~= self@.skip(at + 1));
            assert(other@.skip(from as int).drop_first() =~= other@.skip(from + 1));
        }
        if self.vertices[at] == other.vertices[from] {
            proof {
                if is_subsequence(self@.skip(at as int), other@.skip(from + 1)) {
                    subsequence_remove(self@.skip(at as int), other@.skip(from + 1), 0);
                    assert(self@.skip(at as int).remove(0) =~= self@.skip(at + 1));
                }
            }
            return self.matches_from(at + 1, other, from + 1);
        }
        self.matches_from(at, other, from + 1)
    }
}

} // verus!
