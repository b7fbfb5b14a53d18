//! A sparse inverse of the mass of one- and two-forms on tetrahedral meshes, from the
//! barycentric dual cells of the vertices.

use crate::io::fields::MeshCoords;
use crate::linalg::algebra::{magnitude_spec, reciprocal_spec};
use crate::linalg::algebra::{magnitude, reciprocal, VALUE_RESOLUTION};
use crate::linalg::dense::{
    adjugate3, determinant3, dot_to, dot_to_is, is_product, is_transpose, sum_products, trace_to,
};
use crate::linalg::dense::DenseMatrix;
use crate::linalg::ring::exact_addition;
use crate::linalg::scalar::Scalar;
use crate::linalg::vec3::{add3_spec, cross3_spec, dot3_spec, scale3_spec, sub3_spec, zero3_spec};
use crate::linalg::vec3::{add3, cross3, dot3, scale3, sub3, zero3};
use crate::text::decimal;
use crate::text::{owned, push_decimal};
use crate::topology::complex::Complex;
use crate::topology::handle::{indices_where, indices_where_members};
use crate::topology::handle::KSimplexIdx;
use crate::topology::simplex::Dim;
use vstd::prelude::*;
use vstd::string::*;

verus! {

/// How the sparse inverse is stabilized and validated.
#[derive(Debug, Clone, Copy)]
pub struct BarycentricDualSparseInverseConfig<T> {
    pub stabilization_factor: T,
    pub validation_tolerance: T,
}

/// The reconstruction is validated to one part in this many.
pub const VALIDATION_RESOLUTION: u64 = 10_000_000_000;

impl<T: Scalar> Default for BarycentricDualSparseInverseConfig<T> {
    fn default() -> (config: Self)
        ensures
            config.stabilization_factor == T::one_spec(),
            config.validation_tolerance == reciprocal_spec::<T>(VALIDATION_RESOLUTION as nat),
    {
        BarycentricDualSparseInverseConfig {
            stabilization_factor: T::one(),
            validation_tolerance: reciprocal(VALIDATION_RESOLUTION),
        }
    }
}

/// A finite positive value.
pub open spec fn usable<T: Scalar>(value: T) -> bool {
    value.is_finite_spec() && !value.is_at_most_spec(T::zero_spec())
}

/// What keeps the sparse inverse from being assembled.
pub open spec fn config_fault<T: Scalar>(
    topo_dim: nat,
    coord_dim: nat,
    grade: nat,
    config: BarycentricDualSparseInverseConfig<T>,
) -> Option<Seq<char>> {
    if topo_dim != 3 {
        Some(
            "barycentric-dual sparse inverse Hodge is implemented only for tetrahedral 3D meshes, got topological dimension "@
                + decimal(topo_dim),
        )
    } else if coord_dim != 3 {
        Some(
            "barycentric-dual sparse inverse Hodge requires 3D coordinates, got coordinate dimension "@
                + decimal(coord_dim),
        )
    } else if grade != 1 && grade != 2 {
        Some(
            "barycentric-dual sparse inverse Hodge is implemented only for Whitney 1- and 2-forms, got grade "@
                + decimal(grade),
        )
    } else if !usable(config.stabilization_factor) {
        Some("barycentric-dual stabilization factor must be finite and positive"@)
    } else if !usable(config.validation_tolerance) {
        Some("barycentric-dual validation tolerance must be finite and positive"@)
    } else {
        None
    }
}

/// Fails unless mesh, grade and configuration are supported.
pub fn validate_barycentric_dual_config<T: Scalar>(
    topology: &Complex,
    coords: &MeshCoords<T>,
    grade: Dim,
    config: BarycentricDualSparseInverseConfig<T>,
) -> (checked: Result<(), String>)
    requires
        topology.wf(),
    ensures
        match config_fault(
            topology.dimension() as nat,
            coords.dim as nat,
            grade as nat,
            config,
        ) {
            Some(message) => checked matches Err(text) && text@ == message,
            None => checked is Ok,
        },
{
    proof {
        topology.has_dimension();
    }
    if topology.dim() != 3 {
        let mut text = owned(
            "barycentric-dual sparse inverse Hodge is implemented only for tetrahedral 3D meshes, got topological dimension ",
        );
        push_decimal(&mut text, topology.dim());
        return Err(text);
    }
    if coords.dim() != 3 {
        let mut text = owned(
            "barycentric-dual sparse inverse Hodge requires 3D coordinates, got coordinate dimension ",
        );
        push_decimal(&mut text, coords.dim());
        return Err(text);
    }
    if grade != 1 && grade != 2 {
        let mut text = owned(
            "barycentric-dual sparse inverse Hodge is implemented only for Whitney 1- and 2-forms, got grade ",
        );
        push_decimal(&mut text, grade);
        return Err(text);
    }
    if !config.stabilization_factor.is_finite() || config.stabilization_factor.is_at_most(
        T::zero(),
    ) {
        return Err(
            owned("barycentric-dual stabilization factor must be finite and positive"),
        );
    }
    if !config.validation_tolerance.is_finite() || config.validation_tolerance.is_at_most(
        T::zero(),
    ) {
        return Err(
            owned("barycentric-dual validation tolerance must be finite and positive"),
        );
    }
    Ok(())
}

/// The position of a vertex.
pub open spec fn position<T: Scalar>(coords: MeshCoords<T>, vertex: int) -> Seq<T> {
    seq![
        coords.coords@[vertex]@[0],
        coords.coords@[vertex]@[1],
        coords.coords@[vertex]@[2],
    ]
}

/// From the first vertex of an edge to the second.
pub open spec fn edge_vector_spec<T: Scalar>(coords: MeshCoords<T>, edge: Seq<usize>) -> Seq<T> {
    sub3_spec(position(coords, edge[1] as int), position(coords, edge[0] as int))
}

/// The area vector of a triangle.
pub open spec fn face_vector_spec<T: Scalar>(coords: MeshCoords<T>, face: Seq<usize>) -> Seq<T> {
    let origin = position(coords, face[0] as int);
    scale3_spec(
        cross3_spec(
            sub3_spec(position(coords, face[1] as int), origin),
            sub3_spec(position(coords, face[2] as int), origin),
        ),
        reciprocal_spec::<T>(2),
    )
}

fn coord3<T: Scalar>(coords: &MeshCoords<T>, vertex: usize) -> (p: [T; 3])
    requires
        coords.wf(),
        coords.dim == 3,
        vertex < coords.coords@.len(),
    ensures
        p@ == position(*coords, vertex as int),
{
    let p = [
        coords.coordinate(vertex, 0),
        coords.coordinate(vertex, 1),
        coords.coordinate(vertex, 2),
    ];
    proof {
        assert(p@ =~= position(*coords, vertex as int));
    }
    p
}

/// A mesh of tetrahedra in space: coordinates for each vertex, and cells with distinct vertices.
pub open spec fn tetrahedral<T: Scalar>(topology: Complex, coords: MeshCoords<T>) -> bool {
    &&& topology.wf()
    &&& coords.wf()
    &&& topology.dimension() == 3
    &&& coords.dim == 3
    &&& topology.simplices(0).len() <= coords.coords@.len()
    &&& forall|c: int|
        0 <= c < topology.simplices(3).len() ==> (#[trigger] topology.simplices(
            3,
        )[c]).no_duplicates()
}

fn edge_vector<T: Scalar>(topology: &Complex, coords: &MeshCoords<T>, edge: KSimplexIdx) -> (v: [T;
    3])
    requires
        tetrahedral(*topology, *coords),
        edge < topology.simplices(1).len(),
    ensures
        v@ == edge_vector_spec(*coords, topology.simplices(1)[edge as int]),
{
    proof {
        topology.simplex_facts(1);
    }
    let simplex = topology.simplex_at(1, edge);
    sub3(coord3(coords, simplex.vertices[1]), coord3(coords, simplex.vertices[0]))
}

fn face_vector<T: Scalar>(topology: &Complex, coords: &MeshCoords<T>, face: KSimplexIdx) -> (v: [T;
    3])
    requires
        tetrahedral(*topology, *coords),
        face < topology.simplices(2).len(),
    ensures
        v@ == face_vector_spec(*coords, topology.simplices(2)[face as int]),
{
    proof {
        topology.simplex_facts(2);
    }
    let simplex = topology.simplex_at(2, face);
    let origin = coord3(coords, simplex.vertices[0]);
    let e01 = sub3(coord3(coords, simplex.vertices[1]), origin);
    let e02 = sub3(coord3(coords, simplex.vertices[2]), origin);
    scale3(cross3(e01, e02), reciprocal(2))
}

/// The sign of the product of a face and an edge; none if they are orthogonal.
pub open spec fn pair_sign<T: Scalar>(face: Seq<T>, edge: Seq<T>) -> Option<T> {
    let dot = dot3_spec(face, edge);
    if magnitude_spec(dot).is_at_most_spec(reciprocal_spec::<T>(VALUE_RESOLUTION as nat)) {
        None
    } else if T::zero_spec().is_below_spec(dot) {
        Some(T::one_spec())
    } else {
        Some(T::one_spec().negated_spec())
    }
}

fn oriented_pair_sign<T: Scalar>(face_vec: [T; 3], edge_vec: [T; 3]) -> (sign: Option<T>)
    ensures
        sign == pair_sign(face_vec@, edge_vec@),
{
    let dot = dot3(face_vec, edge_vec);
    if magnitude(dot).is_at_most(reciprocal(VALUE_RESOLUTION)) {
        None
    } else if T::zero().is_below(dot) {
        Some(T::one())
    } else {
        Some(T::one().negated())
    }
}

/// The place of the pair of positions `p` and `q` among the edges of a tetrahedron.
pub open spec fn pair_place(p: int, q: int) -> int {
    let (a, b) = if p < q {
        (p, q)
    } else {
        (q, p)
    };
    if a == 0 {
        b - 1
    } else if a == 1 {
        b + 1
    } else {
        5
    }
}

fn pair_place_of(p: usize, q: usize) -> (place: usize)
    requires
        p < 4,
        q < 4,
        p != q,
    ensures
        place == pair_place(p as int, q as int),
        place < 6,
{
    let (a, b): (usize, usize) = if p < q {
        (p, q)
    } else {
        (q, p)
    };
    if a == 0 {
        b - 1
    } else if a == 1 {
        b + 1
    } else {
        5
    }
}

/// What the vertex at position `p` of a cell and the one at position `q` contribute to the
/// dual of a simplex of the vertex: the simplex and a vector. For an edge, the one between the
/// two, it is a sixth of the face without the second vertex; for a face, the one without the
/// second vertex, it is a quarter of the edge between the two. The vector points along the
/// simplex. None if edge and face are orthogonal.
pub open spec fn dual_term<T: Scalar>(
    topology: Complex,
    coords: MeshCoords<T>,
    cell: int,
    grade: nat,
    p: int,
    q: int,
) -> Option<(usize, Seq<T>)> {
    let edge = topology.subsimplices(3, cell, 1)[pair_place(p, q)];
    let face = topology.subsimplices(3, cell, 2)[3 - q];
    let edge_vec = edge_vector_spec(coords, topology.simplices(1)[edge as int]);
    let face_vec = face_vector_spec(coords, topology.simplices(2)[face as int]);
    match pair_sign(face_vec, edge_vec) {
        None => None,
        Some(sign) => if grade == 1 {
            Some((edge, scale3_spec(face_vec, sign.over_spec(T::from_count_spec(6)))))
        } else {
            Some((face, scale3_spec(edge_vec, sign.over_spec(T::from_count_spec(4)))))
        },
    }
}

/// The `i`-th other position: edges go through the other vertices upwards, faces downwards.
pub open spec fn far_position(grade: nat, i: int) -> int {
    if grade == 1 {
        i
    } else {
        3 - i
    }
}

/// The contributions of the first `n` positions of a cell around the vertex at position `p`.
pub open spec fn cell_dual_terms<T: Scalar>(
    topology: Complex,
    coords: MeshCoords<T>,
    cell: int,
    grade: nat,
    p: int,
    n: int,
) -> Option<Seq<(usize, Seq<T>)>>
    decreases n,
{
    if n <= 0 {
        Some(Seq::empty())
    } else {
        let q = far_position(grade, n - 1);
        match cell_dual_terms(topology, coords, cell, grade, p, n - 1) {
            None => None,
            Some(before) => if q == p {
                Some(before)
            } else {
                match dual_term(topology, coords, cell, grade, p, q) {
                    None => None,
                    Some(term) => Some(before.push(term)),
                }
            },
        }
    }
}

/// The contributions of the first `n` cells around a vertex.
pub open spec fn dual_terms<T: Scalar>(
    topology: Complex,
    coords: MeshCoords<T>,
    vertex: usize,
    grade: nat,
    n: int,
) -> Option<Seq<(usize, Seq<T>)>>
    decreases n,
{
    if n <= 0 {
        Some(Seq::empty())
    } else {
        let cell = topology.simplices(3)[n - 1];
        match dual_terms(topology, coords, vertex, grade, n - 1) {
            None => None,
            Some(before) => if !cell.contains(vertex) {
                Some(before)
            } else {
                match cell_dual_terms(topology, coords, n - 1, grade, cell.index_of(vertex), 4) {
                    None => None,
                    Some(terms) => Some(before + terms),
                }
            },
        }
    }
}

/// The sum of the contributions to a simplex.
pub open spec fn term_total<T: Scalar>(terms: Seq<(usize, Seq<T>)>, k: int) -> Seq<T>
    decreases terms.len(),
{
    if terms.len() == 0 {
        zero3_spec::<T>()
    } else {
        let before = term_total(terms.drop_last(), k);
        if terms.last().0 == k {
            add3_spec(before, terms.last().1)
        } else {
            before
        }
    }
}

/// A quarter of the volumes of the first `n` cells around a vertex.
pub open spec fn dual_volume<T: Scalar>(
    topology: Complex,
    volumes: Seq<T>,
    vertex: usize,
    n: int,
) -> T
    decreases n,
{
    if n <= 0 {
        T::zero_spec()
    } else {
        let before = dual_volume(topology, volumes, vertex, n - 1);
        if topology.simplices(3)[n - 1].contains(vertex) {
            before.plus_spec(volumes[n - 1].over_spec(T::from_count_spec(4)))
        } else {
            before
        }
    }
}

/// The simplices of a grade around a vertex, in ascending order.
pub open spec fn simplices_around(topology: Complex, grade: int, vertex: usize) -> Seq<int> {
    indices_where(
        topology.simplices(grade).len() as int,
        |i: int| topology.simplices(grade)[i].contains(vertex),
    )
}

/// The primal vector of a simplex around a vertex: half of an edge, a third of a face.
pub open spec fn primal_vector<T: Scalar>(
    topology: Complex,
    coords: MeshCoords<T>,
    grade: nat,
    k: int,
) -> Seq<T> {
    if grade == 1 {
        scale3_spec(edge_vector_spec(coords, topology.simplices(1)[k]), reciprocal_spec::<T>(2))
    } else {
        scale3_spec(face_vector_spec(coords, topology.simplices(2)[k]), reciprocal_spec::<T>(3))
    }
}

fn vertex_position(vertices: &[usize], vertex: usize) -> (position: Option<usize>)
    ensures
        match position {
            Some(p) => p < vertices@.len() && vertices@[p as int] == vertex,
            None => !vertices@.contains(vertex),
        },
{
    let mut p: usize = 0;
    while p < vertices.len()
        invariant
            p <= vertices@.len(),
            forall|i: int| 0 <= i < p ==> #[trigger] vertices@[i] != vertex,
        decreases vertices@.len() - p,
    {
        if vertices[p] == vertex {
            return Some(p);
        }
        p = p + 1;
    }
    None
}

/// The simplices around a vertex, and for each of them its place among those.
fn rows_around(topology: &Complex, grade: Dim, vertex: usize) -> (rows: (
    Vec<usize>,
    Vec<Option<usize>>,
))
    requires
        topology.wf(),
        grade <= topology.dimension(),
    ensures
        rows.0@.len() == simplices_around(*topology, grade as int, vertex).len(),
        forall|j: int|
            0 <= j < rows.0@.len() ==> (#[trigger] rows.0@[j]) == simplices_around(
                *topology,
                grade as int,
                vertex,
            )[j] && rows.0@[j] < topology.simplices(grade as int).len(),
        rows.1@.len() == topology.simplices(grade as int).len(),
        forall|i: int|
            0 <= i < rows.1@.len() ==> match #[trigger] rows.1@[i] {
                Some(j) => j < rows.0@.len() && rows.0@[j as int] == i,
                None => !topology.simplices(grade as int)[i].contains(vertex),
            },
        forall|a: int, b: int| 0 <= a < b < rows.0@.len() ==> rows.0@[a] < rows.0@[b],
{
    let ghost holds = |i: int| topology.simplices(grade as int)[i].contains(vertex);
    let n: usize = topology.nsimplices(grade);
    let mut around: Vec<usize> = Vec::new();
    let mut places: Vec<Option<usize>> = Vec::new();
    let mut i: usize = 0;
    while i < n
        invariant
            i <= n,
            topology.wf(),
            grade <= topology.dimension(),
            n == topology.simplices(grade as int).len(),
            holds == (|i: int| topology.simplices(grade as int)[i].contains(vertex)),
            around@.len() == indices_where(i as int, holds).len(),
            forall|j: int|
                0 <= j < around@.len() ==> (#[trigger] around@[j]) == indices_where(
                    i as int,
                    holds,
                )[j] && around@[j] < i,
            places@.len() == i,
            forall|k: int|
                0 <= k < i ==> match #[trigger] places@[k] {
                    Some(j) => j < around@.len() && around@[j as int] == k,
                    None => !topology.simplices(grade as int)[k].contains(vertex),
                },
            forall|a: int, b: int| 0 <= a < b < around@.len() ==> around@[a] < around@[b],
        decreases n - i,
    {
        let simplex = topology.simplex_at(grade, i);
        let ghost before = around@;
        match vertex_position(simplex.vertices.as_slice(), vertex) {
            Some(p) => {
                proof {
                    assert(topology.simplices(grade as int)[i as int][p as int] == vertex);
                    assert(holds(i as int));
                }
                places.push(Some(around.len()));
                around.push(i);
                proof {
                    assert forall|j: int| 0 <= j < around@.len() implies (#[trigger] around@[j])
                        == indices_where(i + 1, holds)[j] && around@[j] < i + 1 by {
                        if j < before.len() {
                            assert(around@[j] == before[j]);
                        }
                    }
                }
            },
            None => {
                places.push(None);
                proof {
                    assert(!holds(i as int));
                }
            },
        }
        i = i + 1;
    }
    (around, places)
}

/// The vertices of the edges and faces of a tetrahedron, by positions.
proof fn lemma_tetrahedron(topology: Complex, cell: int)
    requires
        topology.wf(),
        topology.dimension() == 3,
        0 <= cell < topology.simplices(3).len(),
    ensures
        topology.simplices(3)[cell].len() == 4,
        topology.subsimplices(3, cell, 1).len() == 6,
        topology.subsimplices(3, cell, 2).len() == 4,
        forall|p: int, q: int|
            0 <= p < 4 && 0 <= q < 4 && p != q ==> crate::topology::simplex::combinations(
                topology.simplices(3)[cell],
                2,
            )[#[trigger] pair_place(p, q)].contains(topology.simplices(3)[cell][p]),
        forall|p: int, q: int|
            0 <= p < 4 && 0 <= q < 4 && p != q ==> crate::topology::simplex::combinations(
                topology.simplices(3)[cell],
                3,
            )[3 - q].contains(#[trigger] at_other(topology.simplices(3)[cell], p, q)),
{
    topology.simplex_facts(3);
    let s = topology.simplices(3)[cell];
    crate::topology::simplex::combinations_of_four(s);
    let pairs = crate::topology::simplex::combinations(s, 2);
    let triples = crate::topology::simplex::combinations(s, 3);
    assert forall|p: int, q: int| 0 <= p < 4 && 0 <= q < 4 && p != q implies pairs[
    #[trigger] pair_place(p, q)].contains(s[p]) by {
        let pair = pairs[pair_place(p, q)];
        if p < q {
            assert(pair[0] == s[p]);
        } else {
            assert(pair[1] == s[p]);
        }
    }
    assert forall|p: int, q: int| 0 <= p < 4 && 0 <= q < 4 && p != q implies triples[3
        - q].contains(#[trigger] at_other(s, p, q)) by {
        let triple = triples[3 - q];
        if p < q {
            assert(triple[p] == s[p]);
        } else {
            assert(triple[p - 1] == s[p]);
        }
    }
}

/// The entry at position `p`, one of those without position `q`.
pub open spec fn at_other(s: Seq<usize>, p: int, q: int) -> usize {
    s[p]
}

/// The duals of the simplices around a vertex so far.
pub open spec fn dual_rows_hold<T: Scalar>(
    dual: Seq<[T; 3]>,
    around: Seq<usize>,
    terms: Seq<(usize, Seq<T>)>,
) -> bool {
    &&& dual.len() == around.len()
    &&& forall|j: int|
        0 <= j < dual.len() ==> (#[trigger] dual[j])@ == term_total(terms, around[j] as int)
}

/// Adds the contributions of a cell around the vertex at position `p`. Fails if an edge and
/// its face are orthogonal.
fn accumulate_dual_rows<T: Scalar>(
    topology: &Complex,
    coords: &MeshCoords<T>,
    cell: KSimplexIdx,
    grade: Dim,
    p: usize,
    places: &[Option<usize>],
    around: &[usize],
    dual: &mut Vec<[T; 3]>,
    Ghost(before): Ghost<Seq<(usize, Seq<T>)>>,
    Ghost(vertex): Ghost<usize>,
) -> (done: bool)
    requires
        tetrahedral(*topology, *coords),
        grade == 1 || grade == 2,
        cell < topology.simplices(3).len(),
        p < 4,
        vertex == topology.simplices(3)[cell as int][p as int],
        places@.len() == topology.simplices(grade as int).len(),
        forall|i: int|
            0 <= i < places@.len() ==> match #[trigger] places@[i] {
                Some(j) => j < around@.len() && around@[j as int] == i,
                None => !topology.simplices(grade as int)[i].contains(vertex),
            },
        forall|a: int, b: int| 0 <= a < b < around@.len() ==> around@[a] < around@[b],
        dual_rows_hold(old(dual)@, around@, before),
    ensures
        done == cell_dual_terms(
            *topology,
            *coords,
            cell as int,
            grade as nat,
            p as int,
            4,
        ) is Some,
        done ==> dual_rows_hold(
            final(dual)@,
            around@,
            before + cell_dual_terms(
                *topology,
                *coords,
                cell as int,
                grade as nat,
                p as int,
                4,
            )->0,
        ),
{
    let edges = topology.subsimplex_indices(3, cell, 1);
    let faces = topology.subsimplex_indices(3, cell, 2);
    let mut i: usize = 0;
    proof {
        lemma_tetrahedron(*topology, cell as int);
        assert(before + Seq::<(usize, Seq<T>)>::empty() =~= before);
    }
    while i < 4
        invariant
            i <= 4,
            tetrahedral(*topology, *coords),
            grade == 1 || grade == 2,
            cell < topology.simplices(3).len(),
            p < 4,
            vertex == topology.simplices(3)[cell as int][p as int],
            topology.simplices(3)[cell as int].len() == 4,
            edges@ == topology.subsimplices(3, cell as int, 1),
            faces@ == topology.subsimplices(3, cell as int, 2),
            edges@.len() == 6,
            faces@.len() == 4,
            forall|j: int|
                0 <= j < edges@.len() ==> (#[trigger] edges@[j]) < topology.simplices(1).len()
                    && topology.simplices(1)[edges@[j] as int]
                    == crate::topology::simplex::combinations(
                    topology.simplices(3)[cell as int],
                    2,
                )[j],
            forall|j: int|
                0 <= j < faces@.len() ==> (#[trigger] faces@[j]) < topology.simplices(2).len()
                    && topology.simplices(2)[faces@[j] as int]
                    == crate::topology::simplex::combinations(
                    topology.simplices(3)[cell as int],
                    3,
                )[j],
            forall|p: int, q: int|
                0 <= p < 4 && 0 <= q < 4 && p != q ==> crate::topology::simplex::combinations(
                    topology.simplices(3)[cell as int],
                    2,
                )[#[trigger] pair_place(p, q)].contains(topology.simplices(3)[cell as int][p]),
            forall|p: int, q: int|
                0 <= p < 4 && 0 <= q < 4 && p != q ==> crate::topology::simplex::combinations(
                    topology.simplices(3)[cell as int],
                    3,
                )[3 - q].contains(
                    #[trigger] at_other(topology.simplices(3)[cell as int], p, q),
                ),
            places@.len() == topology.simplices(grade as int).len(),
            forall|i: int|
                0 <= i < places@.len() ==> match #[trigger] places@[i] {
                    Some(j) => j < around@.len() && around@[j as int] == i,
                    None => !topology.simplices(grade as int)[i].contains(vertex),
                },
            forall|a: int, b: int| 0 <= a < b < around@.len() ==> around@[a] < around@[b],
            cell_dual_terms(
                *topology,
                *coords,
                cell as int,
                grade as nat,
                p as int,
                i as int,
            ) is Some,
            dual_rows_hold(
                dual@,
                around@,
                before + cell_dual_terms(
                    *topology,
                    *coords,
                    cell as int,
                    grade as nat,
                    p as int,
                    i as int,
                )->0,
            ),
        decreases 4 - i,
    {
        let q: usize = if grade == 1 {
            i
        } else {
            3 - i
        };
        let ghost terms = cell_dual_terms(
            *topology,
            *coords,
            cell as int,
            grade as nat,
            p as int,
            i as int,
        )->0;
        if q != p {
            let edge: usize = edges[pair_place_of(p, q)];
            let face: usize = faces[3 - q];
            let edge_vec = edge_vector(topology, coords, edge);
            let face_vec = face_vector(topology, coords, face);
            let sign = match oriented_pair_sign(face_vec, edge_vec) {
                Some(sign) => sign,
                None => {
                    proof {
                        lemma_terms_fail(
                            *topology,
                            *coords,
                            cell as int,
                            grade as nat,
                            p as int,
                            i + 1,
                        );
                    }
                    return false;
                },
            };
            let (simplex, vector): (usize, [T; 3]) = if grade == 1 {
                (edge, scale3(face_vec, sign.over(T::from_count(6))))
            } else {
                (face, scale3(edge_vec, sign.over(T::from_count(4))))
            };
            proof {
                assert(at_other(
                    topology.simplices(3)[cell as int],
                    p as int,
                    q as int,
                ) == vertex);
                assert(topology.simplices(grade as int)[simplex as int].contains(vertex));
                assert(places@[simplex as int] is Some);
            }
            match places[simplex] {
                Some(row) => {
                    let ghost rows = dual@;
                    let sum = add3(dual[row], vector);
                    dual.set(row, sum);
                    proof {
                        let next = terms.push((simplex, vector@));
                        assert((before + next).drop_last() =~= before + terms);
                        assert((before + next).last() == (simplex, vector@));
                        assert forall|j: int| 0 <= j < dual@.len() implies (#[trigger] dual@[j])@
                            == term_total(before + next, around@[j] as int) by {
                            assert(rows[j]@ == term_total(before + terms, around@[j] as int));
                            if around@[j] == simplex && j != row {
                                if j < row {
                                    assert(around@[j] < around@[row as int]);
                                } else {
                                    assert(around@[row as int] < around@[j]);
                                }
                            }
                        }
                    }
                },
                None => {
                    proof {
                        assert(false);
                    }
                },
            }
        }
        i = i + 1;
    }
    true
}

proof fn lemma_terms_fail<T: Scalar>(
    topology: Complex,
    coords: MeshCoords<T>,
    cell: int,
    grade: nat,
    p: int,
    n: int,
)
    requires
        n <= 4,
        cell_dual_terms(topology, coords, cell, grade, p, n) is None,
    ensures
        cell_dual_terms(topology, coords, cell, grade, p, 4) is None,
    decreases 4 - n,
{
    if n < 4 {
        lemma_terms_fail(topology, coords, cell, grade, p, n + 1);
    }
}

proof fn lemma_dual_terms_fail<T: Scalar>(
    topology: Complex,
    coords: MeshCoords<T>,
    vertex: usize,
    grade: nat,
    n: int,
    m: int,
)
    requires
        n <= m,
        dual_terms(topology, coords, vertex, grade, n) is None,
    ensures
        dual_terms(topology, coords, vertex, grade, m) is None,
    decreases m - n,
{
    if n < m {
        lemma_dual_terms_fail(topology, coords, vertex, grade, n, m - 1);
    }
}

/// What is known around a vertex: the simplices of a grade, the volume of the dual cell, and
/// for each simplex its primal and its dual vector as a row.
#[derive(Debug, Clone)]
pub struct BarycentricDualGeometry<T> {
    pub simplex_kidxs: Vec<KSimplexIdx>,
    pub volume: T,
    pub primal: DenseMatrix<T>,
    pub dual: DenseMatrix<T>,
}

/// The geometry around a vertex.
pub open spec fn is_geometry<T: Scalar>(
    geometry: BarycentricDualGeometry<T>,
    topology: Complex,
    coords: MeshCoords<T>,
    volumes: Seq<T>,
    vertex: usize,
    grade: nat,
) -> bool {
    let around = simplices_around(topology, grade as int, vertex);
    let ncells = topology.simplices(3).len() as int;
    &&& geometry.simplex_kidxs@.len() == around.len()
    &&& forall|j: int|
        0 <= j < around.len() ==> (#[trigger] geometry.simplex_kidxs@[j]) == around[j]
    &&& geometry.volume == dual_volume(topology, volumes, vertex, ncells)
    &&& geometry.primal.wf() && geometry.primal.rows() == around.len() && geometry.primal.cols()
        == 3
    &&& geometry.dual.wf() && geometry.dual.rows() == around.len() && geometry.dual.cols() == 3
    &&& forall|j: int, a: int|
        0 <= j < around.len() && 0 <= a < 3 ==> #[trigger] geometry.primal.at(j, a)
            == primal_vector(topology, coords, grade, around[j])[a]
    &&& forall|j: int, a: int|
        0 <= j < around.len() && 0 <= a < 3 ==> #[trigger] geometry.dual.at(j, a) == term_total(
            dual_terms(topology, coords, vertex, grade, ncells)->0,
            around[j],
        )[a]
}

/// What is wrong around a vertex.
pub open spec fn geometry_fault<T: Scalar>(
    topology: Complex,
    coords: MeshCoords<T>,
    volumes: Seq<T>,
    vertex: usize,
    grade: nat,
) -> Option<Seq<char>> {
    let around = simplices_around(topology, grade as int, vertex);
    let ncells = topology.simplices(3).len() as int;
    let volume = dual_volume(topology, volumes, vertex, ncells);
    if around.len() < 3 {
        Some(
            "vertex "@ + decimal(vertex as nat) + " has only "@ + decimal(around.len())
                + " incident "@ + decimal(grade)
                + "-simplices; barycentric-dual local reconstruction requires at least 3"@,
        )
    } else if dual_terms(topology, coords, vertex, grade, ncells) is None {
        Some("degenerate tetrahedral geometry produced an orthogonal opposite edge/face pair"@)
    } else if !usable(volume) {
        Some(
            "vertex "@ + decimal(vertex as nat) + " has non-positive barycentric dual volume "@
                + volume.display_spec(),
        )
    } else {
        None
    }
}

fn rows_to_matrix<T: Scalar>(rows: &[[T; 3]]) -> (m: DenseMatrix<T>)
    requires
        rows@.len() * 3 <= usize::MAX,
    ensures
        m.wf(),
        m.rows() == rows@.len(),
        m.cols() == 3,
        forall|j: int, a: int|
            0 <= j < rows@.len() && 0 <= a < 3 ==> #[trigger] m.at(j, a) == rows@[j]@[a],
{
    let n: usize = rows.len();
    let mut m = DenseMatrix::zeros(n, 3);
    let mut j: usize = 0;
    while j < n
        invariant
            j <= n,
            n == rows@.len(),
            m.wf(),
            m.rows() == n,
            m.cols() == 3,
            forall|i: int, a: int|
                0 <= i < j && 0 <= a < 3 ==> #[trigger] m.at(i, a) == rows@[i]@[a],
        decreases n - j,
    {
        let row = rows[j];
        m.set(j, 0, row[0]);
        m.set(j, 1, row[1]);
        m.set(j, 2, row[2]);
        j = j + 1;
    }
    m
}

/// The geometry around a vertex, from the volumes of the cells.
pub fn barycentric_dual_geometry<T: Scalar>(
    topology: &Complex,
    coords: &MeshCoords<T>,
    volumes: &[T],
    vertex_kidx: KSimplexIdx,
    grade: Dim,
) -> (geometry: Result<BarycentricDualGeometry<T>, String>)
    requires
        tetrahedral(*topology, *coords),
        volumes@.len() == topology.simplices(3).len(),
        grade == 1 || grade == 2,
        simplices_around(*topology, grade as int, vertex_kidx).len() * 3 <= usize::MAX,
    ensures
        match geometry_fault(*topology, *coords, volumes@, vertex_kidx, grade as nat) {
            Some(message) => geometry matches Err(text) && text@ == message,
            None => geometry matches Ok(g) && is_geometry(
                g,
                *topology,
                *coords,
                volumes@,
                vertex_kidx,
                grade as nat,
            ),
        },
{
    let (around, places): (Vec<usize>, Vec<Option<usize>>) = rows_around(
        topology,
        grade,
        vertex_kidx,
    );
    let ghost ids = simplices_around(*topology, grade as int, vertex_kidx);
    if around.len() < 3 {
        let mut text = owned("vertex ");
        push_decimal(&mut text, vertex_kidx);
        text.append(" has only ");
        push_decimal(&mut text, around.len());
        text.append(" incident ");
        push_decimal(&mut text, grade);
        text.append("-simplices; barycentric-dual local reconstruction requires at least 3");
        return Err(text);
    }
    let mut primal: Vec<[T; 3]> = Vec::new();
    let mut dual: Vec<[T; 3]> = Vec::new();
    let mut j: usize = 0;
    while j < around.len()
        invariant
            j <= around@.len(),
            tetrahedral(*topology, *coords),
            grade == 1 || grade == 2,
            around@.len() == ids.len(),
            forall|i: int|
                0 <= i < around@.len() ==> (#[trigger] around@[i]) == ids[i] && around@[i]
                    < topology.simplices(grade as int).len(),
            primal@.len() == j,
            dual@.len() == j,
            forall|i: int|
                0 <= i < j ==> (#[trigger] primal@[i])@ == primal_vector(
                    *topology,
                    *coords,
                    grade as nat,
                    ids[i],
                ),
            forall|i: int| 0 <= i < j ==> (#[trigger] dual@[i])@ == zero3_spec::<T>(),
        decreases around@.len() - j,
    {
        proof {
            assert(around@[j as int] < topology.simplices(grade as int).len());
        }
        let vector = if grade == 1 {
            scale3(edge_vector(topology, coords, around[j]), reciprocal(2))
        } else {
            scale3(face_vector(topology, coords, around[j]), reciprocal(3))
        };
        primal.push(vector);
        dual.push(zero3());
        j = j + 1;
    }
    let mut volume = T::zero();
    let mut cell: usize = 0;
    let ghost ncells = topology.simplices(3).len() as int;
    while cell < volumes.len()
        invariant
            cell <= volumes@.len(),
            tetrahedral(*topology, *coords),
            volumes@.len() == topology.simplices(3).len(),
            grade == 1 || grade == 2,
            ids == simplices_around(*topology, grade as int, vertex_kidx),
            ids.len() >= 3,
            around@.len() == ids.len(),
            ncells == topology.simplices(3).len(),
            places@.len() == topology.simplices(grade as int).len(),
            forall|i: int|
                0 <= i < places@.len() ==> match #[trigger] places@[i] {
                    Some(j) => j < around@.len() && around@[j as int] == i,
                    None => !topology.simplices(grade as int)[i].contains(vertex_kidx),
                },
            forall|a: int, b: int| 0 <= a < b < around@.len() ==> around@[a] < around@[b],
            volume == dual_volume(*topology, volumes@, vertex_kidx, cell as int),
            dual_terms(*topology, *coords, vertex_kidx, grade as nat, cell as int) is Some,
            dual_rows_hold(
                dual@,
                around@,
                dual_terms(*topology, *coords, vertex_kidx, grade as nat, cell as int)->0,
            ),
        decreases volumes@.len() - cell,
    {
        let simplex = topology.simplex_at(3, cell);
        let ghost s = topology.simplices(3)[cell as int];
        match vertex_position(simplex.vertices.as_slice(), vertex_kidx) {
            Some(p) => {
                proof {
                    topology.simplex_facts(3);
                    assert(s.no_duplicates());
                    assert(s[p as int] == vertex_kidx);
                    assert(s.contains(vertex_kidx));
                    assert(s.index_of(vertex_kidx) == p);
                }
                volume = volume.plus(volumes[cell].over(T::from_count(4)));
                let ghost before = dual_terms(
                    *topology,
                    *coords,
                    vertex_kidx,
                    grade as nat,
                    cell as int,
                )->0;
                if !accumulate_dual_rows(
                    topology,
                    coords,
                    cell,
                    grade,
                    p,
                    places.as_slice(),
                    around.as_slice(),
                    &mut dual,
                    Ghost(before),
                    Ghost(vertex_kidx),
                ) {
                    proof {
                        lemma_dual_terms_fail(
                            *topology,
                            *coords,
                            vertex_kidx,
                            grade as nat,
                            cell + 1,
                            ncells,
                        );
                    }
                    return Err(
                        owned(
                            "degenerate tetrahedral geometry produced an orthogonal opposite edge/face pair",
                        ),
                    );
                }
            },
            None => {
                proof {
                    assert(!s.contains(vertex_kidx));
                }
            },
        }
        cell = cell + 1;
    }
    if !volume.is_finite() || volume.is_at_most(T::zero()) {
        let mut text = owned("vertex ");
        push_decimal(&mut text, vertex_kidx);
        text.append(" has non-positive barycentric dual volume ");
        let shown = volume.display();
        text.append(shown.as_str());
        return Err(text);
    }
    let primal = rows_to_matrix(primal.as_slice());
    let dual = rows_to_matrix(dual.as_slice());
    Ok(BarycentricDualGeometry { simplex_kidxs: around, volume, primal, dual })
}

/// The larger of two values.
pub open spec fn larger_spec<T: Scalar>(a: T, b: T) -> T {
    if a.is_below_spec(b) {
        b
    } else {
        a
    }
}

fn larger<T: Scalar>(a: T, b: T) -> (r: T)
    ensures
        r == larger_spec(a, b),
{
    if a.is_below(b) {
        b
    } else {
        a
    }
}

/// The columns `i` of the primal and `j` of the dual vectors, multiplied.
pub open spec fn reconstruction_at<T: Scalar>(
    primal: DenseMatrix<T>,
    dual: DenseMatrix<T>,
    i: int,
    j: int,
) -> T {
    sum_products(|k: int| primal.at(k, i), |k: int| dual.at(k, j), primal.rows() as int)
}

/// The largest deviation of the first `n` of the nine values of the reconstruction from the
/// volume on the diagonal.
pub open spec fn deviation<T: Scalar>(
    primal: DenseMatrix<T>,
    dual: DenseMatrix<T>,
    volume: T,
    n: int,
) -> T
    decreases n,
{
    if n <= 0 {
        T::zero_spec()
    } else {
        let i = (n - 1) / 3;
        let j = (n - 1) % 3;
        let expected = if i == j {
            volume
        } else {
            T::zero_spec()
        };
        larger_spec(
            deviation(primal, dual, volume, n - 1),
            magnitude_spec(reconstruction_at(primal, dual, i, j).minus_spec(expected)),
        )
    }
}

/// The deviation that is allowed.
pub open spec fn allowed_deviation<T: Scalar>(volume: T, tolerance: T) -> T {
    tolerance.times_spec(larger_spec(magnitude_spec(volume), T::one_spec()))
}

/// What is wrong with a reconstruction.
pub open spec fn reconstruction_fault<T: Scalar>(
    vertex: nat,
    grade: nat,
    primal: DenseMatrix<T>,
    dual: DenseMatrix<T>,
    volume: T,
    tolerance: T,
) -> Option<Seq<char>> {
    let worst = deviation(primal, dual, volume, 9);
    let allowed = allowed_deviation(volume, tolerance);
    if allowed.is_below_spec(worst) {
        Some(
            "barycentric-dual reconstruction identity failed for vertex "@ + decimal(vertex)
                + ", grade "@ + decimal(grade) + ": max abs error "@ + worst.display_spec()
                + " exceeds "@ + allowed.display_spec(),
        )
    } else {
        None
    }
}

/// A matrix of three columns with room for the square of its rows.
pub open spec fn rows_of_three<T: Scalar>(m: DenseMatrix<T>) -> bool {
    &&& m.wf()
    &&& m.cols() == 3
    &&& m.rows() >= 3
    &&& m.rows() * m.rows() <= usize::MAX
}

proof fn lemma_three_fits(n: int)
    requires
        n >= 3,
        n * n <= usize::MAX,
    ensures
        n * 3 <= usize::MAX,
        3 * n <= usize::MAX,
{
    assert(n * 3 <= n * n) by (nonlinear_arith)
        requires
            n >= 3,
    ;
}

/// Fails unless the primal and the dual vectors reconstruct constants.
pub fn validate_reconstruction_identity<T: Scalar>(
    vertex_kidx: KSimplexIdx,
    grade: Dim,
    primal: &DenseMatrix<T>,
    dual: &DenseMatrix<T>,
    volume: T,
    tolerance: T,
) -> (checked: Result<(), String>)
    requires
        rows_of_three(*primal),
        rows_of_three(*dual),
        primal.rows() == dual.rows(),
    ensures
        match reconstruction_fault(
            vertex_kidx as nat,
            grade as nat,
            *primal,
            *dual,
            volume,
            tolerance,
        ) {
            Some(message) => checked matches Err(text) && text@ == message,
            None => checked is Ok,
        },
{
    proof {
        lemma_three_fits(primal.rows() as int);
        assert(3int * 3int == 9) by (nonlinear_arith);
    }
    let columns = primal.transpose();
    let actual = columns.product(dual);
    let mut worst = T::zero();
    let mut n: usize = 0;
    while n < 9
        invariant
            n <= 9,
            rows_of_three(*primal),
            rows_of_three(*dual),
            primal.rows() == dual.rows(),
            is_transpose(columns, *primal),
            is_product(actual, columns, *dual),
            worst == deviation(*primal, *dual, volume, n as int),
        decreases 9 - n,
    {
        let i: usize = n / 3;
        let j: usize = n % 3;
        let expected = if i == j {
            volume
        } else {
            T::zero()
        };
        proof {
            dot_to_is(
                columns,
                *dual,
                i as int,
                j as int,
                primal.rows() as int,
                |k: int| primal.at(k, i as int),
                |k: int| dual.at(k, j as int),
            );
        }
        worst = larger(worst, magnitude(actual.get(i, j).minus(expected)));
        n = n + 1;
    }
    let allowed = tolerance.times(larger(magnitude(volume), T::one()));
    if allowed.is_below(worst) {
        let mut text = owned("barycentric-dual reconstruction identity failed for vertex ");
        push_decimal(&mut text, vertex_kidx);
        text.append(", grade ");
        push_decimal(&mut text, grade);
        text.append(": max abs error ");
        let shown = worst.display();
        text.append(shown.as_str());
        text.append(" exceeds ");
        let shown = allowed.display();
        text.append(shown.as_str());
        return Err(text);
    }
    Ok(())
}

/// The inverse mass without stabilization: products of primal vectors by the volume.
pub open spec fn consistent_at<T: Scalar>(primal: DenseMatrix<T>, volume: T, i: int, j: int) -> T {
    sum_products(|k: int| primal.at(i, k), |k: int| primal.at(j, k), 3).over_spec(volume)
}

/// The sum of the first `n` values on its diagonal.
pub open spec fn consistent_trace<T: Scalar>(primal: DenseMatrix<T>, volume: T, n: int) -> T
    decreases n,
{
    if n <= 0 {
        T::zero_spec()
    } else {
        consistent_trace(primal, volume, n - 1).plus_spec(
            consistent_at(primal, volume, n - 1, n - 1),
        )
    }
}

/// The products of the columns of the dual vectors.
pub open spec fn gram<T: Scalar>(dual: DenseMatrix<T>) -> spec_fn(int, int) -> T {
    |a: int, b: int| reconstruction_at(dual, dual, a, b)
}

/// The inverse of the products of the columns of the dual vectors.
pub open spec fn gram_inverse_at<T: Scalar>(dual: DenseMatrix<T>, a: int, b: int) -> T {
    adjugate3(gram(dual), a, b).over_spec(determinant3(gram(dual)))
}

/// The projection onto what is orthogonal to the columns of the dual vectors.
pub open spec fn projector_at<T: Scalar>(dual: DenseMatrix<T>, i: int, j: int) -> T {
    (if i == j {
        T::one_spec()
    } else {
        T::zero_spec()
    }).minus_spec(
        sum_products(
            |k: int|
                sum_products(|l: int| dual.at(i, l), |l: int| gram_inverse_at(dual, l, k), 3),
            |k: int| dual.at(j, k),
            3,
        ),
    )
}

/// The weight of the stabilization.
pub open spec fn stabilization_weight<T: Scalar>(
    primal: DenseMatrix<T>,
    volume: T,
    stabilization_factor: T,
) -> T {
    stabilization_factor.times_spec(
        consistent_trace(primal, volume, primal.rows() as int).over_spec(
            T::from_count_spec((primal.rows() - 3) as nat),
        ),
    )
}

/// The stabilized inverse mass.
pub open spec fn stabilized_at<T: Scalar>(
    primal: DenseMatrix<T>,
    dual: DenseMatrix<T>,
    volume: T,
    stabilization_factor: T,
    i: int,
    j: int,
) -> T {
    consistent_at(primal, volume, i, j).plus_spec(
        if primal.rows() == 3 {
            T::zero_spec()
        } else {
            projector_at(dual, i, j).times_spec(
                stabilization_weight(primal, volume, stabilization_factor),
            )
        },
    )
}

/// The stabilized inverse mass, made symmetric.
pub open spec fn inverse_block_at<T: Scalar>(
    primal: DenseMatrix<T>,
    dual: DenseMatrix<T>,
    volume: T,
    stabilization_factor: T,
    i: int,
    j: int,
) -> T {
    stabilized_at(primal, dual, volume, stabilization_factor, i, j).plus_spec(
        stabilized_at(primal, dual, volume, stabilization_factor, j, i),
    ).times_spec(reciprocal_spec::<T>(2))
}

/// The inverse mass around a vertex.
pub open spec fn is_inverse_block<T: Scalar>(
    block: DenseMatrix<T>,
    primal: DenseMatrix<T>,
    dual: DenseMatrix<T>,
    volume: T,
    stabilization_factor: T,
) -> bool {
    &&& block.wf()
    &&& block.rows() == primal.rows()
    &&& block.cols() == primal.rows()
    &&& forall|i: int, j: int|
        0 <= i < primal.rows() && 0 <= j < primal.rows() ==> #[trigger] block.at(i, j)
            == inverse_block_at(primal, dual, volume, stabilization_factor, i, j)
}

/// The words for dual vectors that do not span space.
pub open spec fn rank_fault(vertex: nat, grade: nat) -> Seq<char> {
    "barycentric-dual dual reconstruction matrix is rank deficient for vertex "@ + decimal(vertex)
        + ", grade "@ + decimal(grade)
}

/// The words for an inverse mass that is not positive definite.
pub open spec fn definiteness_fault(vertex: nat, grade: nat) -> Seq<char> {
    "barycentric-dual local inverse block is not positive definite for vertex "@ + decimal(vertex)
        + ", grade "@ + decimal(grade)
}

/// A block is only used if it is positive definite.
pub fn require_positive_definite(vertex_kidx: KSimplexIdx, grade: Dim, positive_definite: bool) -> (
    checked: Result<(), String>)
    ensures
        checked is Ok == positive_definite,
        checked matches Err(text) ==> text@ == definiteness_fault(
            vertex_kidx as nat,
            grade as nat,
        ),
{
    if !positive_definite {
        let mut text = owned(
            "barycentric-dual local inverse block is not positive definite for vertex ",
        );
        push_decimal(&mut text, vertex_kidx);
        text.append(", grade ");
        push_decimal(&mut text, grade);
        return Err(text);
    }
    Ok(())
}

fn consistent_block<T: Scalar>(primal: &DenseMatrix<T>, volume: T) -> (m: DenseMatrix<T>)
    requires
        rows_of_three(*primal),
    ensures
        m.wf(),
        m.rows() == primal.rows(),
        m.cols() == primal.rows(),
        forall|i: int, j: int|
            0 <= i < primal.rows() && 0 <= j < primal.rows() ==> #[trigger] m.at(i, j)
                == consistent_at(*primal, volume, i, j),
{
    proof {
        lemma_three_fits(primal.rows() as int);
    }
    let columns = primal.transpose();
    let products = primal.product(&columns);
    let m = products.divided(volume);
    proof {
        assert forall|i: int, j: int|
            0 <= i < primal.rows() && 0 <= j < primal.rows() implies #[trigger] m.at(i, j)
            == consistent_at(*primal, volume, i, j) by {
            dot_to_is(
                *primal,
                columns,
                i,
                j,
                3,
                |k: int| primal.at(i, k),
                |k: int| primal.at(j, k),
            );
            assert(products.at(i, j) == dot_to(*primal, columns, i, j, 3));
        }
    }
    m
}

fn projector_block<T: Scalar>(dual: &DenseMatrix<T>) -> (m: Option<DenseMatrix<T>>)
    requires
        rows_of_three(*dual),
    ensures
        m is None == determinant3(gram(*dual)).is_zero_spec(),
        m matches Some(projector) ==> {
            &&& projector.wf()
            &&& projector.rows() == dual.rows()
            &&& projector.cols() == dual.rows()
            &&& forall|i: int, j: int|
                0 <= i < dual.rows() && 0 <= j < dual.rows() ==> #[trigger] projector.at(i, j)
                    == projector_at(*dual, i, j)
        },
{
    proof {
        lemma_three_fits(dual.rows() as int);
        assert(3int * 3int == 9) by (nonlinear_arith);
    }
    let n: usize = dual.nrows();
    let columns = dual.transpose();
    let products = columns.product(dual);
    proof {
        assert forall|a: int, b: int| 0 <= a < 3 && 0 <= b < 3 implies #[trigger] products.at(a, b)
            == gram(*dual)(a, b) by {
            dot_to_is(
                columns,
                *dual,
                a,
                b,
                dual.rows() as int,
                |k: int| dual.at(k, a),
                |k: int| dual.at(k, b),
            );
        }
        inverse_same(products.values_fn(), gram(*dual));
    }
    let inverse = match products.inverse3() {
        Some(inverse) => inverse,
        None => {
            return None;
        },
    };
    let scaled = dual.product(&inverse);
    let projection = scaled.product(&columns);
    let identity = DenseMatrix::diagonal(n, T::one());
    let m = identity.difference(&projection);
    proof {
        assert forall|i: int, j: int|
            0 <= i < dual.rows() && 0 <= j < dual.rows() implies #[trigger] m.at(i, j)
            == projector_at(*dual, i, j) by {
            let f = |k: int|
                sum_products(|l: int| dual.at(i, l), |l: int| gram_inverse_at(*dual, l, k), 3);
            assert forall|k: int| 0 <= k < 3 implies #[trigger] scaled.at(i, k) == f(k) by {
                dot_to_is(
                    *dual,
                    inverse,
                    i,
                    k,
                    3,
                    |l: int| dual.at(i, l),
                    |l: int| gram_inverse_at(*dual, l, k),
                );
            }
            dot_to_is(scaled, columns, i, j, 3, f, |k: int| dual.at(j, k));
            assert(projection.at(i, j) == dot_to(scaled, columns, i, j, 3));
            assert(identity.at(i, j) == (if i == j {
                T::one_spec()
            } else {
                T::zero_spec()
            }));
        }
    }
    Some(m)
}

/// The determinant and the adjugate depend on nine values only.
pub proof fn inverse_same<T: Scalar>(f: spec_fn(int, int) -> T, g: spec_fn(int, int) -> T)
    requires
        forall|a: int, b: int| 0 <= a < 3 && 0 <= b < 3 ==> #[trigger] f(a, b) == g(a, b),
    ensures
        determinant3(f) == determinant3(g),
        forall|a: int, b: int|
            0 <= a < 3 && 0 <= b < 3 ==> #[trigger] adjugate3(f, a, b) == adjugate3(g, a, b),
{
    assert(f(0, 0) == g(0, 0));
    assert(f(0, 1) == g(0, 1));
    assert(f(0, 2) == g(0, 2));
    assert(f(1, 0) == g(1, 0));
    assert(f(1, 1) == g(1, 1));
    assert(f(1, 2) == g(1, 2));
    assert(f(2, 0) == g(2, 0));
    assert(f(2, 1) == g(2, 1));
    assert(f(2, 2) == g(2, 2));
}

proof fn lemma_trace<T: Scalar>(m: DenseMatrix<T>, primal: DenseMatrix<T>, volume: T, n: int)
    requires
        0 <= n <= primal.rows(),
        forall|i: int, j: int|
            0 <= i < primal.rows() && 0 <= j < primal.rows() ==> #[trigger] m.at(i, j)
                == consistent_at(primal, volume, i, j),
    ensures
        trace_to(m, n) == consistent_trace(primal, volume, n),
    decreases n,
{
    if n > 0 {
        lemma_trace(m, primal, volume, n - 1);
        assert(m.at(n - 1, n - 1) == consistent_at(primal, volume, n - 1, n - 1));
    }
}

/// The inverse mass around a vertex. Fails if the dual vectors have to be projected out and do
/// not span space.
pub fn barycentric_dual_inverse_block<T: Scalar>(
    vertex_kidx: KSimplexIdx,
    grade: Dim,
    primal: &DenseMatrix<T>,
    dual: &DenseMatrix<T>,
    volume: T,
    stabilization_factor: T,
) -> (block: Result<DenseMatrix<T>, String>)
    requires
        rows_of_three(*primal),
        rows_of_three(*dual),
        primal.rows() == dual.rows(),
    ensures
        block is Err == (primal.rows() > 3 && determinant3(gram(*dual)).is_zero_spec()),
        match block {
            Ok(m) => is_inverse_block(m, *primal, *dual, volume, stabilization_factor),
            Err(text) => text@ == rank_fault(vertex_kidx as nat, grade as nat),
        },
{
    let n: usize = primal.nrows();
    let consistent = consistent_block(primal, volume);
    let stabilization = if n == 3 {
        DenseMatrix::zeros(n, n)
    } else {
        let projector = match projector_block(dual) {
            Some(projector) => projector,
            None => {
                let mut text = owned(
                    "barycentric-dual dual reconstruction matrix is rank deficient for vertex ",
                );
                push_decimal(&mut text, vertex_kidx);
                text.append(", grade ");
                push_decimal(&mut text, grade);
                return Err(text);
            },
        };
        proof {
            lemma_trace(consistent, *primal, volume, n as int);
        }
        let weight = stabilization_factor.times(
            consistent.trace().over(T::from_count((n - 3) as u64)),
        );
        projector.scaled(weight)
    };
    let block = consistent.sum(&stabilization);
    proof {
        assert forall|i: int, j: int| 0 <= i < n && 0 <= j < n implies #[trigger] block.at(i, j)
            == stabilized_at(*primal, *dual, volume, stabilization_factor, i, j) by {
            assert(consistent.at(i, j) == consistent_at(*primal, volume, i, j));
            if n == 3 {
                assert(stabilization.at(i, j) == T::zero_spec());
            } else {
                assert(stabilization.at(i, j) == projector_at(*dual, i, j).times_spec(
                    stabilization_weight(*primal, volume, stabilization_factor),
                ));
            }
        }
    }
    let transposed = block.transpose();
    let sum = block.sum(&transposed);
    let symmetric = sum.scaled(reciprocal(2));
    proof {
        assert forall|i: int, j: int| 0 <= i < n && 0 <= j < n implies #[trigger] symmetric.at(i, j)
            == inverse_block_at(*primal, *dual, volume, stabilization_factor, i, j) by {
            assert(block.at(i, j) == stabilized_at(
                *primal,
                *dual,
                volume,
                stabilization_factor,
                i,
                j,
            ));
            assert(transposed.at(i, j) == block.at(j, i));
            assert(sum.at(i, j) == block.at(i, j).plus_spec(transposed.at(i, j)));
        }
    }
    Ok(symmetric)
}

/// The inverse mass around a vertex with what it was made of.
#[derive(Debug, Clone)]
pub struct BarycentricDualLocalBlock<T> {
    pub simplex_kidxs: Vec<KSimplexIdx>,
    pub volume: T,
    pub primal: DenseMatrix<T>,
    pub dual: DenseMatrix<T>,
    pub inverse_block: DenseMatrix<T>,
}

/// The outcome for a vertex whose geometry is known.
pub open spec fn is_local_outcome<T: Scalar>(
    outcome: Result<BarycentricDualLocalBlock<T>, String>,
    geometry: BarycentricDualGeometry<T>,
    vertex: nat,
    grade: nat,
    config: BarycentricDualSparseInverseConfig<T>,
) -> bool {
    match reconstruction_fault(
        vertex,
        grade,
        geometry.primal,
        geometry.dual,
        geometry.volume,
        config.validation_tolerance,
    ) {
        Some(message) => outcome matches Err(text) && text@ == message,
        None => if geometry.primal.rows() > 3 && determinant3(gram(geometry.dual)).is_zero_spec() {
            outcome matches Err(text) && text@ == rank_fault(vertex, grade)
        } else {
            outcome matches Ok(local) && {
                &&& local.simplex_kidxs@ == geometry.simplex_kidxs@
                &&& local.volume == geometry.volume
                &&& local.primal == geometry.primal
                &&& local.dual == geometry.dual
                &&& is_inverse_block(
                    local.inverse_block,
                    geometry.primal,
                    geometry.dual,
                    geometry.volume,
                    config.stabilization_factor,
                )
            }
        },
    }
}

/// The simplices around a vertex are few enough for a matrix on them.
pub open spec fn vertex_fits(topology: Complex, grade: int, vertex: usize) -> bool {
    let n = simplices_around(topology, grade, vertex).len();
    n * n <= usize::MAX && n * 3 <= usize::MAX
}

/// The inverse mass around a vertex, from the volumes of the cells. It is not yet known to be
/// positive definite.
pub fn barycentric_dual_sparse_inverse_local_block<T: Scalar>(
    topology: &Complex,
    coords: &MeshCoords<T>,
    volumes: &[T],
    vertex_kidx: KSimplexIdx,
    grade: Dim,
    config: BarycentricDualSparseInverseConfig<T>,
) -> (local: Result<BarycentricDualLocalBlock<T>, String>)
    requires
        topology.wf(),
        config_fault(
            topology.dimension() as nat,
            coords.dim as nat,
            grade as nat,
            config,
        ) is None ==> tetrahedral(*topology, *coords) && volumes@.len() == topology.simplices(
            3,
        ).len() && vertex_fits(*topology, grade as int, vertex_kidx),
    ensures
        match config_fault(
            topology.dimension() as nat,
            coords.dim as nat,
            grade as nat,
            config,
        ) {
            Some(message) => local matches Err(text) && text@ == message,
            None => match geometry_fault(*topology, *coords, volumes@, vertex_kidx, grade as nat) {
                Some(message) => local matches Err(text) && text@ == message,
                None => exists|geometry: BarycentricDualGeometry<T>|
                    is_geometry(
                        geometry,
                        *topology,
                        *coords,
                        volumes@,
                        vertex_kidx,
                        grade as nat,
                    ) && #[trigger] is_local_outcome(
                        local,
                        geometry,
                        vertex_kidx as nat,
                        grade as nat,
                        config,
                    ),
            },
        },
{
    match validate_barycentric_dual_config(topology, coords, grade, config) {
        Ok(()) => {},
        Err(text) => {
            return Err(text);
        },
    }
    let geometry = match barycentric_dual_geometry(topology, coords, volumes, vertex_kidx, grade) {
        Ok(geometry) => geometry,
        Err(text) => {
            return Err(text);
        },
    };
    let ghost known = geometry;
    match validate_reconstruction_identity(
        vertex_kidx,
        grade,
        &geometry.primal,
        &geometry.dual,
        geometry.volume,
        config.validation_tolerance,
    ) {
        Ok(()) => {},
        Err(text) => {
            let outcome: Result<BarycentricDualLocalBlock<T>, String> = Err(text);
            proof {
                assert(is_local_outcome(
                    outcome,
                    known,
                    vertex_kidx as nat,
                    grade as nat,
                    config,
                ));
            }
            return outcome;
        },
    }
    let inverse_block = match barycentric_dual_inverse_block(
        vertex_kidx,
        grade,
        &geometry.primal,
        &geometry.dual,
        geometry.volume,
        config.stabilization_factor,
    ) {
        Ok(block) => block,
        Err(text) => {
            let outcome: Result<BarycentricDualLocalBlock<T>, String> = Err(text);
            proof {
                assert(is_local_outcome(
                    outcome,
                    known,
                    vertex_kidx as nat,
                    grade as nat,
                    config,
                ));
            }
            return outcome;
        },
    };
    let outcome: Result<BarycentricDualLocalBlock<T>, String> = Ok(
        BarycentricDualLocalBlock {
            simplex_kidxs: geometry.simplex_kidxs,
            volume: geometry.volume,
            primal: geometry.primal,
            dual: geometry.dual,
            inverse_block,
        },
    );
    proof {
        assert(is_local_outcome(outcome, known, vertex_kidx as nat, grade as nat, config));
    }
    outcome
}

/// Where the order of summands does not matter, the inverse mass around a vertex is symmetric.
pub proof fn inverse_block_symmetric<T: Scalar>(
    primal: DenseMatrix<T>,
    dual: DenseMatrix<T>,
    volume: T,
    stabilization_factor: T,
    i: int,
    j: int,
)
    requires
        exact_addition::<T>(),
    ensures
        inverse_block_at(primal, dual, volume, stabilization_factor, i, j) == inverse_block_at(
            primal,
            dual,
            volume,
            stabilization_factor,
            j,
            i,
        ),
{
}

/// A block couples simplices around its vertex only.
pub proof fn blocks_are_local<T: Scalar>(
    geometry: BarycentricDualGeometry<T>,
    topology: Complex,
    coords: MeshCoords<T>,
    volumes: Seq<T>,
    vertex: usize,
    grade: nat,
    j: int,
)
    requires
        is_geometry(geometry, topology, coords, volumes, vertex, grade),
        0 <= j < geometry.simplex_kidxs@.len(),
    ensures
        topology.simplices(grade as int)[geometry.simplex_kidxs@[j] as int].contains(vertex),
{
    let holds = |i: int| topology.simplices(grade as int)[i].contains(vertex);
    let around = simplices_around(topology, grade as int, vertex);
    assert(geometry.simplex_kidxs@[j] == around[j]);
    assert(around.contains(around[j]));
    indices_where_members(topology.simplices(grade as int).len() as int, holds, around[j]);
}

} // verus!
