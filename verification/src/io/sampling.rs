//! Vectors that stand for forms: values at barycenters, and proxies along edges.

use crate::io::fields::other;
use crate::io::fields::{Cochain, ExportError, MeshCoords};
use crate::io::sampling_law::{cell_pseudovectors_give_the_fluxes, fluxes_are_of_form};
use crate::linalg::dense::DenseMatrix;
use crate::linalg::ring::commutative_ring;
use crate::linalg::scalar::Scalar;
use crate::text::decimal;
use crate::text::{owned, push_decimal};
use crate::topology::complex::Complex;
use crate::topology::skeleton::uniform;
use crate::whitney::{barycenter_value, barycenter_values, lifts_fit, low_degrees_fit};
use vstd::prelude::*;
use vstd::string::*;

verus! {

/// Components padded with zeros.
pub open spec fn component<T: Scalar>(value: Seq<T>, axis: int) -> T {
    if axis < value.len() {
        value[axis]
    } else {
        T::zero_spec()
    }
}

/// A vector of three components, padded with zeros.
pub open spec fn is_padded<T: Scalar>(v: [T; 3], value: Seq<T>) -> bool {
    &&& v@[0] == component(value, 0)
    &&& v@[1] == component(value, 1)
    &&& v@[2] == component(value, 2)
}

fn padded<T: Scalar>(value: &[T]) -> (v: [T; 3])
    ensures
        is_padded(v, value@),
{
    let x = if value.len() > 0 {
        value[0]
    } else {
        T::zero()
    };
    let y = if value.len() > 1 {
        value[1]
    } else {
        T::zero()
    };
    let z = if value.len() > 2 {
        value[2]
    } else {
        T::zero()
    };
    [x, y, z]
}

/// What keeps a cochain from being sampled as a one-form.
pub open spec fn one_form_fault<T: Scalar>(
    coords: MeshCoords<T>,
    topology: Complex,
    cochain: Cochain<T>,
) -> Option<Seq<char>> {
    if cochain.dim != 1 {
        Some("Expected a 1-cochain, got dim "@ + decimal(cochain.dim as nat))
    } else if coords.dim > 3 {
        Some("VTK export supports up to 3D coordinates"@)
    } else if topology.dimension() > coords.dim {
        Some(
            "Invalid mesh dimensions: topology dim "@ + decimal(topology.dimension() as nat)
                + " > coordinate dim "@ + decimal(coords.dim as nat),
        )
    } else if cochain.coeffs@.len() != topology.simplices(1).len() {
        Some(
            "Cochain length "@ + decimal(cochain.coeffs@.len())
                + " does not match edge skeleton size "@ + decimal(topology.simplices(1).len()),
        )
    } else {
        None
    }
}

/// The values of a Whitney form at the barycenters of the cells, padded with zeros.
pub open spec fn are_cell_vectors<T: Scalar>(
    vectors: Seq<[T; 3]>,
    cochain: Cochain<T>,
    topology: Complex,
    lifts: Seq<DenseMatrix<T>>,
) -> bool {
    &&& vectors.len() == lifts.len()
    &&& forall|i: int|
        0 <= i < vectors.len() ==> is_padded(
            #[trigger] vectors[i],
            barycenter_value(cochain, topology, lifts[i], i),
        )
}

/// The vectors of a one-form on the cells: its values at their barycenters. The maps take the
/// forms of the reference simplex to the space around the mesh.
pub fn sample_1form_cell_vectors<T: Scalar>(
    coords: &MeshCoords<T>,
    topology: &Complex,
    cochain: &Cochain<T>,
    lifts: &[DenseMatrix<T>],
) -> (vectors: Result<Vec<[T; 3]>, ExportError>)
    requires
        topology.wf(),
        cochain.dim == 1 && coords.dim <= 3 ==> topology.dimension() >= 1,
        one_form_fault(*coords, *topology, *cochain) is None ==> lifts_fit(
            lifts@,
            *topology,
            coords.dim as nat,
            1,
        ),
    ensures
        match one_form_fault(*coords, *topology, *cochain) {
            Some(message) => vectors matches Err(e) && other(e, message),
            None => vectors matches Ok(v) && are_cell_vectors(v@, *cochain, *topology, lifts@),
        },
{
    if cochain.dim() != 1 {
        let mut text = owned("Expected a 1-cochain, got dim ");
        push_decimal(&mut text, cochain.dim());
        return Err(ExportError::Other(text));
    }
    if coords.dim() > 3 {
        return Err(ExportError::Other(owned("VTK export supports up to 3D coordinates")));
    }
    let topo_dim: usize = topology.dim();
    if topo_dim > coords.dim() {
        let mut text = owned("Invalid mesh dimensions: topology dim ");
        push_decimal(&mut text, topo_dim);
        text.append(" > coordinate dim ");
        push_decimal(&mut text, coords.dim());
        return Err(ExportError::Other(text));
    }
    let nedges: usize = topology.nsimplices(1);
    if cochain.len() != nedges {
        let mut text = owned("Cochain length ");
        push_decimal(&mut text, cochain.len());
        text.append(" does not match edge skeleton size ");
        push_decimal(&mut text, nedges);
        return Err(ExportError::Other(text));
    }
    proof {
        low_degrees_fit(topo_dim as nat, 1);
    }
    let values = barycenter_values(cochain, topology, Ghost(coords.dim as nat), lifts);
    let mut vectors: Vec<[T; 3]> = Vec::new();
    let mut i: usize = 0;
    while i < values.len()
        invariant
            i <= values@.len(),
            vectors@.len() == i,
            forall|j: int| 0 <= j < i ==> is_padded(#[trigger] vectors@[j], values@[j]@),
        decreases values@.len() - i,
    {
        vectors.push(padded(values[i].as_slice()));
        i = i + 1;
    }
    Ok(vectors)
}

/// What keeps a cochain from being sampled as a two-form.
pub open spec fn two_form_fault<T: Scalar>(
    coords: MeshCoords<T>,
    topology: Complex,
    cochain: Cochain<T>,
    limit: Seq<char>,
) -> Option<Seq<char>> {
    if cochain.dim != 2 {
        Some("Expected a 2-cochain, got dim "@ + decimal(cochain.dim as nat))
    } else if coords.dim != 3 || topology.dimension() != 3 {
        Some(limit)
    } else if cochain.coeffs@.len() != topology.simplices(2).len() {
        Some(
            "Cochain length "@ + decimal(cochain.coeffs@.len())
                + " does not match face skeleton size "@ + decimal(topology.simplices(2).len()),
        )
    } else {
        None
    }
}

/// The vector that stands for a two-form with coefficients for the planes 01, 02 and 12.
pub open spec fn is_pseudovector<T: Scalar>(v: [T; 3], coeffs: Seq<T>) -> bool {
    &&& v@[0] == coeffs[2]
    &&& v@[1] == coeffs[1].negated_spec()
    &&& v@[2] == coeffs[0]
}

/// Fails, with the given words for meshes that are not three-dimensional, unless a cochain can
/// be sampled as a two-form.
pub fn check_2form<T: Scalar>(
    coords: &MeshCoords<T>,
    topology: &Complex,
    cochain: &Cochain<T>,
    limit: &str,
) -> (checked: Result<(), ExportError>)
    requires
        topology.wf(),
    ensures
        match two_form_fault(*coords, *topology, *cochain, limit@) {
            Some(message) => checked matches Err(e) && other(e, message),
            None => checked is Ok,
        },
{
    if cochain.dim() != 2 {
        let mut text = owned("Expected a 2-cochain, got dim ");
        push_decimal(&mut text, cochain.dim());
        return Err(ExportError::Other(text));
    }
    if coords.dim() != 3 || topology.dim() != 3 {
        return Err(ExportError::Other(owned(limit)));
    }
    let nfaces: usize = topology.nsimplices(2);
    if cochain.len() != nfaces {
        let mut text = owned("Cochain length ");
        push_decimal(&mut text, cochain.len());
        text.append(" does not match face skeleton size ");
        push_decimal(&mut text, nfaces);
        return Err(ExportError::Other(text));
    }
    Ok(())
}

/// The vectors that stand for a Whitney form at the barycenters of the cells.
pub open spec fn are_cell_pseudovectors<T: Scalar>(
    vectors: Seq<[T; 3]>,
    cochain: Cochain<T>,
    topology: Complex,
    lifts: Seq<DenseMatrix<T>>,
) -> bool {
    &&& vectors.len() == lifts.len()
    &&& forall|i: int|
        0 <= i < vectors.len() ==> is_pseudovector(
            #[trigger] vectors[i],
            barycenter_value(cochain, topology, lifts[i], i),
        )
}

/// The vectors that stand for a two-form on the cells, at their barycenters. The maps take the
/// forms of the reference simplex to the space around the mesh.
pub fn sample_2form_cell_vectors<T: Scalar>(
    coords: &MeshCoords<T>,
    topology: &Complex,
    cochain: &Cochain<T>,
    lifts: &[DenseMatrix<T>],
) -> (vectors: Result<Vec<[T; 3]>, ExportError>)
    requires
        topology.wf(),
        cochain.dim == 2 && coords.dim == 3 && topology.dimension() == 3 ==> lifts_fit(
            lifts@,
            *topology,
            3,
            2,
        ),
    ensures
        match two_form_fault(
            *coords,
            *topology,
            *cochain,
            "sample_2form_cell_vectors supports 3D meshes only"@,
        ) {
            Some(message) => vectors matches Err(e) && other(e, message),
            None => vectors matches Ok(v) && are_cell_pseudovectors(
                v@,
                *cochain,
                *topology,
                lifts@,
            ) && (commutative_ring::<T>() ==> fluxes_are_of_form(
                v@,
                *cochain,
                *topology,
                lifts@,
            )),
        },
{
    match check_2form(
        coords,
        topology,
        cochain,
        "sample_2form_cell_vectors supports 3D meshes only",
    ) {
        Ok(()) => Ok(pseudovectors(topology, cochain, lifts)),
        Err(e) => Err(e),
    }
}

/// The vectors that stand for a two-form at the barycenters of the cells.
pub(crate) fn pseudovectors<T: Scalar>(
    topology: &Complex,
    cochain: &Cochain<T>,
    lifts: &[DenseMatrix<T>],
) -> (vectors: Vec<[T; 3]>)
    requires
        topology.wf(),
        topology.dimension() == 3,
        cochain.dim == 2,
        cochain.on(*topology),
        lifts_fit(lifts@, *topology, 3, 2),
    ensures
        are_cell_pseudovectors(vectors@, *cochain, *topology, lifts@),
        commutative_ring::<T>() ==> fluxes_are_of_form(vectors@, *cochain, *topology, lifts@),
{
    proof {
        low_degrees_fit(3, 2);
    }
    let values = barycenter_values(cochain, topology, Ghost(3), lifts);
    let mut vectors: Vec<[T; 3]> = Vec::new();
    let mut i: usize = 0;
    while i < values.len()
        invariant
            i <= values@.len(),
            vectors@.len() == i,
            forall|j: int| 0 <= j < values@.len() ==> (#[trigger] values@[j])@.len() == 3,
            forall|j: int| 0 <= j < i ==> is_pseudovector(#[trigger] vectors@[j], values@[j]@),
        decreases values@.len() - i,
    {
        let coeffs = values[i].as_slice();
        vectors.push([coeffs[2], coeffs[1].negated(), coeffs[0]]);
        i = i + 1;
    }
    proof {
        if commutative_ring::<T>() {
            cell_pseudovectors_give_the_fluxes(vectors@, *cochain, *topology, lifts@);
        }
    }
    vectors
}

/// The sum of the squares of components.
pub open spec fn norm_squared<T: Scalar>(v: Seq<T>) -> T
    decreases v.len(),
{
    if v.len() == 0 {
        T::zero_spec()
    } else {
        norm_squared(v.drop_last()).plus_spec(v.last().times_spec(v.last()))
    }
}

/// From the first vertex of an edge to the second.
pub open spec fn edge_direction<T: Scalar>(coords: MeshCoords<T>, edge: Seq<usize>) -> Seq<T> {
    Seq::new(
        coords.dim as nat,
        |a: int|
            coords.coords@[edge[1] as int]@[a].minus_spec(coords.coords@[edge[0] as int]@[a]),
    )
}

/// The vector along an edge whose length is the value on the edge by its length: zero on an
/// edge without length.
pub open spec fn edge_proxy<T: Scalar>(coords: MeshCoords<T>, edge: Seq<usize>, value: T) -> Seq<
    T,
> {
    let direction = edge_direction(coords, edge);
    let length = norm_squared(direction).square_root_spec();
    if T::zero_spec().is_below_spec(length) {
        let scale = value.over_spec(length);
        Seq::new(direction.len(), |a: int| direction[a].times_spec(scale))
    } else {
        Seq::new(direction.len(), |a: int| T::zero_spec())
    }
}

fn edge_proxy_vector<T: Scalar>(coords: &MeshCoords<T>, edge: &[usize], value: T) -> (v: [T; 3])
    requires
        coords.wf(),
        edge@.len() == 2,
        edge@[0] < coords.coords@.len(),
        edge@[1] < coords.coords@.len(),
    ensures
        is_padded(v, edge_proxy(*coords, edge@, value)),
{
    let ghost direction = edge_direction(*coords, edge@);
    let mut dir: Vec<T> = Vec::new();
    let mut sum = T::zero();
    let mut a: usize = 0;
    while a < coords.dim()
        invariant
            a <= coords.dim,
            coords.wf(),
            edge@.len() == 2,
            edge@[0] < coords.coords@.len(),
            edge@[1] < coords.coords@.len(),
            direction == edge_direction(*coords, edge@),
            dir@ =~= direction.take(a as int),
            sum == norm_squared(direction.take(a as int)),
        decreases coords.dim - a,
    {
        let d = coords.coordinate(edge[1], a).minus(coords.coordinate(edge[0], a));
        dir.push(d);
        sum = sum.plus(d.times(d));
        proof {
            let next = direction.take(a + 1);
            assert(next.drop_last() =~= direction.take(a as int));
            assert(next.last() == d);
        }
        a = a + 1;
    }
    proof {
        assert(direction.take(a as int) =~= direction);
    }
    let length = sum.square_root();
    let long = T::zero().is_below(length);
    let scale = value.over(length);
    let mut proxy: Vec<T> = Vec::new();
    let mut a: usize = 0;
    while a < dir.len()
        invariant
            a <= dir@.len(),
            dir@ == direction,
            proxy@.len() == a,
            forall|b: int|
                0 <= b < a ==> #[trigger] proxy@[b] == (if long {
                    direction[b].times_spec(scale)
                } else {
                    T::zero_spec()
                }),
        decreases dir@.len() - a,
    {
        proxy.push(
            if long {
                dir[a].times(scale)
            } else {
                T::zero()
            },
        );
        a = a + 1;
    }
    proof {
        assert(proxy@ =~= edge_proxy(*coords, edge@, value));
    }
    padded(proxy.as_slice())
}

/// Vectors along the edges of a mesh for the values of a cochain.
pub open spec fn are_edge_proxies<T: Scalar>(
    vectors: Seq<[T; 3]>,
    coords: MeshCoords<T>,
    edges: Seq<Seq<usize>>,
    values: Seq<T>,
) -> bool {
    &&& vectors.len() == edges.len()
    &&& forall|i: int|
        0 <= i < vectors.len() ==> is_padded(
            #[trigger] vectors[i],
            edge_proxy(coords, edges[i], values[i]),
        )
}

/// Vectors along the edges of a mesh for the values of a cochain.
pub fn edge_proxies<T: Scalar>(coords: &MeshCoords<T>, topology: &Complex, values: &[T]) -> (vectors:
    Vec<[T; 3]>)
    requires
        coords.wf(),
        topology.wf(),
        topology.dimension() >= 1,
        topology.simplices(0).len() <= coords.coords@.len(),
        values@.len() == topology.simplices(1).len(),
    ensures
        are_edge_proxies(vectors@, *coords, topology.simplices(1), values@),
{
    let mut vectors: Vec<[T; 3]> = Vec::new();
    let mut i: usize = 0;
    proof {
        topology.simplex_facts(1);
    }
    while i < values.len()
        invariant
            i <= values@.len(),
            coords.wf(),
            topology.wf(),
            topology.dimension() >= 1,
            topology.simplices(0).len() <= coords.coords@.len(),
            values@.len() == topology.simplices(1).len(),
            uniform(
                topology.simplices(1),
                2,
                topology.simplices(0).len() as int,
            ),
            vectors@.len() == i,
            forall|j: int|
                0 <= j < i ==> is_padded(
                    #[trigger] vectors@[j],
                    edge_proxy(*coords, topology.simplices(1)[j], values@[j]),
                ),
        decreases values@.len() - i,
    {
        let edge = topology.simplex_at(1, i);
        vectors.push(edge_proxy_vector(coords, edge.vertices.as_slice(), values[i]));
        i = i + 1;
    }
    vectors
}

} // verus!
