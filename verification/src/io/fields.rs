//! Coordinates of meshes, cochains and the text of their values.

use crate::linalg::scalar::Scalar;
use crate::text::{flat, flat_ends, flat_step};
use vstd::prelude::*;
use vstd::string::*;

verus! {

/// The coordinates of the vertices of a mesh.
#[derive(Debug, Clone, PartialEq)]
pub struct MeshCoords<T> {
    pub dim: usize,
    pub coords: Vec<Vec<T>>,
}

impl<T: Scalar> MeshCoords<T> {
    /// There is at least one axis, and each vertex has one coordinate for each axis.
    pub open spec fn wf(&self) -> bool {
        &&& self.dim >= 1
        &&& forall|i: int|
            0 <= i < self.coords@.len() ==> (#[trigger] self.coords@[i])@.len() == self.dim
    }

    /// A coordinate of a vertex; zero beyond the dimension.
    pub open spec fn padded(&self, vertex: int, axis: int) -> T {
        if axis < self.dim {
            self.coords@[vertex]@[axis]
        } else {
            T::zero_spec()
        }
    }

    pub fn dim(&self) -> (dim: usize)
        ensures
            dim == self.dim,
    {
        self.dim
    }

    pub fn nvertices(&self) -> (n: usize)
        ensures
            n == self.coords@.len(),
    {
        self.coords.len()
    }

    /// A coordinate of a vertex; zero beyond the dimension.
    pub fn coordinate(&self, vertex: usize, axis: usize) -> (x: T)
        requires
            self.wf(),
            vertex < self.coords@.len(),
        ensures
            x == self.padded(vertex as int, axis as int),
    {
        if axis < self.dim {
            self.coords[vertex][axis]
        } else {
            T::zero()
        }
    }
}

/// A value for each simplex of one dimension.
#[derive(Debug, Clone, PartialEq)]
pub struct Cochain<T> {
    pub dim: usize,
    pub coeffs: Vec<T>,
}

impl<T: Scalar> Cochain<T> {
    pub fn dim(&self) -> (dim: usize)
        ensures
            dim == self.dim,
    {
        self.dim
    }

    pub fn len(&self) -> (n: usize)
        ensures
            n == self.coeffs@.len(),
    {
        self.coeffs.len()
    }
}

/// Three texts with blanks between them and a line break at the end.
pub open spec fn triple(a: Seq<char>, b: Seq<char>, c: Seq<char>) -> Seq<char> {
    a.push(' ') + b.push(' ') + c.push('\n')
}

/// Appends three texts with blanks between them and a line break at the end.
pub fn push_triple(text: &mut String, a: &str, b: &str, c: &str)
    ensures
        final(text)@ == old(text)@ + triple(a@, b@, c@),
{
    let ghost before = text@;
    text.append(a);
    text.push(' ');
    text.append(b);
    text.push(' ');
    text.append(c);
    text.push('\n');
    proof {
        assert(text@ =~= before + triple(a@, b@, c@));
    }
}

/// The vertices of a mesh, one on each line.
pub open spec fn fixed_points<T: Scalar>(coords: MeshCoords<T>, digits: nat) -> Seq<Seq<char>> {
    Seq::new(
        coords.coords@.len(),
        |i: int|
            triple(
                coords.padded(i, 0).fixed_spec(digits),
                coords.padded(i, 1).fixed_spec(digits),
                coords.padded(i, 2).fixed_spec(digits),
            ),
    )
}

/// Appends a vertex of a mesh.
pub fn push_fixed_point<T: Scalar>(
    text: &mut String,
    coords: &MeshCoords<T>,
    vertex: usize,
    digits: usize,
)
    requires
        coords.wf(),
        vertex < coords.coords@.len(),
    ensures
        final(text)@ == old(text)@ + fixed_points(*coords, digits as nat)[vertex as int],
{
    let x = coords.coordinate(vertex, 0).fixed(digits);
    let y = coords.coordinate(vertex, 1).fixed(digits);
    let z = coords.coordinate(vertex, 2).fixed(digits);
    push_triple(text, x.as_str(), y.as_str(), z.as_str());
}

/// Appends the vertices of a mesh.
pub fn push_fixed_points<T: Scalar>(text: &mut String, coords: &MeshCoords<T>, digits: usize)
    requires
        coords.wf(),
    ensures
        final(text)@ == old(text)@ + flat(fixed_points(*coords, digits as nat)),
{
    let ghost before = text@;
    let ghost lines = fixed_points(*coords, digits as nat);
    let mut i: usize = 0;
    proof {
        flat_ends(lines);
    }
    while i < coords.nvertices()
        invariant
            i <= coords.coords@.len(),
            coords.wf(),
            lines == fixed_points(*coords, digits as nat),
            text@ =~= before + flat(lines.take(i as int)),
        decreases coords.coords@.len() - i,
    {
        push_fixed_point(text, coords, i, digits);
        proof {
            flat_step(lines, i as int);
        }
        i = i + 1;
    }
    proof {
        flat_ends(lines);
    }
}

/// A vector as a line.
pub open spec fn vector_line<T: Scalar>(v: [T; 3]) -> Seq<char> {
    triple(v@[0].scientific_spec(12), v@[1].scientific_spec(12), v@[2].scientific_spec(12))
}

/// Appends a vector as a line.
pub fn push_vector_line<T: Scalar>(text: &mut String, v: &[T; 3])
    ensures
        final(text)@ == old(text)@ + vector_line(*v),
{
    let x = v[0].scientific(12);
    let y = v[1].scientific(12);
    let z = v[2].scientific(12);
    push_triple(text, x.as_str(), y.as_str(), z.as_str());
}

/// Values, one on each line.
pub open spec fn value_lines<T: Scalar>(values: Seq<T>) -> Seq<Seq<char>> {
    Seq::new(values.len(), |i: int| values[i].scientific_spec(12).push('\n'))
}

/// Appends values, one on each line.
pub fn push_value_lines<T: Scalar>(text: &mut String, values: &[T])
    ensures
        final(text)@ == old(text)@ + flat(value_lines(values@)),
{
    let ghost before = text@;
    let ghost lines = value_lines(values@);
    let mut i: usize = 0;
    proof {
        flat_ends(lines);
    }
    while i < values.len()
        invariant
            i <= values@.len(),
            lines == value_lines(values@),
            text@ =~= before + flat(lines.take(i as int)),
        decreases values@.len() - i,
    {
        let ghost here = text@;
        let value = values[i].scientific(12);
        text.append(value.as_str());
        text.push('\n');
        proof {
            flat_step(lines, i as int);
            assert(text@ =~= here + lines[i as int]);
        }
        i = i + 1;
    }
    proof {
        flat_ends(lines);
    }
}

/// The text of a cochain: one coefficient on each line.
pub fn write_cochain<T: Scalar>(cochain: &Cochain<T>) -> (text: String)
    ensures
        text@ == flat(value_lines(cochain.coeffs@)),
{
    let mut text = String::new();
    push_value_lines(&mut text, cochain.coeffs.as_slice());
    proof {
        assert(text@ =~= flat(value_lines(cochain.coeffs@)));
    }
    text
}

/// Why a file is not written.
#[derive(Debug)]
pub enum ExportError {
    /// The request does not fit the mesh or the format.
    InvalidInput(String),
    /// Some other reason.
    Other(String),
}

/// A request that does not fit the mesh or the format, with this message.
pub open spec fn invalid(error: ExportError, message: Seq<char>) -> bool {
    match error {
        ExportError::InvalidInput(text) => text@ == message,
        ExportError::Other(_) => false,
    }
}

/// Another failure, with this message.
pub open spec fn other(error: ExportError, message: Seq<char>) -> bool {
    match error {
        ExportError::InvalidInput(_) => false,
        ExportError::Other(text) => text@ == message,
    }
}

/// The number by which the format knows simplices of a dimension.
pub open spec fn cell_type_of(k: nat) -> Option<u32> {
    if k == 0 {
        Some(1)
    } else if k == 1 {
        Some(3)
    } else if k == 2 {
        Some(5)
    } else if k == 3 {
        Some(10)
    } else {
        None
    }
}

/// The number by which the format knows simplices of a dimension.
pub fn vtk_cell_type(k: usize) -> (cell_type: Option<u32>)
    ensures
        cell_type == cell_type_of(k as nat),
{
    match k {
        0 => Some(1),
        1 => Some(3),
        2 => Some(5),
        3 => Some(10),
        _ => None,
    }
}

} // verus!
