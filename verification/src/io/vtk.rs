//! Fields in the legacy format of unstructured grids.

use crate::io::fields::{
    cell_type_of, fixed_points, invalid, other, value_lines, vector_line,
};
use crate::io::fields::{
    push_fixed_points, push_value_lines, push_vector_line, vtk_cell_type, Cochain, ExportError,
    MeshCoords,
};
use crate::io::sampling::{
    are_cell_pseudovectors, are_cell_vectors, are_edge_proxies, one_form_fault, two_form_fault,
};
use crate::io::sampling::{check_2form, edge_proxies, pseudovectors, sample_1form_cell_vectors};
use crate::linalg::dense::DenseMatrix;
use crate::linalg::scalar::Scalar;
use crate::text::{decimal, first_fault, first_fault_ends, first_fault_step, flat, flat_ends, flat_step};
use crate::text::{owned, push_decimal, push_large};
use crate::topology::complex::Complex;
use crate::whitney::lifts_fit;
use vstd::prelude::*;
use vstd::string::*;

verus! {

/// The vertices of a simplex, each behind a blank.
pub open spec fn vertex_words(simplex: Seq<usize>) -> Seq<Seq<char>> {
    Seq::new(simplex.len(), |i: int| seq![' '] + decimal(simplex[i] as nat))
}

/// Cells as lines: the number of vertices and the vertices.
pub open spec fn cell_lines(simplices: Seq<Seq<usize>>, nverts: nat) -> Seq<Seq<char>> {
    Seq::new(
        simplices.len(),
        |i: int| (decimal(nverts) + flat(vertex_words(simplices[i]))).push('\n'),
    )
}

/// The same text `n` times.
pub open spec fn repeated(part: Seq<char>, n: nat) -> Seq<Seq<char>> {
    Seq::new(n, |i: int| part)
}

/// Appends the same text `n` times.
pub fn push_repeated(text: &mut String, part: &str, n: usize)
    ensures
        final(text)@ == old(text)@ + flat(repeated(part@, n as nat)),
{
    let ghost before = text@;
    let ghost parts = repeated(part@, n as nat);
    let mut i: usize = 0;
    proof {
        flat_ends(parts);
    }
    while i < n
        invariant
            i <= n,
            parts == repeated(part@, n as nat),
            text@ =~= before + flat(parts.take(i as int)),
        decreases n - i,
    {
        text.append(part);
        proof {
            flat_step(parts, i as int);
        }
        i = i + 1;
    }
    proof {
        flat_ends(parts);
    }
}

fn push_vertex_words(text: &mut String, vertices: &[usize])
    ensures
        final(text)@ == old(text)@ + flat(vertex_words(vertices@)),
{
    let ghost before = text@;
    let ghost words = vertex_words(vertices@);
    let mut i: usize = 0;
    proof {
        flat_ends(words);
    }
    while i < vertices.len()
        invariant
            i <= vertices@.len(),
            words == vertex_words(vertices@),
            text@ =~= before + flat(words.take(i as int)),
        decreases vertices@.len() - i,
    {
        let ghost here = text@;
        text.push(' ');
        push_decimal(text, vertices[i]);
        proof {
            flat_step(words, i as int);
            assert(text@ =~= here + words[i as int]);
        }
        i = i + 1;
    }
    proof {
        flat_ends(words);
    }
}

/// The cells of a skeleton with their types.
pub open spec fn cells_block(simplices: Seq<Seq<usize>>, k: nat, cell_type: nat) -> Seq<char> {
    let n = simplices.len();
    "CELLS "@ + decimal(n) + " "@ + decimal(n * (k + 2)) + "\n"@ + flat(cell_lines(simplices, k + 1))
        + "CELL_TYPES "@ + decimal(n) + "\n"@ + flat(repeated(decimal(cell_type).push('\n'), n))
}

fn push_cell_lines(text: &mut String, topology: &Complex, k: usize)
    requires
        topology.wf(),
        k <= topology.dimension(),
    ensures
        final(text)@ == old(text)@ + flat(cell_lines(topology.simplices(k as int), (k + 1) as nat)),
{
    let ghost before = text@;
    let ghost lines = cell_lines(topology.simplices(k as int), (k + 1) as nat);
    let n: usize = topology.nsimplices(k);
    let mut i: usize = 0;
    proof {
        flat_ends(lines);
    }
    while i < n
        invariant
            i <= n,
            topology.wf(),
            k <= topology.dimension(),
            n == topology.simplices(k as int).len(),
            lines == cell_lines(topology.simplices(k as int), (k + 1) as nat),
            text@ =~= before + flat(lines.take(i as int)),
        decreases n - i,
    {
        let ghost here = text@;
        let simplex = topology.simplex_at(k, i);
        push_large(text, k as u128 + 1);
        push_vertex_words(text, simplex.vertices.as_slice());
        text.push('\n');
        proof {
            flat_step(lines, i as int);
            assert(text@ =~= here + lines[i as int]);
        }
        i = i + 1;
    }
    proof {
        flat_ends(lines);
    }
}

fn push_cells_block(text: &mut String, topology: &Complex, k: usize, cell_type: u32)
    requires
        topology.wf(),
        k <= topology.dimension(),
        k <= 3,
    ensures
        final(text)@ == old(text)@ + cells_block(
            topology.simplices(k as int),
            k as nat,
            cell_type as nat,
        ),
{
    let ghost before = text@;
    let n: usize = topology.nsimplices(k);
    text.append("CELLS ");
    push_decimal(text, n);
    text.append(" ");
    proof {
        assert(0 <= n * (k + 2) <= usize::MAX * 5) by (nonlinear_arith)
            requires
                0 <= n <= usize::MAX,
                0 <= k <= 3,
        ;
    }
    push_large(text, n as u128 * (k as u128 + 2));
    text.append("\n");
    push_cell_lines(text, topology, k);
    text.append("CELL_TYPES ");
    push_decimal(text, n);
    text.append("\n");
    let mut line = String::new();
    push_decimal(&mut line, cell_type as usize);
    line.push('\n');
    push_repeated(text, line.as_str(), n);
    proof {
        assert(line@ =~= decimal(cell_type as nat).push('\n'));
        assert(text@ =~= before + cells_block(
            topology.simplices(k as int),
            k as nat,
            cell_type as nat,
        ));
    }
}

/// The head of a file.
pub open spec fn vtk_head(title: Seq<char>, dataset: Seq<char>) -> Seq<char> {
    "# vtk DataFile Version 4.2\n"@ + title + "\nASCII\nDATASET "@ + dataset + "\n"@
}

/// Appends the head of a file.
pub fn push_vtk_head(text: &mut String, title: &str, dataset: &str)
    ensures
        final(text)@ == old(text)@ + vtk_head(title@, dataset@),
{
    let ghost before = text@;
    text.append("# vtk DataFile Version 4.2\n");
    text.append(title);
    text.append("\nASCII\nDATASET ");
    text.append(dataset);
    text.append("\n");
    proof {
        assert(text@ =~= before + vtk_head(title@, dataset@));
    }
}

/// The points of a grid.
pub open spec fn points_block<T: Scalar>(coords: MeshCoords<T>) -> Seq<char> {
    "POINTS "@ + decimal(coords.coords@.len()) + " double\n"@ + flat(fixed_points(coords, 6))
}

fn push_points_block<T: Scalar>(text: &mut String, coords: &MeshCoords<T>)
    requires
        coords.wf(),
    ensures
        final(text)@ == old(text)@ + points_block(*coords),
{
    let ghost before = text@;
    text.append("POINTS ");
    push_decimal(text, coords.nvertices());
    text.append(" double\n");
    push_fixed_points(text, coords, 6);
    proof {
        assert(text@ =~= before + points_block(*coords));
    }
}

/// A grid with points and cells, without data.
pub open spec fn grid<T: Scalar>(
    title: Seq<char>,
    coords: MeshCoords<T>,
    simplices: Seq<Seq<usize>>,
    k: nat,
    cell_type: nat,
) -> Seq<char> {
    vtk_head(title, "UNSTRUCTURED_GRID"@) + points_block(coords) + cells_block(
        simplices,
        k,
        cell_type,
    )
}

fn push_grid<T: Scalar>(
    text: &mut String,
    title: &str,
    coords: &MeshCoords<T>,
    topology: &Complex,
    k: usize,
    cell_type: u32,
)
    requires
        coords.wf(),
        topology.wf(),
        k <= topology.dimension(),
        k <= 3,
    ensures
        final(text)@ == old(text)@ + grid(
            title@,
            *coords,
            topology.simplices(k as int),
            k as nat,
            cell_type as nat,
        ),
{
    let ghost before = text@;
    push_vtk_head(text, title, "UNSTRUCTURED_GRID");
    push_points_block(text, coords);
    push_cells_block(text, topology, k, cell_type);
    proof {
        assert(text@ =~= before + grid(
            title@,
            *coords,
            topology.simplices(k as int),
            k as nat,
            cell_type as nat,
        ));
    }
}

/// A scalar field.
pub open spec fn scalar_block<T: Scalar>(name: Seq<char>, values: Seq<T>) -> Seq<char> {
    "SCALARS "@ + name + " double 1\nLOOKUP_TABLE default\n"@ + flat(value_lines(values))
}

/// Appends a scalar field.
pub fn push_scalar_block<T: Scalar>(text: &mut String, name: &str, values: &[T])
    ensures
        final(text)@ == old(text)@ + scalar_block(name@, values@),
{
    let ghost before = text@;
    text.append("SCALARS ");
    text.append(name);
    text.append(" double 1\nLOOKUP_TABLE default\n");
    push_value_lines(text, values);
    proof {
        assert(text@ =~= before + scalar_block(name@, values@));
    }
}

/// Vectors, one on each line.
pub open spec fn vector_lines<T: Scalar>(vectors: Seq<[T; 3]>) -> Seq<Seq<char>> {
    Seq::new(vectors.len(), |i: int| vector_line(vectors[i]))
}

/// A vector field.
pub open spec fn vector_block<T: Scalar>(name: Seq<char>, vectors: Seq<[T; 3]>) -> Seq<char> {
    "VECTORS "@ + name + " double\n"@ + flat(vector_lines(vectors))
}

fn push_vector_block<T: Scalar>(text: &mut String, name: &str, vectors: &[[T; 3]])
    ensures
        final(text)@ == old(text)@ + vector_block(name@, vectors@),
{
    let ghost before = text@;
    text.append("VECTORS ");
    text.append(name);
    text.append(" double\n");
    let ghost head = text@;
    let ghost lines = vector_lines(vectors@);
    let mut i: usize = 0;
    proof {
        flat_ends(lines);
    }
    while i < vectors.len()
        invariant
            i <= vectors@.len(),
            lines == vector_lines(vectors@),
            text@ =~= head + flat(lines.take(i as int)),
        decreases vectors@.len() - i,
    {
        push_vector_line(text, &vectors[i]);
        proof {
            flat_step(lines, i as int);
        }
        i = i + 1;
    }
    proof {
        flat_ends(lines);
        assert(text@ =~= before + vector_block(name@, vectors@));
    }
}

/// The scalar fields of cochains.
pub open spec fn cochain_blocks<T: Scalar>(fields: Seq<(&str, &Cochain<T>)>) -> Seq<Seq<char>> {
    Seq::new(fields.len(), |i: int| scalar_block(fields[i].0@, fields[i].1.coeffs@))
}

fn push_cochain_blocks<T: Scalar>(text: &mut String, fields: &[(&str, &Cochain<T>)])
    ensures
        final(text)@ == old(text)@ + flat(cochain_blocks(fields@)),
{
    let ghost before = text@;
    let ghost blocks = cochain_blocks(fields@);
    let mut i: usize = 0;
    proof {
        flat_ends(blocks);
    }
    while i < fields.len()
        invariant
            i <= fields@.len(),
            blocks == cochain_blocks(fields@),
            text@ =~= before + flat(blocks.take(i as int)),
        decreases fields@.len() - i,
    {
        push_scalar_block(text, fields[i].0, fields[i].1.coeffs.as_slice());
        proof {
            flat_step(blocks, i as int);
        }
        i = i + 1;
    }
    proof {
        flat_ends(blocks);
    }
}

/// The dimension of the cells that are written for cochains of a degree.
pub open spec fn drawn_dimension(degree: nat, topo_dim: nat) -> nat {
    if degree == 0 {
        topo_dim
    } else {
        degree
    }
}

/// The number of values that a cochain of a degree has on a mesh.
pub open spec fn data_len<T: Scalar>(coords: MeshCoords<T>, topology: Complex, degree: nat) -> nat {
    if degree == 0 {
        coords.coords@.len()
    } else {
        topology.simplices(degree as int).len()
    }
}

/// What is wrong with a cochain as a field of a degree.
pub open spec fn cochain_field_fault<T: Scalar>(
    field: (&str, &Cochain<T>),
    degree: nat,
    expected: nat,
) -> Option<Seq<char>> {
    if field.1.dim != degree {
        Some("Expected a "@ + decimal(degree) + "-cochain for field "@ + field.0@)
    } else if field.1.coeffs@.len() != expected {
        Some(
            "Cochain length "@ + decimal(field.1.coeffs@.len())
                + " does not match expected data size "@ + decimal(expected) + " for field "@
                + field.0@,
        )
    } else {
        None
    }
}

/// What is wrong with cochains as fields of a degree, field by field.
pub open spec fn cochain_field_faults<T: Scalar>(
    fields: Seq<(&str, &Cochain<T>)>,
    degree: nat,
    expected: nat,
) -> Seq<Option<Seq<char>>> {
    Seq::new(fields.len(), |i: int| cochain_field_fault(fields[i], degree, expected))
}

/// What keeps cochains from being written.
pub open spec fn cochains_fault<T: Scalar>(
    coords: MeshCoords<T>,
    topology: Complex,
    degree: nat,
    fields: Seq<(&str, &Cochain<T>)>,
) -> Option<Seq<char>> {
    let topo_dim = topology.dimension() as nat;
    let k = drawn_dimension(degree, topo_dim);
    if fields.len() == 0 {
        Some("at least one cochain field is required"@)
    } else if coords.dim > 3 {
        Some("VTK export supports up to 3D coordinates"@)
    } else if degree > topo_dim {
        Some(
            "Cochain degree "@ + decimal(degree) + " exceeds topology dimension "@ + decimal(
                topo_dim,
            ),
        )
    } else if cell_type_of(k) is None {
        Some("Unsupported cell dimension "@ + decimal(k))
    } else {
        first_fault(cochain_field_faults(fields, degree, data_len(coords, topology, degree)))
    }
}

fn check_cochain_field<T: Scalar>(field: (&str, &Cochain<T>), degree: usize, expected: usize) -> (
    fault: Option<String>)
    ensures
        match cochain_field_fault(field, degree as nat, expected as nat) {
            Some(message) => fault matches Some(text) && text@ == message,
            None => fault is None,
        },
{
    if field.1.dim() != degree {
        let mut text = owned("Expected a ");
        push_decimal(&mut text, degree);
        text.append("-cochain for field ");
        text.append(field.0);
        return Some(text);
    }
    if field.1.len() != expected {
        let mut text = owned("Cochain length ");
        push_decimal(&mut text, field.1.len());
        text.append(" does not match expected data size ");
        push_decimal(&mut text, expected);
        text.append(" for field ");
        text.append(field.0);
        return Some(text);
    }
    None
}

/// The dimension and the type of the cells that are drawn for cochains, if the cochains fit
/// the mesh and the format.
pub fn check_cochain_fields<T: Scalar>(
    coords: &MeshCoords<T>,
    topology: &Complex,
    degree: usize,
    fields: &[(&str, &Cochain<T>)],
) -> (checked: Result<(usize, u32), ExportError>)
    requires
        topology.wf(),
    ensures
        match cochains_fault(*coords, *topology, degree as nat, fields@) {
            Some(message) => checked matches Err(e) && invalid(e, message),
            None => checked matches Ok(cells) && cells.0 == drawn_dimension(
                degree as nat,
                topology.dimension() as nat,
            ) && cells.0 <= topology.dimension() && cells.0 <= 3 && cell_type_of(cells.0 as nat)
                == Some(cells.1),
        },
{
    proof {
        topology.has_dimension();
    }
    if fields.len() == 0 {
        return Err(ExportError::InvalidInput(owned("at least one cochain field is required")));
    }
    if coords.dim() > 3 {
        return Err(ExportError::InvalidInput(owned("VTK export supports up to 3D coordinates")));
    }
    let topo_dim: usize = topology.dim();
    if degree > topo_dim {
        let mut text = owned("Cochain degree ");
        push_decimal(&mut text, degree);
        text.append(" exceeds topology dimension ");
        push_decimal(&mut text, topo_dim);
        return Err(ExportError::InvalidInput(text));
    }
    let k: usize = if degree == 0 {
        topo_dim
    } else {
        degree
    };
    let cell_type: u32 = match vtk_cell_type(k) {
        Some(cell_type) => cell_type,
        None => {
            let mut text = owned("Unsupported cell dimension ");
            push_decimal(&mut text, k);
            return Err(ExportError::InvalidInput(text));
        },
    };
    let expected: usize = if degree == 0 {
        coords.nvertices()
    } else {
        topology.nsimplices(degree)
    };
    let ghost faults = cochain_field_faults(fields@, degree as nat, expected as nat);
    let mut i: usize = 0;
    proof {
        first_fault_ends(faults);
    }
    while i < fields.len()
        invariant
            i <= fields@.len(),
            fields@.len() > 0,
            coords.dim <= 3,
            degree <= topology.dimension(),
            k == drawn_dimension(degree as nat, topology.dimension() as nat),
            cell_type_of(k as nat) is Some,
            expected == data_len(*coords, *topology, degree as nat),
            faults == cochain_field_faults(fields@, degree as nat, expected as nat),
            first_fault(faults.take(i as int)) is None,
        decreases fields@.len() - i,
    {
        proof {
            first_fault_step(faults, i as int);
        }
        match check_cochain_field(fields[i], degree, expected) {
            Some(text) => {
                return Err(ExportError::InvalidInput(text));
            },
            None => {},
        }
        i = i + 1;
    }
    proof {
        first_fault_ends(faults);
    }
    Ok((k, cell_type))
}

/// The file of scalar cochains.
pub open spec fn cochains_vtk<T: Scalar>(
    coords: MeshCoords<T>,
    topology: Complex,
    degree: nat,
    fields: Seq<(&str, &Cochain<T>)>,
) -> Seq<char> {
    let k = drawn_dimension(degree, topology.dimension() as nat);
    grid(
        decimal(degree) + "-cochain fields"@,
        coords,
        topology.simplices(k as int),
        k,
        cell_type_of(k)->0 as nat,
    ) + (if degree == 0 {
        "POINT_DATA "@
    } else {
        "CELL_DATA "@
    }) + decimal(data_len(coords, topology, degree)) + "\n"@ + flat(cochain_blocks(fields))
}

/// The file of scalar cochains of one degree: cochains of degree zero as values at the
/// vertices of the top-dimensional cells, others as values on the cells of their dimension.
/// Coordinates of fewer than three dimensions are padded with zeros.
pub fn write_cochain_vtk_fields<T: Scalar>(
    coords: &MeshCoords<T>,
    topology: &Complex,
    degree: usize,
    fields: &[(&str, &Cochain<T>)],
) -> (file: Result<String, ExportError>)
    requires
        coords.wf(),
        topology.wf(),
    ensures
        match cochains_fault(*coords, *topology, degree as nat, fields@) {
            Some(message) => file matches Err(e) && invalid(e, message),
            None => file matches Ok(text) && text@ == cochains_vtk(
                *coords,
                *topology,
                degree as nat,
                fields@,
            ),
        },
{
    let (k, cell_type): (usize, u32) = match check_cochain_fields(
        coords,
        topology,
        degree,
        fields,
    ) {
        Ok(cells) => cells,
        Err(e) => {
            return Err(e);
        },
    };
    let mut title = String::new();
    push_decimal(&mut title, degree);
    title.append("-cochain fields");
    proof {
        assert(title@ =~= decimal(degree as nat) + "-cochain fields"@);
    }
    let mut text = String::new();
    push_grid(&mut text, title.as_str(), coords, topology, k, cell_type);
    if degree == 0 {
        text.append("POINT_DATA ");
        push_decimal(&mut text, coords.nvertices());
    } else {
        text.append("CELL_DATA ");
        push_decimal(&mut text, topology.nsimplices(degree));
    }
    text.append("\n");
    push_cochain_blocks(&mut text, fields);
    proof {
        assert(text@ =~= cochains_vtk(*coords, *topology, degree as nat, fields@));
    }
    Ok(text)
}

/// What keeps a cochain from being written on the simplices of its degree.
pub open spec fn cochain_fault<T: Scalar>(
    coords: MeshCoords<T>,
    topology: Complex,
    cochain: &Cochain<T>,
    data_name: &str,
) -> Option<Seq<char>> {
    if cochain.dim == 0 {
        if coords.dim > 3 {
            Some("VTK export supports up to 3D coordinates"@)
        } else {
            cochain_field_fault((data_name, cochain), 0, data_len(coords, topology, 0))
        }
    } else {
        cochains_fault(coords, topology, cochain.dim as nat, seq![(data_name, cochain)])
    }
}

/// The file of a cochain on the simplices of its degree: vertices for degree zero, each a cell
/// of its own.
pub open spec fn cochain_vtk<T: Scalar>(
    coords: MeshCoords<T>,
    topology: Complex,
    cochain: &Cochain<T>,
    data_name: &str,
) -> Seq<char> {
    if cochain.dim == 0 {
        grid(
            "0-cochain fields"@,
            coords,
            topology.simplices(0),
            0,
            cell_type_of(0)->0 as nat,
        ) + "POINT_DATA "@ + decimal(data_len(coords, topology, 0)) + "\n"@ + flat(
            cochain_blocks(seq![(data_name, cochain)]),
        )
    } else {
        cochains_vtk(coords, topology, cochain.dim as nat, seq![(data_name, cochain)])
    }
}

fn write_vertex_cochain<T: Scalar>(
    coords: &MeshCoords<T>,
    topology: &Complex,
    cochain: &Cochain<T>,
    data_name: &str,
) -> (file: Result<String, ExportError>)
    requires
        coords.wf(),
        topology.wf(),
        cochain.dim == 0,
    ensures
        match cochain_fault(*coords, *topology, cochain, data_name) {
            Some(message) => file matches Err(e) && invalid(e, message),
            None => file matches Ok(text) && text@ == cochain_vtk(
                *coords,
                *topology,
                cochain,
                data_name,
            ),
        },
{
    proof {
        topology.has_dimension();
    }
    if coords.dim() > 3 {
        return Err(ExportError::InvalidInput(owned("VTK export supports up to 3D coordinates")));
    }
    let fields = [(data_name, cochain)];
    proof {
        assert(fields@ =~= seq![(data_name, cochain)]);
    }
    match check_cochain_field((data_name, cochain), 0, coords.nvertices()) {
        Some(text) => return Err(ExportError::InvalidInput(text)),
        None => {},
    }
    let cell_type: u32 = match vtk_cell_type(0) {
        Some(cell_type) => cell_type,
        None => 0,
    };
    let mut text = String::new();
    push_grid(&mut text, "0-cochain fields", coords, topology, 0, cell_type);
    text.append("POINT_DATA ");
    push_decimal(&mut text, coords.nvertices());
    text.append("\n");
    push_cochain_blocks(&mut text, fields.as_slice());
    proof {
        assert(text@ =~= cochain_vtk(*coords, *topology, cochain, data_name));
    }
    Ok(text)
}

/// The file of one cochain on the simplices of its degree: vertices as cells of one vertex,
/// edges as lines, triangles, tetrahedra. Coordinates of fewer than three dimensions are padded
/// with zeros.
pub fn write_cochain_vtk<T: Scalar>(
    coords: &MeshCoords<T>,
    topology: &Complex,
    cochain: &Cochain<T>,
    data_name: &str,
) -> (file: Result<String, ExportError>)
    requires
        coords.wf(),
        topology.wf(),
    ensures
        match cochain_fault(*coords, *topology, cochain, data_name) {
            Some(message) => file matches Err(e) && invalid(e, message),
            None => file matches Ok(text) && text@ == cochain_vtk(
                *coords,
                *topology,
                cochain,
                data_name,
            ),
        },
{
    if cochain.dim() == 0 {
        return write_vertex_cochain(coords, topology, cochain, data_name);
    }
    let fields = [(data_name, cochain)];
    proof {
        assert(fields@ =~= seq![(data_name, cochain)]);
    }
    write_cochain_vtk_fields(coords, topology, cochain.dim(), fields.as_slice())
}

/// A field that does not have one value for each top-dimensional cell.
pub open spec fn length_fault(kind: Seq<char>, len: nat, ncells: nat, name: Seq<char>) -> Option<
    Seq<char>,
> {
    if len != ncells {
        Some(
            kind + " field length "@ + decimal(len) + " does not match top-cell count "@ + decimal(
                ncells,
            ) + " for "@ + name,
        )
    } else {
        None
    }
}

fn check_length(kind: &str, len: usize, ncells: usize, name: &str) -> (fault: Option<String>)
    ensures
        match length_fault(kind@, len as nat, ncells as nat, name@) {
            Some(message) => fault matches Some(text) && text@ == message,
            None => fault is None,
        },
{
    if len != ncells {
        let mut text = owned(kind);
        text.append(" field length ");
        push_decimal(&mut text, len);
        text.append(" does not match top-cell count ");
        push_decimal(&mut text, ncells);
        text.append(" for ");
        text.append(name);
        return Some(text);
    }
    None
}

/// What is wrong with vector fields on the cells, field by field.
pub open spec fn vector_faults<T: Scalar>(fields: Seq<(&str, &[[T; 3]])>, ncells: nat) -> Seq<
    Option<Seq<char>>,
> {
    Seq::new(
        fields.len(),
        |i: int| length_fault("Vector"@, fields[i].1@.len(), ncells, fields[i].0@),
    )
}

/// What is wrong with scalar fields on the cells, field by field.
pub open spec fn scalar_faults<T: Scalar>(fields: Seq<(&str, &[T])>, ncells: nat) -> Seq<
    Option<Seq<char>>,
> {
    Seq::new(
        fields.len(),
        |i: int| length_fault("Scalar"@, fields[i].1@.len(), ncells, fields[i].0@),
    )
}

fn check_vector_fields<T: Scalar>(fields: &[(&str, &[[T; 3]])], ncells: usize) -> (fault: Option<
    String,
>)
    ensures
        match first_fault(vector_faults(fields@, ncells as nat)) {
            Some(message) => fault matches Some(text) && text@ == message,
            None => fault is None,
        },
{
    let ghost faults = vector_faults(fields@, ncells as nat);
    let mut i: usize = 0;
    proof {
        first_fault_ends(faults);
    }
    while i < fields.len()
        invariant
            i <= fields@.len(),
            faults == vector_faults(fields@, ncells as nat),
            first_fault(faults.take(i as int)) is None,
        decreases fields@.len() - i,
    {
        proof {
            first_fault_step(faults, i as int);
        }
        match check_length("Vector", fields[i].1.len(), ncells, fields[i].0) {
            Some(text) => {
                return Some(text);
            },
            None => {},
        }
        i = i + 1;
    }
    proof {
        first_fault_ends(faults);
    }
    None
}

fn check_scalar_fields<T: Scalar>(fields: &[(&str, &[T])], ncells: usize) -> (fault: Option<String>)
    ensures
        match first_fault(scalar_faults(fields@, ncells as nat)) {
            Some(message) => fault matches Some(text) && text@ == message,
            None => fault is None,
        },
{
    let ghost faults = scalar_faults(fields@, ncells as nat);
    let mut i: usize = 0;
    proof {
        first_fault_ends(faults);
    }
    while i < fields.len()
        invariant
            i <= fields@.len(),
            faults == scalar_faults(fields@, ncells as nat),
            first_fault(faults.take(i as int)) is None,
        decreases fields@.len() - i,
    {
        proof {
            first_fault_step(faults, i as int);
        }
        match check_length("Scalar", fields[i].1.len(), ncells, fields[i].0) {
            Some(text) => {
                return Some(text);
            },
            None => {},
        }
        i = i + 1;
    }
    proof {
        first_fault_ends(faults);
    }
    None
}

/// What keeps fields on the top-dimensional cells from being written.
pub open spec fn top_cell_fault<T: Scalar>(
    coords: MeshCoords<T>,
    topology: Complex,
    vector_fields: Seq<(&str, &[[T; 3]])>,
    scalar_fields: Seq<(&str, &[T])>,
) -> Option<Seq<char>> {
    let topo_dim = topology.dimension();
    let ncells = topology.simplices(topo_dim).len();
    if vector_fields.len() == 0 && scalar_fields.len() == 0 {
        Some("at least one top-cell vector or scalar field is required"@)
    } else if coords.dim > 3 {
        Some("VTK export supports up to 3D coordinates"@)
    } else if cell_type_of(topo_dim as nat) is None {
        Some("Unsupported cell dimension "@ + decimal(topo_dim as nat))
    } else if first_fault(vector_faults(vector_fields, ncells)) is Some {
        first_fault(vector_faults(vector_fields, ncells))
    } else {
        first_fault(scalar_faults(scalar_fields, ncells))
    }
}

/// The dimension and the type of the top-dimensional cells, if the fields fit the mesh and the
/// format.
pub fn check_top_cell_fields<T: Scalar>(
    coords: &MeshCoords<T>,
    topology: &Complex,
    vector_fields: &[(&str, &[[T; 3]])],
    scalar_fields: &[(&str, &[T])],
) -> (checked: Result<(usize, u32), ExportError>)
    requires
        topology.wf(),
    ensures
        match top_cell_fault(*coords, *topology, vector_fields@, scalar_fields@) {
            Some(message) => checked matches Err(e) && other(e, message),
            None => checked matches Ok(cells) && cells.0 == topology.dimension() && cells.0 <= 3
                && cell_type_of(cells.0 as nat) == Some(cells.1),
        },
{
    proof {
        topology.has_dimension();
    }
    if vector_fields.len() == 0 && scalar_fields.len() == 0 {
        return Err(
            ExportError::Other(owned("at least one top-cell vector or scalar field is required")),
        );
    }
    if coords.dim() > 3 {
        return Err(ExportError::Other(owned("VTK export supports up to 3D coordinates")));
    }
    let topo_dim: usize = topology.dim();
    let cell_type: u32 = match vtk_cell_type(topo_dim) {
        Some(cell_type) => cell_type,
        None => {
            let mut text = owned("Unsupported cell dimension ");
            push_decimal(&mut text, topo_dim);
            return Err(ExportError::Other(text));
        },
    };
    let ncells: usize = topology.nsimplices(topo_dim);
    match check_vector_fields(vector_fields, ncells) {
        Some(text) => {
            return Err(ExportError::Other(text));
        },
        None => {},
    }
    match check_scalar_fields(scalar_fields, ncells) {
        Some(text) => {
            return Err(ExportError::Other(text));
        },
        None => {},
    }
    Ok((topo_dim, cell_type))
}

/// Vector fields behind one another.
pub open spec fn vector_blocks<T: Scalar>(fields: Seq<(&str, &[[T; 3]])>) -> Seq<Seq<char>> {
    Seq::new(fields.len(), |i: int| vector_block(fields[i].0@, fields[i].1@))
}

/// Scalar fields behind one another.
pub open spec fn scalar_blocks<T: Scalar>(fields: Seq<(&str, &[T])>) -> Seq<Seq<char>> {
    Seq::new(fields.len(), |i: int| scalar_block(fields[i].0@, fields[i].1@))
}

fn push_vector_blocks<T: Scalar>(text: &mut String, fields: &[(&str, &[[T; 3]])])
    ensures
        final(text)@ == old(text)@ + flat(vector_blocks(fields@)),
{
    let ghost before = text@;
    let ghost blocks = vector_blocks(fields@);
    let mut i: usize = 0;
    proof {
        flat_ends(blocks);
    }
    while i < fields.len()
        invariant
            i <= fields@.len(),
            blocks == vector_blocks(fields@),
            text@ =~= before + flat(blocks.take(i as int)),
        decreases fields@.len() - i,
    {
        push_vector_block(text, fields[i].0, fields[i].1);
        proof {
            flat_step(blocks, i as int);
        }
        i = i + 1;
    }
    proof {
        flat_ends(blocks);
    }
}

/// Appends scalar fields behind one another.
pub fn push_scalar_blocks<T: Scalar>(text: &mut String, fields: &[(&str, &[T])])
    ensures
        final(text)@ == old(text)@ + flat(scalar_blocks(fields@)),
{
    let ghost before = text@;
    let ghost blocks = scalar_blocks(fields@);
    let mut i: usize = 0;
    proof {
        flat_ends(blocks);
    }
    while i < fields.len()
        invariant
            i <= fields@.len(),
            blocks == scalar_blocks(fields@),
            text@ =~= before + flat(blocks.take(i as int)),
        decreases fields@.len() - i,
    {
        push_scalar_block(text, fields[i].0, fields[i].1);
        proof {
            flat_step(blocks, i as int);
        }
        i = i + 1;
    }
    proof {
        flat_ends(blocks);
    }
}

/// The file of fields on the top-dimensional cells.
pub open spec fn top_cell_vtk<T: Scalar>(
    title: Seq<char>,
    coords: MeshCoords<T>,
    topology: Complex,
    vector_fields: Seq<(&str, &[[T; 3]])>,
    scalar_fields: Seq<(&str, &[T])>,
) -> Seq<char> {
    let k = topology.dimension();
    grid(title, coords, topology.simplices(k), k as nat, cell_type_of(k as nat)->0 as nat)
        + "CELL_DATA "@ + decimal(topology.simplices(k).len()) + "\n"@ + flat(
        vector_blocks(vector_fields),
    ) + flat(scalar_blocks(scalar_fields))
}

fn top_cell_file<T: Scalar>(
    title: &str,
    coords: &MeshCoords<T>,
    topology: &Complex,
    cell_type: u32,
    vector_fields: &[(&str, &[[T; 3]])],
    scalar_fields: &[(&str, &[T])],
) -> (text: String)
    requires
        coords.wf(),
        topology.wf(),
        topology.dimension() <= 3,
        cell_type_of(topology.dimension() as nat) == Some(cell_type),
    ensures
        text@ == top_cell_vtk(title@, *coords, *topology, vector_fields@, scalar_fields@),
{
    proof {
        topology.has_dimension();
    }
    let k: usize = topology.dim();
    let mut text = String::new();
    push_grid(&mut text, title, coords, topology, k, cell_type);
    text.append("CELL_DATA ");
    push_decimal(&mut text, topology.nsimplices(k));
    text.append("\n");
    push_vector_blocks(&mut text, vector_fields);
    push_scalar_blocks(&mut text, scalar_fields);
    proof {
        assert(text@ =~= top_cell_vtk(
            title@,
            *coords,
            *topology,
            vector_fields@,
            scalar_fields@,
        ));
    }
    text
}

/// The file of vector and scalar fields on the top-dimensional cells.
pub fn write_top_cell_vtk_fields<T: Scalar>(
    coords: &MeshCoords<T>,
    topology: &Complex,
    vector_fields: &[(&str, &[[T; 3]])],
    scalar_fields: &[(&str, &[T])],
) -> (file: Result<String, ExportError>)
    requires
        coords.wf(),
        topology.wf(),
    ensures
        match top_cell_fault(*coords, *topology, vector_fields@, scalar_fields@) {
            Some(message) => file matches Err(e) && other(e, message),
            None => file matches Ok(text) && text@ == top_cell_vtk(
                "top-cell fields"@,
                *coords,
                *topology,
                vector_fields@,
                scalar_fields@,
            ),
        },
{
    match check_top_cell_fields(coords, topology, vector_fields, scalar_fields) {
        Ok((_, cell_type)) => Ok(
            top_cell_file(
                "top-cell fields",
                coords,
                topology,
                cell_type,
                vector_fields,
                scalar_fields,
            ),
        ),
        Err(e) => Err(e),
    }
}

/// One vector field.
pub open spec fn vector_field_vtk<T: Scalar>(
    title: Seq<char>,
    coords: MeshCoords<T>,
    topology: Complex,
    data_name: Seq<char>,
    vectors: Seq<[T; 3]>,
) -> Seq<char> {
    let k = topology.dimension();
    grid(title, coords, topology.simplices(k), k as nat, cell_type_of(k as nat)->0 as nat)
        + "CELL_DATA "@ + decimal(topology.simplices(k).len()) + "\n"@ + vector_block(
        data_name,
        vectors,
    )
}

fn vector_field_file<T: Scalar>(
    title: &str,
    coords: &MeshCoords<T>,
    topology: &Complex,
    cell_type: u32,
    data_name: &str,
    vectors: &[[T; 3]],
) -> (text: String)
    requires
        coords.wf(),
        topology.wf(),
        topology.dimension() <= 3,
        cell_type_of(topology.dimension() as nat) == Some(cell_type),
    ensures
        text@ == vector_field_vtk(title@, *coords, *topology, data_name@, vectors@),
{
    proof {
        topology.has_dimension();
    }
    let k: usize = topology.dim();
    let mut text = String::new();
    push_grid(&mut text, title, coords, topology, k, cell_type);
    text.append("CELL_DATA ");
    push_decimal(&mut text, topology.nsimplices(k));
    text.append("\n");
    push_vector_block(&mut text, data_name, vectors);
    proof {
        assert(text@ =~= grid(
            title@,
            *coords,
            topology.simplices(k as int),
            k as nat,
            cell_type as nat,
        ) + "CELL_DATA "@ + decimal(topology.simplices(k as int).len()) + "\n"@ + vector_block(
            data_name@,
            vectors@,
        ));
    }
    text
}

/// The file of a one-form as vectors on the cells: its values at their barycenters. The maps
/// take the forms of the reference simplex to the space around the mesh.
pub fn write_1form_vector_field_vtk<T: Scalar>(
    coords: &MeshCoords<T>,
    topology: &Complex,
    cochain: &Cochain<T>,
    lifts: &[DenseMatrix<T>],
    data_name: &str,
) -> (file: Result<String, ExportError>)
    requires
        coords.wf(),
        topology.wf(),
        cochain.dim == 1 && coords.dim <= 3 ==> topology.dimension() >= 1,
        one_form_fault(*coords, *topology, *cochain) is None ==> lifts_fit(
            lifts@,
            *topology,
            coords.dim as nat,
            1,
        ),
    ensures
        match one_form_fault(*coords, *topology, *cochain) {
            Some(message) => file matches Err(e) && other(e, message),
            None => file matches Ok(text) && exists|vectors: Seq<[T; 3]>|
                are_cell_vectors(vectors, *cochain, *topology, lifts@) && text@ == #[trigger] vector_field_vtk(
                    "top-cell fields"@,
                    *coords,
                    *topology,
                    data_name@,
                    vectors,
                ),
        },
{
    let vectors = match sample_1form_cell_vectors(coords, topology, cochain, lifts) {
        Ok(vectors) => vectors,
        Err(e) => {
            return Err(e);
        },
    };
    let topo_dim: usize = topology.dim();
    match vtk_cell_type(topo_dim) {
        Some(cell_type) => {
            let text = vector_field_file(
                "top-cell fields",
                coords,
                topology,
                cell_type,
                data_name,
                vectors.as_slice(),
            );
            Ok(text)
        },
        None => {
            let mut text = owned("Unsupported cell dimension ");
            push_decimal(&mut text, topo_dim);
            Err(ExportError::Other(text))
        },
    }
}

/// The file of a two-form as the vectors that stand for it at the barycenters of the cells. The
/// maps take the forms of the reference simplex to the space around the mesh.
pub fn write_2form_vector_field_vtk<T: Scalar>(
    coords: &MeshCoords<T>,
    topology: &Complex,
    cochain: &Cochain<T>,
    lifts: &[DenseMatrix<T>],
    data_name: &str,
) -> (file: Result<String, ExportError>)
    requires
        coords.wf(),
        topology.wf(),
        cochain.dim == 2 && coords.dim == 3 && topology.dimension() == 3 ==> lifts_fit(
            lifts@,
            *topology,
            3,
            2,
        ),
    ensures
        match two_form_fault(
            *coords,
            *topology,
            *cochain,
            "write_2form_vector_field_vtk supports 3D meshes only"@,
        ) {
            Some(message) => file matches Err(e) && other(e, message),
            None => file matches Ok(text) && exists|vectors: Seq<[T; 3]>|
                are_cell_pseudovectors(vectors, *cochain, *topology, lifts@) && text@ == #[trigger] vector_field_vtk(
                    data_name@,
                    *coords,
                    *topology,
                    data_name@,
                    vectors,
                ),
        },
{
    match check_2form(
        coords,
        topology,
        cochain,
        "write_2form_vector_field_vtk supports 3D meshes only",
    ) {
        Ok(()) => {
            let vectors = pseudovectors(topology, cochain, lifts);
            let text = vector_field_file(
                data_name,
                coords,
                topology,
                10,
                data_name,
                vectors.as_slice(),
            );
            Ok(text)
        },
        Err(e) => Err(e),
    }
}

/// What is wrong with a cochain as a scalar field on the edges.
pub open spec fn edge_field_fault<T: Scalar>(field: (&str, &Cochain<T>), nedges: nat) -> Option<
    Seq<char>,
> {
    if field.1.dim != 1 {
        Some("Expected a 1-cochain for field "@ + field.0@)
    } else if field.1.coeffs@.len() != nedges {
        Some(
            "Cochain length "@ + decimal(field.1.coeffs@.len())
                + " does not match edge skeleton size "@ + decimal(nedges) + " for field "@
                + field.0@,
        )
    } else {
        None
    }
}

/// What is wrong with cochains as scalar fields on the edges, field by field.
pub open spec fn edge_field_faults<T: Scalar>(fields: Seq<(&str, &Cochain<T>)>, nedges: nat) -> Seq<
    Option<Seq<char>>,
> {
    Seq::new(fields.len(), |i: int| edge_field_fault(fields[i], nedges))
}

/// What keeps a one-form from being written along the edges.
pub open spec fn proxy_fault<T: Scalar>(
    coords: MeshCoords<T>,
    topology: Complex,
    vector_name: Seq<char>,
    vector_cochain: Cochain<T>,
    scalar_fields: Seq<(&str, &Cochain<T>)>,
) -> Option<Seq<char>> {
    let nedges = topology.simplices(1).len();
    if vector_cochain.dim != 1 {
        Some(
            "Expected a 1-cochain for vectors ("@ + vector_name + "), got dim "@ + decimal(
                vector_cochain.dim as nat,
            ),
        )
    } else if coords.dim > 3 {
        Some("VTK export supports up to 3D coordinates"@)
    } else if vector_cochain.coeffs@.len() != nedges {
        Some(
            "Cochain length "@ + decimal(vector_cochain.coeffs@.len())
                + " does not match edge skeleton size "@ + decimal(nedges) + " for vectors ("@
                + vector_name + ")"@,
        )
    } else {
        first_fault(edge_field_faults(scalar_fields, nedges))
    }
}

fn check_edge_field<T: Scalar>(field: (&str, &Cochain<T>), nedges: usize) -> (fault: Option<String>)
    ensures
        match edge_field_fault(field, nedges as nat) {
            Some(message) => fault matches Some(text) && text@ == message,
            None => fault is None,
        },
{
    if field.1.dim() != 1 {
        let mut text = owned("Expected a 1-cochain for field ");
        text.append(field.0);
        return Some(text);
    }
    if field.1.len() != nedges {
        let mut text = owned("Cochain length ");
        push_decimal(&mut text, field.1.len());
        text.append(" does not match edge skeleton size ");
        push_decimal(&mut text, nedges);
        text.append(" for field ");
        text.append(field.0);
        return Some(text);
    }
    None
}

/// Fails unless a one-form and scalar fields can be written along the edges.
pub fn check_proxy_fields<T: Scalar>(
    coords: &MeshCoords<T>,
    topology: &Complex,
    vector_name: &str,
    vector_cochain: &Cochain<T>,
    scalar_fields: &[(&str, &Cochain<T>)],
) -> (checked: Result<(), ExportError>)
    requires
        topology.wf(),
        vector_cochain.dim == 1 && coords.dim <= 3 ==> topology.dimension() >= 1,
    ensures
        match proxy_fault(*coords, *topology, vector_name@, *vector_cochain, scalar_fields@) {
            Some(message) => checked matches Err(e) && invalid(e, message),
            None => checked is Ok,
        },
{
    if vector_cochain.dim() != 1 {
        let mut text = owned("Expected a 1-cochain for vectors (");
        text.append(vector_name);
        text.append("), got dim ");
        push_decimal(&mut text, vector_cochain.dim());
        return Err(ExportError::InvalidInput(text));
    }
    if coords.dim() > 3 {
        return Err(ExportError::InvalidInput(owned("VTK export supports up to 3D coordinates")));
    }
    let nedges: usize = topology.nsimplices(1);
    if vector_cochain.len() != nedges {
        let mut text = owned("Cochain length ");
        push_decimal(&mut text, vector_cochain.len());
        text.append(" does not match edge skeleton size ");
        push_decimal(&mut text, nedges);
        text.append(" for vectors (");
        text.append(vector_name);
        text.append(")");
        return Err(ExportError::InvalidInput(text));
    }
    let ghost faults = edge_field_faults(scalar_fields@, nedges as nat);
    let mut i: usize = 0;
    proof {
        first_fault_ends(faults);
    }
    while i < scalar_fields.len()
        invariant
            i <= scalar_fields@.len(),
            vector_cochain.dim == 1,
            coords.dim <= 3,
            vector_cochain.coeffs@.len() == nedges,
            nedges == topology.simplices(1).len(),
            faults == edge_field_faults(scalar_fields@, nedges as nat),
            first_fault(faults.take(i as int)) is None,
        decreases scalar_fields@.len() - i,
    {
        proof {
            first_fault_step(faults, i as int);
        }
        match check_edge_field(scalar_fields[i], nedges) {
            Some(text) => {
                return Err(ExportError::InvalidInput(text));
            },
            None => {},
        }
        i = i + 1;
    }
    proof {
        first_fault_ends(faults);
    }
    Ok(())
}

/// The file of vectors and scalar fields along the edges.
pub open spec fn proxy_vtk<T: Scalar>(
    coords: MeshCoords<T>,
    topology: Complex,
    vector_name: Seq<char>,
    vectors: Seq<[T; 3]>,
    scalar_fields: Seq<(&str, &Cochain<T>)>,
) -> Seq<char> {
    grid("1-form vector proxy fields"@, coords, topology.simplices(1), 1, 3) + "CELL_DATA "@
        + decimal(topology.simplices(1).len()) + "\n"@ + vector_block(vector_name, vectors) + flat(
        cochain_blocks(scalar_fields),
    )
}

/// The file of a one-form as vectors along the edges, with scalar fields on the edges. The
/// vector of an edge is its direction, scaled by the value on the edge over its length.
pub fn write_1form_vector_proxy_vtk_fields<T: Scalar>(
    coords: &MeshCoords<T>,
    topology: &Complex,
    vector_name: &str,
    vector_cochain: &Cochain<T>,
    scalar_fields: &[(&str, &Cochain<T>)],
) -> (file: Result<String, ExportError>)
    requires
        coords.wf(),
        topology.wf(),
        vector_cochain.dim == 1 && coords.dim <= 3 ==> topology.dimension() >= 1,
        topology.simplices(0).len() <= coords.coords@.len(),
    ensures
        match proxy_fault(*coords, *topology, vector_name@, *vector_cochain, scalar_fields@) {
            Some(message) => file matches Err(e) && invalid(e, message),
            None => file matches Ok(text) && exists|vectors: Seq<[T; 3]>|
                are_edge_proxies(vectors, *coords, topology.simplices(1), vector_cochain.coeffs@)
                    && text@ == #[trigger] proxy_vtk(
                    *coords,
                    *topology,
                    vector_name@,
                    vectors,
                    scalar_fields@,
                ),
        },
{
    match check_proxy_fields(coords, topology, vector_name, vector_cochain, scalar_fields) {
        Ok(()) => {},
        Err(e) => {
            return Err(e);
        },
    }
    let vectors = edge_proxies(coords, topology, vector_cochain.coeffs.as_slice());
    let mut text = String::new();
    push_grid(&mut text, "1-form vector proxy fields", coords, topology, 1, 3);
    text.append("CELL_DATA ");
    push_decimal(&mut text, topology.nsimplices(1));
    text.append("\n");
    push_vector_block(&mut text, vector_name, vectors.as_slice());
    push_cochain_blocks(&mut text, scalar_fields);
    proof {
        assert(text@ =~= proxy_vtk(
            *coords,
            *topology,
            vector_name@,
            vectors@,
            scalar_fields@,
        ));
    }
    Ok(text)
}

/// The file of a one-form as vectors along the edges.
pub fn write_1form_vector_proxy_vtk<T: Scalar>(
    coords: &MeshCoords<T>,
    topology: &Complex,
    cochain: &Cochain<T>,
    data_name: &str,
) -> (file: Result<String, ExportError>)
    requires
        coords.wf(),
        topology.wf(),
        cochain.dim == 1 && coords.dim <= 3 ==> topology.dimension() >= 1,
        topology.simplices(0).len() <= coords.coords@.len(),
    ensures
        match proxy_fault(*coords, *topology, data_name@, *cochain, Seq::empty()) {
            Some(message) => file matches Err(e) && invalid(e, message),
            None => file matches Ok(text) && exists|vectors: Seq<[T; 3]>|
                are_edge_proxies(vectors, *coords, topology.simplices(1), cochain.coeffs@)
                    && text@ == #[trigger] proxy_vtk(
                    *coords,
                    *topology,
                    data_name@,
                    vectors,
                    Seq::empty(),
                ),
        },
{
    let none: [(&str, &Cochain<T>); 0] = [];
    proof {
        assert(none@ =~= Seq::<(&str, &Cochain<T>)>::empty());
    }
    write_1form_vector_proxy_vtk_fields(coords, topology, data_name, cochain, none.as_slice())
}

} // verus!
