//! Fields in the XML format of unstructured grids.

use crate::io::fields::{cell_type_of, invalid, other, triple};
use crate::io::fields::{push_triple, vtk_cell_type, Cochain, ExportError, MeshCoords};
use crate::io::sampling::{
    are_cell_pseudovectors, are_cell_vectors, are_edge_proxies, one_form_fault, two_form_fault,
};
use crate::io::sampling::{check_2form, edge_proxies, pseudovectors, sample_1form_cell_vectors};
use crate::io::vtk::{cochains_fault, drawn_dimension, proxy_fault, repeated, top_cell_fault};
use crate::io::vtk::{
    check_cochain_fields, check_proxy_fields, check_top_cell_fields, push_repeated,
};
use crate::linalg::dense::DenseMatrix;
use crate::linalg::scalar::Scalar;
use crate::text::{decimal, flat, flat_ends, flat_step};
use crate::text::{owned, push_decimal, push_large};
use crate::topology::complex::Complex;
use crate::whitney::lifts_fit;
use vstd::prelude::*;
use vstd::string::*;

verus! {

/// A character in the text of an attribute.
pub open spec fn escaped_char(c: char) -> Seq<char> {
    if c == '&' {
        "&amp;"@
    } else if c == '<' {
        "&lt;"@
    } else if c == '>' {
        "&gt;"@
    } else if c == '"' {
        "&quot;"@
    } else if c == '\'' {
        "&apos;"@
    } else {
        seq![c]
    }
}

/// The characters of a text in an attribute.
pub open spec fn escaped_chars(value: Seq<char>) -> Seq<Seq<char>> {
    Seq::new(value.len(), |i: int| escaped_char(value[i]))
}

/// The text of an attribute.
pub open spec fn escaped(value: Seq<char>) -> Seq<char> {
    flat(escaped_chars(value))
}

/// The text of an attribute.
pub fn xml_escape(value: &str) -> (text: String)
    ensures
        text@ == escaped(value@),
{
    let mut text = String::new();
    let ghost parts = escaped_chars(value@);
    let len: usize = value.unicode_len();
    let mut i: usize = 0;
    proof {
        flat_ends(parts);
        assert(text@ =~= flat(parts.take(0)));
    }
    while i < len
        invariant
            i <= len,
            len == value@.len(),
            parts == escaped_chars(value@),
            text@ == flat(parts.take(i as int)),
        decreases len - i,
    {
        let ghost here = text@;
        let c = value.get_char(i);
        if c == '&' {
            text.append("&amp;");
        } else if c == '<' {
            text.append("&lt;");
        } else if c == '>' {
            text.append("&gt;");
        } else if c == '"' {
            text.append("&quot;");
        } else if c == '\'' {
            text.append("&apos;");
        } else {
            text.push(c);
        }
        proof {
            flat_step(parts, i as int);
            assert(text@ =~= here + parts[i as int]);
        }
        i = i + 1;
    }
    proof {
        flat_ends(parts);
    }
    text
}

/// The head of a file.
pub open spec fn vtu_open(npoints: nat, ncells: nat) -> Seq<char> {
    "<?xml version=\"1.0\"?>\n<VTKFile type=\"UnstructuredGrid\" version=\"0.1\" byte_order=\"LittleEndian\">\n  <UnstructuredGrid>\n    <Piece NumberOfPoints=\""@
        + decimal(npoints) + "\" NumberOfCells=\""@ + decimal(ncells) + "\">\n"@
}

/// Appends the head of a file.
pub fn push_vtu_open(text: &mut String, npoints: u128, ncells: usize)
    ensures
        final(text)@ == old(text)@ + vtu_open(npoints as nat, ncells as nat),
{
    let ghost before = text@;
    text.append(
        "<?xml version=\"1.0\"?>\n<VTKFile type=\"UnstructuredGrid\" version=\"0.1\" byte_order=\"LittleEndian\">\n  <UnstructuredGrid>\n    <Piece NumberOfPoints=\"",
    );
    push_large(text, npoints);
    text.append("\" NumberOfCells=\"");
    push_decimal(text, ncells);
    text.append("\">\n");
    proof {
        assert(text@ =~= before + vtu_open(npoints as nat, ncells as nat));
    }
}

/// The end of a file.
pub open spec fn vtu_close() -> Seq<char> {
    "    </Piece>\n  </UnstructuredGrid>\n</VTKFile>\n"@
}

/// The end of a data array.
pub open spec fn array_end() -> Seq<char> {
    "        </DataArray>\n"@
}

/// A value, behind it a blank.
pub open spec fn value_words<T: Scalar>(values: Seq<T>) -> Seq<Seq<char>> {
    Seq::new(values.len(), |i: int| values[i].scientific_spec(12).push(' '))
}

/// A scalar field as a data array.
pub open spec fn scalar_array<T: Scalar>(name: Seq<char>, values: Seq<T>) -> Seq<char> {
    "        <DataArray type=\"Float64\" Name=\""@ + escaped(name)
        + "\" NumberOfComponents=\"1\" format=\"ascii\">\n          "@ + flat(value_words(values))
        + "\n"@ + array_end()
}

fn push_scalar_array<T: Scalar>(text: &mut String, name: &str, values: &[T])
    ensures
        final(text)@ == old(text)@ + scalar_array(name@, values@),
{
    let ghost before = text@;
    let escaped_name = xml_escape(name);
    text.append("        <DataArray type=\"Float64\" Name=\"");
    text.append(escaped_name.as_str());
    text.append("\" NumberOfComponents=\"1\" format=\"ascii\">\n          ");
    let ghost head = text@;
    let ghost words = value_words(values@);
    let mut i: usize = 0;
    proof {
        flat_ends(words);
    }
    while i < values.len()
        invariant
            i <= values@.len(),
            words == value_words(values@),
            text@ =~= head + flat(words.take(i as int)),
        decreases values@.len() - i,
    {
        let ghost here = text@;
        let value = values[i].scientific(12);
        text.append(value.as_str());
        text.push(' ');
        proof {
            flat_step(words, i as int);
            assert(text@ =~= here + words[i as int]);
        }
        i = i + 1;
    }
    proof {
        flat_ends(words);
    }
    text.append("\n");
    text.append("        </DataArray>\n");
    proof {
        assert(text@ =~= before + scalar_array(name@, values@));
    }
}

/// Indentation of the lines of a data array.
pub open spec fn indent() -> Seq<char> {
    "          "@
}

/// A vector as a line of a data array.
pub open spec fn array_vector_lines<T: Scalar>(vectors: Seq<[T; 3]>) -> Seq<Seq<char>> {
    Seq::new(
        vectors.len(),
        |i: int|
            indent() + triple(
                vectors[i]@[0].scientific_spec(12),
                vectors[i]@[1].scientific_spec(12),
                vectors[i]@[2].scientific_spec(12),
            ),
    )
}

/// A vector field as a data array.
pub open spec fn vector_array<T: Scalar>(name: Seq<char>, vectors: Seq<[T; 3]>) -> Seq<char> {
    "        <DataArray type=\"Float64\" Name=\""@ + escaped(name)
        + "\" NumberOfComponents=\"3\" format=\"ascii\">\n"@ + flat(array_vector_lines(vectors))
        + array_end()
}

fn push_vector_array<T: Scalar>(text: &mut String, name: &str, vectors: &[[T; 3]])
    ensures
        final(text)@ == old(text)@ + vector_array(name@, vectors@),
{
    let ghost before = text@;
    let escaped_name = xml_escape(name);
    text.append("        <DataArray type=\"Float64\" Name=\"");
    text.append(escaped_name.as_str());
    text.append("\" NumberOfComponents=\"3\" format=\"ascii\">\n");
    let ghost head = text@;
    let ghost lines = array_vector_lines(vectors@);
    let mut i: usize = 0;
    proof {
        flat_ends(lines);
    }
    while i < vectors.len()
        invariant
            i <= vectors@.len(),
            lines == array_vector_lines(vectors@),
            text@ =~= head + flat(lines.take(i as int)),
        decreases vectors@.len() - i,
    {
        let ghost here = text@;
        let v = &vectors[i];
        let x = v[0].scientific(12);
        let y = v[1].scientific(12);
        let z = v[2].scientific(12);
        text.append("          ");
        push_triple(text, x.as_str(), y.as_str(), z.as_str());
        proof {
            flat_step(lines, i as int);
            assert(text@ =~= here + lines[i as int]);
        }
        i = i + 1;
    }
    proof {
        flat_ends(lines);
    }
    text.append("        </DataArray>\n");
    proof {
        assert(text@ =~= before + vector_array(name@, vectors@));
    }
}

/// Names and values of fields.
pub open spec fn field_views<V>(fields: Seq<(&str, &[V])>) -> Seq<(Seq<char>, Seq<V>)> {
    Seq::new(fields.len(), |i: int| (fields[i].0@, fields[i].1@))
}

/// Names and coefficients of cochains.
pub open spec fn cochain_views<T: Scalar>(fields: Seq<(&str, &Cochain<T>)>) -> Seq<
    (Seq<char>, Seq<T>),
> {
    Seq::new(fields.len(), |i: int| (fields[i].0@, fields[i].1.coeffs@))
}

/// Scalar fields as data arrays.
pub open spec fn scalar_arrays<T: Scalar>(fields: Seq<(Seq<char>, Seq<T>)>) -> Seq<Seq<char>> {
    Seq::new(fields.len(), |i: int| scalar_array(fields[i].0, fields[i].1))
}

/// Vector fields as data arrays.
pub open spec fn vector_arrays<T: Scalar>(fields: Seq<(Seq<char>, Seq<[T; 3]>)>) -> Seq<
    Seq<char>,
> {
    Seq::new(fields.len(), |i: int| vector_array(fields[i].0, fields[i].1))
}

/// The data on points or on cells. The first fields are named in the opening tag.
pub open spec fn data_section<T: Scalar>(
    tag: Seq<char>,
    scalar_fields: Seq<(Seq<char>, Seq<T>)>,
    vector_fields: Seq<(Seq<char>, Seq<[T; 3]>)>,
) -> Seq<char> {
    if scalar_fields.len() == 0 && vector_fields.len() == 0 {
        "      <"@ + tag + "/>\n"@
    } else {
        "      <"@ + tag + (if scalar_fields.len() > 0 {
            " Scalars=\""@ + escaped(scalar_fields[0].0) + "\""@
        } else {
            ""@
        }) + (if vector_fields.len() > 0 {
            " Vectors=\""@ + escaped(vector_fields[0].0) + "\""@
        } else {
            ""@
        }) + ">\n"@ + flat(scalar_arrays(scalar_fields)) + flat(vector_arrays(vector_fields))
            + "      </"@ + tag + ">\n"@
    }
}

fn push_scalar_arrays<T: Scalar>(text: &mut String, fields: &[(&str, &[T])])
    ensures
        final(text)@ == old(text)@ + flat(scalar_arrays(field_views(fields@))),
{
    let ghost before = text@;
    let ghost arrays = scalar_arrays(field_views(fields@));
    let mut i: usize = 0;
    proof {
        flat_ends(arrays);
    }
    while i < fields.len()
        invariant
            i <= fields@.len(),
            arrays == scalar_arrays(field_views(fields@)),
            text@ =~= before + flat(arrays.take(i as int)),
        decreases fields@.len() - i,
    {
        push_scalar_array(text, fields[i].0, fields[i].1);
        proof {
            flat_step(arrays, i as int);
        }
        i = i + 1;
    }
    proof {
        flat_ends(arrays);
    }
}

fn push_vector_arrays<T: Scalar>(text: &mut String, fields: &[(&str, &[[T; 3]])])
    ensures
        final(text)@ == old(text)@ + flat(vector_arrays(field_views(fields@))),
{
    let ghost before = text@;
    let ghost arrays = vector_arrays(field_views(fields@));
    let mut i: usize = 0;
    proof {
        flat_ends(arrays);
    }
    while i < fields.len()
        invariant
            i <= fields@.len(),
            arrays == vector_arrays(field_views(fields@)),
            text@ =~= before + flat(arrays.take(i as int)),
        decreases fields@.len() - i,
    {
        push_vector_array(text, fields[i].0, fields[i].1);
        proof {
            flat_step(arrays, i as int);
        }
        i = i + 1;
    }
    proof {
        flat_ends(arrays);
    }
}

/// Appends the data on points or on cells.
pub fn push_data_section<T: Scalar>(
    text: &mut String,
    tag: &str,
    scalar_fields: &[(&str, &[T])],
    vector_fields: &[(&str, &[[T; 3]])],
)
    ensures
        final(text)@ == old(text)@ + data_section(
            tag@,
            field_views(scalar_fields@),
            field_views(vector_fields@),
        ),
{
    let ghost before = text@;
    text.append("      <");
    text.append(tag);
    if scalar_fields.len() == 0 && vector_fields.len() == 0 {
        text.append("/>\n");
        proof {
            assert(text@ =~= before + data_section(
            tag@,
            field_views(scalar_fields@),
            field_views(vector_fields@),
        ));
        }
        return ;
    }
    let ghost opening = text@;
    if scalar_fields.len() > 0 {
        let name = xml_escape(scalar_fields[0].0);
        text.append(" Scalars=\"");
        text.append(name.as_str());
        text.append("\"");
    } else {
        text.append("");
    }
    let ghost scalars = if scalar_fields@.len() > 0 {
        " Scalars=\""@ + escaped(scalar_fields@[0].0@) + "\""@
    } else {
        ""@
    };
    proof {
        assert(text@ =~= opening + scalars);
    }
    let ghost named = text@;
    if vector_fields.len() > 0 {
        let name = xml_escape(vector_fields[0].0);
        text.append(" Vectors=\"");
        text.append(name.as_str());
        text.append("\"");
    } else {
        text.append("");
    }
    let ghost vectors = if vector_fields@.len() > 0 {
        " Vectors=\""@ + escaped(vector_fields@[0].0@) + "\""@
    } else {
        ""@
    };
    proof {
        assert(text@ =~= named + vectors);
    }
    text.append(">\n");
    push_scalar_arrays(text, scalar_fields);
    push_vector_arrays(text, vector_fields);
    text.append("      </");
    text.append(tag);
    text.append(">\n");
    proof {
        assert(text@ =~= before + ("      <"@ + tag@ + scalars + vectors + ">\n"@ + flat(
            scalar_arrays(field_views(scalar_fields@)),
        ) + flat(vector_arrays(field_views(vector_fields@))) + "      </"@ + tag@ + ">\n"@));
    }
}

/// The opening tags of the points.
pub open spec fn points_open() -> Seq<char> {
    "      <Points>\n        <DataArray type=\"Float64\" NumberOfComponents=\"3\" format=\"ascii\">\n"@
}

/// The closing tags of the points.
pub open spec fn points_close() -> Seq<char> {
    "        </DataArray>\n      </Points>\n"@
}

/// A vertex as a line of a data array.
pub open spec fn point_lines<T: Scalar>(coords: MeshCoords<T>) -> Seq<Seq<char>> {
    Seq::new(
        coords.coords@.len(),
        |i: int|
            indent() + triple(
                coords.padded(i, 0).scientific_spec(12),
                coords.padded(i, 1).scientific_spec(12),
                coords.padded(i, 2).scientific_spec(12),
            ),
    )
}

/// Appends a vertex as a line of a data array.
pub fn push_point_line<T: Scalar>(text: &mut String, coords: &MeshCoords<T>, vertex: usize)
    requires
        coords.wf(),
        vertex < coords.coords@.len(),
    ensures
        final(text)@ == old(text)@ + point_lines(*coords)[vertex as int],
{
    let ghost before = text@;
    let x = coords.coordinate(vertex, 0).scientific(12);
    let y = coords.coordinate(vertex, 1).scientific(12);
    let z = coords.coordinate(vertex, 2).scientific(12);
    text.append("          ");
    push_triple(text, x.as_str(), y.as_str(), z.as_str());
    proof {
        assert(text@ =~= before + point_lines(*coords)[vertex as int]);
    }
}

/// The vertices of a mesh.
pub open spec fn points_section<T: Scalar>(coords: MeshCoords<T>) -> Seq<char> {
    points_open() + flat(point_lines(coords)) + points_close()
}

fn push_points_section<T: Scalar>(text: &mut String, coords: &MeshCoords<T>)
    requires
        coords.wf(),
    ensures
        final(text)@ == old(text)@ + points_section(*coords),
{
    let ghost before = text@;
    text.append(
        "      <Points>\n        <DataArray type=\"Float64\" NumberOfComponents=\"3\" format=\"ascii\">\n",
    );
    let ghost head = text@;
    let ghost lines = point_lines(*coords);
    let mut i: usize = 0;
    proof {
        flat_ends(lines);
    }
    while i < coords.nvertices()
        invariant
            i <= coords.coords@.len(),
            coords.wf(),
            lines == point_lines(*coords),
            text@ =~= head + flat(lines.take(i as int)),
        decreases coords.coords@.len() - i,
    {
        push_point_line(text, coords, i);
        proof {
            flat_step(lines, i as int);
        }
        i = i + 1;
    }
    proof {
        flat_ends(lines);
    }
    text.append("        </DataArray>\n      </Points>\n");
    proof {
        assert(text@ =~= before + points_section(*coords));
    }
}

/// Numbers, each with a blank behind it.
pub open spec fn number_words(numbers: Seq<nat>) -> Seq<Seq<char>> {
    Seq::new(numbers.len(), |i: int| decimal(numbers[i]).push(' '))
}

/// The vertices of a simplex.
pub open spec fn as_numbers(simplex: Seq<usize>) -> Seq<nat> {
    Seq::new(simplex.len(), |i: int| simplex[i] as nat)
}

/// The vertices of cells, one cell on each line.
pub open spec fn connectivity_lines(simplices: Seq<Seq<usize>>) -> Seq<Seq<char>> {
    Seq::new(
        simplices.len(),
        |i: int| indent() + flat(number_words(as_numbers(simplices[i]))).push('\n'),
    )
}

/// Where the vertices of each cell end, for cells of `nverts` vertices.
pub open spec fn uniform_offsets(n: nat, nverts: nat) -> Seq<nat> {
    Seq::new(n, |i: int| ((i + 1) * nverts) as nat)
}

/// The array of offsets.
pub open spec fn offsets_array(offsets: Seq<nat>) -> Seq<char> {
    "        <DataArray type=\"Int64\" Name=\"offsets\" format=\"ascii\">\n          "@ + flat(
        number_words(offsets),
    ) + "\n        </DataArray>\n"@
}

/// The array of cell types.
pub open spec fn types_array(cell_type: nat, n: nat) -> Seq<char> {
    "        <DataArray type=\"UInt8\" Name=\"types\" format=\"ascii\">\n          "@ + flat(
        repeated(decimal(cell_type).push(' '), n),
    ) + "\n        </DataArray>\n"@
}

/// The opening tags of the cells.
pub open spec fn cells_open() -> Seq<char> {
    "      <Cells>\n        <DataArray type=\"Int64\" Name=\"connectivity\" format=\"ascii\">\n"@
}

/// The cells of a skeleton.
pub open spec fn cells_section(simplices: Seq<Seq<usize>>, k: nat, cell_type: nat) -> Seq<char> {
    cells_open() + flat(connectivity_lines(simplices)) + array_end() + offsets_array(
        uniform_offsets(simplices.len(), k + 1),
    ) + types_array(cell_type, simplices.len()) + "      </Cells>\n"@
}

fn push_vertices(text: &mut String, vertices: &[usize])
    ensures
        final(text)@ == old(text)@ + flat(number_words(as_numbers(vertices@))),
{
    let ghost before = text@;
    let ghost words = number_words(as_numbers(vertices@));
    let mut i: usize = 0;
    proof {
        flat_ends(words);
    }
    while i < vertices.len()
        invariant
            i <= vertices@.len(),
            words == number_words(as_numbers(vertices@)),
            text@ =~= before + flat(words.take(i as int)),
        decreases vertices@.len() - i,
    {
        let ghost here = text@;
        push_decimal(text, vertices[i]);
        text.push(' ');
        proof {
            flat_step(words, i as int);
            assert(text@ =~= here + words[i as int]);
        }
        i = i + 1;
    }
    proof {
        flat_ends(words);
    }
}

fn push_connectivity(text: &mut String, topology: &Complex, k: usize)
    requires
        topology.wf(),
        k <= topology.dimension(),
    ensures
        final(text)@ == old(text)@ + flat(connectivity_lines(topology.simplices(k as int))),
{
    let ghost before = text@;
    let ghost lines = connectivity_lines(topology.simplices(k as int));
    let n: usize = topology.nsimplices(k);
    let mut i: usize = 0;
    proof {
        flat_ends(lines);
    }
    while i < n
        invariant
            i <= n,
            topology.wf(),
            k <= topology.dimension(),
            n == topology.simplices(k as int).len(),
            lines == connectivity_lines(topology.simplices(k as int)),
            text@ =~= before + flat(lines.take(i as int)),
        decreases n - i,
    {
        let ghost here = text@;
        let simplex = topology.simplex_at(k, i);
        text.append("          ");
        push_vertices(text, simplex.vertices.as_slice());
        text.push('\n');
        proof {
            flat_step(lines, i as int);
            assert(text@ =~= here + lines[i as int]);
        }
        i = i + 1;
    }
    proof {
        flat_ends(lines);
    }
}

fn push_uniform_offsets(text: &mut String, n: usize, nverts: usize)
    requires
        nverts <= 4,
    ensures
        final(text)@ == old(text)@ + offsets_array(uniform_offsets(n as nat, nverts as nat)),
{
    let ghost before = text@;
    text.append("        <DataArray type=\"Int64\" Name=\"offsets\" format=\"ascii\">\n          ");
    let ghost head = text@;
    let ghost words = number_words(uniform_offsets(n as nat, nverts as nat));
    let mut i: usize = 0;
    proof {
        flat_ends(words);
    }
    while i < n
        invariant
            i <= n,
            nverts <= 4,
            words == number_words(uniform_offsets(n as nat, nverts as nat)),
            text@ =~= head + flat(words.take(i as int)),
        decreases n - i,
    {
        let ghost here = text@;
        proof {
            assert(0 <= (i + 1) * nverts <= (usize::MAX + 1) * 4) by (nonlinear_arith)
                requires
                    0 <= i <= usize::MAX,
                    0 <= nverts <= 4,
            ;
        }
        push_large(text, (i as u128 + 1) * nverts as u128);
        text.push(' ');
        proof {
            flat_step(words, i as int);
            assert(text@ =~= here + words[i as int]);
        }
        i = i + 1;
    }
    proof {
        flat_ends(words);
    }
    text.append("\n        </DataArray>\n");
    proof {
        assert(text@ =~= before + offsets_array(uniform_offsets(n as nat, nverts as nat)));
    }
}

/// Appends the array of cell types.
pub fn push_types_array(text: &mut String, cell_type: u32, n: usize)
    ensures
        final(text)@ == old(text)@ + types_array(cell_type as nat, n as nat),
{
    let ghost before = text@;
    text.append("        <DataArray type=\"UInt8\" Name=\"types\" format=\"ascii\">\n          ");
    let mut word = String::new();
    push_decimal(&mut word, cell_type as usize);
    word.push(' ');
    push_repeated(text, word.as_str(), n);
    text.append("\n        </DataArray>\n");
    proof {
        assert(word@ =~= decimal(cell_type as nat).push(' '));
        assert(text@ =~= before + types_array(cell_type as nat, n as nat));
    }
}

fn push_cells_section(text: &mut String, topology: &Complex, k: usize, cell_type: u32)
    requires
        topology.wf(),
        k <= topology.dimension(),
        k <= 3,
    ensures
        final(text)@ == old(text)@ + cells_section(
            topology.simplices(k as int),
            k as nat,
            cell_type as nat,
        ),
{
    let ghost before = text@;
    let n: usize = topology.nsimplices(k);
    text.append(
        "      <Cells>\n        <DataArray type=\"Int64\" Name=\"connectivity\" format=\"ascii\">\n",
    );
    push_connectivity(text, topology, k);
    text.append("        </DataArray>\n");
    push_uniform_offsets(text, n, k + 1);
    push_types_array(text, cell_type, n);
    text.append("      </Cells>\n");
    proof {
        assert(text@ =~= before + cells_section(
            topology.simplices(k as int),
            k as nat,
            cell_type as nat,
        ));
    }
}

/// The file of fields on a skeleton.
pub open spec fn unstructured_grid<T: Scalar>(
    coords: MeshCoords<T>,
    simplices: Seq<Seq<usize>>,
    k: nat,
    cell_type: nat,
    point_scalars: Seq<(Seq<char>, Seq<T>)>,
    cell_scalars: Seq<(Seq<char>, Seq<T>)>,
    cell_vectors: Seq<(Seq<char>, Seq<[T; 3]>)>,
) -> Seq<char> {
    vtu_open(coords.coords@.len(), simplices.len()) + data_section(
        "PointData"@,
        point_scalars,
        Seq::empty(),
    ) + data_section("CellData"@, cell_scalars, cell_vectors) + points_section(coords)
        + cells_section(simplices, k, cell_type) + vtu_close()
}

/// The file of fields on a skeleton.
pub fn write_vtu_unstructured_grid<T: Scalar>(
    coords: &MeshCoords<T>,
    topology: &Complex,
    k: usize,
    cell_type: u32,
    point_scalars: &[(&str, &[T])],
    cell_scalars: &[(&str, &[T])],
    cell_vectors: &[(&str, &[[T; 3]])],
) -> (text: String)
    requires
        coords.wf(),
        topology.wf(),
        k <= topology.dimension(),
        k <= 3,
    ensures
        text@ == unstructured_grid(
            *coords,
            topology.simplices(k as int),
            k as nat,
            cell_type as nat,
            field_views(point_scalars@),
            field_views(cell_scalars@),
            field_views(cell_vectors@),
        ),
{
    let mut text = String::new();
    let none: [(&str, &[[T; 3]]); 0] = [];
    proof {
        assert(field_views(none@) =~= Seq::<(Seq<char>, Seq<[T; 3]>)>::empty());
    }
    push_vtu_open(&mut text, coords.nvertices() as u128, topology.nsimplices(k));
    push_data_section(&mut text, "PointData", point_scalars, none.as_slice());
    push_data_section(&mut text, "CellData", cell_scalars, cell_vectors);
    push_points_section(&mut text, coords);
    push_cells_section(&mut text, topology, k, cell_type);
    text.append("    </Piece>\n  </UnstructuredGrid>\n</VTKFile>\n");
    proof {
        assert(text@ =~= unstructured_grid(
            *coords,
            topology.simplices(k as int),
            k as nat,
            cell_type as nat,
            field_views(point_scalars@),
            field_views(cell_scalars@),
            field_views(cell_vectors@),
        ));
    }
    text
}

fn cochain_slices<'a, T: Scalar>(fields: &[(&'a str, &'a Cochain<T>)]) -> (slices: Vec<
    (&'a str, &'a [T]),
>)
    ensures
        field_views(slices@) == cochain_views(fields@),
{
    let mut slices: Vec<(&'a str, &'a [T])> = Vec::new();
    let mut i: usize = 0;
    while i < fields.len()
        invariant
            i <= fields@.len(),
            field_views(slices@) =~= cochain_views(fields@).take(i as int),
        decreases fields@.len() - i,
    {
        let field: (&'a str, &'a Cochain<T>) = fields[i];
        let ghost before = field_views(slices@);
        slices.push((field.0, field.1.coeffs.as_slice()));
        proof {
            assert(field_views(slices@) =~= before.push((field.0@, field.1.coeffs@)));
        }
        i = i + 1;
    }
    slices
}

/// The file of scalar cochains.
pub open spec fn cochains_vtu<T: Scalar>(
    coords: MeshCoords<T>,
    topology: Complex,
    degree: nat,
    fields: Seq<(&str, &Cochain<T>)>,
) -> Seq<char> {
    let k = drawn_dimension(degree, topology.dimension() as nat);
    unstructured_grid(
        coords,
        topology.simplices(k as int),
        k,
        cell_type_of(k)->0 as nat,
        if degree == 0 {
            cochain_views(fields)
        } else {
            Seq::empty()
        },
        if degree == 0 {
            Seq::empty()
        } else {
            cochain_views(fields)
        },
        Seq::empty(),
    )
}

/// The file of scalar cochains of one degree: cochains of degree zero as values at the
/// vertices of the top-dimensional cells, others as values on the cells of their dimension.
pub fn write_cochain_vtu_fields<T: Scalar>(
    coords: &MeshCoords<T>,
    topology: &Complex,
    degree: usize,
    fields: &[(&str, &Cochain<T>)],
) -> (file: Result<String, ExportError>)
    requires
        coords.wf(),
        topology.wf(),
    ensures
        match cochains_fault(*coords, *topology, degree as nat, fields@) {
            Some(message) => file matches Err(e) && invalid(e, message),
            None => file matches Ok(text) && text@ == cochains_vtu(
                *coords,
                *topology,
                degree as nat,
                fields@,
            ),
        },
{
    let (k, cell_type): (usize, u32) = match check_cochain_fields(
        coords,
        topology,
        degree,
        fields,
    ) {
        Ok(cells) => cells,
        Err(e) => {
            return Err(e);
        },
    };
    let slices = cochain_slices(fields);
    let no_scalars: [(&str, &[T]); 0] = [];
    let no_vectors: [(&str, &[[T; 3]]); 0] = [];
    proof {
        assert(field_views(no_scalars@) =~= Seq::<(Seq<char>, Seq<T>)>::empty());
        assert(field_views(no_vectors@) =~= Seq::<(Seq<char>, Seq<[T; 3]>)>::empty());
    }
    if degree == 0 {
        Ok(
            write_vtu_unstructured_grid(
                coords,
                topology,
                k,
                cell_type,
                slices.as_slice(),
                no_scalars.as_slice(),
                no_vectors.as_slice(),
            ),
        )
    } else {
        Ok(
            write_vtu_unstructured_grid(
                coords,
                topology,
                k,
                cell_type,
                no_scalars.as_slice(),
                slices.as_slice(),
                no_vectors.as_slice(),
            ),
        )
    }
}

/// The file of one cochain.
pub fn write_cochain_vtu<T: Scalar>(
    coords: &MeshCoords<T>,
    topology: &Complex,
    cochain: &Cochain<T>,
    data_name: &str,
) -> (file: Result<String, ExportError>)
    requires
        coords.wf(),
        topology.wf(),
    ensures
        match cochains_fault(*coords, *topology, cochain.dim as nat, seq![(data_name, cochain)]) {
            Some(message) => file matches Err(e) && invalid(e, message),
            None => file matches Ok(text) && text@ == cochains_vtu(
                *coords,
                *topology,
                cochain.dim as nat,
                seq![(data_name, cochain)],
            ),
        },
{
    let fields = [(data_name, cochain)];
    proof {
        assert(fields@ =~= seq![(data_name, cochain)]);
    }
    write_cochain_vtu_fields(coords, topology, cochain.dim(), fields.as_slice())
}

/// The file of fields on the top-dimensional cells.
pub open spec fn top_cell_vtu<T: Scalar>(
    coords: MeshCoords<T>,
    topology: Complex,
    vector_fields: Seq<(Seq<char>, Seq<[T; 3]>)>,
    scalar_fields: Seq<(Seq<char>, Seq<T>)>,
) -> Seq<char> {
    let k = topology.dimension();
    unstructured_grid(
        coords,
        topology.simplices(k),
        k as nat,
        cell_type_of(k as nat)->0 as nat,
        Seq::empty(),
        scalar_fields,
        vector_fields,
    )
}

/// The file of vector and scalar fields on the top-dimensional cells.
pub fn write_top_cell_vtu_fields<T: Scalar>(
    coords: &MeshCoords<T>,
    topology: &Complex,
    vector_fields: &[(&str, &[[T; 3]])],
    scalar_fields: &[(&str, &[T])],
) -> (file: Result<String, ExportError>)
    requires
        coords.wf(),
        topology.wf(),
    ensures
        match top_cell_fault(*coords, *topology, vector_fields@, scalar_fields@) {
            Some(message) => file matches Err(e) && other(e, message),
            None => file matches Ok(text) && text@ == top_cell_vtu(
                *coords,
                *topology,
                field_views(vector_fields@),
                field_views(scalar_fields@),
            ),
        },
{
    match check_top_cell_fields(coords, topology, vector_fields, scalar_fields) {
        Ok((k, cell_type)) => {
            let none: [(&str, &[T]); 0] = [];
            proof {
                assert(field_views(none@) =~= Seq::<(Seq<char>, Seq<T>)>::empty());
            }
            Ok(
                write_vtu_unstructured_grid(
                    coords,
                    topology,
                    k,
                    cell_type,
                    none.as_slice(),
                    scalar_fields,
                    vector_fields,
                ),
            )
        },
        Err(e) => Err(e),
    }
}

fn vector_field_file<T: Scalar>(
    coords: &MeshCoords<T>,
    topology: &Complex,
    k: usize,
    cell_type: u32,
    data_name: &str,
    vectors: &[[T; 3]],
    scalar_fields: &[(&str, &[T])],
) -> (text: String)
    requires
        coords.wf(),
        topology.wf(),
        k <= topology.dimension(),
        k <= 3,
    ensures
        text@ == unstructured_grid(
            *coords,
            topology.simplices(k as int),
            k as nat,
            cell_type as nat,
            Seq::empty(),
            field_views(scalar_fields@),
            seq![(data_name@, vectors@)],
        ),
{
    let none: [(&str, &[T]); 0] = [];
    let field = [(data_name, vectors)];
    proof {
        assert(field_views(none@) =~= Seq::<(Seq<char>, Seq<T>)>::empty());
        assert(field_views(field@) =~= seq![(data_name@, vectors@)]);
    }
    write_vtu_unstructured_grid(
        coords,
        topology,
        k,
        cell_type,
        none.as_slice(),
        scalar_fields,
        field.as_slice(),
    )
}

/// The file of a one-form as vectors on the cells: its values at their barycenters. The maps
/// take the forms of the reference simplex to the space around the mesh.
pub fn write_1form_vector_field_vtu<T: Scalar>(
    coords: &MeshCoords<T>,
    topology: &Complex,
    cochain: &Cochain<T>,
    lifts: &[DenseMatrix<T>],
    data_name: &str,
) -> (file: Result<String, ExportError>)
    requires
        coords.wf(),
        topology.wf(),
        cochain.dim == 1 && coords.dim <= 3 ==> topology.dimension() >= 1,
        one_form_fault(*coords, *topology, *cochain) is None ==> lifts_fit(
            lifts@,
            *topology,
            coords.dim as nat,
            1,
        ),
    ensures
        match one_form_fault(*coords, *topology, *cochain) {
            Some(message) => file matches Err(e) && other(e, message),
            None => file matches Ok(text) && exists|vectors: Seq<[T; 3]>|
                are_cell_vectors(vectors, *cochain, *topology, lifts@) && text@ == #[trigger] top_cell_vtu(
                    *coords,
                    *topology,
                    seq![(data_name@, vectors)],
                    Seq::empty(),
                ),
        },
{
    let vectors = match sample_1form_cell_vectors(coords, topology, cochain, lifts) {
        Ok(vectors) => vectors,
        Err(e) => {
            return Err(e);
        },
    };
    let topo_dim: usize = topology.dim();
    let none: [(&str, &[T]); 0] = [];
    proof {
        assert(field_views(none@) =~= Seq::<(Seq<char>, Seq<T>)>::empty());
    }
    match vtk_cell_type(topo_dim) {
        Some(cell_type) => {
            let text = vector_field_file(
                coords,
                topology,
                topo_dim,
                cell_type,
                data_name,
                vectors.as_slice(),
                none.as_slice(),
            );
            proof {
                assert(text@ == top_cell_vtu(
                    *coords,
                    *topology,
                    seq![(data_name@, vectors@)],
                    Seq::empty(),
                ));
            }
            Ok(text)
        },
        None => {
            let mut text = owned("Unsupported cell dimension ");
            push_decimal(&mut text, topo_dim);
            Err(ExportError::Other(text))
        },
    }
}

/// The file of a two-form as the vectors that stand for it at the barycenters of the cells. The
/// maps take the forms of the reference simplex to the space around the mesh.
pub fn write_2form_vector_field_vtu<T: Scalar>(
    coords: &MeshCoords<T>,
    topology: &Complex,
    cochain: &Cochain<T>,
    lifts: &[DenseMatrix<T>],
    data_name: &str,
) -> (file: Result<String, ExportError>)
    requires
        coords.wf(),
        topology.wf(),
        cochain.dim == 2 && coords.dim == 3 && topology.dimension() == 3 ==> lifts_fit(
            lifts@,
            *topology,
            3,
            2,
        ),
    ensures
        match two_form_fault(
            *coords,
            *topology,
            *cochain,
            "write_2form_vector_field_vtu supports 3D meshes only"@,
        ) {
            Some(message) => file matches Err(e) && other(e, message),
            None => file matches Ok(text) && exists|vectors: Seq<[T; 3]>|
                are_cell_pseudovectors(vectors, *cochain, *topology, lifts@) && text@ == #[trigger] top_cell_vtu(
                    *coords,
                    *topology,
                    seq![(data_name@, vectors)],
                    Seq::empty(),
                ),
        },
{
    match check_2form(
        coords,
        topology,
        cochain,
        "write_2form_vector_field_vtu supports 3D meshes only",
    ) {
        Ok(()) => {
            let vectors = pseudovectors(topology, cochain, lifts);
            let none: [(&str, &[T]); 0] = [];
            proof {
                assert(field_views(none@) =~= Seq::<(Seq<char>, Seq<T>)>::empty());
            }
            let text = vector_field_file(
                coords,
                topology,
                3,
                10,
                data_name,
                vectors.as_slice(),
                none.as_slice(),
            );
            proof {
                assert(text@ == top_cell_vtu(
                    *coords,
                    *topology,
                    seq![(data_name@, vectors@)],
                    Seq::empty(),
                ));
            }
            Ok(text)
        },
        Err(e) => Err(e),
    }
}

/// The file of vectors and scalar fields along the edges.
pub open spec fn proxy_vtu<T: Scalar>(
    coords: MeshCoords<T>,
    topology: Complex,
    vector_name: Seq<char>,
    vectors: Seq<[T; 3]>,
    scalar_fields: Seq<(&str, &Cochain<T>)>,
) -> Seq<char> {
    unstructured_grid(
        coords,
        topology.simplices(1),
        1,
        3,
        Seq::empty(),
        cochain_views(scalar_fields),
        seq![(vector_name, vectors)],
    )
}

/// The file of a one-form as vectors along the edges, with scalar fields on the edges.
pub fn write_1form_vector_proxy_vtu_fields<T: Scalar>(
    coords: &MeshCoords<T>,
    topology: &Complex,
    vector_name: &str,
    vector_cochain: &Cochain<T>,
    scalar_fields: &[(&str, &Cochain<T>)],
) -> (file: Result<String, ExportError>)
    requires
        coords.wf(),
        topology.wf(),
        vector_cochain.dim == 1 && coords.dim <= 3 ==> topology.dimension() >= 1,
        topology.simplices(0).len() <= coords.coords@.len(),
    ensures
        match proxy_fault(*coords, *topology, vector_name@, *vector_cochain, scalar_fields@) {
            Some(message) => file matches Err(e) && invalid(e, message),
            None => file matches Ok(text) && exists|vectors: Seq<[T; 3]>|
                are_edge_proxies(vectors, *coords, topology.simplices(1), vector_cochain.coeffs@)
                    && text@ == #[trigger] proxy_vtu(
                    *coords,
                    *topology,
                    vector_name@,
                    vectors,
                    scalar_fields@,
                ),
        },
{
    match check_proxy_fields(coords, topology, vector_name, vector_cochain, scalar_fields) {
        Ok(()) => {},
        Err(e) => {
            return Err(e);
        },
    }
    let vectors = edge_proxies(coords, topology, vector_cochain.coeffs.as_slice());
    let slices = cochain_slices(scalar_fields);
    let text = vector_field_file(
        coords,
        topology,
        1,
        3,
        vector_name,
        vectors.as_slice(),
        slices.as_slice(),
    );
    proof {
        assert(text@ == proxy_vtu(
            *coords,
            *topology,
            vector_name@,
            vectors@,
            scalar_fields@,
        ));
    }
    Ok(text)
}

/// The file of a one-form as vectors along the edges.
pub fn write_1form_vector_proxy_vtu<T: Scalar>(
    coords: &MeshCoords<T>,
    topology: &Complex,
    cochain: &Cochain<T>,
    data_name: &str,
) -> (file: Result<String, ExportError>)
    requires
        coords.wf(),
        topology.wf(),
        cochain.dim == 1 && coords.dim <= 3 ==> topology.dimension() >= 1,
        topology.simplices(0).len() <= coords.coords@.len(),
    ensures
        match proxy_fault(*coords, *topology, data_name@, *cochain, Seq::empty()) {
            Some(message) => file matches Err(e) && invalid(e, message),
            None => file matches Ok(text) && exists|vectors: Seq<[T; 3]>|
                are_edge_proxies(vectors, *coords, topology.simplices(1), cochain.coeffs@)
                    && text@ == #[trigger] proxy_vtu(
                    *coords,
                    *topology,
                    data_name@,
                    vectors,
                    Seq::empty(),
                ),
        },
{
    let none: [(&str, &Cochain<T>); 0] = [];
    proof {
        assert(none@ =~= Seq::<(&str, &Cochain<T>)>::empty());
    }
    write_1form_vector_proxy_vtu_fields(coords, topology, data_name, cochain, none.as_slice())
}

} // verus!
