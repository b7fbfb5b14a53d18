//! Paths along vertices of a mesh, as lines with scalar fields.

use crate::io::fields::{fixed_points, invalid};
use crate::io::fields::{push_fixed_point, ExportError, MeshCoords};
use crate::io::vtk::{scalar_blocks, vtk_head};
use crate::io::vtk::{push_scalar_blocks, push_vtk_head};
use crate::io::vtu::{
    array_end, cells_open, data_section, field_views, indent, number_words, offsets_array,
    point_lines, points_close, points_open, types_array, vtu_close, vtu_open,
};
use crate::io::vtu::{push_data_section, push_point_line, push_types_array, push_vtu_open};
use crate::linalg::scalar::Scalar;
use crate::text::{decimal, first_fault, first_fault_ends, first_fault_step, flat, flat_ends, flat_step};
use crate::text::{owned, push_decimal, push_large};
use vstd::prelude::*;
use vstd::string::*;

verus! {

/// What is wrong with the vertices of a path, vertex by vertex.
pub open spec fn vertex_faults(index: nat, path: Seq<usize>, nvertices: nat) -> Seq<
    Option<Seq<char>>,
> {
    Seq::new(
        path.len(),
        |i: int|
            if path[i] >= nvertices {
                Some(
                    "Polyline path "@ + decimal(index) + " references vertex "@ + decimal(
                        path[i] as nat,
                    ) + ", but mesh has "@ + decimal(nvertices) + " vertices"@,
                )
            } else {
                None
            },
    )
}

/// What is wrong with a path.
pub open spec fn path_fault(index: nat, path: Seq<usize>, nvertices: nat) -> Option<Seq<char>> {
    if path.len() < 2 {
        Some("Polyline path "@ + decimal(index) + " has fewer than two vertices"@)
    } else {
        first_fault(vertex_faults(index, path, nvertices))
    }
}

/// What is wrong with paths, path by path.
pub open spec fn path_faults(paths: Seq<&[usize]>, nvertices: nat) -> Seq<Option<Seq<char>>> {
    Seq::new(paths.len(), |i: int| path_fault(i as nat, paths[i]@, nvertices))
}

/// What is wrong with scalar fields on paths, field by field.
pub open spec fn path_field_faults<T: Scalar>(fields: Seq<(&str, &[T])>, npaths: nat) -> Seq<
    Option<Seq<char>>,
> {
    Seq::new(
        fields.len(),
        |i: int|
            if fields[i].1@.len() != npaths {
                Some(
                    "Scalar field length "@ + decimal(fields[i].1@.len())
                        + " does not match polyline count "@ + decimal(npaths) + " for field "@
                        + fields[i].0@,
                )
            } else {
                None
            },
    )
}

/// What keeps paths from being written.
pub open spec fn polyline_fault<T: Scalar>(
    coords: MeshCoords<T>,
    paths: Seq<&[usize]>,
    fields: Seq<(&str, &[T])>,
) -> Option<Seq<char>> {
    if coords.dim > 3 {
        Some("VTK export supports up to 3D coordinates"@)
    } else if first_fault(path_faults(paths, coords.coords@.len())) is Some {
        first_fault(path_faults(paths, coords.coords@.len()))
    } else {
        first_fault(path_field_faults(fields, paths.len()))
    }
}

fn check_path(index: usize, path: &[usize], nvertices: usize) -> (fault: Option<String>)
    ensures
        match path_fault(index as nat, path@, nvertices as nat) {
            Some(message) => fault matches Some(text) && text@ == message,
            None => fault is None,
        },
        fault is None ==> forall|j: int| 0 <= j < path@.len() ==> #[trigger] path@[j] < nvertices,
{
    if path.len() < 2 {
        let mut text = owned("Polyline path ");
        push_decimal(&mut text, index);
        text.append(" has fewer than two vertices");
        return Some(text);
    }
    let ghost faults = vertex_faults(index as nat, path@, nvertices as nat);
    let mut i: usize = 0;
    proof {
        first_fault_ends(faults);
    }
    while i < path.len()
        invariant
            i <= path@.len(),
            path@.len() >= 2,
            faults == vertex_faults(index as nat, path@, nvertices as nat),
            first_fault(faults.take(i as int)) is None,
            forall|j: int| 0 <= j < i ==> #[trigger] path@[j] < nvertices,
        decreases path@.len() - i,
    {
        proof {
            first_fault_step(faults, i as int);
        }
        if path[i] >= nvertices {
            let mut text = owned("Polyline path ");
            push_decimal(&mut text, index);
            text.append(" references vertex ");
            push_decimal(&mut text, path[i]);
            text.append(", but mesh has ");
            push_decimal(&mut text, nvertices);
            text.append(" vertices");
            return Some(text);
        }
        i = i + 1;
    }
    proof {
        first_fault_ends(faults);
    }
    None
}

/// All vertices of paths belong to the mesh.
pub open spec fn paths_within(paths: Seq<&[usize]>, nvertices: nat) -> bool {
    forall|i: int, j: int|
        0 <= i < paths.len() && 0 <= j < paths[i]@.len() ==> #[trigger] paths[i]@[j] < nvertices
}

/// Fails unless paths and fields fit the mesh and the format.
pub fn check_polylines<T: Scalar>(
    coords: &MeshCoords<T>,
    paths: &[&[usize]],
    fields: &[(&str, &[T])],
) -> (checked: Result<(), ExportError>)
    ensures
        match polyline_fault(*coords, paths@, fields@) {
            Some(message) => checked matches Err(e) && invalid(e, message),
            None => checked is Ok && paths_within(paths@, coords.coords@.len()),
        },
{
    if coords.dim() > 3 {
        return Err(ExportError::InvalidInput(owned("VTK export supports up to 3D coordinates")));
    }
    let nvertices: usize = coords.nvertices();
    let ghost faults = path_faults(paths@, nvertices as nat);
    let mut i: usize = 0;
    proof {
        first_fault_ends(faults);
    }
    while i < paths.len()
        invariant
            i <= paths@.len(),
            coords.dim <= 3,
            nvertices == coords.coords@.len(),
            faults == path_faults(paths@, nvertices as nat),
            first_fault(faults.take(i as int)) is None,
            forall|k: int, j: int|
                0 <= k < i && 0 <= j < paths@[k]@.len() ==> #[trigger] paths@[k]@[j] < nvertices,
        decreases paths@.len() - i,
    {
        proof {
            first_fault_step(faults, i as int);
        }
        match check_path(i, paths[i], nvertices) {
            Some(text) => {
                return Err(ExportError::InvalidInput(text));
            },
            None => {},
        }
        i = i + 1;
    }
    proof {
        first_fault_ends(faults);
    }
    let ghost field_faults = path_field_faults(fields@, paths@.len());
    let mut i: usize = 0;
    proof {
        first_fault_ends(field_faults);
    }
    while i < fields.len()
        invariant
            i <= fields@.len(),
            coords.dim <= 3,
            first_fault(path_faults(paths@, coords.coords@.len())) is None,
            field_faults == path_field_faults(fields@, paths@.len()),
            first_fault(field_faults.take(i as int)) is None,
        decreases fields@.len() - i,
    {
        proof {
            first_fault_step(field_faults, i as int);
        }
        if fields[i].1.len() != paths.len() {
            let mut text = owned("Scalar field length ");
            push_decimal(&mut text, fields[i].1.len());
            text.append(" does not match polyline count ");
            push_decimal(&mut text, paths.len());
            text.append(" for field ");
            text.append(fields[i].0);
            return Err(ExportError::InvalidInput(text));
        }
        i = i + 1;
    }
    proof {
        first_fault_ends(field_faults);
    }
    Ok(())
}

/// The number of points of paths.
pub open spec fn point_count(paths: Seq<&[usize]>) -> nat
    decreases paths.len(),
{
    if paths.len() == 0 {
        0
    } else {
        point_count(paths.drop_last()) + paths.last()@.len()
    }
}

proof fn lemma_point_count_step(paths: Seq<&[usize]>, i: int)
    requires
        0 <= i < paths.len(),
    ensures
        point_count(paths.take(i + 1)) == point_count(paths.take(i)) + paths[i]@.len(),
{
    assert(paths.take(i + 1).drop_last() =~= paths.take(i));
}

/// The number of points that can be counted.
pub open spec fn count_limit(n: int) -> int {
    n * 0x1_0000_0000_0000_0000
}

proof fn lemma_count_limit(n: int)
    requires
        0 <= n <= usize::MAX,
    ensures
        count_limit(n) + usize::MAX <= u128::MAX,
        count_limit(n + 1) == count_limit(n) + 0x1_0000_0000_0000_0000,
        usize::MAX < 0x1_0000_0000_0000_0000,
{
    assert(n * 0x1_0000_0000_0000_0000 <= 0xffff_ffff_ffff_ffff * 0x1_0000_0000_0000_0000)
        by (nonlinear_arith)
        requires
            0 <= n <= 0xffff_ffff_ffff_ffff,
    ;
}

fn count_points(paths: &[&[usize]]) -> (n: u128)
    ensures
        n == point_count(paths@),
        n <= count_limit(paths@.len() as int),
{
    let mut n: u128 = 0;
    let mut i: usize = 0;
    while i < paths.len()
        invariant
            i <= paths@.len(),
            n == point_count(paths@.take(i as int)),
            n <= count_limit(i as int),
        decreases paths@.len() - i,
    {
        let len: usize = paths[i].len();
        proof {
            lemma_point_count_step(paths@, i as int);
            lemma_count_limit(i as int);
        }
        n = n + len as u128;
        i = i + 1;
    }
    proof {
        assert(paths@.take(i as int) =~= paths@);
    }
    n
}

/// The lines `lines[v]` of the vertices of a path.
pub open spec fn selected_lines(lines: Seq<Seq<char>>, path: Seq<usize>) -> Seq<Seq<char>> {
    Seq::new(path.len(), |i: int| lines[path[i] as int])
}

/// The lines of the vertices of paths, path by path.
pub open spec fn path_point_lines(lines: Seq<Seq<char>>, paths: Seq<&[usize]>) -> Seq<Seq<char>> {
    Seq::new(paths.len(), |i: int| flat(selected_lines(lines, paths[i]@)))
}

fn push_path_points<T: Scalar>(
    text: &mut String,
    coords: &MeshCoords<T>,
    path: &[usize],
    scientific: bool,
)
    requires
        coords.wf(),
        forall|j: int| 0 <= j < path@.len() ==> #[trigger] path@[j] < coords.coords@.len(),
    ensures
        final(text)@ == old(text)@ + flat(
            selected_lines(
                if scientific {
                    point_lines(*coords)
                } else {
                    fixed_points(*coords, 12)
                },
                path@,
            ),
        ),
{
    let ghost before = text@;
    let ghost lines = selected_lines(
        if scientific {
            point_lines(*coords)
        } else {
            fixed_points(*coords, 12)
        },
        path@,
    );
    let mut i: usize = 0;
    proof {
        flat_ends(lines);
    }
    while i < path.len()
        invariant
            i <= path@.len(),
            coords.wf(),
            forall|j: int| 0 <= j < path@.len() ==> #[trigger] path@[j] < coords.coords@.len(),
            lines == selected_lines(
                if scientific {
                    point_lines(*coords)
                } else {
                    fixed_points(*coords, 12)
                },
                path@,
            ),
            text@ =~= before + flat(lines.take(i as int)),
        decreases path@.len() - i,
    {
        if scientific {
            push_point_line(text, coords, path[i]);
        } else {
            push_fixed_point(text, coords, path[i], 12);
        }
        proof {
            flat_step(lines, i as int);
        }
        i = i + 1;
    }
    proof {
        flat_ends(lines);
    }
}

fn push_all_path_points<T: Scalar>(
    text: &mut String,
    coords: &MeshCoords<T>,
    paths: &[&[usize]],
    scientific: bool,
)
    requires
        coords.wf(),
        paths_within(paths@, coords.coords@.len()),
    ensures
        final(text)@ == old(text)@ + flat(
            path_point_lines(
                if scientific {
                    point_lines(*coords)
                } else {
                    fixed_points(*coords, 12)
                },
                paths@,
            ),
        ),
{
    let ghost before = text@;
    let ghost parts = path_point_lines(
        if scientific {
            point_lines(*coords)
        } else {
            fixed_points(*coords, 12)
        },
        paths@,
    );
    let mut i: usize = 0;
    proof {
        flat_ends(parts);
    }
    while i < paths.len()
        invariant
            i <= paths@.len(),
            coords.wf(),
            paths_within(paths@, coords.coords@.len()),
            parts == path_point_lines(
                if scientific {
                    point_lines(*coords)
                } else {
                    fixed_points(*coords, 12)
                },
                paths@,
            ),
            text@ =~= before + flat(parts.take(i as int)),
        decreases paths@.len() - i,
    {
        push_path_points(text, coords, paths[i], scientific);
        proof {
            flat_step(parts, i as int);
        }
        i = i + 1;
    }
    proof {
        flat_ends(parts);
    }
}

/// The numbers of the points of a path, each behind a blank.
pub open spec fn line_words(offset: nat, len: nat) -> Seq<Seq<char>> {
    Seq::new(len, |j: int| seq![' '] + decimal((offset + j) as nat))
}

/// The numbers of consecutive points.
pub open spec fn consecutive(offset: nat, len: nat) -> Seq<nat> {
    Seq::new(len, |j: int| (offset + j) as nat)
}

/// Paths as lines: the number of points and the points, counted through all paths.
pub open spec fn path_lines(paths: Seq<&[usize]>) -> Seq<Seq<char>> {
    Seq::new(
        paths.len(),
        |i: int|
            (decimal(paths[i]@.len()) + flat(
                line_words(point_count(paths.take(i)), paths[i]@.len()),
            )).push('\n'),
    )
}

fn push_line_words(text: &mut String, offset: u128, len: usize)
    requires
        offset + len <= u128::MAX,
    ensures
        final(text)@ == old(text)@ + flat(line_words(offset as nat, len as nat)),
{
    let ghost before = text@;
    let ghost words = line_words(offset as nat, len as nat);
    let mut i: usize = 0;
    proof {
        flat_ends(words);
    }
    while i < len
        invariant
            i <= len,
            offset + len <= u128::MAX,
            words == line_words(offset as nat, len as nat),
            text@ =~= before + flat(words.take(i as int)),
        decreases len - i,
    {
        let ghost here = text@;
        text.push(' ');
        push_large(text, offset + i as u128);
        proof {
            flat_step(words, i as int);
            assert(text@ =~= here + words[i as int]);
        }
        i = i + 1;
    }
    proof {
        flat_ends(words);
    }
}

fn push_path_lines(text: &mut String, paths: &[&[usize]])
    ensures
        final(text)@ == old(text)@ + flat(path_lines(paths@)),
{
    let ghost before = text@;
    let ghost lines = path_lines(paths@);
    let mut offset: u128 = 0;
    let mut i: usize = 0;
    proof {
        flat_ends(lines);
    }
    while i < paths.len()
        invariant
            i <= paths@.len(),
            lines == path_lines(paths@),
            offset == point_count(paths@.take(i as int)),
            offset <= count_limit(i as int),
            text@ =~= before + flat(lines.take(i as int)),
        decreases paths@.len() - i,
    {
        let ghost here = text@;
        let len: usize = paths[i].len();
        proof {
            lemma_point_count_step(paths@, i as int);
            lemma_count_limit(i as int);
        }
        push_decimal(text, len);
        push_line_words(text, offset, len);
        text.push('\n');
        offset = offset + len as u128;
        proof {
            flat_step(lines, i as int);
            assert(text@ =~= here + lines[i as int]);
        }
        i = i + 1;
    }
    proof {
        flat_ends(lines);
    }
}

/// The file of paths with scalar fields.
pub open spec fn polyline_vtk<T: Scalar>(
    title: Seq<char>,
    coords: MeshCoords<T>,
    paths: Seq<&[usize]>,
    fields: Seq<(&str, &[T])>,
) -> Seq<char> {
    let head = vtk_head(title, "POLYDATA"@) + "POINTS "@ + decimal(point_count(paths))
        + " double\n"@ + flat(path_point_lines(fixed_points(coords, 12), paths)) + "LINES "@
        + decimal(paths.len()) + " "@ + decimal(point_count(paths) + paths.len()) + "\n"@ + flat(
        path_lines(paths),
    );
    if fields.len() == 0 {
        head
    } else {
        head + "CELL_DATA "@ + decimal(paths.len()) + "\n"@ + flat(scalar_blocks(fields))
    }
}

/// The file of paths with scalar fields. Each path is a list of vertices of the mesh; each
/// field has one value for each path.
pub fn write_polyline_vtk_fields<T: Scalar>(
    title: &str,
    coords: &MeshCoords<T>,
    paths: &[&[usize]],
    cell_scalar_fields: &[(&str, &[T])],
) -> (file: Result<String, ExportError>)
    requires
        coords.wf(),
    ensures
        match polyline_fault(*coords, paths@, cell_scalar_fields@) {
            Some(message) => file matches Err(e) && invalid(e, message),
            None => file matches Ok(text) && text@ == polyline_vtk(
                title@,
                *coords,
                paths@,
                cell_scalar_fields@,
            ),
        },
{
    match check_polylines(coords, paths, cell_scalar_fields) {
        Ok(()) => {},
        Err(e) => {
            return Err(e);
        },
    }
    let total: u128 = count_points(paths);
    let npaths: usize = paths.len();
    proof {
        lemma_count_limit(npaths as int);
    }
    let mut text = String::new();
    push_vtk_head(&mut text, title, "POLYDATA");
    text.append("POINTS ");
    push_large(&mut text, total);
    text.append(" double\n");
    push_all_path_points(&mut text, coords, paths, false);
    text.append("LINES ");
    push_decimal(&mut text, paths.len());
    text.append(" ");
    push_large(&mut text, total + paths.len() as u128);
    text.append("\n");
    push_path_lines(&mut text, paths);
    let ghost head = text@;
    proof {
        assert(head =~= vtk_head(title@, "POLYDATA"@) + "POINTS "@ + decimal(point_count(paths@))
            + " double\n"@ + flat(path_point_lines(fixed_points(*coords, 12), paths@)) + "LINES "@
            + decimal(paths@.len()) + " "@ + decimal(point_count(paths@) + paths@.len()) + "\n"@
            + flat(path_lines(paths@)));
    }
    if cell_scalar_fields.len() > 0 {
        text.append("CELL_DATA ");
        push_decimal(&mut text, paths.len());
        text.append("\n");
        push_scalar_blocks(&mut text, cell_scalar_fields);
    }
    Ok(text)
}

/// The points of paths, one path on each line.
pub open spec fn path_connectivity(paths: Seq<&[usize]>) -> Seq<Seq<char>> {
    Seq::new(
        paths.len(),
        |i: int|
            indent() + flat(
                number_words(consecutive(point_count(paths.take(i)), paths[i]@.len())),
            ).push('\n'),
    )
}

/// Where the points of each path end.
pub open spec fn path_offsets(paths: Seq<&[usize]>) -> Seq<nat> {
    Seq::new(paths.len(), |i: int| point_count(paths.take(i + 1)))
}

fn push_consecutive(text: &mut String, offset: u128, len: usize)
    requires
        offset + len <= u128::MAX,
    ensures
        final(text)@ == old(text)@ + flat(number_words(consecutive(offset as nat, len as nat))),
{
    let ghost before = text@;
    let ghost words = number_words(consecutive(offset as nat, len as nat));
    let mut i: usize = 0;
    proof {
        flat_ends(words);
    }
    while i < len
        invariant
            i <= len,
            offset + len <= u128::MAX,
            words == number_words(consecutive(offset as nat, len as nat)),
            text@ =~= before + flat(words.take(i as int)),
        decreases len - i,
    {
        let ghost here = text@;
        push_large(text, offset + i as u128);
        text.push(' ');
        proof {
            flat_step(words, i as int);
            assert(text@ =~= here + words[i as int]);
        }
        i = i + 1;
    }
    proof {
        flat_ends(words);
    }
}

fn push_path_connectivity(text: &mut String, paths: &[&[usize]])
    ensures
        final(text)@ == old(text)@ + flat(path_connectivity(paths@)),
{
    let ghost before = text@;
    let ghost lines = path_connectivity(paths@);
    let mut offset: u128 = 0;
    let mut i: usize = 0;
    proof {
        flat_ends(lines);
    }
    while i < paths.len()
        invariant
            i <= paths@.len(),
            lines == path_connectivity(paths@),
            offset == point_count(paths@.take(i as int)),
            offset <= count_limit(i as int),
            text@ =~= before + flat(lines.take(i as int)),
        decreases paths@.len() - i,
    {
        let ghost here = text@;
        let len: usize = paths[i].len();
        proof {
            lemma_point_count_step(paths@, i as int);
            lemma_count_limit(i as int);
        }
        text.append("          ");
        push_consecutive(text, offset, len);
        text.push('\n');
        offset = offset + len as u128;
        proof {
            flat_step(lines, i as int);
            assert(text@ =~= here + lines[i as int]);
        }
        i = i + 1;
    }
    proof {
        flat_ends(lines);
    }
}

fn push_path_offsets(text: &mut String, paths: &[&[usize]])
    ensures
        final(text)@ == old(text)@ + offsets_array(path_offsets(paths@)),
{
    let ghost before = text@;
    text.append("        <DataArray type=\"Int64\" Name=\"offsets\" format=\"ascii\">\n          ");
    let ghost head = text@;
    let ghost words = number_words(path_offsets(paths@));
    let mut offset: u128 = 0;
    let mut i: usize = 0;
    proof {
        flat_ends(words);
    }
    while i < paths.len()
        invariant
            i <= paths@.len(),
            words == number_words(path_offsets(paths@)),
            offset == point_count(paths@.take(i as int)),
            offset <= count_limit(i as int),
            text@ =~= head + flat(words.take(i as int)),
        decreases paths@.len() - i,
    {
        let ghost here = text@;
        let len: usize = paths[i].len();
        proof {
            lemma_point_count_step(paths@, i as int);
            lemma_count_limit(i as int);
        }
        offset = offset + len as u128;
        push_large(text, offset);
        text.push(' ');
        proof {
            flat_step(words, i as int);
            assert(text@ =~= here + words[i as int]);
        }
        i = i + 1;
    }
    proof {
        flat_ends(words);
    }
    text.append("\n        </DataArray>\n");
    proof {
        assert(text@ =~= before + offsets_array(path_offsets(paths@)));
    }
}

/// The file of paths with scalar fields as a grid of lines.
pub open spec fn polyline_vtu<T: Scalar>(
    coords: MeshCoords<T>,
    paths: Seq<&[usize]>,
    fields: Seq<(Seq<char>, Seq<T>)>,
) -> Seq<char> {
    vtu_open(point_count(paths), paths.len()) + data_section::<T>(
        "PointData"@,
        Seq::empty(),
        Seq::empty(),
    ) + data_section("CellData"@, fields, Seq::empty()) + points_open() + flat(
        path_point_lines(point_lines(coords), paths),
    ) + points_close() + cells_open() + flat(path_connectivity(paths)) + array_end()
        + offsets_array(path_offsets(paths)) + types_array(3, paths.len()) + "      </Cells>\n"@
        + vtu_close()
}

/// The file of paths with scalar fields as a grid of lines. The points of each path are listed
/// on their own, as in the legacy format.
pub fn write_polyline_vtu_fields<T: Scalar>(
    _title: &str,
    coords: &MeshCoords<T>,
    paths: &[&[usize]],
    cell_scalar_fields: &[(&str, &[T])],
) -> (file: Result<String, ExportError>)
    requires
        coords.wf(),
    ensures
        match polyline_fault(*coords, paths@, cell_scalar_fields@) {
            Some(message) => file matches Err(e) && invalid(e, message),
            None => file matches Ok(text) && text@ == polyline_vtu(
                *coords,
                paths@,
                field_views(cell_scalar_fields@),
            ),
        },
{
    match check_polylines(coords, paths, cell_scalar_fields) {
        Ok(()) => {},
        Err(e) => {
            return Err(e);
        },
    }
    let total: u128 = count_points(paths);
    let no_scalars: [(&str, &[T]); 0] = [];
    let no_vectors: [(&str, &[[T; 3]]); 0] = [];
    proof {
        assert(field_views(no_scalars@) =~= Seq::<(Seq<char>, Seq<T>)>::empty());
        assert(field_views(no_vectors@) =~= Seq::<(Seq<char>, Seq<[T; 3]>)>::empty());
    }
    let mut text = String::new();
    push_vtu_open(&mut text, total, paths.len());
    push_data_section(&mut text, "PointData", no_scalars.as_slice(), no_vectors.as_slice());
    push_data_section(&mut text, "CellData", cell_scalar_fields, no_vectors.as_slice());
    text.append(
        "      <Points>\n        <DataArray type=\"Float64\" NumberOfComponents=\"3\" format=\"ascii\">\n",
    );
    push_all_path_points(&mut text, coords, paths, true);
    text.append("        </DataArray>\n      </Points>\n");
    text.append(
        "      <Cells>\n        <DataArray type=\"Int64\" Name=\"connectivity\" format=\"ascii\">\n",
    );
    push_path_connectivity(&mut text, paths);
    text.append("        </DataArray>\n");
    push_path_offsets(&mut text, paths);
    push_types_array(&mut text, 3, paths.len());
    text.append("      </Cells>\n");
    text.append("    </Piece>\n  </UnstructuredGrid>\n</VTKFile>\n");
    proof {
        assert(text@ =~= polyline_vtu(*coords, paths@, field_views(cell_scalar_fields@)));
    }
    Ok(text)
}

} // verus!
