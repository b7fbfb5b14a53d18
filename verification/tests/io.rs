#![allow(dead_code)]

use formoniq::io::fields::MeshCoords;
use formoniq::linalg::dense::DenseMatrix;
use formoniq::linalg::scalar::Scalar;
use formoniq::linalg::sparse::CooMatrix;
use formoniq::operators::elements::SimplexGeometry;
use formoniq::operators::weights::SimplexQuadRule;
use formoniq::topology::complex::Complex;
use formoniq::topology::simplex::Simplex;
use formoniq::topology::skeleton::Skeleton;
use formoniq::exterior::{exterior_basis, precompose_form, ExteriorElement};
use formoniq::io::fields::{vtk_cell_type, write_cochain, Cochain, ExportError};
use formoniq::io::gmsh::{
    contents2coord_cells, contents2coord_complex, gmsh2coord_cells, gmsh2coord_complex, MshContents, MshElementBlock, MshElementKind,
    MshNodeBlock,
};
use formoniq::io::gmsh_text::node_section;
use formoniq::io::polyline::{write_polyline_vtk_fields, write_polyline_vtu_fields};
use formoniq::io::sampling::{sample_1form_cell_vectors, sample_2form_cell_vectors};
use formoniq::io::vtk::{
    write_1form_vector_field_vtk, write_1form_vector_proxy_vtk,
    write_1form_vector_proxy_vtk_fields, write_2form_vector_field_vtk, write_cochain_vtk,
    write_cochain_vtk_fields, write_top_cell_vtk_fields,
};
use formoniq::io::vtu::{
    write_1form_vector_field_vtu, write_1form_vector_proxy_vtu,
    write_1form_vector_proxy_vtu_fields, write_2form_vector_field_vtu, write_cochain_vtu,
    write_cochain_vtu_fields, write_top_cell_vtu_fields, xml_escape,
};
use formoniq::linalg::petsc_paths::{
    petsc_solver_binaries_exist, resolve_petsc_solver_path, search_petsc_solver_from,
    search_relative_path_upwards, solver_binaries, SolverPath,
};
use formoniq::mixed_bc_hodge_laplacian_convergence;
use formoniq::numerals::{integer_number, unsigned_number};
use formoniq::sparse_inverse_hodge_validation::{
    exact_dif_coeff, exact_shifted_source_coeffs, exact_solution_coeffs, expand_reduced_solution,
    push_row, scalar_factor, scalar_factor_hodge_laplacian, summary, table_header, table_row,
    RowErrors, SparseInverseHodgeValidationConfig,
};
use formoniq::text::{decimal_string, fixed_point_string, power_of_ten_string};
use formoniq::torus_convergence;

type Mat = nalgebra::DMatrix<f64>;

/// Machine reals as coefficients.
#[derive(Clone, Copy, Debug, PartialEq, PartialOrd)]
struct Real(f64);

impl Scalar for Real {
    fn zero() -> Self {
        Real(0.0)
    }
    fn one() -> Self {
        Real(1.0)
    }
    fn plus(self, other: Self) -> Self {
        Real(self.0 + other.0)
    }
    fn minus(self, other: Self) -> Self {
        Real(self.0 - other.0)
    }
    fn times(self, other: Self) -> Self {
        Real(self.0 * other.0)
    }
    fn negated(self) -> Self {
        Real(-self.0)
    }
    fn over(self, other: Self) -> Self {
        Real(self.0 / other.0)
    }
    fn is_zero(self) -> bool {
        self.0 == 0.0
    }
    fn is_finite(self) -> bool {
        self.0.is_finite()
    }
    fn is_below(self, other: Self) -> bool {
        self.0 < other.0
    }
    fn is_at_most(self, other: Self) -> bool {
        self.0 <= other.0
    }
    fn from_count(n: u64) -> Self {
        Real(n as f64)
    }
    fn from_word(word: u64) -> Self {
        Real(f64::from_bits(word))
    }
    fn infinity() -> Self {
        Real(f64::INFINITY)
    }
    fn square_root(self) -> Self {
        Real(self.0.sqrt())
    }
    fn hypot(self, other: Self) -> Self {
        Real(self.0.hypot(other.0))
    }
    fn logarithm(self) -> Self {
        Real(self.0.ln())
    }
    fn display(self) -> String {
        format!("{}", self.0)
    }
    fn fixed(self, digits: usize) -> String {
        format!("{:.*}", digits, self.0)
    }
    fn parsed(text: &str) -> Option<Self> {
        text.parse::<f64>().ok().map(Real)
    }
    fn scientific(self, digits: usize) -> String {
        format!("{:.*e}", digits, self.0)
    }
}

fn reals(values: &[f64]) -> Vec<Real> {
    values.iter().map(|&v| Real(v)).collect()
}

fn floats(values: &[Real]) -> Vec<f64> {
    values.iter().map(|v| v.0).collect()
}

fn dense(m: &DenseMatrix<Real>) -> Mat {
    Mat::from_fn(m.nrows(), m.ncols(), |i, j| m.get(i, j).0)
}

fn from_dense(m: &Mat) -> DenseMatrix<Real> {
    let values = (0..m.nrows())
        .flat_map(|i| (0..m.ncols()).map(move |j| (i, j)))
        .map(|(i, j)| Real(m[(i, j)]))
        .collect();
    DenseMatrix::from_rows(m.nrows(), m.ncols(), values)
}

fn coo(m: &CooMatrix<Real>) -> Mat {
    let mut dense = Mat::zeros(m.nrows(), m.ncols());
    for &(r, c, v) in m.triplets() {
        dense[(r, c)] += v.0;
    }
    dense
}

fn close(a: f64, b: f64, epsilon: f64, max_relative: f64) -> bool {
    let gap = (a - b).abs();
    a == b || gap <= epsilon || gap <= max_relative * a.abs().max(b.abs())
}

fn assert_close(a: &Mat, b: &Mat, tolerance: f64) {
    assert_eq!(a.shape(), b.shape());
    for (x, y) in a.iter().zip(b.iter()) {
        assert!(close(*x, *y, tolerance, tolerance), "{x} against {y}");
    }
}

/// Permutations of the axes.
fn permutations(n: usize) -> Vec<Vec<usize>> {
    if n == 0 {
        return vec![vec![]];
    }
    let mut all = Vec::new();
    for rest in permutations(n - 1) {
        for at in 0..n {
            let mut p = rest.clone();
            p.insert(at, n - 1);
            all.push(p);
        }
    }
    all
}

/// The unit cube divided into boxes, each box into simplices along the paths of its edges.
fn cartesian(dim: usize, n: usize) -> (Complex, MeshCoords<Real>) {
    let side = n + 1;
    let index = |at: &[usize]| at.iter().rev().fold(0, |acc, x| acc * side + x);
    let count = side.pow(dim as u32);
    let coords = (0..count)
        .map(|mut i| {
            (0..dim)
                .map(|_| {
                    let x = i % side;
                    i /= side;
                    Real(x as f64 / n as f64)
                })
                .collect()
        })
        .collect();
    let mut cells = Vec::new();
    for b in 0..n.pow(dim as u32) {
        let mut rest = b;
        let corner: Vec<usize> = (0..dim)
            .map(|_| {
                let x = rest % n;
                rest /= n;
                x
            })
            .collect();
        for p in permutations(dim) {
            let mut at = corner.clone();
            let mut vertices = vec![index(&at)];
            for axis in p {
                at[axis] += 1;
                vertices.push(index(&at));
            }
            cells.push(Simplex::new(vertices).sorted());
        }
    }
    let complex = Complex::from_cells(Skeleton::new(cells));
    (complex, MeshCoords { dim, coords })
}

/// The reference simplex as a mesh.
fn standard(dim: usize) -> (Complex, MeshCoords<Real>) {
    let coords = (0..=dim)
        .map(|v| (0..dim).map(|axis| Real(if v == axis + 1 { 1.0 } else { 0.0 })).collect())
        .collect();
    (Complex::standard(dim), MeshCoords { dim, coords })
}

/// The edges of a simplex from its first vertex, one in each column.
fn jacobian(vertices: &[usize], coords: &MeshCoords<Real>) -> Mat {
    Mat::from_fn(coords.dim, vertices.len() - 1, |i, j| {
        coords.coords[vertices[j + 1]][i].0 - coords.coords[vertices[0]][i].0
    })
}

fn geometry_of(jacobian: &Mat) -> SimplexGeometry<Real> {
    let dim = jacobian.ncols();
    let metric = jacobian.transpose() * jacobian;
    let factorial = (1..=dim).product::<usize>() as f64;
    SimplexGeometry {
        dim,
        volume: Real(metric.determinant().sqrt() / factorial),
        inverse_metric: from_dense(&metric.try_inverse().unwrap()),
    }
}

fn standard_geometry(dim: usize) -> SimplexGeometry<Real> {
    geometry_of(&Mat::identity(dim, dim))
}

fn geometries(complex: &Complex, coords: &MeshCoords<Real>) -> Vec<SimplexGeometry<Real>> {
    let dim = complex.dim();
    (0..complex.nsimplices(dim))
        .map(|i| geometry_of(&jacobian(&complex.simplex_at(dim, i).vertices, coords)))
        .collect()
}

/// A rule that is exact for cubic polynomials.
fn order3(dim: usize) -> SimplexQuadRule<Real> {
    let (points, weights): (Vec<Vec<f64>>, Vec<f64>) = match dim {
        0 => (vec![vec![]], vec![1.0]),
        1 => (
            vec![vec![0.0], vec![0.5], vec![1.0]],
            vec![1.0 / 6.0, 4.0 / 6.0, 1.0 / 6.0],
        ),
        2 => (
            vec![
                vec![1.0 / 3.0, 1.0 / 3.0],
                vec![0.2, 0.2],
                vec![0.6, 0.2],
                vec![0.2, 0.6],
            ],
            vec![-27.0 / 48.0, 25.0 / 48.0, 25.0 / 48.0, 25.0 / 48.0],
        ),
        _ => {
            let s = 1.0 / 6.0;
            (
                vec![
                    vec![0.25, 0.25, 0.25],
                    vec![s, s, s],
                    vec![0.5, s, s],
                    vec![s, 0.5, s],
                    vec![s, s, 0.5],
                ],
                vec![-0.8, 0.45, 0.45, 0.45, 0.45],
            )
        }
    };
    SimplexQuadRule {
        dim,
        points: points.iter().map(|p| reals(p)).collect(),
        weights: reals(&weights),
    }
}

fn constant(dim: usize, n: usize, value: f64) -> Cochain<Real> {
    Cochain { dim, coeffs: reals(&vec![value; n]) }
}

fn embedded(coords: &MeshCoords<Real>) -> MeshCoords<Real> {
    let points = coords.coords.iter().map(|p| vec![p[0], p[1], Real(0.0)]).collect();
    MeshCoords { dim: 3, coords: points }
}

/// The maps of the forms of the reference simplex to the space around the mesh.
fn lifts(complex: &Complex, coords: &MeshCoords<Real>, grade: usize) -> Vec<DenseMatrix<Real>> {
    let dim = complex.dim();
    (0..complex.nsimplices(dim))
        .map(|cell| {
            let j = jacobian(&complex.simplex_at(dim, cell).vertices, coords);
            let inverse = from_dense(&j.pseudo_inverse(1e-12).unwrap());
            let inside = exterior_basis(dim, grade).len();
            let columns: Vec<Vec<f64>> = (0..inside)
                .map(|b| {
                    let mut coeffs = vec![Real(0.0); inside];
                    coeffs[b] = Real(1.0);
                    let form = ExteriorElement::new(coeffs, dim, grade);
                    floats(precompose_form(&form, &inverse).coeffs())
                })
                .collect();
            from_dense(&Mat::from_fn(columns[0].len(), inside, |i, j| columns[j][i]))
        })
        .collect()
}

fn complaint(error: ExportError) -> String {
    match error {
        ExportError::InvalidInput(text) => text,
        ExportError::Other(text) => text,
    }
}

#[test]
fn write_1form_vector_proxy_vtk_smoke() {
    let (topology, coords) = cartesian(2, 1);
    let cochain = constant(1, topology.nsimplices(1), 1.0);
    write_1form_vector_proxy_vtk(&coords, &topology, &cochain, "proxy").unwrap();
    write_1form_vector_proxy_vtu(&coords, &topology, &cochain, "proxy").unwrap();
}

#[test]
fn write_1form_vector_proxy_vtk_fields_writes_vectors_and_scalars() {
    let (topology, coords) = cartesian(2, 1);
    let vector = constant(1, topology.nsimplices(1), 1.0);
    let weight = constant(1, topology.nsimplices(1), 0.25);

    let content = write_1form_vector_proxy_vtk_fields(
        &coords,
        &topology,
        "proxy",
        &vector,
        &[("weight", &weight)],
    )
    .unwrap();
    assert!(content.contains("VECTORS proxy double"));
    assert!(content.contains("SCALARS weight double 1"));
}

#[test]
fn write_1form_vector_field_vtk_embedded_surface_smoke() {
    let (topology, coords_2d) = standard(2);
    let coords = embedded(&coords_2d);
    let cochain = constant(1, topology.nsimplices(1), 1.0);

    let content = write_1form_vector_field_vtk(
        &coords,
        &topology,
        &cochain,
        &lifts(&topology, &coords, 1),
        "embedded",
    )
    .unwrap();
    let lines: Vec<&str> = content.lines().collect();
    let vectors_idx =
        lines.iter().position(|line| line.trim() == "VECTORS embedded double").unwrap();
    let comps: Vec<f64> = lines[vectors_idx + 1]
        .split_whitespace()
        .map(|value| value.parse::<f64>().unwrap())
        .collect();
    assert_eq!(comps.len(), 3);
    assert!(comps.iter().all(|value| value.is_finite()));
    assert!(comps[2].abs() < 1e-10);
}

#[test]
fn sample_1form_cell_vectors_embedded_surface_smoke() {
    let (topology, coords_2d) = standard(2);
    let coords = embedded(&coords_2d);
    let cochain = constant(1, topology.nsimplices(1), 1.0);

    let lifts = lifts(&topology, &coords, 1);
    let vectors = sample_1form_cell_vectors(&coords, &topology, &cochain, &lifts).unwrap();
    assert_eq!(vectors.len(), topology.cells().len());
    assert!(vectors.iter().flat_map(|vector| vector.iter()).all(|value| value.0.is_finite()));

    // The form with values 1, 2 and 1 on the edges is dx + 2 dy.
    let cochain = Cochain { dim: 1, coeffs: reals(&[1.0, 2.0, 1.0]) };
    let vectors = sample_1form_cell_vectors(&coords, &topology, &cochain, &lifts).unwrap();
    assert!(close(vectors[0][0].0, 1.0, 1e-12, 0.0));
    assert!(close(vectors[0][1].0, 2.0, 1e-12, 0.0));
    assert!(close(vectors[0][2].0, 0.0, 1e-12, 0.0));

    let wrong = constant(2, 1, 1.0);
    let refused = sample_1form_cell_vectors(&coords, &topology, &wrong, &lifts);
    assert_eq!(complaint(refused.err().unwrap()), "Expected a 1-cochain, got dim 2");
}

#[test]
fn sample_2form_cell_vectors_3d_smoke() {
    let (topology, coords) = cartesian(3, 1);
    let cochain = constant(2, topology.nsimplices(2), 1.0);
    let lifts = lifts(&topology, &coords, 2);

    let vectors = sample_2form_cell_vectors(&coords, &topology, &cochain, &lifts).unwrap();
    assert_eq!(vectors.len(), topology.cells().len());
    assert!(vectors.iter().flat_map(|vector| vector.iter()).all(|value| value.0.is_finite()));

    let (surface, flat) = cartesian(2, 1);
    let refused =
        sample_2form_cell_vectors(&flat, &surface, &constant(2, surface.nsimplices(2), 1.0), &[]);
    assert_eq!(
        complaint(refused.err().unwrap()),
        "sample_2form_cell_vectors supports 3D meshes only"
    );
}

#[test]
fn write_top_cell_vtk_fields_writes_multiple_vectors_and_scalars() {
    let (topology, coords) = cartesian(2, 1);
    let cell_count = topology.cells().len();
    let mean_vectors = vec![[Real(1.0), Real(0.0), Real(0.5)]; cell_count];
    let auxiliary_vectors = vec![[Real(0.25), Real(0.5), Real(0.75)]; cell_count];
    let magnitude = reals(&vec![1.5; cell_count]);

    let content = write_top_cell_vtk_fields(
        &coords,
        &topology,
        &[
            ("mean_vector", mean_vectors.as_slice()),
            ("auxiliary_vector", auxiliary_vectors.as_slice()),
        ],
        &[("magnitude", magnitude.as_slice())],
    )
    .unwrap();
    assert!(content.contains("VECTORS mean_vector double"));
    assert!(content.contains("VECTORS auxiliary_vector double"));
    assert!(content.contains("SCALARS magnitude double 1"));
}

#[test]
fn write_top_cell_vtk_fields_writes_scalar_only_fields() {
    let (topology, coords) = cartesian(2, 1);
    let scalar = reals(&vec![0.5; topology.cells().len()]);

    let content = write_top_cell_vtk_fields(
        &coords,
        &topology,
        &[],
        &[("scalar", scalar.as_slice())],
    )
    .unwrap();
    assert!(content.contains("CELL_DATA"));
    assert!(content.contains("SCALARS scalar double 1"));

    let short = reals(&[0.5]);
    let refused =
        write_top_cell_vtk_fields(&coords, &topology, &[], &[("scalar", short.as_slice())]);
    assert!(refused.is_err());
}

#[test]
fn write_cochain_vtk_fields_writes_multiple_scalars() {
    let (topology, coords) = cartesian(2, 1);
    let edge_count = topology.nsimplices(1);
    let first = constant(1, edge_count, 1.0);
    let second = constant(1, edge_count, 2.0);

    let content = write_cochain_vtk_fields(
        &coords,
        &topology,
        1,
        &[("first", &first), ("second", &second)],
    )
    .unwrap();
    assert!(content.contains("CELL_DATA"));
    assert!(content.contains("SCALARS first double 1"));
    assert!(content.contains("SCALARS second double 1"));

    let short = constant(1, 2, 1.0);
    assert!(write_cochain_vtk_fields(&coords, &topology, 1, &[("short", &short)]).is_err());
    assert!(write_cochain_vtk_fields(&coords, &topology, 0, &[("first", &first)]).is_err());
}

#[test]
fn write_polyline_vtk_fields_writes_cell_scalars() {
    let (_topology, coords) = cartesian(2, 1);
    let path_a = vec![0, 1];
    let path_b = vec![2, 3];
    let paths = vec![path_a.as_slice(), path_b.as_slice()];
    let cycle_index = reals(&[0.0, 1.0]);

    let content = write_polyline_vtk_fields(
        "polyline fields",
        &coords,
        &paths,
        &[("cycle_index", cycle_index.as_slice())],
    )
    .unwrap();
    assert!(content.contains("DATASET POLYDATA"));
    assert!(content.contains("LINES 2 6"));
    assert!(content.contains("SCALARS cycle_index double 1"));

    let outside = vec![0, 9];
    let refused = write_polyline_vtk_fields("polyline fields", &coords, &[outside.as_slice()], &[]);
    assert!(matches!(refused, Err(ExportError::InvalidInput(_))));
}

#[test]
fn write_cochain_vtk_preserves_tiny_values_in_scientific_notation() {
    let (topology, coords) = cartesian(2, 1);
    let cochain = constant(1, topology.nsimplices(1), 1.0e-15);
    let content = write_cochain_vtk(&coords, &topology, &cochain, "tiny").unwrap();
    assert!(content.contains("1.000000000000e-15"));
}

#[test]
fn write_0cochain_vtu_fields_writes_point_data() {
    let (topology, coords) = cartesian(2, 1);
    let field = constant(0, coords.nvertices(), 2.0);

    let content =
        write_cochain_vtu_fields(&coords, &topology, 0, &[("potential", &field)]).unwrap();
    assert!(content.contains("<VTKFile type=\"UnstructuredGrid\""));
    assert!(content.contains("NumberOfPoints=\"4\""));
    assert!(content.contains("NumberOfCells=\"2\""));
    assert!(content.contains("<PointData Scalars=\"potential\">"));
    assert!(content.contains("Name=\"potential\" NumberOfComponents=\"1\""));
    assert!(content.contains("<CellData/>"));
    assert!(content.contains("Name=\"types\" format=\"ascii\">\n          5 5 "));
}

#[test]
fn write_1cochain_vtu_fields_writes_cell_data_and_tiny_values() {
    let (topology, coords) = cartesian(2, 1);
    let edge_count = topology.nsimplices(1);
    let tiny = constant(1, edge_count, 1.0e-15);
    let other = constant(1, edge_count, 3.0);

    let content = write_cochain_vtu_fields(
        &coords,
        &topology,
        1,
        &[("tiny", &tiny), ("other", &other)],
    )
    .unwrap();
    assert!(content.contains("NumberOfCells=\"5\""));
    assert!(content.contains("<PointData/>"));
    assert!(content.contains("<CellData Scalars=\"tiny\">"));
    assert!(content.contains("Name=\"tiny\" NumberOfComponents=\"1\""));
    assert!(content.contains("Name=\"other\" NumberOfComponents=\"1\""));
    assert!(content.contains("1.000000000000e-15"));
    assert!(content.contains("Name=\"types\" format=\"ascii\">\n          3 3 3 3 3 "));
}

#[test]
fn write_top_cell_vtu_fields_writes_vectors_and_scalars() {
    let (topology, coords) = cartesian(2, 1);
    let cell_count = topology.cells().len();
    let vectors = vec![[Real(1.0), Real(0.0), Real(0.5)]; cell_count];
    let scalar = reals(&vec![0.25; cell_count]);

    let content = write_top_cell_vtu_fields(
        &coords,
        &topology,
        &[("mean_vector", vectors.as_slice())],
        &[("magnitude", scalar.as_slice())],
    )
    .unwrap();
    assert!(content.contains("<CellData Scalars=\"magnitude\" Vectors=\"mean_vector\">"));
    assert!(content.contains("Name=\"mean_vector\" NumberOfComponents=\"3\""));
    assert!(content.contains("Name=\"magnitude\" NumberOfComponents=\"1\""));
    assert!(content.contains("1.000000000000e0 0.000000000000e0 5.000000000000e-1"));
}

#[test]
fn write_1form_vector_proxy_vtu_fields_writes_vectors_and_scalars() {
    let (topology, coords) = cartesian(2, 1);
    let vector = constant(1, topology.nsimplices(1), 1.0);
    let weight = constant(1, topology.nsimplices(1), 0.25);

    let content = write_1form_vector_proxy_vtu_fields(
        &coords,
        &topology,
        "proxy",
        &vector,
        &[("weight", &weight)],
    )
    .unwrap();
    assert!(content.contains("NumberOfCells=\"5\""));
    assert!(content.contains("<CellData Scalars=\"weight\" Vectors=\"proxy\">"));
    assert!(content.contains("Name=\"proxy\" NumberOfComponents=\"3\""));
    assert!(content.contains("Name=\"weight\" NumberOfComponents=\"1\""));
}

#[test]
fn write_1form_vector_field_vtu_writes_top_cell_vectors() {
    let (topology, coords_2d) = standard(2);
    let coords = embedded(&coords_2d);
    let cochain = constant(1, topology.nsimplices(1), 1.0);

    let content = write_1form_vector_field_vtu(
        &coords,
        &topology,
        &cochain,
        &lifts(&topology, &coords, 1),
        "embedded",
    )
    .unwrap();
    assert!(content.contains("<CellData Vectors=\"embedded\">"));
    assert!(content.contains("Name=\"embedded\" NumberOfComponents=\"3\""));
}

#[test]
fn write_2form_vector_field_vtu_writes_top_cell_vectors() {
    let (topology, coords) = cartesian(3, 1);
    let cochain = constant(2, topology.nsimplices(2), 1.0);
    let lifts = lifts(&topology, &coords, 2);

    let content =
        write_2form_vector_field_vtu(&coords, &topology, &cochain, &lifts, "flux").unwrap();
    assert!(content.contains("<CellData Vectors=\"flux\">"));
    assert!(content.contains("Name=\"flux\" NumberOfComponents=\"3\""));
    assert!(content.contains("Name=\"types\" format=\"ascii\">"));
    assert!(content.contains("10 "));

    let content =
        write_2form_vector_field_vtk(&coords, &topology, &cochain, &lifts, "flux").unwrap();
    assert!(content.contains("VECTORS flux double"));
}

#[test]
fn write_polyline_vtu_fields_writes_line_cells_and_cell_scalars() {
    let (_topology, coords) = cartesian(2, 1);
    let path_a = vec![0, 1, 3];
    let path_b = vec![2, 3];
    let paths = vec![path_a.as_slice(), path_b.as_slice()];
    let cycle_index = reals(&[0.0, 1.0]);

    let content = write_polyline_vtu_fields(
        "polyline fields",
        &coords,
        &paths,
        &[("cycle_index", cycle_index.as_slice())],
    )
    .unwrap();
    assert!(content.contains("NumberOfPoints=\"5\""));
    assert!(content.contains("NumberOfCells=\"2\""));
    assert!(content.contains("<CellData Scalars=\"cycle_index\">"));
    assert!(content.contains("Name=\"connectivity\" format=\"ascii\">\n          0 1 2 "));
    assert!(content.contains("Name=\"offsets\" format=\"ascii\">\n          3 5 "));
    assert!(content.contains("Name=\"types\" format=\"ascii\">\n          3 3 "));
}

#[test]
fn cochain_vtk_and_vtu_report_matching_counts() {
    let (topology, coords) = cartesian(2, 1);
    let cochain = constant(1, topology.nsimplices(1), 1.0);

    let vtk = write_cochain_vtk(&coords, &topology, &cochain, "field").unwrap();
    let vtu = write_cochain_vtu(&coords, &topology, &cochain, "field").unwrap();
    assert!(vtk.contains("POINTS 4 double"));
    assert!(vtk.contains("CELLS 5 15"));
    assert!(vtu.contains("NumberOfPoints=\"4\""));
    assert!(vtu.contains("NumberOfCells=\"5\""));
}

#[test]
fn small_texts() {
    assert_eq!(vtk_cell_type(0), Some(1));
    assert_eq!(vtk_cell_type(3), Some(10));
    assert_eq!(vtk_cell_type(4), None);
    assert_eq!(xml_escape("a<b & \"c\">"), "a&lt;b &amp; &quot;c&quot;&gt;");
    let lines = write_cochain(&Cochain { dim: 0, coeffs: vec![3i64, -4] });
    assert_eq!(lines.lines().count(), 2);
    assert_eq!(decimal_string(1024), "1024");
    assert_eq!(fixed_point_string(-7, 2), "-7.00");
    assert_eq!(power_of_ten_string(15, 3), "1.500e1");
    assert_eq!(integer_number("-12"), Some(-12));
    assert_eq!(integer_number("12x"), None);
    assert_eq!(<i64 as Scalar>::parsed("41"), Some(41));
    assert_eq!(<i64 as Scalar>::parsed("4.1"), None);
    let digits: Vec<char> = "184".chars().collect();
    assert_eq!(unsigned_number(&digits), Some(184));
    let digits: Vec<char> = "18446744073709551616".chars().collect();
    assert_eq!(unsigned_number(&digits), None);
}

// Meshes from files.

fn assert_two_triangles(msh: &[u8]) {
    let (skeleton, coords) = gmsh2coord_cells::<Real>(msh).unwrap();
    assert_eq!(coords.dim(), 2);
    assert_eq!(coords.nvertices(), 4);
    assert_eq!(skeleton.len(), 2);
    assert_eq!(skeleton.simplex_by_kidx(0).vertices, vec![0, 1, 2]);
    assert_eq!(skeleton.simplex_by_kidx(1).vertices, vec![0, 2, 3]);
    let points: Vec<Vec<f64>> = coords.coords.iter().map(|p| floats(p)).collect();
    assert_eq!(
        points,
        vec![vec![0.0, 0.0], vec![1.0, 0.0], vec![0.0, 1.0], vec![1.0, 1.0]]
    );
}

#[test]
fn parses_contiguous_node_tags_that_are_shuffled_across_blocks() {
    let msh = br#"$MeshFormat
4.1 0 8
$EndMeshFormat
$Nodes
2 4 1 4
2 1 0 2
1
4
0 0 0
1 1 0
2 2 0 2
2
3
1 0 0
0 1 0
$EndNodes
$Elements
1 2 1 2
2 1 2 2
1 1 2 3
2 1 3 4
$EndElements
"#;
    assert_two_triangles(msh);
}

#[test]
fn parses_sparse_node_tags_without_assuming_tag_minus_one_indexing() {
    let msh = br#"$MeshFormat
4.1 0 8
$EndMeshFormat
$Nodes
1 4 10 40
2 1 0 4
10
40
20
30
0 0 0
1 1 0
1 0 0
0 1 0
$EndNodes
$Elements
1 2 1 2
2 1 2 2
1 10 20 30
2 10 30 40
$EndElements
"#;
    assert_two_triangles(msh);
}

#[test]
fn node_section_is_read_from_text_only() {
    let section = node_section(b"$Nodes 1 1 7 7 0 1 0 1 7 1.5 2 -3e0 $EndNodes").unwrap();
    assert_eq!(section.tags, vec![7]);
    assert_eq!(section.coordinates, vec!["1.5", "2", "-3e0"]);
    // Bytes that are no text, sections that do not end, and blocks with parameters.
    assert!(node_section(b"$Nodes 1 1 7 7 0 1 0 1 7 1.5 2 3 $EndNodes \xff\xfe").is_none());
    assert!(node_section(b"$Nodes 1 1 7 7 0 1 0 1 7 1.5 2 3").is_none());
    assert!(node_section(b"$Nodes 1 1 7 7 0 1 1 1 7 1.5 2 3 $EndNodes").is_none());
    assert!(node_section(b"$Nodes 1 2 7 7 0 1 0 1 7 1.5 2 3 $EndNodes").is_none());
    assert!(node_section("$Nodes\u{a0}1 1 7 7 0 1 0 1 7 1 2 3 $EndNodes".as_bytes()).is_some());
}

fn tagged(tags: &[u64]) -> MshNodeBlock<Real> {
    MshNodeBlock {
        node_tags: Some(tags.iter().enumerate().map(|(i, &tag)| (tag, i)).collect()),
        nodes: tags.iter().map(|&tag| [Real(tag as f64), Real(1.0), Real(2.0)]).collect(),
    }
}

fn lines(elements: &[[u64; 2]]) -> MshElementBlock {
    MshElementBlock {
        kind: MshElementKind::Line,
        elements: elements.iter().map(|e| e.to_vec()).collect(),
    }
}

#[test]
fn meshes_come_from_the_contents_where_the_text_has_no_nodes() {
    let untagged = MshContents {
        min_node_tag: 5,
        node_blocks: vec![MshNodeBlock {
            node_tags: None,
            nodes: vec![[Real(0.0), Real(0.0), Real(1.0)], [Real(1.0), Real(0.0), Real(1.0)]],
        }],
        element_blocks: vec![lines(&[[6, 5]])],
    };
    let (complex, coords) = contents2coord_complex(b"\xff", &untagged).unwrap();
    assert_eq!(complex.dim(), 1);
    assert_eq!(complex.simplex_at(1, 0).vertices, vec![0, 1]);
    assert_eq!(coords.dim(), 3);

    let by_tag = MshContents {
        min_node_tag: 3,
        node_blocks: vec![tagged(&[9, 3])],
        element_blocks: vec![lines(&[[9, 3]])],
    };
    let (_cells, coords) = contents2coord_cells(b"", &by_tag).unwrap();
    assert_eq!(coords.coords[0][0].0, 3.0);
    assert_eq!(coords.coords[1][0].0, 9.0);
}

#[test]
fn meshes_that_cannot_be_read_are_refused() {
    let complaint = |node_blocks, element_blocks| {
        let contents = MshContents { min_node_tag: 1, node_blocks, element_blocks };
        contents2coord_complex::<Real>(b"", &contents).err().unwrap()
    };
    let bare = MshNodeBlock { node_tags: None, nodes: vec![[Real(0.0); 3]] };
    assert_eq!(
        complaint(vec![tagged(&[1]), bare], vec![]),
        "mixed Gmsh node-tag layouts are unsupported"
    );
    assert_eq!(complaint(vec![], vec![]), "At least one column must be given.");
    assert_eq!(
        complaint(vec![tagged(&[1, 2])], vec![lines(&[[1, 8]])]),
        "missing node tag 8 in Gmsh node map"
    );
    assert_eq!(
        complaint(vec![tagged(&[1, 2])], vec![]),
        "Failed to construct Triangulation from gmsh."
    );
    assert_eq!(
        complaint(vec![tagged(&[1, 2, 3, 4])], vec![lines(&[[1, 2], [1, 3], [1, 4]])]),
        "Topology must be manifold."
    );
}

// Solver directories.

#[test]
fn relative_petsc_solver_override_resolves_to_release_source_directory() {
    // Nothing is built; the directory exists two levels above the second start.
    let none = vec![vec![false; 3], vec![false; 4]];
    let existing = vec![vec![false; 3], vec![false, false, true, true]];
    let choice = resolve_petsc_solver_path(false, false, &none, &existing);
    assert_eq!(choice, SolverPath::Above(1, 2));
}

#[test]
fn solver_directories_with_programs_come_first() {
    assert_eq!(solver_binaries(), ["ghiep.out", "ghep_reduced.out", "hils.out"]);
    assert!(petsc_solver_binaries_exist([true; 3]));
    assert!(!petsc_solver_binaries_exist([true, false, true]));
    assert_eq!(search_petsc_solver_from(&[false, true], &[true, true]), Some(1));
    assert_eq!(search_petsc_solver_from(&[false, false], &[true, true]), Some(0));
    assert_eq!(search_petsc_solver_from(&[false], &[false]), None);
    let built = vec![vec![false], vec![true]];
    let existing = vec![vec![true], vec![true]];
    assert_eq!(search_relative_path_upwards(&built, &existing), Some((1, 0)));
    assert_eq!(resolve_petsc_solver_path(true, false, &built, &existing), SolverPath::Given);
    assert_eq!(resolve_petsc_solver_path(false, true, &built, &existing), SolverPath::Given);
    assert_eq!(
        resolve_petsc_solver_path(false, false, &[vec![false]], &[vec![false]]),
        SolverPath::Given
    );
}

// Convergence studies.

#[test]
fn torus_study_writes_its_table() {
    assert!(torus_convergence::check_resolutions(&[]).is_err());
    assert!(torus_convergence::check_resolutions(&[4, 8]).is_ok());
    let mut records = Vec::new();
    for (resolution, h, error) in [(4, 0.5, 0.4), (8, 0.25, 0.1)] {
        torus_convergence::push_record(
            &mut records,
            resolution,
            Real(h),
            Real(error),
            Real(2.0 * error),
            Real(1.0),
        );
    }
    assert!(!records[0].l2_rate.0.is_finite());
    assert!(close(records[1].l2_rate.0, 2.0, 1e-12, 0.0));
    assert!(close(records[1].hd_rate.0, 2.0, 1e-12, 0.0));
    let table = torus_convergence::write_convergence_csv(&records);
    assert_eq!(table.lines().count(), 3);
    assert!(table.lines().nth(2).unwrap().starts_with("8,"));
    assert_eq!(torus_convergence::resolution_output_dir("out", 8), "out/resolution_8");
    assert_eq!(
        torus_convergence::torus_mesh_name(8),
        "meshes/torus_shell_resolution_8.msh"
    );
}

#[test]
fn mixed_bc_study_names_its_outputs_and_faces() {
    let mut results = Vec::new();
    mixed_bc_hodge_laplacian_convergence::push_record(
        &mut results,
        1,
        Real(1.0),
        5,
        Real(0.3),
        Real(0.5),
        Real(0.01),
    );
    assert_eq!(results.len(), 1);
    let record = &results[0];
    assert!(record.h.0.is_finite() && record.h.0 > 0.0);
    assert!(record.hd_error.0 >= record.l2_error.0);

    let csv = mixed_bc_hodge_laplacian_convergence::write_convergence_csv(&results);
    assert!(csv.contains("resolution,h,u_dofs,l2_error,l2_rate,hd_error,hd_rate,wall_seconds"));
    assert_eq!(csv.lines().count(), 2);
    assert!(mixed_bc_hodge_laplacian_convergence::convergence_csv_output_path("out")
        .starts_with("out/"));
    assert!(mixed_bc_hodge_laplacian_convergence::check_resolutions(&[]).is_err());
    let strong = |p: [f64; 3]| {
        mixed_bc_hodge_laplacian_convergence::strong_dof_predicate(&reals(&p))
    };
    assert!(strong([0.0, 0.5, 0.5]));
    assert!(strong([0.5, 0.5, 0.0]));
    assert!(!strong([1.0, 0.5, 0.5]));
}

fn errors(scale: f64) -> RowErrors<Real> {
    let e = Real(scale);
    RowErrors {
        mixed_l2: e,
        mixed_hd: e,
        nc1_l2: e,
        nc1_hd: e,
        rowsum_l2: e,
        rowsum_hd: e,
        bary_l2: e,
        bary_hd: e,
        mixed_nc1_l2: e,
        mixed_rowsum_l2: e,
        mixed_bary_l2: e,
    }
}

#[test]
fn validation_study_writes_its_summary() {
    let mut rows = Vec::new();
    push_row(&mut rows, 0, 1, errors(0.5));
    push_row(&mut rows, 1, 2, errors(0.125));
    assert!(rows[0].mixed_l2_rate.0.is_infinite());
    assert!(close(rows[1].mixed_l2_rate.0, 2.0, 1e-12, 0.0));
    assert!(table_header().starts_with("|  k |     n |   mixed L2 |   rate |"));
    assert!(table_row(&rows[1]).starts_with("|  1 |     2 |    1.25e-1 |   2.00 |"));
    let config = SparseInverseHodgeValidationConfig::default();
    let text = summary(&config, Real(1.0), &rows);
    assert!(text.ends_with(&format!("{}\n", table_row(&rows[1]))));
    assert!(text.contains(&table_header()));
}

#[test]
fn validation_study_formulas() {
    let sines = [Real(0.5), Real(1.0), Real(2.0)];
    let double_cosines = [Real(0.25), Real(0.5), Real(1.0)];
    assert_eq!(scalar_factor(sines).0, 1.0);
    let laplacian = scalar_factor_hodge_laplacian(sines, double_cosines).0;
    assert!(close(laplacian, -2.0 * (0.25 * 4.0 + 0.5 * 0.25 * 4.0 + 0.25), 1e-12, 0.0));
    let solution = exact_solution_coeffs(sines);
    let source = exact_shifted_source_coeffs(sines, double_cosines, Real(3.0));
    for (s, f) in solution.iter().zip(&source) {
        assert!(s.0.is_finite() && f.0.is_finite());
    }
    assert!(exact_dif_coeff(sines, sines).0.is_finite());
    let full = expand_reduced_solution(&reals(&[7.0, 8.0]), &[false, true, false]);
    assert_eq!(floats(&full), vec![7.0, 0.0, 8.0]);
}

fn word(value: u64) -> [u8; 8] {
    value.to_le_bytes()
}

/// A binary file with two triangles, and with the given numbers of nodes and elements in the
/// heads of their sections.
fn binary_mesh(size: &str, nnodes: u64, nelements: u64) -> Vec<u8> {
    let mut file: Vec<u8> = Vec::new();
    file.extend(format!("$MeshFormat\n4.1 1 {size}\n").as_bytes());
    file.extend(1i32.to_le_bytes());
    file.extend(b"\n$EndMeshFormat\n$Nodes\n");
    for value in [1, nnodes, 1, 9] {
        file.extend(word(value));
    }
    for value in [2i32, 1, 0] {
        file.extend(value.to_le_bytes());
    }
    file.extend(word(4));
    for tag in [9, 1, 5, 7] {
        file.extend(word(tag));
    }
    let points = [[1.0f64, 1.0, 0.0], [0.0, 0.0, 0.0], [1.0, 0.0, 0.0], [0.0, 1.0, 0.0]];
    for point in points {
        for x in point {
            file.extend(x.to_le_bytes());
        }
    }
    file.extend(b"\n$EndNodes\n$Elements\n");
    for value in [1, nelements, 1, 2] {
        file.extend(word(value));
    }
    for value in [2i32, 1, 2] {
        file.extend(value.to_le_bytes());
    }
    file.extend(word(2));
    for value in [1, 1, 5, 7, 2, 1, 7, 9] {
        file.extend(word(value));
    }
    file.extend(b"\n$EndElements\n");
    file
}

#[test]
fn binary_files_are_read_by_the_parser() {
    assert_two_triangles(&binary_mesh("8", 4, 2));
    let (complex, coords) = gmsh2coord_complex::<Real>(&binary_mesh("8", 4, 2)).unwrap();
    assert_eq!(complex.nsimplices(1), 5);
    assert_eq!(coords.coords[3][0].0, 1.0);
}

#[test]
fn files_that_the_parser_cannot_take_are_refused() {
    let fault = |bytes: &[u8]| gmsh2coord_cells::<Real>(bytes).err().unwrap();
    let sizes = "Gmsh sections must count items, in words of a known size";
    assert_eq!(fault(&binary_mesh("7", 4, 2)), sizes);
    assert_eq!(fault(&binary_mesh("99999999999", 4, 2)), sizes);
    assert_eq!(fault(&binary_mesh("8", 0, 2)), sizes);
    assert_eq!(fault(&binary_mesh("8", 4, 0)), sizes);
    let head = "$MeshFormat\n4.1 0 8\n$EndMeshFormat\n";
    assert_eq!(fault(format!("{head}$Nodes\n1 0 1 1\n$EndNodes\n").as_bytes()), sizes);
    assert_eq!(fault(b""), "Gmsh file does not parse");
    assert_eq!(fault(head.as_bytes()), "Gmsh file has no nodes");
    let nodes = "$Nodes\n1 1 1 1\n0 1 0 1\n1\n0 0 0\n$EndNodes\n";
    let text = format!("{head}{nodes}");
    assert_eq!(fault(text.as_bytes()), "Gmsh file has no elements");
    let points = "$Elements\n1 1 1 1\n0 1 15 1\n1 1\n$EndElements\n";
    let text = format!("{head}{nodes}{points}");
    assert_eq!(fault(text.as_bytes()), "Failed to construct Triangulation from gmsh.");
}

const TWO_TRIANGLES: &str = "$Nodes\n1 4 1 4\n2 1 0 4\n1\n2\n3\n4\n0 0 0\n1 0 0\n0 1 0\n1 1 0\n\
    $EndNodes\n$Elements\n1 2 1 2\n2 1 2 2\n1 1 2 3\n2 1 3 4\n$EndElements\n";

#[test]
fn sections_that_are_passed_over_may_hold_anything() {
    let head = "$MeshFormat\n4.1 0 8\n$EndMeshFormat\n";
    let notes = "$Comments\n$Elements\n0 0\n$EndElements\n$EndComments\n";
    assert_two_triangles(format!("{head}{notes}{TWO_TRIANGLES}").as_bytes());
    assert_two_triangles(format!("{head}{TWO_TRIANGLES}{notes}").as_bytes());
    let entities = "$Entities\n1 0 0 0\n1 0 0 0 0\n$EndEntities\n";
    assert_two_triangles(format!("{head}{notes}{entities}{TWO_TRIANGLES}").as_bytes());
    let crlf = format!("{head}{notes}{TWO_TRIANGLES}").replace("\n", "\r\n");
    assert_two_triangles(crlf.as_bytes());
}

#[test]
fn empty_sections_are_refused_wherever_they_are_read() {
    let fault = |text: String| gmsh2coord_cells::<Real>(text.as_bytes()).err().unwrap();
    let sizes = "Gmsh sections must count items, in words of a known size";
    let head = "$MeshFormat\n4.1 0 8\n$EndMeshFormat\n";
    let notes = "$Comments\n$Elements\n0 0\n$EndComments\n";
    let entities = "$Entities\n1 0 0 0\n1 0 0 0 0\n$EndEntities\n";
    let none = "$Elements\n1 0 1 1\n$EndElements\n";
    assert_eq!(fault(format!("{head}{notes}{none}")), sizes);
    assert_eq!(fault(format!("{head}{entities}{notes}{none}")), sizes);
    assert_eq!(fault(format!("{head}{TWO_TRIANGLES}  {none}")), sizes);
    let broken = "neither\n";
    assert_eq!(fault(format!("{head}{broken}{none}")), "Gmsh file does not parse");
    assert_eq!(fault(format!("{head}$Comments\n{none}")), "Gmsh file does not parse");
}

/// A binary section of one point and one curve; the coordinates of the point spell the end of
/// the section and an empty section of nodes.
fn binary_entities() -> Vec<u8> {
    let mut part: Vec<u8> = b"$Entities\n".to_vec();
    for value in [1, 1, 0, 0] {
        part.extend(word(value));
    }
    part.extend(1i32.to_le_bytes());
    part.extend(b"$EndEntities\n$Nodes\n\0\0\0\0");
    part.extend(word(0));
    part.extend(1i32.to_le_bytes());
    part.extend([0u8; 48]);
    part.extend(word(1));
    part.extend(7i32.to_le_bytes());
    part.extend(word(2));
    part.extend(1i32.to_le_bytes());
    part.extend(2i32.to_le_bytes());
    part.extend(b"\n$EndEntities\n");
    part
}

#[test]
fn binary_sections_are_passed_by_their_counts() {
    let plain = binary_mesh("8", 4, 2);
    let at = plain.windows(6).position(|w| w == b"$Nodes").unwrap();
    let with = |part: &[u8]| [&plain[..at], part, &plain[at..]].concat();
    assert_two_triangles(&with(&binary_entities()));
    assert_two_triangles(&with(b"$Comments\n$Nodes\n\0\0\0\0\0\0\0\0\0\0\0\0\0\0\0\0\n$EndComments\n"));
    let mut empty = binary_entities();
    empty.extend(b"$Elements\n");
    for value in [1, 0, 1, 1] {
        empty.extend(word(value));
    }
    let fault = gmsh2coord_cells::<Real>(&with(&empty)).err().unwrap();
    assert_eq!(fault, "Gmsh sections must count items, in words of a known size");
}

#[test]
fn big_endian_files_are_told_by_their_mark() {
    let head = |size: &str| {
        let mut file = format!("$MeshFormat\n4.1 1 {size}\n").into_bytes();
        file.extend(1i32.to_be_bytes());
        file.extend(b"\n$EndMeshFormat\n$Entities\n");
        file
    };
    let mut file = head("4");
    for value in [0u32, 0, 0, 0] {
        file.extend(value.to_be_bytes());
    }
    file.extend(b"$EndEntities\n");
    let fault = |bytes: &[u8]| gmsh2coord_cells::<Real>(bytes).err().unwrap();
    assert_eq!(fault(&file), "Gmsh file has no nodes");
    file.extend(b"$Nodes\n");
    for value in [1u32, 0, 1, 1] {
        file.extend(value.to_be_bytes());
    }
    assert_eq!(fault(&file), "Gmsh sections must count items, in words of a known size");
}

#[test]
fn vertices_are_cells_of_a_cochain_of_degree_zero() {
    let (topology, coords) = cartesian(2, 1);
    let cochain = constant(0, 4, 1.0);
    let text = write_cochain_vtk(&coords, &topology, &cochain, "p").unwrap();
    assert!(text.contains("CELLS 4 8\n1 0\n1 1\n1 2\n1 3\n"));
    assert!(text.contains("CELL_TYPES 4\n1\n1\n1\n1\n"));
    assert!(text.contains("POINT_DATA 4\nSCALARS p double 1\n"));
    let short = constant(0, 3, 1.0);
    assert!(write_cochain_vtk(&coords, &topology, &short, "p").is_err());
}

#[test]
fn vectors_on_a_point_are_refused() {
    let topology = Complex::standard(0);
    let coords = MeshCoords { dim: 1, coords: vec![vec![Real(0.5)]] };
    for dim in [0, 2] {
        let cochain = Cochain { dim, coeffs: vec![Real(1.0)] };
        let text = format!("Expected a 1-cochain, got dim {dim}");
        let file = write_1form_vector_field_vtk(&coords, &topology, &cochain, &[], "u");
        assert_eq!(complaint(file.err().unwrap()), text);
        assert!(write_1form_vector_proxy_vtk(&coords, &topology, &cochain, "u").is_err());
    }
    let cochain = Cochain { dim: 2, coeffs: Vec::new() };
    assert!(write_2form_vector_field_vtk(&coords, &topology, &cochain, &[], "u").is_err());
}
