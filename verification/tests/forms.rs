#![allow(dead_code)]

use formoniq::io::fields::MeshCoords;
use formoniq::linalg::dense::DenseMatrix;
use formoniq::linalg::scalar::Scalar;
use formoniq::linalg::sparse::CooMatrix;
use formoniq::operators::elements::SimplexGeometry;
use formoniq::operators::weights::SimplexQuadRule;
use formoniq::topology::complex::Complex;
use formoniq::topology::simplex::Simplex;
use formoniq::topology::skeleton::Skeleton;
use formoniq::assemble::barycentric_dual::{
    barycentric_dual_sparse_inverse_local_block, require_positive_definite,
    validate_reconstruction_identity, BarycentricDualLocalBlock,
    BarycentricDualSparseInverseConfig,
};
use formoniq::assemble::barycentric_inverse::{
    assemble_barycentric_dual_1form_sparse_inverse_galmat,
    assemble_barycentric_dual_2form_sparse_inverse_galmat,
    assemble_barycentric_dual_sparse_inverse_galmat_for_grade,
};
use formoniq::assemble::boundary_terms::{
    assemble_boundary_integral_term, boundary_simplices_where_barycenter,
};
use formoniq::assemble::elements::{elmats_of, elvecs_of};
use formoniq::assemble::galerkin::{
    assemble_boundary_galvec, assemble_galvec, selected_boundary_facets,
};
use formoniq::exterior::{
    precompose_form, AffineTransform, DiffFormClosure, EmbeddedDiffFormClosure, ExteriorElement,
    ExteriorField, FormPullback,
};
use formoniq::fe::{fe_l2_error, graph_errors, hd_error, hdif_norm, l2_norm};
use formoniq::io::fields::Cochain;
use formoniq::mixed_bc_fields::{self, CubePoint};
use formoniq::mixed_bc_hodge_laplacian_convergence::{
    check_resolutions, convergence_csv_output_path, push_record, write_convergence_csv,
    MixedBcHodgeLaplacianConvergenceRecord,
};
use formoniq::operators::derivatives::CodifDifElmat;
use formoniq::operators::elements::HodgeMassElmat;
use formoniq::problems::hodge_laplace::{source_solution, StrongConditions};
use formoniq::problems::mixed_galmats::MixedGalmats;
use formoniq::operators::source::{field_side, FieldSide, SourceElVec};
use formoniq::topology::simplex::nsubsequence_simplices;
use formoniq::operators::reference::{barycentric_of, wedge_of};
use formoniq::whitney::{cochain_dif, DifWhitneyForm, WhitneyForm};
use std::f64::consts::PI;

type Mat = nalgebra::DMatrix<f64>;

/// Machine reals as coefficients.
#[derive(Clone, Copy, Debug, PartialEq, PartialOrd)]
struct Real(f64);

impl Scalar for Real {
    fn zero() -> Self {
        Real(0.0)
    }
    fn one() -> Self {
        Real(1.0)
    }
    fn plus(self, other: Self) -> Self {
        Real(self.0 + other.0)
    }
    fn minus(self, other: Self) -> Self {
        Real(self.0 - other.0)
    }
    fn times(self, other: Self) -> Self {
        Real(self.0 * other.0)
    }
    fn negated(self) -> Self {
        Real(-self.0)
    }
    fn over(self, other: Self) -> Self {
        Real(self.0 / other.0)
    }
    fn is_zero(self) -> bool {
        self.0 == 0.0
    }
    fn is_finite(self) -> bool {
        self.0.is_finite()
    }
    fn is_below(self, other: Self) -> bool {
        self.0 < other.0
    }
    fn is_at_most(self, other: Self) -> bool {
        self.0 <= other.0
    }
    fn from_count(n: u64) -> Self {
        Real(n as f64)
    }
    fn from_word(word: u64) -> Self {
        Real(f64::from_bits(word))
    }
    fn infinity() -> Self {
        Real(f64::INFINITY)
    }
    fn square_root(self) -> Self {
        Real(self.0.sqrt())
    }
    fn hypot(self, other: Self) -> Self {
        Real(self.0.hypot(other.0))
    }
    fn logarithm(self) -> Self {
        Real(self.0.ln())
    }
    fn display(self) -> String {
        format!("{}", self.0)
    }
    fn fixed(self, digits: usize) -> String {
        format!("{:.*}", digits, self.0)
    }
    fn parsed(text: &str) -> Option<Self> {
        text.parse::<f64>().ok().map(Real)
    }
    fn scientific(self, digits: usize) -> String {
        format!("{:.*e}", digits, self.0)
    }
}

fn reals(values: &[f64]) -> Vec<Real> {
    values.iter().map(|&v| Real(v)).collect()
}

fn floats(values: &[Real]) -> Vec<f64> {
    values.iter().map(|v| v.0).collect()
}

fn dense(m: &DenseMatrix<Real>) -> Mat {
    Mat::from_fn(m.nrows(), m.ncols(), |i, j| m.get(i, j).0)
}

fn from_dense(m: &Mat) -> DenseMatrix<Real> {
    let values = (0..m.nrows())
        .flat_map(|i| (0..m.ncols()).map(move |j| (i, j)))
        .map(|(i, j)| Real(m[(i, j)]))
        .collect();
    DenseMatrix::from_rows(m.nrows(), m.ncols(), values)
}

fn coo(m: &CooMatrix<Real>) -> Mat {
    let mut dense = Mat::zeros(m.nrows(), m.ncols());
    for &(r, c, v) in m.triplets() {
        dense[(r, c)] += v.0;
    }
    dense
}

fn close(a: f64, b: f64, epsilon: f64, max_relative: f64) -> bool {
    let gap = (a - b).abs();
    a == b || gap <= epsilon || gap <= max_relative * a.abs().max(b.abs())
}

fn assert_close(a: &Mat, b: &Mat, tolerance: f64) {
    assert_eq!(a.shape(), b.shape());
    for (x, y) in a.iter().zip(b.iter()) {
        assert!(close(*x, *y, tolerance, tolerance), "{x} against {y}");
    }
}

/// Permutations of the axes.
fn permutations(n: usize) -> Vec<Vec<usize>> {
    if n == 0 {
        return vec![vec![]];
    }
    let mut all = Vec::new();
    for rest in permutations(n - 1) {
        for at in 0..n {
            let mut p = rest.clone();
            p.insert(at, n - 1);
            all.push(p);
        }
    }
    all
}

/// The unit cube divided into boxes, each box into simplices along the paths of its edges.
fn cartesian(dim: usize, n: usize) -> (Complex, MeshCoords<Real>) {
    let side = n + 1;
    let index = |at: &[usize]| at.iter().rev().fold(0, |acc, x| acc * side + x);
    let count = side.pow(dim as u32);
    let coords = (0..count)
        .map(|mut i| {
            (0..dim)
                .map(|_| {
                    let x = i % side;
                    i /= side;
                    Real(x as f64 / n as f64)
                })
                .collect()
        })
        .collect();
    let mut cells = Vec::new();
    for b in 0..n.pow(dim as u32) {
        let mut rest = b;
        let corner: Vec<usize> = (0..dim)
            .map(|_| {
                let x = rest % n;
                rest /= n;
                x
            })
            .collect();
        for p in permutations(dim) {
            let mut at = corner.clone();
            let mut vertices = vec![index(&at)];
            for axis in p {
                at[axis] += 1;
                vertices.push(index(&at));
            }
            cells.push(Simplex::new(vertices).sorted());
        }
    }
    let complex = Complex::from_cells(Skeleton::new(cells));
    (complex, MeshCoords { dim, coords })
}

/// The reference simplex as a mesh.
fn standard(dim: usize) -> (Complex, MeshCoords<Real>) {
    let coords = (0..=dim)
        .map(|v| (0..dim).map(|axis| Real(if v == axis + 1 { 1.0 } else { 0.0 })).collect())
        .collect();
    (Complex::standard(dim), MeshCoords { dim, coords })
}

/// The edges of a simplex from its first vertex, one in each column.
fn jacobian(vertices: &[usize], coords: &MeshCoords<Real>) -> Mat {
    Mat::from_fn(coords.dim, vertices.len() - 1, |i, j| {
        coords.coords[vertices[j + 1]][i].0 - coords.coords[vertices[0]][i].0
    })
}

fn geometry_of(jacobian: &Mat) -> SimplexGeometry<Real> {
    let dim = jacobian.ncols();
    let metric = jacobian.transpose() * jacobian;
    let factorial = (1..=dim).product::<usize>() as f64;
    SimplexGeometry {
        dim,
        volume: Real(metric.determinant().sqrt() / factorial),
        inverse_metric: from_dense(&metric.try_inverse().unwrap()),
    }
}

fn standard_geometry(dim: usize) -> SimplexGeometry<Real> {
    geometry_of(&Mat::identity(dim, dim))
}

fn geometries(complex: &Complex, coords: &MeshCoords<Real>) -> Vec<SimplexGeometry<Real>> {
    let dim = complex.dim();
    (0..complex.nsimplices(dim))
        .map(|i| geometry_of(&jacobian(&complex.simplex_at(dim, i).vertices, coords)))
        .collect()
}

/// A rule that is exact for cubic polynomials.
fn order3(dim: usize) -> SimplexQuadRule<Real> {
    let (points, weights): (Vec<Vec<f64>>, Vec<f64>) = match dim {
        0 => (vec![vec![]], vec![1.0]),
        1 => (
            vec![vec![0.0], vec![0.5], vec![1.0]],
            vec![1.0 / 6.0, 4.0 / 6.0, 1.0 / 6.0],
        ),
        2 => (
            vec![
                vec![1.0 / 3.0, 1.0 / 3.0],
                vec![0.2, 0.2],
                vec![0.6, 0.2],
                vec![0.2, 0.6],
            ],
            vec![-27.0 / 48.0, 25.0 / 48.0, 25.0 / 48.0, 25.0 / 48.0],
        ),
        _ => {
            let s = 1.0 / 6.0;
            (
                vec![
                    vec![0.25, 0.25, 0.25],
                    vec![s, s, s],
                    vec![0.5, s, s],
                    vec![s, 0.5, s],
                    vec![s, s, 0.5],
                ],
                vec![-0.8, 0.45, 0.45, 0.45, 0.45],
            )
        }
    };
    SimplexQuadRule {
        dim,
        points: points.iter().map(|p| reals(p)).collect(),
        weights: reals(&weights),
    }
}

/// The mesh in a space of more dimensions.
fn embedded(coords: &MeshCoords<Real>, dim: usize) -> MeshCoords<Real> {
    let points = coords
        .coords
        .iter()
        .map(|p| {
            let mut p = p.clone();
            p.resize(dim, Real(0.0));
            p
        })
        .collect();
    MeshCoords { dim, coords: points }
}

fn vertices_of(complex: &Complex, dim: usize, kidx: usize) -> Vec<usize> {
    complex.simplex_at(dim, kidx).vertices.clone()
}

fn global(vertices: &[usize], coords: &MeshCoords<Real>, local: &[Real]) -> Vec<Real> {
    let j = jacobian(vertices, coords);
    (0..coords.dim)
        .map(|i| {
            let along: f64 = local.iter().enumerate().map(|(k, x)| j[(i, k)] * x.0).sum();
            Real(coords.coords[vertices[0]][i].0 + along)
        })
        .collect()
}

/// The coefficients of a field on simplices of the mesh, at the points of a rule.
fn pulled<F: ExteriorField<Real>>(
    field: &F,
    complex: &Complex,
    coords: &MeshCoords<Real>,
    dim: usize,
    simplices: &[usize],
    rule: &SimplexQuadRule<Real>,
) -> Vec<Vec<Vec<Real>>> {
    simplices
        .iter()
        .map(|&kidx| {
            let vertices = vertices_of(complex, dim, kidx);
            let j = from_dense(&jacobian(&vertices, coords));
            rule.points
                .iter()
                .map(|local| {
                    let value = field.at_point(&global(&vertices, coords, local));
                    match field_side("Data", "cell", field.dim_ambient(), dim, coords.dim).unwrap() {
                        FieldSide::Ambient => precompose_form(&value, &j).coeffs,
                        FieldSide::Intrinsic => value.coeffs,
                    }
                })
                .collect()
        })
        .collect()
}

fn orientations(complex: &Complex, coords: &MeshCoords<Real>, facets: &[usize]) -> Vec<Option<Real>> {
    let dim = complex.dim();
    facets
        .iter()
        .map(|&facet| {
            let cell = complex.cocells_of(dim - 1, facet)[0].kidx;
            let j = jacobian(&vertices_of(complex, dim, cell), coords);
            (coords.dim == dim).then(|| Real(j.determinant().signum()))
        })
        .collect()
}

fn boundary_term<F: ExteriorField<Real>>(
    complex: &Complex,
    coords: &MeshCoords<Real>,
    test_grade: usize,
    data: &F,
    selector: &dyn Fn(usize) -> bool,
) -> Vec<f64> {
    let dim = complex.dim();
    let selected: Vec<bool> = (0..complex.nsimplices(dim - 1)).map(selector).collect();
    let facets = selected_boundary_facets(complex, &selected);
    let rule = SimplexQuadRule::barycentric(dim - 1);
    let values = pulled(data, complex, coords, dim - 1, &facets, &rule);
    let signs = orientations(complex, coords, &facets);
    let term = assemble_boundary_integral_term(
        complex,
        test_grade,
        data.grade(),
        &rule,
        &selected,
        &signs,
        &values,
    );
    floats(&term.unwrap())
}

fn distance(a: &[f64], b: &[f64]) -> f64 {
    assert_eq!(a.len(), b.len());
    a.iter().zip(b).map(|(x, y)| (x - y) * (x - y)).sum::<f64>().sqrt()
}

fn all_cells(complex: &Complex) -> Vec<usize> {
    (0..complex.nsimplices(complex.dim())).collect()
}

#[test]
fn embedded_whitney_pullback_matches_intrinsic_evaluation() {
    let (topology, coords_2d) = standard(2);
    let coords = embedded(&coords_2d, 3);
    let j = jacobian(&vertices_of(&topology, 2, 0), &coords);
    let lift = from_dense(&j.clone().pseudo_inverse(1e-12).unwrap().transpose());
    let bary = reals(&[1.0 / 3.0, 1.0 / 3.0]);
    let cochain = Cochain { dim: 1, coeffs: reals(&[1.0, -2.0, 0.5]) };
    let whitney = WhitneyForm::new(cochain, &topology, &coords);

    let ambient_value = whitney.eval_known_cell(0, &bary, &lift);
    let intrinsic_value = whitney.eval_known_cell_local_intrinsic(0, &bary);
    assert_eq!(ambient_value.dim(), 3);
    assert_eq!(intrinsic_value.dim(), 2);

    let back = precompose_form(&ambient_value, &from_dense(&j));
    assert_eq!(back.grade(), intrinsic_value.grade());
    assert!(distance(&floats(back.coeffs()), &floats(intrinsic_value.coeffs())) < 1e-12);
}

#[test]
fn derivative_of_whitney_form_is_whitney_form_of_coboundary() {
    let (topology, coords) = cartesian(2, 2);
    let coeffs: Vec<f64> = (0..topology.nsimplices(1)).map(|i| 0.5 * i as f64 - 1.0).collect();
    let cochain = Cochain { dim: 1, coeffs: reals(&coeffs) };
    let derivative = DifWhitneyForm::new(&cochain, &topology, &coords);
    let form = WhitneyForm::new(Cochain { dim: 1, coeffs: reals(&coeffs) }, &topology, &coords);
    let whitney = form.dif();
    assert_eq!(derivative.grade(), 2);
    assert_eq!(whitney.grade(), 2);
    for cell in all_cells(&topology) {
        let value = derivative.on_known_cell_intrinsic(cell);
        let other = whitney.eval_known_cell_local_intrinsic(cell, &reals(&[0.2, 0.5]));
        assert!(distance(&floats(value.coeffs()), &floats(other.coeffs())) < 1e-12);
    }
}

#[test]
fn embedded_field_preserves_dimensions() {
    let field =
        EmbeddedDiffFormClosure::ambient_one_form(|_p: &[Real]| reals(&[1.0, 2.0, 3.0]), 3, 2);

    let value = field.at_point(&reals(&[0.1, 0.2, 0.3]));
    assert_eq!(field.dim_ambient(), 3);
    assert_eq!(field.dim_intrinsic(), 2);
    assert_eq!(value.dim(), 3);
    assert_eq!(value.grade(), 1);
}

#[test]
fn top_form_constructor_returns_true_top_form() {
    let field = DiffFormClosure::top_form(|p: &[Real]| vec![p[0].plus(p[1])], 2);
    let value = field.at_point(&reals(&[0.25, 0.75]));
    assert_eq!(value.dim(), 2);
    assert_eq!(value.grade(), 2);
    assert_eq!(value.coeffs().len(), 1);
    assert_eq!(value.coeffs()[0].0, 1.0);
}

#[test]
fn pullback_of_a_form_follows_the_map() {
    // The area form of the plane along x -> (1 + 2x + y, 3y).
    let field = DiffFormClosure::top_form(|p: &[Real]| vec![p[0].times(p[1])], 2);
    let map = AffineTransform {
        translation: reals(&[1.0, 0.0]),
        linear: DenseMatrix::from_rows(2, 2, reals(&[2.0, 1.0, 0.0, 3.0])),
    };
    let pullback = FormPullback::new(field, map);
    assert_eq!(pullback.dim_ambient(), 2);
    let value = pullback.at_point(&reals(&[1.0, 2.0]));
    assert_eq!(floats(value.coeffs()), vec![5.0 * 6.0 * 6.0]);
    assert_eq!(ExteriorField::<Real>::grade(&pullback), 2);
}

#[test]
fn precomposition_uses_minors() {
    let form = ExteriorElement::new(reals(&[1.0, 10.0, 100.0]), 3, 2);
    let map = DenseMatrix::from_rows(3, 2, reals(&[1.0, 0.0, 0.0, 1.0, 2.0, 3.0]));
    // Minors of the row pairs (0, 1), (0, 2) and (1, 2): 1, 3 and -2.
    assert_eq!(floats(precompose_form(&form, &map).coeffs()), vec![1.0 + 30.0 - 200.0]);
}

#[test]
fn hd_error_is_the_exterior_derivative_graph_norm() {
    assert_eq!(hd_error(Real(3.0), Real(4.0)).0, 5.0);
    assert_eq!(hd_error(Real(2.0), Real(0.0)).0, 2.0);
}

#[test]
fn graph_norm_neither_overflows_nor_vanishes() {
    assert!(close(hd_error(Real(3e200), Real(4e200)).0, 5e200, 0.0, 1e-12));
    assert!(close(hd_error(Real(3e-200), Real(4e-200)).0, 5e-200, 0.0, 1e-12));
    assert_eq!(hd_error(3i64, 4i64), 5);
}

#[test]
fn norms_of_a_linear_function() {
    let (topology, coords) = cartesian(1, 4);
    let coeffs: Vec<Real> = coords.coords.iter().map(|p| p[0]).collect();
    let fe = Cochain { dim: 0, coeffs };
    let geos = geometries(&topology, &coords);
    let mass = elmats_of(&HodgeMassElmat::new(1, 0), &geos);
    let stiffness = elmats_of(&CodifDifElmat::new(1, 0), &geos);
    assert!(close(l2_norm(&fe, &topology, &mass).0, (1.0f64 / 3.0).sqrt(), 1e-12, 0.0));
    assert!(close(hdif_norm(&fe, &topology, &stiffness).0, 1.0, 1e-12, 0.0));
}

#[test]
fn incidence() {
    let dim = 3;
    let complex = Complex::standard(dim);
    let cell = complex.cells().handle_by_kidx(0);

    for dim_sub in 0..=dim {
        let skeleton = complex.skeleton(dim_sub);
        for simp in skeleton.handle_iter() {
            println!("{:?}", simp.simplex());
        }
    }

    let cell_simplex = Simplex::standard(dim);
    for dim_sub in 0..=dim {
        let subs = cell.mesh_subsimps(dim_sub);
        assert_eq!(subs.len(), nsubsequence_simplices(dim, dim_sub));
        let subs_vertices = cell_simplex.subsequences(dim_sub);
        assert_eq!(subs.len(), subs_vertices.len());
        for (sub, expected) in subs.iter().zip(&subs_vertices) {
            assert_eq!(sub.simplex().vertices, expected.vertices);
        }

        for (isub, sub) in subs.iter().enumerate() {
            let sub_vertices = &subs_vertices[isub];
            for dim_sup in dim_sub..dim {
                for sup in sub.mesh_supersimps(dim_sup) {
                    assert!(sub_vertices.is_subsequence_of(sup.simplex()));
                    assert!(sup.simplex().is_subsequence_of(&cell_simplex));
                }
            }
        }
    }
}

fn volumes(complex: &Complex, coords: &MeshCoords<Real>) -> Vec<Real> {
    geometries(complex, coords).iter().map(|g| g.volume).collect()
}

fn local_blocks(
    complex: &Complex,
    coords: &MeshCoords<Real>,
    grade: usize,
    config: BarycentricDualSparseInverseConfig<Real>,
) -> Result<Vec<BarycentricDualLocalBlock<Real>>, String> {
    let volumes = volumes(complex, coords);
    (0..complex.nsimplices(0))
        .map(|vertex| {
            let block = barycentric_dual_sparse_inverse_local_block(
                complex, coords, &volumes, vertex, grade, config,
            )?;
            let positive = dense(&block.inverse_block).cholesky().is_some();
            require_positive_definite(vertex, grade, positive)?;
            Ok(block)
        })
        .collect()
}

fn definite_flags(
    complex: &Complex,
    coords: &MeshCoords<Real>,
    volumes: &[Real],
    grade: usize,
    config: BarycentricDualSparseInverseConfig<Real>,
) -> Vec<bool> {
    (0..complex.nsimplices(0))
        .map(|vertex| {
            barycentric_dual_sparse_inverse_local_block(
                complex, coords, volumes, vertex, grade, config,
            )
            .is_ok_and(|local| dense(&local.inverse_block).cholesky().is_some())
        })
        .collect()
}

fn max_abs_matrix_diff(lhs: &Mat, rhs: &Mat) -> f64 {
    assert_eq!(lhs.shape(), rhs.shape());
    lhs.iter().zip(rhs.iter()).map(|(l, r)| (l - r).abs()).fold(0.0, f64::max)
}

#[test]
fn barycentric_dual_local_reconstruction_identity_on_single_tetrahedron() {
    let (topology, coords) = standard(3);
    let config = BarycentricDualSparseInverseConfig::default();

    for grade in [1, 2] {
        for local in local_blocks(&topology, &coords, grade, config).unwrap() {
            let (primal, dual) = (dense(&local.primal), dense(&local.dual));
            let actual = primal.transpose() * &dual;
            let expected = Mat::identity(3, 3) * local.volume.0;
            assert!(max_abs_matrix_diff(&actual, &expected) <= 1e-12);
            let reconstructed_primal = dense(&local.inverse_block) * &dual;
            assert!(max_abs_matrix_diff(&reconstructed_primal, &primal) <= 1e-12);
            assert!(dense(&local.inverse_block).cholesky().is_some());
        }
    }
}

#[test]
fn barycentric_dual_stabilization_preserves_reconstruction_on_cube() {
    let (topology, coords) = cartesian(3, 2);

    for stabilization_factor in [1e-3, 1.0, 10.0] {
        let config = BarycentricDualSparseInverseConfig {
            stabilization_factor: Real(stabilization_factor),
            ..BarycentricDualSparseInverseConfig::default()
        };
        for grade in [1, 2] {
            for local in local_blocks(&topology, &coords, grade, config).unwrap() {
                let primal = dense(&local.primal);
                let reconstructed_primal = dense(&local.inverse_block) * dense(&local.dual);
                let tolerance = 1e-10 * primal.norm().max(1.0);
                assert!(max_abs_matrix_diff(&reconstructed_primal, &primal) <= tolerance);
                assert!(dense(&local.inverse_block).cholesky().is_some());
            }
        }
    }
}

#[test]
fn barycentric_dual_sparse_inverse_is_symmetric_positive_and_vertex_local() {
    let (topology, coords) = cartesian(3, 1);
    let config = BarycentricDualSparseInverseConfig::default();

    for grade in [1, 2] {
        let volumes = volumes(&topology, &coords);
        let flags = definite_flags(&topology, &coords, &volumes, grade, config);
        let inverse = coo(&assemble_barycentric_dual_sparse_inverse_galmat_for_grade(
            &topology, &coords, &volumes, grade, config, &flags,
        )
        .unwrap());
        let named = if grade == 1 {
            assemble_barycentric_dual_1form_sparse_inverse_galmat
        } else {
            assemble_barycentric_dual_2form_sparse_inverse_galmat
        };
        let named = named(&topology, &coords, &volumes, config, &flags).unwrap();
        assert_eq!(coo(&named), inverse);
        let mut sum = Mat::zeros(inverse.nrows(), inverse.ncols());
        for local in local_blocks(&topology, &coords, grade, config).unwrap() {
            for (i, &r) in local.simplex_kidxs.iter().enumerate() {
                for (j, &c) in local.simplex_kidxs.iter().enumerate() {
                    sum[(r, c)] += dense(&local.inverse_block)[(i, j)];
                }
            }
        }
        assert_eq!(inverse, sum);

        assert_eq!(inverse.nrows(), topology.skeleton(grade).len());
        assert_eq!(inverse.ncols(), topology.skeleton(grade).len());
        assert!(max_abs_matrix_diff(&inverse, &inverse.transpose()) <= 1e-10);
        assert!(inverse.clone().cholesky().is_some());

        for i in 0..inverse.nrows() {
            assert!(inverse[(i, i)] > 0.0);
            for j in 0..inverse.ncols() {
                let (a, b) = (vertices_of(&topology, grade, i), vertices_of(&topology, grade, j));
                if !a.iter().any(|v| b.contains(v)) {
                    assert!(inverse[(i, j)].abs() <= 1e-12);
                }
            }
        }
    }
}

#[test]
fn barycentric_dual_sparse_inverse_rejects_unsupported_meshes_and_grades() {
    let (surface_topology, surface_coords) = standard(2);
    let config = BarycentricDualSparseInverseConfig::default();
    let err = assemble_barycentric_dual_1form_sparse_inverse_galmat(
        &surface_topology,
        &embedded(&surface_coords, 3),
        &[],
        config,
        &[],
    )
    .err()
    .expect("surface mesh should be rejected");
    assert!(err.contains("topological dimension 2"));

    let (topology, coords) = standard(3);
    let err = assemble_barycentric_dual_sparse_inverse_galmat_for_grade(
        &topology, &coords, &[], 0, config, &[],
    )
    .err()
    .expect("0-forms should be rejected");
    assert!(err.contains("Whitney 1- and 2-forms"));
    let err = local_blocks(&topology, &coords, 0, config).err().unwrap();
    assert!(err.contains("Whitney 1- and 2-forms"));
}

#[test]
fn barycentric_dual_faults_come_in_the_order_of_the_vertices() {
    let (topology, coords) = cartesian(3, 1);
    let config = BarycentricDualSparseInverseConfig::default();
    let volumes = volumes(&topology, &coords);
    let flags = definite_flags(&topology, &coords, &volumes, 2, config);
    assert_eq!(flags, vec![true; 8]);
    let fault = |volumes: &[Real], config, flags: &[bool]| {
        assemble_barycentric_dual_2form_sparse_inverse_galmat(
            &topology, &coords, volumes, config, flags,
        )
        .err()
        .unwrap()
    };
    let definite = "barycentric-dual local inverse block is not positive definite for vertex";

    let mut some = flags.clone();
    some[6] = false;
    some[3] = false;
    assert_eq!(fault(&volumes, config, &some), format!("{definite} 3, grade 2"));

    let unusable = BarycentricDualSparseInverseConfig {
        validation_tolerance: Real(-1.0),
        ..BarycentricDualSparseInverseConfig::default()
    };
    assert!(fault(&volumes, unusable, &some).contains("validation tolerance must be finite"));

    let cell = vertices_of(&topology, 3, 0);
    let mut wrong = volumes.clone();
    wrong[0] = Real(2.0 * wrong[0].0);
    let first = *cell.iter().min().unwrap();
    let text = fault(&wrong, config, &vec![true; 8]);
    let name = format!("reconstruction identity failed for vertex {first}, grade 2");
    assert!(text.contains(&name), "{text}");
    let last = *cell.iter().max().unwrap();
    assert_eq!(last, 7);
    let mut early = vec![true; 8];
    early[first] = false;
    assert!(fault(&wrong, config, &early).contains(&name));

    let nothing = vec![Real(0.0); volumes.len()];
    let text = fault(&nothing, config, &[false; 8]);
    assert!(text.starts_with("vertex 0 has non-positive barycentric dual volume"), "{text}");
}

#[test]
fn barycentric_dual_checks_complain() {
    let primal = DenseMatrix::diagonal(3, Real(1.0));
    let dual = DenseMatrix::diagonal(3, Real(2.0));
    assert!(validate_reconstruction_identity(
        0, 1, &primal, &dual, Real(2.0), Real(1e-12)
    )
    .is_ok());
    assert!(validate_reconstruction_identity(
        0, 1, &primal, &dual, Real(1.0), Real(1e-12)
    )
    .is_err());
    assert!(require_positive_definite(4, 1, true).is_ok());
    assert!(require_positive_definite(4, 1, false).is_err());
}

#[test]
fn boundary_term_interval_endpoints() {
    let (topology, coords) = standard(1);
    let a = 2.0;
    let b = -3.0;
    let boundary_data = DiffFormClosure::scalar(
        move |x: &[Real]| reals(&[if x[0].0.abs() < 1e-12 { a } else { b }]),
        coords.dim(),
    );

    let v = boundary_term(&topology, &coords, 0, &boundary_data, &|_| true);

    assert_eq!(v.len(), 2);
    assert!(close(v[0], a, 1e-12, 0.0));
    assert!(close(v[1], b, 1e-12, 0.0));
}

#[test]
fn boundary_term_single_edge_whitney_integral_is_one() {
    let (topology, coords) = standard(2);
    let g = DiffFormClosure::scalar(|_: &[Real]| reals(&[1.0]), coords.dim());
    let target_edge_kidx = topology.boundary_facets()[0].kidx;

    let v = boundary_term(&topology, &coords, 1, &g, &|facet| facet == target_edge_kidx);

    assert!(close(v[target_edge_kidx].abs(), 1.0, 1e-10, 0.0));
    for (idx, entry) in v.iter().enumerate() {
        if idx != target_edge_kidx {
            assert!(close(*entry, 0.0, 1e-12, 0.0));
        }
    }
}

#[test]
fn boundary_term_vertex_hat_integral_edge_length_half() {
    let (topology, coords) = standard(2);
    let target_edge_kidx = topology.boundary_facets()[0].kidx;
    let edge = vertices_of(&topology, 1, target_edge_kidx);
    let tangent = jacobian(&edge, &coords);
    let edge_length = tangent.norm();
    let unit_tangent = reals((tangent / edge_length).as_slice());
    let boundary_data =
        DiffFormClosure::one_form(move |_: &[Real]| unit_tangent.clone(), coords.dim());

    let v = boundary_term(&topology, &coords, 0, &boundary_data, &|facet| {
        facet == target_edge_kidx
    });

    assert_eq!(v.len(), topology.skeleton(0).len());
    assert!(close(v[edge[0]], edge_length / 2.0, 1e-10, 0.0));
    assert!(close(v[edge[1]], edge_length / 2.0, 1e-10, 0.0));
    for (idx, entry) in v.iter().enumerate() {
        if idx != edge[0] && idx != edge[1] {
            assert!(close(*entry, 0.0, 1e-12, 0.0));
        }
    }
}

#[test]
fn boundary_term_refuses_wrong_degrees() {
    let topology = Complex::standard(2);
    let rule = SimplexQuadRule::<Real>::barycentric(1);
    let none = vec![false; 3];
    let err = assemble_boundary_integral_term(&topology, 2, 0, &rule, &none, &[], &vec![]);
    assert_eq!(err.err().unwrap(), "Test form grade exceeds boundary dimension.");
    let err = assemble_boundary_integral_term(&topology, 1, 1, &rule, &none, &[], &vec![]);
    assert_eq!(
        err.err().unwrap(),
        "Boundary data grade does not match (n-1 - grade(test)). Data grade: 1, test grade: 1, \
         boundary dimension: 1"
    );
    let zero = assemble_boundary_integral_term(&topology, 0, 1, &rule, &none, &[], &vec![]);
    assert_eq!(zero.unwrap(), reals(&[0.0, 0.0, 0.0]));
}

fn barycenters(complex: &Complex, coords: &MeshCoords<Real>, dim: usize) -> Vec<Vec<f64>> {
    (0..complex.nsimplices(dim))
        .map(|kidx| {
            let vertices = vertices_of(complex, dim, kidx);
            (0..coords.dim)
                .map(|i| {
                    let sum: f64 = vertices.iter().map(|&v| coords.coords[v][i].0).sum();
                    sum / vertices.len() as f64
                })
                .collect()
        })
        .collect()
}

fn cube_point(p: &[Real]) -> CubePoint<Real> {
    let coords = [p[0], p[1], p[2]];
    CubePoint {
        coords,
        sines: coords.map(|x| Real((PI * x.0).sin())),
        cosines: coords.map(|x| Real((PI * x.0).cos())),
    }
}

type SpaceForm = DiffFormClosure<Box<dyn Fn(&[Real]) -> Vec<Real>>>;

fn space_form(grade: usize, coeffs: impl Fn(CubePoint<Real>) -> [Real; 3] + 'static) -> SpaceForm {
    DiffFormClosure::new(Box::new(move |p: &[Real]| coeffs(cube_point(p)).to_vec()), 3, grade)
}

/// The value of a form of degree zero or one on each simplex of its degree.
fn projected<F: ExteriorField<Real>>(
    field: &F,
    complex: &Complex,
    coords: &MeshCoords<Real>,
) -> Vec<Real> {
    let grade = field.grade();
    assert!(grade <= 1);
    let simplices: Vec<usize> = (0..complex.nsimplices(grade)).collect();
    let rule = SimplexQuadRule::barycentric(grade);
    pulled(field, complex, coords, grade, &simplices, &rule).iter().map(|at| at[0][0]).collect()
}

/// One level of the study with mixed boundary conditions, appended to the records.
fn mixed_bc_level(
    records: &mut Vec<MixedBcHodgeLaplacianConvergenceRecord<Real>>,
    resolution: usize,
) {
    let start = std::time::Instant::now();
    let (topology, coords) = cartesian(3, resolution);
    let geos = geometries(&topology, &coords);
    let pi = Real(PI);
    let solution_exact = space_form(1, mixed_bc_fields::solution_exact);
    let laplacian_exact = space_form(1, move |p| mixed_bc_fields::laplacian_exact(p, pi));
    let dif_exact = space_form(2, mixed_bc_fields::dif_solution_exact);
    let u_neumann = space_form(1, mixed_bc_fields::solution_neumann_exact);
    let sigma_neumann = space_form(2, mixed_bc_fields::sigma_neumann_exact);
    let sigma_exact = DiffFormClosure::scalar(
        move |p: &[Real]| vec![mixed_bc_fields::sigma_exact(cube_point(p), pi)],
        3,
    );

    let flags = |dim: usize, strong: bool| {
        let centers: Vec<Vec<Real>> =
            barycenters(&topology, &coords, dim).iter().map(|p| reals(p)).collect();
        mixed_bc_fields::conditioned_dofs(&topology, dim, &centers, strong)
    };
    let (k_mask, k_minus_one_mask) = (flags(1, true), flags(0, true));
    let weak_faces = flags(2, false);
    assert!(k_mask.contains(&true) && k_minus_one_mask.contains(&true));
    assert!(weak_faces.contains(&true));
    let k_data = projected(&solution_exact, &topology, &coords);
    let k_minus_one_data = projected(&sigma_exact, &topology, &coords);
    let conditions = StrongConditions {
        k_minus_one_mask: &k_minus_one_mask,
        k_minus_one_data: &k_minus_one_data,
        k_mask: &k_mask,
        k_data: &k_data,
    };
    let mass = |grade: usize| elmats_of(&HodgeMassElmat::new(3, grade), &geos);
    let galmats = MixedGalmats::compute(&topology, 1, &mass(1), &mass(0), &mass(2));
    let rule = SimplexQuadRule::barycentric(3);
    let cells = all_cells(&topology);
    let values = pulled(&laplacian_exact, &topology, &coords, 3, &cells, &rule);
    let source =
        assemble_galvec(&topology, 1, &elvecs_of(&SourceElVec::new(1, &rule, &values), &geos));
    let weak = |facet: usize| weak_faces[facet];
    let sigma_weak = boundary_term(&topology, &coords, 0, &sigma_neumann, &weak);
    let u_weak = boundary_term(&topology, &coords, 1, &u_neumann, &weak);
    let (matrix, rhs) = mixed_bc_fields::level_system(
        &galmats,
        reals(&sigma_weak),
        &source,
        &reals(&u_weak),
        &conditions,
    )
    .unwrap();

    let mut dense = Mat::zeros(matrix.nrows(), matrix.ncols());
    for &(r, c, v) in matrix.triplets() {
        dense[(r, c)] += v.0;
    }
    let b = Mat::from_column_slice(rhs.len(), 1, &floats(&rhs));
    let solution = dense.clone().lu().solve(&b).expect("the level has one solution");
    assert!((dense * &solution - &b).norm() < 1e-9 * b.norm().max(1.0));
    let (sigma, u, harmonic) =
        source_solution(&galmats, 1, &conditions, &reals(solution.as_slice()));
    let applied = |m: &CooMatrix<Real>, x: &Cochain<Real>| {
        coo(m) * Mat::from_column_slice(x.coeffs.len(), 1, &floats(&x.coeffs))
    };
    let first = applied(galmats.mass_sigma(), &sigma) - applied(galmats.codif_u(), &u);
    let second = applied(galmats.dif_sigma(), &sigma) + applied(galmats.codifdif_u(), &u);
    for (r, &fixed) in k_minus_one_mask.iter().enumerate() {
        assert!(fixed || (first[(r, 0)] - sigma_weak[r]).abs() < 1e-9);
    }
    for (r, &fixed) in k_mask.iter().enumerate() {
        assert!(fixed || (second[(r, 0)] - source[r].0 - u_weak[r]).abs() < 1e-9);
    }
    assert!(harmonic.coeffs.is_empty());
    for (i, &fixed) in k_mask.iter().enumerate() {
        if fixed {
            assert_eq!(u.coeffs[i], k_data[i]);
        }
    }

    let rule = order3(3);
    let exact = pulled(&solution_exact, &topology, &coords, 3, &cells, &rule);
    let exact_derivative = pulled(&dif_exact, &topology, &coords, 3, &cells, &rule);
    let (l2_error, hd_error) =
        graph_errors(&u, 3, &topology, &coords, &geos, &rule, &exact, &exact_derivative).unwrap();
    push_record(
        records,
        resolution,
        Real(3f64.sqrt() / resolution as f64),
        u.coeffs.len(),
        l2_error,
        hd_error,
        Real(start.elapsed().as_secs_f64()),
    );
}

#[test]
fn mixed_bc_hodge_laplacian_convergence_writes_l2_hd_table() {
    let mut results = Vec::new();
    check_resolutions(&[1]).unwrap();
    mixed_bc_level(&mut results, 1);
    assert_eq!(results.len(), 1);

    let record = &results[0];
    assert!(record.h.0.is_finite() && record.h.0 > 0.0);
    assert!(record.l2_error.0.is_finite() && record.l2_error.0 >= 0.0);
    assert!(record.hd_error.0.is_finite() && record.hd_error.0 >= 0.0);
    assert!(record.hd_error.0 >= record.l2_error.0);
    assert!(record.wall_seconds.0.is_finite() && record.wall_seconds.0 >= 0.0);

    let csv_path = convergence_csv_output_path("out");
    assert!(csv_path.starts_with("out/"));
    let csv = write_convergence_csv(&results);
    assert!(csv.contains("resolution,h,u_dofs,l2_error,l2_rate,hd_error,hd_rate,wall_seconds"));
    assert_eq!(csv.lines().count(), 2);
}

#[test]
fn mixed_bc_errors_shrink_with_the_mesh() {
    let mut results = Vec::new();
    for resolution in [1, 2, 4] {
        mixed_bc_level(&mut results, resolution);
    }
    for pair in results.windows(2) {
        assert!(pair[1].l2_error.0 < pair[0].l2_error.0);
        assert!(pair[1].hd_error.0 < pair[0].hd_error.0);
    }
    let ratio = results[2].l2_error.0 / results[1].l2_error.0;
    assert!(ratio < 0.65, "{ratio}");
}

#[test]
fn boundary_vector_equivalence() {
    let resolution = 4;
    let (topology, coords) = cartesian(2, resolution);
    let on_top: Vec<bool> =
        barycenters(&topology, &coords, 1).iter().map(|p| p[1] == 1.0).collect();
    let neumann_dofs = boundary_simplices_where_barycenter(&topology, 1, &on_top);
    assert_eq!(neumann_dofs.len(), resolution);

    let neumann_data = DiffFormClosure::scalar(
        |p: &[Real]| {
            let (x, y) = (p[0].0, p[1].0);
            let value = if x == 0.0 {
                -(1. + y + PI * (PI * y).sin())
            } else if x == 1.0 {
                1. + y - PI * (PI * y).sin()
            } else if y == 0.0 {
                -(1. + x + PI * (PI * x).sin())
            } else if y == 1.0 {
                1. + x - PI * (PI * x).sin()
            } else {
                0.0
            };
            reals(&[value])
        },
        1,
    );

    let selected = vec![true; topology.nsimplices(1)];
    let facets = selected_boundary_facets(&topology, &selected);
    let rule = SimplexQuadRule::barycentric(1);
    let facet_geometries: Vec<_> = facets
        .iter()
        .map(|&facet| geometry_of(&jacobian(&vertices_of(&topology, 1, facet), &coords)))
        .collect();
    let values = pulled(&neumann_data, &topology, &coords, 1, &facets, &rule);
    let elvecs = elvecs_of(&SourceElVec::new(0, &rule, &values), &facet_geometries);
    let neumann_rhs = floats(&assemble_boundary_galvec(&topology, 0, &selected, &elvecs));

    let neumann_one_form_data = DiffFormClosure::one_form(
        |p: &[Real]| {
            let (x, y) = (p[0].0, p[1].0);
            reals(&[
                -(1. + x + PI * (PI * x).sin() * (PI * y).cos()),
                1. + y + PI * (PI * x).cos() * (PI * y).sin(),
            ])
        },
        2,
    );
    let neumann_rhs_2 = boundary_term(&topology, &coords, 0, &neumann_one_form_data, &|_| true);

    assert_eq!(neumann_rhs.len(), neumann_rhs_2.len());
    assert!(neumann_rhs.iter().zip(&neumann_rhs_2).all(|(a, b)| (a - b).abs() < 1e-10));
}

#[test]
fn embedded_source_elvec_matches_flat_mesh() {
    let (topology, coords_2d) = standard(2);
    let coords_3d = embedded(&coords_2d, 3);
    let intrinsic = DiffFormClosure::one_form(|_: &[Real]| reals(&[1.0, -0.5]), 2);
    let ambient =
        EmbeddedDiffFormClosure::ambient_one_form(|_: &[Real]| reals(&[1.0, -0.5, 0.0]), 3, 2);

    let rule = SimplexQuadRule::barycentric(2);
    let cells = all_cells(&topology);
    let flat_values = pulled(&intrinsic, &topology, &coords_2d, 2, &cells, &rule);
    let embedded_values = pulled(&ambient, &topology, &coords_3d, 2, &cells, &rule);
    let flat = assemble_galvec(
        &topology,
        1,
        &elvecs_of(&SourceElVec::new(1, &rule, &flat_values), &geometries(&topology, &coords_2d)),
    );
    let embedded = assemble_galvec(
        &topology,
        1,
        &elvecs_of(
            &SourceElVec::new(1, &rule, &embedded_values),
            &geometries(&topology, &coords_3d),
        ),
    );

    assert!(distance(&floats(&flat), &floats(&embedded)) < 1e-12);
    assert!(floats(&flat).iter().any(|x| x.abs() > 0.1));
}

#[test]
fn embedded_projection_has_zero_l2_error() {
    let (topology, coords_2d) = standard(2);
    let coords = embedded(&coords_2d, 3);
    let exact =
        EmbeddedDiffFormClosure::ambient_one_form(|_: &[Real]| reals(&[1.0, -0.5, 0.0]), 3, 2);

    let edges: Vec<usize> = (0..topology.nsimplices(1)).collect();
    let on_edges =
        pulled(&exact, &topology, &coords, 1, &edges, &SimplexQuadRule::barycentric(1));
    let projected = Cochain { dim: 1, coeffs: on_edges.iter().map(|e| e[0][0]).collect() };
    let rule = order3(2);
    let values = pulled(&exact, &topology, &coords, 2, &all_cells(&topology), &rule);
    let geos = geometries(&topology, &coords);
    let error =
        fe_l2_error(&projected, exact.dim_ambient(), &topology, &coords, &geos, &rule, &values)
            .unwrap()
            .0;
    assert!(error < 1e-12, "expected near-zero error, got {error}");

    let zero = Cochain { dim: 1, coeffs: reals(&[0.0; 3]) };
    let error =
        fe_l2_error(&zero, exact.dim_ambient(), &topology, &coords, &geos, &rule, &values).unwrap();
    assert!(close(error.0, (1.25f64 * 0.5).sqrt(), 1e-12, 0.0));

    let refused = fe_l2_error(&zero, 4, &topology, &coords, &geos, &rule, &values);
    assert_eq!(
        refused.err().unwrap(),
        "Exact field ambient dimension 4 is incompatible with cell dimensions (2, 3)."
    );
}

#[test]
fn embedded_boundary_integral_matches_flat_mesh() {
    let (topology, coords_2d) = standard(2);
    let coords_3d = embedded(&coords_2d, 3);
    let intrinsic = DiffFormClosure::one_form(|_: &[Real]| reals(&[1.0, -0.5]), 2);
    let ambient =
        EmbeddedDiffFormClosure::ambient_one_form(|_: &[Real]| reals(&[1.0, -0.5, 0.0]), 3, 2);

    let flat = boundary_term(&topology, &coords_2d, 0, &intrinsic, &|_| true);
    let embedded = boundary_term(&topology, &coords_3d, 0, &ambient, &|_| true);

    assert!(distance(&flat, &embedded) < 1e-12);
}

fn sign_rank(m: &CooMatrix<i64>) -> usize {
    let mut dense = Mat::zeros(m.nrows(), m.ncols());
    for &(r, c, v) in m.triplets() {
        dense[(r, c)] += v as f64;
    }
    if dense.is_empty() {
        0
    } else {
        dense.rank(1e-12)
    }
}

#[test]
fn homology_relative_to_nothing_is_the_homology() {
    let (complex, _) = cartesian(2, 2);
    let flags = |k: usize| vec![false; if k <= 2 { complex.nsimplices(k) } else { 0 }];
    for k in 0..=2 {
        let below = if k == 0 { Vec::new() } else { flags(k - 1) };
        let this = complex.restricted_boundary_operator(k, &below, &flags(k));
        let next = complex.restricted_boundary_operator(k + 1, &flags(k), &flags(k + 1));
        assert_eq!(this.triplets(), complex.boundary_operator(k).triplets());
        let (a, b) = (sign_rank(&this), sign_rank(&next));
        let betti = complex.homology_dim(k, a, b);
        assert_eq!(betti, usize::from(k == 0));
        assert_eq!(complex.relative_homology_dim(k, &flags(k), a, b), betti);
    }

    // A square relative to its boundary is a sphere without its base point.
    let boundary: Vec<Vec<bool>> = (0..=2)
        .map(|k| {
            (0..complex.nsimplices(k))
                .map(|i| {
                    let vertices = &complex.simplex_at(k, i).vertices;
                    (0..complex.nsimplices(1)).any(|edge| {
                        let ends = &complex.simplex_at(1, edge).vertices;
                        k < 2
                            && complex.cocells_of(1, edge).len() == 1
                            && vertices.iter().all(|v| ends.contains(v))
                    })
                })
                .collect()
        })
        .collect();
    let none = Vec::new();
    for k in 0..=2 {
        let below = if k == 0 { &none } else { &boundary[k - 1] };
        let above = if k == 2 { &none } else { &boundary[k + 1] };
        let a = sign_rank(&complex.restricted_boundary_operator(k, below, &boundary[k]));
        let b = sign_rank(&complex.restricted_boundary_operator(k + 1, &boundary[k], above));
        let betti = complex.relative_homology_dim(k, &boundary[k], a, b);
        assert_eq!(betti, usize::from(k == 2));
    }
}

#[test]
fn cells_of_a_simplex_ascend() {
    let (complex, _) = cartesian(2, 3);
    for k in 0..=2 {
        for i in 0..complex.nsimplices(k) {
            let cells = complex.cocells_of(k, i);
            assert!(!cells.is_empty());
            assert!((1..cells.len()).all(|j| cells[j - 1].kidx < cells[j].kidx));
        }
    }
}

#[test]
fn derivative_of_a_whitney_form_is_the_whitney_form_of_the_derivative() {
    for dim in 1..=3usize {
        let (complex, coords) = cartesian(dim, 2);
        for grade in 0..dim {
            let values = (0..complex.nsimplices(grade))
                .map(|i| Real((0.7 * i as f64 + 0.3).sin()))
                .collect();
            let cochain = Cochain { dim: grade, coeffs: values };
            let constant = DifWhitneyForm::new(&cochain, &complex, &coords);
            let d = cochain_dif(&cochain, &complex);
            for edge in 0..complex.nsimplices(grade + 1) {
                let vertices = &complex.simplex_at(grade + 1, edge).vertices;
                let expected: f64 = (0..vertices.len())
                    .map(|j| {
                        let mut face = vertices.clone();
                        face.remove(j);
                        let at = (0..complex.nsimplices(grade))
                            .find(|&k| complex.simplex_at(grade, k).vertices == face)
                            .unwrap();
                        let sign = if j % 2 == 0 { 1.0 } else { -1.0 };
                        sign * cochain.coeffs[at].0
                    })
                    .sum();
                assert!((d.coeffs[edge].0 - expected).abs() < 1e-13);
            }
            let form = WhitneyForm::new(d, &complex, &coords);
            for cell in 0..complex.nsimplices(dim) {
                let a = constant.on_known_cell_intrinsic(cell);
                for scale in [0.0, 0.1, 0.3] {
                    let local: Vec<Real> =
                        (0..dim).map(|i| Real(scale * (1.0 + i as f64) / 2.0)).collect();
                    let b = form.eval_known_cell_local_intrinsic(cell, &local);
                    assert_eq!((a.dim, a.grade), (b.dim, b.grade));
                    for (x, y) in a.coeffs.iter().zip(&b.coeffs) {
                        assert!((x.0 - y.0).abs() < 1e-12);
                    }
                }
            }
        }
    }
}

#[test]
fn wedge_products_alternate() {
    let plain: Vec<Real> = wedge_of(3, &[0, 2, 3]);
    let exchanged: Vec<Real> = wedge_of(3, &[2, 0, 3]);
    let moved: Vec<Real> = wedge_of(3, &[3, 0, 2]);
    for b in 0..plain.len() {
        assert_eq!(exchanged[b].0, -plain[b].0);
        assert_eq!(moved[b].0, plain[b].0);
    }
    assert!(plain.iter().any(|x| x.0 != 0.0));
    let twice: Vec<Real> = wedge_of(3, &[1, 0, 1]);
    assert!(twice.iter().all(|x| x.0 == 0.0));
}

#[test]
fn barycentric_coordinates_add_up_to_one() {
    let barys = barycentric_of(&[Real(0.25), Real(0.5), Real(0.125)]);
    let values: Vec<f64> = barys.iter().map(|x| x.0).collect();
    assert_eq!(values, vec![0.125, 0.25, 0.5, 0.125]);
    assert_eq!(values.iter().sum::<f64>(), 1.0);
}
