#![allow(dead_code)]

use formoniq::io::fields::MeshCoords;
use formoniq::linalg::dense::DenseMatrix;
use formoniq::linalg::scalar::Scalar;
use formoniq::linalg::sparse::CooMatrix;
use formoniq::operators::elements::SimplexGeometry;
use formoniq::operators::weights::SimplexQuadRule;
use formoniq::topology::complex::Complex;
use formoniq::topology::simplex::Simplex;
use formoniq::topology::skeleton::Skeleton;
use formoniq::assemble::dofs::{
    fix_dofs_coeff, fix_dofs_coeff_alt, fix_dofs_coeff_strong_coo, fix_dofs_zero,
};
use formoniq::assemble::elements::elmats_of;
use formoniq::fe::graph_errors;
use formoniq::io::fields::Cochain;
use formoniq::mixed_bc_fields::{
    conditioned_dofs, dif_solution_exact, laplacian_exact, sigma_exact, sigma_neumann_exact,
    solution_exact, solution_neumann_exact, CubePoint,
};
use formoniq::mixed_bc_hodge_laplacian_convergence::DEFAULT_RESOLUTIONS as CUBE_RESOLUTIONS;
use formoniq::operators::elements::{HodgeMassElmat, LaplaceBeltramiElmat, ScalarMassElmat};
use formoniq::operators::weights::ScalarWeight;
use formoniq::problems::laplace_beltrami::LaplaceBeltramiGalmats;
use formoniq::problems::mixed_galmats::MixedGalmats;
use formoniq::sparse_inverse_hodge_validation::{row_errors, LevelData, LevelSolutions};
use formoniq::torus_convergence::DEFAULT_RESOLUTIONS as TORUS_RESOLUTIONS;
use formoniq::torus_fields::{
    chart_two_form_to_xyz, derivative_coeff, minor_radius, solution_phi, solution_theta,
    source_phi, source_theta, torus_dif_solution, torus_dphi, torus_dtheta, torus_solution,
    torus_source, TorusPoint,
};
use formoniq::whitney::cochain_dif;
use std::f64::consts::PI;

type Mat = nalgebra::DMatrix<f64>;

/// Machine reals as coefficients.
#[derive(Clone, Copy, Debug, PartialEq, PartialOrd)]
struct Real(f64);

impl Scalar for Real {
    fn zero() -> Self {
        Real(0.0)
    }
    fn one() -> Self {
        Real(1.0)
    }
    fn plus(self, other: Self) -> Self {
        Real(self.0 + other.0)
    }
    fn minus(self, other: Self) -> Self {
        Real(self.0 - other.0)
    }
    fn times(self, other: Self) -> Self {
        Real(self.0 * other.0)
    }
    fn negated(self) -> Self {
        Real(-self.0)
    }
    fn over(self, other: Self) -> Self {
        Real(self.0 / other.0)
    }
    fn is_zero(self) -> bool {
        self.0 == 0.0
    }
    fn is_finite(self) -> bool {
        self.0.is_finite()
    }
    fn is_below(self, other: Self) -> bool {
        self.0 < other.0
    }
    fn is_at_most(self, other: Self) -> bool {
        self.0 <= other.0
    }
    fn from_count(n: u64) -> Self {
        Real(n as f64)
    }
    fn from_word(word: u64) -> Self {
        Real(f64::from_bits(word))
    }
    fn infinity() -> Self {
        Real(f64::INFINITY)
    }
    fn square_root(self) -> Self {
        Real(self.0.sqrt())
    }
    fn hypot(self, other: Self) -> Self {
        Real(self.0.hypot(other.0))
    }
    fn logarithm(self) -> Self {
        Real(self.0.ln())
    }
    fn display(self) -> String {
        format!("{}", self.0)
    }
    fn fixed(self, digits: usize) -> String {
        format!("{:.*}", digits, self.0)
    }
    fn parsed(text: &str) -> Option<Self> {
        text.parse::<f64>().ok().map(Real)
    }
    fn scientific(self, digits: usize) -> String {
        format!("{:.*e}", digits, self.0)
    }
}

fn reals(values: &[f64]) -> Vec<Real> {
    values.iter().map(|&v| Real(v)).collect()
}

fn floats(values: &[Real]) -> Vec<f64> {
    values.iter().map(|v| v.0).collect()
}

fn dense(m: &DenseMatrix<Real>) -> Mat {
    Mat::from_fn(m.nrows(), m.ncols(), |i, j| m.get(i, j).0)
}

fn from_dense(m: &Mat) -> DenseMatrix<Real> {
    let values = (0..m.nrows())
        .flat_map(|i| (0..m.ncols()).map(move |j| (i, j)))
        .map(|(i, j)| Real(m[(i, j)]))
        .collect();
    DenseMatrix::from_rows(m.nrows(), m.ncols(), values)
}

fn coo(m: &CooMatrix<Real>) -> Mat {
    let mut dense = Mat::zeros(m.nrows(), m.ncols());
    for &(r, c, v) in m.triplets() {
        dense[(r, c)] += v.0;
    }
    dense
}

fn close(a: f64, b: f64, epsilon: f64, max_relative: f64) -> bool {
    let gap = (a - b).abs();
    a == b || gap <= epsilon || gap <= max_relative * a.abs().max(b.abs())
}

fn assert_close(a: &Mat, b: &Mat, tolerance: f64) {
    assert_eq!(a.shape(), b.shape());
    for (x, y) in a.iter().zip(b.iter()) {
        assert!(close(*x, *y, tolerance, tolerance), "{x} against {y}");
    }
}

/// Permutations of the axes.
fn permutations(n: usize) -> Vec<Vec<usize>> {
    if n == 0 {
        return vec![vec![]];
    }
    let mut all = Vec::new();
    for rest in permutations(n - 1) {
        for at in 0..n {
            let mut p = rest.clone();
            p.insert(at, n - 1);
            all.push(p);
        }
    }
    all
}

/// The unit cube divided into boxes, each box into simplices along the paths of its edges.
fn cartesian(dim: usize, n: usize) -> (Complex, MeshCoords<Real>) {
    let side = n + 1;
    let index = |at: &[usize]| at.iter().rev().fold(0, |acc, x| acc * side + x);
    let count = side.pow(dim as u32);
    let coords = (0..count)
        .map(|mut i| {
            (0..dim)
                .map(|_| {
                    let x = i % side;
                    i /= side;
                    Real(x as f64 / n as f64)
                })
                .collect()
        })
        .collect();
    let mut cells = Vec::new();
    for b in 0..n.pow(dim as u32) {
        let mut rest = b;
        let corner: Vec<usize> = (0..dim)
            .map(|_| {
                let x = rest % n;
                rest /= n;
                x
            })
            .collect();
        for p in permutations(dim) {
            let mut at = corner.clone();
            let mut vertices = vec![index(&at)];
            for axis in p {
                at[axis] += 1;
                vertices.push(index(&at));
            }
            cells.push(Simplex::new(vertices).sorted());
        }
    }
    let complex = Complex::from_cells(Skeleton::new(cells));
    (complex, MeshCoords { dim, coords })
}

/// The reference simplex as a mesh.
fn standard(dim: usize) -> (Complex, MeshCoords<Real>) {
    let coords = (0..=dim)
        .map(|v| (0..dim).map(|axis| Real(if v == axis + 1 { 1.0 } else { 0.0 })).collect())
        .collect();
    (Complex::standard(dim), MeshCoords { dim, coords })
}

/// The edges of a simplex from its first vertex, one in each column.
fn jacobian(vertices: &[usize], coords: &MeshCoords<Real>) -> Mat {
    Mat::from_fn(coords.dim, vertices.len() - 1, |i, j| {
        coords.coords[vertices[j + 1]][i].0 - coords.coords[vertices[0]][i].0
    })
}

fn geometry_of(jacobian: &Mat) -> SimplexGeometry<Real> {
    let dim = jacobian.ncols();
    let metric = jacobian.transpose() * jacobian;
    let factorial = (1..=dim).product::<usize>() as f64;
    SimplexGeometry {
        dim,
        volume: Real(metric.determinant().sqrt() / factorial),
        inverse_metric: from_dense(&metric.try_inverse().unwrap()),
    }
}

fn standard_geometry(dim: usize) -> SimplexGeometry<Real> {
    geometry_of(&Mat::identity(dim, dim))
}

fn geometries(complex: &Complex, coords: &MeshCoords<Real>) -> Vec<SimplexGeometry<Real>> {
    let dim = complex.dim();
    (0..complex.nsimplices(dim))
        .map(|i| geometry_of(&jacobian(&complex.simplex_at(dim, i).vertices, coords)))
        .collect()
}

/// A rule that is exact for cubic polynomials.
fn order3(dim: usize) -> SimplexQuadRule<Real> {
    let (points, weights): (Vec<Vec<f64>>, Vec<f64>) = match dim {
        0 => (vec![vec![]], vec![1.0]),
        1 => (
            vec![vec![0.0], vec![0.5], vec![1.0]],
            vec![1.0 / 6.0, 4.0 / 6.0, 1.0 / 6.0],
        ),
        2 => (
            vec![
                vec![1.0 / 3.0, 1.0 / 3.0],
                vec![0.2, 0.2],
                vec![0.6, 0.2],
                vec![0.2, 0.6],
            ],
            vec![-27.0 / 48.0, 25.0 / 48.0, 25.0 / 48.0, 25.0 / 48.0],
        ),
        _ => {
            let s = 1.0 / 6.0;
            (
                vec![
                    vec![0.25, 0.25, 0.25],
                    vec![s, s, s],
                    vec![0.5, s, s],
                    vec![s, 0.5, s],
                    vec![s, s, 0.5],
                ],
                vec![-0.8, 0.45, 0.45, 0.45, 0.45],
            )
        }
    };
    SimplexQuadRule {
        dim,
        points: points.iter().map(|p| reals(p)).collect(),
        weights: reals(&weights),
    }
}

fn cube_point(x: f64, y: f64, z: f64) -> CubePoint<Real> {
    let p = [x, y, z];
    CubePoint {
        coords: p.map(Real),
        sines: p.map(|c| Real((PI * c).sin())),
        cosines: p.map(|c| Real((PI * c).cos())),
    }
}

fn assert_values(actual: [Real; 3], expected: [f64; 3], tolerance: f64) {
    for (a, e) in actual.iter().zip(&expected) {
        assert!(close(a.0, *e, tolerance, tolerance), "{} against {e}", a.0);
    }
}

#[test]
fn cube_fields_at_a_point() {
    let p = cube_point(0.5, 0.25, 1.0);
    let c = PI.cos();
    let q = (PI / 4.0).cos();
    assert_values(solution_exact(p), [2.5, q + 1.5, 1.5], 1e-12);
    let sigma = PI * ((PI / 4.0).sin() - c) - 3.0;
    assert!(close(sigma_exact(p, Real(PI)).0, sigma, 1e-12, 0.0));
    assert_values(
        laplacian_exact(p, Real(PI)),
        [PI * PI - 2.0, PI * PI * q - 2.0, -4.0],
        1e-12,
    );
    assert_values(dif_solution_exact(p), [0.0, 0.0, -1.0], 1e-12);
    assert_values(solution_neumann_exact(p), [-1.0, 0.0, 0.0], 1e-12);
    assert_values(sigma_neumann_exact(p), [-1.5, q + 1.5, -2.5], 1e-12);
}

#[test]
fn cube_derivative_matches_differences() {
    let h = 1e-5;
    let at = |d: usize, step: f64| {
        let mut p = [0.3, 0.6, 0.2];
        p[d] += step;
        solution_exact(cube_point(p[0], p[1], p[2])).map(|v| v.0)
    };
    let slope = |d: usize, k: usize| (at(d, h)[k] - at(d, -h)[k]) / (2.0 * h);
    let expected = [
        slope(0, 1) - slope(1, 0),
        slope(0, 2) - slope(2, 0),
        slope(1, 2) - slope(2, 1),
    ];
    let p = cube_point(0.3, 0.6, 0.2);
    assert_values(dif_solution_exact(p), expected, 1e-8);
    let divergence = slope(0, 0) + slope(1, 1) + slope(2, 2);
    assert!(close(sigma_exact(p, Real(PI)).0, -divergence, 1e-7, 0.0));
}

#[test]
fn boundary_faces_carry_strong_or_weak_conditions() {
    let (topology, coords) = cartesian(3, 1);
    let barycenters: Vec<Vec<Real>> = (0..topology.nsimplices(2))
        .map(|i| {
            let vertices = &topology.simplex_at(2, i).vertices;
            (0..3)
                .map(|d| Real(vertices.iter().map(|&v| coords.coords[v][d].0).sum::<f64>() / 3.0))
                .collect()
        })
        .collect();
    let strong = conditioned_dofs(&topology, 2, &barycenters, true);
    let weak = conditioned_dofs(&topology, 2, &barycenters, false);
    assert_eq!(strong.iter().filter(|&&f| f).count(), 6);
    assert_eq!(weak.iter().filter(|&&f| f).count(), 6);
    assert!(strong.iter().zip(&weak).all(|(s, w)| !(*s && *w)));
}

fn torus_point(theta: f64, phi: f64) -> TorusPoint<Real> {
    let r = 0.3;
    let rho = 1.0 + r * theta.cos();
    TorusPoint {
        coords: [Real(rho * phi.cos()), Real(rho * phi.sin()), Real(r * theta.sin())],
        sin_theta: Real(theta.sin()),
        cos_theta: Real(theta.cos()),
        sin_2theta: Real((2.0 * theta).sin()),
        cos_2theta: Real((2.0 * theta).cos()),
        sin_2phi: Real((2.0 * phi).sin()),
        cos_2phi: Real((2.0 * phi).cos()),
        sin_3phi: Real((3.0 * phi).sin()),
        cos_3phi: Real((3.0 * phi).cos()),
    }
}

/// The tangents along the small and the large circles.
fn torus_tangents(theta: f64, phi: f64) -> ([f64; 3], [f64; 3]) {
    let r = 0.3;
    let rho = 1.0 + r * theta.cos();
    (
        [
            -r * theta.sin() * phi.cos(),
            -r * theta.sin() * phi.sin(),
            r * theta.cos(),
        ],
        [-rho * phi.sin(), rho * phi.cos(), 0.0],
    )
}

fn paired(form: [Real; 3], v: [f64; 3]) -> f64 {
    form.iter().zip(&v).map(|(a, b)| a.0 * b).sum()
}

fn paired_twice(form: [Real; 3], u: [f64; 3], v: [f64; 3]) -> f64 {
    form[0].0 * (u[0] * v[1] - u[1] * v[0])
        + form[1].0 * (u[0] * v[2] - u[2] * v[0])
        + form[2].0 * (u[1] * v[2] - u[2] * v[1])
}

#[test]
fn torus_differentials_are_dual_to_the_tangents() {
    let (theta, phi) = (0.7, 1.9);
    let p = torus_point(theta, phi);
    let (small, large) = torus_tangents(theta, phi);
    assert_eq!(minor_radius::<Real>().0, 0.3);
    assert!(close(paired(torus_dtheta(p), small), 1.0, 1e-12, 0.0));
    assert!(close(paired(torus_dtheta(p), large), 0.0, 1e-12, 0.0));
    assert!(close(paired(torus_dphi(p), small), 0.0, 1e-12, 0.0));
    assert!(close(paired(torus_dphi(p), large), 1.0, 1e-12, 0.0));
}

#[test]
fn torus_forms_keep_their_coefficients() {
    let (theta, phi) = (2.1, -0.4);
    let p = torus_point(theta, phi);
    let (small, large) = torus_tangents(theta, phi);
    let solution = torus_solution(p);
    assert!(close(paired(solution, small), solution_theta(p).0, 1e-10, 0.0));
    assert!(close(paired(solution, large), solution_phi(p).0, 1e-10, 0.0));
    let source = torus_source(p);
    assert!(close(paired(source, small), source_theta(p).0, 1e-9, 0.0));
    assert!(close(paired(source, large), source_phi(p).0, 1e-9, 0.0));
    let twice = paired_twice(chart_two_form_to_xyz(p, Real(2.0)), small, large);
    assert!(close(twice, 2.0, 1e-10, 0.0));
}

#[test]
fn torus_derivative_matches_differences() {
    let (theta, phi, h) = (0.9, 0.5, 1e-5);
    let across = (solution_phi(torus_point(theta + h, phi)).0
        - solution_phi(torus_point(theta - h, phi)).0)
        / (2.0 * h);
    let along = (solution_theta(torus_point(theta, phi + h)).0
        - solution_theta(torus_point(theta, phi - h)).0)
        / (2.0 * h);
    let p = torus_point(theta, phi);
    assert!(close(derivative_coeff(p).0, across - along, 1e-7, 0.0));
    let (small, large) = torus_tangents(theta, phi);
    let value = paired_twice(torus_dif_solution(p), small, large);
    assert!(close(value, derivative_coeff(p).0, 1e-10, 0.0));
}

#[test]
fn studies_have_default_resolutions() {
    assert_eq!(CUBE_RESOLUTIONS, [2, 4, 8, 16, 32]);
    assert_eq!(TORUS_RESOLUTIONS, [0, 1, 2, 3, 4, 5]);
}

#[test]
fn derivative_of_a_function_takes_differences_along_edges() {
    let (topology, _coords) = standard(2);
    let u = Cochain { dim: 0, coeffs: reals(&[1.0, 4.0, 9.0]) };
    let d = cochain_dif(&u, &topology);
    assert_eq!(d.dim, 1);
    assert_eq!(floats(&d.coeffs), [3.0, 8.0, 5.0]);
}

fn no_values(topology: &Complex, rule: &SimplexQuadRule<Real>, width: usize) -> Vec<Vec<Vec<Real>>> {
    vec![vec![vec![Real(0.0); width]; rule.points.len()]; topology.nsimplices(topology.dim())]
}

#[test]
fn errors_of_a_linear_function_against_zero() {
    let (topology, coords) = cartesian(1, 3);
    let rule = order3(1);
    let fe = Cochain { dim: 0, coeffs: coords.coords.iter().map(|p| p[0]).collect() };
    let geos = geometries(&topology, &coords);
    let zero = no_values(&topology, &rule, 1);
    let (form, graph) =
        graph_errors(&fe, 1, &topology, &coords, &geos, &rule, &zero, &zero).unwrap();
    assert!(close(form.0, (1.0f64 / 3.0).sqrt(), 1e-12, 0.0));
    assert!(close(graph.0, (4.0f64 / 3.0).sqrt(), 1e-12, 0.0));
    let wrong = graph_errors(&fe, 2, &topology, &coords, &geos, &rule, &zero, &zero);
    assert!(wrong.unwrap_err().contains("Exact field"));
}

#[test]
fn errors_of_a_level_compare_the_solutions() {
    let (topology, coords) = cartesian(3, 1);
    let rule = order3(3);
    let geos = geometries(&topology, &coords);
    let mass = elmats_of(&HodgeMassElmat::new(3, 2), &geos);
    let nfaces = topology.nsimplices(2);
    let zero = Cochain { dim: 2, coeffs: vec![Real(0.0); nfaces] };
    let coeffs = (0..nfaces).map(|i| Real(i as f64 / 10.0)).collect();
    let mixed = Cochain { dim: 2, coeffs };
    let exact = no_values(&topology, &rule, 3);
    let exact_derivative = no_values(&topology, &rule, 1);
    let data = LevelData {
        topology: &topology,
        coords: &coords,
        geometries: &geos,
        rule: &rule,
        exact: &exact,
        exact_derivative: &exact_derivative,
        mass_elmats: &mass,
    };
    let solutions = LevelSolutions { mixed: &mixed, nc1: &zero, rowsum: &mixed, bary: &zero };
    let errors = row_errors(&data, &solutions).unwrap();
    assert!(errors.mixed_l2.0 > 0.0);
    let (form, graph) =
        graph_errors(&mixed, 3, &topology, &coords, &geos, &rule, &exact, &exact_derivative)
            .unwrap();
    assert_eq!(errors.mixed_l2.0, form.0);
    assert_eq!(errors.mixed_hd.0, graph.0);
    assert!(errors.mixed_hd.0 > errors.mixed_l2.0);
    assert_eq!(errors.nc1_l2.0, 0.0);
    assert_eq!(errors.bary_hd.0, 0.0);
    assert_eq!(errors.rowsum_l2.0, errors.mixed_l2.0);
    assert_eq!(errors.mixed_rowsum_l2.0, 0.0);
    assert!(close(errors.mixed_nc1_l2.0, errors.mixed_l2.0, 1e-12, 1e-12));
    assert_eq!(errors.mixed_bary_l2.0, errors.mixed_nc1_l2.0);
}

fn sample_system() -> (CooMatrix<Real>, Vec<Real>) {
    let values = Mat::from_row_slice(
        4,
        4,
        &[
            4.0, 1.0, 0.5, -1.0, 1.0, 5.0, 2.0, 0.0, 0.5, 2.0, 6.0, 1.5, -1.0, 0.0, 1.5, 3.0,
        ],
    );
    let mut matrix = CooMatrix::zeros(4, 4);
    for r in 0..4 {
        for c in 0..4 {
            matrix.push(r, c, Real(values[(r, c)]));
        }
    }
    // A second value at a place that is listed already.
    matrix.push(0, 1, Real(0.25));
    (matrix, reals(&[1.0, -2.0, 3.0, 0.5]))
}

fn solved(matrix: &CooMatrix<Real>, rhs: &[Real]) -> Mat {
    let rhs = Mat::from_column_slice(rhs.len(), 1, &floats(rhs));
    coo(matrix).lu().solve(&rhs).unwrap()
}

#[test]
fn fixed_dofs_take_their_values_and_keep_the_other_equations() {
    let pairs = [(1, Real(2.0)), (3, Real(-1.0))];
    let (old, old_rhs) = sample_system();
    let systems: [fn(&[(usize, Real)], &mut CooMatrix<Real>, &mut Vec<Real>); 3] =
        [fix_dofs_coeff, fix_dofs_coeff_alt, fix_dofs_coeff_strong_coo];
    for fix in systems {
        let (mut matrix, mut rhs) = sample_system();
        fix(&pairs, &mut matrix, &mut rhs);
        let x = solved(&matrix, &rhs);
        assert!(close(x[1], 2.0, 1e-12, 0.0));
        assert!(close(x[3], -1.0, 1e-12, 0.0));
        let product = coo(&old) * &x;
        assert!(close(product[0], old_rhs[0].0, 1e-12, 0.0));
        assert!(close(product[2], old_rhs[2].0, 1e-12, 0.0));
    }
}

#[test]
fn dofs_fixed_to_zero_keep_the_other_equations() {
    let (old, old_rhs) = sample_system();
    let (mut matrix, mut rhs) = sample_system();
    fix_dofs_zero(&[0, 2], &mut matrix, &mut rhs);
    let x = solved(&matrix, &rhs);
    assert_eq!((x[0], x[2]), (0.0, 0.0));
    let product = coo(&old) * &x;
    assert!(close(product[1], old_rhs[1].0, 1e-12, 0.0));
    assert!(close(product[3], old_rhs[3].0, 1e-12, 0.0));
}

#[test]
fn weighted_matrices_scale_with_a_constant_weight() {
    let (topology, coords) = cartesian(2, 2);
    let geos = geometries(&topology, &coords);
    let weights = vec![ScalarWeight { value: Real(2.0) }; geos.len()];
    let mass = |grade: usize| elmats_of(&HodgeMassElmat::new(2, grade), &geos);
    let plain = MixedGalmats::compute(&topology, 1, &mass(1), &mass(0), &mass(2));
    let weighted = MixedGalmats::compute_weighted(&topology, 1, &geos, &weights);
    assert_close(&coo(weighted.mass_u()), &(coo(plain.mass_u()) * 2.0), 1e-12);
    assert_close(&coo(weighted.mass_sigma()), &(coo(plain.mass_sigma()) * 2.0), 1e-12);
    assert_close(&coo(weighted.dif_sigma()), &(coo(plain.dif_sigma()) * 2.0), 1e-12);
    assert_close(&coo(weighted.codif_u()), &(coo(plain.codif_u()) * 2.0), 1e-12);
    assert_close(&coo(weighted.codifdif_u()), &(coo(plain.codifdif_u()) * 2.0), 1e-12);
    let plain = LaplaceBeltramiGalmats::compute(
        &topology,
        &elmats_of(&LaplaceBeltramiElmat::new(2), &geos),
        &elmats_of(&ScalarMassElmat::new(), &geos),
    );
    let weighted = LaplaceBeltramiGalmats::compute_weighted(&topology, &geos, &weights);
    assert_close(&coo(weighted.stiffness()), &(coo(plain.stiffness()) * 2.0), 1e-12);
    assert_close(&coo(weighted.mass()), &(coo(plain.mass()) * 2.0), 1e-12);
}
